use copyd::error::{CopydError, ErrorContext, ErrorSeverity};
use copyd::monitor::{health_level, HealthLevel};
use copyd::rename::RegexRenamer;
use copyd::{SecurityConfig, SecurityValidator};

#[test]
fn test_path_validation() {
    let validator = SecurityValidator::new(SecurityConfig::default());

    assert!(validator.validate_path("/tmp/test.txt").is_ok());
    assert!(validator.validate_path("/tmp/../etc").is_err());
    assert!(validator.validate_path("/proc/version").is_err());
}

#[test]
fn test_extension_validation() {
    let validator = SecurityValidator::new(SecurityConfig::default());

    assert!(validator.validate_extension("test.txt").is_ok());
    assert!(validator.validate_extension("malware.exe").is_err());
    assert!(validator.validate_extension("SHOUTY.EXE").is_err());
}

#[test]
fn test_size_validation() {
    let validator = SecurityValidator::new(SecurityConfig::default());
    assert!(validator.validate_size(1024).is_ok());
    assert!(validator.validate_size(100 * 1024 * 1024 * 1024).is_ok());
    assert!(validator.validate_size(100 * 1024 * 1024 * 1024 + 1).is_err());
}

#[test]
fn test_operation_validation() {
    let validator = SecurityValidator::new(SecurityConfig::default());
    let sources = vec!["/tmp/a".to_string(), "/tmp/b".to_string()];
    assert!(validator.validate_operation(&sources, "/tmp/out").is_ok());

    let same = vec!["/tmp/out".to_string()];
    assert!(matches!(
        validator.validate_operation(&same, "/tmp/out"),
        Err(CopydError::SameSourceDestination { .. })
    ));

    let blocked = vec!["/tmp/setup.exe".to_string()];
    assert!(validator.validate_operation(&blocked, "/tmp/out").is_err());
}

#[test]
fn test_error_severity() {
    let error = CopydError::FileNotFound { path: "/test".to_string() };
    assert_eq!(error.severity(), ErrorSeverity::Medium);
    assert!(error.exit_code() == 1);
}

#[test]
fn test_retryable_errors() {
    let retryable = CopydError::TemporaryFailure { reason: "test".to_string() };
    assert!(retryable.is_retryable());

    let non_retryable = CopydError::FileNotFound { path: "/test".to_string() };
    assert!(!non_retryable.is_retryable());
}

#[test]
fn test_error_context_builder() {
    let context = ErrorContext::new("copy operation")
        .with_path("/source")
        .with_job_id("job123")
        .with_info("engine", "reflink");
    assert_eq!(context.operation, "copy operation");
    assert_eq!(context.path.as_deref(), Some("/source"));
    assert_eq!(context.job_id.as_deref(), Some("job123"));
    assert_eq!(context.additional_info.len(), 1);
    assert_eq!(context.additional_info[0].0, "engine");
    assert_eq!(context.additional_info[0].1, "reflink");
}

#[test]
fn test_health_levels() {
    assert_eq!(health_level(100, 10, 0), HealthLevel::Healthy);
    assert_eq!(health_level(1500, 10, 0), HealthLevel::Warning);
    assert_eq!(health_level(100, 92, 0), HealthLevel::Warning);
    assert_eq!(health_level(2500, 10, 0), HealthLevel::Critical);
    assert_eq!(health_level(100, 10, 501), HealthLevel::Critical);
}

#[test]
fn test_regex_renamer_basic() {
    let renamer = RegexRenamer::new("\\.txt$", ".bak").unwrap();
    assert!(renamer.is_enabled());

    let result = renamer.transform_path("file.txt", "/tmp/dest", true);
    assert_eq!(result, "/tmp/dest/file.bak");
}

#[test]
fn test_regex_renamer_no_match() {
    let renamer = RegexRenamer::new("\\.txt$", ".bak").unwrap();

    let result = renamer.transform_path("file.pdf", "/tmp/dest", true);
    assert_eq!(result, "/tmp/dest");
}

#[test]
fn test_regex_renamer_disabled() {
    let renamer = RegexRenamer::disabled();
    assert!(!renamer.is_enabled());

    let result = renamer.transform_path("file.txt", "/tmp/dest", true);
    assert_eq!(result, "/tmp/dest");
}

#[test]
fn test_regex_renamer_complex_pattern() {
    let renamer = RegexRenamer::new("^(.+)\\.(.+)$", "2024_$1.$2").unwrap();

    let result = renamer.transform_path("document.pdf", "/tmp/dest", true);
    assert_eq!(result, "/tmp/dest/2024_document.pdf");
}

#[test]
fn test_regex_renamer_file_target() {
    // with a file destination the renamed file lands beside it
    let renamer = RegexRenamer::new("\\.txt$", ".bak").unwrap();
    let result = renamer.transform_path("file.txt", "/tmp/dest/out.txt", false);
    assert_eq!(result, "/tmp/dest/file.bak");
}

#[test]
fn test_invalid_regex_pattern() {
    let result = RegexRenamer::new("[invalid", "replacement");
    assert!(result.is_err());
}

#[test]
fn test_regex_renamer_preview() {
    let renamer = RegexRenamer::new("(\\d+)", "num_$1").unwrap();

    let sources = vec![
        "file1.txt".to_string(),
        "document.pdf".to_string(),
        "image42.jpg".to_string(),
    ];

    let previews = renamer.preview_transformations(&sources, "/tmp/dest", true);

    assert_eq!(previews.len(), 3);
    assert_eq!(previews[0].new_name, "filenum_1.txt");
    assert_eq!(previews[1].new_name, "document.pdf");
    assert_eq!(previews[2].new_name, "imagenum_42.jpg");

    assert!(previews[0].would_change);
    assert!(!previews[1].would_change);
    assert!(previews[2].would_change);

    assert_eq!(previews[0].new_path, "/tmp/dest/filenum_1.txt");
    assert_eq!(previews[0].display(), "file1.txt -> /tmp/dest/filenum_1.txt");
    assert_eq!(previews[1].display(), "document.pdf (unchanged)");
}

#[test]
fn test_regex_renamer_validation() {
    let valid_renamer = RegexRenamer::new("\\.txt$", ".bak").unwrap();
    assert!(valid_renamer.validate().is_ok());

    let empty_renamer = RegexRenamer::new(".*", "").unwrap();
    assert!(empty_renamer.validate().is_err());

    let path_renamer = RegexRenamer::new("(.*)", "subdir/$1").unwrap();
    assert!(path_renamer.validate().is_err());
}

/// Exactly six kinds are retryable: transient failures, exhausted
/// resources, timeouts, lost daemon connections and submission-queue
/// failures; everything else is not.
#[test]
fn test_retryable_set_exact() {
    let retryable = vec![
        CopydError::TemporaryFailure { reason: "x".to_string() },
        CopydError::InsufficientSpace { required: 1, available: 0 },
        CopydError::ResourceLimitExceeded {
            resource: "x".to_string(),
            limit: 1,
            current: 2,
        },
        CopydError::RequestTimeout { timeout_ms: 100 },
        CopydError::DaemonConnectionFailed { reason: "x".to_string() },
        CopydError::IoUringFailed {
            operation: "read".to_string(),
            reason: "x".to_string(),
        },
    ];
    for e in &retryable {
        assert!(e.is_retryable());
    }
    let not_retryable = vec![
        CopydError::FileNotFound { path: "/x".to_string() },
        CopydError::PermissionDenied { path: "/x".to_string() },
        CopydError::InvalidPath { path: "/x".to_string() },
        CopydError::DestinationExists { path: "/x".to_string() },
        CopydError::SameSourceDestination { path: "/x".to_string() },
        CopydError::CrossDevice { source: "/a".to_string(), destination: "/b".to_string() },
        CopydError::CopyEngineFailed { engine: "x".to_string(), reason: "x".to_string() },
        CopydError::VerificationFailed { expected: "a".to_string(), actual: "b".to_string() },
        CopydError::JobNotFound { job_id: "j".to_string() },
        CopydError::InvalidJobState {
            job_id: "j".to_string(),
            current_state: "x".to_string(),
        },
        CopydError::CheckpointCorrupted { job_id: "j".to_string(), reason: "x".to_string() },
        CopydError::ProtocolError { message: "x".to_string() },
        CopydError::InvalidRegexPattern { pattern: "(".to_string(), reason: "x".to_string() },
        CopydError::SystemCallFailed { syscall: "x".to_string(), errno: 1 },
        CopydError::InvalidInput { field: "x".to_string(), reason: "x".to_string() },
        CopydError::OperationCancelled,
        CopydError::InternalError { message: "x".to_string() },
        CopydError::Unsupported { feature: "x".to_string() },
    ];
    for e in &not_retryable {
        assert!(!e.is_retryable());
    }
}
