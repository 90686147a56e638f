use copyd::browser::{AppScreen, ConfigEditor, FileEntry, HelpScreen, JobMonitor};
use copyd::checkpoint::CheckpointStats;
use copyd::{new_job_id, Config};

#[test]
fn test_app_screen_titles() {
    assert_eq!(AppScreen::FileBrowser.as_str(), "File Browser");
    assert_eq!(AppScreen::JobMonitor.as_str(), "Job Monitor");
    assert_eq!(AppScreen::Config.as_str(), "Configuration");
    assert_eq!(AppScreen::Help.as_str(), "Help");
}

#[test]
fn test_screen_constructors() {
    let _help = HelpScreen::new();
    let monitor = JobMonitor::new();
    assert_eq!(monitor.jobs.len(), 1);
    assert!(ConfigEditor::new().is_ok());
}

#[test]
fn test_display_size() {
    let dir = FileEntry {
        name: "d".to_string(),
        path: "/d".to_string(),
        is_dir: true,
        size: 0,
        permissions: "755".to_string(),
    };
    assert_eq!(dir.display_size(), "<DIR>");
    let file = FileEntry {
        name: "f".to_string(),
        path: "/f".to_string(),
        is_dir: false,
        size: 1536,
        permissions: "644".to_string(),
    };
    assert_eq!(file.display_size(), "1.5 KB");
}

#[test]
fn test_default_config() {
    let config = Config::default();
    assert_eq!(config.socket_path, "/run/copyd/copyd.sock");
    assert!(config.max_concurrent_jobs >= 1);
    assert_eq!(config.max_job_queue_size, 1000);
    assert_eq!(config.default_block_size, 1024 * 1024);
    assert_eq!(config.metrics_bind_addr.as_deref(), Some("127.0.0.1:9090"));
    assert_eq!(config.log_level, "info");
    assert_eq!(config.checkpoint_dir, "/var/lib/copyd/checkpoints");
    assert!(!config.enable_compression);
    assert!(!config.enable_encryption);
}

#[test]
fn test_job_ids_are_fresh() {
    let a = new_job_id();
    let b = new_job_id();
    assert_eq!(a.chars().count(), 36);
    assert_eq!(b.chars().count(), 36);
    assert_ne!(a, b);
}

#[test]
fn test_checkpoint_stats_default() {
    let stats = CheckpointStats::default();
    assert_eq!(stats.total_checkpoints, 0);
    assert_eq!(stats.resumable_jobs, 0);
    assert_eq!(stats.resumed_jobs, 0);
    assert_eq!(stats.total_bytes, 0);
    assert_eq!(stats.completed_bytes, 0);
}

#[test]
fn test_add_log_lines() {
    let request = copyd::CreateJobRequest {
        sources: vec!["/s".to_string()],
        destination: "/d".to_string(),
        recursive: false,
        preserve_metadata: false,
        preserve_links: false,
        preserve_sparse: false,
        verify: copyd::VerifyMode::Disabled,
        exists_action: copyd::ExistsAction::Overwrite,
        priority: 1,
        max_rate_bps: 0,
        engine: copyd::CopyEngine::Auto,
        dry_run: false,
        regex_rename_match: String::new(),
        regex_rename_replace: String::new(),
        block_size: 0,
        compress: false,
        encrypt: false,
    };
    let mut job = copyd::Job::new("j".to_string(), request, 5);
    job.add_log("job started");
    assert_eq!(job.log_entries.len(), 1);
    // the line carries a timestamp prefix ahead of the message
    assert!(job.log_entries[0].contains("job started"));
    assert!(job.log_entries[0].len() > "job started".len());
}
