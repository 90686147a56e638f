use copyd::codec::{CreateJobRequest, Request};
use copyd::response::{
    CreateJobResponse, DailyStat, HealthCheckResponse, JobInfo, JobStatusResponse,
    ListJobsResponse, OpResponse, Progress, Response, SlowPath, StatsResponse,
};
use copyd::wire::{FrameError, MessageFramer};
use copyd::{parse_copy_engine, parse_exists_action, parse_verify_mode};
use copyd::{CopyEngine, ExistsAction, JobStatus, VerifyMode};

fn sample_create_job() -> CreateJobRequest {
    CreateJobRequest {
        sources: vec!["/t/a".to_string(), "/t/b".to_string()],
        destination: "/t/dest".to_string(),
        recursive: true,
        preserve_metadata: true,
        preserve_links: false,
        preserve_sparse: true,
        verify: VerifyMode::Sha256,
        exists_action: ExistsAction::Serial,
        priority: 7,
        max_rate_bps: 1048576,
        engine: CopyEngine::Reflink,
        dry_run: false,
        regex_rename_match: "\\.txt$".to_string(),
        regex_rename_replace: ".bak".to_string(),
        block_size: 4096,
        compress: false,
        encrypt: false,
    }
}

/// Framing round-trip at the executable level: encode, frame, deframe,
/// decode, and get the same message back.
#[test]
fn test_request_framing_roundtrip() {
    let request = Request::CreateJob(sample_create_job());
    let payload = request.encode();
    let frame = MessageFramer::frame_message(&payload).unwrap();
    let (recovered_payload, consumed) = MessageFramer::deframe_message(&frame).unwrap();
    assert_eq!(consumed, frame.len());
    assert_eq!(recovered_payload, payload);
    let decoded = Request::decode(&recovered_payload).unwrap();
    match decoded {
        Request::CreateJob(m) => {
            assert_eq!(m.sources, vec!["/t/a".to_string(), "/t/b".to_string()]);
            assert_eq!(m.destination, "/t/dest");
            assert!(m.recursive);
            assert!(m.preserve_metadata);
            assert!(!m.preserve_links);
            assert!(m.preserve_sparse);
            assert_eq!(m.verify, VerifyMode::Sha256);
            assert_eq!(m.exists_action, ExistsAction::Serial);
            assert_eq!(m.priority, 7);
            assert_eq!(m.max_rate_bps, 1048576);
            assert_eq!(m.engine, CopyEngine::Reflink);
            assert!(!m.dry_run);
            assert_eq!(m.regex_rename_match, "\\.txt$");
            assert_eq!(m.regex_rename_replace, ".bak");
            assert_eq!(m.block_size, 4096);
        }
        _ => panic!("wrong variant"),
    }
}

#[test]
fn test_small_request_roundtrips() {
    let cases = vec![
        Request::JobStatus { job_id: "j-1".to_string() },
        Request::ListJobs { include_completed: true },
        Request::CancelJob { job_id: "j-2".to_string() },
        Request::PauseJob { job_id: "j-3".to_string() },
        Request::ResumeJob { job_id: "j-4".to_string() },
        Request::GetStats { days_back: 30 },
        Request::HealthCheck,
    ];
    for original in cases {
        let payload = original.encode();
        let decoded = Request::decode(&payload).unwrap();
        let reencoded = decoded.encode();
        assert_eq!(reencoded, payload);
    }
}

#[test]
fn test_response_framing_roundtrip() {
    let progress = Progress {
        bytes_copied: 10,
        total_bytes: 100,
        files_copied: 1,
        total_files: 2,
        throughput_mbps: 5,
        eta_seconds: 18,
        status: JobStatus::Running.as_code(),
    };
    let response = Response::JobStatus(JobStatusResponse {
        job_id: "j-9".to_string(),
        progress: Some(progress),
        error: String::new(),
        log_entries: vec!["started".to_string(), "copying".to_string()],
    });
    let payload = response.encode();
    let frame = MessageFramer::frame_message(&payload).unwrap();
    let (recovered, _) = MessageFramer::deframe_message(&frame).unwrap();
    let decoded = Response::decode(&recovered).unwrap();
    match decoded {
        Response::JobStatus(m) => {
            assert_eq!(m.job_id, "j-9");
            assert_eq!(m.progress.unwrap(), progress);
            assert_eq!(m.error, "");
            assert_eq!(m.log_entries, vec!["started".to_string(), "copying".to_string()]);
        }
        _ => panic!("wrong variant"),
    }
}

#[test]
fn test_rich_response_roundtrips() {
    let list = Response::ListJobs(ListJobsResponse {
        jobs: vec![JobInfo {
            job_id: "a".to_string(),
            sources: vec!["/s".to_string()],
            destination: "/d".to_string(),
            progress: None,
            created_at: 1000,
            started_at: 0,
            completed_at: 0,
            priority: 3,
        }],
    });
    let stats = Response::GetStats(StatsResponse {
        total_bytes_copied: 1,
        total_files_copied: 2,
        total_jobs: 3,
        daily_stats: vec![DailyStat {
            date: "2026-01-01".to_string(),
            bytes_copied: 4,
            files_copied: 5,
            jobs_completed: 6,
        }],
        slow_paths: vec![SlowPath {
            path: "/slow".to_string(),
            avg_throughput_mbps: 7,
            copy_count: 8,
        }],
    });
    let health = Response::HealthCheck(HealthCheckResponse {
        healthy: true,
        version: "0.1.0".to_string(),
        uptime_seconds: 12,
        active_jobs: 1,
        queued_jobs: 2,
        memory_usage_bytes: 3,
        cpu_usage_percent: 4,
    });
    let create = Response::CreateJob(CreateJobResponse {
        job_id: "new".to_string(),
        error: String::new(),
    });
    let cancel = Response::CancelJob(OpResponse { success: true, error: String::new() });
    for original in vec![list, stats, health, create, cancel] {
        let payload = original.encode();
        let decoded = Response::decode(&payload).unwrap();
        assert_eq!(decoded.encode(), payload);
    }
}

#[test]
fn test_frame_rejects_oversize() {
    let payload = vec![0u8; 16 * 1024 * 1024 + 1];
    assert_eq!(MessageFramer::frame_message(&payload), Err(FrameError::TooLarge));

    // an announced length over the cap is fatal when deframing too
    let mut bogus = vec![0xffu8, 0xff, 0xff, 0x7f];
    bogus.extend(vec![0u8; 8]);
    assert!(matches!(MessageFramer::deframe_message(&bogus), Err(FrameError::TooLarge)));
}

#[test]
fn test_deframe_short_buffer_incomplete() {
    let payload = vec![1u8, 2, 3, 4, 5];
    let frame = MessageFramer::frame_message(&payload).unwrap();
    let truncated = frame[..frame.len() - 1].to_vec();
    assert!(matches!(
        MessageFramer::deframe_message(&truncated),
        Err(FrameError::Incomplete)
    ));
}

#[test]
fn test_decode_rejects_garbage() {
    // unknown variant tag
    let garbage = vec![99u8];
    assert!(Request::decode(&garbage).is_none());
    // trailing bytes after a valid message
    let mut payload = Request::HealthCheck.encode();
    payload.push(0);
    assert!(Request::decode(&payload).is_none());
}

#[test]
fn test_keyword_parsers() {
    assert_eq!(parse_verify_mode("none"), 0);
    assert_eq!(parse_verify_mode("Size"), 1);
    assert_eq!(parse_verify_mode("MD5"), 2);
    assert_eq!(parse_verify_mode("sha256"), 3);
    assert_eq!(parse_verify_mode("bogus"), 0);

    assert_eq!(parse_exists_action("overwrite"), 0);
    assert_eq!(parse_exists_action("SKIP"), 1);
    assert_eq!(parse_exists_action("serial"), 2);
    assert_eq!(parse_exists_action("bogus"), 0);

    assert_eq!(parse_copy_engine("auto"), 0);
    assert_eq!(parse_copy_engine("io_uring"), 1);
    assert_eq!(parse_copy_engine("copy_file_range"), 2);
    assert_eq!(parse_copy_engine("sendfile"), 3);
    assert_eq!(parse_copy_engine("Reflink"), 4);
    assert_eq!(parse_copy_engine("read_write"), 5);
    assert_eq!(parse_copy_engine("bogus"), 0);
}

#[test]
fn test_enum_codings_stable() {
    assert_eq!(VerifyMode::Disabled.as_code(), 0);
    assert_eq!(VerifyMode::Sha256.as_code(), 3);
    assert_eq!(ExistsAction::Serial.as_code(), 2);
    assert_eq!(CopyEngine::ReadWrite.as_code(), 5);
    assert_eq!(JobStatus::Cancelled.as_code(), 5);
    assert_eq!(VerifyMode::from_code(2), VerifyMode::Md5);
    assert_eq!(ExistsAction::from_code(77), ExistsAction::Overwrite);
    assert_eq!(CopyEngine::from_code(4), CopyEngine::Reflink);
    assert_eq!(JobStatus::from_code(3), JobStatus::Completed);
}
