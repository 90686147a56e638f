use copyd::codec::CreateJobRequest;
use copyd::job::{job_final_status, Job, JobManager, JobOptions, QueueEntry};
use copyd::{CopyEngine, ExistsAction, JobStatus, VerifyMode};

fn request_for(dest: &str, priority: u32) -> CreateJobRequest {
    CreateJobRequest {
        sources: vec!["/tmp/test.txt".to_string()],
        destination: dest.to_string(),
        recursive: false,
        preserve_metadata: true,
        preserve_links: false,
        preserve_sparse: false,
        verify: VerifyMode::Disabled,
        exists_action: ExistsAction::Overwrite,
        priority,
        max_rate_bps: 0,
        engine: CopyEngine::Auto,
        dry_run: false,
        regex_rename_match: String::new(),
        regex_rename_replace: String::new(),
        block_size: 0,
        compress: false,
        encrypt: false,
    }
}

#[test]
fn test_job_manager_basic_operations() {
    let mut manager = JobManager::new(2);

    let created = manager.create_job(request_for("/tmp/dest.txt", 100), "job-1".to_string(), 50);
    assert!(created);

    let job = manager.get_job("job-1");
    assert!(job.is_some());
    let job = job.unwrap();
    assert_eq!(job.id, "job-1");
    assert_eq!(job.sources.len(), 1);
    assert_eq!(job.destination, "/tmp/dest.txt");
    assert_eq!(job.get_status(), JobStatus::Pending);

    let jobs = manager.list_jobs(false);
    assert_eq!(jobs.len(), 1);
    assert_eq!(jobs[0].id, "job-1");

    // a second job under the same id is refused
    assert!(!manager.create_job(request_for("/tmp/x", 1), "job-1".to_string(), 51));
}

/// Priority admission: among jobs pending at once, the higher priority is
/// admitted first; equal priorities stay first-come-first-served.
#[test]
fn test_priority_admission_order() {
    let mut manager = JobManager::new(3);
    assert!(manager.create_job(request_for("/d1", 1), "low".to_string(), 1));
    assert!(manager.create_job(request_for("/d2", 9), "high".to_string(), 2));
    assert!(manager.create_job(request_for("/d3", 9), "high-later".to_string(), 3));
    assert!(manager.create_job(request_for("/d4", 5), "mid".to_string(), 4));

    let order: Vec<String> = manager.queue.iter().map(|e| e.job_id.clone()).collect();
    assert_eq!(
        order,
        vec![
            "high".to_string(),
            "high-later".to_string(),
            "mid".to_string(),
            "low".to_string()
        ]
    );

    let first = manager.try_admit().unwrap();
    assert_eq!(first.job_id, "high");
    let second = manager.try_admit().unwrap();
    assert_eq!(second.job_id, "high-later");
}

/// Resumed jobs run before everything freshly submitted, whatever their
/// priority.
#[test]
fn test_resumed_jobs_run_first() {
    let mut manager = JobManager::new(2);
    assert!(manager.create_job(request_for("/d", 9), "fresh".to_string(), 1));
    manager.enqueue_front("resumed".to_string(), 0);
    let first = manager.try_admit().unwrap();
    assert_eq!(first.job_id, "resumed");
    assert!(first.resumed);
}

/// Admission respects the permit cap.
#[test]
fn test_concurrent_job_execution() {
    let mut manager = JobManager::new(2);
    for i in 0..3 {
        let id = format!("job-{}", i);
        assert!(manager.create_job(request_for("/d", 1), id, 1));
    }
    assert!(manager.try_admit().is_some());
    assert!(manager.try_admit().is_some());
    // both permits taken: the third job waits
    assert!(manager.try_admit().is_none());
    manager.release_permit();
    assert!(manager.try_admit().is_some());

    let jobs = manager.list_jobs(true);
    assert_eq!(jobs.len(), 3);
}

/// Terminal states are absorbing: a cancelled job never transitions again.
#[test]
fn test_terminal_states_absorbing() {
    let mut job = Job::new("j".to_string(), request_for("/d", 1), 100);
    job.set_status(JobStatus::Running, 101);
    assert_eq!(job.get_status(), JobStatus::Running);
    assert_eq!(job.started_at, 101);

    job.set_status(JobStatus::Completed, 102);
    assert_eq!(job.get_status(), JobStatus::Completed);
    assert_eq!(job.completed_at, 102);

    // every further request bounces off
    job.set_status(JobStatus::Cancelled, 103);
    assert_eq!(job.get_status(), JobStatus::Completed);
    job.set_status(JobStatus::Running, 104);
    assert_eq!(job.get_status(), JobStatus::Completed);
    assert_eq!(job.completed_at, 102);
}

#[test]
fn test_cancel_pause_resume() {
    let mut manager = JobManager::new(2);
    assert!(manager.create_job(request_for("/d", 1), "a".to_string(), 1));

    // pause applies only to running jobs
    assert!(!manager.pause_job("a", 2));

    let admitted = manager.try_admit().unwrap();
    assert_eq!(admitted.job_id, "a");
    manager.apply_status("a", JobStatus::Running, 3);
    assert!(manager.pause_job("a", 4));
    assert_eq!(manager.get_job("a").unwrap().get_status(), JobStatus::Paused);

    assert!(manager.resume_job("a", 5));
    assert_eq!(manager.get_job("a").unwrap().get_status(), JobStatus::Pending);

    assert!(manager.cancel_job("a", 6));
    assert_eq!(manager.get_job("a").unwrap().get_status(), JobStatus::Cancelled);
    // cancelled is terminal: pause and resume bounce off
    assert!(!manager.pause_job("a", 7));
    assert_eq!(manager.get_job("a").unwrap().get_status(), JobStatus::Cancelled);
}

/// Progress counters only grow within one execution.
#[test]
fn test_progress_monotonic() {
    let mut job = Job::new("j".to_string(), request_for("/d", 1), 100);
    job.set_totals(1000, 3);
    job.record_progress(100, 1);
    assert_eq!(job.progress.bytes_copied, 100);
    job.record_progress(400, 1);
    assert_eq!(job.progress.bytes_copied, 500);
    assert_eq!(job.progress.files_copied, 2);
    assert_eq!(job.progress.total_bytes, 1000);
}

/// The log ring keeps only the last hundred entries.
#[test]
fn test_log_ring_cap() {
    let mut job = Job::new("j".to_string(), request_for("/d", 1), 100);
    for i in 0..105 {
        job.push_log(format!("line {}", i));
    }
    assert_eq!(job.log_entries.len(), 100);
    assert_eq!(job.log_entries[0], "line 5");
    assert_eq!(job.log_entries[99], "line 104");
}

#[test]
fn test_job_options_from_request() {
    let mut request = request_for("/d", 1);
    request.max_rate_bps = 0;
    request.block_size = 4096;
    request.regex_rename_match = String::new();
    request.regex_rename_replace = ".bak".to_string();
    let options = JobOptions::from_request(&request);
    assert!(options.max_rate_bps.is_none());
    assert_eq!(options.block_size, Some(4096));
    assert!(options.regex_rename_match.is_none());
    assert_eq!(options.regex_rename_replace.as_deref(), Some(".bak"));
}

#[test]
fn test_queue_entry_fields() {
    let entry = QueueEntry { job_id: "x".to_string(), priority: 3, resumed: false };
    assert_eq!(entry.job_id, "x");
    assert_eq!(entry.priority, 3);
    assert!(!entry.resumed);
}

/// Lifecycle requests leave their log lines, as status queries report them.
#[test]
fn test_lifecycle_log_lines() {
    let mut manager = JobManager::new(2);
    assert!(manager.create_job(request_for("/d", 1), "a".to_string(), 1));
    manager.apply_status("a", JobStatus::Running, 2);

    assert!(manager.pause_job("a", 3));
    let log = manager.get_job("a").unwrap().log_entries.clone();
    assert!(log.last().unwrap().contains("Job paused"));

    assert!(manager.resume_job("a", 4));
    let log = manager.get_job("a").unwrap().log_entries.clone();
    assert!(log.last().unwrap().contains("Job resumed"));

    assert!(manager.cancel_job("a", 5));
    let log = manager.get_job("a").unwrap().log_entries.clone();
    assert!(log.last().unwrap().contains("Job cancelled by user"));
    // the queue entry the resume added is gone again
    assert!(manager.queue.iter().all(|e| e.job_id != "a"));
}

/// A single file failure is not job-fatal unless it is the only work; a
/// job fails exactly when every one of its files failed.
#[test]
fn test_job_final_status() {
    assert_eq!(job_final_status(0, 0), JobStatus::Completed);
    assert_eq!(job_final_status(0, 5), JobStatus::Completed);
    assert_eq!(job_final_status(1, 3), JobStatus::Completed);
    assert_eq!(job_final_status(1, 1), JobStatus::Failed);
    assert_eq!(job_final_status(3, 3), JobStatus::Failed);
}
