use copyd::{
    can_resume_file, create_file_id, CheckpointManager, FileCheckpoint, JobCheckpoint,
};

fn sample_file_checkpoint() -> FileCheckpoint {
    FileCheckpoint {
        source_path: "/tmp/source.txt".to_string(),
        destination_path: "/tmp/dest.txt".to_string(),
        bytes_copied: 512,
        total_size: 1024,
        last_modified: 1234567890,
        checksum_partial: Some("abc123".to_string()),
        chunk_size: 4096,
        created_at: 1234567890,
        updated_at: 1234567890,
    }
}

#[test]
fn test_checkpoint_creation() {
    let checkpoint = JobCheckpoint::new("test-job".to_string(), "copy".to_string());
    assert_eq!(checkpoint.job_id, "test-job");
    assert_eq!(checkpoint.operation_type, "copy");
    assert_eq!(checkpoint.total_files, 0);
    assert_eq!(checkpoint.total_bytes, 0);
}

#[test]
fn test_checkpoint_manager() {
    let mut manager = CheckpointManager::new();

    let mut checkpoint = JobCheckpoint::new("test-job".to_string(), "copy".to_string());
    checkpoint.total_bytes = 1000;
    checkpoint.bytes_completed = 500;

    manager.save_checkpoint(checkpoint);

    let loaded = manager.load_checkpoint("test-job");
    assert!(loaded.is_some());
    let loaded = loaded.unwrap();
    assert_eq!(loaded.job_id, "test-job");
    assert_eq!(loaded.total_bytes, 1000);
    assert_eq!(loaded.bytes_completed, 500);

    manager.delete_checkpoint("test-job");
    let deleted = manager.load_checkpoint("test-job");
    assert!(deleted.is_none());
}

#[test]
fn test_file_id_creation() {
    let source = "/tmp/source.txt";
    let dest = "/tmp/dest.txt";
    let id1 = create_file_id(source, dest);
    let id2 = create_file_id(source, dest);
    assert_eq!(id1, id2);

    let dest2 = "/tmp/dest2.txt";
    let id3 = create_file_id(source, dest2);
    assert_ne!(id1, id3);
}

#[test]
fn test_checkpoint_system() {
    let mut manager = CheckpointManager::new();

    let mut checkpoint = JobCheckpoint::new("test-job".to_string(), "copy".to_string());
    checkpoint.add_file("file1".to_string(), sample_file_checkpoint());

    manager.save_checkpoint(checkpoint);

    let loaded = manager.load_checkpoint("test-job");
    assert!(loaded.is_some());

    let loaded_checkpoint = loaded.unwrap();
    assert_eq!(loaded_checkpoint.job_id, "test-job");
    assert_eq!(loaded_checkpoint.total_files, 1);
    assert_eq!(loaded_checkpoint.total_bytes, 1024);
    assert_eq!(loaded_checkpoint.files.len(), 1);
    assert_eq!(loaded_checkpoint.files[0].0, "file1");

    manager.delete_checkpoint("test-job");
    let deleted = manager.load_checkpoint("test-job");
    assert!(deleted.is_none());
}

#[test]
fn test_progress_updates_monotonic() {
    let mut checkpoint = JobCheckpoint::new("j".to_string(), "copy".to_string());
    checkpoint.add_file("f".to_string(), sample_file_checkpoint());
    let before = checkpoint.bytes_completed;
    checkpoint.update_file_progress("f", 600, None);
    assert!(checkpoint.bytes_completed >= before);
    let mid = checkpoint.bytes_completed;
    checkpoint.update_file_progress("f", 900, None);
    assert!(checkpoint.bytes_completed >= mid);
}

#[test]
fn test_complete_and_fail_file() {
    let mut checkpoint = JobCheckpoint::new("j".to_string(), "copy".to_string());
    checkpoint.add_file("a".to_string(), sample_file_checkpoint());
    checkpoint.add_file("b".to_string(), sample_file_checkpoint());
    assert!(checkpoint.is_resumable());

    checkpoint.complete_file("a".to_string());
    assert_eq!(checkpoint.completed_files.len(), 1);
    assert_eq!(checkpoint.files.len(), 1);
    // the uncounted half of the completed file is credited on completion
    assert_eq!(checkpoint.bytes_completed, 512);

    checkpoint.fail_file("b".to_string());
    assert_eq!(checkpoint.failed_files.len(), 1);
    assert_eq!(checkpoint.files.len(), 0);
    assert!(checkpoint.is_resumable());
}

#[test]
fn test_resume_count_and_listing() {
    let mut manager = CheckpointManager::new();

    let mut resumable = JobCheckpoint::new("busy".to_string(), "copy".to_string());
    resumable.add_file("f".to_string(), sample_file_checkpoint());
    resumable.increment_resume_count();
    assert_eq!(resumable.resume_count, 1);
    manager.save_checkpoint(resumable);

    let finished = JobCheckpoint::new("done".to_string(), "copy".to_string());
    manager.save_checkpoint(finished);

    let ids = manager.list_resumable_jobs();
    assert_eq!(ids, vec!["busy".to_string()]);

    let stats = manager.get_checkpoint_stats();
    assert_eq!(stats.total_checkpoints, 2);
    assert_eq!(stats.resumable_jobs, 1);
    assert_eq!(stats.resumed_jobs, 1);
    assert_eq!(stats.total_bytes, 1024);
}

#[test]
fn test_cleanup_drops_stale_records() {
    let mut manager = CheckpointManager::new();
    let mut old_cp = JobCheckpoint::new("old".to_string(), "copy".to_string());
    old_cp.updated_at = 100;
    let mut fresh = JobCheckpoint::new("fresh".to_string(), "copy".to_string());
    fresh.updated_at = 10_000;
    manager.save_checkpoint(old_cp);
    manager.save_checkpoint(fresh);

    let removed = manager.cleanup_before(1000);
    assert_eq!(removed, 1);
    assert!(manager.load_checkpoint("old").is_none());
    assert!(manager.load_checkpoint("fresh").is_some());
}

#[test]
fn test_resume_safety_rule() {
    let cp = sample_file_checkpoint();
    // everything matches: resume allowed
    assert!(can_resume_file(&cp, true, 512, 1234567890, 1024));
    // destination missing
    assert!(!can_resume_file(&cp, false, 512, 1234567890, 1024));
    // destination size differs from the recorded bytes
    assert!(!can_resume_file(&cp, true, 513, 1234567890, 1024));
    // source modified since the checkpoint
    assert!(!can_resume_file(&cp, true, 512, 1234567891, 1024));
    // source size changed
    assert!(!can_resume_file(&cp, true, 512, 1234567890, 1025));
}

/// Resume after interruption, at the store level: a half-copied job is
/// found resumable after a restart, runs ahead of fresh work, and counts
/// its resumption; an on-disk state that matches the record may resume
/// where it stopped.
#[test]
fn test_resume_after_interruption() {
    // the first run records one megabyte of a ten-megabyte file
    let mut manager = CheckpointManager::new();
    let mut checkpoint = JobCheckpoint::new("big-copy".to_string(), "copy".to_string());
    let file = FileCheckpoint {
        source_path: "/t/big.bin".to_string(),
        destination_path: "/t/out.bin".to_string(),
        bytes_copied: 0,
        total_size: 10 * 1024 * 1024,
        last_modified: 7777,
        checksum_partial: None,
        chunk_size: 65536,
        created_at: 1,
        updated_at: 1,
    };
    checkpoint.add_file("big".to_string(), file);
    checkpoint.update_file_progress("big", 1024 * 1024, None);
    manager.save_checkpoint(checkpoint);

    // after the restart the job is discovered and re-enqueued at the head
    let resumable = manager.list_resumable_jobs();
    assert_eq!(resumable, vec!["big-copy".to_string()]);
    let mut record = manager.load_checkpoint("big-copy").unwrap().clone();
    record.increment_resume_count();
    assert!(record.resume_count >= 1);

    // a destination of exactly the recorded length with an unchanged
    // source may resume; any mismatch restarts from zero
    let (_, file) = &record.files[0];
    assert!(can_resume_file(file, true, 1024 * 1024, 7777, 10 * 1024 * 1024));
    assert!(!can_resume_file(file, true, 999, 7777, 10 * 1024 * 1024));
    manager.save_checkpoint(record);
}

/// A stored record rebuilds a creation request: every in-flight source in
/// order, the first file's parent directory as the destination, and
/// recovery defaults everywhere else.
#[test]
fn test_reconstruct_request() {
    let mut cp = JobCheckpoint::new("job-r".to_string(), "copy".to_string());
    let mut a = sample_file_checkpoint();
    a.source_path = "/data/a.txt".to_string();
    a.destination_path = "/backup/out/a.txt".to_string();
    let mut b = sample_file_checkpoint();
    b.source_path = "/data/b.txt".to_string();
    b.destination_path = "/backup/out/b.txt".to_string();
    cp.add_file("f-a".to_string(), a);
    cp.add_file("f-b".to_string(), b);

    let request = cp.reconstruct_request();
    assert_eq!(
        request.sources,
        vec!["/data/a.txt".to_string(), "/data/b.txt".to_string()]
    );
    assert_eq!(request.destination, "/backup/out");
    assert!(request.recursive);
    assert!(request.preserve_metadata);
    assert!(!request.dry_run);
    assert_eq!(request.priority, 100);

    let empty = JobCheckpoint::new("job-e".to_string(), "copy".to_string());
    assert_eq!(empty.reconstruct_request().sources.len(), 0);
    assert_eq!(empty.reconstruct_request().destination, "");
}
