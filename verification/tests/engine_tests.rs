use copyd::engine::{
    copy_bytes, decode_user_data, dry_run_outcome, encode_user_data, get_copy_engine,
    required_nanos, resolve_exists_action, sleep_deficit_nanos, uring_step, ExistsResolution,
    FileCopyEngine, UringAction, UringState,
};
use copyd::verify::FileVerifier;
use copyd::{CopyEngine, ExistsAction, VerifyMode};

/// Small file copy: the bytes come through unchanged and the returned
/// count is the source length.
#[test]
fn test_copy_engine_basic_file_copy() {
    let source = b"Hello, World!".to_vec();
    let (dest, bytes_copied) = copy_bytes(&source, 4096);
    assert_eq!(bytes_copied, 13);
    assert_eq!(dest, source);
}

/// Size preservation: a chunked copy of any contents has the source size.
#[test]
fn test_copy_preserves_size_across_blocks() {
    let source = vec![0xa5u8; 1_000_003];
    for block in [1usize, 7, 4096, 1 << 20] {
        let (dest, n) = copy_bytes(&source, block);
        assert_eq!(n, source.len() as u64);
        assert_eq!(dest.len(), source.len());
        assert_eq!(dest, source);
    }
}

/// Verification soundness at runtime: identical contents verify under
/// every mode; different contents fail the digest modes.
#[test]
fn test_verification_system() {
    let a = b"Test data for verification".to_vec();
    let b = a.clone();
    let c = b"Something else entirely".to_vec();
    assert!(FileVerifier::verify_copy(&a, &b, VerifyMode::Disabled));
    assert!(FileVerifier::verify_copy(&a, &b, VerifyMode::Size));
    assert!(FileVerifier::verify_copy(&a, &b, VerifyMode::Md5));
    assert!(FileVerifier::verify_copy(&a, &b, VerifyMode::Sha256));
    assert!(!FileVerifier::verify_copy(&a, &c, VerifyMode::Sha256));
    assert!(!FileVerifier::verify_copy(&a, &c, VerifyMode::Md5));
    assert!(!FileVerifier::verify_copy(&a, &c, VerifyMode::Size));
}

/// Known digests pin the checksum path down: these are the standard MD5
/// and SHA-256 values of "abc" and of the empty input.
#[test]
fn test_checksum_known_values() {
    let abc = b"abc".to_vec();
    let empty: Vec<u8> = Vec::new();
    assert_eq!(
        FileVerifier::calculate_checksum(&abc, VerifyMode::Md5),
        "900150983cd24fb0d6963f7d28e17f72"
    );
    assert_eq!(
        FileVerifier::calculate_checksum(&abc, VerifyMode::Sha256),
        "ba7816bf8f01cfea414140de5dae2223b00361a396177a9cb410ff61f20015ad"
    );
    assert_eq!(
        FileVerifier::calculate_checksum(&empty, VerifyMode::Sha256),
        "e3b0c44298fc1c149afbf4c8996fb92427ae41e4649b934ca495991b7852b855"
    );
    assert_eq!(FileVerifier::calculate_checksum(&abc, VerifyMode::Size), "3");
    assert_eq!(FileVerifier::calculate_checksum(&abc, VerifyMode::Disabled), "");
}

/// Skip policy: an existing destination under Skip is left alone and zero
/// bytes are reported.
#[test]
fn test_skip_policy() {
    assert_eq!(
        resolve_exists_action(ExistsAction::Skip, true),
        ExistsResolution::SkipFile
    );
    assert_eq!(
        resolve_exists_action(ExistsAction::Skip, false),
        ExistsResolution::Proceed
    );
    let (bytes, resolution) = dry_run_outcome(12345, ExistsAction::Skip, true);
    assert_eq!(bytes, 0);
    assert_eq!(resolution, ExistsResolution::SkipFile);
    let (bytes, resolution) = dry_run_outcome(12345, ExistsAction::Overwrite, true);
    assert_eq!(bytes, 12345);
    assert_eq!(resolution, ExistsResolution::Proceed);
}

/// Serial policy: with `a.txt` and `a.1.txt` taken, the next name is
/// `a.2.txt`; with everything free the first serial name is picked.
#[test]
fn test_serial_policy() {
    let engine = FileCopyEngine::new(CopyEngine::Auto);
    let occupied = vec!["a.txt".to_string(), "a.1.txt".to_string()];
    let name = engine.generate_serial_name("a", "txt", &occupied, 99);
    assert_eq!(name, "a.2.txt");

    let free: Vec<String> = Vec::new();
    assert_eq!(engine.generate_serial_name("report", "", &free, 99), "report.1");
}

/// Rate limit: one mebibyte at one mebibyte per second must take a full
/// second of wall time, well above the half-second floor.
#[test]
fn test_rate_limiting() {
    let required = required_nanos(1_048_576, 1_048_576);
    assert_eq!(required, 1_000_000_000);
    assert!(required >= 500_000_000);
    assert_eq!(sleep_deficit_nanos(required, 300_000_000), 700_000_000);
    assert_eq!(sleep_deficit_nanos(required, 2_000_000_000), 0);
}

/// Strategy fallback: the fixed decision tree of the engine table.
#[test]
fn test_copy_engines_fallback() {
    assert_eq!(
        FileCopyEngine::fallback_of(CopyEngine::Reflink),
        Some(CopyEngine::CopyFileRange)
    );
    assert_eq!(
        FileCopyEngine::fallback_of(CopyEngine::IoUring),
        Some(CopyEngine::CopyFileRange)
    );
    assert_eq!(
        FileCopyEngine::fallback_of(CopyEngine::CopyFileRange),
        Some(CopyEngine::ReadWrite)
    );
    assert_eq!(
        FileCopyEngine::fallback_of(CopyEngine::Sendfile),
        Some(CopyEngine::ReadWrite)
    );
    assert_eq!(FileCopyEngine::fallback_of(CopyEngine::ReadWrite), None);

    let same_device = FileCopyEngine::auto_chain(true);
    assert_eq!(
        same_device,
        vec![CopyEngine::Reflink, CopyEngine::CopyFileRange, CopyEngine::ReadWrite]
    );
    let cross_device = FileCopyEngine::auto_chain(false);
    assert_eq!(
        cross_device,
        vec![CopyEngine::CopyFileRange, CopyEngine::Sendfile, CopyEngine::ReadWrite]
    );

    assert_eq!(get_copy_engine(4).engine_type, CopyEngine::Reflink);
    assert_eq!(get_copy_engine(77).engine_type, CopyEngine::Auto);
}

#[test]
fn test_block_size_defaults() {
    assert_eq!(
        FileCopyEngine::effective_block_size(None, CopyEngine::CopyFileRange),
        4 * 1024 * 1024
    );
    assert_eq!(
        FileCopyEngine::effective_block_size(None, CopyEngine::ReadWrite),
        1024 * 1024
    );
    assert_eq!(
        FileCopyEngine::effective_block_size(Some(65536), CopyEngine::CopyFileRange),
        65536
    );
    assert_eq!(
        FileCopyEngine::effective_block_size(Some(0), CopyEngine::Sendfile),
        1024 * 1024
    );
}

/// Submission tags survive the pack/unpack pair for reads and writes.
#[test]
fn test_user_data_tags() {
    let tag = encode_user_data(true, 5, 123456789);
    assert_eq!(decode_user_data(tag), (true, 5, 123456789));
    let tag = encode_user_data(false, 255, 0xffff_ffff_ffff);
    assert_eq!(decode_user_data(tag), (false, 255, 0xffff_ffff_ffff));
}

/// The submission-queue step: reads tile the file once each, the depth is
/// honored, a read completion asks for its write, and a write completion
/// frees its buffer for the tail read.
#[test]
fn test_uring_step_plan() {
    let st = UringState {
        file_size: 10,
        block_size: 4,
        queue_depth: 2,
        next_offset: 0,
        inflight_reads: Vec::new(),
        inflight_writes: Vec::new(),
        free_buffers: vec![0, 1],
        bytes_read: 0,
        bytes_written: 0,
        failed: false,
    };
    let (st, actions) = uring_step(st, None);
    assert_eq!(
        actions,
        vec![
            UringAction::Read { buffer: 1, offset: 0, len: 4 },
            UringAction::Read { buffer: 0, offset: 4, len: 4 },
        ]
    );
    assert_eq!(st.next_offset, 8);

    // a read completion asks for the matching write; the queue is full, so
    // nothing fresh is issued yet
    let rtag = encode_user_data(true, 1, 0);
    let (st, actions) = uring_step(st, Some((rtag, 4)));
    assert_eq!(actions, vec![UringAction::Write { buffer: 1, offset: 0, len: 4 }]);
    assert_eq!(st.bytes_read, 4);

    // the write completes, freeing its buffer for the tail read
    let wtag = encode_user_data(false, 1, 0);
    let (st, actions) = uring_step(st, Some((wtag, 4)));
    assert_eq!(actions, vec![UringAction::Read { buffer: 1, offset: 8, len: 2 }]);
    assert_eq!(st.next_offset, 10);
    assert_eq!(st.bytes_written, 4);
    assert!(!st.failed);

    // drive the copy to the end: the counters meet the file size
    let (st, actions) = uring_step(st, Some((encode_user_data(true, 0, 4), 4)));
    assert_eq!(actions, vec![UringAction::Write { buffer: 0, offset: 4, len: 4 }]);
    let (st, _) = uring_step(st, Some((encode_user_data(false, 0, 4), 4)));
    let (st, actions) = uring_step(st, Some((encode_user_data(true, 1, 8), 2)));
    assert_eq!(actions, vec![UringAction::Write { buffer: 1, offset: 8, len: 2 }]);
    let (st, actions) = uring_step(st, Some((encode_user_data(false, 1, 8), 2)));
    assert_eq!(actions, vec![]);
    assert_eq!(st.bytes_read, 10);
    assert_eq!(st.bytes_written, 10);
    assert!(!st.failed);
}

/// A short read completion marks the run failed instead of losing the
/// missing tail, and a failed state issues nothing further.
#[test]
fn test_uring_step_short_read_fails() {
    let st = UringState {
        file_size: 8,
        block_size: 4,
        queue_depth: 2,
        next_offset: 0,
        inflight_reads: Vec::new(),
        inflight_writes: Vec::new(),
        free_buffers: vec![0, 1],
        bytes_read: 0,
        bytes_written: 0,
        failed: false,
    };
    let (st, actions) = uring_step(st, None);
    assert_eq!(actions.len(), 2);

    // the read at offset 0 asked for 4 bytes but only 3 came back
    let short = encode_user_data(true, 1, 0);
    let (st, actions) = uring_step(st, Some((short, 3)));
    assert!(st.failed);
    assert_eq!(actions, vec![]);

    // once failed, further completions change nothing
    let prev_read = st.bytes_read;
    let (st, actions) = uring_step(st, Some((encode_user_data(true, 0, 4), 4)));
    assert_eq!(actions, vec![]);
    assert_eq!(st.bytes_read, prev_read);
    assert!(st.failed);
}

/// An explicitly requested engine falls back along the documented chain;
/// the basic engine has nothing to fall back to.
#[test]
fn test_fallback_chain() {
    assert_eq!(
        FileCopyEngine::fallback_chain(CopyEngine::Reflink),
        vec![CopyEngine::Reflink, CopyEngine::CopyFileRange, CopyEngine::ReadWrite]
    );
    assert_eq!(
        FileCopyEngine::fallback_chain(CopyEngine::IoUring),
        vec![CopyEngine::IoUring, CopyEngine::CopyFileRange, CopyEngine::ReadWrite]
    );
    assert_eq!(
        FileCopyEngine::fallback_chain(CopyEngine::Sendfile),
        vec![CopyEngine::Sendfile, CopyEngine::ReadWrite]
    );
    assert_eq!(
        FileCopyEngine::fallback_chain(CopyEngine::ReadWrite),
        vec![CopyEngine::ReadWrite]
    );
    assert_eq!(
        FileCopyEngine::fallback_chain(CopyEngine::CopyFileRange),
        vec![CopyEngine::CopyFileRange, CopyEngine::ReadWrite]
    );
}
