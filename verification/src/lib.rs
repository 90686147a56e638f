//! Core logic of a managed file-transfer service: wire framing and message
//! codec, checkpointed job progress, directory planning, copy-strategy
//! selection, sparse-region handling, post-copy verification, and the job
//! state machine with priority admission.

use vstd::prelude::*;

pub mod browser;
pub mod checkpoint;
pub mod codec;
pub mod config;
pub mod engine;
pub mod error;
pub mod job;
pub mod monitor;
pub mod plan;
pub mod protocol;
pub mod rename;
pub mod response;
pub mod security;
pub mod sparse;
pub mod util;
pub mod verify;
pub mod wire;

pub use browser::{format_size, AppScreen, ConfigEditor, HelpScreen, JobMonitor};
pub use checkpoint::{
    can_resume_file, create_file_id, now_unix_secs, CheckpointManager, CheckpointStats,
    FileCheckpoint, JobCheckpoint,
};
pub use codec::{CreateJobRequest, Request};
pub use config::Config;
pub use engine::{
    copy_bytes, dry_run_outcome, get_copy_engine, required_nanos, resolve_exists_action,
    sleep_deficit_nanos, uring_step, CopyOptions, ExistsResolution, FileCopyEngine, UringAction,
    UringState,
};
pub use error::{CopydError, CopydResult, ErrorContext, ErrorSeverity};
pub use job::{new_job_id, Job, JobManager, JobOptions, QueueEntry};
pub use monitor::{
    health_level, AlertSeverity, HealthLevel, PerformanceRecommendation, RecommendationSeverity,
    SystemMetrics,
};
pub use plan::{DirectoryHandler, DirectoryTraversal, FsNode, SourceSpec};
pub use protocol::{CopyEngine, ExistsAction, JobStatus, VerifyMode};
pub use protocol::{parse_copy_engine, parse_exists_action, parse_verify_mode};
pub use rename::{RegexRenamer, RegexTransformPreview};
pub use response::{
    CreateJobResponse, DailyStat, HealthCheckResponse, JobInfo, JobStatusResponse,
    ListJobsResponse, OpResponse, Progress, Response, SlowPath, StatsResponse,
};
pub use security::{SecurityConfig, SecurityValidator};
pub use sparse::{SparseFileHandler, SparseRegion};
pub use verify::{FileVerifier, bytes_eq, hex_of_bytes};
pub use util::{format_bytes, format_duration, u64_to_dec, u64_to_hex, validate_path};
pub use wire::{FrameError, MessageFramer, MAX_FRAME_LEN};

use codec::{lemma_request_roundtrip, request_wf, spec_enc_request, spec_parse_request, RequestV};
use response::{
    lemma_response_roundtrip, response_wf, spec_enc_response, spec_parse_response, ResponseV,
};
use wire::{lemma_frame_roundtrip, spec_deframe, spec_frame};

verus! {

/// Framing round-trip for requests: a valid message that is encoded and
/// framed, then deframed (even with trailing bytes behind it) and decoded,
/// is the original message, consumed exactly.
pub proof fn lemma_request_frame_roundtrip(m: RequestV, rest: Seq<u8>)
    requires
        request_wf(m),
        spec_enc_request(m).len() <= MAX_FRAME_LEN,
    ensures
        spec_deframe(spec_frame(spec_enc_request(m)) + rest) == Ok::<_, FrameError>(
            (spec_enc_request(m), 4 + spec_enc_request(m).len() as int),
        ),
        spec_parse_request(spec_enc_request(m)) == Some(
            (m, spec_enc_request(m).len() as int),
        ),
{
    lemma_frame_roundtrip(spec_enc_request(m), rest);
    lemma_request_roundtrip(m, Seq::empty());
    assert(spec_enc_request(m) + Seq::<u8>::empty() =~= spec_enc_request(m));
}

/// Framing round-trip for responses, stated as for requests.
pub proof fn lemma_response_frame_roundtrip(m: ResponseV, rest: Seq<u8>)
    requires
        response_wf(m),
        spec_enc_response(m).len() <= MAX_FRAME_LEN,
    ensures
        spec_deframe(spec_frame(spec_enc_response(m)) + rest) == Ok::<_, FrameError>(
            (spec_enc_response(m), 4 + spec_enc_response(m).len() as int),
        ),
        spec_parse_response(spec_enc_response(m)) == Some(
            (m, spec_enc_response(m).len() as int),
        ),
{
    lemma_frame_roundtrip(spec_enc_response(m), rest);
    lemma_response_roundtrip(m, Seq::empty());
    assert(spec_enc_response(m) + Seq::<u8>::empty() =~= spec_enc_response(m));
}

} // verus!
