//! Error taxonomy of the service, with severity classification, retry
//! policy, exit codes, and a builder for error context.

use vstd::prelude::*;

verus! {

/// What went wrong, with the values that identify the failure.
#[derive(Debug, Clone)]
pub enum CopydError {
    FileNotFound { path: String },
    PermissionDenied { path: String },
    InvalidPath { path: String },
    DestinationExists { path: String },
    SameSourceDestination { path: String },
    CrossDevice { source: String, destination: String },
    InsufficientSpace { required: u64, available: u64 },
    CopyEngineFailed { engine: String, reason: String },
    VerificationFailed { expected: String, actual: String },
    JobNotFound { job_id: String },
    InvalidJobState { job_id: String, current_state: String },
    CheckpointCorrupted { job_id: String, reason: String },
    ProtocolError { message: String },
    InvalidRegexPattern { pattern: String, reason: String },
    ResourceLimitExceeded { resource: String, limit: u64, current: u64 },
    SystemCallFailed { syscall: String, errno: i32 },
    InvalidInput { field: String, reason: String },
    OperationCancelled,
    InternalError { message: String },
    TemporaryFailure { reason: String },
    RequestTimeout { timeout_ms: u64 },
    DaemonConnectionFailed { reason: String },
    IoUringFailed { operation: String, reason: String },
    Unsupported { feature: String },
}

/// Result type used throughout the library.
pub type CopydResult<T> = Result<T, CopydError>;

/// How grave an error is for the operator.
#[derive(Debug, Clone, Copy, PartialEq, Eq, Structural)]
pub enum ErrorSeverity {
    Critical,
    High,
    Medium,
    Low,
}

impl CopydError {
    /// Errors that a caller may sensibly retry: exactly the transient
    /// failures, exhausted resources, timeouts, lost daemon connections
    /// and submission-queue failures.
    pub open spec fn spec_is_retryable(&self) -> bool {
        match self {
            CopydError::TemporaryFailure { .. } => true,
            CopydError::InsufficientSpace { .. } => true,
            CopydError::ResourceLimitExceeded { .. } => true,
            CopydError::RequestTimeout { .. } => true,
            CopydError::DaemonConnectionFailed { .. } => true,
            CopydError::IoUringFailed { .. } => true,
            _ => false,
        }
    }

    pub fn is_retryable(&self) -> (r: bool)
        ensures
            r == self.spec_is_retryable(),
    {
        match self {
            CopydError::TemporaryFailure { .. } => true,
            CopydError::InsufficientSpace { .. } => true,
            CopydError::ResourceLimitExceeded { .. } => true,
            CopydError::RequestTimeout { .. } => true,
            CopydError::DaemonConnectionFailed { .. } => true,
            CopydError::IoUringFailed { .. } => true,
            _ => false,
        }
    }

    pub open spec fn spec_severity(&self) -> ErrorSeverity {
        match self {
            CopydError::InternalError { .. } => ErrorSeverity::Critical,
            CopydError::SystemCallFailed { .. } => ErrorSeverity::Critical,
            CopydError::VerificationFailed { .. } => ErrorSeverity::High,
            CopydError::CheckpointCorrupted { .. } => ErrorSeverity::High,
            CopydError::PermissionDenied { .. } => ErrorSeverity::High,
            CopydError::FileNotFound { .. } => ErrorSeverity::Medium,
            CopydError::InvalidPath { .. } => ErrorSeverity::Medium,
            CopydError::DestinationExists { .. } => ErrorSeverity::Medium,
            CopydError::InvalidInput { .. } => ErrorSeverity::Medium,
            CopydError::OperationCancelled => ErrorSeverity::Low,
            CopydError::TemporaryFailure { .. } => ErrorSeverity::Low,
            _ => ErrorSeverity::Medium,
        }
    }

    /// Severity class of this error.
    pub fn severity(&self) -> (r: ErrorSeverity)
        ensures
            r == self.spec_severity(),
    {
        match self {
            CopydError::InternalError { .. } => ErrorSeverity::Critical,
            CopydError::SystemCallFailed { .. } => ErrorSeverity::Critical,
            CopydError::VerificationFailed { .. } => ErrorSeverity::High,
            CopydError::CheckpointCorrupted { .. } => ErrorSeverity::High,
            CopydError::PermissionDenied { .. } => ErrorSeverity::High,
            CopydError::FileNotFound { .. } => ErrorSeverity::Medium,
            CopydError::InvalidPath { .. } => ErrorSeverity::Medium,
            CopydError::DestinationExists { .. } => ErrorSeverity::Medium,
            CopydError::InvalidInput { .. } => ErrorSeverity::Medium,
            CopydError::OperationCancelled => ErrorSeverity::Low,
            CopydError::TemporaryFailure { .. } => ErrorSeverity::Low,
            _ => ErrorSeverity::Medium,
        }
    }

    /// Exit code for command-line callers: 2 for critical errors, 1 for high
    /// and medium, 0 for low.
    pub fn exit_code(&self) -> (r: i32)
        ensures
            self.spec_severity() == ErrorSeverity::Critical ==> r == 2,
            self.spec_severity() == ErrorSeverity::High ==> r == 1,
            self.spec_severity() == ErrorSeverity::Medium ==> r == 1,
            self.spec_severity() == ErrorSeverity::Low ==> r == 0,
    {
        match self.severity() {
            ErrorSeverity::Critical => 2,
            ErrorSeverity::High => 1,
            ErrorSeverity::Medium => 1,
            ErrorSeverity::Low => 0,
        }
    }

    /// A hint the operator can act on.
    pub fn suggested_action(&self) -> (r: &'static str)
        ensures
            r@.len() > 0,
    {
        let msg = match self {
            CopydError::FileNotFound { .. } => "Check that the source file exists and is accessible",
            CopydError::PermissionDenied { .. } => "Check file permissions or run with appropriate privileges",
            CopydError::DestinationExists { .. } => "Use --overwrite, --skip, or --serial to handle existing files",
            CopydError::InsufficientSpace { .. } => "Free up disk space on the destination",
            CopydError::InvalidRegexPattern { .. } => "Check regex pattern syntax",
            CopydError::ResourceLimitExceeded { .. } => "Wait before retrying the operation",
            CopydError::TemporaryFailure { .. } => "Retry the operation after a short delay",
            _ => "Check the error details and consult documentation",
        };
        proof {
            reveal_strlit("Check that the source file exists and is accessible");
            reveal_strlit("Check file permissions or run with appropriate privileges");
            reveal_strlit("Use --overwrite, --skip, or --serial to handle existing files");
            reveal_strlit("Free up disk space on the destination");
            reveal_strlit("Check regex pattern syntax");
            reveal_strlit("Wait before retrying the operation");
            reveal_strlit("Retry the operation after a short delay");
            reveal_strlit("Check the error details and consult documentation");
        }
        msg
    }
}

/// Collects what is known around a failure: the operation, the path and job
/// concerned, and further key/value detail.
pub struct ErrorContext {
    pub operation: String,
    pub path: Option<String>,
    pub job_id: Option<String>,
    pub additional_info: Vec<(String, String)>,
}

impl ErrorContext {
    /// A context naming only the operation.
    pub fn new(operation: &str) -> (r: ErrorContext)
        ensures
            r.operation@ == operation@,
            r.path is None,
            r.job_id is None,
            r.additional_info@.len() == 0,
    {
        ErrorContext {
            operation: operation.to_owned(),
            path: None,
            job_id: None,
            additional_info: Vec::new(),
        }
    }

    /// The same context with the path set.
    pub fn with_path(self, path: &str) -> (r: ErrorContext)
        ensures
            r.operation == self.operation,
            r.path matches Some(p) && p@ == path@,
            r.job_id == self.job_id,
            r.additional_info == self.additional_info,
    {
        ErrorContext {
            operation: self.operation,
            path: Some(path.to_owned()),
            job_id: self.job_id,
            additional_info: self.additional_info,
        }
    }

    /// The same context with the job id set.
    pub fn with_job_id(self, job_id: &str) -> (r: ErrorContext)
        ensures
            r.operation == self.operation,
            r.path == self.path,
            r.job_id matches Some(j) && j@ == job_id@,
            r.additional_info == self.additional_info,
    {
        ErrorContext {
            operation: self.operation,
            path: self.path,
            job_id: Some(job_id.to_owned()),
            additional_info: self.additional_info,
        }
    }

    /// The same context with one more key/value pair of detail.
    pub fn with_info(self, key: &str, value: &str) -> (r: ErrorContext)
        ensures
            r.operation == self.operation,
            r.path == self.path,
            r.job_id == self.job_id,
            r.additional_info@.len() == self.additional_info@.len() + 1,
            r.additional_info@.last().0@ == key@,
            r.additional_info@.last().1@ == value@,
            r.additional_info@.subrange(0, self.additional_info@.len() as int)
                == self.additional_info@,
    {
        let mut info = self.additional_info;
        info.push((key.to_owned(), value.to_owned()));
        assert(info@.subrange(0, info@.len() - 1) =~= self.additional_info@);
        ErrorContext {
            operation: self.operation,
            path: self.path,
            job_id: self.job_id,
            additional_info: info,
        }
    }
}

} // verus!
