//! Protocol-level enumerations and their stable numeric codings, plus the
//! case-insensitive string forms accepted by the client tool.

use vstd::prelude::*;

verus! {

/// Post-copy comparison mode.
#[derive(Debug, Clone, Copy, PartialEq, Eq, Structural)]
pub enum VerifyMode {
    Disabled,
    Size,
    Md5,
    Sha256,
}

/// What to do when the destination file already exists.
#[derive(Debug, Clone, Copy, PartialEq, Eq, Structural)]
pub enum ExistsAction {
    Overwrite,
    Skip,
    Serial,
}

/// Copy strategy requested for a job.
#[derive(Debug, Clone, Copy, PartialEq, Eq, Structural)]
pub enum CopyEngine {
    Auto,
    IoUring,
    CopyFileRange,
    Sendfile,
    Reflink,
    ReadWrite,
}

/// Lifecycle state of a job.
#[derive(Debug, Clone, Copy, PartialEq, Eq, Structural)]
pub enum JobStatus {
    Pending,
    Running,
    Paused,
    Completed,
    Failed,
    Cancelled,
}

impl VerifyMode {
    /// Stable wire coding: 0 = None, 1 = Size, 2 = Md5, 3 = Sha256.
    pub fn as_code(self) -> (r: u32)
        ensures
            r == self.spec_code(),
    {
        match self {
            VerifyMode::Disabled => 0,
            VerifyMode::Size => 1,
            VerifyMode::Md5 => 2,
            VerifyMode::Sha256 => 3,
        }
    }

    pub open spec fn spec_code(self) -> u32 {
        match self {
            VerifyMode::Disabled => 0,
            VerifyMode::Size => 1,
            VerifyMode::Md5 => 2,
            VerifyMode::Sha256 => 3,
        }
    }

    /// Inverse of the coding; an unknown code maps to `Disabled`, as the
    /// daemon treats unrecognized verify requests as "no verification".
    pub fn from_code(code: u32) -> (r: VerifyMode)
        ensures
            r == VerifyMode::spec_from_code(code),
            code <= 3 ==> r.spec_code() == code,
    {
        match code {
            1 => VerifyMode::Size,
            2 => VerifyMode::Md5,
            3 => VerifyMode::Sha256,
            _ => VerifyMode::Disabled,
        }
    }

    pub open spec fn spec_from_code(code: u32) -> VerifyMode {
        if code == 1 {
            VerifyMode::Size
        } else if code == 2 {
            VerifyMode::Md5
        } else if code == 3 {
            VerifyMode::Sha256
        } else {
            VerifyMode::Disabled
        }
    }
}

impl ExistsAction {
    /// Stable wire coding: 0 = Overwrite, 1 = Skip, 2 = Serial.
    pub fn as_code(self) -> (r: u32)
        ensures
            r == self.spec_code(),
    {
        match self {
            ExistsAction::Overwrite => 0,
            ExistsAction::Skip => 1,
            ExistsAction::Serial => 2,
        }
    }

    pub open spec fn spec_code(self) -> u32 {
        match self {
            ExistsAction::Overwrite => 0,
            ExistsAction::Skip => 1,
            ExistsAction::Serial => 2,
        }
    }

    /// Inverse of the coding; an unknown code maps to `Overwrite` (the
    /// daemon's default handling of existing destinations).
    pub fn from_code(code: u32) -> (r: ExistsAction)
        ensures
            r == ExistsAction::spec_from_code(code),
            code <= 2 ==> r.spec_code() == code,
    {
        match code {
            1 => ExistsAction::Skip,
            2 => ExistsAction::Serial,
            _ => ExistsAction::Overwrite,
        }
    }

    pub open spec fn spec_from_code(code: u32) -> ExistsAction {
        if code == 1 {
            ExistsAction::Skip
        } else if code == 2 {
            ExistsAction::Serial
        } else {
            ExistsAction::Overwrite
        }
    }
}

impl CopyEngine {
    /// Stable wire coding: 0 = Auto, 1 = IoUring, 2 = CopyFileRange,
    /// 3 = Sendfile, 4 = Reflink, 5 = ReadWrite.
    pub fn as_code(self) -> (r: u32)
        ensures
            r == self.spec_code(),
    {
        match self {
            CopyEngine::Auto => 0,
            CopyEngine::IoUring => 1,
            CopyEngine::CopyFileRange => 2,
            CopyEngine::Sendfile => 3,
            CopyEngine::Reflink => 4,
            CopyEngine::ReadWrite => 5,
        }
    }

    pub open spec fn spec_code(self) -> u32 {
        match self {
            CopyEngine::Auto => 0,
            CopyEngine::IoUring => 1,
            CopyEngine::CopyFileRange => 2,
            CopyEngine::Sendfile => 3,
            CopyEngine::Reflink => 4,
            CopyEngine::ReadWrite => 5,
        }
    }

    /// Inverse of the coding; an unknown code maps to `Auto`.
    pub fn from_code(code: u32) -> (r: CopyEngine)
        ensures
            r == CopyEngine::spec_from_code(code),
            code <= 5 ==> r.spec_code() == code,
    {
        match code {
            1 => CopyEngine::IoUring,
            2 => CopyEngine::CopyFileRange,
            3 => CopyEngine::Sendfile,
            4 => CopyEngine::Reflink,
            5 => CopyEngine::ReadWrite,
            _ => CopyEngine::Auto,
        }
    }

    pub open spec fn spec_from_code(code: u32) -> CopyEngine {
        if code == 1 {
            CopyEngine::IoUring
        } else if code == 2 {
            CopyEngine::CopyFileRange
        } else if code == 3 {
            CopyEngine::Sendfile
        } else if code == 4 {
            CopyEngine::Reflink
        } else if code == 5 {
            CopyEngine::ReadWrite
        } else {
            CopyEngine::Auto
        }
    }
}

impl JobStatus {
    /// Stable wire coding: 0 = Pending, 1 = Running, 2 = Paused,
    /// 3 = Completed, 4 = Failed, 5 = Cancelled.
    pub fn as_code(self) -> (r: u32)
        ensures
            r == self.spec_code(),
    {
        match self {
            JobStatus::Pending => 0,
            JobStatus::Running => 1,
            JobStatus::Paused => 2,
            JobStatus::Completed => 3,
            JobStatus::Failed => 4,
            JobStatus::Cancelled => 5,
        }
    }

    pub open spec fn spec_code(self) -> u32 {
        match self {
            JobStatus::Pending => 0,
            JobStatus::Running => 1,
            JobStatus::Paused => 2,
            JobStatus::Completed => 3,
            JobStatus::Failed => 4,
            JobStatus::Cancelled => 5,
        }
    }

    /// Inverse of the coding; an unknown code maps to `Pending`.
    pub fn from_code(code: u32) -> (r: JobStatus)
        ensures
            r == JobStatus::spec_from_code(code),
            code <= 5 ==> r.spec_code() == code,
    {
        match code {
            1 => JobStatus::Running,
            2 => JobStatus::Paused,
            3 => JobStatus::Completed,
            4 => JobStatus::Failed,
            5 => JobStatus::Cancelled,
            _ => JobStatus::Pending,
        }
    }

    pub open spec fn spec_from_code(code: u32) -> JobStatus {
        if code == 1 {
            JobStatus::Running
        } else if code == 2 {
            JobStatus::Paused
        } else if code == 3 {
            JobStatus::Completed
        } else if code == 4 {
            JobStatus::Failed
        } else if code == 5 {
            JobStatus::Cancelled
        } else {
            JobStatus::Pending
        }
    }

    /// A job in `Completed`, `Failed` or `Cancelled` never transitions again.
    pub open spec fn is_terminal(self) -> bool {
        self == JobStatus::Completed || self == JobStatus::Failed || self == JobStatus::Cancelled
    }

    /// See `is_terminal`.
    pub fn terminal(self) -> (r: bool)
        ensures
            r == self.is_terminal(),
    {
        match self {
            JobStatus::Completed => true,
            JobStatus::Failed => true,
            JobStatus::Cancelled => true,
            _ => false,
        }
    }
}

// ---------------------------------------------------------------------------
// case-insensitive keyword parsing (ASCII)
// ---------------------------------------------------------------------------

pub open spec fn spec_lower_char(c: char) -> char {
    if 'A' <= c && c <= 'Z' {
        (((c as u8) + 32) as u8) as char
    } else {
        c
    }
}

pub open spec fn spec_lower(s: Seq<char>) -> Seq<char> {
    s.map_values(|c: char| spec_lower_char(c))
}

/// Compares two strings for equality after ASCII lowercasing of both.
pub fn str_eq_lower(s: &str, t: &str) -> (r: bool)
    ensures
        r == (spec_lower(s@) == spec_lower(t@)),
{
    let sl = s.unicode_len();
    let tl = t.unicode_len();
    if sl != tl {
        assert(spec_lower(s@).len() == s@.len());
        assert(spec_lower(t@).len() == t@.len());
        return false;
    }
    let mut i: usize = 0;
    while i < sl
        invariant
            i <= sl,
            sl == s@.len(),
            sl == t@.len(),
            forall|k: int|
                0 <= k < i ==> spec_lower_char(s@[k]) == spec_lower_char(t@[k]),
        decreases sl - i,
    {
        let mut a = s.get_char(i);
        let mut b = t.get_char(i);
        if 'A' <= a && a <= 'Z' {
            a = ((a as u8) + 32) as char;
        }
        if 'A' <= b && b <= 'Z' {
            b = ((b as u8) + 32) as char;
        }
        if a != b {
            assert(spec_lower(s@)[i as int] != spec_lower(t@)[i as int]);
            return false;
        }
        i = i + 1;
    }
    assert(spec_lower(s@) =~= spec_lower(t@));
    true
}

pub open spec fn spec_verify_mode_code(s: Seq<char>) -> u32 {
    if spec_lower(s) == spec_lower("none"@) {
        0
    } else if spec_lower(s) == spec_lower("size"@) {
        1
    } else if spec_lower(s) == spec_lower("md5"@) {
        2
    } else if spec_lower(s) == spec_lower("sha256"@) {
        3
    } else {
        0
    }
}

/// Maps a verify-mode keyword (case-insensitive) to its wire code;
/// anything unrecognized means "no verification".
pub fn parse_verify_mode(verify: &str) -> (r: u32)
    ensures
        r == spec_verify_mode_code(verify@),
{
    if str_eq_lower(verify, "none") {
        0
    } else if str_eq_lower(verify, "size") {
        1
    } else if str_eq_lower(verify, "md5") {
        2
    } else if str_eq_lower(verify, "sha256") {
        3
    } else {
        0
    }
}

pub open spec fn spec_exists_action_code(s: Seq<char>) -> u32 {
    if spec_lower(s) == spec_lower("overwrite"@) {
        0
    } else if spec_lower(s) == spec_lower("skip"@) {
        1
    } else if spec_lower(s) == spec_lower("serial"@) {
        2
    } else {
        0
    }
}

/// Maps a destination-exists keyword (case-insensitive) to its wire code;
/// anything unrecognized means "overwrite".
pub fn parse_exists_action(exists: &str) -> (r: u32)
    ensures
        r == spec_exists_action_code(exists@),
{
    if str_eq_lower(exists, "overwrite") {
        0
    } else if str_eq_lower(exists, "skip") {
        1
    } else if str_eq_lower(exists, "serial") {
        2
    } else {
        0
    }
}

pub open spec fn spec_copy_engine_code(s: Seq<char>) -> u32 {
    if spec_lower(s) == spec_lower("auto"@) {
        0
    } else if spec_lower(s) == spec_lower("io_uring"@) {
        1
    } else if spec_lower(s) == spec_lower("copy_file_range"@) {
        2
    } else if spec_lower(s) == spec_lower("sendfile"@) {
        3
    } else if spec_lower(s) == spec_lower("reflink"@) {
        4
    } else if spec_lower(s) == spec_lower("read_write"@) {
        5
    } else {
        0
    }
}

/// Maps a copy-engine keyword (case-insensitive) to its wire code;
/// anything unrecognized means "auto".
pub fn parse_copy_engine(engine: &str) -> (r: u32)
    ensures
        r == spec_copy_engine_code(engine@),
{
    if str_eq_lower(engine, "auto") {
        0
    } else if str_eq_lower(engine, "io_uring") {
        1
    } else if str_eq_lower(engine, "copy_file_range") {
        2
    } else if str_eq_lower(engine, "sendfile") {
        3
    } else if str_eq_lower(engine, "reflink") {
        4
    } else if str_eq_lower(engine, "read_write") {
        5
    } else {
        0
    }
}

} // verus!
