//! The security gate: path, extension and size policy applied to every
//! operation before any file is touched.

use vstd::prelude::*;
use vstd::string::StringExecFns;
use crate::error::{CopydError, CopydResult};
use crate::util::str_eq;

verus! {

/// The policy: a size cap, a path-length cap, forbidden extensions, and
/// system trees no operation may touch.
pub struct SecurityConfig {
    pub max_file_size: u64,
    pub max_path_length: usize,
    pub blocked_extensions: Vec<String>,
    pub system_paths: Vec<String>,
}

impl Default for SecurityConfig {
    /// The stock policy: 100 GiB files, 4096-character paths, Windows
    /// executable extensions refused, kernel virtual trees refused.
    fn default() -> (r: SecurityConfig)
        ensures
            r.max_file_size == 0x1900000000u64,
            r.max_path_length == 4096,
            r.blocked_extensions.deep_view() =~= seq![".exe"@, ".bat"@, ".cmd"@],
            r.system_paths.deep_view() =~= seq!["/proc"@, "/sys"@, "/dev"@],
    {
        let blocked = vec![".exe".to_owned(), ".bat".to_owned(), ".cmd".to_owned()];
        let system = vec!["/proc".to_owned(), "/sys".to_owned(), "/dev".to_owned()];
        assert(blocked.deep_view() =~= seq![".exe"@, ".bat"@, ".cmd"@]);
        assert(system.deep_view() =~= seq!["/proc"@, "/sys"@, "/dev"@]);
        SecurityConfig {
            max_file_size: 0x1900000000,
            max_path_length: 4096,
            blocked_extensions: blocked,
            system_paths: system,
        }
    }
}

/// A path holds a parent-directory traversal when two consecutive dots
/// occur anywhere in it.
pub open spec fn has_dotdot(p: Seq<char>) -> bool {
    exists|i: int| 0 <= i && i + 2 <= p.len() && #[trigger] p[i] == '.' && p[i + 1] == '.'
}

/// A path is under one of the given trees when one of them is its prefix.
pub open spec fn under_any(p: Seq<char>, roots: Seq<Seq<char>>) -> bool {
    exists|k: int| 0 <= k < roots.len() && (#[trigger] roots[k]).is_prefix_of(p)
}

fn scan_dotdot(path: &str) -> (r: bool)
    ensures
        r == has_dotdot(path@),
{
    let n = path.unicode_len();
    if n < 2 {
        return false;
    }
    let mut i: usize = 0;
    while i <= n - 2
        invariant
            n == path@.len(),
            n >= 2,
            i <= n - 1,
            forall|k: int| 0 <= k && k < i ==> !(#[trigger] path@[k] == '.' && path@[k + 1] == '.'),
        decreases n - i,
    {
        if path.get_char(i) == '.' && path.get_char(i + 1) == '.' {
            return true;
        }
        i = i + 1;
    }
    false
}

fn str_is_prefix(prefix: &str, of: &str) -> (r: bool)
    ensures
        r == prefix@.is_prefix_of(of@),
{
    let np = prefix.unicode_len();
    let no = of.unicode_len();
    if np > no {
        assert(!prefix@.is_prefix_of(of@));
        return false;
    }
    let mut i: usize = 0;
    while i < np
        invariant
            np == prefix@.len(),
            no == of@.len(),
            np <= no,
            i <= np,
            forall|k: int| 0 <= k < i ==> prefix@[k] == of@[k],
        decreases np - i,
    {
        if prefix.get_char(i) != of.get_char(i) {
            assert(!prefix@.is_prefix_of(of@));
            return false;
        }
        i = i + 1;
    }
    assert(prefix@ =~= of@.subrange(0, np as int));
    true
}

fn under_any_exec(path: &str, roots: &Vec<String>) -> (r: bool)
    ensures
        r == under_any(path@, roots.deep_view()),
{
    let mut k: usize = 0;
    while k < roots.len()
        invariant
            k <= roots@.len(),
            forall|j: int| 0 <= j < k ==> !(#[trigger] roots.deep_view()[j]).is_prefix_of(path@),
        decreases roots@.len() - k,
    {
        if str_is_prefix(roots[k].as_str(), path) {
            assert(roots.deep_view()[k as int].is_prefix_of(path@));
            return true;
        }
        k = k + 1;
    }
    false
}

/// A string ends with the given suffix.
pub open spec fn ends_with(p: Seq<char>, suffix: Seq<char>) -> bool {
    suffix.len() <= p.len() && p.subrange(p.len() - suffix.len(), p.len() as int) == suffix
}

fn str_ends_with(path: &str, suffix: &str) -> (r: bool)
    ensures
        r == ends_with(path@, suffix@),
{
    let np = path.unicode_len();
    let ns = suffix.unicode_len();
    if ns > np {
        return false;
    }
    let start = np - ns;
    let mut i: usize = 0;
    while i < ns
        invariant
            np == path@.len(),
            ns == suffix@.len(),
            ns <= np,
            start == np - ns,
            i <= ns,
            forall|k: int| 0 <= k < i ==> path@[start + k] == suffix@[k],
        decreases ns - i,
    {
        if path.get_char(start + i) != suffix.get_char(i) {
            assert(path@.subrange(np - ns, np as int)[i as int] != suffix@[i as int]);
            return false;
        }
        i = i + 1;
    }
    assert(path@.subrange(np - ns, np as int) =~= suffix@);
    true
}

/// The path, lowered character by character in the ASCII range.
pub open spec fn spec_lowered(p: Seq<char>) -> Seq<char> {
    crate::protocol::spec_lower(p)
}

/// A path ends in a blocked extension when its ASCII-lowered form ends with
/// one of the configured extensions.
pub open spec fn blocked_ext(p: Seq<char>, blocked: Seq<Seq<char>>) -> bool {
    exists|k: int| 0 <= k < blocked.len() && ends_with(spec_lowered(p), #[trigger] blocked[k])
}

fn lowered_string(s: &str) -> (r: String)
    ensures
        r@ == spec_lowered(s@),
{
    let n = s.unicode_len();
    let mut out = String::new();
    let mut i: usize = 0;
    proof {
        assert(out@ =~= spec_lowered(s@).subrange(0, 0));
    }
    while i < n
        invariant
            n == s@.len(),
            i <= n,
            out@ == spec_lowered(s@).subrange(0, i as int),
        decreases n - i,
    {
        let mut c = s.get_char(i);
        if 'A' <= c && c <= 'Z' {
            c = ((c as u8) + 32) as char;
        }
        let cs = char_to_string(c);
        out.append(cs.as_str());
        assert(out@ =~= spec_lowered(s@).subrange(0, i + 1 as int));
        i = i + 1;
    }
    assert(spec_lowered(s@).subrange(0, n as int) =~= spec_lowered(s@));
    out
}

/// Relies on String::push: it appends exactly the one character.
#[verifier::external_body]
fn char_to_string(c: char) -> (r: String)
    ensures
        r@ == seq![c],
{
    let mut s = std::string::String::new();
    s.push(c);
    s
}

/// Applies the policy to paths, extensions and sizes.
pub struct SecurityValidator {
    pub config: SecurityConfig,
}

impl SecurityValidator {
    pub fn new(config: SecurityConfig) -> (r: SecurityValidator)
        ensures
            r.config == config,
    {
        SecurityValidator { config }
    }

    /// Refuses over-long paths and parent-directory traversals as invalid,
    /// and paths under a system tree as permission errors; anything else
    /// passes.
    pub fn validate_path(&self, path: &str) -> (r: CopydResult<()>)
        ensures
            path@.len() > self.config.max_path_length ==> (r matches Err(e)
                && e is InvalidPath),
            path@.len() <= self.config.max_path_length && has_dotdot(path@) ==> (r matches Err(e)
                && e is InvalidPath),
            path@.len() <= self.config.max_path_length && !has_dotdot(path@) && under_any(
                path@,
                self.config.system_paths.deep_view(),
            ) ==> (r matches Err(e) && e is PermissionDenied),
            r is Ok <==> (path@.len() <= self.config.max_path_length && !has_dotdot(path@)
                && !under_any(path@, self.config.system_paths.deep_view())),
    {
        if path.unicode_len() > self.config.max_path_length {
            return Err(CopydError::InvalidPath { path: path.to_owned() });
        }
        if scan_dotdot(path) {
            return Err(CopydError::InvalidPath { path: path.to_owned() });
        }
        if under_any_exec(path, &self.config.system_paths) {
            return Err(CopydError::PermissionDenied { path: path.to_owned() });
        }
        Ok(())
    }

    /// Refuses a path whose lowered form ends in a blocked extension.
    pub fn validate_extension(&self, path: &str) -> (r: CopydResult<()>)
        ensures
            r is Ok <==> !blocked_ext(path@, self.config.blocked_extensions.deep_view()),
            r matches Err(e) ==> e is InvalidInput,
    {
        let lowered = lowered_string(path);
        let n = self.config.blocked_extensions.len();
        let mut k: usize = 0;
        while k < n
            invariant
                n == self.config.blocked_extensions@.len(),
                k <= n,
                lowered@ == spec_lowered(path@),
                forall|j: int|
                    0 <= j < k ==> !ends_with(
                        spec_lowered(path@),
                        #[trigger] self.config.blocked_extensions.deep_view()[j],
                    ),
            decreases n - k,
        {
            if str_ends_with(lowered.as_str(), self.config.blocked_extensions[k].as_str()) {
                assert(ends_with(
                    spec_lowered(path@),
                    self.config.blocked_extensions.deep_view()[k as int],
                ));
                return Err(
                    CopydError::InvalidInput {
                        field: "extension".to_owned(),
                        reason: "blocked extension".to_owned(),
                    },
                );
            }
            k = k + 1;
        }
        Ok(())
    }

    /// Refuses a file larger than the configured cap.
    pub fn validate_size(&self, size: u64) -> (r: CopydResult<()>)
        ensures
            r is Ok <==> size <= self.config.max_file_size,
            r matches Err(e) ==> (e matches CopydError::ResourceLimitExceeded {
                limit,
                current,
                ..
            } && limit == self.config.max_file_size && current == size),
    {
        if size > self.config.max_file_size {
            Err(
                CopydError::ResourceLimitExceeded {
                    resource: "file_size".to_owned(),
                    limit: self.config.max_file_size,
                    current: size,
                },
            )
        } else {
            Ok(())
        }
    }

    /// Applies the whole gate to one operation: the destination path, every
    /// source's path and extension, and the rule that no source equals the
    /// destination. Success is owed exactly when every check passes.
    pub fn validate_operation(&self, sources: &Vec<String>, dest: &str) -> (r: CopydResult<()>)
        ensures
            r is Ok <==> (path_ok(dest@, self) && forall|i: int|
                0 <= i < sources.deep_view().len() ==> (path_ok(
                    #[trigger] sources.deep_view()[i],
                    self,
                ) && !blocked_ext(
                    sources.deep_view()[i],
                    self.config.blocked_extensions.deep_view(),
                ) && sources.deep_view()[i] != dest@)),
            r matches Err(e) ==> (e is InvalidPath || e is PermissionDenied || e is InvalidInput
                || e is SameSourceDestination),
            !path_ok(dest@, self) ==> (r matches Err(e) && (e is InvalidPath
                || e is PermissionDenied)),
    {
        if let Err(e) = self.validate_path(dest) {
            return Err(e);
        }
        let n = sources.len();
        let mut i: usize = 0;
        while i < n
            invariant
                n == sources@.len(),
                i <= n,
                path_ok(dest@, self),
                forall|j: int|
                    0 <= j < i ==> (path_ok(#[trigger] sources.deep_view()[j], self)
                        && !blocked_ext(
                        sources.deep_view()[j],
                        self.config.blocked_extensions.deep_view(),
                    ) && sources.deep_view()[j] != dest@),
            decreases n - i,
        {
            if let Err(e) = self.validate_path(sources[i].as_str()) {
                assert(!path_ok(sources.deep_view()[i as int], self));
                return Err(e);
            }
            if let Err(e) = self.validate_extension(sources[i].as_str()) {
                assert(blocked_ext(
                    sources.deep_view()[i as int],
                    self.config.blocked_extensions.deep_view(),
                ));
                return Err(e);
            }
            if str_eq(sources[i].as_str(), dest) {
                assert(sources.deep_view()[i as int] == dest@);
                return Err(
                    CopydError::SameSourceDestination { path: sources[i].clone() },
                );
            }
            i = i + 1;
        }
        Ok(())
    }
}

/// A path that passes the path gate under this validator's policy.
pub open spec fn path_ok(p: Seq<char>, v: &SecurityValidator) -> bool {
    &&& p.len() <= v.config.max_path_length
    &&& !has_dotdot(p)
    &&& !under_any(p, v.config.system_paths.deep_view())
}

} // verus!
