//! Regex-driven renaming of destination basenames, with a preview and a
//! safety check on what the replacement produces.

use vstd::prelude::*;
use vstd::string::StringExecFns;
use crate::error::{CopydError, CopydResult};
use crate::plan::spec_join;
use crate::util::str_eq;

verus! {

/// Whether the regex crate accepts a pattern: a function of the pattern
/// text alone.
pub uninterp spec fn regex_valid(pattern: Seq<char>) -> bool;

/// What regex replacement yields: every match of the pattern in the input
/// replaced by the replacement, a function of the three texts alone.
pub uninterp spec fn regex_replace_of(
    pattern: Seq<char>,
    input: Seq<char>,
    replacement: Seq<char>,
) -> Seq<char>;

/// Relies on regex::Regex::new: compilation succeeds exactly when the
/// pattern is valid syntax.
#[verifier::external_body]
fn regex_compiles(pattern: &str) -> (r: bool)
    ensures
        r == regex_valid(pattern@),
{
    regex::Regex::new(pattern).is_ok()
}

/// Relies on regex::Regex::new and Regex::replace_all: the result replaces
/// every match and depends on the pattern, input and replacement alone.
#[verifier::external_body]
fn regex_replace_all(pattern: &str, input: &str, replacement: &str) -> (r: Option<String>)
    ensures
        r is Some <==> regex_valid(pattern@),
        r matches Some(s) ==> s@ == regex_replace_of(pattern@, input@, replacement@),
{
    match regex::Regex::new(pattern) {
        Ok(re) => Some(re.replace_all(input, replacement).into_owned()),
        Err(_) => None,
    }
}

/// Index just past the last separator in a path, or 0 when there is none.
pub open spec fn spec_after_last_slash(p: Seq<char>) -> int
    decreases p.len(),
{
    if p.len() == 0 {
        0
    } else if p.last() == '/' {
        p.len() as int
    } else {
        spec_after_last_slash(p.drop_last())
    }
}

/// The directory part of a path: everything before its last separator.
pub open spec fn spec_parent(p: Seq<char>) -> Seq<char> {
    if spec_after_last_slash(p) > 0 {
        p.subrange(0, spec_after_last_slash(p) - 1)
    } else {
        Seq::empty()
    }
}

/// The directory part of a path, per `spec_parent`.
pub fn parent_of(path: &str) -> (r: String)
    ensures
        r@ == spec_parent(path@),
{
    let n = path.unicode_len();
    assert(path@.subrange(0, n as int) =~= path@);
    let mut k: usize = n;
    while k > 0
        invariant
            k <= n,
            n == path@.len(),
            spec_after_last_slash(path@) == spec_after_last_slash(path@.subrange(0, k as int)),
        decreases k,
    {
        let ghost pre = path@.subrange(0, k as int);
        if path.get_char(k - 1) == '/' {
            proof {
                assert(pre.last() == path@[k - 1]);
                assert(spec_after_last_slash(pre) == k);
            }
            let r = path.substring_char(0, k - 1).to_owned();
            assert(r@ =~= spec_parent(path@));
            return r;
        }
        proof {
            assert(pre.last() == path@[k - 1]);
            assert(pre.drop_last() =~= path@.subrange(0, k - 1));
        }
        k = k - 1;
    }
    proof {
        assert(path@.subrange(0, 0) =~= Seq::<char>::empty());
        assert(spec_after_last_slash(path@) == 0);
    }
    String::new()
}

/// Renames destination basenames by a regex pattern and replacement.
pub struct RegexRenamer {
    pub pattern: Option<String>,
    pub replacement: String,
}

impl RegexRenamer {
    /// The stored pattern, when there is one, is valid regex syntax.
    pub open spec fn wf(&self) -> bool {
        self.pattern matches Some(p) ==> regex_valid(p@)
    }

    /// Compiles the configuration: an empty pattern disables renaming; an
    /// invalid pattern is refused.
    pub fn new(pattern: &str, replacement: &str) -> (r: CopydResult<RegexRenamer>)
        ensures
            pattern@.len() == 0 ==> (r matches Ok(rn) && rn.pattern is None && rn.wf()),
            pattern@.len() > 0 && regex_valid(pattern@) ==> (r matches Ok(rn) && (rn.pattern
                matches Some(p) && p@ == pattern@) && rn.replacement@ == replacement@ && rn.wf()),
            pattern@.len() > 0 && !regex_valid(pattern@) ==> (r matches Err(e)
                && e is InvalidRegexPattern),
            r matches Ok(rn) ==> rn.wf() && rn.replacement@ == replacement@,
    {
        if pattern.is_empty() {
            Ok(RegexRenamer { pattern: None, replacement: replacement.to_owned() })
        } else if regex_compiles(pattern) {
            Ok(
                RegexRenamer {
                    pattern: Some(pattern.to_owned()),
                    replacement: replacement.to_owned(),
                },
            )
        } else {
            Err(
                CopydError::InvalidRegexPattern {
                    pattern: pattern.to_owned(),
                    reason: "the pattern does not compile".to_owned(),
                },
            )
        }
    }

    /// A renamer that transforms nothing.
    pub fn disabled() -> (r: RegexRenamer)
        ensures
            r.pattern is None,
            r.replacement@.len() == 0,
            r.wf(),
    {
        RegexRenamer { pattern: None, replacement: String::new() }
    }

    /// Renaming takes place only with both a pattern and a non-empty
    /// replacement.
    pub fn is_enabled(&self) -> (r: bool)
        ensures
            r == (self.pattern is Some && self.replacement@.len() > 0),
    {
        self.pattern.is_some() && !self.replacement.as_str().is_empty()
    }

    /// Where a file goes under renaming: with renaming off or no match the
    /// base destination stands; a changed name lands in the base
    /// destination when that is a directory, else beside it.
    pub fn transform_path(
        &self,
        original_name: &str,
        base_destination: &str,
        dest_is_dir: bool,
    ) -> (r: String)
        requires
            self.wf(),
        ensures
            !(self.pattern is Some && self.replacement@.len() > 0) ==> r@ == base_destination@,
            self.pattern matches Some(p) ==> self.replacement@.len() > 0 ==> {
                let renamed = regex_replace_of(p@, original_name@, self.replacement@);
                &&& renamed == original_name@ ==> r@ == base_destination@
                &&& renamed != original_name@ && dest_is_dir ==> r@ == spec_join(
                    base_destination@,
                    renamed,
                )
                &&& renamed != original_name@ && !dest_is_dir ==> r@ == spec_join(
                    spec_parent(base_destination@),
                    renamed,
                )
            },
    {
        if !self.is_enabled() {
            return base_destination.to_owned();
        }
        let pattern = match &self.pattern {
            Some(p) => p,
            None => { return base_destination.to_owned() },
        };
        let new_name = match regex_replace_all(
            pattern.as_str(),
            original_name,
            self.replacement.as_str(),
        ) {
            Some(s) => s,
            None => { return base_destination.to_owned() },
        };
        if str_eq(new_name.as_str(), original_name) {
            return base_destination.to_owned();
        }
        if dest_is_dir {
            join_dest(base_destination, new_name.as_str())
        } else {
            let parent = parent_of(base_destination);
            join_dest(parent.as_str(), new_name.as_str())
        }
    }

    /// One preview is right for a source name: the new name is the regex
    /// replacement (the name itself with renaming off), `would_change`
    /// flags a differing result, and the new path is the transformed
    /// destination exactly as `transform_path` would place it — except
    /// that a changed name's path is spelled out even where the
    /// destination would stand unchanged.
    pub open spec fn preview_of(
        &self,
        name: Seq<char>,
        base_destination: Seq<char>,
        dest_is_dir: bool,
        p: RegexTransformPreview,
    ) -> bool {
        &&& p.source_path@ == name
        &&& p.original_name@ == name
        &&& (match self.pattern {
            Some(pat) => {
                let renamed = regex_replace_of(pat@, name, self.replacement@);
                &&& p.new_name@ == renamed
                &&& p.would_change == (renamed != name)
            },
            None => {
                &&& p.new_name@ == name
                &&& !p.would_change
            },
        })
        &&& p.new_path@ == (if p.would_change {
            if dest_is_dir {
                spec_join(base_destination, p.new_name@)
            } else {
                spec_join(spec_parent(base_destination), p.new_name@)
            }
        } else {
            base_destination
        })
    }

    /// What renaming would do to each source name, without touching any
    /// file: one preview per source, in order; see `preview_of`.
    pub fn preview_transformations(
        &self,
        source_names: &Vec<String>,
        base_destination: &str,
        dest_is_dir: bool,
    ) -> (r: Vec<RegexTransformPreview>)
        requires
            self.wf(),
        ensures
            r@.len() == source_names@.len(),
            forall|i: int|
                0 <= i < r@.len() ==> self.preview_of(
                    source_names.deep_view()[i],
                    base_destination@,
                    dest_is_dir,
                    #[trigger] r@[i],
                ),
    {
        let mut out: Vec<RegexTransformPreview> = Vec::new();
        let n = source_names.len();
        let mut i: usize = 0;
        while i < n
            invariant
                i <= n,
                n == source_names@.len(),
                self.wf(),
                out@.len() == i,
                forall|k: int|
                    0 <= k < i ==> self.preview_of(
                        source_names.deep_view()[k],
                        base_destination@,
                        dest_is_dir,
                        #[trigger] out@[k],
                    ),
            decreases n - i,
        {
            let original = &source_names[i];
            let (new_name, would_change) = match &self.pattern {
                Some(p) => {
                    match regex_replace_all(
                        p.as_str(),
                        original.as_str(),
                        self.replacement.as_str(),
                    ) {
                        Some(renamed) => {
                            let changed = !str_eq(renamed.as_str(), original.as_str());
                            (renamed, changed)
                        },
                        None => (original.clone(), false),
                    }
                },
                None => (original.clone(), false),
            };
            let new_path = if would_change {
                if dest_is_dir {
                    join_dest(base_destination, new_name.as_str())
                } else {
                    let parent = parent_of(base_destination);
                    join_dest(parent.as_str(), new_name.as_str())
                }
            } else {
                base_destination.to_owned()
            };
            out.push(
                RegexTransformPreview {
                    source_path: original.clone(),
                    original_name: original.clone(),
                    new_name,
                    new_path,
                    would_change,
                },
            );
            i = i + 1;
        }
        out
    }

    /// Checks the replacement against sample names: one that yields an
    /// empty name could lose data, and one that yields path separators
    /// could escape the destination; both are refused.
    pub fn validate(&self) -> (r: CopydResult<()>)
        requires
            self.wf(),
        ensures
            self.pattern is None ==> r is Ok,
            self.pattern matches Some(p) ==> (r is Ok <==> (sample_ok(
                p@,
                self.replacement@,
                "file.txt"@,
            ) && sample_ok(p@, self.replacement@, "document.pdf"@) && sample_ok(
                p@,
                self.replacement@,
                "image.jpg"@,
            ) && sample_ok(p@, self.replacement@, "archive.tar.gz"@))),
    {
        let pattern = match &self.pattern {
            None => { return Ok(()) },
            Some(p) => p,
        };
        let samples = vec![
            "file.txt".to_owned(),
            "document.pdf".to_owned(),
            "image.jpg".to_owned(),
            "archive.tar.gz".to_owned(),
        ];
        let ghost sample_views = seq!["file.txt"@, "document.pdf"@, "image.jpg"@, "archive.tar.gz"@];
        assert(samples.deep_view() =~= sample_views);
        let mut i: usize = 0;
        while i < samples.len()
            invariant
                i <= samples@.len(),
                samples.deep_view() == sample_views,
                sample_views.len() == 4,
                sample_views[0] == "file.txt"@,
                sample_views[1] == "document.pdf"@,
                sample_views[2] == "image.jpg"@,
                sample_views[3] == "archive.tar.gz"@,
                sample_views.len() == samples@.len(),
                self.wf(),
                self.pattern matches Some(p2) && p2 == pattern,
                forall|k: int|
                    0 <= k < i ==> sample_ok(
                        pattern@,
                        self.replacement@,
                        #[trigger] sample_views[k],
                    ),
            decreases samples@.len() - i,
        {
            let renamed = match regex_replace_all(
                pattern.as_str(),
                samples[i].as_str(),
                self.replacement.as_str(),
            ) {
                Some(renamed) => renamed,
                None => { return Ok(()) },
            };
            proof {
                assert(samples@[i as int]@ == samples.deep_view()[i as int]);
                assert(renamed@ == regex_replace_of(
                    pattern@,
                    sample_views[i as int],
                    self.replacement@,
                ));
            }
            if renamed.as_str().is_empty() {
                proof {
                    assert(!sample_ok(pattern@, self.replacement@, sample_views[i as int]));
                    if i == 0 {
                        assert(sample_views[0] == "file.txt"@);
                    } else if i == 1 {
                        assert(sample_views[1] == "document.pdf"@);
                    } else if i == 2 {
                        assert(sample_views[2] == "image.jpg"@);
                    } else {
                        assert(sample_views[3] == "archive.tar.gz"@);
                    }
                }
                return Err(
                    CopydError::InvalidInput {
                        field: "regex_rename_replace".to_owned(),
                        reason: "the replacement yields an empty name".to_owned(),
                    },
                );
            }
            if has_separator(renamed.as_str()) {
                proof {
                    assert(!sample_ok(pattern@, self.replacement@, sample_views[i as int]));
                    if i == 0 {
                        assert(sample_views[0] == "file.txt"@);
                    } else if i == 1 {
                        assert(sample_views[1] == "document.pdf"@);
                    } else if i == 2 {
                        assert(sample_views[2] == "image.jpg"@);
                    } else {
                        assert(sample_views[3] == "archive.tar.gz"@);
                    }
                }
                return Err(
                    CopydError::InvalidInput {
                        field: "regex_rename_replace".to_owned(),
                        reason: "the replacement yields path separators".to_owned(),
                    },
                );
            }
            i = i + 1;
        }
        Ok(())
    }

    /// The configured pattern text, empty when renaming is off.
    pub fn pattern_str(&self) -> (r: &str)
        ensures
            self.pattern matches Some(p) ==> r@ == p@,
            self.pattern is None ==> r@.len() == 0,
    {
        proof {
            reveal_strlit("");
        }
        match &self.pattern {
            Some(p) => p.as_str(),
            None => "",
        }
    }

    /// The configured replacement text.
    pub fn replacement_str(&self) -> (r: &str)
        ensures
            r@ == self.replacement@,
    {
        self.replacement.as_str()
    }
}

fn join_dest(dir: &str, name: &str) -> (r: String)
    ensures
        r@ == spec_join(dir@, name@),
{
    proof {
        reveal_strlit("/");
    }
    let r = dir.to_owned().concat("/").concat(name);
    assert(r@ =~= spec_join(dir@, name@));
    r
}

/// What one planned rename would do, before any file is touched.
pub struct RegexTransformPreview {
    pub source_path: String,
    pub original_name: String,
    pub new_name: String,
    pub new_path: String,
    pub would_change: bool,
}

impl RegexTransformPreview {
    /// One display line: the mapping when the name would change, otherwise
    /// the source marked unchanged.
    pub fn display(&self) -> (r: String)
        ensures
            self.would_change ==> r@ == self.source_path@ + " -> "@ + self.new_path@,
            !self.would_change ==> r@ == self.source_path@ + " (unchanged)"@,
    {
        proof {
            reveal_strlit(" -> ");
            reveal_strlit(" (unchanged)");
        }
        if self.would_change {
            let r = self.source_path.clone().concat(" -> ").concat(self.new_path.as_str());
            assert(r@ =~= self.source_path@ + " -> "@ + self.new_path@);
            r
        } else {
            let r = self.source_path.clone().concat(" (unchanged)");
            assert(r@ =~= self.source_path@ + " (unchanged)"@);
            r
        }
    }
}

/// A name holds a path separator.
pub open spec fn contains_separator(s: Seq<char>) -> bool {
    exists|i: int| 0 <= i < s.len() && (#[trigger] s[i] == '/' || s[i] == '\\')
}

/// A sample name survives the replacement: the result is non-empty and
/// free of path separators.
pub open spec fn sample_ok(pattern: Seq<char>, replacement: Seq<char>, sample: Seq<char>) -> bool {
    let renamed = regex_replace_of(pattern, sample, replacement);
    renamed.len() > 0 && !contains_separator(renamed)
}

fn has_separator(s: &str) -> (r: bool)
    ensures
        r == contains_separator(s@),
{
    let n = s.unicode_len();
    let mut i: usize = 0;
    while i < n
        invariant
            i <= n,
            n == s@.len(),
            forall|k: int| 0 <= k < i ==> !(#[trigger] s@[k] == '/' || s@[k] == '\\'),
        decreases n - i,
    {
        let c = s.get_char(i);
        if c == '/' || c == '\\' {
            return true;
        }
        i = i + 1;
    }
    false
}

} // verus!
