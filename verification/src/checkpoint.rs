//! Durable job progress: per-file and per-job checkpoint records, the store
//! that holds them keyed by job id, the resume-safety rule, and the stable
//! file key derived from a source/destination pair.

use vstd::prelude::*;
use vstd::slice::slice_index_get;
use crate::util::{spec_hex, str_eq, u64_to_hex};

verus! {

/// Progress of one file within a job, as persisted.
#[derive(Debug, Clone)]
pub struct FileCheckpoint {
    pub source_path: String,
    pub destination_path: String,
    pub bytes_copied: u64,
    pub total_size: u64,
    /// Source mtime in whole seconds since the epoch.
    pub last_modified: u64,
    pub checksum_partial: Option<String>,
    pub chunk_size: u64,
    pub created_at: u64,
    pub updated_at: u64,
}

/// Aggregate progress of one job, as persisted: the in-flight files keyed by
/// file id, the finished and failed ones, and the byte totals.
#[derive(Debug, Clone)]
pub struct JobCheckpoint {
    pub job_id: String,
    pub operation_type: String,
    /// In-flight files: (file id, progress), file ids unique.
    pub files: Vec<(String, FileCheckpoint)>,
    pub completed_files: Vec<String>,
    pub failed_files: Vec<String>,
    pub total_files: usize,
    pub total_bytes: u64,
    pub bytes_completed: u64,
    pub created_at: u64,
    pub updated_at: u64,
    pub resume_count: u32,
}

/// Looks an id up in an association list, first match wins.
pub open spec fn spec_find_file(s: Seq<(String, FileCheckpoint)>, id: Seq<char>) -> Option<
    FileCheckpoint,
>
    decreases s.len(),
{
    if s.len() == 0 {
        None
    } else if s[0].0@ == id {
        Some(s[0].1)
    } else {
        spec_find_file(s.drop_first(), id)
    }
}

impl JobCheckpoint {
    /// File ids are unique, so the association list is a map.
    pub open spec fn wf(&self) -> bool {
        forall|i: int, j: int|
            0 <= i < j < self.files@.len() ==> (#[trigger] self.files@[i]).0@ != (
            #[trigger] self.files@[j]).0@
    }

    /// The record of the given file id, if any file is in flight under it.
    pub open spec fn spec_file(&self, id: Seq<char>) -> Option<FileCheckpoint> {
        spec_find_file(self.files@, id)
    }

    /// A fresh, empty record for one job.
    pub fn new(job_id: String, operation_type: String) -> (r: JobCheckpoint)
        ensures
            r.wf(),
            r.job_id == job_id,
            r.operation_type == operation_type,
            r.files@.len() == 0,
            r.completed_files@.len() == 0,
            r.failed_files@.len() == 0,
            r.total_files == 0,
            r.total_bytes == 0,
            r.bytes_completed == 0,
            r.resume_count == 0,
            r.created_at == r.updated_at,
    {
        let now = now_unix_secs();
        JobCheckpoint {
            job_id,
            operation_type,
            files: Vec::new(),
            completed_files: Vec::new(),
            failed_files: Vec::new(),
            total_files: 0,
            total_bytes: 0,
            bytes_completed: 0,
            created_at: now,
            updated_at: now,
            resume_count: 0,
        }
    }

    fn find_index(&self, file_id: &str) -> (r: Option<usize>)
        ensures
            match r {
                Some(i) => i < self.files@.len() && self.files@[i as int].0@ == file_id@
                    && self.spec_file(file_id@) == Some(self.files@[i as int].1),
                None => self.spec_file(file_id@) is None,
            },
    {
        let n = self.files.len();
        assert(self.files@.subrange(0, n as int) =~= self.files@);
        let mut i: usize = 0;
        while i < n
            invariant
                i <= n,
                n == self.files@.len(),
                spec_find_file(self.files@, file_id@) == spec_find_file(
                    self.files@.subrange(i as int, n as int),
                    file_id@,
                ),
            decreases n - i,
        {
            let ghost tail = self.files@.subrange(i as int, n as int);
            if str_eq(self.files[i].0.as_str(), file_id) {
                assert(tail[0] == self.files@[i as int]);
                return Some(i);
            }
            proof {
                assert(tail.drop_first() =~= self.files@.subrange(i + 1 as int, n as int));
            }
            i = i + 1;
        }
        None
    }

    /// Registers one more file, adding its size to the job totals. A file
    /// already registered under the same id is replaced, while the totals
    /// still grow, as repeated registration means the planner counted it
    /// again.
    pub fn add_file(&mut self, file_id: String, checkpoint: FileCheckpoint)
        requires
            old(self).wf(),
            old(self).total_bytes + checkpoint.total_size <= u64::MAX,
            old(self).total_files < usize::MAX,
        ensures
            final(self).wf(),
            final(self).spec_file(file_id@) == Some(checkpoint),
            forall|id: Seq<char>|
                id != file_id@ ==> #[trigger] final(self).spec_file(id) == old(self).spec_file(
                    id,
                ),
            final(self).total_bytes == old(self).total_bytes + checkpoint.total_size,
            final(self).total_files == old(self).total_files + 1,
            final(self).bytes_completed == old(self).bytes_completed,
            final(self).job_id == old(self).job_id,
            final(self).operation_type == old(self).operation_type,
            final(self).completed_files == old(self).completed_files,
            final(self).failed_files == old(self).failed_files,
            final(self).created_at == old(self).created_at,
            final(self).resume_count == old(self).resume_count,
    {
        self.total_bytes = self.total_bytes + checkpoint.total_size;
        self.total_files = self.total_files + 1;
        let ghost pre = self.files@;
        let ghost gid = file_id@;
        let ghost gcp = checkpoint;
        match self.find_index(file_id.as_str()) {
            Some(i) => {
                self.files.set(i, (file_id, checkpoint));
                proof {
                    let pr = self.files@[i as int];
                    assert(self.files@ =~= pre.update(i as int, pr));
                    assert forall|k: int| 0 <= k < pre.len() && k != i implies (
                    #[trigger] pre[k]).0@ != pr.0@ by {}
                    lemma_find_file_update(pre, i as int, pr, gid);
                    assert forall|id2: Seq<char>| id2 != gid implies #[trigger] spec_find_file(
                        self.files@,
                        id2,
                    ) == spec_find_file(pre, id2) by {
                        lemma_find_file_update(pre, i as int, pr, id2);
                    }
                    assert forall|a: int, b: int|
                        0 <= a < b < self.files@.len() implies (
                    #[trigger] self.files@[a]).0@ != (#[trigger] self.files@[b]).0@ by {
                        assert(pre[a].0@ != pre[b].0@);
                    }
                }
            },
            None => {
                self.files.push((file_id, checkpoint));
                proof {
                    let pr = self.files@.last();
                    lemma_find_file_none_keys(pre, gid);
                    lemma_find_file_snoc(pre, pr, gid);
                    assert forall|id2: Seq<char>| id2 != gid implies #[trigger] spec_find_file(
                        self.files@,
                        id2,
                    ) == spec_find_file(pre, id2) by {
                        lemma_find_file_snoc(pre, pr, id2);
                    }
                    assert forall|a: int, b: int|
                        0 <= a < b < self.files@.len() implies (
                    #[trigger] self.files@[a]).0@ != (#[trigger] self.files@[b]).0@ by {
                        if b < pre.len() {
                            assert(pre[a].0@ != pre[b].0@);
                        } else {
                            assert(self.files@[a] == pre[a]);
                        }
                    }
                }
            },
        }
        self.update_timestamp();
    }

    /// Overwrites one file's byte count and partial checksum, and moves the
    /// job byte total by the difference. Within one execution the per-file
    /// count only grows, so the job total never decreases.
    pub fn update_file_progress(&mut self, file_id: &str, bytes_copied: u64, checksum: Option<
        String,
    >)
        requires
            old(self).wf(),
            old(self).bytes_completed + bytes_copied <= u64::MAX,
        ensures
            final(self).wf(),
            old(self).spec_file(file_id@) is None ==> *final(self) == *old(self),
            old(self).spec_file(file_id@) matches Some(cp) ==> {
                let credited = if old(self).bytes_completed >= cp.bytes_copied {
                    (old(self).bytes_completed - cp.bytes_copied) as u64
                } else {
                    0u64
                };
                &&& final(self).bytes_completed == credited + bytes_copied
                &&& (final(self).spec_file(file_id@) matches Some(ncp) && ncp.bytes_copied
                    == bytes_copied && ncp.checksum_partial == checksum && ncp.source_path
                    == cp.source_path && ncp.destination_path == cp.destination_path
                    && ncp.total_size == cp.total_size && ncp.last_modified == cp.last_modified
                    && ncp.chunk_size == cp.chunk_size && ncp.created_at == cp.created_at)
                &&& (bytes_copied >= cp.bytes_copied ==> final(self).bytes_completed >= old(
                    self,
                ).bytes_completed)
                &&& (old(self).bytes_completed >= cp.bytes_copied
                    ==> final(self).bytes_completed == old(self).bytes_completed - cp.bytes_copied
                    + bytes_copied)
            },
            forall|id: Seq<char>|
                id != file_id@ ==> #[trigger] final(self).spec_file(id) == old(self).spec_file(
                    id,
                ),
            final(self).total_bytes == old(self).total_bytes,
            final(self).total_files == old(self).total_files,
            final(self).job_id == old(self).job_id,
            final(self).completed_files == old(self).completed_files,
            final(self).failed_files == old(self).failed_files,
            final(self).resume_count == old(self).resume_count,
    {
        let ghost pre = self.files@;
        match self.find_index(file_id) {
            None => {},
            Some(i) => {
                let old_bytes = self.files[i].1.bytes_copied;
                let key = self.files[i].0.clone();
                let cp = FileCheckpoint {
                    source_path: self.files[i].1.source_path.clone(),
                    destination_path: self.files[i].1.destination_path.clone(),
                    bytes_copied,
                    total_size: self.files[i].1.total_size,
                    last_modified: self.files[i].1.last_modified,
                    checksum_partial: checksum,
                    chunk_size: self.files[i].1.chunk_size,
                    created_at: self.files[i].1.created_at,
                    updated_at: now_unix_secs(),
                };
                self.files.set(i, (key, cp));
                proof {
                    let pr = self.files@[i as int];
                    assert(self.files@ =~= pre.update(i as int, pr));
                    assert forall|k: int| 0 <= k < pre.len() && k != i implies (
                    #[trigger] pre[k]).0@ != pr.0@ by {}
                    lemma_find_file_update(pre, i as int, pr, file_id@);
                    assert forall|id2: Seq<char>| id2 != file_id@ implies #[trigger] spec_find_file(
                        self.files@,
                        id2,
                    ) == spec_find_file(pre, id2) by {
                        lemma_find_file_update(pre, i as int, pr, id2);
                    }
                    assert forall|a: int, b: int|
                        0 <= a < b < self.files@.len() implies (
                    #[trigger] self.files@[a]).0@ != (#[trigger] self.files@[b]).0@ by {
                        assert(pre[a].0@ != pre[b].0@);
                    }
                }
                let credited = if self.bytes_completed >= old_bytes {
                    self.bytes_completed - old_bytes
                } else {
                    0
                };
                self.bytes_completed = credited + bytes_copied;
                self.update_timestamp();
            },
        }
    }

    /// Moves a file from in-flight to completed, crediting any bytes the
    /// per-file record had not yet counted.
    pub fn complete_file(&mut self, file_id: String)
        requires
            old(self).wf(),
            old(self).spec_file(file_id@) matches Some(cp) ==> old(self).bytes_completed + (
            cp.total_size - cp.bytes_copied) <= u64::MAX,
        ensures
            final(self).wf(),
            old(self).spec_file(file_id@) is None ==> *final(self) == *old(self),
            old(self).spec_file(file_id@) matches Some(cp) ==> {
                &&& final(self).spec_file(file_id@) is None
                &&& final(self).completed_files@ == old(self).completed_files@.push(file_id)
                &&& final(self).bytes_completed == old(self).bytes_completed + (
                if cp.bytes_copied < cp.total_size {
                    (cp.total_size - cp.bytes_copied) as u64
                } else {
                    0u64
                })
                &&& final(self).files@.len() == old(self).files@.len() - 1
            },
            forall|id: Seq<char>|
                id != file_id@ ==> #[trigger] final(self).spec_file(id) == old(self).spec_file(
                    id,
                ),
            final(self).failed_files == old(self).failed_files,
            final(self).total_bytes == old(self).total_bytes,
            final(self).total_files == old(self).total_files,
            final(self).job_id == old(self).job_id,
            final(self).resume_count == old(self).resume_count,
    {
        let ghost pre = self.files@;
        match self.find_index(file_id.as_str()) {
            None => {},
            Some(i) => {
                let (_, cp) = self.files.remove(i);
                proof {
                    assert forall|k: int| 0 <= k < pre.len() && k != i implies (
                    #[trigger] pre[k]).0@ != pre[i as int].0@ by {}
                    lemma_find_file_remove(pre, i as int, file_id@);
                    assert forall|id2: Seq<char>| id2 != file_id@ implies #[trigger] spec_find_file(
                        self.files@,
                        id2,
                    ) == spec_find_file(pre, id2) by {
                        lemma_find_file_remove(pre, i as int, id2);
                    }
                    assert forall|a: int, b: int|
                        0 <= a < b < self.files@.len() implies (
                    #[trigger] self.files@[a]).0@ != (#[trigger] self.files@[b]).0@ by {
                        let pa: int = if a < i { a } else { a + 1 };
                        let pb: int = if b < i { b } else { b + 1 };
                        assert(self.files@[a] == pre[pa]);
                        assert(self.files@[b] == pre[pb]);
                        assert(pre[pa].0@ != pre[pb].0@);
                    }
                }
                self.completed_files.push(file_id);
                if cp.bytes_copied < cp.total_size {
                    self.bytes_completed = self.bytes_completed + (cp.total_size
                        - cp.bytes_copied);
                }
                self.update_timestamp();
            },
        }
    }

    /// Moves a file from in-flight to failed.
    pub fn fail_file(&mut self, file_id: String)
        requires
            old(self).wf(),
        ensures
            final(self).wf(),
            old(self).spec_file(file_id@) is None ==> *final(self) == *old(self),
            old(self).spec_file(file_id@) is Some ==> {
                &&& final(self).spec_file(file_id@) is None
                &&& final(self).failed_files@ == old(self).failed_files@.push(file_id)
                &&& final(self).files@.len() == old(self).files@.len() - 1
            },
            forall|id: Seq<char>|
                id != file_id@ ==> #[trigger] final(self).spec_file(id) == old(self).spec_file(
                    id,
                ),
            final(self).completed_files == old(self).completed_files,
            final(self).bytes_completed == old(self).bytes_completed,
            final(self).total_bytes == old(self).total_bytes,
            final(self).total_files == old(self).total_files,
            final(self).job_id == old(self).job_id,
            final(self).resume_count == old(self).resume_count,
    {
        let ghost pre = self.files@;
        match self.find_index(file_id.as_str()) {
            None => {},
            Some(i) => {
                let _ = self.files.remove(i);
                proof {
                    assert forall|k: int| 0 <= k < pre.len() && k != i implies (
                    #[trigger] pre[k]).0@ != pre[i as int].0@ by {}
                    lemma_find_file_remove(pre, i as int, file_id@);
                    assert forall|id2: Seq<char>| id2 != file_id@ implies #[trigger] spec_find_file(
                        self.files@,
                        id2,
                    ) == spec_find_file(pre, id2) by {
                        lemma_find_file_remove(pre, i as int, id2);
                    }
                    assert forall|a: int, b: int|
                        0 <= a < b < self.files@.len() implies (
                    #[trigger] self.files@[a]).0@ != (#[trigger] self.files@[b]).0@ by {
                        let pa: int = if a < i { a } else { a + 1 };
                        let pb: int = if b < i { b } else { b + 1 };
                        assert(self.files@[a] == pre[pa]);
                        assert(self.files@[b] == pre[pb]);
                        assert(pre[pa].0@ != pre[pb].0@);
                    }
                }
                self.failed_files.push(file_id);
                self.update_timestamp();
            },
        }
    }

    /// A record still describes unfinished work when files are in flight or
    /// have failed.
    pub fn is_resumable(&self) -> (r: bool)
        ensures
            r == (self.files@.len() != 0 || self.failed_files@.len() != 0),
    {
        self.files.len() != 0 || self.failed_files.len() != 0
    }

    /// Counts one more resumption of this job.
    pub fn increment_resume_count(&mut self)
        requires
            old(self).resume_count < u32::MAX,
        ensures
            final(self).resume_count == old(self).resume_count + 1,
            final(self).files == old(self).files,
            final(self).job_id == old(self).job_id,
            final(self).operation_type == old(self).operation_type,
            final(self).bytes_completed == old(self).bytes_completed,
            final(self).total_bytes == old(self).total_bytes,
            final(self).total_files == old(self).total_files,
            final(self).completed_files == old(self).completed_files,
            final(self).failed_files == old(self).failed_files,
            final(self).created_at == old(self).created_at,
    {
        self.resume_count = self.resume_count + 1;
        self.update_timestamp();
    }

    fn update_timestamp(&mut self)
        ensures
            final(self).job_id == old(self).job_id,
            final(self).operation_type == old(self).operation_type,
            final(self).files == old(self).files,
            final(self).completed_files == old(self).completed_files,
            final(self).failed_files == old(self).failed_files,
            final(self).total_files == old(self).total_files,
            final(self).total_bytes == old(self).total_bytes,
            final(self).bytes_completed == old(self).bytes_completed,
            final(self).created_at == old(self).created_at,
            final(self).resume_count == old(self).resume_count,
    {
        self.updated_at = now_unix_secs();
    }
}

// --- lemmas about lookup in the file association list ---

proof fn lemma_find_file_absent(s: Seq<(String, FileCheckpoint)>, id: Seq<char>)
    requires
        forall|k: int| 0 <= k < s.len() ==> (#[trigger] s[k]).0@ != id,
    ensures
        spec_find_file(s, id) is None,
    decreases s.len(),
{
    if s.len() > 0 {
        lemma_find_file_absent(s.drop_first(), id);
    }
}

proof fn lemma_find_file_none_keys(s: Seq<(String, FileCheckpoint)>, id: Seq<char>)
    requires
        spec_find_file(s, id) is None,
    ensures
        forall|k: int| 0 <= k < s.len() ==> (#[trigger] s[k]).0@ != id,
    decreases s.len(),
{
    if s.len() > 0 {
        lemma_find_file_none_keys(s.drop_first(), id);
        assert forall|k: int| 0 <= k < s.len() implies (#[trigger] s[k]).0@ != id by {
            if k > 0 {
                assert(s.drop_first()[k - 1] == s[k]);
            }
        }
    }
}

proof fn lemma_find_file_snoc(
    s: Seq<(String, FileCheckpoint)>,
    p: (String, FileCheckpoint),
    id: Seq<char>,
)
    ensures
        spec_find_file(s.push(p), id) == (match spec_find_file(s, id) {
            Some(v) => Some(v),
            None => if p.0@ == id {
                Some(p.1)
            } else {
                None
            },
        }),
    decreases s.len(),
{
    if s.len() == 0 {
        assert(s.push(p).len() == 1);
        assert(s.push(p)[0] == p);
        assert(s.push(p).drop_first() =~= Seq::<(String, FileCheckpoint)>::empty());
        assert(spec_find_file(s, id) is None);
        assert(spec_find_file(Seq::<(String, FileCheckpoint)>::empty(), id) is None);
        if p.0@ == id {
            assert(spec_find_file(s.push(p), id) == Some(p.1));
        } else {
            assert(spec_find_file(s.push(p), id) is None);
        }
    } else {
        assert(s.push(p)[0] == s[0]);
        assert(s.push(p).drop_first() =~= s.drop_first().push(p));
        lemma_find_file_snoc(s.drop_first(), p, id);
        if s[0].0@ == id {
            assert(spec_find_file(s.push(p), id) == Some(s[0].1));
            assert(spec_find_file(s, id) == Some(s[0].1));
        } else {
            assert(spec_find_file(s.push(p), id) == spec_find_file(s.drop_first().push(p), id));
            assert(spec_find_file(s, id) == spec_find_file(s.drop_first(), id));
        }
    }
}

proof fn lemma_find_file_update(
    s: Seq<(String, FileCheckpoint)>,
    i: int,
    p: (String, FileCheckpoint),
    other: Seq<char>,
)
    requires
        0 <= i < s.len(),
        s[i].0@ == p.0@,
        forall|k: int| 0 <= k < s.len() && k != i ==> (#[trigger] s[k]).0@ != p.0@,
    ensures
        spec_find_file(s.update(i, p), p.0@) == Some(p.1),
        other != p.0@ ==> spec_find_file(s.update(i, p), other) == spec_find_file(s, other),
    decreases s.len(),
{
    let t = s.update(i, p);
    if i == 0 {
        assert(t[0] == p);
        assert(t.drop_first() =~= s.drop_first());
    } else {
        assert(t[0] == s[0]);
        assert(s[0].0@ != p.0@);
        assert(t.drop_first() =~= s.drop_first().update(i - 1, p));
        assert forall|k: int|
            0 <= k < s.drop_first().len() && k != i - 1 implies (
        #[trigger] s.drop_first()[k]).0@ != p.0@ by {
            assert(s.drop_first()[k] == s[k + 1]);
        }
        lemma_find_file_update(s.drop_first(), i - 1, p, other);
    }
}

proof fn lemma_find_file_remove(s: Seq<(String, FileCheckpoint)>, i: int, other: Seq<char>)
    requires
        0 <= i < s.len(),
        forall|k: int| 0 <= k < s.len() && k != i ==> (#[trigger] s[k]).0@ != s[i].0@,
    ensures
        spec_find_file(s.remove(i), s[i].0@) is None,
        other != s[i].0@ ==> spec_find_file(s.remove(i), other) == spec_find_file(s, other),
    decreases s.len(),
{
    let t = s.remove(i);
    if i == 0 {
        assert(t =~= s.drop_first());
        assert forall|k: int| 0 <= k < t.len() implies (#[trigger] t[k]).0@ != s[0].0@ by {
            assert(t[k] == s[k + 1]);
        }
        lemma_find_file_absent(t, s[0].0@);
    } else {
        assert(t[0] == s[0]);
        assert(s[0].0@ != s[i].0@);
        assert(t.drop_first() =~= s.drop_first().remove(i - 1));
        assert forall|k: int|
            0 <= k < s.drop_first().len() && k != i - 1 implies (
        #[trigger] s.drop_first()[k]).0@ != s.drop_first()[i - 1].0@ by {
            assert(s.drop_first()[k] == s[k + 1]);
            assert(s.drop_first()[i - 1] == s[i]);
        }
        assert(s.drop_first()[i - 1] == s[i]);
        lemma_find_file_remove(s.drop_first(), i - 1, other);
    }
}

// ---------------------------------------------------------------------------
// the store: records keyed by job id
// ---------------------------------------------------------------------------

/// Totals across all stored records. Byte totals saturate rather than wrap.
#[derive(Debug)]
pub struct CheckpointStats {
    pub total_checkpoints: usize,
    pub resumable_jobs: usize,
    pub resumed_jobs: usize,
    pub total_bytes: u64,
    pub completed_bytes: u64,
}

impl Default for CheckpointStats {
    fn default() -> (r: CheckpointStats)
        ensures
            r.total_checkpoints == 0,
            r.resumable_jobs == 0,
            r.resumed_jobs == 0,
            r.total_bytes == 0,
            r.completed_bytes == 0,
    {
        CheckpointStats {
            total_checkpoints: 0,
            resumable_jobs: 0,
            resumed_jobs: 0,
            total_bytes: 0,
            completed_bytes: 0,
        }
    }
}

pub open spec fn sat_add(a: u64, b: u64) -> u64 {
    if a + b <= u64::MAX {
        (a + b) as u64
    } else {
        u64::MAX
    }
}

pub open spec fn spec_cp_resumable(cp: JobCheckpoint) -> bool {
    cp.files@.len() != 0 || cp.failed_files@.len() != 0
}

/// Looks a job id up among the records, first match wins.
pub open spec fn spec_find_job(s: Seq<JobCheckpoint>, id: Seq<char>) -> Option<JobCheckpoint>
    decreases s.len(),
{
    if s.len() == 0 {
        None
    } else if s[0].job_id@ == id {
        Some(s[0])
    } else {
        spec_find_job(s.drop_first(), id)
    }
}

/// The job ids of the records that still describe unfinished work, in store
/// order.
pub open spec fn spec_resumable_ids(s: Seq<JobCheckpoint>) -> Seq<Seq<char>>
    decreases s.len(),
{
    if s.len() == 0 {
        Seq::empty()
    } else {
        spec_resumable_ids(s.drop_last()) + (if spec_cp_resumable(s.last()) {
            seq![s.last().job_id@]
        } else {
            Seq::empty()
        })
    }
}

/// Totals over records, folded in store order with saturating byte sums.
pub open spec fn spec_stats(s: Seq<JobCheckpoint>) -> (int, int, int, u64, u64)
    decreases s.len(),
{
    if s.len() == 0 {
        (0, 0, 0, 0u64, 0u64)
    } else {
        let (c, r, rj, tb, cb) = spec_stats(s.drop_last());
        (
            c + 1,
            r + (if spec_cp_resumable(s.last()) {
                1int
            } else {
                0int
            }),
            rj + (if s.last().resume_count > 0 {
                1int
            } else {
                0int
            }),
            sat_add(tb, s.last().total_bytes),
            sat_add(cb, s.last().bytes_completed),
        )
    }
}

/// The records whose last update is at or after the cutoff, in order.
pub open spec fn spec_keep_recent(s: Seq<JobCheckpoint>, cutoff: u64) -> Seq<JobCheckpoint>
    decreases s.len(),
{
    if s.len() == 0 {
        Seq::empty()
    } else {
        spec_keep_recent(s.drop_last(), cutoff) + (if s.last().updated_at < cutoff {
            Seq::empty()
        } else {
            seq![s.last()]
        })
    }
}

// --- lemmas about lookup among the records ---

proof fn lemma_find_job_absent(s: Seq<JobCheckpoint>, id: Seq<char>)
    requires
        forall|k: int| 0 <= k < s.len() ==> (#[trigger] s[k]).job_id@ != id,
    ensures
        spec_find_job(s, id) is None,
    decreases s.len(),
{
    if s.len() > 0 {
        lemma_find_job_absent(s.drop_first(), id);
    }
}

proof fn lemma_find_job_none_keys(s: Seq<JobCheckpoint>, id: Seq<char>)
    requires
        spec_find_job(s, id) is None,
    ensures
        forall|k: int| 0 <= k < s.len() ==> (#[trigger] s[k]).job_id@ != id,
    decreases s.len(),
{
    if s.len() > 0 {
        lemma_find_job_none_keys(s.drop_first(), id);
        assert forall|k: int| 0 <= k < s.len() implies (#[trigger] s[k]).job_id@ != id by {
            if k > 0 {
                assert(s.drop_first()[k - 1] == s[k]);
            }
        }
    }
}

proof fn lemma_find_job_snoc(s: Seq<JobCheckpoint>, p: JobCheckpoint, id: Seq<char>)
    ensures
        spec_find_job(s.push(p), id) == (match spec_find_job(s, id) {
            Some(v) => Some(v),
            None => if p.job_id@ == id {
                Some(p)
            } else {
                None
            },
        }),
    decreases s.len(),
{
    if s.len() == 0 {
        assert(s.push(p).len() == 1);
        assert(s.push(p)[0] == p);
        assert(s.push(p).drop_first() =~= Seq::<JobCheckpoint>::empty());
        assert(spec_find_job(s, id) is None);
        assert(spec_find_job(Seq::<JobCheckpoint>::empty(), id) is None);
        if p.job_id@ == id {
            assert(spec_find_job(s.push(p), id) == Some(p));
        } else {
            assert(spec_find_job(s.push(p), id) is None);
        }
    } else {
        assert(s.push(p)[0] == s[0]);
        assert(s.push(p).drop_first() =~= s.drop_first().push(p));
        lemma_find_job_snoc(s.drop_first(), p, id);
        if s[0].job_id@ == id {
            assert(spec_find_job(s.push(p), id) == Some(s[0]));
            assert(spec_find_job(s, id) == Some(s[0]));
        } else {
            assert(spec_find_job(s.push(p), id) == spec_find_job(s.drop_first().push(p), id));
            assert(spec_find_job(s, id) == spec_find_job(s.drop_first(), id));
        }
    }
}

proof fn lemma_find_job_update(s: Seq<JobCheckpoint>, i: int, p: JobCheckpoint, other: Seq<char>)
    requires
        0 <= i < s.len(),
        s[i].job_id@ == p.job_id@,
        forall|k: int| 0 <= k < s.len() && k != i ==> (#[trigger] s[k]).job_id@ != p.job_id@,
    ensures
        spec_find_job(s.update(i, p), p.job_id@) == Some(p),
        other != p.job_id@ ==> spec_find_job(s.update(i, p), other) == spec_find_job(s, other),
    decreases s.len(),
{
    let t = s.update(i, p);
    if i == 0 {
        assert(t[0] == p);
        assert(t.drop_first() =~= s.drop_first());
    } else {
        assert(t[0] == s[0]);
        assert(s[0].job_id@ != p.job_id@);
        assert(t.drop_first() =~= s.drop_first().update(i - 1, p));
        assert forall|k: int|
            0 <= k < s.drop_first().len() && k != i - 1 implies (
        #[trigger] s.drop_first()[k]).job_id@ != p.job_id@ by {
            assert(s.drop_first()[k] == s[k + 1]);
        }
        lemma_find_job_update(s.drop_first(), i - 1, p, other);
    }
}

proof fn lemma_find_job_remove(s: Seq<JobCheckpoint>, i: int, other: Seq<char>)
    requires
        0 <= i < s.len(),
        forall|k: int| 0 <= k < s.len() && k != i ==> (#[trigger] s[k]).job_id@ != s[i].job_id@,
    ensures
        spec_find_job(s.remove(i), s[i].job_id@) is None,
        other != s[i].job_id@ ==> spec_find_job(s.remove(i), other) == spec_find_job(s, other),
    decreases s.len(),
{
    let t = s.remove(i);
    if i == 0 {
        assert(t =~= s.drop_first());
        assert forall|k: int| 0 <= k < t.len() implies (#[trigger] t[k]).job_id@ != s[0].job_id@
            by {
            assert(t[k] == s[k + 1]);
        }
        lemma_find_job_absent(t, s[0].job_id@);
    } else {
        assert(t[0] == s[0]);
        assert(s[0].job_id@ != s[i].job_id@);
        assert(t.drop_first() =~= s.drop_first().remove(i - 1));
        assert forall|k: int|
            0 <= k < s.drop_first().len() && k != i - 1 implies (
        #[trigger] s.drop_first()[k]).job_id@ != s.drop_first()[i - 1].job_id@ by {
            assert(s.drop_first()[k] == s[k + 1]);
            assert(s.drop_first()[i - 1] == s[i]);
        }
        assert(s.drop_first()[i - 1] == s[i]);
        lemma_find_job_remove(s.drop_first(), i - 1, other);
    }
}

/// In-memory store of job checkpoints, keyed by job id. Durability is the
/// caller's part: persisting each record as a file is plain serialization
/// and I/O around this logic.
pub struct CheckpointManager {
    pub records: Vec<JobCheckpoint>,
}

impl CheckpointManager {
    /// Job ids are unique among records, and each record is well formed.
    pub open spec fn wf(&self) -> bool {
        &&& forall|i: int, j: int|
            0 <= i < j < self.records@.len() ==> (#[trigger] self.records@[i]).job_id@ != (
            #[trigger] self.records@[j]).job_id@
        &&& forall|i: int| 0 <= i < self.records@.len() ==> (#[trigger] self.records@[i]).wf()
    }

    /// The stored record under a job id, if any.
    pub open spec fn spec_get(&self, id: Seq<char>) -> Option<JobCheckpoint> {
        spec_find_job(self.records@, id)
    }

    /// An empty store.
    pub fn new() -> (r: CheckpointManager)
        ensures
            r.wf(),
            r.records@.len() == 0,
    {
        CheckpointManager { records: Vec::new() }
    }

    fn find_index(&self, job_id: &str) -> (r: Option<usize>)
        ensures
            match r {
                Some(i) => i < self.records@.len() && self.records@[i as int].job_id@ == job_id@
                    && self.spec_get(job_id@) == Some(self.records@[i as int]),
                None => self.spec_get(job_id@) is None,
            },
    {
        let n = self.records.len();
        assert(self.records@.subrange(0, n as int) =~= self.records@);
        let mut i: usize = 0;
        while i < n
            invariant
                i <= n,
                n == self.records@.len(),
                spec_find_job(self.records@, job_id@) == spec_find_job(
                    self.records@.subrange(i as int, n as int),
                    job_id@,
                ),
            decreases n - i,
        {
            let ghost tail = self.records@.subrange(i as int, n as int);
            if str_eq(self.records[i].job_id.as_str(), job_id) {
                assert(tail[0] == self.records@[i as int]);
                return Some(i);
            }
            proof {
                assert(tail.drop_first() =~= self.records@.subrange(i + 1 as int, n as int));
            }
            i = i + 1;
        }
        None
    }

    /// Stores a record, replacing any earlier record of the same job.
    pub fn save_checkpoint(&mut self, checkpoint: JobCheckpoint)
        requires
            old(self).wf(),
            checkpoint.wf(),
        ensures
            final(self).wf(),
            final(self).spec_get(checkpoint.job_id@) == Some(checkpoint),
            forall|id: Seq<char>|
                id != checkpoint.job_id@ ==> #[trigger] final(self).spec_get(id) == old(
                    self,
                ).spec_get(id),
    {
        let ghost pre = self.records@;
        let ghost gid = checkpoint.job_id@;
        let ghost gcp = checkpoint;
        match self.find_index(checkpoint.job_id.as_str()) {
            Some(i) => {
                self.records.set(i, checkpoint);
                proof {
                    assert(self.records@ =~= pre.update(i as int, gcp));
                    assert forall|k: int| 0 <= k < pre.len() && k != i implies (
                    #[trigger] pre[k]).job_id@ != gid by {}
                    lemma_find_job_update(pre, i as int, gcp, gid);
                    assert forall|id2: Seq<char>| id2 != gid implies #[trigger] spec_find_job(
                        self.records@,
                        id2,
                    ) == spec_find_job(pre, id2) by {
                        lemma_find_job_update(pre, i as int, gcp, id2);
                    }
                    assert forall|a: int, b: int|
                        0 <= a < b < self.records@.len() implies (
                    #[trigger] self.records@[a]).job_id@ != (
                    #[trigger] self.records@[b]).job_id@ by {
                        assert(pre[a].job_id@ != pre[b].job_id@);
                    }
                }
            },
            None => {
                self.records.push(checkpoint);
                proof {
                    lemma_find_job_none_keys(pre, gid);
                    lemma_find_job_snoc(pre, gcp, gid);
                    assert forall|id2: Seq<char>| id2 != gid implies #[trigger] spec_find_job(
                        self.records@,
                        id2,
                    ) == spec_find_job(pre, id2) by {
                        lemma_find_job_snoc(pre, gcp, id2);
                    }
                    assert forall|a: int, b: int|
                        0 <= a < b < self.records@.len() implies (
                    #[trigger] self.records@[a]).job_id@ != (
                    #[trigger] self.records@[b]).job_id@ by {
                        if b < pre.len() {
                            assert(pre[a].job_id@ != pre[b].job_id@);
                        } else {
                            assert(self.records@[a] == pre[a]);
                        }
                    }
                }
            },
        }
    }

    /// The stored record of a job, or absent.
    pub fn load_checkpoint(&self, job_id: &str) -> (r: Option<&JobCheckpoint>)
        ensures
            match r {
                Some(cp) => self.spec_get(job_id@) == Some(*cp),
                None => self.spec_get(job_id@) is None,
            },
    {
        match self.find_index(job_id) {
            Some(i) => Some(&self.records[i]),
            None => None,
        }
    }

    /// Removes a job's record; a job without one is not an error.
    pub fn delete_checkpoint(&mut self, job_id: &str)
        requires
            old(self).wf(),
        ensures
            final(self).wf(),
            final(self).spec_get(job_id@) is None,
            forall|id: Seq<char>|
                id != job_id@ ==> #[trigger] final(self).spec_get(id) == old(self).spec_get(id),
    {
        let ghost pre = self.records@;
        match self.find_index(job_id) {
            None => {},
            Some(i) => {
                let _ = self.records.remove(i);
                proof {
                    assert forall|k: int| 0 <= k < pre.len() && k != i implies (
                    #[trigger] pre[k]).job_id@ != pre[i as int].job_id@ by {}
                    lemma_find_job_remove(pre, i as int, job_id@);
                    assert forall|id2: Seq<char>| id2 != job_id@ implies #[trigger] spec_find_job(
                        self.records@,
                        id2,
                    ) == spec_find_job(pre, id2) by {
                        lemma_find_job_remove(pre, i as int, id2);
                    }
                    assert forall|a: int, b: int|
                        0 <= a < b < self.records@.len() implies (
                    #[trigger] self.records@[a]).job_id@ != (
                    #[trigger] self.records@[b]).job_id@ by {
                        let pa: int = if a < i { a } else { a + 1 };
                        let pb: int = if b < i { b } else { b + 1 };
                        assert(self.records@[a] == pre[pa]);
                        assert(self.records@[b] == pre[pb]);
                        assert(pre[pa].job_id@ != pre[pb].job_id@);
                    }
                    assert forall|k: int| 0 <= k < self.records@.len() implies (
                    #[trigger] self.records@[k]).wf() by {
                        let pk: int = if k < i { k } else { k + 1 };
                        assert(self.records@[k] == pre[pk]);
                        assert(pre[pk].wf());
                    }
                }
            },
        }
    }

    /// The ids of all jobs whose records still describe unfinished work, in
    /// store order.
    pub fn list_resumable_jobs(&self) -> (r: Vec<String>)
        ensures
            r.deep_view() == spec_resumable_ids(self.records@),
    {
        let mut out: Vec<String> = Vec::new();
        let n = self.records.len();
        let mut i: usize = 0;
        while i < n
            invariant
                i <= n,
                n == self.records@.len(),
                out.deep_view() == spec_resumable_ids(self.records@.subrange(0, i as int)),
            decreases n - i,
        {
            let ghost pre_dv = out.deep_view();
            let ghost pre = self.records@.subrange(0, i as int);
            if self.records[i].is_resumable() {
                out.push(self.records[i].job_id.clone());
                proof {
                    assert(out.deep_view() =~= pre_dv.push(self.records@[i as int].job_id@));
                }
            }
            proof {
                assert(self.records@.subrange(0, i + 1 as int).drop_last() =~= pre);
                assert(self.records@.subrange(0, i + 1 as int).last() == self.records@[i as int]);
                assert(out.deep_view() =~= spec_resumable_ids(
                    self.records@.subrange(0, i + 1 as int),
                ));
            }
            i = i + 1;
        }
        assert(self.records@.subrange(0, n as int) =~= self.records@);
        out
    }

    /// Drops every record whose last update is older than the cutoff and
    /// reports how many were dropped. Records updated at or after the cutoff
    /// stay, in order.
    pub fn cleanup_before(&mut self, cutoff: u64) -> (r: usize)
        requires
            old(self).wf(),
        ensures
            final(self).wf(),
            final(self).records@ == spec_keep_recent(old(self).records@, cutoff),
            r == old(self).records@.len() - final(self).records@.len(),
    {
        let ghost orig = self.records@;
        let n0 = self.records.len();
        let mut removed: usize = 0;
        let mut i: usize = 0;
        let ghost mut k: int = 0;
        proof {
            assert(orig.subrange(0, 0) =~= Seq::<JobCheckpoint>::empty());
            assert(orig.subrange(0, orig.len() as int) =~= orig);
        }
        while i < self.records.len()
            invariant
                0 <= i <= self.records@.len(),
                0 <= k <= orig.len(),
                self.records@ =~= spec_keep_recent(orig.subrange(0, k), cutoff) + orig.subrange(
                    k,
                    orig.len() as int,
                ),
                i == spec_keep_recent(orig.subrange(0, k), cutoff).len(),
                removed == k - i,
                orig.len() == n0,
                forall|a: int, b: int|
                    0 <= a < b < orig.len() ==> (#[trigger] orig[a]).job_id@ != (
                    #[trigger] orig[b]).job_id@,
                forall|a: int| 0 <= a < orig.len() ==> (#[trigger] orig[a]).wf(),
            decreases self.records@.len() - i,
        {
            let ghost kept_pre = spec_keep_recent(orig.subrange(0, k), cutoff);
            proof {
                assert(orig.subrange(k, orig.len() as int)[0] == orig[k]);
                assert(self.records@[i as int] == orig[k]);
                assert(orig.subrange(0, k + 1).drop_last() =~= orig.subrange(0, k));
                assert(orig.subrange(0, k + 1).last() == orig[k]);
            }
            if self.records[i].updated_at < cutoff {
                let _ = self.records.remove(i);
                assert(removed < n0);
                removed = removed + 1;
                proof {
                    assert(spec_keep_recent(orig.subrange(0, k + 1), cutoff) =~= kept_pre);
                    assert(self.records@ =~= kept_pre + orig.subrange(k + 1, orig.len() as int));
                }
            } else {
                proof {
                    assert(spec_keep_recent(orig.subrange(0, k + 1), cutoff) =~= kept_pre.push(
                        orig[k],
                    ));
                    assert(self.records@ =~= spec_keep_recent(orig.subrange(0, k + 1), cutoff)
                        + orig.subrange(k + 1, orig.len() as int));
                }
                i = i + 1;
            }
            proof {
                k = k + 1;
            }
        }
        proof {
            assert(k == orig.len());
            assert(orig.subrange(0, k) =~= orig);
            assert(orig.subrange(k, orig.len() as int) =~= Seq::<JobCheckpoint>::empty());
            assert(self.records@ =~= spec_keep_recent(orig, cutoff));
            lemma_keep_recent_wf(orig, cutoff);
        }
        removed
    }

    /// Deletes records older than the given age in days, measured from the
    /// clock now; reports how many were dropped. The exact survivors for a
    /// known cutoff are stated by `cleanup_before`.
    pub fn cleanup_old_checkpoints(&mut self, max_age_days: u64) -> (r: usize)
        requires
            old(self).wf(),
        ensures
            final(self).wf(),
            exists|cutoff: u64|
                final(self).records@ == spec_keep_recent(old(self).records@, cutoff) && r == old(
                    self,
                ).records@.len() - final(self).records@.len(),
    {
        let now = now_unix_secs();
        let age_secs = if max_age_days <= u64::MAX / 86400 {
            max_age_days * 86400
        } else {
            u64::MAX
        };
        let cutoff = if now >= age_secs {
            now - age_secs
        } else {
            0
        };
        let r = self.cleanup_before(cutoff);
        proof {
            assert(self.records@ == spec_keep_recent(old(self).records@, cutoff));
        }
        r
    }

    /// Totals across all records, folded in store order.
    pub fn get_checkpoint_stats(&self) -> (r: CheckpointStats)
        ensures
            ({
                let (c, res, rj, tb, cb) = spec_stats(self.records@);
                &&& r.total_checkpoints == c
                &&& r.resumable_jobs == res
                &&& r.resumed_jobs == rj
                &&& r.total_bytes == tb
                &&& r.completed_bytes == cb
            }),
    {
        let mut stats = CheckpointStats::default();
        let n = self.records.len();
        proof {
            assert(self.records@.subrange(0, 0) =~= Seq::<JobCheckpoint>::empty());
        }
        let mut i: usize = 0;
        while i < n
            invariant
                i <= n,
                n == self.records@.len(),
                stats.total_checkpoints == i,
                stats.resumable_jobs <= i,
                stats.resumed_jobs <= i,
                ({
                    let (c, res, rj, tb, cb) = spec_stats(self.records@.subrange(0, i as int));
                    &&& stats.total_checkpoints == c
                    &&& stats.resumable_jobs == res
                    &&& stats.resumed_jobs == rj
                    &&& stats.total_bytes == tb
                    &&& stats.completed_bytes == cb
                }),
            decreases n - i,
        {
            let ghost pre = self.records@.subrange(0, i as int);
            let cp = &self.records[i];
            stats.total_checkpoints = stats.total_checkpoints + 1;
            if cp.is_resumable() {
                stats.resumable_jobs = stats.resumable_jobs + 1;
            }
            if cp.resume_count > 0 {
                stats.resumed_jobs = stats.resumed_jobs + 1;
            }
            stats.total_bytes = sat_add_exec(stats.total_bytes, cp.total_bytes);
            stats.completed_bytes = sat_add_exec(stats.completed_bytes, cp.bytes_completed);
            proof {
                assert(self.records@.subrange(0, i + 1 as int).drop_last() =~= pre);
                assert(self.records@.subrange(0, i + 1 as int).last() == self.records@[i as int]);
            }
            i = i + 1;
        }
        assert(self.records@.subrange(0, n as int) =~= self.records@);
        stats
    }
}

proof fn lemma_keep_recent_wf(s: Seq<JobCheckpoint>, cutoff: u64)
    requires
        forall|i: int, j: int|
            0 <= i < j < s.len() ==> (#[trigger] s[i]).job_id@ != (#[trigger] s[j]).job_id@,
        forall|i: int| 0 <= i < s.len() ==> (#[trigger] s[i]).wf(),
    ensures
        forall|i: int, j: int|
            0 <= i < j < spec_keep_recent(s, cutoff).len() ==> (#[trigger] spec_keep_recent(
                s,
                cutoff,
            )[i]).job_id@ != (#[trigger] spec_keep_recent(s, cutoff)[j]).job_id@,
        forall|i: int|
            0 <= i < spec_keep_recent(s, cutoff).len() ==> (#[trigger] spec_keep_recent(
                s,
                cutoff,
            )[i]).wf(),
    decreases s.len(),
{
    if s.len() > 0 {
        lemma_keep_recent_wf(s.drop_last(), cutoff);
        lemma_keep_recent_member(s.drop_last(), cutoff);
        let kept = spec_keep_recent(s, cutoff);
        let kd = spec_keep_recent(s.drop_last(), cutoff);
        assert forall|i: int, j: int| 0 <= i < j < kept.len() implies (
        #[trigger] kept[i]).job_id@ != (#[trigger] kept[j]).job_id@ by {
            if j < kd.len() {
                assert(kept[i] == kd[i] && kept[j] == kd[j]);
            } else {
                assert(kept[j] == s.last());
                assert(kept[i] == kd[i]);
                let q = choose|q: int|
                    0 <= q < s.drop_last().len() && (#[trigger] s.drop_last()[q]) == kd[i];
                assert(s[q] == s.drop_last()[q]);
                assert(s.last() == s[s.len() - 1]);
                assert(s[q].job_id@ != s[s.len() - 1].job_id@);
            }
        }
        assert forall|i: int| 0 <= i < kept.len() implies (#[trigger] kept[i]).wf() by {
            if i < kd.len() {
                assert(kept[i] == kd[i]);
            } else {
                assert(kept[i] == s.last());
                assert(s.last() == s[s.len() - 1]);
            }
        }
    }
}

proof fn lemma_keep_recent_member(s: Seq<JobCheckpoint>, cutoff: u64)
    ensures
        forall|k: int|
            0 <= k < spec_keep_recent(s, cutoff).len() ==> exists|j: int|
                0 <= j < s.len() && (#[trigger] s[j]) == #[trigger] spec_keep_recent(s, cutoff)[k],
    decreases s.len(),
{
    if s.len() > 0 {
        lemma_keep_recent_member(s.drop_last(), cutoff);
        let kept = spec_keep_recent(s, cutoff);
        let kd = spec_keep_recent(s.drop_last(), cutoff);
        assert forall|k: int| 0 <= k < kept.len() implies exists|j: int|
            0 <= j < s.len() && (#[trigger] s[j]) == #[trigger] kept[k] by {
            if k < kd.len() {
                let j = choose|j: int|
                    0 <= j < s.drop_last().len() && (#[trigger] s.drop_last()[j]) == kd[k];
                assert(s[j] == s.drop_last()[j]);
                assert(kept[k] == kd[k]);
            } else {
                assert(kept[k] == s.last());
                assert(s[s.len() - 1] == s.last());
            }
        }
    }
}

pub fn sat_add_exec(a: u64, b: u64) -> (r: u64)
    ensures
        r == sat_add(a, b),
{
    if a <= u64::MAX - b {
        a + b
    } else {
        u64::MAX
    }
}

// ---------------------------------------------------------------------------
// rebuilding a job from its durable record
// ---------------------------------------------------------------------------

impl JobCheckpoint {
    /// The creation request a stored record can reconstruct: every
    /// in-flight file's source, in record order, the first file's parent
    /// directory as the destination, and recovery defaults for everything
    /// the durable schema does not keep. Sources of files already
    /// completed are no longer recorded, a limit of the schema.
    pub fn reconstruct_request(&self) -> (r: crate::codec::CreateJobRequest)
        ensures
            r.sources.deep_view() == self.files@.map_values(
                |e: (String, FileCheckpoint)| e.1.source_path@,
            ),
            self.files@.len() == 0 ==> r.destination@.len() == 0,
            self.files@.len() > 0 ==> r.destination@ == crate::rename::spec_parent(
                self.files@[0].1.destination_path@,
            ),
            r.recursive,
            r.preserve_metadata,
            !r.preserve_links,
            !r.preserve_sparse,
            r.verify == crate::protocol::VerifyMode::Disabled,
            r.exists_action == crate::protocol::ExistsAction::Overwrite,
            r.priority == 100,
            r.max_rate_bps == 0,
            r.engine == crate::protocol::CopyEngine::Auto,
            !r.dry_run,
            r.regex_rename_match@.len() == 0,
            r.regex_rename_replace@.len() == 0,
            r.block_size == 0,
            !r.compress,
            !r.encrypt,
    {
        let mut sources: Vec<String> = Vec::new();
        let n = self.files.len();
        let mut i: usize = 0;
        proof {
            assert(sources.deep_view() =~= self.files@.subrange(0, 0).map_values(
                |e: (String, FileCheckpoint)| e.1.source_path@,
            ));
        }
        while i < n
            invariant
                i <= n,
                n == self.files@.len(),
                sources.deep_view() == self.files@.subrange(0, i as int).map_values(
                    |e: (String, FileCheckpoint)| e.1.source_path@,
                ),
            decreases n - i,
        {
            let ghost pre_dv = sources.deep_view();
            sources.push(self.files[i].1.source_path.clone());
            proof {
                assert(sources.deep_view() =~= pre_dv.push(
                    self.files@[i as int].1.source_path@,
                ));
                assert(sources.deep_view() =~= self.files@.subrange(0, i + 1 as int).map_values(
                    |e: (String, FileCheckpoint)| e.1.source_path@,
                ));
            }
            i = i + 1;
        }
        proof {
            assert(self.files@.subrange(0, n as int) =~= self.files@);
        }
        let destination = if self.files.len() > 0 {
            crate::rename::parent_of(self.files[0].1.destination_path.as_str())
        } else {
            String::new()
        };
        crate::codec::CreateJobRequest {
            sources,
            destination,
            recursive: true,
            preserve_metadata: true,
            preserve_links: false,
            preserve_sparse: false,
            verify: crate::protocol::VerifyMode::Disabled,
            exists_action: crate::protocol::ExistsAction::Overwrite,
            priority: 100,
            max_rate_bps: 0,
            engine: crate::protocol::CopyEngine::Auto,
            dry_run: false,
            regex_rename_match: String::new(),
            regex_rename_replace: String::new(),
            block_size: 0,
            compress: false,
            encrypt: false,
        }
    }
}

// ---------------------------------------------------------------------------
// resume safety and file keys
// ---------------------------------------------------------------------------

/// A partially copied file may be resumed only when the destination exists
/// at exactly the recorded length and the source is unchanged in both size
/// and modification time. Any mismatch restarts the file from zero.
pub fn can_resume_file(
    checkpoint: &FileCheckpoint,
    dest_exists: bool,
    dest_size: u64,
    source_modified: u64,
    source_size: u64,
) -> (r: bool)
    ensures
        r == (dest_exists && dest_size == checkpoint.bytes_copied && source_modified
            == checkpoint.last_modified && source_size == checkpoint.total_size),
{
    dest_exists && dest_size == checkpoint.bytes_copied && source_modified
        == checkpoint.last_modified && source_size == checkpoint.total_size
}

/// The 64-bit FNV-1a state after absorbing `s`, starting from `h`.
pub open spec fn spec_fnv1a(s: Seq<u8>, h: u64) -> u64
    decreases s.len(),
{
    if s.len() == 0 {
        h
    } else {
        spec_fnv1a(
            s.drop_first(),
            (((h ^ (s[0] as u64)) * 0x100000001b3) % 0x10000000000000000) as u64,
        )
    }
}

fn fnv1a_update(bytes: &[u8], h0: u64) -> (r: u64)
    ensures
        r == spec_fnv1a(bytes@, h0),
{
    let mut h = h0;
    let mut i: usize = 0;
    assert(bytes@.subrange(0, bytes@.len() as int) =~= bytes@);
    while i < bytes.len()
        invariant
            i <= bytes@.len(),
            spec_fnv1a(bytes@, h0) == spec_fnv1a(bytes@.subrange(i as int, bytes@.len() as int), h),
        decreases bytes@.len() - i,
    {
        let ghost tail = bytes@.subrange(i as int, bytes@.len() as int);
        let b = *slice_index_get(bytes, i);
        let x = (h ^ (b as u64)) as u128;
        proof {
            assert(x * 0x100000001b3 <= 0xffff_ffff_ffff_ffffu128 * 0x100000001b3) by (
            nonlinear_arith)
                requires
                    x <= 0xffff_ffff_ffff_ffffu128,
            ;
        }
        let m = (x * 0x100000001b3) % 0x10000000000000000;
        proof {
            assert(tail[0] == bytes@[i as int]);
            assert(tail.drop_first() =~= bytes@.subrange(i + 1 as int, bytes@.len() as int));
        }
        h = m as u64;
        i = i + 1;
    }
    assert(bytes@.subrange(bytes@.len() as int, bytes@.len() as int) =~= Seq::<u8>::empty());
    h
}

/// The stable file key of a source/destination pair: the FNV-1a hash of the
/// source bytes, a zero separator, and the destination bytes, in lower-case
/// hexadecimal. The key depends on the two paths alone, so it survives a
/// daemon restart.
pub open spec fn spec_file_id(source: Seq<char>, destination: Seq<char>) -> Seq<char> {
    spec_hex(
        spec_fnv1a(
            vstd::utf8::encode_utf8(destination),
            spec_fnv1a(seq![0u8], spec_fnv1a(vstd::utf8::encode_utf8(source), 0xcbf29ce484222325)),
        ) as int,
    )
}

pub fn create_file_id(source: &str, destination: &str) -> (r: String)
    ensures
        r@ == spec_file_id(source@, destination@),
{
    let h1 = fnv1a_update(source.as_bytes(), 0xcbf29ce484222325);
    let sep: Vec<u8> = vec![0u8];
    let h2 = fnv1a_update(sep.as_slice(), h1);
    proof {
        assert(sep@ =~= seq![0u8]);
    }
    let h3 = fnv1a_update(destination.as_bytes(), h2);
    u64_to_hex(h3)
}

/// Whole seconds since the Unix epoch, or zero before it. Relies on
/// std::time::SystemTime::now and duration_since: the wall clock's offset
/// from the epoch. Nothing can be promised of a clock reading.
#[verifier::external_body]
pub fn now_unix_secs() -> u64 {
    std::time::SystemTime::now()
        .duration_since(std::time::SystemTime::UNIX_EPOCH)
        .map(|d| d.as_secs())
        .unwrap_or(0)
}

} // verus!
