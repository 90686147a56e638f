//! Jobs and their manager: the per-job record with its bounded log ring and
//! guarded state machine, the priority queue with its admission order, and
//! the registry the daemon serves queries from.

use vstd::prelude::*;
use crate::codec::CreateJobRequest;
use crate::protocol::{CopyEngine, ExistsAction, JobStatus, VerifyMode};
use crate::response::Progress;
use crate::util::str_eq;

verus! {

/// Options of one job, decoded from its creation request.
pub struct JobOptions {
    pub recursive: bool,
    pub preserve_metadata: bool,
    pub preserve_links: bool,
    pub preserve_sparse: bool,
    pub verify: VerifyMode,
    pub exists_action: ExistsAction,
    pub max_rate_bps: Option<u64>,
    pub engine: CopyEngine,
    pub dry_run: bool,
    pub regex_rename_match: Option<String>,
    pub regex_rename_replace: Option<String>,
    pub block_size: Option<u64>,
    pub compress: bool,
    pub encrypt: bool,
}

/// How a request's option fields decode: a zero rate or block size means
/// "unset", an empty rename pattern or replacement means "unset"; the
/// `compress` and `encrypt` flags are carried through but produce no effect
/// in this core.
pub open spec fn spec_options_match(o: JobOptions, request: CreateJobRequest) -> bool {
    &&& o.recursive == request.recursive
    &&& o.preserve_metadata == request.preserve_metadata
    &&& o.preserve_links == request.preserve_links
    &&& o.preserve_sparse == request.preserve_sparse
    &&& o.verify == request.verify
    &&& o.exists_action == request.exists_action
    &&& o.max_rate_bps == (if request.max_rate_bps > 0 {
        Some(request.max_rate_bps)
    } else {
        None::<u64>
    })
    &&& o.engine == request.engine
    &&& o.dry_run == request.dry_run
    &&& (request.regex_rename_match@.len() == 0 <==> o.regex_rename_match is None)
    &&& (o.regex_rename_match matches Some(m) ==> m@ == request.regex_rename_match@)
    &&& (request.regex_rename_replace@.len() == 0 <==> o.regex_rename_replace is None)
    &&& (o.regex_rename_replace matches Some(m) ==> m@ == request.regex_rename_replace@)
    &&& o.block_size == (if request.block_size > 0 {
        Some(request.block_size)
    } else {
        None::<u64>
    })
    &&& o.compress == request.compress
    &&& o.encrypt == request.encrypt
}

impl JobOptions {
    /// Decodes the request's option fields; see `spec_options_match`.
    pub fn from_request(request: &CreateJobRequest) -> (r: JobOptions)
        ensures
            spec_options_match(r, *request),
    {
        JobOptions {
            recursive: request.recursive,
            preserve_metadata: request.preserve_metadata,
            preserve_links: request.preserve_links,
            preserve_sparse: request.preserve_sparse,
            verify: request.verify,
            exists_action: request.exists_action,
            max_rate_bps: if request.max_rate_bps > 0 {
                Some(request.max_rate_bps)
            } else {
                None
            },
            engine: request.engine,
            dry_run: request.dry_run,
            regex_rename_match: if request.regex_rename_match.as_str().is_empty() {
                None
            } else {
                Some(request.regex_rename_match.clone())
            },
            regex_rename_replace: if request.regex_rename_replace.as_str().is_empty() {
                None
            } else {
                Some(request.regex_rename_replace.clone())
            },
            block_size: if request.block_size > 0 {
                Some(request.block_size)
            } else {
                None
            },
            compress: request.compress,
            encrypt: request.encrypt,
        }
    }
}

/// The log ring after one entry: the last hundred lines are kept, the
/// oldest dropped first.
pub open spec fn spec_ring_push(log: Seq<Seq<char>>, line: Seq<char>) -> Seq<Seq<char>> {
    if log.len() < 100 {
        log.push(line)
    } else {
        log.push(line).subrange(log.len() as int + 1 - 100, log.len() as int + 1)
    }
}

/// One job as the daemon tracks it.
pub struct Job {
    pub id: String,
    pub sources: Vec<String>,
    pub destination: String,
    pub options: JobOptions,
    pub progress: Progress,
    pub created_at: u64,
    /// 0 while the job has never entered Running.
    pub started_at: u64,
    /// 0 while the job has not reached a terminal state.
    pub completed_at: u64,
    pub priority: u32,
    pub log_entries: Vec<String>,
}

impl Job {
    /// Builds the record for a fresh request under the given id.
    pub fn new(id: String, request: CreateJobRequest, now: u64) -> (r: Job)
        ensures
            r.id == id,
            r.sources.deep_view() == request.sources.deep_view(),
            r.destination == request.destination,
            spec_options_match(r.options, request),
            r.status() == JobStatus::Pending,
            r.progress.bytes_copied == 0,
            r.progress.total_bytes == 0,
            r.progress.files_copied == 0,
            r.progress.total_files == 0,
            r.created_at == now,
            r.started_at == 0,
            r.completed_at == 0,
            r.priority == request.priority,
            r.log_entries@.len() == 0,
    {
        let options = JobOptions::from_request(&request);
        Job {
            id,
            sources: request.sources,
            destination: request.destination,
            options,
            progress: Progress {
                bytes_copied: 0,
                total_bytes: 0,
                files_copied: 0,
                total_files: 0,
                throughput_mbps: 0,
                eta_seconds: 0,
                status: 0,
            },
            created_at: now,
            started_at: 0,
            completed_at: 0,
            priority: request.priority,
            log_entries: Vec::new(),
        }
    }

    /// The job's lifecycle state, as coded in its progress.
    pub open spec fn status(&self) -> JobStatus {
        JobStatus::spec_from_code(self.progress.status)
    }

    pub fn get_status(&self) -> (r: JobStatus)
        ensures
            r == self.status(),
    {
        JobStatus::from_code(self.progress.status)
    }

    /// Where a transition request leads: terminal states absorb every
    /// request; any other state moves to the requested one.
    pub open spec fn spec_step(s: JobStatus, target: JobStatus) -> JobStatus {
        if s.is_terminal() {
            s
        } else {
            target
        }
    }

    /// Requests a state transition. A terminal job never changes again;
    /// entering Running stamps the start time once; reaching a terminal
    /// state stamps the completion time once.
    pub fn set_status(&mut self, status: JobStatus, now: u64)
        ensures
            final(self).status() == Job::spec_step(old(self).status(), status),
            old(self).status().is_terminal() ==> *final(self) == *old(self),
            final(self).started_at == (if !old(self).status().is_terminal() && status
                == JobStatus::Running && old(self).started_at == 0 {
                now
            } else {
                old(self).started_at
            }),
            final(self).completed_at == (if !old(self).status().is_terminal()
                && status.is_terminal() && old(self).completed_at == 0 {
                now
            } else {
                old(self).completed_at
            }),
            final(self).id == old(self).id,
            final(self).sources == old(self).sources,
            final(self).destination == old(self).destination,
            final(self).options == old(self).options,
            final(self).priority == old(self).priority,
            final(self).log_entries == old(self).log_entries,
            final(self).progress.bytes_copied == old(self).progress.bytes_copied,
            final(self).progress.total_bytes == old(self).progress.total_bytes,
            final(self).progress.files_copied == old(self).progress.files_copied,
            final(self).progress.total_files == old(self).progress.total_files,
            final(self).created_at == old(self).created_at,
    {
        if self.get_status().terminal() {
            return ;
        }
        self.progress.status = status.as_code();
        match status {
            JobStatus::Running => {
                if self.started_at == 0 {
                    self.started_at = now;
                }
            },
            JobStatus::Completed => {
                if self.completed_at == 0 {
                    self.completed_at = now;
                }
            },
            JobStatus::Failed => {
                if self.completed_at == 0 {
                    self.completed_at = now;
                }
            },
            JobStatus::Cancelled => {
                if self.completed_at == 0 {
                    self.completed_at = now;
                }
            },
            _ => {},
        }
    }

    /// Appends a log line, keeping only the last hundred entries.
    pub fn push_log(&mut self, line: String)
        ensures
            final(self).log_entries.deep_view() == spec_ring_push(
                old(self).log_entries.deep_view(),
                line@,
            ),
            final(self).log_entries@.len() <= 100,
            final(self).id == old(self).id,
            final(self).sources == old(self).sources,
            final(self).destination == old(self).destination,
            final(self).options == old(self).options,
            final(self).progress == old(self).progress,
            final(self).created_at == old(self).created_at,
            final(self).started_at == old(self).started_at,
            final(self).completed_at == old(self).completed_at,
            final(self).priority == old(self).priority,
    {
        let ghost pre = self.log_entries.deep_view();
        self.log_entries.push(line);
        assert(self.log_entries.deep_view() =~= pre.push(self.log_entries@.last()@));
        if self.log_entries.len() > 100 {
            let excess = self.log_entries.len() - 100;
            let ghost mid = self.log_entries.deep_view();
            let tail = self.log_entries.split_off(excess);
            self.log_entries = tail;
            assert(self.log_entries.deep_view() =~= mid.subrange(excess as int, mid.len() as int));
            assert(self.log_entries.deep_view() =~= spec_ring_push(pre, line@));
        }
    }

    /// Appends a timestamped log line for a message.
    pub fn add_log(&mut self, message: &str)
        ensures
            exists|ts: u64|
                final(self).log_entries.deep_view() == spec_ring_push(
                    old(self).log_entries.deep_view(),
                    #[trigger] spec_log_line(ts, message@),
                ),
            final(self).log_entries@.len() <= 100,
            final(self).id == old(self).id,
            final(self).sources == old(self).sources,
            final(self).destination == old(self).destination,
            final(self).options == old(self).options,
            final(self).progress == old(self).progress,
            final(self).created_at == old(self).created_at,
            final(self).started_at == old(self).started_at,
            final(self).completed_at == old(self).completed_at,
            final(self).priority == old(self).priority,
    {
        let now = crate::checkpoint::now_unix_secs();
        let line = format_log_line(now, message);
        proof {
            assert(line@ == spec_log_line(now, message@));
        }
        self.push_log(line);
    }

    /// Adds transferred bytes and completed files to the progress counters;
    /// within one execution both only grow.
    pub fn record_progress(&mut self, bytes: u64, files: u64)
        requires
            old(self).progress.bytes_copied + bytes <= u64::MAX,
            old(self).progress.files_copied + files <= u64::MAX,
        ensures
            final(self).progress.bytes_copied == old(self).progress.bytes_copied + bytes,
            final(self).progress.files_copied == old(self).progress.files_copied + files,
            final(self).progress.bytes_copied >= old(self).progress.bytes_copied,
            final(self).progress.files_copied >= old(self).progress.files_copied,
            final(self).progress.total_bytes == old(self).progress.total_bytes,
            final(self).progress.total_files == old(self).progress.total_files,
            final(self).progress.status == old(self).progress.status,
            final(self).id == old(self).id,
            final(self).log_entries == old(self).log_entries,
            final(self).started_at == old(self).started_at,
            final(self).completed_at == old(self).completed_at,
    {
        self.progress.bytes_copied = self.progress.bytes_copied + bytes;
        self.progress.files_copied = self.progress.files_copied + files;
    }

    /// Sets the planned totals once the planner has finished.
    pub fn set_totals(&mut self, total_bytes: u64, total_files: u64)
        ensures
            final(self).progress.total_bytes == total_bytes,
            final(self).progress.total_files == total_files,
            final(self).progress.bytes_copied == old(self).progress.bytes_copied,
            final(self).progress.files_copied == old(self).progress.files_copied,
            final(self).progress.status == old(self).progress.status,
            final(self).id == old(self).id,
    {
        self.progress.total_bytes = total_bytes;
        self.progress.total_files = total_files;
    }
}

/// Terminal states are absorbing: whatever transition is requested of a
/// completed, failed or cancelled job, its state does not change.
pub proof fn lemma_terminal_absorbing(s: JobStatus, target: JobStatus)
    ensures
        s.is_terminal() ==> Job::spec_step(s, target) == s,
{
}

/// What chrono renders for a Unix timestamp in UTC: a function of the
/// timestamp alone.
pub uninterp spec fn utc_stamp_of(secs: u64) -> Seq<char>;

/// One log line: the rendered timestamp, a separator, and the message.
pub open spec fn spec_log_line(secs: u64, message: Seq<char>) -> Seq<char> {
    utc_stamp_of(secs) + ": "@ + message
}

/// Relies on chrono::DateTime::from_timestamp and its UTC formatting: the
/// calendar rendering of a timestamp depends on the timestamp alone.
#[verifier::external_body]
fn format_log_line(secs: u64, message: &str) -> (r: String)
    ensures
        r@ == utc_stamp_of(secs) + ": "@ + message@,
{
    let ts = chrono::DateTime::<chrono::Utc>::from_timestamp(secs as i64, 0)
        .unwrap_or(chrono::DateTime::<chrono::Utc>::UNIX_EPOCH);
    format!("{}: {}", ts.format("%Y-%m-%d %H:%M:%S"), message)
}

/// Relies on uuid::Uuid::new_v4 and its hyphenated rendering: a fresh
/// identifier of 36 characters. Nothing more can be promised of a random
/// value.
#[verifier::external_body]
pub fn new_job_id() -> (r: String)
    ensures
        r@.len() == 36,
{
    uuid::Uuid::new_v4().to_string()
}

// ---------------------------------------------------------------------------
// the queue and the registry
// ---------------------------------------------------------------------------

/// One queued job: its id, the priority it was submitted with, and whether
/// it was re-enqueued from a checkpoint after a restart.
pub struct QueueEntry {
    pub job_id: String,
    pub priority: u32,
    pub resumed: bool,
}

/// Queue order: resumed jobs stand before all fresh ones; among fresh jobs
/// the queue is sorted by priority, highest first, first-come-first-served
/// within equal priority.
pub open spec fn queue_wf(q: Seq<QueueEntry>) -> bool {
    &&& forall|i: int, j: int|
        0 <= i < j < q.len() && (#[trigger] q[j]).resumed ==> (#[trigger] q[i]).resumed
    &&& forall|i: int, j: int|
        0 <= i < j < q.len() && !(#[trigger] q[i]).resumed && !(#[trigger] q[j]).resumed ==> q[
            i
        ].priority >= q[j].priority
}

/// Priority admission: under the queue order, the head that admission pops
/// is never of lower priority than any fresh job behind it, and a fresh job
/// never stands before a resumed one.
pub proof fn lemma_priority_admission(q: Seq<QueueEntry>)
    requires
        queue_wf(q),
    ensures
        forall|j: int|
            0 < j < q.len() && !(#[trigger] q[j]).resumed && !q[0].resumed ==> q[0].priority
                >= q[j].priority,
        forall|j: int| 0 < j < q.len() && (#[trigger] q[j]).resumed ==> q[0].resumed,
{
}

/// The admission position a fresh entry of this priority is inserted at:
/// after every resumed entry and every fresh entry of priority at least as
/// high.
pub open spec fn spec_admit_pos(q: Seq<QueueEntry>, priority: u32) -> int
    decreases q.len(),
{
    if q.len() == 0 {
        0
    } else if !q[0].resumed && q[0].priority < priority {
        0
    } else {
        1 + spec_admit_pos(q.drop_first(), priority)
    }
}

proof fn lemma_admit_pos_at(q: Seq<QueueEntry>, pos: int, priority: u32)
    requires
        0 <= pos <= q.len(),
        forall|k: int|
            0 <= k < pos ==> ((#[trigger] q[k]).resumed || q[k].priority >= priority),
        pos < q.len() ==> !q[pos].resumed && q[pos].priority < priority,
    ensures
        spec_admit_pos(q, priority) == pos,
    decreases pos,
{
    if q.len() == 0 {
    } else if pos == 0 {
    } else {
        assert(q[0].resumed || q[0].priority >= priority);
        assert forall|k: int|
            0 <= k < pos - 1 implies ((#[trigger] q.drop_first()[k]).resumed || q.drop_first()[
            k
        ].priority >= priority) by {
            assert(q.drop_first()[k] == q[k + 1]);
        }
        assert(pos - 1 < q.drop_first().len() ==> q.drop_first()[pos - 1] == q[pos]);
        lemma_admit_pos_at(q.drop_first(), pos - 1, priority);
    }
}

/// The queue with every entry of the given job removed, in order.
pub open spec fn spec_queue_without(q: Seq<QueueEntry>, id: Seq<char>) -> Seq<QueueEntry>
    decreases q.len(),
{
    if q.len() == 0 {
        q
    } else {
        spec_queue_without(q.drop_last(), id) + (if q.last().job_id@ == id {
            Seq::empty()
        } else {
            seq![q.last()]
        })
    }
}

proof fn lemma_queue_without_member(q: Seq<QueueEntry>, id: Seq<char>)
    ensures
        forall|k: int|
            0 <= k < spec_queue_without(q, id).len() ==> exists|j: int|
                0 <= j < q.len() && (#[trigger] q[j]) == #[trigger] spec_queue_without(q, id)[k],
        forall|k: int|
            0 <= k < spec_queue_without(q, id).len() ==> (#[trigger] spec_queue_without(
                q,
                id,
            )[k]).job_id@ != id,
    decreases q.len(),
{
    if q.len() > 0 {
        lemma_queue_without_member(q.drop_last(), id);
        let kept = spec_queue_without(q, id);
        let kd = spec_queue_without(q.drop_last(), id);
        assert forall|k: int| 0 <= k < kept.len() implies exists|j: int|
            0 <= j < q.len() && (#[trigger] q[j]) == #[trigger] kept[k] by {
            if k < kd.len() {
                let j = choose|j: int|
                    0 <= j < q.drop_last().len() && (#[trigger] q.drop_last()[j]) == kd[k];
                assert(q[j] == q.drop_last()[j]);
                assert(kept[k] == kd[k]);
            } else {
                assert(kept[k] == q.last());
                assert(q[q.len() - 1] == q.last());
            }
        }
        assert forall|k: int| 0 <= k < kept.len() implies (#[trigger] kept[k]).job_id@ != id by {
            if k < kd.len() {
                assert(kept[k] == kd[k]);
            } else {
                assert(kept[k] == q.last());
            }
        }
    }
}

proof fn lemma_queue_without_wf(q: Seq<QueueEntry>, id: Seq<char>)
    requires
        queue_wf(q),
    ensures
        queue_wf(spec_queue_without(q, id)),
    decreases q.len(),
{
    if q.len() > 0 {
        assert forall|i: int, j: int|
            0 <= i < j < q.drop_last().len() && (#[trigger] q.drop_last()[j]).resumed implies (
        #[trigger] q.drop_last()[i]).resumed by {
            assert(q.drop_last()[i] == q[i] && q.drop_last()[j] == q[j]);
        }
        assert forall|i: int, j: int|
            0 <= i < j < q.drop_last().len() && !(#[trigger] q.drop_last()[i]).resumed && !(
        #[trigger] q.drop_last()[j]).resumed implies q.drop_last()[i].priority >= q.drop_last()[
            j
        ].priority by {
            assert(q.drop_last()[i] == q[i] && q.drop_last()[j] == q[j]);
        }
        lemma_queue_without_wf(q.drop_last(), id);
        lemma_queue_without_member(q.drop_last(), id);
        let kept = spec_queue_without(q, id);
        let kd = spec_queue_without(q.drop_last(), id);
        assert forall|i: int, j: int|
            0 <= i < j < kept.len() && (#[trigger] kept[j]).resumed implies (
        #[trigger] kept[i]).resumed by {
            if j < kd.len() {
                assert(kept[i] == kd[i] && kept[j] == kd[j]);
            } else {
                assert(kept[j] == q.last());
                assert(kept[i] == kd[i]);
                let p = choose|p: int|
                    0 <= p < q.drop_last().len() && (#[trigger] q.drop_last()[p]) == kd[i];
                assert(q[p] == q.drop_last()[p]);
                assert(q.last() == q[q.len() - 1]);
            }
        }
        assert forall|i: int, j: int|
            0 <= i < j < kept.len() && !(#[trigger] kept[i]).resumed && !(
        #[trigger] kept[j]).resumed implies kept[i].priority >= kept[j].priority by {
            if j < kd.len() {
                assert(kept[i] == kd[i] && kept[j] == kd[j]);
            } else {
                assert(kept[j] == q.last());
                assert(kept[i] == kd[i]);
                let p = choose|p: int|
                    0 <= p < q.drop_last().len() && (#[trigger] q.drop_last()[p]) == kd[i];
                assert(q[p] == q.drop_last()[p]);
                assert(q.last() == q[q.len() - 1]);
            }
        }
    }
}

/// Looks a job id up in the registry, first match wins.
pub open spec fn spec_find_reg(s: Seq<Job>, id: Seq<char>) -> Option<Job>
    decreases s.len(),
{
    if s.len() == 0 {
        None
    } else if s[0].id@ == id {
        Some(s[0])
    } else {
        spec_find_reg(s.drop_first(), id)
    }
}

/// The jobs a listing reports: every job when finished ones are included,
/// otherwise only pending, running and paused jobs, in registry order.
pub open spec fn spec_listed(s: Seq<Job>, include_completed: bool) -> Seq<Job>
    decreases s.len(),
{
    if s.len() == 0 {
        Seq::empty()
    } else {
        spec_listed(s.drop_last(), include_completed) + (if include_completed || !s.last().status(
        ).is_terminal() {
            seq![s.last()]
        } else {
            Seq::empty()
        })
    }
}

/// The queue, the registry, and the admission permits of the daemon.
pub struct JobManager {
    pub jobs: Vec<Job>,
    pub queue: Vec<QueueEntry>,
    pub max_concurrent: usize,
    /// Executor slots in use; admission stops at `max_concurrent`.
    pub active_count: usize,
}

impl JobManager {
    /// Registry ids are unique and the queue keeps its admission order.
    pub open spec fn wf(&self) -> bool {
        &&& forall|i: int, j: int|
            0 <= i < j < self.jobs@.len() ==> (#[trigger] self.jobs@[i]).id@ != (
            #[trigger] self.jobs@[j]).id@
        &&& queue_wf(self.queue@)
        &&& self.active_count <= self.max_concurrent
    }

    /// The registered job under an id, if any.
    pub open spec fn spec_job(&self, id: Seq<char>) -> Option<Job> {
        spec_find_reg(self.jobs@, id)
    }

    /// An empty manager admitting at most `max_concurrent` jobs at once.
    pub fn new(max_concurrent: usize) -> (r: JobManager)
        ensures
            r.wf(),
            r.jobs@.len() == 0,
            r.queue@.len() == 0,
            r.max_concurrent == max_concurrent,
            r.active_count == 0,
    {
        JobManager { jobs: Vec::new(), queue: Vec::new(), max_concurrent, active_count: 0 }
    }

    fn find_index(&self, job_id: &str) -> (r: Option<usize>)
        ensures
            match r {
                Some(i) => i < self.jobs@.len() && self.jobs@[i as int].id@ == job_id@
                    && self.spec_job(job_id@) == Some(self.jobs@[i as int]),
                None => self.spec_job(job_id@) is None,
            },
    {
        let n = self.jobs.len();
        assert(self.jobs@.subrange(0, n as int) =~= self.jobs@);
        let mut i: usize = 0;
        while i < n
            invariant
                i <= n,
                n == self.jobs@.len(),
                spec_find_reg(self.jobs@, job_id@) == spec_find_reg(
                    self.jobs@.subrange(i as int, n as int),
                    job_id@,
                ),
            decreases n - i,
        {
            let ghost tail = self.jobs@.subrange(i as int, n as int);
            if str_eq(self.jobs[i].id.as_str(), job_id) {
                assert(tail[0] == self.jobs@[i as int]);
                return Some(i);
            }
            proof {
                assert(tail.drop_first() =~= self.jobs@.subrange(i + 1 as int, n as int));
            }
            i = i + 1;
        }
        None
    }

    /// Registers a fresh job under the given id and enqueues it by
    /// priority. An id already registered is refused, leaving everything
    /// unchanged.
    pub fn create_job(&mut self, request: CreateJobRequest, id: String, now: u64) -> (r: bool)
        requires
            old(self).wf(),
        ensures
            final(self).wf(),
            r <==> old(self).spec_job(id@) is None,
            !r ==> *final(self) == *old(self),
            r ==> (final(self).spec_job(id@) matches Some(j) && j.id == id
                && j.sources.deep_view() == request.sources.deep_view() && j.destination
                == request.destination && spec_options_match(j.options, request) && j.status()
                == JobStatus::Pending && j.progress.bytes_copied == 0 && j.progress.total_bytes
                == 0 && j.progress.files_copied == 0 && j.progress.total_files == 0
                && j.created_at == now && j.started_at == 0 && j.completed_at == 0 && j.priority
                == request.priority && j.log_entries@.len() == 0),
            r ==> final(self).queue@ == old(self).queue@.insert(
                spec_admit_pos(old(self).queue@, request.priority),
                (QueueEntry { job_id: id, priority: request.priority, resumed: false }),
            ),
            r ==> forall|other: Seq<char>|
                other != id@ ==> #[trigger] final(self).spec_job(other) == old(self).spec_job(
                    other,
                ),
            final(self).active_count == old(self).active_count,
            final(self).max_concurrent == old(self).max_concurrent,
    {
        match self.find_index(id.as_str()) {
            Some(_) => false,
            None => {
                let ghost pre = self.jobs@;
                let ghost gid = id@;
                let priority = request.priority;
                let job = Job::new(id, request, now);
                let ghost gjob = job;
                let queue_id = job.id.clone();
                assert(queue_id == gjob.id);
                self.jobs.push(job);
                proof {
                    lemma_find_reg_none_keys(pre, gid);
                    lemma_find_reg_snoc(pre, gjob, gid);
                    assert forall|other: Seq<char>| other != gid implies #[trigger] spec_find_reg(
                        self.jobs@,
                        other,
                    ) == spec_find_reg(pre, other) by {
                        lemma_find_reg_snoc(pre, gjob, other);
                    }
                    assert forall|a: int, b: int|
                        0 <= a < b < self.jobs@.len() implies (#[trigger] self.jobs@[a]).id@ != (
                    #[trigger] self.jobs@[b]).id@ by {
                        if b < pre.len() {
                            assert(pre[a].id@ != pre[b].id@);
                        } else {
                            assert(self.jobs@[a] == pre[a]);
                        }
                    }
                }
                self.enqueue(QueueEntry { job_id: queue_id, priority, resumed: false });
                true
            },
        }
    }

    /// Inserts an entry at its admission position: after every resumed
    /// entry and every fresh entry of priority at least its own.
    fn enqueue(&mut self, entry: QueueEntry)
        requires
            queue_wf(old(self).queue@),
            !entry.resumed,
        ensures
            queue_wf(final(self).queue@),
            final(self).queue@ == old(self).queue@.insert(
                spec_admit_pos(old(self).queue@, entry.priority),
                entry,
            ),
            final(self).queue@.len() == old(self).queue@.len() + 1,
            final(self).jobs == old(self).jobs,
            final(self).active_count == old(self).active_count,
            final(self).max_concurrent == old(self).max_concurrent,
    {
        let ghost pre = self.queue@;
        let n = self.queue.len();
        let mut pos: usize = 0;
        while pos < n && (self.queue[pos].resumed || self.queue[pos].priority >= entry.priority)
            invariant
                pos <= n,
                n == self.queue@.len(),
                self.queue@ == pre,
                queue_wf(self.queue@),
                forall|k: int|
                    0 <= k < pos ==> ((#[trigger] self.queue@[k]).resumed || self.queue@[
                        k
                    ].priority >= entry.priority),
            decreases n - pos,
        {
            pos = pos + 1;
        }
        assert(pos == n || (!pre[pos as int].resumed && pre[pos as int].priority
            < entry.priority));
        proof {
            lemma_admit_pos_at(pre, pos as int, entry.priority);
        }
        self.queue.insert(pos, entry);
        proof {
            let post = self.queue@;
            assert forall|i: int, j: int|
                0 <= i < j < post.len() && (#[trigger] post[j]).resumed implies (
            #[trigger] post[i]).resumed by {
                let pi: int = if i < pos { i } else { i - 1 };
                let pj: int = if j <= pos { j } else { j - 1 };
                if j == pos {
                    assert(post[j] == entry);
                } else {
                    assert(post[j] == pre[pj]);
                    if i == pos {
                        assert(pj < pre.len());
                        assert(pos < pre.len());
                        assert(!pre[pos as int].resumed);
                        if pj == pos {
                            assert(false);
                        } else {
                            assert(pos < pj);
                            assert(pre[pj].resumed ==> pre[pos as int].resumed);
                            assert(false);
                        }
                    } else {
                        assert(post[i] == pre[pi]);
                        assert(pi < pj);
                    }
                }
            }
            assert forall|i: int, j: int|
                0 <= i < j < post.len() && !(#[trigger] post[i]).resumed && !(
            #[trigger] post[j]).resumed implies post[i].priority >= post[j].priority by {
                let pi: int = if i < pos { i } else { i - 1 };
                let pj: int = if j <= pos { j } else { j - 1 };
                if i == pos {
                    assert(post[i] == entry);
                    assert(post[j] == pre[pj]);
                    assert(pj < pre.len());
                    assert(pos < pre.len());
                    assert(!pre[pos as int].resumed && pre[pos as int].priority
                        < entry.priority);
                    if pj == pos {
                    } else {
                        assert(pos < pj);
                        assert(pre[pos as int].priority >= pre[pj].priority);
                    }
                } else if j == pos {
                    assert(post[j] == entry);
                    assert(post[i] == pre[pi]);
                    assert(pi < pos);
                    assert(pre[pi].resumed || pre[pi].priority >= entry.priority);
                } else {
                    assert(post[i] == pre[pi]);
                    assert(post[j] == pre[pj]);
                    assert(pi < pj);
                }
            }
        }
    }

    /// Puts a job resumed from its checkpoint at the head of the queue:
    /// resumed jobs run before everything freshly submitted.
    pub fn enqueue_front(&mut self, job_id: String, priority: u32)
        requires
            old(self).wf(),
        ensures
            final(self).wf(),
            final(self).queue@ == old(self).queue@.insert(
                0,
                (QueueEntry { job_id: job_id, priority: priority, resumed: true }),
            ),
            final(self).queue@.len() == old(self).queue@.len() + 1,
            final(self).queue@[0].job_id == job_id,
            final(self).queue@[0].resumed,
            final(self).jobs == old(self).jobs,
            final(self).active_count == old(self).active_count,
            final(self).max_concurrent == old(self).max_concurrent,
    {
        let ghost pre = self.queue@;
        self.queue.insert(0, QueueEntry { job_id, priority, resumed: true });
        proof {
            let post = self.queue@;
            assert forall|i: int, j: int|
                0 <= i < j < post.len() && (#[trigger] post[j]).resumed implies (
            #[trigger] post[i]).resumed by {
                if i > 0 {
                    assert(post[i] == pre[i - 1]);
                    assert(post[j] == pre[j - 1]);
                }
            }
            assert forall|i: int, j: int|
                0 <= i < j < post.len() && !(#[trigger] post[i]).resumed && !(
            #[trigger] post[j]).resumed implies post[i].priority >= post[j].priority by {
                if i > 0 {
                    assert(post[i] == pre[i - 1]);
                    assert(post[j] == pre[j - 1]);
                }
            }
        }
    }

    /// Admits the next job when a permit is free: pops the queue head,
    /// takes a permit, and reports the popped entry. Admission is owed
    /// whenever a permit is free and the queue is non-empty.
    pub fn try_admit(&mut self) -> (r: Option<QueueEntry>)
        requires
            old(self).wf(),
        ensures
            final(self).wf(),
            r is Some <==> (old(self).active_count < old(self).max_concurrent && old(
                self,
            ).queue@.len() > 0),
            r is None ==> *final(self) == *old(self),
            r matches Some(e) ==> e == old(self).queue@[0] && final(self).queue@ == old(
                self,
            ).queue@.drop_first() && final(self).active_count == old(self).active_count + 1,
            final(self).jobs == old(self).jobs,
            final(self).max_concurrent == old(self).max_concurrent,
    {
        if self.active_count >= self.max_concurrent || self.queue.len() == 0 {
            return None;
        }
        let ghost pre = self.queue@;
        let entry = self.queue.remove(0);
        self.active_count = self.active_count + 1;
        proof {
            assert(self.queue@ =~= pre.drop_first());
            let post = self.queue@;
            assert forall|i: int, j: int|
                0 <= i < j < post.len() && (#[trigger] post[j]).resumed implies (
            #[trigger] post[i]).resumed by {
                assert(post[i] == pre[i + 1] && post[j] == pre[j + 1]);
            }
            assert forall|i: int, j: int|
                0 <= i < j < post.len() && !(#[trigger] post[i]).resumed && !(
            #[trigger] post[j]).resumed implies post[i].priority >= post[j].priority by {
                assert(post[i] == pre[i + 1] && post[j] == pre[j + 1]);
            }
        }
        Some(entry)
    }

    /// Releases one executor permit when a job leaves the running set.
    pub fn release_permit(&mut self)
        requires
            old(self).wf(),
            old(self).active_count > 0,
        ensures
            final(self).wf(),
            final(self).active_count == old(self).active_count - 1,
            final(self).jobs == old(self).jobs,
            final(self).queue == old(self).queue,
    {
        self.active_count = self.active_count - 1;
    }

    /// The registered job under an id, or absent.
    pub fn get_job(&self, job_id: &str) -> (r: Option<&Job>)
        ensures
            match r {
                Some(j) => self.spec_job(job_id@) == Some(*j),
                None => self.spec_job(job_id@) is None,
            },
    {
        match self.find_index(job_id) {
            Some(i) => Some(&self.jobs[i]),
            None => None,
        }
    }

    /// The jobs a listing reports, in registry order; finished jobs appear
    /// only when asked for.
    pub fn list_jobs(&self, include_completed: bool) -> (r: Vec<&Job>)
        ensures
            r@.map_values(|j: &Job| *j) == spec_listed(self.jobs@, include_completed),
    {
        let mut out: Vec<&Job> = Vec::new();
        let n = self.jobs.len();
        proof {
            assert(self.jobs@.subrange(0, 0) =~= Seq::<Job>::empty());
            assert(out@.map_values(|j: &Job| *j) =~= Seq::<Job>::empty());
        }
        let mut i: usize = 0;
        while i < n
            invariant
                i <= n,
                n == self.jobs@.len(),
                out@.map_values(|j: &Job| *j) == spec_listed(
                    self.jobs@.subrange(0, i as int),
                    include_completed,
                ),
            decreases n - i,
        {
            let ghost pre = self.jobs@.subrange(0, i as int);
            let ghost pre_out = out@.map_values(|j: &Job| *j);
            if include_completed || !self.jobs[i].get_status().terminal() {
                out.push(&self.jobs[i]);
                proof {
                    assert(out@.map_values(|j: &Job| *j) =~= pre_out.push(self.jobs@[i as int]));
                }
            }
            proof {
                assert(self.jobs@.subrange(0, i + 1 as int).drop_last() =~= pre);
                assert(self.jobs@.subrange(0, i + 1 as int).last() == self.jobs@[i as int]);
                assert(out@.map_values(|j: &Job| *j) =~= spec_listed(
                    self.jobs@.subrange(0, i + 1 as int),
                    include_completed,
                ));
            }
            i = i + 1;
        }
        assert(self.jobs@.subrange(0, n as int) =~= self.jobs@);
        out
    }

    /// Applies one transition request to the registered job, under the
    /// absorbing-terminal rule.
    pub fn apply_status(&mut self, job_id: &str, status: JobStatus, now: u64) -> (r: bool)
        requires
            old(self).wf(),
        ensures
            final(self).wf(),
            r <==> old(self).spec_job(job_id@) is Some,
            !r ==> *final(self) == *old(self),
            r ==> (old(self).spec_job(job_id@) matches Some(j) ==> (final(self).spec_job(job_id@)
                matches Some(nj) && nj.status() == Job::spec_step(j.status(), status) && (
            j.status().is_terminal() ==> nj == j) && nj.id == j.id && nj.sources == j.sources
                && nj.destination == j.destination && nj.options == j.options && nj.priority
                == j.priority && nj.log_entries == j.log_entries && nj.created_at == j.created_at
                && nj.progress.bytes_copied == j.progress.bytes_copied && nj.progress.total_bytes
                == j.progress.total_bytes && nj.progress.files_copied == j.progress.files_copied
                && nj.progress.total_files == j.progress.total_files && nj.started_at == (
            if !j.status().is_terminal() && status == JobStatus::Running && j.started_at == 0 {
                now
            } else {
                j.started_at
            }) && nj.completed_at == (if !j.status().is_terminal() && status.is_terminal()
                && j.completed_at == 0 {
                now
            } else {
                j.completed_at
            }))),
            r ==> forall|other: Seq<char>|
                other != job_id@ ==> #[trigger] final(self).spec_job(other) == old(self).spec_job(
                    other,
                ),
            final(self).queue == old(self).queue,
            final(self).active_count == old(self).active_count,
            final(self).max_concurrent == old(self).max_concurrent,
    {
        let ghost pre = self.jobs@;
        match self.find_index(job_id) {
            None => false,
            Some(i) => {
                let mut job = self.jobs.remove(i);
                proof {
                    assert(self.jobs@.insert(i as int, job) =~= pre);
                }
                let ghost gid = job.id@;
                job.set_status(status, now);
                let ghost gjob = job;
                self.jobs.insert(i, job);
                proof {
                    assert(self.jobs@ =~= pre.update(i as int, gjob));
                    assert forall|k: int| 0 <= k < pre.len() && k != i implies (
                    #[trigger] pre[k]).id@ != gid by {}
                    lemma_find_reg_update(pre, i as int, gjob, gid);
                    assert forall|other: Seq<char>| other != gid implies #[trigger] spec_find_reg(
                        self.jobs@,
                        other,
                    ) == spec_find_reg(pre, other) by {
                        lemma_find_reg_update(pre, i as int, gjob, other);
                    }
                    assert forall|a: int, b: int|
                        0 <= a < b < self.jobs@.len() implies (#[trigger] self.jobs@[a]).id@ != (
                    #[trigger] self.jobs@[b]).id@ by {
                        assert(pre[a].id@ != pre[b].id@);
                    }
                }
                true
            },
        }
    }

    /// Appends a timestamped log line to the registered job's ring.
    fn append_log(&mut self, job_id: &str, message: &str) -> (r: bool)
        requires
            old(self).wf(),
        ensures
            final(self).wf(),
            r <==> old(self).spec_job(job_id@) is Some,
            !r ==> *final(self) == *old(self),
            r ==> (old(self).spec_job(job_id@) matches Some(j) ==> (final(self).spec_job(job_id@)
                matches Some(nj) && (exists|ts: u64|
                nj.log_entries.deep_view() == spec_ring_push(
                    j.log_entries.deep_view(),
                    #[trigger] spec_log_line(ts, message@),
                )) && nj.id == j.id && nj.sources == j.sources && nj.destination == j.destination
                && nj.options == j.options && nj.priority == j.priority && nj.progress
                == j.progress && nj.created_at == j.created_at && nj.started_at == j.started_at
                && nj.completed_at == j.completed_at)),
            r ==> forall|other: Seq<char>|
                other != job_id@ ==> #[trigger] final(self).spec_job(other) == old(self).spec_job(
                    other,
                ),
            final(self).queue == old(self).queue,
            final(self).active_count == old(self).active_count,
            final(self).max_concurrent == old(self).max_concurrent,
    {
        let ghost pre = self.jobs@;
        match self.find_index(job_id) {
            None => false,
            Some(i) => {
                let mut job = self.jobs.remove(i);
                proof {
                    assert(self.jobs@.insert(i as int, job) =~= pre);
                }
                let ghost gid = job.id@;
                job.add_log(message);
                let ghost gjob = job;
                self.jobs.insert(i, job);
                proof {
                    assert(self.jobs@ =~= pre.update(i as int, gjob));
                    assert forall|k: int| 0 <= k < pre.len() && k != i implies (
                    #[trigger] pre[k]).id@ != gid by {}
                    lemma_find_reg_update(pre, i as int, gjob, gid);
                    assert forall|other: Seq<char>| other != gid implies #[trigger] spec_find_reg(
                        self.jobs@,
                        other,
                    ) == spec_find_reg(pre, other) by {
                        lemma_find_reg_update(pre, i as int, gjob, other);
                    }
                    assert forall|a: int, b: int|
                        0 <= a < b < self.jobs@.len() implies (#[trigger] self.jobs@[a]).id@ != (
                    #[trigger] self.jobs@[b]).id@ by {
                        assert(pre[a].id@ != pre[b].id@);
                    }
                }
                true
            },
        }
    }

    /// Cancels a job: its queue entry is dropped and its state moves to
    /// Cancelled unless it had already finished. The record stays, so
    /// status queries still answer.
    pub fn cancel_job(&mut self, job_id: &str, now: u64) -> (r: bool)
        requires
            old(self).wf(),
        ensures
            final(self).wf(),
            r <==> old(self).spec_job(job_id@) is Some,
            final(self).queue@ == spec_queue_without(old(self).queue@, job_id@),
            forall|k: int|
                0 <= k < final(self).queue@.len()
                    ==> (#[trigger] final(self).queue@[k]).job_id@ != job_id@,
            r ==> (old(self).spec_job(job_id@) matches Some(j) ==> (final(self).spec_job(job_id@)
                matches Some(nj) && nj.status() == Job::spec_step(j.status(), JobStatus::Cancelled)
                && (j.status().is_terminal() ==> nj == j) && (!j.status().is_terminal() ==> (
            exists|ts: u64|
                nj.log_entries.deep_view() == spec_ring_push(
                    j.log_entries.deep_view(),
                    #[trigger] spec_log_line(ts, "Job cancelled by user"@),
                )) && nj.completed_at == (if j.completed_at == 0 {
                now
            } else {
                j.completed_at
            })) && nj.id == j.id && nj.sources == j.sources && nj.destination == j.destination
                && nj.options == j.options && nj.priority == j.priority && nj.created_at
                == j.created_at && nj.started_at == j.started_at
                && nj.progress.bytes_copied == j.progress.bytes_copied
                && nj.progress.total_bytes == j.progress.total_bytes
                && nj.progress.files_copied == j.progress.files_copied
                && nj.progress.total_files == j.progress.total_files)),
            r ==> forall|other: Seq<char>|
                other != job_id@ ==> #[trigger] final(self).spec_job(other) == old(self).spec_job(
                    other,
                ),
            !r ==> final(self).jobs == old(self).jobs,
            final(self).active_count == old(self).active_count,
            final(self).max_concurrent == old(self).max_concurrent,
    {
        let was_terminal = match self.get_job(job_id) {
            Some(j) => j.get_status().terminal(),
            None => false,
        };
        self.remove_queued(job_id);
        let r = self.apply_status(job_id, JobStatus::Cancelled, now);
        if r && !was_terminal {
            let logged = self.append_log(job_id, "Job cancelled by user");
            assert(logged);
        }
        r
    }

    /// Drops every queue entry of the given job; a job without one leaves
    /// the queue as it was.
    pub fn remove_queued(&mut self, job_id: &str)
        requires
            queue_wf(old(self).queue@),
        ensures
            queue_wf(final(self).queue@),
            final(self).queue@ == spec_queue_without(old(self).queue@, job_id@),
            forall|k: int|
                0 <= k < final(self).queue@.len()
                    ==> (#[trigger] final(self).queue@[k]).job_id@ != job_id@,
            final(self).jobs == old(self).jobs,
            final(self).active_count == old(self).active_count,
            final(self).max_concurrent == old(self).max_concurrent,
    {
        let ghost orig = self.queue@;
        let n0 = self.queue.len();
        let mut i: usize = 0;
        let ghost mut k: int = 0;
        proof {
            assert(orig.subrange(0, 0) =~= Seq::<QueueEntry>::empty());
            assert(orig.subrange(0, orig.len() as int) =~= orig);
        }
        while i < self.queue.len()
            invariant
                0 <= i <= self.queue@.len(),
                0 <= k <= orig.len(),
                orig == old(self).queue@,
                orig.len() == n0,
                self.queue@ =~= spec_queue_without(orig.subrange(0, k), job_id@)
                    + orig.subrange(k, orig.len() as int),
                i == spec_queue_without(orig.subrange(0, k), job_id@).len(),
                self.jobs == old(self).jobs,
                self.active_count == old(self).active_count,
                self.max_concurrent == old(self).max_concurrent,
            decreases self.queue@.len() - i,
        {
            let ghost kept_pre = spec_queue_without(orig.subrange(0, k), job_id@);
            proof {
                assert(orig.subrange(k, orig.len() as int)[0] == orig[k]);
                assert(self.queue@[i as int] == orig[k]);
                assert(orig.subrange(0, k + 1).drop_last() =~= orig.subrange(0, k));
                assert(orig.subrange(0, k + 1).last() == orig[k]);
            }
            if str_eq(self.queue[i].job_id.as_str(), job_id) {
                let _ = self.queue.remove(i);
                proof {
                    assert(spec_queue_without(orig.subrange(0, k + 1), job_id@) =~= kept_pre);
                    assert(self.queue@ =~= kept_pre + orig.subrange(k + 1, orig.len() as int));
                }
            } else {
                proof {
                    assert(spec_queue_without(orig.subrange(0, k + 1), job_id@) =~= kept_pre.push(
                        orig[k],
                    ));
                    assert(self.queue@ =~= spec_queue_without(orig.subrange(0, k + 1), job_id@)
                        + orig.subrange(k + 1, orig.len() as int));
                }
                i = i + 1;
            }
            proof {
                k = k + 1;
            }
        }
        proof {
            assert(k == orig.len());
            assert(orig.subrange(0, k) =~= orig);
            assert(orig.subrange(k, orig.len() as int) =~= Seq::<QueueEntry>::empty());
            assert(self.queue@ =~= spec_queue_without(orig, job_id@));
            lemma_queue_without_wf(orig, job_id@);
            lemma_queue_without_member(orig, job_id@);
        }
    }

    /// Pauses a job: success exactly when a running job is registered
    /// under the id; any other state is left alone.
    pub fn pause_job(&mut self, job_id: &str, now: u64) -> (r: bool)
        requires
            old(self).wf(),
        ensures
            final(self).wf(),
            r <==> (old(self).spec_job(job_id@) matches Some(j) && j.status()
                == JobStatus::Running),
            !r ==> *final(self) == *old(self),
            r ==> (old(self).spec_job(job_id@) matches Some(j) ==> (final(self).spec_job(job_id@)
                matches Some(nj) && nj.status() == JobStatus::Paused && (exists|ts: u64|
                nj.log_entries.deep_view() == spec_ring_push(
                    j.log_entries.deep_view(),
                    #[trigger] spec_log_line(ts, "Job paused"@),
                )) && nj.id == j.id && nj.sources == j.sources && nj.destination == j.destination
                && nj.options == j.options && nj.priority == j.priority && nj.created_at
                == j.created_at && nj.started_at == j.started_at && nj.completed_at
                == j.completed_at && nj.progress.bytes_copied == j.progress.bytes_copied
                && nj.progress.total_bytes == j.progress.total_bytes && nj.progress.files_copied
                == j.progress.files_copied && nj.progress.total_files
                == j.progress.total_files)),
            r ==> forall|other: Seq<char>|
                other != job_id@ ==> #[trigger] final(self).spec_job(other) == old(self).spec_job(
                    other,
                ),
            final(self).queue == old(self).queue,
            final(self).active_count == old(self).active_count,
            final(self).max_concurrent == old(self).max_concurrent,
    {
        let running = match self.get_job(job_id) {
            Some(j) => j.get_status() == JobStatus::Running,
            None => false,
        };
        if running {
            let r = self.apply_status(job_id, JobStatus::Paused, now);
            assert(r);
            let logged = self.append_log(job_id, "Job paused");
            assert(logged);
            r
        } else {
            false
        }
    }

    /// Resumes a job: success exactly when a paused job is registered
    /// under the id; it moves back to Pending and re-enters the queue at
    /// the back of its priority class.
    pub fn resume_job(&mut self, job_id: &str, now: u64) -> (r: bool)
        requires
            old(self).wf(),
        ensures
            final(self).wf(),
            r <==> (old(self).spec_job(job_id@) matches Some(j) && j.status()
                == JobStatus::Paused),
            !r ==> *final(self) == *old(self),
            r ==> (old(self).spec_job(job_id@) matches Some(j) ==> (final(self).spec_job(job_id@)
                matches Some(nj) && nj.status() == JobStatus::Pending && (exists|ts: u64|
                nj.log_entries.deep_view() == spec_ring_push(
                    j.log_entries.deep_view(),
                    #[trigger] spec_log_line(ts, "Job resumed"@),
                )) && nj.id == j.id && nj.sources == j.sources && nj.destination == j.destination
                && nj.options == j.options && nj.priority == j.priority && nj.created_at
                == j.created_at && nj.started_at == j.started_at && nj.completed_at
                == j.completed_at)),
            r ==> (old(self).spec_job(job_id@) matches Some(j) ==> (exists|e: QueueEntry|
                e.job_id@ == job_id@ && e.priority == j.priority && !e.resumed
                    && final(self).queue@ == #[trigger] old(self).queue@.insert(
                    spec_admit_pos(old(self).queue@, j.priority),
                    e,
                ))),
            r ==> forall|other: Seq<char>|
                other != job_id@ ==> #[trigger] final(self).spec_job(other) == old(self).spec_job(
                    other,
                ),
            final(self).active_count == old(self).active_count,
            final(self).max_concurrent == old(self).max_concurrent,
    {
        let (is_paused, priority) = match self.get_job(job_id) {
            Some(j) => (j.get_status() == JobStatus::Paused, j.priority),
            None => (false, 0),
        };
        if is_paused {
            let r = self.apply_status(job_id, JobStatus::Pending, now);
            assert(r);
            let ghost s1 = *self;
            let logged = self.append_log(job_id, "Job resumed");
            assert(logged);
            let ghost s2 = *self;
            self.enqueue(QueueEntry { job_id: job_id.to_owned(), priority, resumed: false });
            proof {
                assert forall|other: Seq<char>| other != job_id@ implies #[trigger] self.spec_job(
                    other,
                ) == old(self).spec_job(other) by {
                    assert(s1.spec_job(other) == old(self).spec_job(other));
                    assert(s2.spec_job(other) == s1.spec_job(other));
                    assert(self.jobs@ == s2.jobs@);
                    assert(self.spec_job(other) == s2.spec_job(other));
                }
            }
            r
        } else {
            false
        }
    }
}

/// How a finished execution ends: a job fails only when it had files and
/// every one of them failed; otherwise it completes, failures included.
pub fn job_final_status(failed_files: usize, total_files: usize) -> (r: JobStatus)
    ensures
        r == (if total_files > 0 && failed_files == total_files {
            JobStatus::Failed
        } else {
            JobStatus::Completed
        }),
{
    if total_files > 0 && failed_files == total_files {
        JobStatus::Failed
    } else {
        JobStatus::Completed
    }
}

// --- lemmas about lookup in the registry ---

proof fn lemma_find_reg_none_keys(s: Seq<Job>, id: Seq<char>)
    requires
        spec_find_reg(s, id) is None,
    ensures
        forall|k: int| 0 <= k < s.len() ==> (#[trigger] s[k]).id@ != id,
    decreases s.len(),
{
    if s.len() > 0 {
        lemma_find_reg_none_keys(s.drop_first(), id);
        assert forall|k: int| 0 <= k < s.len() implies (#[trigger] s[k]).id@ != id by {
            if k > 0 {
                assert(s.drop_first()[k - 1] == s[k]);
            }
        }
    }
}

proof fn lemma_find_reg_snoc(s: Seq<Job>, p: Job, id: Seq<char>)
    ensures
        spec_find_reg(s.push(p), id) == (match spec_find_reg(s, id) {
            Some(v) => Some(v),
            None => if p.id@ == id {
                Some(p)
            } else {
                None
            },
        }),
    decreases s.len(),
{
    if s.len() == 0 {
        assert(s.push(p).len() == 1);
        assert(s.push(p)[0] == p);
        assert(s.push(p).drop_first() =~= Seq::<Job>::empty());
        assert(spec_find_reg(s, id) is None);
        assert(spec_find_reg(Seq::<Job>::empty(), id) is None);
        if p.id@ == id {
            assert(spec_find_reg(s.push(p), id) == Some(p));
        } else {
            assert(spec_find_reg(s.push(p), id) is None);
        }
    } else {
        assert(s.push(p)[0] == s[0]);
        assert(s.push(p).drop_first() =~= s.drop_first().push(p));
        lemma_find_reg_snoc(s.drop_first(), p, id);
        if s[0].id@ == id {
            assert(spec_find_reg(s.push(p), id) == Some(s[0]));
            assert(spec_find_reg(s, id) == Some(s[0]));
        } else {
            assert(spec_find_reg(s.push(p), id) == spec_find_reg(s.drop_first().push(p), id));
            assert(spec_find_reg(s, id) == spec_find_reg(s.drop_first(), id));
        }
    }
}

proof fn lemma_find_reg_update(s: Seq<Job>, i: int, p: Job, other: Seq<char>)
    requires
        0 <= i < s.len(),
        s[i].id@ == p.id@,
        forall|k: int| 0 <= k < s.len() && k != i ==> (#[trigger] s[k]).id@ != p.id@,
    ensures
        spec_find_reg(s.update(i, p), p.id@) == Some(p),
        other != p.id@ ==> spec_find_reg(s.update(i, p), other) == spec_find_reg(s, other),
    decreases s.len(),
{
    let t = s.update(i, p);
    if i == 0 {
        assert(t[0] == p);
        assert(t.drop_first() =~= s.drop_first());
    } else {
        assert(t[0] == s[0]);
        assert(s[0].id@ != p.id@);
        assert(t.drop_first() =~= s.drop_first().update(i - 1, p));
        assert forall|k: int|
            0 <= k < s.drop_first().len() && k != i - 1 implies (
        #[trigger] s.drop_first()[k]).id@ != p.id@ by {
            assert(s.drop_first()[k] == s[k + 1]);
        }
        lemma_find_reg_update(s.drop_first(), i - 1, p, other);
    }
}

} // verus!
