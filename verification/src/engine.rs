//! The copy engine's decision logic: strategy selection with its fixed
//! fallback order, block sizes, destination-exists policy with serial
//! naming, the chunked transfer of a file's contents, rate-limit timing,
//! and the dry-run outcome.

use vstd::prelude::*;
use vstd::pervasive::unreached;
use vstd::string::StringExecFns;
use crate::protocol::{CopyEngine, ExistsAction, VerifyMode};
use crate::util::{spec_dec, str_eq, u64_to_dec};

verus! {

/// Per-file options the engine honors.
pub struct CopyOptions {
    pub preserve_metadata: bool,
    pub preserve_links: bool,
    pub preserve_sparse: bool,
    pub verify: VerifyMode,
    pub exists_action: ExistsAction,
    /// Bytes per second; `None` means "no limit".
    pub max_rate_bps: Option<u64>,
    /// Bytes; `None` means "engine default".
    pub block_size: Option<u64>,
    pub dry_run: bool,
    /// Accepted and carried through; no compression is performed in this
    /// core.
    pub compress: bool,
    /// Accepted and carried through; no encryption is performed in this
    /// core.
    pub encrypt: bool,
}

/// One copy engine bound to a chosen strategy.
pub struct FileCopyEngine {
    pub engine_type: CopyEngine,
}

/// The strategy tried after one fails recoverably: reflink and the
/// submission-queue engine drop to the in-kernel range copy; that and
/// sendfile drop to the plain read/write loop, which is terminal.
pub open spec fn spec_fallback(e: CopyEngine) -> Option<CopyEngine> {
    match e {
        CopyEngine::Reflink => Some(CopyEngine::CopyFileRange),
        CopyEngine::IoUring => Some(CopyEngine::CopyFileRange),
        CopyEngine::CopyFileRange => Some(CopyEngine::ReadWrite),
        CopyEngine::Sendfile => Some(CopyEngine::ReadWrite),
        CopyEngine::ReadWrite => None,
        CopyEngine::Auto => None,
    }
}

/// The candidate order automatic selection tries: same-device copies try
/// reflink first; cross-device copies try the range copy then sendfile;
/// the read/write loop is always last.
pub open spec fn spec_auto_chain(same_device: bool) -> Seq<CopyEngine> {
    if same_device {
        seq![CopyEngine::Reflink, CopyEngine::CopyFileRange, CopyEngine::ReadWrite]
    } else {
        seq![CopyEngine::CopyFileRange, CopyEngine::Sendfile, CopyEngine::ReadWrite]
    }
}

/// Default transfer block size per strategy: 4 MiB for the in-kernel range
/// copy, 1 MiB otherwise.
pub open spec fn spec_default_block_size(e: CopyEngine) -> u64 {
    match e {
        CopyEngine::CopyFileRange => 0x400000,
        _ => 0x100000,
    }
}

impl FileCopyEngine {
    pub fn new(engine_type: CopyEngine) -> (r: FileCopyEngine)
        ensures
            r.engine_type == engine_type,
    {
        FileCopyEngine { engine_type }
    }

    /// See `spec_fallback`.
    pub fn fallback_of(e: CopyEngine) -> (r: Option<CopyEngine>)
        ensures
            r == spec_fallback(e),
    {
        match e {
            CopyEngine::Reflink => Some(CopyEngine::CopyFileRange),
            CopyEngine::IoUring => Some(CopyEngine::CopyFileRange),
            CopyEngine::CopyFileRange => Some(CopyEngine::ReadWrite),
            CopyEngine::Sendfile => Some(CopyEngine::ReadWrite),
            CopyEngine::ReadWrite => None,
            CopyEngine::Auto => None,
        }
    }

    /// See `spec_auto_chain`.
    pub fn auto_chain(same_device: bool) -> (r: Vec<CopyEngine>)
        ensures
            r@ == spec_auto_chain(same_device),
    {
        let r = if same_device {
            vec![CopyEngine::Reflink, CopyEngine::CopyFileRange, CopyEngine::ReadWrite]
        } else {
            vec![CopyEngine::CopyFileRange, CopyEngine::Sendfile, CopyEngine::ReadWrite]
        };
        assert(r@ =~= spec_auto_chain(same_device));
        r
    }

    /// The block size a transfer uses: the explicit option, or the
    /// strategy's default.
    pub fn effective_block_size(options_block_size: Option<u64>, e: CopyEngine) -> (r: u64)
        ensures
            r == (match options_block_size {
                Some(b) if b > 0 => b,
                _ => spec_default_block_size(e),
            }),
            r > 0,
    {
        match options_block_size {
            Some(b) if b > 0 => b,
            _ => match e {
                CopyEngine::CopyFileRange => 0x400000,
                _ => 0x100000,
            },
        }
    }
}

/// The full strategy sequence a requested strategy is tried through,
/// following the fallback table to its terminal entry; automatic selection
/// has its own device-dependent chains.
pub open spec fn spec_fallback_chain(e: CopyEngine) -> Seq<CopyEngine> {
    match e {
        CopyEngine::Reflink => seq![
            CopyEngine::Reflink,
            CopyEngine::CopyFileRange,
            CopyEngine::ReadWrite,
        ],
        CopyEngine::IoUring => seq![
            CopyEngine::IoUring,
            CopyEngine::CopyFileRange,
            CopyEngine::ReadWrite,
        ],
        CopyEngine::CopyFileRange => seq![CopyEngine::CopyFileRange, CopyEngine::ReadWrite],
        CopyEngine::Sendfile => seq![CopyEngine::Sendfile, CopyEngine::ReadWrite],
        CopyEngine::ReadWrite => seq![CopyEngine::ReadWrite],
        CopyEngine::Auto => Seq::empty(),
    }
}

/// The chain starts at the requested strategy, each entry's successor is
/// exactly its fallback, and the chain ends at a terminal strategy.
pub proof fn lemma_fallback_chain_follows(e: CopyEngine)
    requires
        e != CopyEngine::Auto,
    ensures
        spec_fallback_chain(e).len() > 0,
        spec_fallback_chain(e)[0] == e,
        forall|i: int|
            0 <= i < spec_fallback_chain(e).len() - 1 ==> spec_fallback(
                #[trigger] spec_fallback_chain(e)[i],
            ) == Some(spec_fallback_chain(e)[i + 1]),
        spec_fallback(spec_fallback_chain(e).last()) is None,
{
}

impl FileCopyEngine {
    /// See `spec_fallback_chain`.
    pub fn fallback_chain(e: CopyEngine) -> (r: Vec<CopyEngine>)
        ensures
            r@ == spec_fallback_chain(e),
    {
        let r = match e {
            CopyEngine::Reflink => vec![
                CopyEngine::Reflink,
                CopyEngine::CopyFileRange,
                CopyEngine::ReadWrite,
            ],
            CopyEngine::IoUring => vec![
                CopyEngine::IoUring,
                CopyEngine::CopyFileRange,
                CopyEngine::ReadWrite,
            ],
            CopyEngine::CopyFileRange => vec![CopyEngine::CopyFileRange, CopyEngine::ReadWrite],
            CopyEngine::Sendfile => vec![CopyEngine::Sendfile, CopyEngine::ReadWrite],
            CopyEngine::ReadWrite => vec![CopyEngine::ReadWrite],
            CopyEngine::Auto => Vec::new(),
        };
        assert(r@ =~= spec_fallback_chain(e));
        r
    }
}

/// See §engine codes: the numeric engine coding, unknown codes meaning
/// automatic selection.
pub fn get_copy_engine(engine_code: u32) -> (r: FileCopyEngine)
    ensures
        r.engine_type == CopyEngine::spec_from_code(engine_code),
{
    FileCopyEngine::new(CopyEngine::from_code(engine_code))
}

// ---------------------------------------------------------------------------
// destination-exists policy
// ---------------------------------------------------------------------------

/// What the engine does about an existing destination.
#[derive(Debug, Clone, Copy, PartialEq, Eq, Structural)]
pub enum ExistsResolution {
    /// Write the destination, truncating on create.
    Proceed,
    /// Copy nothing: zero bytes, the destination untouched.
    SkipFile,
    /// Write under a fresh serial name instead.
    SerialRename,
}

/// The policy decision: a missing destination is always written; otherwise
/// Overwrite proceeds, Skip copies nothing, Serial picks a fresh name.
pub fn resolve_exists_action(action: ExistsAction, dest_exists: bool) -> (r: ExistsResolution)
    ensures
        !dest_exists ==> r == ExistsResolution::Proceed,
        dest_exists && action == ExistsAction::Overwrite ==> r == ExistsResolution::Proceed,
        dest_exists && action == ExistsAction::Skip ==> r == ExistsResolution::SkipFile,
        dest_exists && action == ExistsAction::Serial ==> r == ExistsResolution::SerialRename,
{
    if !dest_exists {
        ExistsResolution::Proceed
    } else {
        match action {
            ExistsAction::Overwrite => ExistsResolution::Proceed,
            ExistsAction::Skip => ExistsResolution::SkipFile,
            ExistsAction::Serial => ExistsResolution::SerialRename,
        }
    }
}

/// The serial candidate name for index `i`: `stem.i` with the extension
/// appended when there is one.
pub open spec fn spec_serial_candidate(stem: Seq<char>, ext: Seq<char>, i: int) -> Seq<char> {
    if ext.len() == 0 {
        stem + "."@ + spec_dec(i)
    } else {
        stem + "."@ + spec_dec(i) + "."@ + ext
    }
}

pub open spec fn spec_occupied(names: Seq<Seq<char>>, candidate: Seq<char>) -> bool {
    exists|k: int| 0 <= k < names.len() && names[k] == candidate
}

/// The least free serial index in `lo..=9999`, if any.
pub open spec fn spec_first_free(
    stem: Seq<char>,
    ext: Seq<char>,
    names: Seq<Seq<char>>,
    lo: int,
) -> Option<int>
    decreases 10000 - lo,
{
    if lo > 9999 {
        None
    } else if !spec_occupied(names, spec_serial_candidate(stem, ext, lo)) {
        Some(lo)
    } else {
        spec_first_free(stem, ext, names, lo + 1)
    }
}

fn occupied_contains(names: &Vec<String>, candidate: &str) -> (r: bool)
    ensures
        r == spec_occupied(names.deep_view(), candidate@),
{
    let mut k: usize = 0;
    while k < names.len()
        invariant
            k <= names@.len(),
            forall|j: int| 0 <= j < k ==> names.deep_view()[j] != candidate@,
        decreases names@.len() - k,
    {
        if str_eq(names[k].as_str(), candidate) {
            assert(names.deep_view()[k as int] == candidate@);
            return true;
        }
        k = k + 1;
    }
    false
}

fn serial_candidate(stem: &str, ext: &str, i: u64) -> (r: String)
    ensures
        r@ == spec_serial_candidate(stem@, ext@, i as int),
{
    proof {
        reveal_strlit(".");
    }
    let base = stem.to_owned().concat(".").concat(u64_to_dec(i).as_str());
    if ext.is_empty() {
        assert(base@ =~= spec_serial_candidate(stem@, ext@, i as int));
        base
    } else {
        let r = base.concat(".").concat(ext);
        assert(r@ =~= spec_serial_candidate(stem@, ext@, i as int));
        r
    }
}

impl FileCopyEngine {
    /// Picks the serial name for a taken destination: the candidate with the
    /// least free index in 1..=9999, or, when all are taken, the timestamp
    /// fallback name.
    pub fn generate_serial_name(
        &self,
        stem: &str,
        ext: &str,
        occupied: &Vec<String>,
        timestamp: u64,
    ) -> (r: String)
        ensures
            r@ == (match spec_first_free(stem@, ext@, occupied.deep_view(), 1) {
                Some(i) => spec_serial_candidate(stem@, ext@, i),
                None => spec_serial_candidate(stem@, ext@, timestamp as int),
            }),
    {
        let mut i: u64 = 1;
        while i <= 9999
            invariant
                1 <= i <= 10000,
                spec_first_free(stem@, ext@, occupied.deep_view(), 1) == spec_first_free(
                    stem@,
                    ext@,
                    occupied.deep_view(),
                    i as int,
                ),
            decreases 10000 - i,
        {
            let cand = serial_candidate(stem, ext, i);
            if !occupied_contains(occupied, cand.as_str()) {
                return cand;
            }
            i = i + 1;
        }
        serial_candidate(stem, ext, timestamp)
    }
}

// ---------------------------------------------------------------------------
// the transfer itself, over a file's contents
// ---------------------------------------------------------------------------

/// Copies contents block by block; the result holds exactly the source
/// bytes, and the count returned is their number.
pub fn copy_bytes(source: &Vec<u8>, block_size: usize) -> (r: (Vec<u8>, u64))
    requires
        block_size >= 1,
        source@.len() <= u64::MAX,
    ensures
        r.0@ == source@,
        r.1 == source@.len(),
{
    let mut out: Vec<u8> = Vec::new();
    let mut pos: usize = 0;
    while pos < source.len()
        invariant
            pos <= source@.len(),
            block_size >= 1,
            out@ == source@.subrange(0, pos as int),
        decreases source@.len() - pos,
    {
        let remaining = source.len() - pos;
        let chunk = if remaining < block_size {
            remaining
        } else {
            block_size
        };
        let mut k: usize = 0;
        while k < chunk
            invariant
                k <= chunk,
                pos + chunk <= source@.len(),
                pos + chunk <= usize::MAX,
                out@ == source@.subrange(0, (pos + k) as int),
            decreases chunk - k,
        {
            out.push(source[pos + k]);
            assert(out@ =~= source@.subrange(0, (pos + k + 1) as int));
            k = k + 1;
        }
        pos = pos + chunk;
    }
    assert(source@.subrange(0, source@.len() as int) =~= source@);
    (out, pos as u64)
}

// ---------------------------------------------------------------------------
// rate limiting
// ---------------------------------------------------------------------------

/// How long, in nanoseconds, transferring this many bytes should have taken
/// at the given rate, saturating at the largest representable wait.
pub fn required_nanos(total_bytes: u64, rate_bps: u64) -> (r: u64)
    requires
        rate_bps >= 1,
    ensures
        r == (if (total_bytes as int) * 1_000_000_000 / (rate_bps as int) <= u64::MAX as int {
            ((total_bytes as int) * 1_000_000_000 / (rate_bps as int)) as u64
        } else {
            u64::MAX
        }),
{
    proof {
        assert((total_bytes as u128) * 1_000_000_000 == ((total_bytes as int)
            * 1_000_000_000) as u128) by (nonlinear_arith);
    }
    let t: u128 = (total_bytes as u128) * 1_000_000_000 / (rate_bps as u128);
    if t <= u64::MAX as u128 {
        t as u64
    } else {
        u64::MAX
    }
}

/// The remaining time to sleep after a chunk: the required time minus what
/// has already elapsed, or nothing when the transfer is on pace.
pub fn sleep_deficit_nanos(required: u64, elapsed: u64) -> (r: u64)
    ensures
        r == (if required > elapsed {
            (required - elapsed) as u64
        } else {
            0u64
        }),
{
    if required > elapsed {
        required - elapsed
    } else {
        0
    }
}

// ---------------------------------------------------------------------------
// dry run
// ---------------------------------------------------------------------------

/// What a dry run reports without writing anything: the bytes the copy
/// would move (zero under Skip with an existing destination, else the
/// apparent source size) and how an existing destination would be handled.
pub fn dry_run_outcome(
    source_size: u64,
    exists_action: ExistsAction,
    dest_exists: bool,
) -> (r: (u64, ExistsResolution))
    ensures
        r.1 == (if !dest_exists {
            ExistsResolution::Proceed
        } else if exists_action == ExistsAction::Overwrite {
            ExistsResolution::Proceed
        } else if exists_action == ExistsAction::Skip {
            ExistsResolution::SkipFile
        } else {
            ExistsResolution::SerialRename
        }),
        r.0 == (if r.1 == ExistsResolution::SkipFile {
            0u64
        } else {
            source_size
        }),
{
    let resolution = resolve_exists_action(exists_action, dest_exists);
    let bytes = if resolution == ExistsResolution::SkipFile {
        0
    } else {
        source_size
    };
    (bytes, resolution)
}

// ---------------------------------------------------------------------------
// submission-queue bookkeeping
// ---------------------------------------------------------------------------

/// Packs one in-flight operation's bookkeeping into a submission tag: the
/// top bit marks a read, the next byte carries the buffer index, the low 48
/// bits carry the file offset.
pub open spec fn spec_encode_user_data(is_read: bool, buffer_index: u64, offset: u64) -> u64 {
    (if is_read {
        0x8000_0000_0000_0000u64
    } else {
        0u64
    }) | ((buffer_index & 0xff) << 48) | (offset & 0xffff_ffff_ffff)
}

pub fn encode_user_data(is_read: bool, buffer_index: u64, offset: u64) -> (r: u64)
    ensures
        r == spec_encode_user_data(is_read, buffer_index, offset),
{
    let operation_bit: u64 = if is_read {
        0x8000_0000_0000_0000
    } else {
        0
    };
    operation_bit | ((buffer_index & 0xff) << 48) | (offset & 0xffff_ffff_ffff)
}

/// Unpacks a submission tag into its read flag, buffer index and offset.
pub fn decode_user_data(user_data: u64) -> (r: (bool, u64, u64))
    ensures
        r.0 == ((user_data & 0x8000_0000_0000_0000u64) != 0),
        r.1 == (user_data >> 48) & 0xff,
        r.2 == user_data & 0xffff_ffff_ffff,
{
    let is_read = (user_data & 0x8000_0000_0000_0000) != 0;
    let buffer_index = (user_data >> 48) & 0xff;
    let offset = user_data & 0xffff_ffff_ffff;
    (is_read, buffer_index, offset)
}

/// Packing then unpacking a tag gives the read flag, index and offset back,
/// for every index that fits its byte and offset that fits its 48 bits.
pub proof fn lemma_user_data_roundtrip(is_read: bool, buffer_index: u64, offset: u64)
    requires
        buffer_index < 256,
        offset < 0x1000000000000,
    ensures
        ({
            let d = spec_encode_user_data(is_read, buffer_index, offset);
            &&& ((d & 0x8000_0000_0000_0000u64) != 0) == is_read
            &&& (d >> 48) & 0xff == buffer_index
            &&& d & 0xffff_ffff_ffff == offset
        }),
{
    let d = spec_encode_user_data(is_read, buffer_index, offset);
    if is_read {
        assert({
            let e = 0x8000_0000_0000_0000u64 | ((buffer_index & 0xff) << 48) | (offset
                & 0xffff_ffff_ffff);
            &&& (e & 0x8000_0000_0000_0000u64) != 0
            &&& (e >> 48) & 0xff == buffer_index
            &&& e & 0xffff_ffff_ffff == offset
        }) by (bit_vector)
            requires
                buffer_index < 256 && offset < 0x1000000000000,
        ;
    } else {
        assert({
            let e = 0u64 | ((buffer_index & 0xff) << 48) | (offset & 0xffff_ffff_ffff);
            &&& (e & 0x8000_0000_0000_0000u64) == 0
            &&& (e >> 48) & 0xff == buffer_index
            &&& e & 0xffff_ffff_ffff == offset
        }) by (bit_vector)
            requires
                buffer_index < 256 && offset < 0x1000000000000,
        ;
    }
}

/// One kernel operation the submission-queue engine wants issued.
#[derive(Debug, Clone, Copy, PartialEq, Eq, Structural)]
pub enum UringAction {
    Read { buffer: u64, offset: u64, len: u64 },
    Write { buffer: u64, offset: u64, len: u64 },
}

/// The submission-queue engine's bookkeeping between completions: the file
/// bounds, the fixed queue depth, the next offset to read, the in-flight
/// reads and writes as (buffer, offset, length), the free buffer indices,
/// exact byte counters, and whether a completion has broken the run. One
/// submission-queue strategy is modeled; vectored buffers would change
/// only how a driver lays its buffers out, not this bookkeeping.
pub struct UringState {
    pub file_size: u64,
    pub block_size: u64,
    pub queue_depth: usize,
    pub next_offset: u64,
    pub inflight_reads: Vec<(u64, u64, u64)>,
    pub inflight_writes: Vec<(u64, u64, u64)>,
    pub free_buffers: Vec<u64>,
    pub bytes_read: u64,
    pub bytes_written: u64,
    /// Set when a completion was short, over-long or matched nothing in
    /// flight; a failed run transfers no further bytes and the driver must
    /// treat the copy as failed.
    pub failed: bool,
}

/// The bytes still in flight: the sum of the operations' lengths.
pub open spec fn ops_total(s: Seq<(u64, u64, u64)>) -> int
    decreases s.len(),
{
    if s.len() == 0 {
        0
    } else {
        ops_total(s.drop_last()) + s.last().2
    }
}

proof fn lemma_ops_total_nonneg(s: Seq<(u64, u64, u64)>)
    ensures
        ops_total(s) >= 0,
    decreases s.len(),
{
    if s.len() > 0 {
        lemma_ops_total_nonneg(s.drop_last());
    }
}

proof fn lemma_ops_total_remove(s: Seq<(u64, u64, u64)>, i: int)
    requires
        0 <= i < s.len(),
    ensures
        ops_total(s.remove(i)) == ops_total(s) - s[i].2,
        s[i].2 <= ops_total(s),
    decreases s.len(),
{
    if i == s.len() - 1 {
        assert(s.remove(i) =~= s.drop_last());
        lemma_ops_total_nonneg(s.drop_last());
    } else {
        assert(s.remove(i).drop_last() =~= s.drop_last().remove(i));
        assert(s.remove(i).last() == s.last());
        assert(s.drop_last()[i] == s[i]);
        lemma_ops_total_remove(s.drop_last(), i);
    }
}

/// The state is sound: positive block size and depth, the read cursor
/// within the file, never more operations in flight than the depth, and —
/// while no completion has failed — exact accounting: completed read bytes
/// plus in-flight read bytes equal the issued range, and completed write
/// bytes plus in-flight write bytes equal the completed read bytes.
pub open spec fn uring_wf(st: UringState) -> bool {
    &&& st.block_size > 0
    &&& st.queue_depth > 0
    &&& st.next_offset <= st.file_size
    &&& st.inflight_reads@.len() + st.inflight_writes@.len() <= st.queue_depth
    &&& (!st.failed ==> st.bytes_read + ops_total(st.inflight_reads@) == st.next_offset)
    &&& (!st.failed ==> st.bytes_written + ops_total(st.inflight_writes@) == st.bytes_read)
}

/// The engine is finished: every byte has been issued for reading and no
/// operation is still in flight.
pub open spec fn uring_done(st: UringState) -> bool {
    &&& st.next_offset == st.file_size
    &&& st.inflight_reads@.len() == 0
    &&& st.inflight_writes@.len() == 0
}

/// A finished, unfailed run has read and written exactly the file: the
/// accounting invariant leaves the counters no other value.
pub proof fn lemma_uring_done_bytes(st: UringState)
    requires
        uring_wf(st),
        uring_done(st),
        !st.failed,
    ensures
        st.bytes_read == st.file_size,
        st.bytes_written == st.file_size,
{
    assert(ops_total(st.inflight_reads@) == 0);
    assert(ops_total(st.inflight_writes@) == 0);
}

/// The read submissions in `actions` tile `[start, end)` exactly once, in
/// order, each non-empty; write submissions sit anywhere between them.
pub open spec fn reads_tile(actions: Seq<UringAction>, start: int, end: int) -> bool
    decreases actions.len(),
{
    if actions.len() == 0 {
        start == end
    } else {
        match actions[0] {
            UringAction::Read { offset, len, .. } => offset == start && len > 0 && reads_tile(
                actions.drop_first(),
                start + len,
                end,
            ),
            UringAction::Write { .. } => reads_tile(actions.drop_first(), start, end),
        }
    }
}

proof fn lemma_tile_snoc_write(actions: Seq<UringAction>, a: UringAction, start: int, end: int)
    requires
        a is Write,
        reads_tile(actions, start, end),
    ensures
        reads_tile(actions.push(a), start, end),
    decreases actions.len(),
{
    if actions.len() == 0 {
        assert(actions.push(a)[0] == a);
        assert(actions.push(a).drop_first() =~= Seq::<UringAction>::empty());
        assert(reads_tile(Seq::<UringAction>::empty(), start, end));
    } else {
        assert(actions.push(a)[0] == actions[0]);
        assert(actions.push(a).drop_first() =~= actions.drop_first().push(a));
        match actions[0] {
            UringAction::Read { offset, len, .. } => {
                lemma_tile_snoc_write(actions.drop_first(), a, start + len, end);
            },
            UringAction::Write { .. } => {
                lemma_tile_snoc_write(actions.drop_first(), a, start, end);
            },
        }
    }
}

proof fn lemma_tile_snoc_read(
    actions: Seq<UringAction>,
    buffer: u64,
    offset: u64,
    len: u64,
    start: int,
)
    requires
        len > 0,
        reads_tile(actions, start, offset as int),
    ensures
        reads_tile(
            actions.push(UringAction::Read { buffer, offset, len }),
            start,
            offset + len,
        ),
    decreases actions.len(),
{
    let a = UringAction::Read { buffer, offset, len };
    if actions.len() == 0 {
        assert(actions.push(a)[0] == a);
        assert(actions.push(a).drop_first() =~= Seq::<UringAction>::empty());
        assert(reads_tile(Seq::<UringAction>::empty(), offset + len, offset + len));
    } else {
        assert(actions.push(a)[0] == actions[0]);
        assert(actions.push(a).drop_first() =~= actions.drop_first().push(a));
        match actions[0] {
            UringAction::Read { offset: o0, len: l0, .. } => {
                lemma_tile_snoc_read(actions.drop_first(), buffer, offset, len, start + l0);
            },
            UringAction::Write { .. } => {
                lemma_tile_snoc_read(actions.drop_first(), buffer, offset, len, start);
            },
        }
    }
}

/// Finds the in-flight operation with the given buffer and offset.
fn find_op(ops: &Vec<(u64, u64, u64)>, buffer: u64, offset: u64) -> (r: Option<usize>)
    ensures
        r matches Some(i) ==> i < ops@.len() && ops@[i as int].0 == buffer && ops@[i as int].1
            == offset,
{
    let n = ops.len();
    let mut i: usize = 0;
    while i < n
        invariant
            i <= n,
            n == ops@.len(),
        decreases n - i,
    {
        if ops[i].0 == buffer && ops[i].1 == offset {
            return Some(i);
        }
        i = i + 1;
    }
    None
}

/// One step of the submission-queue engine: absorbs at most one completion
/// (a packed tag and its transferred length), then issues fresh reads while
/// a permit and a buffer are free. A full read completion asks for the
/// matching write; a full write completion frees its buffer; a short,
/// over-long or unmatched completion fails the run, which then transfers
/// nothing further. The caller submits the returned actions and hands back
/// the next completion.
pub fn uring_step(st: UringState, completion: Option<(u64, u64)>) -> (r: (
    UringState,
    Vec<UringAction>,
))
    requires
        uring_wf(st),
    ensures
        uring_wf(r.0),
        r.0.file_size == st.file_size,
        r.0.block_size == st.block_size,
        r.0.queue_depth == st.queue_depth,
        st.next_offset <= r.0.next_offset <= st.file_size,
        reads_tile(r.1@, st.next_offset as int, r.0.next_offset as int),
        r.0.bytes_read >= st.bytes_read,
        r.0.bytes_written >= st.bytes_written,
        st.failed ==> r.0 == st && r.1@.len() == 0,
        st.failed ==> r.0.failed,
        uring_done(st) && completion is None ==> r.0 == st && r.1@.len() == 0,
        completion is None ==> forall|k: int| 0 <= k < r.1@.len() ==> (#[trigger] r.1@[k]) is Read,
        completion is None && !st.failed && st.next_offset < st.file_size
            && st.inflight_reads@.len() + st.inflight_writes@.len() < st.queue_depth
            && st.free_buffers@.len() > 0 ==> r.1@.len() > 0 && r.0.next_offset
            > st.next_offset,
        !r.0.failed ==> (r.0.next_offset == r.0.file_size || r.0.inflight_reads@.len()
            + r.0.inflight_writes@.len() == r.0.queue_depth || r.0.free_buffers@.len() == 0),
{
    let ghost st0 = st;
    let mut st = st;
    let mut actions: Vec<UringAction> = Vec::new();
    let ghost base = st.next_offset;
    if st.failed {
        proof {
            assert(reads_tile(actions@, base as int, st.next_offset as int));
        }
        return (st, actions);
    }
    if let Some((tag, len)) = completion {
        let (is_read, buffer, offset) = decode_user_data(tag);
        if is_read {
            match find_op(&st.inflight_reads, buffer, offset) {
                Some(i) => {
                    let ghost pre_reads = st.inflight_reads@;
                    let entry = st.inflight_reads.remove(i);
                    proof {
                        assert(st.inflight_reads@ =~= pre_reads.remove(i as int));
                        lemma_ops_total_remove(pre_reads, i as int);
                        lemma_ops_total_nonneg(st.inflight_reads@);
                    }
                    if len == entry.2 {
                        let ghost pre_writes = st.inflight_writes@;
                        st.inflight_writes.push((buffer, offset, len));
                        proof {
                            assert(st.inflight_writes@.drop_last() =~= pre_writes);
                        }
                        actions.push(UringAction::Write { buffer, offset, len });
                        st.bytes_read = st.bytes_read + len;
                    } else {
                        // a short or over-long read would lose the rest of
                        // its range: fail the run rather than drop data
                        st.free_buffers.push(buffer);
                        st.failed = true;
                    }
                },
                None => {
                    st.failed = true;
                },
            }
        } else {
            match find_op(&st.inflight_writes, buffer, offset) {
                Some(i) => {
                    let ghost pre_writes = st.inflight_writes@;
                    let entry = st.inflight_writes.remove(i);
                    proof {
                        assert(st.inflight_writes@ =~= pre_writes.remove(i as int));
                        lemma_ops_total_remove(pre_writes, i as int);
                        lemma_ops_total_nonneg(st.inflight_writes@);
                    }
                    st.free_buffers.push(buffer);
                    if len == entry.2 {
                        st.bytes_written = st.bytes_written + len;
                    } else {
                        st.failed = true;
                    }
                },
                None => {
                    st.failed = true;
                },
            }
        }
    }
    proof {
        assert(reads_tile(Seq::<UringAction>::empty(), base as int, base as int));
        if actions@.len() > 0 {
            lemma_tile_snoc_write(
                Seq::<UringAction>::empty(),
                actions@[0],
                base as int,
                base as int,
            );
            assert(actions@ =~= Seq::<UringAction>::empty().push(actions@[0]));
        }
        assert(reads_tile(actions@, base as int, st.next_offset as int));
    }
    if st.failed {
        return (st, actions);
    }
    while st.next_offset < st.file_size && st.inflight_reads.len() + st.inflight_writes.len()
        < st.queue_depth && st.free_buffers.len() > 0
        invariant
            st.file_size == st0.file_size,
            st.block_size == st0.block_size,
            st.queue_depth == st0.queue_depth,
            st.bytes_read >= st0.bytes_read,
            st.bytes_written >= st0.bytes_written,
            st.block_size > 0,
            st.queue_depth > 0,
            st.next_offset <= st.file_size,
            st.inflight_reads@.len() + st.inflight_writes@.len() <= st.queue_depth,
            !st.failed,
            st.bytes_read + ops_total(st.inflight_reads@) == st.next_offset,
            st.bytes_written + ops_total(st.inflight_writes@) == st.bytes_read,
            base == st0.next_offset,
            base <= st.next_offset,
            reads_tile(actions@, base as int, st.next_offset as int),
            completion is None ==> forall|k: int|
                0 <= k < actions@.len() ==> (#[trigger] actions@[k]) is Read,
            completion is None && uring_done(st0) ==> st == st0 && actions@.len() == 0,
            completion is None ==> (actions@.len() == 0 ==> st == st0),
            completion is None && actions@.len() > 0 ==> st.next_offset > st0.next_offset,
        decreases st.file_size - st.next_offset,
    {
        let buffer = match st.free_buffers.pop() {
            Some(b) => b,
            None => {
                // the loop guard holds a free buffer
                assert(false);
                unreached()
            },
        };
        let remaining = st.file_size - st.next_offset;
        let len = if remaining < st.block_size {
            remaining
        } else {
            st.block_size
        };
        let offset = st.next_offset;
        let ghost pre_reads = st.inflight_reads@;
        st.inflight_reads.push((buffer, offset, len));
        proof {
            assert(st.inflight_reads@.drop_last() =~= pre_reads);
            lemma_tile_snoc_read(actions@, buffer, offset, len, base as int);
        }
        actions.push(UringAction::Read { buffer, offset, len });
        st.next_offset = st.next_offset + len;
    }
    (st, actions)
}

} // verus!
