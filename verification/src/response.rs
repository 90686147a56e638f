//! The response union carried over the wire: per-variant payloads, their
//! encoders and decoders, and lemmas showing that decoding inverts encoding.

use vstd::prelude::*;
use vstd::seq_lib::lemma_concat_associative;
use crate::wire::{
    spec_varint, spec_parse_varint, spec_enc_str, spec_parse_str, spec_enc_bool, spec_parse_bool,
    spec_enc_u32, spec_parse_u32, lemma_varint_roundtrip, lemma_str_roundtrip,
    lemma_bool_roundtrip, lemma_u32_roundtrip, lemma_drop_prefix, enc_varint, dec_varint, enc_str,
    dec_str, enc_bool, dec_bool, enc_u32, dec_u32,
};
use crate::codec::{
    str_wf, str_list_wf, spec_enc_str_list, spec_parse_str_list, lemma_str_list_roundtrip,
    lemma_enc_str_len, enc_str_list, dec_str_list,
};

verus! {

// ---------------------------------------------------------------------------
// progress: the per-job counters a status query reports
// ---------------------------------------------------------------------------

/// Counters of one job, as reported to clients. `status` is a job-state code.
#[derive(Debug, Clone, Copy, PartialEq, Eq, Structural)]
pub struct Progress {
    pub bytes_copied: u64,
    pub total_bytes: u64,
    pub files_copied: u64,
    pub total_files: u64,
    /// Whole mebibytes per second.
    pub throughput_mbps: u64,
    pub eta_seconds: u64,
    pub status: u32,
}

pub open spec fn spec_enc_progress(p: Progress) -> Seq<u8> {
    spec_varint(p.bytes_copied) + spec_varint(p.total_bytes) + spec_varint(p.files_copied)
        + spec_varint(p.total_files) + spec_varint(p.throughput_mbps) + spec_varint(p.eta_seconds)
        + spec_enc_u32(p.status)
}

pub open spec fn spec_parse_progress(s: Seq<u8>) -> Option<(Progress, int)> {
    match spec_parse_varint(s) {
        None => None,
        Some((bytes_copied, c1)) => match spec_parse_varint(s.subrange(c1, s.len() as int)) {
            None => None,
            Some((total_bytes, c2)) => match spec_parse_varint(
                s.subrange(c1 + c2, s.len() as int),
            ) {
                None => None,
                Some((files_copied, c3)) => match spec_parse_varint(
                    s.subrange(c1 + c2 + c3, s.len() as int),
                ) {
                    None => None,
                    Some((total_files, c4)) => match spec_parse_varint(
                        s.subrange(c1 + c2 + c3 + c4, s.len() as int),
                    ) {
                        None => None,
                        Some((throughput_mbps, c5)) => match spec_parse_varint(
                            s.subrange(c1 + c2 + c3 + c4 + c5, s.len() as int),
                        ) {
                            None => None,
                            Some((eta_seconds, c6)) => match spec_parse_u32(
                                s.subrange(c1 + c2 + c3 + c4 + c5 + c6, s.len() as int),
                            ) {
                                None => None,
                                Some((status, c7)) => Some(
                                    (
                                        Progress {
                                            bytes_copied,
                                            total_bytes,
                                            files_copied,
                                            total_files,
                                            throughput_mbps,
                                            eta_seconds,
                                            status,
                                        },
                                        c1 + c2 + c3 + c4 + c5 + c6 + c7,
                                    ),
                                ),
                            },
                        },
                    },
                },
            },
        },
    }
}

#[verifier::rlimit(100)]
#[verifier::spinoff_prover]
pub proof fn lemma_progress_roundtrip(p: Progress, rest: Seq<u8>)
    ensures
        spec_parse_progress(spec_enc_progress(p) + rest) == Some(
            (p, spec_enc_progress(p).len() as int),
        ),
{
    let e1 = spec_varint(p.bytes_copied);
    let e2 = spec_varint(p.total_bytes);
    let e3 = spec_varint(p.files_copied);
    let e4 = spec_varint(p.total_files);
    let e5 = spec_varint(p.throughput_mbps);
    let e6 = spec_varint(p.eta_seconds);
    let e7 = spec_enc_u32(p.status);
    let t7 = rest;
    let t6 = e7 + t7;
    let t5 = e6 + t6;
    let t4 = e5 + t5;
    let t3 = e4 + t4;
    let t2 = e3 + t3;
    let t1 = e2 + t2;
    let p1 = e1;
    let p2 = p1 + e2;
    let p3 = p2 + e3;
    let p4 = p3 + e4;
    let p5 = p4 + e5;
    let p6 = p5 + e6;
    let p7 = p6 + e7;
    let s = spec_enc_progress(p) + rest;
    assert(spec_enc_progress(p) == p7);
    lemma_concat_associative(p6, e7, t7);
    lemma_concat_associative(p5, e6, t6);
    lemma_concat_associative(p4, e5, t5);
    lemma_concat_associative(p3, e4, t4);
    lemma_concat_associative(p2, e3, t3);
    lemma_concat_associative(p1, e2, t2);
    assert(s == p1 + t1);
    lemma_varint_roundtrip(p.bytes_copied, t1);
    lemma_drop_prefix(p1, t1);
    lemma_varint_roundtrip(p.total_bytes, t2);
    lemma_drop_prefix(p2, t2);
    lemma_varint_roundtrip(p.files_copied, t3);
    lemma_drop_prefix(p3, t3);
    lemma_varint_roundtrip(p.total_files, t4);
    lemma_drop_prefix(p4, t4);
    lemma_varint_roundtrip(p.throughput_mbps, t5);
    lemma_drop_prefix(p5, t5);
    lemma_varint_roundtrip(p.eta_seconds, t6);
    lemma_drop_prefix(p6, t6);
    lemma_u32_roundtrip(p.status, t7);
}

#[verifier::rlimit(100)]
pub fn enc_progress(out: &mut Vec<u8>, p: &Progress)
    ensures
        final(out)@ == old(out)@ + spec_enc_progress(*p),
{
    let ghost o = out@;
    let ghost e1 = spec_varint(p.bytes_copied);
    let ghost e2 = spec_varint(p.total_bytes);
    let ghost e3 = spec_varint(p.files_copied);
    let ghost e4 = spec_varint(p.total_files);
    let ghost e5 = spec_varint(p.throughput_mbps);
    let ghost e6 = spec_varint(p.eta_seconds);
    let ghost e7 = spec_enc_u32(p.status);
    enc_varint(out, p.bytes_copied);
    enc_varint(out, p.total_bytes);
    enc_varint(out, p.files_copied);
    enc_varint(out, p.total_files);
    enc_varint(out, p.throughput_mbps);
    enc_varint(out, p.eta_seconds);
    enc_u32(out, p.status);
    proof {
        lemma_concat_associative(o, e1, e2);
        lemma_concat_associative(o, e1 + e2, e3);
        lemma_concat_associative(o, e1 + e2 + e3, e4);
        lemma_concat_associative(o, e1 + e2 + e3 + e4, e5);
        lemma_concat_associative(o, e1 + e2 + e3 + e4 + e5, e6);
        lemma_concat_associative(o, e1 + e2 + e3 + e4 + e5 + e6, e7);
    }
}

#[verifier::rlimit(100)]
pub fn dec_progress(buf: &Vec<u8>, i: usize) -> (r: Option<(Progress, usize)>)
    requires
        i <= buf.len(),
    ensures
        ({
            let p = spec_parse_progress(buf@.subrange(i as int, buf@.len() as int));
            match r {
                None => p is None,
                Some((v, j)) => i <= j <= buf.len() && p == Some((v, j - i)),
            }
        }),
{
    let ghost s = buf@.subrange(i as int, buf@.len() as int);
    let (bytes_copied, j1) = match dec_varint(buf, i) {
        None => { return None; },
        Some(x) => x,
    };
    proof {
        assert(s.subrange((j1 - i) as int, s.len() as int) =~= buf@.subrange(
            j1 as int,
            buf@.len() as int,
        ));
    }
    let (total_bytes, j2) = match dec_varint(buf, j1) {
        None => { return None; },
        Some(x) => x,
    };
    proof {
        assert(s.subrange((j2 - i) as int, s.len() as int) =~= buf@.subrange(
            j2 as int,
            buf@.len() as int,
        ));
    }
    let (files_copied, j3) = match dec_varint(buf, j2) {
        None => { return None; },
        Some(x) => x,
    };
    proof {
        assert(s.subrange((j3 - i) as int, s.len() as int) =~= buf@.subrange(
            j3 as int,
            buf@.len() as int,
        ));
    }
    let (total_files, j4) = match dec_varint(buf, j3) {
        None => { return None; },
        Some(x) => x,
    };
    proof {
        assert(s.subrange((j4 - i) as int, s.len() as int) =~= buf@.subrange(
            j4 as int,
            buf@.len() as int,
        ));
    }
    let (throughput_mbps, j5) = match dec_varint(buf, j4) {
        None => { return None; },
        Some(x) => x,
    };
    proof {
        assert(s.subrange((j5 - i) as int, s.len() as int) =~= buf@.subrange(
            j5 as int,
            buf@.len() as int,
        ));
    }
    let (eta_seconds, j6) = match dec_varint(buf, j5) {
        None => { return None; },
        Some(x) => x,
    };
    proof {
        assert(s.subrange((j6 - i) as int, s.len() as int) =~= buf@.subrange(
            j6 as int,
            buf@.len() as int,
        ));
    }
    let (status, j7) = match dec_u32(buf, j6) {
        None => { return None; },
        Some(x) => x,
    };
    Some((
        Progress {
            bytes_copied,
            total_bytes,
            files_copied,
            total_files,
            throughput_mbps,
            eta_seconds,
            status,
        },
        j7,
    ))
}

// ---------------------------------------------------------------------------
// optional progress: presence flag, then the payload when present
// ---------------------------------------------------------------------------

pub open spec fn spec_enc_opt_progress(p: Option<Progress>) -> Seq<u8> {
    match p {
        Option::None => spec_enc_bool(false),
        Option::Some(v) => spec_enc_bool(true) + spec_enc_progress(v),
    }
}

pub open spec fn spec_parse_opt_progress(s: Seq<u8>) -> Option<(Option<Progress>, int)> {
    match spec_parse_bool(s) {
        None => None,
        Some((present, c)) => {
            if present {
                match spec_parse_progress(s.subrange(c, s.len() as int)) {
                    None => None,
                    Some((v, c2)) => Some((Option::Some(v), c + c2)),
                }
            } else {
                Some((Option::None, c))
            }
        },
    }
}

pub proof fn lemma_opt_progress_roundtrip(p: Option<Progress>, rest: Seq<u8>)
    ensures
        spec_parse_opt_progress(spec_enc_opt_progress(p) + rest) == Some(
            (p, spec_enc_opt_progress(p).len() as int),
        ),
{
    match p {
        Option::None => {
            lemma_bool_roundtrip(false, rest);
        },
        Option::Some(v) => {
            let flag = spec_enc_bool(true);
            let t1 = spec_enc_progress(v) + rest;
            let s = spec_enc_opt_progress(p) + rest;
            assert(s =~= flag + t1);
            lemma_bool_roundtrip(true, t1);
            lemma_drop_prefix(flag, t1);
            lemma_progress_roundtrip(v, rest);
        },
    }
}

pub fn enc_opt_progress(out: &mut Vec<u8>, p: &Option<Progress>)
    ensures
        final(out)@ == old(out)@ + spec_enc_opt_progress(*p),
{
    match p {
        Option::None => {
            enc_bool(out, false);
        },
        Option::Some(v) => {
            enc_bool(out, true);
            enc_progress(out, v);
            assert(final(out)@ =~= old(out)@ + spec_enc_opt_progress(*p));
        },
    }
}

pub fn dec_opt_progress(buf: &Vec<u8>, i: usize) -> (r: Option<(Option<Progress>, usize)>)
    requires
        i <= buf.len(),
    ensures
        ({
            let p = spec_parse_opt_progress(buf@.subrange(i as int, buf@.len() as int));
            match r {
                None => p is None,
                Some((v, j)) => i <= j <= buf.len() && p == Some((v, j - i)),
            }
        }),
{
    let ghost s = buf@.subrange(i as int, buf@.len() as int);
    let (present, c) = match dec_bool(buf, i) {
        None => { return None; },
        Some(x) => x,
    };
    proof {
        assert(s.subrange((c - i) as int, s.len() as int) =~= buf@.subrange(
            c as int,
            buf@.len() as int,
        ));
    }
    if present {
        match dec_progress(buf, c) {
            None => None,
            Some((v, j)) => Some((Some(v), j)),
        }
    } else {
        Some((None, c))
    }
}


// ---------------------------------------------------------------------------
// per-day statistics entries
// ---------------------------------------------------------------------------

/// Aggregate transfer statistics for one calendar day.
pub struct DailyStat {
    pub date: String,
    pub bytes_copied: u64,
    pub files_copied: u64,
    pub jobs_completed: u64,
}

/// Mathematical image of a `DailyStat`.
pub struct DailyStatV {
    pub date: Seq<char>,
    pub bytes_copied: u64,
    pub files_copied: u64,
    pub jobs_completed: u64,
}

impl View for DailyStat {
    type V = DailyStatV;

    open spec fn view(&self) -> DailyStatV {
        DailyStatV {
            date: self.date@,
            bytes_copied: self.bytes_copied,
            files_copied: self.files_copied,
            jobs_completed: self.jobs_completed,
        }
    }
}

impl DeepView for DailyStat {
    type V = DailyStatV;

    open spec fn deep_view(&self) -> DailyStatV {
        self@
    }
}

pub open spec fn daily_wf(v: DailyStatV) -> bool {
    str_wf(v.date)
}

pub open spec fn spec_enc_daily(v: DailyStatV) -> Seq<u8> {
    spec_enc_str(v.date) + spec_varint(v.bytes_copied) + spec_varint(v.files_copied)
        + spec_varint(v.jobs_completed)
}

pub open spec fn spec_parse_daily(s: Seq<u8>) -> Option<(DailyStatV, int)> {
    match spec_parse_str(s) {
        None => None,
        Some((date, c1)) => match spec_parse_varint(s.subrange(c1, s.len() as int)) {
            None => None,
            Some((bytes_copied, c2)) => match spec_parse_varint(
                s.subrange(c1 + c2, s.len() as int),
            ) {
                None => None,
                Some((files_copied, c3)) => match spec_parse_varint(
                    s.subrange(c1 + c2 + c3, s.len() as int),
                ) {
                    None => None,
                    Some((jobs_completed, c4)) => Some(
                        (
                            DailyStatV { date, bytes_copied, files_copied, jobs_completed },
                            c1 + c2 + c3 + c4,
                        ),
                    ),
                },
            },
        },
    }
}

pub proof fn lemma_enc_daily_len(v: DailyStatV)
    ensures
        spec_enc_daily(v).len() >= 1,
{
    lemma_enc_str_len(v.date);
}

#[verifier::rlimit(100)]
pub proof fn lemma_daily_roundtrip(v: DailyStatV, rest: Seq<u8>)
    requires
        daily_wf(v),
    ensures
        spec_parse_daily(spec_enc_daily(v) + rest) == Some((v, spec_enc_daily(v).len() as int)),
{
    let e1 = spec_enc_str(v.date);
    let e2 = spec_varint(v.bytes_copied);
    let e3 = spec_varint(v.files_copied);
    let e4 = spec_varint(v.jobs_completed);
    let t4 = rest;
    let t3 = e4 + t4;
    let t2 = e3 + t3;
    let t1 = e2 + t2;
    let p1 = e1;
    let p2 = p1 + e2;
    let p3 = p2 + e3;
    let p4 = p3 + e4;
    let s = spec_enc_daily(v) + rest;
    assert(spec_enc_daily(v) == p4);
    lemma_concat_associative(p3, e4, t4);
    lemma_concat_associative(p2, e3, t3);
    lemma_concat_associative(p1, e2, t2);
    assert(s == p1 + t1);
    lemma_str_roundtrip(v.date, t1);
    lemma_drop_prefix(p1, t1);
    lemma_varint_roundtrip(v.bytes_copied, t2);
    lemma_drop_prefix(p2, t2);
    lemma_varint_roundtrip(v.files_copied, t3);
    lemma_drop_prefix(p3, t3);
    lemma_varint_roundtrip(v.jobs_completed, t4);
}

#[verifier::rlimit(100)]
pub fn enc_daily(out: &mut Vec<u8>, v: &DailyStat)
    ensures
        final(out)@ == old(out)@ + spec_enc_daily(v.deep_view()),
{
    let ghost o = out@;
    let ghost e1 = spec_enc_str(v.date@);
    let ghost e2 = spec_varint(v.bytes_copied);
    let ghost e3 = spec_varint(v.files_copied);
    enc_str(out, &v.date);
    enc_varint(out, v.bytes_copied);
    enc_varint(out, v.files_copied);
    enc_varint(out, v.jobs_completed);
    proof {
        lemma_concat_associative(o, e1, e2);
        lemma_concat_associative(o, e1 + e2, e3);
        lemma_concat_associative(o, e1 + e2 + e3, spec_varint(v.jobs_completed));
    }
}

#[verifier::rlimit(100)]
pub fn dec_daily(buf: &Vec<u8>, i: usize) -> (r: Option<(DailyStat, usize)>)
    requires
        i <= buf.len(),
    ensures
        ({
            let p = spec_parse_daily(buf@.subrange(i as int, buf@.len() as int));
            match r {
                None => p is None,
                Some((v, j)) => i <= j <= buf.len() && p == Some((v.deep_view(), j - i)),
            }
        }),
{
    let ghost s = buf@.subrange(i as int, buf@.len() as int);
    let (date, j1) = match dec_str(buf, i) {
        None => { return None; },
        Some(x) => x,
    };
    proof {
        assert(s.subrange((j1 - i) as int, s.len() as int) =~= buf@.subrange(
            j1 as int,
            buf@.len() as int,
        ));
    }
    let (bytes_copied, j2) = match dec_varint(buf, j1) {
        None => { return None; },
        Some(x) => x,
    };
    proof {
        assert(s.subrange((j2 - i) as int, s.len() as int) =~= buf@.subrange(
            j2 as int,
            buf@.len() as int,
        ));
    }
    let (files_copied, j3) = match dec_varint(buf, j2) {
        None => { return None; },
        Some(x) => x,
    };
    proof {
        assert(s.subrange((j3 - i) as int, s.len() as int) =~= buf@.subrange(
            j3 as int,
            buf@.len() as int,
        ));
    }
    let (jobs_completed, j4) = match dec_varint(buf, j3) {
        None => { return None; },
        Some(x) => x,
    };
    Some((DailyStat { date, bytes_copied, files_copied, jobs_completed }, j4))
}

// ---------------------------------------------------------------------------
// slow-path entries
// ---------------------------------------------------------------------------

/// A path with notably low observed throughput.
pub struct SlowPath {
    pub path: String,
    /// Whole mebibytes per second.
    pub avg_throughput_mbps: u64,
    pub copy_count: u64,
}

/// Mathematical image of a `SlowPath`.
pub struct SlowPathV {
    pub path: Seq<char>,
    pub avg_throughput_mbps: u64,
    pub copy_count: u64,
}

impl View for SlowPath {
    type V = SlowPathV;

    open spec fn view(&self) -> SlowPathV {
        SlowPathV {
            path: self.path@,
            avg_throughput_mbps: self.avg_throughput_mbps,
            copy_count: self.copy_count,
        }
    }
}

impl DeepView for SlowPath {
    type V = SlowPathV;

    open spec fn deep_view(&self) -> SlowPathV {
        self@
    }
}

pub open spec fn slow_wf(v: SlowPathV) -> bool {
    str_wf(v.path)
}

pub open spec fn spec_enc_slow(v: SlowPathV) -> Seq<u8> {
    spec_enc_str(v.path) + spec_varint(v.avg_throughput_mbps) + spec_varint(v.copy_count)
}

pub open spec fn spec_parse_slow(s: Seq<u8>) -> Option<(SlowPathV, int)> {
    match spec_parse_str(s) {
        None => None,
        Some((path, c1)) => match spec_parse_varint(s.subrange(c1, s.len() as int)) {
            None => None,
            Some((avg_throughput_mbps, c2)) => match spec_parse_varint(
                s.subrange(c1 + c2, s.len() as int),
            ) {
                None => None,
                Some((copy_count, c3)) => Some(
                    (SlowPathV { path, avg_throughput_mbps, copy_count }, c1 + c2 + c3),
                ),
            },
        },
    }
}

pub proof fn lemma_enc_slow_len(v: SlowPathV)
    ensures
        spec_enc_slow(v).len() >= 1,
{
    lemma_enc_str_len(v.path);
}

#[verifier::rlimit(100)]
pub proof fn lemma_slow_roundtrip(v: SlowPathV, rest: Seq<u8>)
    requires
        slow_wf(v),
    ensures
        spec_parse_slow(spec_enc_slow(v) + rest) == Some((v, spec_enc_slow(v).len() as int)),
{
    let e1 = spec_enc_str(v.path);
    let e2 = spec_varint(v.avg_throughput_mbps);
    let e3 = spec_varint(v.copy_count);
    let t3 = rest;
    let t2 = e3 + t3;
    let t1 = e2 + t2;
    let p1 = e1;
    let p2 = p1 + e2;
    let p3 = p2 + e3;
    let s = spec_enc_slow(v) + rest;
    assert(spec_enc_slow(v) == p3);
    lemma_concat_associative(p2, e3, t3);
    lemma_concat_associative(p1, e2, t2);
    assert(s == p1 + t1);
    lemma_str_roundtrip(v.path, t1);
    lemma_drop_prefix(p1, t1);
    lemma_varint_roundtrip(v.avg_throughput_mbps, t2);
    lemma_drop_prefix(p2, t2);
    lemma_varint_roundtrip(v.copy_count, t3);
}

pub fn enc_slow(out: &mut Vec<u8>, v: &SlowPath)
    ensures
        final(out)@ == old(out)@ + spec_enc_slow(v.deep_view()),
{
    let ghost o = out@;
    let ghost e1 = spec_enc_str(v.path@);
    let ghost e2 = spec_varint(v.avg_throughput_mbps);
    enc_str(out, &v.path);
    enc_varint(out, v.avg_throughput_mbps);
    enc_varint(out, v.copy_count);
    proof {
        lemma_concat_associative(o, e1, e2);
        lemma_concat_associative(o, e1 + e2, spec_varint(v.copy_count));
    }
}

pub fn dec_slow(buf: &Vec<u8>, i: usize) -> (r: Option<(SlowPath, usize)>)
    requires
        i <= buf.len(),
    ensures
        ({
            let p = spec_parse_slow(buf@.subrange(i as int, buf@.len() as int));
            match r {
                None => p is None,
                Some((v, j)) => i <= j <= buf.len() && p == Some((v.deep_view(), j - i)),
            }
        }),
{
    let ghost s = buf@.subrange(i as int, buf@.len() as int);
    let (path, j1) = match dec_str(buf, i) {
        None => { return None; },
        Some(x) => x,
    };
    proof {
        assert(s.subrange((j1 - i) as int, s.len() as int) =~= buf@.subrange(
            j1 as int,
            buf@.len() as int,
        ));
    }
    let (avg_throughput_mbps, j2) = match dec_varint(buf, j1) {
        None => { return None; },
        Some(x) => x,
    };
    proof {
        assert(s.subrange((j2 - i) as int, s.len() as int) =~= buf@.subrange(
            j2 as int,
            buf@.len() as int,
        ));
    }
    let (copy_count, j3) = match dec_varint(buf, j2) {
        None => { return None; },
        Some(x) => x,
    };
    Some((SlowPath { path, avg_throughput_mbps, copy_count }, j3))
}

// ---------------------------------------------------------------------------
// job summaries for listings
// ---------------------------------------------------------------------------

/// One job's summary as reported by a listing.
pub struct JobInfo {
    pub job_id: String,
    pub sources: Vec<String>,
    pub destination: String,
    pub progress: Option<Progress>,
    pub created_at: u64,
    /// 0 when the job has not started.
    pub started_at: u64,
    /// 0 when the job has not finished.
    pub completed_at: u64,
    pub priority: u32,
}

/// Mathematical image of a `JobInfo`.
pub struct JobInfoV {
    pub job_id: Seq<char>,
    pub sources: Seq<Seq<char>>,
    pub destination: Seq<char>,
    pub progress: Option<Progress>,
    pub created_at: u64,
    pub started_at: u64,
    pub completed_at: u64,
    pub priority: u32,
}

impl View for JobInfo {
    type V = JobInfoV;

    open spec fn view(&self) -> JobInfoV {
        JobInfoV {
            job_id: self.job_id@,
            sources: self.sources.deep_view(),
            destination: self.destination@,
            progress: self.progress,
            created_at: self.created_at,
            started_at: self.started_at,
            completed_at: self.completed_at,
            priority: self.priority,
        }
    }
}

impl DeepView for JobInfo {
    type V = JobInfoV;

    open spec fn deep_view(&self) -> JobInfoV {
        self@
    }
}

pub open spec fn job_info_wf(v: JobInfoV) -> bool {
    &&& str_wf(v.job_id)
    &&& str_list_wf(v.sources)
    &&& str_wf(v.destination)
}

#[verifier::opaque]
pub open spec fn spec_enc_job_info(v: JobInfoV) -> Seq<u8> {
    spec_enc_str(v.job_id) + spec_enc_str_list(v.sources) + spec_enc_str(v.destination)
        + spec_enc_opt_progress(v.progress) + spec_varint(v.created_at) + spec_varint(
        v.started_at,
    ) + spec_varint(v.completed_at) + spec_enc_u32(v.priority)
}

#[verifier::opaque]
pub open spec fn spec_parse_job_info(s: Seq<u8>) -> Option<(JobInfoV, int)> {
    match spec_parse_str(s) {
        None => None,
        Some((job_id, c1)) => match spec_parse_str_list(s.subrange(c1, s.len() as int)) {
            None => None,
            Some((sources, c2)) => match spec_parse_str(s.subrange(c1 + c2, s.len() as int)) {
                None => None,
                Some((destination, c3)) => match spec_parse_opt_progress(
                    s.subrange(c1 + c2 + c3, s.len() as int),
                ) {
                    None => None,
                    Some((progress, c4)) => match spec_parse_varint(
                        s.subrange(c1 + c2 + c3 + c4, s.len() as int),
                    ) {
                        None => None,
                        Some((created_at, c5)) => match spec_parse_varint(
                            s.subrange(c1 + c2 + c3 + c4 + c5, s.len() as int),
                        ) {
                            None => None,
                            Some((started_at, c6)) => match spec_parse_varint(
                                s.subrange(c1 + c2 + c3 + c4 + c5 + c6, s.len() as int),
                            ) {
                                None => None,
                                Some((completed_at, c7)) => match spec_parse_u32(
                                    s.subrange(c1 + c2 + c3 + c4 + c5 + c6 + c7, s.len() as int),
                                ) {
                                    None => None,
                                    Some((priority, c8)) => Some(
                                        (
                                            JobInfoV {
                                                job_id,
                                                sources,
                                                destination,
                                                progress,
                                                created_at,
                                                started_at,
                                                completed_at,
                                                priority,
                                            },
                                            c1 + c2 + c3 + c4 + c5 + c6 + c7 + c8,
                                        ),
                                    ),
                                },
                            },
                        },
                    },
                },
            },
        },
    }
}

pub proof fn lemma_enc_job_info_len(v: JobInfoV)
    ensures
        spec_enc_job_info(v).len() >= 1,
{
    reveal(spec_enc_job_info);
    lemma_enc_str_len(v.job_id);
}

#[verifier::rlimit(100)]
#[verifier::spinoff_prover]
pub proof fn lemma_job_info_roundtrip(v: JobInfoV, rest: Seq<u8>)
    requires
        job_info_wf(v),
    ensures
        spec_parse_job_info(spec_enc_job_info(v) + rest) == Some(
            (v, spec_enc_job_info(v).len() as int),
        ),
{
    reveal(spec_enc_job_info);
    reveal(spec_parse_job_info);
    let e1 = spec_enc_str(v.job_id);
    let e2 = spec_enc_str_list(v.sources);
    let e3 = spec_enc_str(v.destination);
    let e4 = spec_enc_opt_progress(v.progress);
    let e5 = spec_varint(v.created_at);
    let e6 = spec_varint(v.started_at);
    let e7 = spec_varint(v.completed_at);
    let e8 = spec_enc_u32(v.priority);
    let t8 = rest;
    let t7 = e8 + t8;
    let t6 = e7 + t7;
    let t5 = e6 + t6;
    let t4 = e5 + t5;
    let t3 = e4 + t4;
    let t2 = e3 + t3;
    let t1 = e2 + t2;
    let p1 = e1;
    let p2 = p1 + e2;
    let p3 = p2 + e3;
    let p4 = p3 + e4;
    let p5 = p4 + e5;
    let p6 = p5 + e6;
    let p7 = p6 + e7;
    let p8 = p7 + e8;
    let s = spec_enc_job_info(v) + rest;
    assert(spec_enc_job_info(v) == p8);
    lemma_concat_associative(p7, e8, t8);
    lemma_concat_associative(p6, e7, t7);
    lemma_concat_associative(p5, e6, t6);
    lemma_concat_associative(p4, e5, t5);
    lemma_concat_associative(p3, e4, t4);
    lemma_concat_associative(p2, e3, t3);
    lemma_concat_associative(p1, e2, t2);
    assert(s == p1 + t1);
    lemma_str_roundtrip(v.job_id, t1);
    lemma_drop_prefix(p1, t1);
    lemma_str_list_roundtrip(v.sources, t2);
    lemma_drop_prefix(p2, t2);
    lemma_str_roundtrip(v.destination, t3);
    lemma_drop_prefix(p3, t3);
    lemma_opt_progress_roundtrip(v.progress, t4);
    lemma_drop_prefix(p4, t4);
    lemma_varint_roundtrip(v.created_at, t5);
    lemma_drop_prefix(p5, t5);
    lemma_varint_roundtrip(v.started_at, t6);
    lemma_drop_prefix(p6, t6);
    lemma_varint_roundtrip(v.completed_at, t7);
    lemma_drop_prefix(p7, t7);
    lemma_u32_roundtrip(v.priority, t8);
}

#[verifier::rlimit(100)]
pub fn enc_job_info(out: &mut Vec<u8>, v: &JobInfo)
    ensures
        final(out)@ == old(out)@ + spec_enc_job_info(v.deep_view()),
{
    proof {
        reveal(spec_enc_job_info);
    }
    let ghost o = out@;
    let ghost e1 = spec_enc_str(v.job_id@);
    let ghost e2 = spec_enc_str_list(v.sources.deep_view());
    let ghost e3 = spec_enc_str(v.destination@);
    let ghost e4 = spec_enc_opt_progress(v.progress);
    let ghost e5 = spec_varint(v.created_at);
    let ghost e6 = spec_varint(v.started_at);
    let ghost e7 = spec_varint(v.completed_at);
    let ghost e8 = spec_enc_u32(v.priority);
    enc_str(out, &v.job_id);
    enc_str_list(out, &v.sources);
    enc_str(out, &v.destination);
    enc_opt_progress(out, &v.progress);
    enc_varint(out, v.created_at);
    enc_varint(out, v.started_at);
    enc_varint(out, v.completed_at);
    enc_u32(out, v.priority);
    proof {
        lemma_concat_associative(o, e1, e2);
        lemma_concat_associative(o, e1 + e2, e3);
        lemma_concat_associative(o, e1 + e2 + e3, e4);
        lemma_concat_associative(o, e1 + e2 + e3 + e4, e5);
        lemma_concat_associative(o, e1 + e2 + e3 + e4 + e5, e6);
        lemma_concat_associative(o, e1 + e2 + e3 + e4 + e5 + e6, e7);
        lemma_concat_associative(o, e1 + e2 + e3 + e4 + e5 + e6 + e7, e8);
    }
}

#[verifier::rlimit(100)]
pub fn dec_job_info(buf: &Vec<u8>, i: usize) -> (r: Option<(JobInfo, usize)>)
    requires
        i <= buf.len(),
    ensures
        ({
            let p = spec_parse_job_info(buf@.subrange(i as int, buf@.len() as int));
            match r {
                None => p is None,
                Some((v, j)) => i <= j <= buf.len() && p == Some((v.deep_view(), j - i)),
            }
        }),
{
    proof {
        reveal(spec_parse_job_info);
    }
    let ghost s = buf@.subrange(i as int, buf@.len() as int);
    let (job_id, j1) = match dec_str(buf, i) {
        None => { return None; },
        Some(x) => x,
    };
    proof {
        assert(s.subrange((j1 - i) as int, s.len() as int) =~= buf@.subrange(
            j1 as int,
            buf@.len() as int,
        ));
    }
    let (sources, j2) = match dec_str_list(buf, j1) {
        None => { return None; },
        Some(x) => x,
    };
    proof {
        assert(s.subrange((j2 - i) as int, s.len() as int) =~= buf@.subrange(
            j2 as int,
            buf@.len() as int,
        ));
    }
    let (destination, j3) = match dec_str(buf, j2) {
        None => { return None; },
        Some(x) => x,
    };
    proof {
        assert(s.subrange((j3 - i) as int, s.len() as int) =~= buf@.subrange(
            j3 as int,
            buf@.len() as int,
        ));
    }
    let (progress, j4) = match dec_opt_progress(buf, j3) {
        None => { return None; },
        Some(x) => x,
    };
    proof {
        assert(s.subrange((j4 - i) as int, s.len() as int) =~= buf@.subrange(
            j4 as int,
            buf@.len() as int,
        ));
    }
    let (created_at, j5) = match dec_varint(buf, j4) {
        None => { return None; },
        Some(x) => x,
    };
    proof {
        assert(s.subrange((j5 - i) as int, s.len() as int) =~= buf@.subrange(
            j5 as int,
            buf@.len() as int,
        ));
    }
    let (started_at, j6) = match dec_varint(buf, j5) {
        None => { return None; },
        Some(x) => x,
    };
    proof {
        assert(s.subrange((j6 - i) as int, s.len() as int) =~= buf@.subrange(
            j6 as int,
            buf@.len() as int,
        ));
    }
    let (completed_at, j7) = match dec_varint(buf, j6) {
        None => { return None; },
        Some(x) => x,
    };
    proof {
        assert(s.subrange((j7 - i) as int, s.len() as int) =~= buf@.subrange(
            j7 as int,
            buf@.len() as int,
        ));
    }
    let (priority, j8) = match dec_u32(buf, j7) {
        None => { return None; },
        Some(x) => x,
    };
    Some((
        JobInfo {
            job_id,
            sources,
            destination,
            progress,
            created_at,
            started_at,
            completed_at,
            priority,
        },
        j8,
    ))
}

// ---------------------------------------------------------------------------
// lists of daily: varint count, then each entry in order
// ---------------------------------------------------------------------------

pub open spec fn daily_list_wf(l: Seq<DailyStatV>) -> bool {
    &&& l.len() <= 0xffff_ffff_ffff_ffffu64
    &&& forall|i: int| 0 <= i < l.len() ==> daily_wf(#[trigger] l[i])
}

pub open spec fn spec_enc_daily_seq(l: Seq<DailyStatV>) -> Seq<u8>
    decreases l.len(),
{
    if l.len() == 0 {
        Seq::empty()
    } else {
        spec_enc_daily(l[0]) + spec_enc_daily_seq(l.drop_first())
    }
}

pub open spec fn spec_enc_daily_list(l: Seq<DailyStatV>) -> Seq<u8> {
    spec_varint(l.len() as u64) + spec_enc_daily_seq(l)
}

pub open spec fn spec_parse_daily_seq(s: Seq<u8>, n: nat) -> Option<(Seq<DailyStatV>, int)>
    decreases n,
{
    if n == 0 {
        Some((Seq::empty(), 0))
    } else {
        match spec_parse_daily(s) {
            None => None,
            Some((v, c)) => {
                match spec_parse_daily_seq(s.subrange(c, s.len() as int), (n - 1) as nat) {
                    None => None,
                    Some((l, c2)) => Some((seq![v] + l, c + c2)),
                }
            },
        }
    }
}

pub open spec fn spec_parse_daily_list(s: Seq<u8>) -> Option<(Seq<DailyStatV>, int)> {
    match spec_parse_varint(s) {
        None => None,
        Some((n, c)) => {
            if n <= s.len() - c {
                match spec_parse_daily_seq(s.subrange(c, s.len() as int), n as nat) {
                    None => None,
                    Some((l, c2)) => Some((l, c + c2)),
                }
            } else {
                None
            }
        },
    }
}

pub proof fn lemma_enc_daily_seq_push(l: Seq<DailyStatV>, x: DailyStatV)
    ensures
        spec_enc_daily_seq(l.push(x)) == spec_enc_daily_seq(l) + spec_enc_daily(x),
    decreases l.len(),
{
    if l.len() == 0 {
        assert(l.push(x)[0] == x);
        assert(l.push(x).drop_first() =~= Seq::<DailyStatV>::empty());
        assert(spec_enc_daily_seq(l.push(x)) == spec_enc_daily(x) + spec_enc_daily_seq(
            Seq::<DailyStatV>::empty(),
        ));
        assert(spec_enc_daily_seq(Seq::<DailyStatV>::empty()) == Seq::<u8>::empty());
        assert(spec_enc_daily(x) + Seq::<u8>::empty() =~= Seq::<u8>::empty() + spec_enc_daily(x));
        assert(spec_enc_daily_seq(l) == Seq::<u8>::empty());
    } else {
        assert(l.push(x).drop_first() =~= l.drop_first().push(x));
        lemma_enc_daily_seq_push(l.drop_first(), x);
        assert(spec_enc_daily_seq(l.push(x)) =~= spec_enc_daily_seq(l) + spec_enc_daily(x));
    }
}

pub proof fn lemma_daily_seq_roundtrip(l: Seq<DailyStatV>, rest: Seq<u8>)
    requires
        forall|i: int| 0 <= i < l.len() ==> daily_wf(#[trigger] l[i]),
    ensures
        spec_parse_daily_seq(spec_enc_daily_seq(l) + rest, l.len() as nat) == Some(
            (l, spec_enc_daily_seq(l).len() as int),
        ),
    decreases l.len(),
{
    if l.len() == 0 {
        assert(spec_enc_daily_seq(l) =~= Seq::<u8>::empty());
    } else {
        let s = spec_enc_daily_seq(l) + rest;
        let tail = spec_enc_daily_seq(l.drop_first()) + rest;
        assert(s =~= spec_enc_daily(l[0]) + tail);
        lemma_daily_roundtrip(l[0], tail);
        let c = spec_enc_daily(l[0]).len() as int;
        assert(s.subrange(c, s.len() as int) =~= tail);
        lemma_daily_seq_roundtrip(l.drop_first(), rest);
        assert(seq![l[0]] + l.drop_first() =~= l);
    }
}

pub proof fn lemma_enc_daily_seq_len(l: Seq<DailyStatV>)
    ensures
        spec_enc_daily_seq(l).len() >= l.len(),
    decreases l.len(),
{
    if l.len() > 0 {
        lemma_enc_daily_seq_len(l.drop_first());
        lemma_enc_daily_len(l[0]);
    }
}

pub proof fn lemma_daily_list_roundtrip(l: Seq<DailyStatV>, rest: Seq<u8>)
    requires
        daily_list_wf(l),
    ensures
        spec_parse_daily_list(spec_enc_daily_list(l) + rest) == Some(
            (l, spec_enc_daily_list(l).len() as int),
        ),
{
    let s = spec_enc_daily_list(l) + rest;
    let tail = spec_enc_daily_seq(l) + rest;
    assert(s =~= spec_varint(l.len() as u64) + tail);
    lemma_varint_roundtrip(l.len() as u64, tail);
    let c = spec_varint(l.len() as u64).len() as int;
    assert(s.subrange(c, s.len() as int) =~= tail);
    lemma_enc_daily_seq_len(l);
    lemma_daily_seq_roundtrip(l, rest);
}

/// Appends a list field: varint count, then each entry.
pub fn enc_daily_list(out: &mut Vec<u8>, l: &Vec<DailyStat>)
    ensures
        final(out)@ == old(out)@ + spec_enc_daily_list(l.deep_view()),
{
    enc_varint(out, l.len() as u64);
    let ghost lv = l.deep_view();
    assert(lv.len() == l@.len());
    let mut k: usize = 0;
    while k < l.len()
        invariant
            k <= l.len(),
            lv == l.deep_view(),
            lv.len() == l@.len(),
            out@ == old(out)@ + spec_varint(lv.len() as u64) + spec_enc_daily_seq(
                lv.subrange(0, k as int),
            ),
        decreases l.len() - k,
    {
        let ghost pre = lv.subrange(0, k as int);
        enc_daily(out, &l[k]);
        proof {
            assert(lv[k as int] == l@[k as int].deep_view());
            lemma_enc_daily_seq_push(pre, lv[k as int]);
            assert(pre.push(lv[k as int]) =~= lv.subrange(0, k + 1 as int));
        }
        k = k + 1;
    }
    assert(lv.subrange(0, lv.len() as int) =~= lv);
}

/// Reads a list field from `buf` starting at `i`.
pub fn dec_daily_list(buf: &Vec<u8>, i: usize) -> (r: Option<(Vec<DailyStat>, usize)>)
    requires
        i <= buf.len(),
    ensures
        ({
            let p = spec_parse_daily_list(buf@.subrange(i as int, buf@.len() as int));
            match r {
                None => p is None,
                Some((v, j)) => i < j <= buf.len() && p == Some((v.deep_view(), j - i)),
            }
        }),
{
    let ghost s = buf@.subrange(i as int, buf@.len() as int);
    match dec_varint(buf, i) {
        None => None,
        Some((n, c)) => {
            if n > (buf.len() - c) as u64 {
                return None;
            }
            let count: usize = n as usize;
            let mut acc: Vec<DailyStat> = Vec::new();
            let mut j: usize = c;
            let mut k: usize = 0;
            proof {
                assert(s.subrange((c - i) as int, s.len() as int) =~= buf@.subrange(
                    c as int,
                    buf@.len() as int,
                ));
            }
            while k < count
                invariant
                    s == buf@.subrange(i as int, buf@.len() as int),
                    i < c <= j <= buf.len(),
                    k <= count,
                    count == n,
                    n <= s.len() - (c - i),
                    spec_parse_varint(s) == Some((n, c - i)),
                    acc.deep_view().len() == k,
                    ({
                        let whole = spec_parse_daily_seq(
                            s.subrange((c - i) as int, s.len() as int),
                            n as nat,
                        );
                        let remain = spec_parse_daily_seq(
                            buf@.subrange(j as int, buf@.len() as int),
                            (n - k) as nat,
                        );
                        match remain {
                            None => whole is None,
                            Some((l2, c2)) => whole == Some(
                                (acc.deep_view() + l2, (j - c) + c2),
                            ),
                        }
                    }),
                decreases count - k,
            {
                let ghost tail_j = buf@.subrange(j as int, buf@.len() as int);
                match dec_daily(buf, j) {
                    None => {
                        proof {
                            assert(k < n);
                            assert((n - k) as nat != 0);
                            assert(spec_parse_daily(tail_j) is None);
                            assert(spec_parse_daily_seq(tail_j, (n - k) as nat) is None);
                            assert(spec_parse_daily_seq(
                                s.subrange((c - i) as int, s.len() as int),
                                n as nat,
                            ) is None);
                            assert(s.len() == buf@.len() - i);
                            assert(spec_parse_varint(s) == Some((n, (c - i) as int)));
                            assert(spec_parse_daily_list(s) is None);
                        }
                        return None;
                    },
                    Some((v, j2)) => {
                        proof {
                            let c1 = j2 - j;
                            assert(tail_j.subrange(c1 as int, tail_j.len() as int) =~= buf@
                                .subrange(j2 as int, buf@.len() as int));
                            assert(acc.deep_view().push(v.deep_view()) =~= acc.deep_view() + seq![
                                v.deep_view(),
                            ]);
                        }
                        let ghost old_acc = acc.deep_view();
                        let ghost vv = v.deep_view();
                        acc.push(v);
                        proof {
                            assert(acc.deep_view() =~= old_acc.push(vv));
                            assert(forall|l2: Seq<DailyStatV>| (seq![vv] + l2).drop_first() =~= l2);
                            assert(forall|l2: Seq<DailyStatV>|
                                old_acc + (seq![vv] + l2) =~= (old_acc.push(vv)) + l2);
                        }
                        j = j2;
                    },
                }
                k = k + 1;
            }
            proof {
                assert(spec_parse_daily_seq(
                    buf@.subrange(j as int, buf@.len() as int),
                    0,
                ) == Some((Seq::<DailyStatV>::empty(), 0int)));
                assert(acc.deep_view() + Seq::<DailyStatV>::empty() =~= acc.deep_view());
            }
            Some((acc, j))
        },
    }
}


// ---------------------------------------------------------------------------
// lists of slow: varint count, then each entry in order
// ---------------------------------------------------------------------------

pub open spec fn slow_list_wf(l: Seq<SlowPathV>) -> bool {
    &&& l.len() <= 0xffff_ffff_ffff_ffffu64
    &&& forall|i: int| 0 <= i < l.len() ==> slow_wf(#[trigger] l[i])
}

pub open spec fn spec_enc_slow_seq(l: Seq<SlowPathV>) -> Seq<u8>
    decreases l.len(),
{
    if l.len() == 0 {
        Seq::empty()
    } else {
        spec_enc_slow(l[0]) + spec_enc_slow_seq(l.drop_first())
    }
}

pub open spec fn spec_enc_slow_list(l: Seq<SlowPathV>) -> Seq<u8> {
    spec_varint(l.len() as u64) + spec_enc_slow_seq(l)
}

pub open spec fn spec_parse_slow_seq(s: Seq<u8>, n: nat) -> Option<(Seq<SlowPathV>, int)>
    decreases n,
{
    if n == 0 {
        Some((Seq::empty(), 0))
    } else {
        match spec_parse_slow(s) {
            None => None,
            Some((v, c)) => {
                match spec_parse_slow_seq(s.subrange(c, s.len() as int), (n - 1) as nat) {
                    None => None,
                    Some((l, c2)) => Some((seq![v] + l, c + c2)),
                }
            },
        }
    }
}

pub open spec fn spec_parse_slow_list(s: Seq<u8>) -> Option<(Seq<SlowPathV>, int)> {
    match spec_parse_varint(s) {
        None => None,
        Some((n, c)) => {
            if n <= s.len() - c {
                match spec_parse_slow_seq(s.subrange(c, s.len() as int), n as nat) {
                    None => None,
                    Some((l, c2)) => Some((l, c + c2)),
                }
            } else {
                None
            }
        },
    }
}

pub proof fn lemma_enc_slow_seq_push(l: Seq<SlowPathV>, x: SlowPathV)
    ensures
        spec_enc_slow_seq(l.push(x)) == spec_enc_slow_seq(l) + spec_enc_slow(x),
    decreases l.len(),
{
    if l.len() == 0 {
        assert(l.push(x)[0] == x);
        assert(l.push(x).drop_first() =~= Seq::<SlowPathV>::empty());
        assert(spec_enc_slow_seq(l.push(x)) == spec_enc_slow(x) + spec_enc_slow_seq(
            Seq::<SlowPathV>::empty(),
        ));
        assert(spec_enc_slow_seq(Seq::<SlowPathV>::empty()) == Seq::<u8>::empty());
        assert(spec_enc_slow(x) + Seq::<u8>::empty() =~= Seq::<u8>::empty() + spec_enc_slow(x));
        assert(spec_enc_slow_seq(l) == Seq::<u8>::empty());
    } else {
        assert(l.push(x).drop_first() =~= l.drop_first().push(x));
        lemma_enc_slow_seq_push(l.drop_first(), x);
        assert(spec_enc_slow_seq(l.push(x)) =~= spec_enc_slow_seq(l) + spec_enc_slow(x));
    }
}

pub proof fn lemma_slow_seq_roundtrip(l: Seq<SlowPathV>, rest: Seq<u8>)
    requires
        forall|i: int| 0 <= i < l.len() ==> slow_wf(#[trigger] l[i]),
    ensures
        spec_parse_slow_seq(spec_enc_slow_seq(l) + rest, l.len() as nat) == Some(
            (l, spec_enc_slow_seq(l).len() as int),
        ),
    decreases l.len(),
{
    if l.len() == 0 {
        assert(spec_enc_slow_seq(l) =~= Seq::<u8>::empty());
    } else {
        let s = spec_enc_slow_seq(l) + rest;
        let tail = spec_enc_slow_seq(l.drop_first()) + rest;
        assert(s =~= spec_enc_slow(l[0]) + tail);
        lemma_slow_roundtrip(l[0], tail);
        let c = spec_enc_slow(l[0]).len() as int;
        assert(s.subrange(c, s.len() as int) =~= tail);
        lemma_slow_seq_roundtrip(l.drop_first(), rest);
        assert(seq![l[0]] + l.drop_first() =~= l);
    }
}

pub proof fn lemma_enc_slow_seq_len(l: Seq<SlowPathV>)
    ensures
        spec_enc_slow_seq(l).len() >= l.len(),
    decreases l.len(),
{
    if l.len() > 0 {
        lemma_enc_slow_seq_len(l.drop_first());
        lemma_enc_slow_len(l[0]);
    }
}

pub proof fn lemma_slow_list_roundtrip(l: Seq<SlowPathV>, rest: Seq<u8>)
    requires
        slow_list_wf(l),
    ensures
        spec_parse_slow_list(spec_enc_slow_list(l) + rest) == Some(
            (l, spec_enc_slow_list(l).len() as int),
        ),
{
    let s = spec_enc_slow_list(l) + rest;
    let tail = spec_enc_slow_seq(l) + rest;
    assert(s =~= spec_varint(l.len() as u64) + tail);
    lemma_varint_roundtrip(l.len() as u64, tail);
    let c = spec_varint(l.len() as u64).len() as int;
    assert(s.subrange(c, s.len() as int) =~= tail);
    lemma_enc_slow_seq_len(l);
    lemma_slow_seq_roundtrip(l, rest);
}

/// Appends a list field: varint count, then each entry.
pub fn enc_slow_list(out: &mut Vec<u8>, l: &Vec<SlowPath>)
    ensures
        final(out)@ == old(out)@ + spec_enc_slow_list(l.deep_view()),
{
    enc_varint(out, l.len() as u64);
    let ghost lv = l.deep_view();
    assert(lv.len() == l@.len());
    let mut k: usize = 0;
    while k < l.len()
        invariant
            k <= l.len(),
            lv == l.deep_view(),
            lv.len() == l@.len(),
            out@ == old(out)@ + spec_varint(lv.len() as u64) + spec_enc_slow_seq(
                lv.subrange(0, k as int),
            ),
        decreases l.len() - k,
    {
        let ghost pre = lv.subrange(0, k as int);
        enc_slow(out, &l[k]);
        proof {
            assert(lv[k as int] == l@[k as int].deep_view());
            lemma_enc_slow_seq_push(pre, lv[k as int]);
            assert(pre.push(lv[k as int]) =~= lv.subrange(0, k + 1 as int));
        }
        k = k + 1;
    }
    assert(lv.subrange(0, lv.len() as int) =~= lv);
}

/// Reads a list field from `buf` starting at `i`.
pub fn dec_slow_list(buf: &Vec<u8>, i: usize) -> (r: Option<(Vec<SlowPath>, usize)>)
    requires
        i <= buf.len(),
    ensures
        ({
            let p = spec_parse_slow_list(buf@.subrange(i as int, buf@.len() as int));
            match r {
                None => p is None,
                Some((v, j)) => i < j <= buf.len() && p == Some((v.deep_view(), j - i)),
            }
        }),
{
    let ghost s = buf@.subrange(i as int, buf@.len() as int);
    match dec_varint(buf, i) {
        None => None,
        Some((n, c)) => {
            if n > (buf.len() - c) as u64 {
                return None;
            }
            let count: usize = n as usize;
            let mut acc: Vec<SlowPath> = Vec::new();
            let mut j: usize = c;
            let mut k: usize = 0;
            proof {
                assert(s.subrange((c - i) as int, s.len() as int) =~= buf@.subrange(
                    c as int,
                    buf@.len() as int,
                ));
            }
            while k < count
                invariant
                    s == buf@.subrange(i as int, buf@.len() as int),
                    i < c <= j <= buf.len(),
                    k <= count,
                    count == n,
                    n <= s.len() - (c - i),
                    spec_parse_varint(s) == Some((n, c - i)),
                    acc.deep_view().len() == k,
                    ({
                        let whole = spec_parse_slow_seq(
                            s.subrange((c - i) as int, s.len() as int),
                            n as nat,
                        );
                        let remain = spec_parse_slow_seq(
                            buf@.subrange(j as int, buf@.len() as int),
                            (n - k) as nat,
                        );
                        match remain {
                            None => whole is None,
                            Some((l2, c2)) => whole == Some(
                                (acc.deep_view() + l2, (j - c) + c2),
                            ),
                        }
                    }),
                decreases count - k,
            {
                let ghost tail_j = buf@.subrange(j as int, buf@.len() as int);
                match dec_slow(buf, j) {
                    None => {
                        proof {
                            assert(k < n);
                            assert((n - k) as nat != 0);
                            assert(spec_parse_slow(tail_j) is None);
                            assert(spec_parse_slow_seq(tail_j, (n - k) as nat) is None);
                            assert(spec_parse_slow_seq(
                                s.subrange((c - i) as int, s.len() as int),
                                n as nat,
                            ) is None);
                            assert(s.len() == buf@.len() - i);
                            assert(spec_parse_varint(s) == Some((n, (c - i) as int)));
                            assert(spec_parse_slow_list(s) is None);
                        }
                        return None;
                    },
                    Some((v, j2)) => {
                        proof {
                            let c1 = j2 - j;
                            assert(tail_j.subrange(c1 as int, tail_j.len() as int) =~= buf@
                                .subrange(j2 as int, buf@.len() as int));
                            assert(acc.deep_view().push(v.deep_view()) =~= acc.deep_view() + seq![
                                v.deep_view(),
                            ]);
                        }
                        let ghost old_acc = acc.deep_view();
                        let ghost vv = v.deep_view();
                        acc.push(v);
                        proof {
                            assert(acc.deep_view() =~= old_acc.push(vv));
                            assert(forall|l2: Seq<SlowPathV>| (seq![vv] + l2).drop_first() =~= l2);
                            assert(forall|l2: Seq<SlowPathV>|
                                old_acc + (seq![vv] + l2) =~= (old_acc.push(vv)) + l2);
                        }
                        j = j2;
                    },
                }
                k = k + 1;
            }
            proof {
                assert(spec_parse_slow_seq(
                    buf@.subrange(j as int, buf@.len() as int),
                    0,
                ) == Some((Seq::<SlowPathV>::empty(), 0int)));
                assert(acc.deep_view() + Seq::<SlowPathV>::empty() =~= acc.deep_view());
            }
            Some((acc, j))
        },
    }
}


// ---------------------------------------------------------------------------
// lists of job_info: varint count, then each entry in order
// ---------------------------------------------------------------------------

pub open spec fn job_info_list_wf(l: Seq<JobInfoV>) -> bool {
    &&& l.len() <= 0xffff_ffff_ffff_ffffu64
    &&& forall|i: int| 0 <= i < l.len() ==> job_info_wf(#[trigger] l[i])
}

pub open spec fn spec_enc_job_info_seq(l: Seq<JobInfoV>) -> Seq<u8>
    decreases l.len(),
{
    if l.len() == 0 {
        Seq::empty()
    } else {
        spec_enc_job_info(l[0]) + spec_enc_job_info_seq(l.drop_first())
    }
}

pub open spec fn spec_enc_job_info_list(l: Seq<JobInfoV>) -> Seq<u8> {
    spec_varint(l.len() as u64) + spec_enc_job_info_seq(l)
}

pub open spec fn spec_parse_job_info_seq(s: Seq<u8>, n: nat) -> Option<(Seq<JobInfoV>, int)>
    decreases n,
{
    if n == 0 {
        Some((Seq::empty(), 0))
    } else {
        match spec_parse_job_info(s) {
            None => None,
            Some((v, c)) => {
                match spec_parse_job_info_seq(s.subrange(c, s.len() as int), (n - 1) as nat) {
                    None => None,
                    Some((l, c2)) => Some((seq![v] + l, c + c2)),
                }
            },
        }
    }
}

pub open spec fn spec_parse_job_info_list(s: Seq<u8>) -> Option<(Seq<JobInfoV>, int)> {
    match spec_parse_varint(s) {
        None => None,
        Some((n, c)) => {
            if n <= s.len() - c {
                match spec_parse_job_info_seq(s.subrange(c, s.len() as int), n as nat) {
                    None => None,
                    Some((l, c2)) => Some((l, c + c2)),
                }
            } else {
                None
            }
        },
    }
}

pub proof fn lemma_enc_job_info_seq_push(l: Seq<JobInfoV>, x: JobInfoV)
    ensures
        spec_enc_job_info_seq(l.push(x)) == spec_enc_job_info_seq(l) + spec_enc_job_info(x),
    decreases l.len(),
{
    if l.len() == 0 {
        assert(l.push(x)[0] == x);
        assert(l.push(x).drop_first() =~= Seq::<JobInfoV>::empty());
        assert(spec_enc_job_info_seq(l.push(x)) == spec_enc_job_info(x) + spec_enc_job_info_seq(
            Seq::<JobInfoV>::empty(),
        ));
        assert(spec_enc_job_info_seq(Seq::<JobInfoV>::empty()) == Seq::<u8>::empty());
        assert(spec_enc_job_info(x) + Seq::<u8>::empty() =~= Seq::<u8>::empty() + spec_enc_job_info(x));
        assert(spec_enc_job_info_seq(l) == Seq::<u8>::empty());
    } else {
        assert(l.push(x).drop_first() =~= l.drop_first().push(x));
        lemma_enc_job_info_seq_push(l.drop_first(), x);
        assert(spec_enc_job_info_seq(l.push(x)) =~= spec_enc_job_info_seq(l) + spec_enc_job_info(x));
    }
}

pub proof fn lemma_job_info_seq_roundtrip(l: Seq<JobInfoV>, rest: Seq<u8>)
    requires
        forall|i: int| 0 <= i < l.len() ==> job_info_wf(#[trigger] l[i]),
    ensures
        spec_parse_job_info_seq(spec_enc_job_info_seq(l) + rest, l.len() as nat) == Some(
            (l, spec_enc_job_info_seq(l).len() as int),
        ),
    decreases l.len(),
{
    if l.len() == 0 {
        assert(spec_enc_job_info_seq(l) =~= Seq::<u8>::empty());
    } else {
        let s = spec_enc_job_info_seq(l) + rest;
        let tail = spec_enc_job_info_seq(l.drop_first()) + rest;
        assert(s =~= spec_enc_job_info(l[0]) + tail);
        lemma_job_info_roundtrip(l[0], tail);
        let c = spec_enc_job_info(l[0]).len() as int;
        assert(s.subrange(c, s.len() as int) =~= tail);
        lemma_job_info_seq_roundtrip(l.drop_first(), rest);
        assert(seq![l[0]] + l.drop_first() =~= l);
    }
}

pub proof fn lemma_enc_job_info_seq_len(l: Seq<JobInfoV>)
    ensures
        spec_enc_job_info_seq(l).len() >= l.len(),
    decreases l.len(),
{
    if l.len() > 0 {
        lemma_enc_job_info_seq_len(l.drop_first());
        lemma_enc_job_info_len(l[0]);
    }
}

pub proof fn lemma_job_info_list_roundtrip(l: Seq<JobInfoV>, rest: Seq<u8>)
    requires
        job_info_list_wf(l),
    ensures
        spec_parse_job_info_list(spec_enc_job_info_list(l) + rest) == Some(
            (l, spec_enc_job_info_list(l).len() as int),
        ),
{
    let s = spec_enc_job_info_list(l) + rest;
    let tail = spec_enc_job_info_seq(l) + rest;
    assert(s =~= spec_varint(l.len() as u64) + tail);
    lemma_varint_roundtrip(l.len() as u64, tail);
    let c = spec_varint(l.len() as u64).len() as int;
    assert(s.subrange(c, s.len() as int) =~= tail);
    lemma_enc_job_info_seq_len(l);
    lemma_job_info_seq_roundtrip(l, rest);
}

/// Appends a list field: varint count, then each entry.
pub fn enc_job_info_list(out: &mut Vec<u8>, l: &Vec<JobInfo>)
    ensures
        final(out)@ == old(out)@ + spec_enc_job_info_list(l.deep_view()),
{
    enc_varint(out, l.len() as u64);
    let ghost lv = l.deep_view();
    assert(lv.len() == l@.len());
    let mut k: usize = 0;
    while k < l.len()
        invariant
            k <= l.len(),
            lv == l.deep_view(),
            lv.len() == l@.len(),
            out@ == old(out)@ + spec_varint(lv.len() as u64) + spec_enc_job_info_seq(
                lv.subrange(0, k as int),
            ),
        decreases l.len() - k,
    {
        let ghost pre = lv.subrange(0, k as int);
        enc_job_info(out, &l[k]);
        proof {
            assert(lv[k as int] == l@[k as int].deep_view());
            lemma_enc_job_info_seq_push(pre, lv[k as int]);
            assert(pre.push(lv[k as int]) =~= lv.subrange(0, k + 1 as int));
        }
        k = k + 1;
    }
    assert(lv.subrange(0, lv.len() as int) =~= lv);
}

/// Reads a list field from `buf` starting at `i`.
#[verifier::rlimit(100)]
pub fn dec_job_info_list(buf: &Vec<u8>, i: usize) -> (r: Option<(Vec<JobInfo>, usize)>)
    requires
        i <= buf.len(),
    ensures
        ({
            let p = spec_parse_job_info_list(buf@.subrange(i as int, buf@.len() as int));
            match r {
                None => p is None,
                Some((v, j)) => i < j <= buf.len() && p == Some((v.deep_view(), j - i)),
            }
        }),
{
    let ghost s = buf@.subrange(i as int, buf@.len() as int);
    match dec_varint(buf, i) {
        None => None,
        Some((n, c)) => {
            if n > (buf.len() - c) as u64 {
                return None;
            }
            let count: usize = n as usize;
            let mut acc: Vec<JobInfo> = Vec::new();
            let mut j: usize = c;
            let mut k: usize = 0;
            proof {
                assert(s.subrange((c - i) as int, s.len() as int) =~= buf@.subrange(
                    c as int,
                    buf@.len() as int,
                ));
            }
            while k < count
                invariant
                    s == buf@.subrange(i as int, buf@.len() as int),
                    i < c <= j <= buf.len(),
                    k <= count,
                    count == n,
                    n <= s.len() - (c - i),
                    spec_parse_varint(s) == Some((n, c - i)),
                    acc.deep_view().len() == k,
                    ({
                        let whole = spec_parse_job_info_seq(
                            s.subrange((c - i) as int, s.len() as int),
                            n as nat,
                        );
                        let remain = spec_parse_job_info_seq(
                            buf@.subrange(j as int, buf@.len() as int),
                            (n - k) as nat,
                        );
                        match remain {
                            None => whole is None,
                            Some((l2, c2)) => whole == Some(
                                (acc.deep_view() + l2, (j - c) + c2),
                            ),
                        }
                    }),
                decreases count - k,
            {
                let ghost tail_j = buf@.subrange(j as int, buf@.len() as int);
                match dec_job_info(buf, j) {
                    None => {
                        proof {
                            assert(k < n);
                            assert((n - k) as nat != 0);
                            assert(spec_parse_job_info(tail_j) is None);
                            assert(spec_parse_job_info_seq(tail_j, (n - k) as nat) is None);
                            assert(spec_parse_job_info_seq(
                                s.subrange((c - i) as int, s.len() as int),
                                n as nat,
                            ) is None);
                            assert(s.len() == buf@.len() - i);
                            assert(spec_parse_varint(s) == Some((n, (c - i) as int)));
                            assert(spec_parse_job_info_list(s) is None);
                        }
                        return None;
                    },
                    Some((v, j2)) => {
                        proof {
                            let c1 = j2 - j;
                            assert(tail_j.subrange(c1 as int, tail_j.len() as int) =~= buf@
                                .subrange(j2 as int, buf@.len() as int));
                            assert(acc.deep_view().push(v.deep_view()) =~= acc.deep_view() + seq![
                                v.deep_view(),
                            ]);
                        }
                        let ghost old_acc = acc.deep_view();
                        let ghost vv = v.deep_view();
                        acc.push(v);
                        proof {
                            assert(acc.deep_view() =~= old_acc.push(vv));
                            assert(forall|l2: Seq<JobInfoV>| (seq![vv] + l2).drop_first() =~= l2);
                            assert(forall|l2: Seq<JobInfoV>|
                                old_acc + (seq![vv] + l2) =~= (old_acc.push(vv)) + l2);
                        }
                        j = j2;
                    },
                }
                k = k + 1;
            }
            proof {
                assert(spec_parse_job_info_seq(
                    buf@.subrange(j as int, buf@.len() as int),
                    0,
                ) == Some((Seq::<JobInfoV>::empty(), 0int)));
                assert(acc.deep_view() + Seq::<JobInfoV>::empty() =~= acc.deep_view());
            }
            Some((acc, j))
        },
    }
}


// ---------------------------------------------------------------------------
// response payloads
// ---------------------------------------------------------------------------

/// Answer to a job-creation request. An empty `job_id` means "unset"; a
/// non-empty `error` reports failure.
pub struct CreateJobResponse {
    pub job_id: String,
    pub error: String,
}

/// Mathematical image of a `CreateJobResponse`.
pub struct CreateJobResponseV {
    pub job_id: Seq<char>,
    pub error: Seq<char>,
}

impl View for CreateJobResponse {
    type V = CreateJobResponseV;

    open spec fn view(&self) -> CreateJobResponseV {
        CreateJobResponseV { job_id: self.job_id@, error: self.error@ }
    }
}

pub open spec fn create_job_resp_wf(v: CreateJobResponseV) -> bool {
    str_wf(v.job_id) && str_wf(v.error)
}

#[verifier::opaque]
pub open spec fn spec_enc_create_job_resp(v: CreateJobResponseV) -> Seq<u8> {
    spec_enc_str(v.job_id) + spec_enc_str(v.error)
}

#[verifier::opaque]
pub open spec fn spec_parse_create_job_resp(s: Seq<u8>) -> Option<(CreateJobResponseV, int)> {
    match spec_parse_str(s) {
        None => None,
        Some((job_id, c1)) => match spec_parse_str(s.subrange(c1, s.len() as int)) {
            None => None,
            Some((error, c2)) => Some((CreateJobResponseV { job_id, error }, c1 + c2)),
        },
    }
}

pub proof fn lemma_create_job_resp_roundtrip(v: CreateJobResponseV, rest: Seq<u8>)
    requires
        create_job_resp_wf(v),
    ensures
        spec_parse_create_job_resp(spec_enc_create_job_resp(v) + rest) == Some(
            (v, spec_enc_create_job_resp(v).len() as int),
        ),
{
    reveal(spec_enc_create_job_resp);
    reveal(spec_parse_create_job_resp);
    let e1 = spec_enc_str(v.job_id);
    let t1 = spec_enc_str(v.error) + rest;
    let s = spec_enc_create_job_resp(v) + rest;
    assert(s =~= e1 + t1);
    lemma_str_roundtrip(v.job_id, t1);
    lemma_drop_prefix(e1, t1);
    lemma_str_roundtrip(v.error, rest);
}

impl CreateJobResponse {
    pub fn encode_onto(&self, out: &mut Vec<u8>)
        ensures
            final(out)@ == old(out)@ + spec_enc_create_job_resp(self@),
    {
        proof {
            reveal(spec_enc_create_job_resp);
        }
        enc_str(out, &self.job_id);
        enc_str(out, &self.error);
        assert(final(out)@ =~= old(out)@ + spec_enc_create_job_resp(self@));
    }

    pub fn decode_from(buf: &Vec<u8>, i: usize) -> (r: Option<(CreateJobResponse, usize)>)
        requires
            i <= buf.len(),
        ensures
            ({
                let p = spec_parse_create_job_resp(buf@.subrange(i as int, buf@.len() as int));
                match r {
                    None => p is None,
                    Some((m, j)) => i <= j <= buf.len() && p == Some((m@, j - i)),
                }
            }),
    {
        proof {
            reveal(spec_parse_create_job_resp);
        }
        let ghost s = buf@.subrange(i as int, buf@.len() as int);
        let (job_id, j1) = match dec_str(buf, i) {
            None => { return None; },
            Some(x) => x,
        };
        proof {
            assert(s.subrange((j1 - i) as int, s.len() as int) =~= buf@.subrange(
                j1 as int,
                buf@.len() as int,
            ));
        }
        let (error, j2) = match dec_str(buf, j1) {
            None => { return None; },
            Some(x) => x,
        };
        Some((CreateJobResponse { job_id, error }, j2))
    }
}

/// Answer to a cancel, pause or resume request.
pub struct OpResponse {
    pub success: bool,
    pub error: String,
}

/// Mathematical image of an `OpResponse`.
pub struct OpResponseV {
    pub success: bool,
    pub error: Seq<char>,
}

impl View for OpResponse {
    type V = OpResponseV;

    open spec fn view(&self) -> OpResponseV {
        OpResponseV { success: self.success, error: self.error@ }
    }
}

pub open spec fn op_resp_wf(v: OpResponseV) -> bool {
    str_wf(v.error)
}

#[verifier::opaque]
pub open spec fn spec_enc_op_resp(v: OpResponseV) -> Seq<u8> {
    spec_enc_bool(v.success) + spec_enc_str(v.error)
}

#[verifier::opaque]
pub open spec fn spec_parse_op_resp(s: Seq<u8>) -> Option<(OpResponseV, int)> {
    match spec_parse_bool(s) {
        None => None,
        Some((success, c1)) => match spec_parse_str(s.subrange(c1, s.len() as int)) {
            None => None,
            Some((error, c2)) => Some((OpResponseV { success, error }, c1 + c2)),
        },
    }
}

pub proof fn lemma_op_resp_roundtrip(v: OpResponseV, rest: Seq<u8>)
    requires
        op_resp_wf(v),
    ensures
        spec_parse_op_resp(spec_enc_op_resp(v) + rest) == Some(
            (v, spec_enc_op_resp(v).len() as int),
        ),
{
    reveal(spec_enc_op_resp);
    reveal(spec_parse_op_resp);
    let e1 = spec_enc_bool(v.success);
    let t1 = spec_enc_str(v.error) + rest;
    let s = spec_enc_op_resp(v) + rest;
    assert(s =~= e1 + t1);
    lemma_bool_roundtrip(v.success, t1);
    lemma_drop_prefix(e1, t1);
    lemma_str_roundtrip(v.error, rest);
}

impl OpResponse {
    pub fn encode_onto(&self, out: &mut Vec<u8>)
        ensures
            final(out)@ == old(out)@ + spec_enc_op_resp(self@),
    {
        proof {
            reveal(spec_enc_op_resp);
        }
        enc_bool(out, self.success);
        enc_str(out, &self.error);
        assert(final(out)@ =~= old(out)@ + spec_enc_op_resp(self@));
    }

    pub fn decode_from(buf: &Vec<u8>, i: usize) -> (r: Option<(OpResponse, usize)>)
        requires
            i <= buf.len(),
        ensures
            ({
                let p = spec_parse_op_resp(buf@.subrange(i as int, buf@.len() as int));
                match r {
                    None => p is None,
                    Some((m, j)) => i <= j <= buf.len() && p == Some((m@, j - i)),
                }
            }),
    {
        proof {
            reveal(spec_parse_op_resp);
        }
        let ghost s = buf@.subrange(i as int, buf@.len() as int);
        let (success, j1) = match dec_bool(buf, i) {
            None => { return None; },
            Some(x) => x,
        };
        proof {
            assert(s.subrange((j1 - i) as int, s.len() as int) =~= buf@.subrange(
                j1 as int,
                buf@.len() as int,
            ));
        }
        let (error, j2) = match dec_str(buf, j1) {
            None => { return None; },
            Some(x) => x,
        };
        Some((OpResponse { success, error }, j2))
    }
}

/// Answer to a status query. A non-empty `error` reports failure.
pub struct JobStatusResponse {
    pub job_id: String,
    pub progress: Option<Progress>,
    pub error: String,
    pub log_entries: Vec<String>,
}

/// Mathematical image of a `JobStatusResponse`.
pub struct JobStatusResponseV {
    pub job_id: Seq<char>,
    pub progress: Option<Progress>,
    pub error: Seq<char>,
    pub log_entries: Seq<Seq<char>>,
}

impl View for JobStatusResponse {
    type V = JobStatusResponseV;

    open spec fn view(&self) -> JobStatusResponseV {
        JobStatusResponseV {
            job_id: self.job_id@,
            progress: self.progress,
            error: self.error@,
            log_entries: self.log_entries.deep_view(),
        }
    }
}

pub open spec fn job_status_resp_wf(v: JobStatusResponseV) -> bool {
    &&& str_wf(v.job_id)
    &&& str_wf(v.error)
    &&& str_list_wf(v.log_entries)
}

#[verifier::opaque]
pub open spec fn spec_enc_job_status_resp(v: JobStatusResponseV) -> Seq<u8> {
    spec_enc_str(v.job_id) + spec_enc_opt_progress(v.progress) + spec_enc_str(v.error)
        + spec_enc_str_list(v.log_entries)
}

#[verifier::opaque]
pub open spec fn spec_parse_job_status_resp(s: Seq<u8>) -> Option<(JobStatusResponseV, int)> {
    match spec_parse_str(s) {
        None => None,
        Some((job_id, c1)) => match spec_parse_opt_progress(s.subrange(c1, s.len() as int)) {
            None => None,
            Some((progress, c2)) => match spec_parse_str(s.subrange(c1 + c2, s.len() as int)) {
                None => None,
                Some((error, c3)) => match spec_parse_str_list(
                    s.subrange(c1 + c2 + c3, s.len() as int),
                ) {
                    None => None,
                    Some((log_entries, c4)) => Some(
                        (
                            JobStatusResponseV { job_id, progress, error, log_entries },
                            c1 + c2 + c3 + c4,
                        ),
                    ),
                },
            },
        },
    }
}

#[verifier::rlimit(100)]
#[verifier::spinoff_prover]
pub proof fn lemma_job_status_resp_roundtrip(v: JobStatusResponseV, rest: Seq<u8>)
    requires
        job_status_resp_wf(v),
    ensures
        spec_parse_job_status_resp(spec_enc_job_status_resp(v) + rest) == Some(
            (v, spec_enc_job_status_resp(v).len() as int),
        ),
{
    reveal(spec_enc_job_status_resp);
    reveal(spec_parse_job_status_resp);
    let e1 = spec_enc_str(v.job_id);
    let e2 = spec_enc_opt_progress(v.progress);
    let e3 = spec_enc_str(v.error);
    let e4 = spec_enc_str_list(v.log_entries);
    let t4 = rest;
    let t3 = e4 + t4;
    let t2 = e3 + t3;
    let t1 = e2 + t2;
    let p1 = e1;
    let p2 = p1 + e2;
    let p3 = p2 + e3;
    let p4 = p3 + e4;
    let s = spec_enc_job_status_resp(v) + rest;
    assert(spec_enc_job_status_resp(v) == p4);
    lemma_concat_associative(p3, e4, t4);
    lemma_concat_associative(p2, e3, t3);
    lemma_concat_associative(p1, e2, t2);
    assert(s == p1 + t1);
    lemma_str_roundtrip(v.job_id, t1);
    lemma_drop_prefix(p1, t1);
    lemma_opt_progress_roundtrip(v.progress, t2);
    lemma_drop_prefix(p2, t2);
    lemma_str_roundtrip(v.error, t3);
    lemma_drop_prefix(p3, t3);
    lemma_str_list_roundtrip(v.log_entries, t4);
}

impl JobStatusResponse {
    #[verifier::rlimit(100)]
    pub fn encode_onto(&self, out: &mut Vec<u8>)
        ensures
            final(out)@ == old(out)@ + spec_enc_job_status_resp(self@),
    {
        proof {
            reveal(spec_enc_job_status_resp);
        }
        let ghost o = out@;
        let ghost e1 = spec_enc_str(self.job_id@);
        let ghost e2 = spec_enc_opt_progress(self.progress);
        let ghost e3 = spec_enc_str(self.error@);
        let ghost e4 = spec_enc_str_list(self.log_entries.deep_view());
        enc_str(out, &self.job_id);
        enc_opt_progress(out, &self.progress);
        enc_str(out, &self.error);
        enc_str_list(out, &self.log_entries);
        proof {
            lemma_concat_associative(o, e1, e2);
            lemma_concat_associative(o, e1 + e2, e3);
            lemma_concat_associative(o, e1 + e2 + e3, e4);
        }
    }

    #[verifier::rlimit(100)]
    pub fn decode_from(buf: &Vec<u8>, i: usize) -> (r: Option<(JobStatusResponse, usize)>)
        requires
            i <= buf.len(),
        ensures
            ({
                let p = spec_parse_job_status_resp(buf@.subrange(i as int, buf@.len() as int));
                match r {
                    None => p is None,
                    Some((m, j)) => i <= j <= buf.len() && p == Some((m@, j - i)),
                }
            }),
    {
        proof {
            reveal(spec_parse_job_status_resp);
        }
        let ghost s = buf@.subrange(i as int, buf@.len() as int);
        let (job_id, j1) = match dec_str(buf, i) {
            None => { return None; },
            Some(x) => x,
        };
        proof {
            assert(s.subrange((j1 - i) as int, s.len() as int) =~= buf@.subrange(
                j1 as int,
                buf@.len() as int,
            ));
        }
        let (progress, j2) = match dec_opt_progress(buf, j1) {
            None => { return None; },
            Some(x) => x,
        };
        proof {
            assert(s.subrange((j2 - i) as int, s.len() as int) =~= buf@.subrange(
                j2 as int,
                buf@.len() as int,
            ));
        }
        let (error, j3) = match dec_str(buf, j2) {
            None => { return None; },
            Some(x) => x,
        };
        proof {
            assert(s.subrange((j3 - i) as int, s.len() as int) =~= buf@.subrange(
                j3 as int,
                buf@.len() as int,
            ));
        }
        let (log_entries, j4) = match dec_str_list(buf, j3) {
            None => { return None; },
            Some(x) => x,
        };
        Some((JobStatusResponse { job_id, progress, error, log_entries }, j4))
    }
}

/// Answer to a listing request.
pub struct ListJobsResponse {
    pub jobs: Vec<JobInfo>,
}

/// Mathematical image of a `ListJobsResponse`.
pub struct ListJobsResponseV {
    pub jobs: Seq<JobInfoV>,
}

impl View for ListJobsResponse {
    type V = ListJobsResponseV;

    open spec fn view(&self) -> ListJobsResponseV {
        ListJobsResponseV { jobs: self.jobs.deep_view() }
    }
}

pub open spec fn list_jobs_resp_wf(v: ListJobsResponseV) -> bool {
    job_info_list_wf(v.jobs)
}

#[verifier::opaque]
pub open spec fn spec_enc_list_jobs_resp(v: ListJobsResponseV) -> Seq<u8> {
    spec_enc_job_info_list(v.jobs)
}

#[verifier::opaque]
pub open spec fn spec_parse_list_jobs_resp(s: Seq<u8>) -> Option<(ListJobsResponseV, int)> {
    match spec_parse_job_info_list(s) {
        None => None,
        Some((jobs, c)) => Some((ListJobsResponseV { jobs }, c)),
    }
}

pub proof fn lemma_list_jobs_resp_roundtrip(v: ListJobsResponseV, rest: Seq<u8>)
    requires
        list_jobs_resp_wf(v),
    ensures
        spec_parse_list_jobs_resp(spec_enc_list_jobs_resp(v) + rest) == Some(
            (v, spec_enc_list_jobs_resp(v).len() as int),
        ),
{
    reveal(spec_enc_list_jobs_resp);
    reveal(spec_parse_list_jobs_resp);
    lemma_job_info_list_roundtrip(v.jobs, rest);
}

impl ListJobsResponse {
    pub fn encode_onto(&self, out: &mut Vec<u8>)
        ensures
            final(out)@ == old(out)@ + spec_enc_list_jobs_resp(self@),
    {
        proof {
            reveal(spec_enc_list_jobs_resp);
        }
        enc_job_info_list(out, &self.jobs);
    }

    pub fn decode_from(buf: &Vec<u8>, i: usize) -> (r: Option<(ListJobsResponse, usize)>)
        requires
            i <= buf.len(),
        ensures
            ({
                let p = spec_parse_list_jobs_resp(buf@.subrange(i as int, buf@.len() as int));
                match r {
                    None => p is None,
                    Some((m, j)) => i <= j <= buf.len() && p == Some((m@, j - i)),
                }
            }),
    {
        proof {
            reveal(spec_parse_list_jobs_resp);
        }
        match dec_job_info_list(buf, i) {
            None => None,
            Some((jobs, j)) => Some((ListJobsResponse { jobs }, j)),
        }
    }
}

/// Answer to a statistics request.
pub struct StatsResponse {
    pub total_bytes_copied: u64,
    pub total_files_copied: u64,
    pub total_jobs: u64,
    pub daily_stats: Vec<DailyStat>,
    pub slow_paths: Vec<SlowPath>,
}

/// Mathematical image of a `StatsResponse`.
pub struct StatsResponseV {
    pub total_bytes_copied: u64,
    pub total_files_copied: u64,
    pub total_jobs: u64,
    pub daily_stats: Seq<DailyStatV>,
    pub slow_paths: Seq<SlowPathV>,
}

impl View for StatsResponse {
    type V = StatsResponseV;

    open spec fn view(&self) -> StatsResponseV {
        StatsResponseV {
            total_bytes_copied: self.total_bytes_copied,
            total_files_copied: self.total_files_copied,
            total_jobs: self.total_jobs,
            daily_stats: self.daily_stats.deep_view(),
            slow_paths: self.slow_paths.deep_view(),
        }
    }
}

pub open spec fn stats_resp_wf(v: StatsResponseV) -> bool {
    &&& daily_list_wf(v.daily_stats)
    &&& slow_list_wf(v.slow_paths)
}

#[verifier::opaque]
pub open spec fn spec_enc_stats_resp(v: StatsResponseV) -> Seq<u8> {
    spec_varint(v.total_bytes_copied) + spec_varint(v.total_files_copied) + spec_varint(
        v.total_jobs,
    ) + spec_enc_daily_list(v.daily_stats) + spec_enc_slow_list(v.slow_paths)
}

#[verifier::opaque]
pub open spec fn spec_parse_stats_resp(s: Seq<u8>) -> Option<(StatsResponseV, int)> {
    match spec_parse_varint(s) {
        None => None,
        Some((total_bytes_copied, c1)) => match spec_parse_varint(
            s.subrange(c1, s.len() as int),
        ) {
            None => None,
            Some((total_files_copied, c2)) => match spec_parse_varint(
                s.subrange(c1 + c2, s.len() as int),
            ) {
                None => None,
                Some((total_jobs, c3)) => match spec_parse_daily_list(
                    s.subrange(c1 + c2 + c3, s.len() as int),
                ) {
                    None => None,
                    Some((daily_stats, c4)) => match spec_parse_slow_list(
                        s.subrange(c1 + c2 + c3 + c4, s.len() as int),
                    ) {
                        None => None,
                        Some((slow_paths, c5)) => Some(
                            (
                                StatsResponseV {
                                    total_bytes_copied,
                                    total_files_copied,
                                    total_jobs,
                                    daily_stats,
                                    slow_paths,
                                },
                                c1 + c2 + c3 + c4 + c5,
                            ),
                        ),
                    },
                },
            },
        },
    }
}

#[verifier::rlimit(100)]
#[verifier::spinoff_prover]
pub proof fn lemma_stats_resp_roundtrip(v: StatsResponseV, rest: Seq<u8>)
    requires
        stats_resp_wf(v),
    ensures
        spec_parse_stats_resp(spec_enc_stats_resp(v) + rest) == Some(
            (v, spec_enc_stats_resp(v).len() as int),
        ),
{
    reveal(spec_enc_stats_resp);
    reveal(spec_parse_stats_resp);
    let e1 = spec_varint(v.total_bytes_copied);
    let e2 = spec_varint(v.total_files_copied);
    let e3 = spec_varint(v.total_jobs);
    let e4 = spec_enc_daily_list(v.daily_stats);
    let e5 = spec_enc_slow_list(v.slow_paths);
    let t5 = rest;
    let t4 = e5 + t5;
    let t3 = e4 + t4;
    let t2 = e3 + t3;
    let t1 = e2 + t2;
    let p1 = e1;
    let p2 = p1 + e2;
    let p3 = p2 + e3;
    let p4 = p3 + e4;
    let p5 = p4 + e5;
    let s = spec_enc_stats_resp(v) + rest;
    assert(spec_enc_stats_resp(v) == p5);
    lemma_concat_associative(p4, e5, t5);
    lemma_concat_associative(p3, e4, t4);
    lemma_concat_associative(p2, e3, t3);
    lemma_concat_associative(p1, e2, t2);
    assert(s == p1 + t1);
    lemma_varint_roundtrip(v.total_bytes_copied, t1);
    lemma_drop_prefix(p1, t1);
    lemma_varint_roundtrip(v.total_files_copied, t2);
    lemma_drop_prefix(p2, t2);
    lemma_varint_roundtrip(v.total_jobs, t3);
    lemma_drop_prefix(p3, t3);
    lemma_daily_list_roundtrip(v.daily_stats, t4);
    lemma_drop_prefix(p4, t4);
    lemma_slow_list_roundtrip(v.slow_paths, t5);
}

impl StatsResponse {
    #[verifier::rlimit(100)]
    pub fn encode_onto(&self, out: &mut Vec<u8>)
        ensures
            final(out)@ == old(out)@ + spec_enc_stats_resp(self@),
    {
        proof {
            reveal(spec_enc_stats_resp);
        }
        let ghost o = out@;
        let ghost e1 = spec_varint(self.total_bytes_copied);
        let ghost e2 = spec_varint(self.total_files_copied);
        let ghost e3 = spec_varint(self.total_jobs);
        let ghost e4 = spec_enc_daily_list(self.daily_stats.deep_view());
        let ghost e5 = spec_enc_slow_list(self.slow_paths.deep_view());
        enc_varint(out, self.total_bytes_copied);
        enc_varint(out, self.total_files_copied);
        enc_varint(out, self.total_jobs);
        enc_daily_list(out, &self.daily_stats);
        enc_slow_list(out, &self.slow_paths);
        proof {
            lemma_concat_associative(o, e1, e2);
            lemma_concat_associative(o, e1 + e2, e3);
            lemma_concat_associative(o, e1 + e2 + e3, e4);
            lemma_concat_associative(o, e1 + e2 + e3 + e4, e5);
        }
    }

    #[verifier::rlimit(100)]
    pub fn decode_from(buf: &Vec<u8>, i: usize) -> (r: Option<(StatsResponse, usize)>)
        requires
            i <= buf.len(),
        ensures
            ({
                let p = spec_parse_stats_resp(buf@.subrange(i as int, buf@.len() as int));
                match r {
                    None => p is None,
                    Some((m, j)) => i <= j <= buf.len() && p == Some((m@, j - i)),
                }
            }),
    {
        proof {
            reveal(spec_parse_stats_resp);
        }
        let ghost s = buf@.subrange(i as int, buf@.len() as int);
        let (total_bytes_copied, j1) = match dec_varint(buf, i) {
            None => { return None; },
            Some(x) => x,
        };
        proof {
            assert(s.subrange((j1 - i) as int, s.len() as int) =~= buf@.subrange(
                j1 as int,
                buf@.len() as int,
            ));
        }
        let (total_files_copied, j2) = match dec_varint(buf, j1) {
            None => { return None; },
            Some(x) => x,
        };
        proof {
            assert(s.subrange((j2 - i) as int, s.len() as int) =~= buf@.subrange(
                j2 as int,
                buf@.len() as int,
            ));
        }
        let (total_jobs, j3) = match dec_varint(buf, j2) {
            None => { return None; },
            Some(x) => x,
        };
        proof {
            assert(s.subrange((j3 - i) as int, s.len() as int) =~= buf@.subrange(
                j3 as int,
                buf@.len() as int,
            ));
        }
        let (daily_stats, j4) = match dec_daily_list(buf, j3) {
            None => { return None; },
            Some(x) => x,
        };
        proof {
            assert(s.subrange((j4 - i) as int, s.len() as int) =~= buf@.subrange(
                j4 as int,
                buf@.len() as int,
            ));
        }
        let (slow_paths, j5) = match dec_slow_list(buf, j4) {
            None => { return None; },
            Some(x) => x,
        };
        Some((
            StatsResponse {
                total_bytes_copied,
                total_files_copied,
                total_jobs,
                daily_stats,
                slow_paths,
            },
            j5,
        ))
    }
}

/// Answer to a health check.
pub struct HealthCheckResponse {
    pub healthy: bool,
    pub version: String,
    pub uptime_seconds: u64,
    pub active_jobs: u32,
    pub queued_jobs: u32,
    pub memory_usage_bytes: u64,
    /// Whole percentage points.
    pub cpu_usage_percent: u32,
}

/// Mathematical image of a `HealthCheckResponse`.
pub struct HealthCheckResponseV {
    pub healthy: bool,
    pub version: Seq<char>,
    pub uptime_seconds: u64,
    pub active_jobs: u32,
    pub queued_jobs: u32,
    pub memory_usage_bytes: u64,
    pub cpu_usage_percent: u32,
}

impl View for HealthCheckResponse {
    type V = HealthCheckResponseV;

    open spec fn view(&self) -> HealthCheckResponseV {
        HealthCheckResponseV {
            healthy: self.healthy,
            version: self.version@,
            uptime_seconds: self.uptime_seconds,
            active_jobs: self.active_jobs,
            queued_jobs: self.queued_jobs,
            memory_usage_bytes: self.memory_usage_bytes,
            cpu_usage_percent: self.cpu_usage_percent,
        }
    }
}

pub open spec fn health_resp_wf(v: HealthCheckResponseV) -> bool {
    str_wf(v.version)
}

#[verifier::opaque]
pub open spec fn spec_enc_health_resp(v: HealthCheckResponseV) -> Seq<u8> {
    spec_enc_bool(v.healthy) + spec_enc_str(v.version) + spec_varint(v.uptime_seconds)
        + spec_enc_u32(v.active_jobs) + spec_enc_u32(v.queued_jobs) + spec_varint(
        v.memory_usage_bytes,
    ) + spec_enc_u32(v.cpu_usage_percent)
}

#[verifier::opaque]
pub open spec fn spec_parse_health_resp(s: Seq<u8>) -> Option<(HealthCheckResponseV, int)> {
    match spec_parse_bool(s) {
        None => None,
        Some((healthy, c1)) => match spec_parse_str(s.subrange(c1, s.len() as int)) {
            None => None,
            Some((version, c2)) => match spec_parse_varint(s.subrange(c1 + c2, s.len() as int)) {
                None => None,
                Some((uptime_seconds, c3)) => match spec_parse_u32(
                    s.subrange(c1 + c2 + c3, s.len() as int),
                ) {
                    None => None,
                    Some((active_jobs, c4)) => match spec_parse_u32(
                        s.subrange(c1 + c2 + c3 + c4, s.len() as int),
                    ) {
                        None => None,
                        Some((queued_jobs, c5)) => match spec_parse_varint(
                            s.subrange(c1 + c2 + c3 + c4 + c5, s.len() as int),
                        ) {
                            None => None,
                            Some((memory_usage_bytes, c6)) => match spec_parse_u32(
                                s.subrange(c1 + c2 + c3 + c4 + c5 + c6, s.len() as int),
                            ) {
                                None => None,
                                Some((cpu_usage_percent, c7)) => Some(
                                    (
                                        HealthCheckResponseV {
                                            healthy,
                                            version,
                                            uptime_seconds,
                                            active_jobs,
                                            queued_jobs,
                                            memory_usage_bytes,
                                            cpu_usage_percent,
                                        },
                                        c1 + c2 + c3 + c4 + c5 + c6 + c7,
                                    ),
                                ),
                            },
                        },
                    },
                },
            },
        },
    }
}

#[verifier::rlimit(100)]
#[verifier::spinoff_prover]
pub proof fn lemma_health_resp_roundtrip(v: HealthCheckResponseV, rest: Seq<u8>)
    requires
        health_resp_wf(v),
    ensures
        spec_parse_health_resp(spec_enc_health_resp(v) + rest) == Some(
            (v, spec_enc_health_resp(v).len() as int),
        ),
{
    reveal(spec_enc_health_resp);
    reveal(spec_parse_health_resp);
    let e1 = spec_enc_bool(v.healthy);
    let e2 = spec_enc_str(v.version);
    let e3 = spec_varint(v.uptime_seconds);
    let e4 = spec_enc_u32(v.active_jobs);
    let e5 = spec_enc_u32(v.queued_jobs);
    let e6 = spec_varint(v.memory_usage_bytes);
    let e7 = spec_enc_u32(v.cpu_usage_percent);
    let t7 = rest;
    let t6 = e7 + t7;
    let t5 = e6 + t6;
    let t4 = e5 + t5;
    let t3 = e4 + t4;
    let t2 = e3 + t3;
    let t1 = e2 + t2;
    let p1 = e1;
    let p2 = p1 + e2;
    let p3 = p2 + e3;
    let p4 = p3 + e4;
    let p5 = p4 + e5;
    let p6 = p5 + e6;
    let p7 = p6 + e7;
    let s = spec_enc_health_resp(v) + rest;
    assert(spec_enc_health_resp(v) == p7);
    lemma_concat_associative(p6, e7, t7);
    lemma_concat_associative(p5, e6, t6);
    lemma_concat_associative(p4, e5, t5);
    lemma_concat_associative(p3, e4, t4);
    lemma_concat_associative(p2, e3, t3);
    lemma_concat_associative(p1, e2, t2);
    assert(s == p1 + t1);
    lemma_bool_roundtrip(v.healthy, t1);
    lemma_drop_prefix(p1, t1);
    lemma_str_roundtrip(v.version, t2);
    lemma_drop_prefix(p2, t2);
    lemma_varint_roundtrip(v.uptime_seconds, t3);
    lemma_drop_prefix(p3, t3);
    lemma_u32_roundtrip(v.active_jobs, t4);
    lemma_drop_prefix(p4, t4);
    lemma_u32_roundtrip(v.queued_jobs, t5);
    lemma_drop_prefix(p5, t5);
    lemma_varint_roundtrip(v.memory_usage_bytes, t6);
    lemma_drop_prefix(p6, t6);
    lemma_u32_roundtrip(v.cpu_usage_percent, t7);
}

impl HealthCheckResponse {
    #[verifier::rlimit(100)]
    pub fn encode_onto(&self, out: &mut Vec<u8>)
        ensures
            final(out)@ == old(out)@ + spec_enc_health_resp(self@),
    {
        proof {
            reveal(spec_enc_health_resp);
        }
        let ghost o = out@;
        let ghost e1 = spec_enc_bool(self.healthy);
        let ghost e2 = spec_enc_str(self.version@);
        let ghost e3 = spec_varint(self.uptime_seconds);
        let ghost e4 = spec_enc_u32(self.active_jobs);
        let ghost e5 = spec_enc_u32(self.queued_jobs);
        let ghost e6 = spec_varint(self.memory_usage_bytes);
        let ghost e7 = spec_enc_u32(self.cpu_usage_percent);
        enc_bool(out, self.healthy);
        enc_str(out, &self.version);
        enc_varint(out, self.uptime_seconds);
        enc_u32(out, self.active_jobs);
        enc_u32(out, self.queued_jobs);
        enc_varint(out, self.memory_usage_bytes);
        enc_u32(out, self.cpu_usage_percent);
        proof {
            lemma_concat_associative(o, e1, e2);
            lemma_concat_associative(o, e1 + e2, e3);
            lemma_concat_associative(o, e1 + e2 + e3, e4);
            lemma_concat_associative(o, e1 + e2 + e3 + e4, e5);
            lemma_concat_associative(o, e1 + e2 + e3 + e4 + e5, e6);
            lemma_concat_associative(o, e1 + e2 + e3 + e4 + e5 + e6, e7);
        }
    }

    #[verifier::rlimit(100)]
    pub fn decode_from(buf: &Vec<u8>, i: usize) -> (r: Option<(HealthCheckResponse, usize)>)
        requires
            i <= buf.len(),
        ensures
            ({
                let p = spec_parse_health_resp(buf@.subrange(i as int, buf@.len() as int));
                match r {
                    None => p is None,
                    Some((m, j)) => i <= j <= buf.len() && p == Some((m@, j - i)),
                }
            }),
    {
        proof {
            reveal(spec_parse_health_resp);
        }
        let ghost s = buf@.subrange(i as int, buf@.len() as int);
        let (healthy, j1) = match dec_bool(buf, i) {
            None => { return None; },
            Some(x) => x,
        };
        proof {
            assert(s.subrange((j1 - i) as int, s.len() as int) =~= buf@.subrange(
                j1 as int,
                buf@.len() as int,
            ));
        }
        let (version, j2) = match dec_str(buf, j1) {
            None => { return None; },
            Some(x) => x,
        };
        proof {
            assert(s.subrange((j2 - i) as int, s.len() as int) =~= buf@.subrange(
                j2 as int,
                buf@.len() as int,
            ));
        }
        let (uptime_seconds, j3) = match dec_varint(buf, j2) {
            None => { return None; },
            Some(x) => x,
        };
        proof {
            assert(s.subrange((j3 - i) as int, s.len() as int) =~= buf@.subrange(
                j3 as int,
                buf@.len() as int,
            ));
        }
        let (active_jobs, j4) = match dec_u32(buf, j3) {
            None => { return None; },
            Some(x) => x,
        };
        proof {
            assert(s.subrange((j4 - i) as int, s.len() as int) =~= buf@.subrange(
                j4 as int,
                buf@.len() as int,
            ));
        }
        let (queued_jobs, j5) = match dec_u32(buf, j4) {
            None => { return None; },
            Some(x) => x,
        };
        proof {
            assert(s.subrange((j5 - i) as int, s.len() as int) =~= buf@.subrange(
                j5 as int,
                buf@.len() as int,
            ));
        }
        let (memory_usage_bytes, j6) = match dec_varint(buf, j5) {
            None => { return None; },
            Some(x) => x,
        };
        proof {
            assert(s.subrange((j6 - i) as int, s.len() as int) =~= buf@.subrange(
                j6 as int,
                buf@.len() as int,
            ));
        }
        let (cpu_usage_percent, j7) = match dec_u32(buf, j6) {
            None => { return None; },
            Some(x) => x,
        };
        Some((
            HealthCheckResponse {
                healthy,
                version,
                uptime_seconds,
                active_jobs,
                queued_jobs,
                memory_usage_bytes,
                cpu_usage_percent,
            },
            j7,
        ))
    }
}


// ---------------------------------------------------------------------------
// the response union
// ---------------------------------------------------------------------------

/// One response from the daemon, as carried over the wire; each variant
/// answers the request variant of the same name.
pub enum Response {
    CreateJob(CreateJobResponse),
    JobStatus(JobStatusResponse),
    ListJobs(ListJobsResponse),
    CancelJob(OpResponse),
    PauseJob(OpResponse),
    ResumeJob(OpResponse),
    GetStats(StatsResponse),
    HealthCheck(HealthCheckResponse),
}

/// Mathematical image of a `Response`.
pub enum ResponseV {
    CreateJob(CreateJobResponseV),
    JobStatus(JobStatusResponseV),
    ListJobs(ListJobsResponseV),
    CancelJob(OpResponseV),
    PauseJob(OpResponseV),
    ResumeJob(OpResponseV),
    GetStats(StatsResponseV),
    HealthCheck(HealthCheckResponseV),
}

impl View for Response {
    type V = ResponseV;

    open spec fn view(&self) -> ResponseV {
        match self {
            Response::CreateJob(m) => ResponseV::CreateJob(m@),
            Response::JobStatus(m) => ResponseV::JobStatus(m@),
            Response::ListJobs(m) => ResponseV::ListJobs(m@),
            Response::CancelJob(m) => ResponseV::CancelJob(m@),
            Response::PauseJob(m) => ResponseV::PauseJob(m@),
            Response::ResumeJob(m) => ResponseV::ResumeJob(m@),
            Response::GetStats(m) => ResponseV::GetStats(m@),
            Response::HealthCheck(m) => ResponseV::HealthCheck(m@),
        }
    }
}

pub open spec fn response_wf(v: ResponseV) -> bool {
    match v {
        ResponseV::CreateJob(m) => create_job_resp_wf(m),
        ResponseV::JobStatus(m) => job_status_resp_wf(m),
        ResponseV::ListJobs(m) => list_jobs_resp_wf(m),
        ResponseV::CancelJob(m) => op_resp_wf(m),
        ResponseV::PauseJob(m) => op_resp_wf(m),
        ResponseV::ResumeJob(m) => op_resp_wf(m),
        ResponseV::GetStats(m) => stats_resp_wf(m),
        ResponseV::HealthCheck(m) => health_resp_wf(m),
    }
}

pub open spec fn spec_enc_response(v: ResponseV) -> Seq<u8> {
    match v {
        ResponseV::CreateJob(m) => spec_varint(1) + spec_enc_create_job_resp(m),
        ResponseV::JobStatus(m) => spec_varint(2) + spec_enc_job_status_resp(m),
        ResponseV::ListJobs(m) => spec_varint(3) + spec_enc_list_jobs_resp(m),
        ResponseV::CancelJob(m) => spec_varint(4) + spec_enc_op_resp(m),
        ResponseV::PauseJob(m) => spec_varint(5) + spec_enc_op_resp(m),
        ResponseV::ResumeJob(m) => spec_varint(6) + spec_enc_op_resp(m),
        ResponseV::GetStats(m) => spec_varint(7) + spec_enc_stats_resp(m),
        ResponseV::HealthCheck(m) => spec_varint(8) + spec_enc_health_resp(m),
    }
}

pub open spec fn spec_parse_response(s: Seq<u8>) -> Option<(ResponseV, int)> {
    match spec_parse_varint(s) {
        None => None,
        Some((tag, c)) => {
            let t = s.subrange(c, s.len() as int);
            if tag == 1 {
                match spec_parse_create_job_resp(t) {
                    None => None,
                    Some((m, c2)) => Some((ResponseV::CreateJob(m), c + c2)),
                }
            } else if tag == 2 {
                match spec_parse_job_status_resp(t) {
                    None => None,
                    Some((m, c2)) => Some((ResponseV::JobStatus(m), c + c2)),
                }
            } else if tag == 3 {
                match spec_parse_list_jobs_resp(t) {
                    None => None,
                    Some((m, c2)) => Some((ResponseV::ListJobs(m), c + c2)),
                }
            } else if tag == 4 {
                match spec_parse_op_resp(t) {
                    None => None,
                    Some((m, c2)) => Some((ResponseV::CancelJob(m), c + c2)),
                }
            } else if tag == 5 {
                match spec_parse_op_resp(t) {
                    None => None,
                    Some((m, c2)) => Some((ResponseV::PauseJob(m), c + c2)),
                }
            } else if tag == 6 {
                match spec_parse_op_resp(t) {
                    None => None,
                    Some((m, c2)) => Some((ResponseV::ResumeJob(m), c + c2)),
                }
            } else if tag == 7 {
                match spec_parse_stats_resp(t) {
                    None => None,
                    Some((m, c2)) => Some((ResponseV::GetStats(m), c + c2)),
                }
            } else if tag == 8 {
                match spec_parse_health_resp(t) {
                    None => None,
                    Some((m, c2)) => Some((ResponseV::HealthCheck(m), c + c2)),
                }
            } else {
                None
            }
        },
    }
}

#[verifier::rlimit(100)]
pub proof fn lemma_response_roundtrip(v: ResponseV, rest: Seq<u8>)
    requires
        response_wf(v),
    ensures
        spec_parse_response(spec_enc_response(v) + rest) == Some(
            (v, spec_enc_response(v).len() as int),
        ),
{
    let s = spec_enc_response(v) + rest;
    match v {
        ResponseV::CreateJob(m) => {
            let tag = spec_varint(1);
            let t1 = spec_enc_create_job_resp(m) + rest;
            assert(s =~= tag + t1);
            lemma_varint_roundtrip(1, t1);
            lemma_drop_prefix(tag, t1);
            lemma_create_job_resp_roundtrip(m, rest);
        },
        ResponseV::JobStatus(m) => {
            let tag = spec_varint(2);
            let t1 = spec_enc_job_status_resp(m) + rest;
            assert(s =~= tag + t1);
            lemma_varint_roundtrip(2, t1);
            lemma_drop_prefix(tag, t1);
            lemma_job_status_resp_roundtrip(m, rest);
        },
        ResponseV::ListJobs(m) => {
            let tag = spec_varint(3);
            let t1 = spec_enc_list_jobs_resp(m) + rest;
            assert(s =~= tag + t1);
            lemma_varint_roundtrip(3, t1);
            lemma_drop_prefix(tag, t1);
            lemma_list_jobs_resp_roundtrip(m, rest);
        },
        ResponseV::CancelJob(m) => {
            let tag = spec_varint(4);
            let t1 = spec_enc_op_resp(m) + rest;
            assert(s =~= tag + t1);
            lemma_varint_roundtrip(4, t1);
            lemma_drop_prefix(tag, t1);
            lemma_op_resp_roundtrip(m, rest);
        },
        ResponseV::PauseJob(m) => {
            let tag = spec_varint(5);
            let t1 = spec_enc_op_resp(m) + rest;
            assert(s =~= tag + t1);
            lemma_varint_roundtrip(5, t1);
            lemma_drop_prefix(tag, t1);
            lemma_op_resp_roundtrip(m, rest);
        },
        ResponseV::ResumeJob(m) => {
            let tag = spec_varint(6);
            let t1 = spec_enc_op_resp(m) + rest;
            assert(s =~= tag + t1);
            lemma_varint_roundtrip(6, t1);
            lemma_drop_prefix(tag, t1);
            lemma_op_resp_roundtrip(m, rest);
        },
        ResponseV::GetStats(m) => {
            let tag = spec_varint(7);
            let t1 = spec_enc_stats_resp(m) + rest;
            assert(s =~= tag + t1);
            lemma_varint_roundtrip(7, t1);
            lemma_drop_prefix(tag, t1);
            lemma_stats_resp_roundtrip(m, rest);
        },
        ResponseV::HealthCheck(m) => {
            let tag = spec_varint(8);
            let t1 = spec_enc_health_resp(m) + rest;
            assert(s =~= tag + t1);
            lemma_varint_roundtrip(8, t1);
            lemma_drop_prefix(tag, t1);
            lemma_health_resp_roundtrip(m, rest);
        },
    }
}

impl Response {
    /// Appends the encoded response, a variant tag then its payload, to `out`.
    #[verifier::rlimit(100)]
    pub fn encode_onto(&self, out: &mut Vec<u8>)
        ensures
            final(out)@ == old(out)@ + spec_enc_response(self@),
    {
        match self {
            Response::CreateJob(m) => {
                enc_varint(out, 1);
                m.encode_onto(out);
                assert(final(out)@ =~= old(out)@ + spec_enc_response(self@));
            },
            Response::JobStatus(m) => {
                enc_varint(out, 2);
                m.encode_onto(out);
                assert(final(out)@ =~= old(out)@ + spec_enc_response(self@));
            },
            Response::ListJobs(m) => {
                enc_varint(out, 3);
                m.encode_onto(out);
                assert(final(out)@ =~= old(out)@ + spec_enc_response(self@));
            },
            Response::CancelJob(m) => {
                enc_varint(out, 4);
                m.encode_onto(out);
                assert(final(out)@ =~= old(out)@ + spec_enc_response(self@));
            },
            Response::PauseJob(m) => {
                enc_varint(out, 5);
                m.encode_onto(out);
                assert(final(out)@ =~= old(out)@ + spec_enc_response(self@));
            },
            Response::ResumeJob(m) => {
                enc_varint(out, 6);
                m.encode_onto(out);
                assert(final(out)@ =~= old(out)@ + spec_enc_response(self@));
            },
            Response::GetStats(m) => {
                enc_varint(out, 7);
                m.encode_onto(out);
                assert(final(out)@ =~= old(out)@ + spec_enc_response(self@));
            },
            Response::HealthCheck(m) => {
                enc_varint(out, 8);
                m.encode_onto(out);
                assert(final(out)@ =~= old(out)@ + spec_enc_response(self@));
            },
        }
    }

    /// Encodes the response as a fresh payload.
    pub fn encode(&self) -> (r: Vec<u8>)
        ensures
            r@ == spec_enc_response(self@),
    {
        let mut out: Vec<u8> = Vec::new();
        self.encode_onto(&mut out);
        out
    }

    /// Reads one response from `buf` starting at `i`.
    #[verifier::rlimit(100)]
    pub fn decode_from(buf: &Vec<u8>, i: usize) -> (r: Option<(Response, usize)>)
        requires
            i <= buf.len(),
        ensures
            ({
                let p = spec_parse_response(buf@.subrange(i as int, buf@.len() as int));
                match r {
                    None => p is None,
                    Some((m, j)) => i <= j <= buf.len() && p == Some((m@, j - i)),
                }
            }),
    {
        let ghost s = buf@.subrange(i as int, buf@.len() as int);
        let (tag, c) = match dec_varint(buf, i) {
            None => { return None; },
            Some(x) => x,
        };
        proof {
            assert(s.subrange((c - i) as int, s.len() as int) =~= buf@.subrange(
                c as int,
                buf@.len() as int,
            ));
        }
        if tag == 1 {
            match CreateJobResponse::decode_from(buf, c) {
                None => None,
                Some((m, j)) => Some((Response::CreateJob(m), j)),
            }
        } else if tag == 2 {
            match JobStatusResponse::decode_from(buf, c) {
                None => None,
                Some((m, j)) => Some((Response::JobStatus(m), j)),
            }
        } else if tag == 3 {
            match ListJobsResponse::decode_from(buf, c) {
                None => None,
                Some((m, j)) => Some((Response::ListJobs(m), j)),
            }
        } else if tag == 4 {
            match OpResponse::decode_from(buf, c) {
                None => None,
                Some((m, j)) => Some((Response::CancelJob(m), j)),
            }
        } else if tag == 5 {
            match OpResponse::decode_from(buf, c) {
                None => None,
                Some((m, j)) => Some((Response::PauseJob(m), j)),
            }
        } else if tag == 6 {
            match OpResponse::decode_from(buf, c) {
                None => None,
                Some((m, j)) => Some((Response::ResumeJob(m), j)),
            }
        } else if tag == 7 {
            match StatsResponse::decode_from(buf, c) {
                None => None,
                Some((m, j)) => Some((Response::GetStats(m), j)),
            }
        } else if tag == 8 {
            match HealthCheckResponse::decode_from(buf, c) {
                None => None,
                Some((m, j)) => Some((Response::HealthCheck(m), j)),
            }
        } else {
            None
        }
    }

    /// Decodes a whole payload as one response; trailing bytes are an error.
    pub fn decode(buf: &Vec<u8>) -> (r: Option<Response>)
        ensures
            ({
                let p = spec_parse_response(buf@);
                match r {
                    None => p is None || (p matches Some((_, c)) && c != buf@.len()),
                    Some(m) => p == Some((m@, buf@.len() as int)),
                }
            }),
    {
        proof {
            assert(buf@.subrange(0, buf@.len() as int) =~= buf@);
        }
        match Self::decode_from(buf, 0) {
            None => None,
            Some((m, j)) => {
                if j == buf.len() {
                    Some(m)
                } else {
                    None
                }
            },
        }
    }
}

} // verus!
