//! Message codec: the request union carried over the wire, encoded with
//! tagged fields and varints, and its decoder. A lemma per message shows the
//! decoder inverts the encoder, and together with the frame lemma that a
//! framed message, deframed and decoded, is the original message.

use vstd::prelude::*;
use vstd::utf8::*;
use vstd::seq_lib::lemma_concat_associative;
use crate::wire::{
    spec_varint, spec_parse_varint, spec_enc_str, spec_parse_str, spec_enc_bool, spec_parse_bool,
    spec_enc_u32, spec_parse_u32, lemma_varint_roundtrip, lemma_str_roundtrip,
    lemma_bool_roundtrip, lemma_u32_roundtrip, lemma_drop_prefix, enc_varint, dec_varint, enc_str, dec_str, enc_bool,
    dec_bool, enc_u32, dec_u32,
};
use crate::protocol::{CopyEngine, ExistsAction, VerifyMode};

verus! {

/// A string field is encodable when its UTF-8 byte length fits the varint.
pub open spec fn str_wf(s: Seq<char>) -> bool {
    encode_utf8(s).len() <= 0xffff_ffff_ffff_ffffu64
}

pub open spec fn str_list_wf(l: Seq<Seq<char>>) -> bool {
    &&& l.len() <= 0xffff_ffff_ffff_ffffu64
    &&& forall|i: int| 0 <= i < l.len() ==> str_wf(#[trigger] l[i])
}

// ---------------------------------------------------------------------------
// lists of strings: varint count, then each string in order
// ---------------------------------------------------------------------------

pub open spec fn spec_enc_str_seq(l: Seq<Seq<char>>) -> Seq<u8>
    decreases l.len(),
{
    if l.len() == 0 {
        Seq::empty()
    } else {
        spec_enc_str(l[0]) + spec_enc_str_seq(l.drop_first())
    }
}

pub open spec fn spec_enc_str_list(l: Seq<Seq<char>>) -> Seq<u8> {
    spec_varint(l.len() as u64) + spec_enc_str_seq(l)
}

pub open spec fn spec_parse_str_seq(s: Seq<u8>, n: nat) -> Option<(Seq<Seq<char>>, int)>
    decreases n,
{
    if n == 0 {
        Some((Seq::empty(), 0))
    } else {
        match spec_parse_str(s) {
            None => None,
            Some((v, c)) => {
                match spec_parse_str_seq(s.subrange(c, s.len() as int), (n - 1) as nat) {
                    None => None,
                    Some((l, c2)) => Some((seq![v] + l, c + c2)),
                }
            },
        }
    }
}

pub open spec fn spec_parse_str_list(s: Seq<u8>) -> Option<(Seq<Seq<char>>, int)> {
    match spec_parse_varint(s) {
        None => None,
        Some((n, c)) => {
            if n <= s.len() - c {
                match spec_parse_str_seq(s.subrange(c, s.len() as int), n as nat) {
                    None => None,
                    Some((l, c2)) => Some((l, c + c2)),
                }
            } else {
                None
            }
        },
    }
}

pub proof fn lemma_enc_str_seq_push(l: Seq<Seq<char>>, x: Seq<char>)
    ensures
        spec_enc_str_seq(l.push(x)) == spec_enc_str_seq(l) + spec_enc_str(x),
    decreases l.len(),
{
    if l.len() == 0 {
        assert(l.push(x)[0] == x);
        assert(l.push(x).drop_first() =~= Seq::<Seq<char>>::empty());
        assert(spec_enc_str_seq(l.push(x)) == spec_enc_str(x) + spec_enc_str_seq(
            Seq::<Seq<char>>::empty(),
        ));
        assert(spec_enc_str_seq(Seq::<Seq<char>>::empty()) == Seq::<u8>::empty());
        assert(spec_enc_str(x) + Seq::<u8>::empty() =~= Seq::<u8>::empty() + spec_enc_str(x));
        assert(spec_enc_str_seq(l) == Seq::<u8>::empty());
    } else {
        assert(l.push(x).drop_first() =~= l.drop_first().push(x));
        lemma_enc_str_seq_push(l.drop_first(), x);
        assert(spec_enc_str_seq(l.push(x)) =~= spec_enc_str_seq(l) + spec_enc_str(x));
    }
}

pub proof fn lemma_str_seq_roundtrip(l: Seq<Seq<char>>, rest: Seq<u8>)
    requires
        forall|i: int| 0 <= i < l.len() ==> str_wf(#[trigger] l[i]),
    ensures
        spec_parse_str_seq(spec_enc_str_seq(l) + rest, l.len() as nat) == Some(
            (l, spec_enc_str_seq(l).len() as int),
        ),
    decreases l.len(),
{
    if l.len() == 0 {
        assert(spec_enc_str_seq(l) =~= Seq::<u8>::empty());
    } else {
        let s = spec_enc_str_seq(l) + rest;
        let tail = spec_enc_str_seq(l.drop_first()) + rest;
        assert(s =~= spec_enc_str(l[0]) + tail);
        lemma_str_roundtrip(l[0], tail);
        let c = spec_enc_str(l[0]).len() as int;
        assert(s.subrange(c, s.len() as int) =~= tail);
        lemma_str_seq_roundtrip(l.drop_first(), rest);
        assert(seq![l[0]] + l.drop_first() =~= l);
    }
}

pub proof fn lemma_enc_str_seq_len(l: Seq<Seq<char>>)
    ensures
        spec_enc_str_seq(l).len() >= l.len(),
    decreases l.len(),
{
    if l.len() > 0 {
        lemma_enc_str_seq_len(l.drop_first());
        lemma_enc_str_len(l[0]);
    }
}

pub proof fn lemma_enc_str_len(s: Seq<char>)
    ensures
        spec_enc_str(s).len() >= 1,
{
}

pub proof fn lemma_str_list_roundtrip(l: Seq<Seq<char>>, rest: Seq<u8>)
    requires
        str_list_wf(l),
    ensures
        spec_parse_str_list(spec_enc_str_list(l) + rest) == Some(
            (l, spec_enc_str_list(l).len() as int),
        ),
{
    let s = spec_enc_str_list(l) + rest;
    let tail = spec_enc_str_seq(l) + rest;
    assert(s =~= spec_varint(l.len() as u64) + tail);
    lemma_varint_roundtrip(l.len() as u64, tail);
    let c = spec_varint(l.len() as u64).len() as int;
    assert(s.subrange(c, s.len() as int) =~= tail);
    lemma_enc_str_seq_len(l);
    lemma_str_seq_roundtrip(l, rest);
}

/// Appends a list-of-strings field: varint count, then each string.
pub fn enc_str_list(out: &mut Vec<u8>, l: &Vec<String>)
    ensures
        final(out)@ == old(out)@ + spec_enc_str_list(l.deep_view()),
{
    enc_varint(out, l.len() as u64);
    let ghost lv = l.deep_view();
    assert(lv.len() == l@.len());
    let mut k: usize = 0;
    while k < l.len()
        invariant
            k <= l.len(),
            lv == l.deep_view(),
            lv.len() == l@.len(),
            out@ == old(out)@ + spec_varint(lv.len() as u64) + spec_enc_str_seq(
                lv.subrange(0, k as int),
            ),
        decreases l.len() - k,
    {
        let ghost pre = lv.subrange(0, k as int);
        enc_str(out, &l[k]);
        proof {
            assert(lv[k as int] == l@[k as int]@);
            lemma_enc_str_seq_push(pre, lv[k as int]);
            assert(pre.push(lv[k as int]) =~= lv.subrange(0, k + 1 as int));
        }
        k = k + 1;
    }
    assert(lv.subrange(0, lv.len() as int) =~= lv);
}

/// Reads a list-of-strings field from `buf` starting at `i`.
pub fn dec_str_list(buf: &Vec<u8>, i: usize) -> (r: Option<(Vec<String>, usize)>)
    requires
        i <= buf.len(),
    ensures
        ({
            let p = spec_parse_str_list(buf@.subrange(i as int, buf@.len() as int));
            match r {
                None => p is None,
                Some((v, j)) => i < j <= buf.len() && p == Some((v.deep_view(), j - i)),
            }
        }),
{
    let ghost s = buf@.subrange(i as int, buf@.len() as int);
    match dec_varint(buf, i) {
        None => None,
        Some((n, c)) => {
            if n > (buf.len() - c) as u64 {
                return None;
            }
            let count: usize = n as usize;
            let mut acc: Vec<String> = Vec::new();
            let mut j: usize = c;
            let mut k: usize = 0;
            proof {
                assert(s.subrange((c - i) as int, s.len() as int) =~= buf@.subrange(
                    c as int,
                    buf@.len() as int,
                ));
            }
            while k < count
                invariant
                    s == buf@.subrange(i as int, buf@.len() as int),
                    i < c <= j <= buf.len(),
                    k <= count,
                    count == n,
                    n <= s.len() - (c - i),
                    spec_parse_varint(s) == Some((n, c - i)),
                    acc.deep_view().len() == k,
                    ({
                        let whole = spec_parse_str_seq(
                            s.subrange((c - i) as int, s.len() as int),
                            n as nat,
                        );
                        let remain = spec_parse_str_seq(
                            buf@.subrange(j as int, buf@.len() as int),
                            (n - k) as nat,
                        );
                        match remain {
                            None => whole is None,
                            Some((l2, c2)) => whole == Some(
                                (acc.deep_view() + l2, (j - c) + c2),
                            ),
                        }
                    }),
                decreases count - k,
            {
                let ghost tail_j = buf@.subrange(j as int, buf@.len() as int);
                match dec_str(buf, j) {
                    None => {
                        proof {
                            assert(k < n);
                            assert((n - k) as nat != 0);
                            assert(spec_parse_str(tail_j) is None);
                            assert(spec_parse_str_seq(tail_j, (n - k) as nat) is None);
                            assert(spec_parse_str_seq(
                                s.subrange((c - i) as int, s.len() as int),
                                n as nat,
                            ) is None);
                            assert(s.len() == buf@.len() - i);
                            assert(spec_parse_varint(s) == Some((n, (c - i) as int)));
                            assert(spec_parse_str_list(s) is None);
                        }
                        return None;
                    },
                    Some((v, j2)) => {
                        proof {
                            let c1 = j2 - j;
                            assert(tail_j.subrange(c1 as int, tail_j.len() as int) =~= buf@
                                .subrange(j2 as int, buf@.len() as int));
                            assert(acc.deep_view().push(v@) =~= acc.deep_view() + seq![v@]);
                        }
                        let ghost old_acc = acc.deep_view();
                        acc.push(v);
                        proof {
                            assert(acc.deep_view() =~= old_acc.push(v@));
                            assert(forall|l2: Seq<Seq<char>>|
                                (seq![v@] + l2).drop_first() =~= l2);
                            assert(forall|l2: Seq<Seq<char>>|
                                old_acc + (seq![v@] + l2) =~= (old_acc.push(v@)) + l2);
                        }
                        j = j2;
                    },
                }
                k = k + 1;
            }
            proof {
                assert(spec_parse_str_seq(
                    buf@.subrange(j as int, buf@.len() as int),
                    0,
                ) == Some((Seq::<Seq<char>>::empty(), 0int)));
                assert(acc.deep_view() + Seq::<Seq<char>>::empty() =~= acc.deep_view());
            }
            Some((acc, j))
        },
    }
}


// ---------------------------------------------------------------------------
// CreateJob request
// ---------------------------------------------------------------------------

/// Everything a client states when it asks for a new job.
pub struct CreateJobRequest {
    pub sources: Vec<String>,
    pub destination: String,
    pub recursive: bool,
    pub preserve_metadata: bool,
    pub preserve_links: bool,
    pub preserve_sparse: bool,
    pub verify: VerifyMode,
    pub exists_action: ExistsAction,
    pub priority: u32,
    /// Bytes per second; 0 means "no limit".
    pub max_rate_bps: u64,
    pub engine: CopyEngine,
    pub dry_run: bool,
    /// Empty string means "unset".
    pub regex_rename_match: String,
    /// Empty string means "unset".
    pub regex_rename_replace: String,
    /// Bytes; 0 means "engine default".
    pub block_size: u64,
    /// Accepted and carried through; no compression is performed in this
    /// core.
    pub compress: bool,
    /// Accepted and carried through; no encryption is performed in this
    /// core.
    pub encrypt: bool,
}

/// Mathematical image of a `CreateJobRequest`.
pub struct CreateJobRequestV {
    pub sources: Seq<Seq<char>>,
    pub destination: Seq<char>,
    pub recursive: bool,
    pub preserve_metadata: bool,
    pub preserve_links: bool,
    pub preserve_sparse: bool,
    pub verify: VerifyMode,
    pub exists_action: ExistsAction,
    pub priority: u32,
    pub max_rate_bps: u64,
    pub engine: CopyEngine,
    pub dry_run: bool,
    pub regex_rename_match: Seq<char>,
    pub regex_rename_replace: Seq<char>,
    pub block_size: u64,
    pub compress: bool,
    pub encrypt: bool,
}

impl View for CreateJobRequest {
    type V = CreateJobRequestV;

    open spec fn view(&self) -> CreateJobRequestV {
        CreateJobRequestV {
            sources: self.sources.deep_view(),
            destination: self.destination@,
            recursive: self.recursive,
            preserve_metadata: self.preserve_metadata,
            preserve_links: self.preserve_links,
            preserve_sparse: self.preserve_sparse,
            verify: self.verify,
            exists_action: self.exists_action,
            priority: self.priority,
            max_rate_bps: self.max_rate_bps,
            engine: self.engine,
            dry_run: self.dry_run,
            regex_rename_match: self.regex_rename_match@,
            regex_rename_replace: self.regex_rename_replace@,
            block_size: self.block_size,
            compress: self.compress,
            encrypt: self.encrypt,
        }
    }
}

pub open spec fn create_job_wf(v: CreateJobRequestV) -> bool {
    &&& str_list_wf(v.sources)
    &&& str_wf(v.destination)
    &&& str_wf(v.regex_rename_match)
    &&& str_wf(v.regex_rename_replace)
}

// The message is encoded in two runs of fields so that no single spec
// function, lemma or decoder grows beyond what the solver handles well.

/// First field run: sources through priority.
pub struct CjHead {
    pub sources: Seq<Seq<char>>,
    pub destination: Seq<char>,
    pub recursive: bool,
    pub preserve_metadata: bool,
    pub preserve_links: bool,
    pub preserve_sparse: bool,
    pub verify: VerifyMode,
    pub exists_action: ExistsAction,
    pub priority: u32,
}

/// Second field run: max_rate_bps through encrypt.
pub struct CjTail {
    pub max_rate_bps: u64,
    pub engine: CopyEngine,
    pub dry_run: bool,
    pub regex_rename_match: Seq<char>,
    pub regex_rename_replace: Seq<char>,
    pub block_size: u64,
    pub compress: bool,
    pub encrypt: bool,
}

pub open spec fn cj_head_of(v: CreateJobRequestV) -> CjHead {
    CjHead {
        sources: v.sources,
        destination: v.destination,
        recursive: v.recursive,
        preserve_metadata: v.preserve_metadata,
        preserve_links: v.preserve_links,
        preserve_sparse: v.preserve_sparse,
        verify: v.verify,
        exists_action: v.exists_action,
        priority: v.priority,
    }
}

pub open spec fn cj_tail_of(v: CreateJobRequestV) -> CjTail {
    CjTail {
        max_rate_bps: v.max_rate_bps,
        engine: v.engine,
        dry_run: v.dry_run,
        regex_rename_match: v.regex_rename_match,
        regex_rename_replace: v.regex_rename_replace,
        block_size: v.block_size,
        compress: v.compress,
        encrypt: v.encrypt,
    }
}

pub open spec fn cj_of_parts(a: CjHead, b: CjTail) -> CreateJobRequestV {
    CreateJobRequestV {
        sources: a.sources,
        destination: a.destination,
        recursive: a.recursive,
        preserve_metadata: a.preserve_metadata,
        preserve_links: a.preserve_links,
        preserve_sparse: a.preserve_sparse,
        verify: a.verify,
        exists_action: a.exists_action,
        priority: a.priority,
        max_rate_bps: b.max_rate_bps,
        engine: b.engine,
        dry_run: b.dry_run,
        regex_rename_match: b.regex_rename_match,
        regex_rename_replace: b.regex_rename_replace,
        block_size: b.block_size,
        compress: b.compress,
        encrypt: b.encrypt,
    }
}

pub open spec fn spec_enc_cj_head(a: CjHead) -> Seq<u8> {
    spec_enc_str_list(a.sources) + spec_enc_str(a.destination) + spec_enc_bool(a.recursive)
        + spec_enc_bool(a.preserve_metadata) + spec_enc_bool(a.preserve_links) + spec_enc_bool(
        a.preserve_sparse,
    ) + spec_enc_u32(a.verify.spec_code()) + spec_enc_u32(a.exists_action.spec_code())
        + spec_enc_u32(a.priority)
}

pub open spec fn spec_enc_cj_tail(b: CjTail) -> Seq<u8> {
    spec_varint(b.max_rate_bps) + spec_enc_u32(b.engine.spec_code()) + spec_enc_bool(b.dry_run)
        + spec_enc_str(b.regex_rename_match) + spec_enc_str(b.regex_rename_replace) + spec_varint(
        b.block_size,
    ) + spec_enc_bool(b.compress) + spec_enc_bool(b.encrypt)
}

pub open spec fn spec_enc_create_job(v: CreateJobRequestV) -> Seq<u8> {
    spec_enc_cj_head(cj_head_of(v)) + spec_enc_cj_tail(cj_tail_of(v))
}

pub open spec fn spec_parse_cj_head(s: Seq<u8>) -> Option<(CjHead, int)> {
    match spec_parse_str_list(s) {
        None => None,
        Some((sources, c1)) => match spec_parse_str(s.subrange(c1, s.len() as int)) {
            None => None,
            Some((destination, c2)) => match spec_parse_bool(
                s.subrange(c1 + c2, s.len() as int),
            ) {
                None => None,
                Some((recursive, c3)) => match spec_parse_bool(
                    s.subrange(c1 + c2 + c3, s.len() as int),
                ) {
                    None => None,
                    Some((preserve_metadata, c4)) => match spec_parse_bool(
                        s.subrange(c1 + c2 + c3 + c4, s.len() as int),
                    ) {
                        None => None,
                        Some((preserve_links, c5)) => match spec_parse_bool(
                            s.subrange(c1 + c2 + c3 + c4 + c5, s.len() as int),
                        ) {
                            None => None,
                            Some((preserve_sparse, c6)) => match spec_parse_u32(
                                s.subrange(c1 + c2 + c3 + c4 + c5 + c6, s.len() as int),
                            ) {
                                None => None,
                                Some((verify, c7)) => match spec_parse_u32(
                                    s.subrange(c1 + c2 + c3 + c4 + c5 + c6 + c7, s.len() as int),
                                ) {
                                    None => None,
                                    Some((exists_action, c8)) => match spec_parse_u32(
                                        s.subrange(
                                            c1 + c2 + c3 + c4 + c5 + c6 + c7 + c8,
                                            s.len() as int,
                                        ),
                                    ) {
                                        None => None,
                                        Some((priority, c9)) => Some(
                                            (
                                                CjHead {
                                                    sources,
                                                    destination,
                                                    recursive,
                                                    preserve_metadata,
                                                    preserve_links,
                                                    preserve_sparse,
                                                    verify: VerifyMode::spec_from_code(verify),
                                                    exists_action: ExistsAction::spec_from_code(
                                                        exists_action,
                                                    ),
                                                    priority,
                                                },
                                                c1 + c2 + c3 + c4 + c5 + c6 + c7 + c8 + c9,
                                            ),
                                        ),
                                    },
                                },
                            },
                        },
                    },
                },
            },
        },
    }
}

pub open spec fn spec_parse_cj_tail(s: Seq<u8>) -> Option<(CjTail, int)> {
    match spec_parse_varint(s) {
        None => None,
        Some((max_rate_bps, c1)) => match spec_parse_u32(s.subrange(c1, s.len() as int)) {
            None => None,
            Some((engine, c2)) => match spec_parse_bool(s.subrange(c1 + c2, s.len() as int)) {
                None => None,
                Some((dry_run, c3)) => match spec_parse_str(
                    s.subrange(c1 + c2 + c3, s.len() as int),
                ) {
                    None => None,
                    Some((rmatch, c4)) => match spec_parse_str(
                        s.subrange(c1 + c2 + c3 + c4, s.len() as int),
                    ) {
                        None => None,
                        Some((rreplace, c5)) => match spec_parse_varint(
                            s.subrange(c1 + c2 + c3 + c4 + c5, s.len() as int),
                        ) {
                            None => None,
                            Some((block_size, c6)) => match spec_parse_bool(
                                s.subrange(c1 + c2 + c3 + c4 + c5 + c6, s.len() as int),
                            ) {
                                None => None,
                                Some((compress, c7)) => match spec_parse_bool(
                                    s.subrange(c1 + c2 + c3 + c4 + c5 + c6 + c7, s.len() as int),
                                ) {
                                    None => None,
                                    Some((encrypt, c8)) => Some(
                                        (
                                            CjTail {
                                                max_rate_bps,
                                                engine: CopyEngine::spec_from_code(engine),
                                                dry_run,
                                                regex_rename_match: rmatch,
                                                regex_rename_replace: rreplace,
                                                block_size,
                                                compress,
                                                encrypt,
                                            },
                                            c1 + c2 + c3 + c4 + c5 + c6 + c7 + c8,
                                        ),
                                    ),
                                },
                            },
                        },
                    },
                },
            },
        },
    }
}

pub open spec fn spec_parse_create_job(s: Seq<u8>) -> Option<(CreateJobRequestV, int)> {
    match spec_parse_cj_head(s) {
        None => None,
        Some((a, c1)) => match spec_parse_cj_tail(s.subrange(c1, s.len() as int)) {
            None => None,
            Some((b, c2)) => Some((cj_of_parts(a, b), c1 + c2)),
        },
    }
}

#[verifier::rlimit(100)]
pub proof fn lemma_cj_head_roundtrip(a: CjHead, rest: Seq<u8>)
    requires
        str_list_wf(a.sources),
        str_wf(a.destination),
    ensures
        spec_parse_cj_head(spec_enc_cj_head(a) + rest) == Some(
            (a, spec_enc_cj_head(a).len() as int),
        ),
{
    let e1 = spec_enc_str_list(a.sources);
    let e2 = spec_enc_str(a.destination);
    let e3 = spec_enc_bool(a.recursive);
    let e4 = spec_enc_bool(a.preserve_metadata);
    let e5 = spec_enc_bool(a.preserve_links);
    let e6 = spec_enc_bool(a.preserve_sparse);
    let e7 = spec_enc_u32(a.verify.spec_code());
    let e8 = spec_enc_u32(a.exists_action.spec_code());
    let e9 = spec_enc_u32(a.priority);
    let t9 = rest;
    let t8 = e9 + t9;
    let t7 = e8 + t8;
    let t6 = e7 + t7;
    let t5 = e6 + t6;
    let t4 = e5 + t5;
    let t3 = e4 + t4;
    let t2 = e3 + t3;
    let t1 = e2 + t2;
    let p1 = e1;
    let p2 = p1 + e2;
    let p3 = p2 + e3;
    let p4 = p3 + e4;
    let p5 = p4 + e5;
    let p6 = p5 + e6;
    let p7 = p6 + e7;
    let p8 = p7 + e8;
    let p9 = p8 + e9;
    let s = spec_enc_cj_head(a) + rest;
    assert(spec_enc_cj_head(a) == p9);
    lemma_concat_associative(p8, e9, t9);
    lemma_concat_associative(p7, e8, t8);
    lemma_concat_associative(p6, e7, t7);
    lemma_concat_associative(p5, e6, t6);
    lemma_concat_associative(p4, e5, t5);
    lemma_concat_associative(p3, e4, t4);
    lemma_concat_associative(p2, e3, t3);
    lemma_concat_associative(p1, e2, t2);
    assert(s == p1 + t1);
    lemma_str_list_roundtrip(a.sources, t1);
    lemma_drop_prefix(p1, t1);
    lemma_str_roundtrip(a.destination, t2);
    lemma_drop_prefix(p2, t2);
    lemma_bool_roundtrip(a.recursive, t3);
    lemma_drop_prefix(p3, t3);
    lemma_bool_roundtrip(a.preserve_metadata, t4);
    lemma_drop_prefix(p4, t4);
    lemma_bool_roundtrip(a.preserve_links, t5);
    lemma_drop_prefix(p5, t5);
    lemma_bool_roundtrip(a.preserve_sparse, t6);
    lemma_drop_prefix(p6, t6);
    lemma_u32_roundtrip(a.verify.spec_code(), t7);
    lemma_drop_prefix(p7, t7);
    lemma_u32_roundtrip(a.exists_action.spec_code(), t8);
    lemma_drop_prefix(p8, t8);
    lemma_u32_roundtrip(a.priority, t9);
    assert(VerifyMode::spec_from_code(a.verify.spec_code()) == a.verify);
    assert(ExistsAction::spec_from_code(a.exists_action.spec_code()) == a.exists_action);
}

#[verifier::rlimit(100)]
pub proof fn lemma_cj_tail_roundtrip(b: CjTail, rest: Seq<u8>)
    requires
        str_wf(b.regex_rename_match),
        str_wf(b.regex_rename_replace),
    ensures
        spec_parse_cj_tail(spec_enc_cj_tail(b) + rest) == Some(
            (b, spec_enc_cj_tail(b).len() as int),
        ),
{
    let e1 = spec_varint(b.max_rate_bps);
    let e2 = spec_enc_u32(b.engine.spec_code());
    let e3 = spec_enc_bool(b.dry_run);
    let e4 = spec_enc_str(b.regex_rename_match);
    let e5 = spec_enc_str(b.regex_rename_replace);
    let e6 = spec_varint(b.block_size);
    let e7 = spec_enc_bool(b.compress);
    let e8 = spec_enc_bool(b.encrypt);
    let t8 = rest;
    let t7 = e8 + t8;
    let t6 = e7 + t7;
    let t5 = e6 + t6;
    let t4 = e5 + t5;
    let t3 = e4 + t4;
    let t2 = e3 + t3;
    let t1 = e2 + t2;
    let p1 = e1;
    let p2 = p1 + e2;
    let p3 = p2 + e3;
    let p4 = p3 + e4;
    let p5 = p4 + e5;
    let p6 = p5 + e6;
    let p7 = p6 + e7;
    let p8 = p7 + e8;
    let s = spec_enc_cj_tail(b) + rest;
    assert(spec_enc_cj_tail(b) == p8);
    lemma_concat_associative(p7, e8, t8);
    lemma_concat_associative(p6, e7, t7);
    lemma_concat_associative(p5, e6, t6);
    lemma_concat_associative(p4, e5, t5);
    lemma_concat_associative(p3, e4, t4);
    lemma_concat_associative(p2, e3, t3);
    lemma_concat_associative(p1, e2, t2);
    assert(s == p1 + t1);
    lemma_varint_roundtrip(b.max_rate_bps, t1);
    lemma_drop_prefix(p1, t1);
    lemma_u32_roundtrip(b.engine.spec_code(), t2);
    lemma_drop_prefix(p2, t2);
    lemma_bool_roundtrip(b.dry_run, t3);
    lemma_drop_prefix(p3, t3);
    lemma_str_roundtrip(b.regex_rename_match, t4);
    lemma_drop_prefix(p4, t4);
    lemma_str_roundtrip(b.regex_rename_replace, t5);
    lemma_drop_prefix(p5, t5);
    lemma_varint_roundtrip(b.block_size, t6);
    lemma_drop_prefix(p6, t6);
    lemma_bool_roundtrip(b.compress, t7);
    lemma_drop_prefix(p7, t7);
    lemma_bool_roundtrip(b.encrypt, t8);
    assert(CopyEngine::spec_from_code(b.engine.spec_code()) == b.engine);
}

#[verifier::rlimit(100)]
pub proof fn lemma_create_job_roundtrip(v: CreateJobRequestV, rest: Seq<u8>)
    requires
        create_job_wf(v),
    ensures
        spec_parse_create_job(spec_enc_create_job(v) + rest) == Some(
            (v, spec_enc_create_job(v).len() as int),
        ),
{
    let a = cj_head_of(v);
    let b = cj_tail_of(v);
    let ea = spec_enc_cj_head(a);
    let eb = spec_enc_cj_tail(b);
    let s = spec_enc_create_job(v) + rest;
    assert(s =~= ea + (eb + rest));
    lemma_cj_head_roundtrip(a, eb + rest);
    assert(s.subrange(ea.len() as int, s.len() as int) =~= eb + rest);
    lemma_cj_tail_roundtrip(b, rest);
    assert(cj_of_parts(a, b) == v);
}

impl CreateJobRequest {
    #[verifier::rlimit(100)]
    fn enc_head_onto(&self, out: &mut Vec<u8>)
        ensures
            final(out)@ == old(out)@ + spec_enc_cj_head(cj_head_of(self@)),
    {
        let ghost o = out@;
        let ghost e1 = spec_enc_str_list(self.sources.deep_view());
        let ghost e2 = spec_enc_str(self.destination@);
        let ghost e3 = spec_enc_bool(self.recursive);
        let ghost e4 = spec_enc_bool(self.preserve_metadata);
        let ghost e5 = spec_enc_bool(self.preserve_links);
        let ghost e6 = spec_enc_bool(self.preserve_sparse);
        let ghost e7 = spec_enc_u32(self.verify.spec_code());
        let ghost e8 = spec_enc_u32(self.exists_action.spec_code());
        let ghost e9 = spec_enc_u32(self.priority);
        enc_str_list(out, &self.sources);
        enc_str(out, &self.destination);
        enc_bool(out, self.recursive);
        enc_bool(out, self.preserve_metadata);
        enc_bool(out, self.preserve_links);
        enc_bool(out, self.preserve_sparse);
        enc_u32(out, self.verify.as_code());
        enc_u32(out, self.exists_action.as_code());
        enc_u32(out, self.priority);
        proof {
            lemma_concat_associative(o, e1, e2);
            lemma_concat_associative(o, e1 + e2, e3);
            lemma_concat_associative(o, e1 + e2 + e3, e4);
            lemma_concat_associative(o, e1 + e2 + e3 + e4, e5);
            lemma_concat_associative(o, e1 + e2 + e3 + e4 + e5, e6);
            lemma_concat_associative(o, e1 + e2 + e3 + e4 + e5 + e6, e7);
            lemma_concat_associative(o, e1 + e2 + e3 + e4 + e5 + e6 + e7, e8);
            lemma_concat_associative(o, e1 + e2 + e3 + e4 + e5 + e6 + e7 + e8, e9);
        }
    }

    #[verifier::rlimit(100)]
    fn enc_tail_onto(&self, out: &mut Vec<u8>)
        ensures
            final(out)@ == old(out)@ + spec_enc_cj_tail(cj_tail_of(self@)),
    {
        let ghost o = out@;
        let ghost e1 = spec_varint(self.max_rate_bps);
        let ghost e2 = spec_enc_u32(self.engine.spec_code());
        let ghost e3 = spec_enc_bool(self.dry_run);
        let ghost e4 = spec_enc_str(self.regex_rename_match@);
        let ghost e5 = spec_enc_str(self.regex_rename_replace@);
        let ghost e6 = spec_varint(self.block_size);
        let ghost e7 = spec_enc_bool(self.compress);
        let ghost e8 = spec_enc_bool(self.encrypt);
        enc_varint(out, self.max_rate_bps);
        enc_u32(out, self.engine.as_code());
        enc_bool(out, self.dry_run);
        enc_str(out, &self.regex_rename_match);
        enc_str(out, &self.regex_rename_replace);
        enc_varint(out, self.block_size);
        enc_bool(out, self.compress);
        enc_bool(out, self.encrypt);
        proof {
            lemma_concat_associative(o, e1, e2);
            lemma_concat_associative(o, e1 + e2, e3);
            lemma_concat_associative(o, e1 + e2 + e3, e4);
            lemma_concat_associative(o, e1 + e2 + e3 + e4, e5);
            lemma_concat_associative(o, e1 + e2 + e3 + e4 + e5, e6);
            lemma_concat_associative(o, e1 + e2 + e3 + e4 + e5 + e6, e7);
            lemma_concat_associative(o, e1 + e2 + e3 + e4 + e5 + e6 + e7, e8);
        }
    }

    /// Appends this message's field encoding to `out`.
    #[verifier::rlimit(100)]
    pub fn encode_onto(&self, out: &mut Vec<u8>)
        ensures
            final(out)@ == old(out)@ + spec_enc_create_job(self@),
    {
        self.enc_head_onto(out);
        self.enc_tail_onto(out);
        assert(final(out)@ =~= old(out)@ + spec_enc_create_job(self@));
    }

    #[verifier::rlimit(100)]
    fn dec_head_from(buf: &Vec<u8>, i: usize) -> (r: Option<(CreateJobRequest, usize)>)
        requires
            i <= buf.len(),
        ensures
            ({
                let p = spec_parse_cj_head(buf@.subrange(i as int, buf@.len() as int));
                match r {
                    None => p is None,
                    Some((m, j)) => i <= j <= buf.len() && p == Some((cj_head_of(m@), j - i)),
                }
            }),
    {
        let ghost s = buf@.subrange(i as int, buf@.len() as int);
        let (sources, j1) = match dec_str_list(buf, i) {
            None => { return None; },
            Some(x) => x,
        };
        proof {
            assert(s.subrange((j1 - i) as int, s.len() as int) =~= buf@.subrange(
                j1 as int,
                buf@.len() as int,
            ));
        }
        let (destination, j2) = match dec_str(buf, j1) {
            None => { return None; },
            Some(x) => x,
        };
        proof {
            assert(s.subrange((j2 - i) as int, s.len() as int) =~= buf@.subrange(
                j2 as int,
                buf@.len() as int,
            ));
        }
        let (recursive, j3) = match dec_bool(buf, j2) {
            None => { return None; },
            Some(x) => x,
        };
        proof {
            assert(s.subrange((j3 - i) as int, s.len() as int) =~= buf@.subrange(
                j3 as int,
                buf@.len() as int,
            ));
        }
        let (preserve_metadata, j4) = match dec_bool(buf, j3) {
            None => { return None; },
            Some(x) => x,
        };
        proof {
            assert(s.subrange((j4 - i) as int, s.len() as int) =~= buf@.subrange(
                j4 as int,
                buf@.len() as int,
            ));
        }
        let (preserve_links, j5) = match dec_bool(buf, j4) {
            None => { return None; },
            Some(x) => x,
        };
        proof {
            assert(s.subrange((j5 - i) as int, s.len() as int) =~= buf@.subrange(
                j5 as int,
                buf@.len() as int,
            ));
        }
        let (preserve_sparse, j6) = match dec_bool(buf, j5) {
            None => { return None; },
            Some(x) => x,
        };
        proof {
            assert(s.subrange((j6 - i) as int, s.len() as int) =~= buf@.subrange(
                j6 as int,
                buf@.len() as int,
            ));
        }
        let (verify_code, j7) = match dec_u32(buf, j6) {
            None => { return None; },
            Some(x) => x,
        };
        proof {
            assert(s.subrange((j7 - i) as int, s.len() as int) =~= buf@.subrange(
                j7 as int,
                buf@.len() as int,
            ));
        }
        let (exists_code, j8) = match dec_u32(buf, j7) {
            None => { return None; },
            Some(x) => x,
        };
        proof {
            assert(s.subrange((j8 - i) as int, s.len() as int) =~= buf@.subrange(
                j8 as int,
                buf@.len() as int,
            ));
        }
        let (priority, j9) = match dec_u32(buf, j8) {
            None => { return None; },
            Some(x) => x,
        };
        let m = CreateJobRequest {
            sources,
            destination,
            recursive,
            preserve_metadata,
            preserve_links,
            preserve_sparse,
            verify: VerifyMode::from_code(verify_code),
            exists_action: ExistsAction::from_code(exists_code),
            priority,
            max_rate_bps: 0,
            engine: CopyEngine::Auto,
            dry_run: false,
            regex_rename_match: String::new(),
            regex_rename_replace: String::new(),
            block_size: 0,
            compress: false,
            encrypt: false,
        };
        Some((m, j9))
    }

    #[verifier::rlimit(100)]
    fn dec_tail_into(buf: &Vec<u8>, i: usize, m: &mut CreateJobRequest) -> (r: Option<usize>)
        requires
            i <= buf.len(),
        ensures
            ({
                let p = spec_parse_cj_tail(buf@.subrange(i as int, buf@.len() as int));
                match r {
                    None => p is None,
                    Some(j) => i <= j <= buf.len() && p == Some((cj_tail_of(final(m)@), j - i))
                        && cj_head_of(final(m)@) == cj_head_of(old(m)@),
                }
            }),
    {
        let ghost s = buf@.subrange(i as int, buf@.len() as int);
        let (max_rate_bps, j1) = match dec_varint(buf, i) {
            None => { return None; },
            Some(x) => x,
        };
        proof {
            assert(s.subrange((j1 - i) as int, s.len() as int) =~= buf@.subrange(
                j1 as int,
                buf@.len() as int,
            ));
        }
        let (engine_code, j2) = match dec_u32(buf, j1) {
            None => { return None; },
            Some(x) => x,
        };
        proof {
            assert(s.subrange((j2 - i) as int, s.len() as int) =~= buf@.subrange(
                j2 as int,
                buf@.len() as int,
            ));
        }
        let (dry_run, j3) = match dec_bool(buf, j2) {
            None => { return None; },
            Some(x) => x,
        };
        proof {
            assert(s.subrange((j3 - i) as int, s.len() as int) =~= buf@.subrange(
                j3 as int,
                buf@.len() as int,
            ));
        }
        let (rmatch, j4) = match dec_str(buf, j3) {
            None => { return None; },
            Some(x) => x,
        };
        proof {
            assert(s.subrange((j4 - i) as int, s.len() as int) =~= buf@.subrange(
                j4 as int,
                buf@.len() as int,
            ));
        }
        let (rreplace, j5) = match dec_str(buf, j4) {
            None => { return None; },
            Some(x) => x,
        };
        proof {
            assert(s.subrange((j5 - i) as int, s.len() as int) =~= buf@.subrange(
                j5 as int,
                buf@.len() as int,
            ));
        }
        let (block_size, j6) = match dec_varint(buf, j5) {
            None => { return None; },
            Some(x) => x,
        };
        proof {
            assert(s.subrange((j6 - i) as int, s.len() as int) =~= buf@.subrange(
                j6 as int,
                buf@.len() as int,
            ));
        }
        let (compress, j7) = match dec_bool(buf, j6) {
            None => { return None; },
            Some(x) => x,
        };
        proof {
            assert(s.subrange((j7 - i) as int, s.len() as int) =~= buf@.subrange(
                j7 as int,
                buf@.len() as int,
            ));
        }
        let (encrypt, j8) = match dec_bool(buf, j7) {
            None => { return None; },
            Some(x) => x,
        };
        m.max_rate_bps = max_rate_bps;
        m.engine = CopyEngine::from_code(engine_code);
        m.dry_run = dry_run;
        m.regex_rename_match = rmatch;
        m.regex_rename_replace = rreplace;
        m.block_size = block_size;
        m.compress = compress;
        m.encrypt = encrypt;
        Some(j8)
    }

    /// Reads one message's fields from `buf` starting at `i`.
    #[verifier::rlimit(100)]
    pub fn decode_from(buf: &Vec<u8>, i: usize) -> (r: Option<(CreateJobRequest, usize)>)
        requires
            i <= buf.len(),
        ensures
            ({
                let p = spec_parse_create_job(buf@.subrange(i as int, buf@.len() as int));
                match r {
                    None => p is None,
                    Some((m, j)) => i <= j <= buf.len() && p == Some((m@, j - i)),
                }
            }),
    {
        let ghost s = buf@.subrange(i as int, buf@.len() as int);
        let (mut m, j1) = match Self::dec_head_from(buf, i) {
            None => { return None; },
            Some(x) => x,
        };
        proof {
            assert(s.subrange((j1 - i) as int, s.len() as int) =~= buf@.subrange(
                j1 as int,
                buf@.len() as int,
            ));
        }
        let ghost a = cj_head_of(m@);
        let j2 = match Self::dec_tail_into(buf, j1, &mut m) {
            None => { return None; },
            Some(x) => x,
        };
        proof {
            assert(cj_of_parts(cj_head_of(m@), cj_tail_of(m@)) == m@);
        }
        Some((m, j2))
    }
}


// ---------------------------------------------------------------------------
// the request union
// ---------------------------------------------------------------------------

/// One request from the client tool, as carried over the wire.
pub enum Request {
    CreateJob(CreateJobRequest),
    JobStatus { job_id: String },
    ListJobs { include_completed: bool },
    CancelJob { job_id: String },
    PauseJob { job_id: String },
    ResumeJob { job_id: String },
    GetStats { days_back: u32 },
    HealthCheck,
}

/// Mathematical image of a `Request`.
pub enum RequestV {
    CreateJob(CreateJobRequestV),
    JobStatus { job_id: Seq<char> },
    ListJobs { include_completed: bool },
    CancelJob { job_id: Seq<char> },
    PauseJob { job_id: Seq<char> },
    ResumeJob { job_id: Seq<char> },
    GetStats { days_back: u32 },
    HealthCheck,
}

impl View for Request {
    type V = RequestV;

    open spec fn view(&self) -> RequestV {
        match self {
            Request::CreateJob(m) => RequestV::CreateJob(m@),
            Request::JobStatus { job_id } => RequestV::JobStatus { job_id: job_id@ },
            Request::ListJobs { include_completed } => RequestV::ListJobs {
                include_completed: *include_completed,
            },
            Request::CancelJob { job_id } => RequestV::CancelJob { job_id: job_id@ },
            Request::PauseJob { job_id } => RequestV::PauseJob { job_id: job_id@ },
            Request::ResumeJob { job_id } => RequestV::ResumeJob { job_id: job_id@ },
            Request::GetStats { days_back } => RequestV::GetStats { days_back: *days_back },
            Request::HealthCheck => RequestV::HealthCheck,
        }
    }
}

pub open spec fn request_wf(v: RequestV) -> bool {
    match v {
        RequestV::CreateJob(m) => create_job_wf(m),
        RequestV::JobStatus { job_id } => str_wf(job_id),
        RequestV::ListJobs { .. } => true,
        RequestV::CancelJob { job_id } => str_wf(job_id),
        RequestV::PauseJob { job_id } => str_wf(job_id),
        RequestV::ResumeJob { job_id } => str_wf(job_id),
        RequestV::GetStats { .. } => true,
        RequestV::HealthCheck => true,
    }
}

pub open spec fn spec_enc_request(v: RequestV) -> Seq<u8> {
    match v {
        RequestV::CreateJob(m) => spec_varint(1) + spec_enc_create_job(m),
        RequestV::JobStatus { job_id } => spec_varint(2) + spec_enc_str(job_id),
        RequestV::ListJobs { include_completed } => spec_varint(3) + spec_enc_bool(
            include_completed,
        ),
        RequestV::CancelJob { job_id } => spec_varint(4) + spec_enc_str(job_id),
        RequestV::PauseJob { job_id } => spec_varint(5) + spec_enc_str(job_id),
        RequestV::ResumeJob { job_id } => spec_varint(6) + spec_enc_str(job_id),
        RequestV::GetStats { days_back } => spec_varint(7) + spec_enc_u32(days_back),
        RequestV::HealthCheck => spec_varint(8),
    }
}

pub open spec fn spec_parse_request(s: Seq<u8>) -> Option<(RequestV, int)> {
    match spec_parse_varint(s) {
        None => None,
        Some((tag, c)) => {
            let t = s.subrange(c, s.len() as int);
            if tag == 1 {
                match spec_parse_create_job(t) {
                    None => None,
                    Some((m, c2)) => Some((RequestV::CreateJob(m), c + c2)),
                }
            } else if tag == 2 {
                match spec_parse_str(t) {
                    None => None,
                    Some((job_id, c2)) => Some((RequestV::JobStatus { job_id }, c + c2)),
                }
            } else if tag == 3 {
                match spec_parse_bool(t) {
                    None => None,
                    Some((include_completed, c2)) => Some(
                        (RequestV::ListJobs { include_completed }, c + c2),
                    ),
                }
            } else if tag == 4 {
                match spec_parse_str(t) {
                    None => None,
                    Some((job_id, c2)) => Some((RequestV::CancelJob { job_id }, c + c2)),
                }
            } else if tag == 5 {
                match spec_parse_str(t) {
                    None => None,
                    Some((job_id, c2)) => Some((RequestV::PauseJob { job_id }, c + c2)),
                }
            } else if tag == 6 {
                match spec_parse_str(t) {
                    None => None,
                    Some((job_id, c2)) => Some((RequestV::ResumeJob { job_id }, c + c2)),
                }
            } else if tag == 7 {
                match spec_parse_u32(t) {
                    None => None,
                    Some((days_back, c2)) => Some((RequestV::GetStats { days_back }, c + c2)),
                }
            } else if tag == 8 {
                Some((RequestV::HealthCheck, c))
            } else {
                None
            }
        },
    }
}

#[verifier::rlimit(100)]
pub proof fn lemma_request_roundtrip(v: RequestV, rest: Seq<u8>)
    requires
        request_wf(v),
    ensures
        spec_parse_request(spec_enc_request(v) + rest) == Some(
            (v, spec_enc_request(v).len() as int),
        ),
{
    let s = spec_enc_request(v) + rest;
    match v {
        RequestV::CreateJob(m) => {
            let tag = spec_varint(1);
            let t1 = spec_enc_create_job(m) + rest;
            assert(s =~= tag + t1);
            lemma_varint_roundtrip(1, t1);
            lemma_drop_prefix(tag, t1);
            lemma_create_job_roundtrip(m, rest);
        },
        RequestV::JobStatus { job_id } => {
            let tag = spec_varint(2);
            let t1 = spec_enc_str(job_id) + rest;
            assert(s =~= tag + t1);
            lemma_varint_roundtrip(2, t1);
            lemma_drop_prefix(tag, t1);
            lemma_str_roundtrip(job_id, rest);
        },
        RequestV::ListJobs { include_completed } => {
            let tag = spec_varint(3);
            let t1 = spec_enc_bool(include_completed) + rest;
            assert(s =~= tag + t1);
            lemma_varint_roundtrip(3, t1);
            lemma_drop_prefix(tag, t1);
            lemma_bool_roundtrip(include_completed, rest);
        },
        RequestV::CancelJob { job_id } => {
            let tag = spec_varint(4);
            let t1 = spec_enc_str(job_id) + rest;
            assert(s =~= tag + t1);
            lemma_varint_roundtrip(4, t1);
            lemma_drop_prefix(tag, t1);
            lemma_str_roundtrip(job_id, rest);
        },
        RequestV::PauseJob { job_id } => {
            let tag = spec_varint(5);
            let t1 = spec_enc_str(job_id) + rest;
            assert(s =~= tag + t1);
            lemma_varint_roundtrip(5, t1);
            lemma_drop_prefix(tag, t1);
            lemma_str_roundtrip(job_id, rest);
        },
        RequestV::ResumeJob { job_id } => {
            let tag = spec_varint(6);
            let t1 = spec_enc_str(job_id) + rest;
            assert(s =~= tag + t1);
            lemma_varint_roundtrip(6, t1);
            lemma_drop_prefix(tag, t1);
            lemma_str_roundtrip(job_id, rest);
        },
        RequestV::GetStats { days_back } => {
            let tag = spec_varint(7);
            let t1 = spec_enc_u32(days_back) + rest;
            assert(s =~= tag + t1);
            lemma_varint_roundtrip(7, t1);
            lemma_drop_prefix(tag, t1);
            lemma_u32_roundtrip(days_back, rest);
        },
        RequestV::HealthCheck => {
            lemma_varint_roundtrip(8, rest);
        },
    }
}

impl Request {
    /// Appends the encoded request, a variant tag then its fields, to `out`.
    pub fn encode_onto(&self, out: &mut Vec<u8>)
        ensures
            final(out)@ == old(out)@ + spec_enc_request(self@),
    {
        match self {
            Request::CreateJob(m) => {
                enc_varint(out, 1);
                m.encode_onto(out);
                assert(final(out)@ =~= old(out)@ + spec_enc_request(self@));
            },
            Request::JobStatus { job_id } => {
                enc_varint(out, 2);
                enc_str(out, job_id);
                assert(final(out)@ =~= old(out)@ + spec_enc_request(self@));
            },
            Request::ListJobs { include_completed } => {
                enc_varint(out, 3);
                enc_bool(out, *include_completed);
                assert(final(out)@ =~= old(out)@ + spec_enc_request(self@));
            },
            Request::CancelJob { job_id } => {
                enc_varint(out, 4);
                enc_str(out, job_id);
                assert(final(out)@ =~= old(out)@ + spec_enc_request(self@));
            },
            Request::PauseJob { job_id } => {
                enc_varint(out, 5);
                enc_str(out, job_id);
                assert(final(out)@ =~= old(out)@ + spec_enc_request(self@));
            },
            Request::ResumeJob { job_id } => {
                enc_varint(out, 6);
                enc_str(out, job_id);
                assert(final(out)@ =~= old(out)@ + spec_enc_request(self@));
            },
            Request::GetStats { days_back } => {
                enc_varint(out, 7);
                enc_u32(out, *days_back);
                assert(final(out)@ =~= old(out)@ + spec_enc_request(self@));
            },
            Request::HealthCheck => {
                enc_varint(out, 8);
                assert(final(out)@ =~= old(out)@ + spec_enc_request(self@));
            },
        }
    }

    /// Encodes the request as a fresh payload.
    pub fn encode(&self) -> (r: Vec<u8>)
        ensures
            r@ == spec_enc_request(self@),
    {
        let mut out: Vec<u8> = Vec::new();
        self.encode_onto(&mut out);
        out
    }

    /// Reads one request from `buf` starting at `i`.
    #[verifier::rlimit(100)]
    pub fn decode_from(buf: &Vec<u8>, i: usize) -> (r: Option<(Request, usize)>)
        requires
            i <= buf.len(),
        ensures
            ({
                let p = spec_parse_request(buf@.subrange(i as int, buf@.len() as int));
                match r {
                    None => p is None,
                    Some((m, j)) => i <= j <= buf.len() && p == Some((m@, j - i)),
                }
            }),
    {
        let ghost s = buf@.subrange(i as int, buf@.len() as int);
        let (tag, c) = match dec_varint(buf, i) {
            None => { return None; },
            Some(x) => x,
        };
        proof {
            assert(s.subrange((c - i) as int, s.len() as int) =~= buf@.subrange(
                c as int,
                buf@.len() as int,
            ));
        }
        if tag == 1 {
            match CreateJobRequest::decode_from(buf, c) {
                None => None,
                Some((m, j)) => Some((Request::CreateJob(m), j)),
            }
        } else if tag == 2 {
            match dec_str(buf, c) {
                None => None,
                Some((job_id, j)) => Some((Request::JobStatus { job_id }, j)),
            }
        } else if tag == 3 {
            match dec_bool(buf, c) {
                None => None,
                Some((include_completed, j)) => Some((Request::ListJobs { include_completed }, j)),
            }
        } else if tag == 4 {
            match dec_str(buf, c) {
                None => None,
                Some((job_id, j)) => Some((Request::CancelJob { job_id }, j)),
            }
        } else if tag == 5 {
            match dec_str(buf, c) {
                None => None,
                Some((job_id, j)) => Some((Request::PauseJob { job_id }, j)),
            }
        } else if tag == 6 {
            match dec_str(buf, c) {
                None => None,
                Some((job_id, j)) => Some((Request::ResumeJob { job_id }, j)),
            }
        } else if tag == 7 {
            match dec_u32(buf, c) {
                None => None,
                Some((days_back, j)) => Some((Request::GetStats { days_back }, j)),
            }
        } else if tag == 8 {
            Some((Request::HealthCheck, c))
        } else {
            None
        }
    }

    /// Decodes a whole payload as one request; trailing bytes are an error.
    pub fn decode(buf: &Vec<u8>) -> (r: Option<Request>)
        ensures
            ({
                let p = spec_parse_request(buf@);
                match r {
                    None => p is None || (p matches Some((_, c)) && c != buf@.len()),
                    Some(m) => p == Some((m@, buf@.len() as int)),
                }
            }),
    {
        proof {
            assert(buf@.subrange(0, buf@.len() as int) =~= buf@);
        }
        match Self::decode_from(buf, 0) {
            None => None,
            Some((m, j)) => {
                if j == buf.len() {
                    Some(m)
                } else {
                    None
                }
            },
        }
    }
}

} // verus!
