//! Sparse files: the sparseness heuristic and the hole/data region plan a
//! hole-preserving copy follows. Holes produce no writes; the final length
//! set at the end materializes any trailing hole.

use vstd::prelude::*;

verus! {

/// One contiguous range of a file, either stored data or a hole.
#[derive(Debug, Clone, Copy, PartialEq, Eq, Structural)]
pub struct SparseRegion {
    pub offset: u64,
    pub length: u64,
    pub is_hole: bool,
}

/// Sorted, disjoint, non-empty data runs within a file of the given size.
pub open spec fn runs_wf(runs: Seq<(u64, u64)>, file_size: u64) -> bool {
    &&& forall|i: int| 0 <= i < runs.len() ==> (#[trigger] runs[i]).0 < runs[i].1 <= file_size
    &&& forall|i: int| 0 < i < runs.len() ==> (#[trigger] runs[i]).0 >= runs[i - 1].1
}

/// The alternating hole/data regions for the data runs at or past `pos`.
pub open spec fn spec_regions(runs: Seq<(u64, u64)>, pos: u64, file_size: u64) -> Seq<
    SparseRegion,
>
    decreases runs.len(),
{
    if runs.len() == 0 {
        if pos < file_size {
            seq![
                SparseRegion { offset: pos, length: (file_size - pos) as u64, is_hole: true },
            ]
        } else {
            Seq::empty()
        }
    } else {
        let (s, e) = runs[0];
        (if s > pos {
            seq![SparseRegion { offset: pos, length: (s - pos) as u64, is_hole: true }]
        } else {
            Seq::empty()
        }) + seq![SparseRegion { offset: s, length: (e - s) as u64, is_hole: false }]
            + spec_regions(runs.drop_first(), e, file_size)
    }
}

/// Region plans are contiguous: they run gaplessly from `pos` to the file
/// end, and every region is non-empty.
pub proof fn lemma_regions_contiguous(runs: Seq<(u64, u64)>, pos: u64, file_size: u64)
    requires
        runs_wf(runs, file_size),
        runs.len() > 0 ==> pos <= runs[0].0,
        pos <= file_size,
    ensures
        ({
            let rs = spec_regions(runs, pos, file_size);
            &&& (rs.len() == 0 ==> pos == file_size)
            &&& (rs.len() > 0 ==> rs[0].offset == pos)
            &&& (rs.len() > 0 ==> rs.last().offset + rs.last().length == file_size)
            &&& forall|i: int|
                0 < i < rs.len() ==> (#[trigger] rs[i]).offset == rs[i - 1].offset + rs[i
                    - 1].length
            &&& forall|i: int| 0 <= i < rs.len() ==> (#[trigger] rs[i]).length > 0
        }),
    decreases runs.len(),
{
    let rs = spec_regions(runs, pos, file_size);
    if runs.len() == 0 {
    } else {
        let (s, e) = runs[0];
        assert forall|i: int|
            0 < i < runs.drop_first().len() implies (#[trigger] runs.drop_first()[i]).0
            >= runs.drop_first()[i - 1].1 by {
            assert(runs.drop_first()[i] == runs[i + 1]);
            assert(runs.drop_first()[i - 1] == runs[i]);
        }
        assert(runs.drop_first().len() > 0 ==> e <= runs.drop_first()[0].0);
        lemma_regions_contiguous(runs.drop_first(), e, file_size);
        let head: Seq<SparseRegion> = (if s > pos {
            seq![SparseRegion { offset: pos, length: (s - pos) as u64, is_hole: true }]
        } else {
            Seq::<SparseRegion>::empty()
        }) + seq![SparseRegion { offset: s, length: (e - s) as u64, is_hole: false }];
        let tail = spec_regions(runs.drop_first(), e, file_size);
        assert(rs =~= head + tail);
        assert forall|i: int|
            0 < i < rs.len() implies (#[trigger] rs[i]).offset == rs[i - 1].offset + rs[i
            - 1].length by {
            if i >= head.len() + 1 {
                assert(rs[i] == tail[i - head.len()]);
                assert(rs[i - 1] == tail[i - 1 - head.len()]);
            } else if i == head.len() {
                if tail.len() > 0 {
                    assert(rs[i] == tail[0]);
                }
            }
        }
    }
}

/// The data regions of a plan are exactly the source's data runs, in order;
/// everything else is a hole, which the copy never writes.
#[verifier::rlimit(100)]
pub proof fn lemma_regions_data(runs: Seq<(u64, u64)>, pos: u64, file_size: u64)
    requires
        runs_wf(runs, file_size),
        runs.len() > 0 ==> pos <= runs[0].0,
        pos <= file_size,
    ensures
        spec_data_regions(spec_regions(runs, pos, file_size)) =~= runs.map_values(
            |p: (u64, u64)| SparseRegion {
                offset: p.0,
                length: (p.1 - p.0) as u64,
                is_hole: false,
            },
        ),
    decreases runs.len(),
{
    let rs = spec_regions(runs, pos, file_size);
    let f = |p: (u64, u64)| SparseRegion {
        offset: p.0,
        length: (p.1 - p.0) as u64,
        is_hole: false,
    };
    assert(spec_data_regions(Seq::<SparseRegion>::empty()) =~= Seq::<SparseRegion>::empty());
    if runs.len() == 0 {
        assert(runs.map_values(f) =~= Seq::<SparseRegion>::empty());
        if pos < file_size {
            assert(rs.drop_last() =~= Seq::<SparseRegion>::empty());
            assert(spec_data_regions(rs) =~= Seq::<SparseRegion>::empty());
        } else {
            assert(spec_data_regions(rs) =~= Seq::<SparseRegion>::empty());
        }
    } else {
        let (s, e) = runs[0];
        assert forall|i: int|
            0 < i < runs.drop_first().len() implies (#[trigger] runs.drop_first()[i]).0
            >= runs.drop_first()[i - 1].1 by {
            assert(runs.drop_first()[i] == runs[i + 1]);
            assert(runs.drop_first()[i - 1] == runs[i]);
        }
        assert(runs.drop_first().len() > 0 ==> e <= runs.drop_first()[0].0);
        lemma_regions_data(runs.drop_first(), e, file_size);
        let head: Seq<SparseRegion> = (if s > pos {
            seq![SparseRegion { offset: pos, length: (s - pos) as u64, is_hole: true }]
        } else {
            Seq::<SparseRegion>::empty()
        }) + seq![SparseRegion { offset: s, length: (e - s) as u64, is_hole: false }];
        let tail = spec_regions(runs.drop_first(), e, file_size);
        assert(rs =~= head + tail);
        lemma_data_regions_concat(head, tail);
        let data0 = SparseRegion { offset: s, length: (e - s) as u64, is_hole: false };
        assert(head.last() == data0);
        if s > pos {
            let hole0 = seq![
                SparseRegion { offset: pos, length: (s - pos) as u64, is_hole: true },
            ];
            assert(head.drop_last() =~= hole0);
            assert(hole0.drop_last() =~= Seq::<SparseRegion>::empty());
            assert(spec_data_regions(hole0) =~= Seq::<SparseRegion>::empty());
            assert(spec_data_regions(head) =~= seq![data0]);
        } else {
            assert(head.drop_last() =~= Seq::<SparseRegion>::empty());
            assert(spec_data_regions(head) =~= seq![data0]);
        }
        assert(runs.map_values(f) =~= seq![data0] + runs.drop_first().map_values(f));
        assert(spec_data_regions(rs) =~= runs.map_values(f));
    }
}

/// The data regions of a plan, in order.
pub open spec fn spec_data_regions(rs: Seq<SparseRegion>) -> Seq<SparseRegion>
    decreases rs.len(),
{
    if rs.len() == 0 {
        Seq::empty()
    } else {
        spec_data_regions(rs.drop_last()) + (if rs.last().is_hole {
            Seq::empty()
        } else {
            seq![rs.last()]
        })
    }
}

proof fn lemma_data_regions_concat(a: Seq<SparseRegion>, b: Seq<SparseRegion>)
    ensures
        spec_data_regions(a + b) == spec_data_regions(a) + spec_data_regions(b),
    decreases b.len(),
{
    if b.len() == 0 {
        assert(a + b =~= a);
        assert(spec_data_regions(a) + spec_data_regions(b) =~= spec_data_regions(a));
    } else {
        assert((a + b).drop_last() =~= a + b.drop_last());
        assert((a + b).last() == b.last());
        lemma_data_regions_concat(a, b.drop_last());
        assert(spec_data_regions(a + b) =~= spec_data_regions(a) + spec_data_regions(b));
    }
}

/// Hole-aware copying: region planning and the sparseness test.
pub struct SparseFileHandler;

impl SparseFileHandler {
    /// A file counts as sparse when its allocated bytes fall below 95% of
    /// its apparent size; an empty file never does.
    pub fn is_sparse_file(allocated_bytes: u64, file_size: u64) -> (r: bool)
        ensures
            r == (file_size > 0 && 20 * allocated_bytes < 19 * file_size),
    {
        proof {
            assert((allocated_bytes as u128) * 20 == (20 * allocated_bytes) as u128) by (
            nonlinear_arith);
            assert((file_size as u128) * 19 == (19 * file_size) as u128) by (nonlinear_arith);
        }
        file_size > 0 && (allocated_bytes as u128) * 20 < (file_size as u128) * 19
    }

    /// Builds the alternating hole/data region plan for a file: data regions
    /// are exactly the given runs, holes fill the gaps and the tail.
    pub fn detect_sparse_regions(runs: &Vec<(u64, u64)>, file_size: u64) -> (r: Vec<SparseRegion>)
        requires
            runs_wf(runs@, file_size),
        ensures
            r@ == spec_regions(runs@, 0, file_size),
    {
        let r = Self::build_from(runs, 0, 0, file_size);
        assert(runs@.subrange(0, runs@.len() as int) =~= runs@);
        r
    }

    fn build_from(runs: &Vec<(u64, u64)>, i: usize, pos: u64, file_size: u64) -> (r: Vec<
        SparseRegion,
    >)
        requires
            runs_wf(runs@, file_size),
            i <= runs@.len(),
            i < runs@.len() ==> pos <= runs@[i as int].0,
            pos <= file_size,
        ensures
            r@ == spec_regions(runs@.subrange(i as int, runs@.len() as int), pos, file_size),
        decreases runs@.len() - i,
    {
        let ghost sub = runs@.subrange(i as int, runs@.len() as int);
        if i == runs.len() {
            if pos < file_size {
                let tail_len = file_size - pos;
                let v = vec![
                    SparseRegion { offset: pos, length: tail_len, is_hole: true },
                ];
                assert(v@ =~= spec_regions(sub, pos, file_size));
                v
            } else {
                let v: Vec<SparseRegion> = Vec::new();
                assert(v@ =~= spec_regions(sub, pos, file_size));
                v
            }
        } else {
            let (s, e) = runs[i];
            proof {
                assert(sub[0] == runs@[i as int]);
                assert(sub.drop_first() =~= runs@.subrange(i + 1 as int, runs@.len() as int));
            }
            let mut out: Vec<SparseRegion> = Vec::new();
            if s > pos {
                out.push(SparseRegion { offset: pos, length: s - pos, is_hole: true });
            }
            out.push(SparseRegion { offset: s, length: e - s, is_hole: false });
            let mut rest = Self::build_from(runs, i + 1, e, file_size);
            out.append(&mut rest);
            assert(out@ =~= spec_regions(sub, pos, file_size));
            out
        }
    }

    /// The data bytes a region plan copies: the sum of its data regions'
    /// lengths.
    pub fn data_bytes(regions: &Vec<SparseRegion>) -> (r: u64)
        requires
            spec_data_bytes(regions@) <= u64::MAX,
        ensures
            r == spec_data_bytes(regions@),
    {
        let mut total: u64 = 0;
        let mut i: usize = 0;
        proof {
            assert(regions@.subrange(0, 0) =~= Seq::<SparseRegion>::empty());
            lemma_data_bytes_bound(regions@, 0);
        }
        while i < regions.len()
            invariant
                i <= regions@.len(),
                total == spec_data_bytes(regions@.subrange(0, i as int)),
                spec_data_bytes(regions@) <= u64::MAX,
            decreases regions@.len() - i,
        {
            let ghost pre = regions@.subrange(0, i as int);
            proof {
                assert(regions@.subrange(0, i + 1 as int).drop_last() =~= pre);
                assert(regions@.subrange(0, i + 1 as int).last() == regions@[i as int]);
                lemma_data_bytes_prefix(regions@, i + 1 as int);
            }
            if !regions[i].is_hole {
                total = total + regions[i].length;
            }
            i = i + 1;
        }
        assert(regions@.subrange(0, regions@.len() as int) =~= regions@);
        total
    }
}

pub open spec fn spec_data_bytes(regions: Seq<SparseRegion>) -> int
    decreases regions.len(),
{
    if regions.len() == 0 {
        0
    } else {
        spec_data_bytes(regions.drop_last()) + (if regions.last().is_hole {
            0int
        } else {
            regions.last().length as int
        })
    }
}

proof fn lemma_data_bytes_prefix(regions: Seq<SparseRegion>, n: int)
    requires
        0 <= n <= regions.len(),
    ensures
        spec_data_bytes(regions.subrange(0, n)) <= spec_data_bytes(regions),
        spec_data_bytes(regions.subrange(0, n)) >= 0,
    decreases regions.len() - n,
{
    lemma_data_bytes_bound(regions.subrange(0, n), 0);
    if n == regions.len() {
        assert(regions.subrange(0, n) =~= regions);
        lemma_data_bytes_bound(regions, 0);
    } else {
        lemma_data_bytes_prefix(regions, n + 1);
        assert(regions.subrange(0, n + 1).drop_last() =~= regions.subrange(0, n));
        assert(regions.subrange(0, n + 1).last() == regions[n]);
    }
}

proof fn lemma_data_bytes_bound(regions: Seq<SparseRegion>, dummy: int)
    ensures
        spec_data_bytes(regions) >= 0,
    decreases regions.len(),
{
    if regions.len() > 0 {
        lemma_data_bytes_bound(regions.drop_last(), dummy);
    }
}

} // verus!
