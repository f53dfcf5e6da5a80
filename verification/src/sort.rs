use vstd::prelude::*;

verus! {

use crate::pipeline::PipelineError;
use crate::pipeline::PipelineError::SpillIo;
use std::io::Error;
use std::path::Path;
use ext_sort::ExternalSorter;
use ext_sort::ExternalSorterBuilder;
use ext_sort::buffer::mem::MemoryLimitedBufferBuilder;
use ext_sort::chunk::RmpExternalChunk;

/// One sliced feature on its way through the sort: the tile it belongs
/// to, and its opaquely encoded geometry and properties.
#[derive(Debug, Clone, PartialEq, Eq)]
pub struct SerializedSlicedFeature {
    pub tile_id: u64,
    pub body: Vec<u8>,
}

/// The record as plain data.
pub open spec fn view_record(r: SerializedSlicedFeature) -> (u64, Seq<u8>) {
    (r.tile_id, r.body@)
}

pub open spec fn view_records(s: Seq<SerializedSlicedFeature>) -> Seq<(u64, Seq<u8>)> {
    s.map_values(|r: SerializedSlicedFeature| view_record(r))
}

pub open spec fn sorted_by_tile_id(s: Seq<(u64, Seq<u8>)>) -> bool {
    forall|i: int, j: int| 0 <= i < j < s.len() ==> (#[trigger] s[i]).0 <= (#[trigger] s[j]).0
}

fn copy_bytes(v: &Vec<u8>) -> (out: Vec<u8>)
    ensures
        out@ == v@,
{
    let n = v.len();
    let mut out: Vec<u8> = Vec::new();
    let mut i: usize = 0;
    while i < n
        invariant
            i <= n,
            n == v@.len(),
            out@ =~= v@.subrange(0, i as int),
        decreases n - i,
    {
        out.push(v[i]);
        proof {
            assert(out@ =~= v@.subrange(0, i + 1 as int));
        }
        i = i + 1;
    }
    proof {
        assert(v@.subrange(0, n as int) =~= v@);
    }
    out
}

fn copy_record(r: &SerializedSlicedFeature) -> (out: SerializedSlicedFeature)
    ensures
        view_record(out) == view_record(*r),
        out.tile_id == r.tile_id,
        out.body@ == r.body@,
{
    SerializedSlicedFeature { tile_id: r.tile_id, body: copy_bytes(&r.body) }
}

/// Relies on `ext_sort`'s `ExternalSorter::sort_by`, a disk-spilling
/// merge sort: records are buffered up to `mem_limit_bytes`, sorted
/// batches spill to temporary chunk files under `tmp_dir`, and a k-way
/// merge returns the whole stream ordered by the comparator — here the
/// tile id.  The output is a reordering of the input: the same records
/// as a multiset, in non-decreasing tile-id order.  Records of equal
/// tile id may come back in any order.  Any failure while spilling or
/// merging (including building the temporary directory or thread pool)
/// surfaces as a spill error.  The spill files live in a directory the
/// `tempfile` crate creates under `tmp_dir` and removes again when the
/// sorter is dropped, so no run leaves chunks behind.
#[verifier::external_body]
pub fn external_sort_records(
    records: Vec<SerializedSlicedFeature>,
    mem_limit_bytes: u64,
    threads: usize,
    tmp_dir: &str,
) -> (r: Result<Vec<SerializedSlicedFeature>, PipelineError>)
    ensures
        match r {
            Ok(out) => view_records(out@).to_multiset() == view_records(records@).to_multiset()
                && sorted_by_tile_id(view_records(out@)),
            Err(e) => e == PipelineError::SpillIo,
        },
{
    let b = ExternalSorterBuilder::new().with_tmp_dir(Path::new(tmp_dir));
    let b = b.with_buffer(MemoryLimitedBufferBuilder::new(mem_limit_bytes)).with_threads_number(threads);
    let sorter: ExternalSorter<(u64, Vec<u8>), Error, MemoryLimitedBufferBuilder, RmpExternalChunk<(u64, Vec<u8>)>> =
        b.build().map_err(|_| SpillIo)?;
    let input = records.into_iter().map(|r| Ok((r.tile_id, r.body)));
    let merged = sorter.sort_by(input, |a, b| a.0.cmp(&b.0)).map_err(|_| SpillIo)?;
    let mut out = Vec::new();
    for item in merged {
        let (tile_id, body) = item.map_err(|_| SpillIo)?;
        out.push(SerializedSlicedFeature { tile_id, body });
    }
    Ok(out)
}

/// The records of a batch sequence, flattened back to one stream.
pub open spec fn group_views(groups: Seq<(u64, Seq<(u64, Seq<u8>)>)>) -> Seq<(u64, Seq<u8>)>
    decreases groups.len(),
{
    if groups.len() == 0 {
        Seq::empty()
    } else {
        group_views(groups.drop_last()) + groups.last().1
    }
}

pub open spec fn view_groups(gs: Seq<(u64, Vec<SerializedSlicedFeature>)>) -> Seq<
    (u64, Seq<(u64, Seq<u8>)>),
> {
    gs.map_values(|g: (u64, Vec<SerializedSlicedFeature>)| (g.0, view_records(g.1@)))
}

/// Each batch is non-empty and uniform in its tile id, and adjacent
/// batches carry distinct ids: a batch holds a whole run of one tile id.
pub open spec fn wf_groups(gs: Seq<(u64, Seq<(u64, Seq<u8>)>)>) -> bool {
    &&& forall|i: int|
        0 <= i < gs.len() ==> (#[trigger] gs[i]).1.len() > 0 && (forall|j: int|
            0 <= j < gs[i].1.len() ==> (#[trigger] gs[i].1[j]).0 == gs[i].0)
    &&& forall|i: int| 0 <= i < gs.len() - 1 ==> (#[trigger] gs[i]).0 != gs[i + 1].0
}

/// Group a stream of records into contiguous per-tile batches, one batch
/// per run of equal tile id.  The concatenation of the batches is exactly
/// the input stream: every record appears exactly once, in order.
pub fn group_sorted(records: &Vec<SerializedSlicedFeature>) -> (groups: Vec<
    (u64, Vec<SerializedSlicedFeature>),
>)
    ensures
        group_views(view_groups(groups@)) =~= view_records(records@),
        wf_groups(view_groups(groups@)),
{
    let n = records.len();
    let mut groups: Vec<(u64, Vec<SerializedSlicedFeature>)> = Vec::new();
    let mut i: usize = 0;
    while i < n
        invariant
            i <= n,
            n == records@.len(),
            group_views(view_groups(groups@)) =~= view_records(records@).subrange(0, i as int),
            wf_groups(view_groups(groups@)),
        decreases n - i,
    {
        let record = copy_record(&records[i]);
        let tid = record.tile_id;
        let m = groups.len();
        let mut start_new = true;
        if m > 0 {
            let last_id = groups[m - 1].0;
            if last_id == tid {
                start_new = false;
            }
        }
        let ghost before = groups@;
        let ghost rv = view_records(records@);
        if start_new {
            let mut batch: Vec<SerializedSlicedFeature> = Vec::new();
            batch.push(record);
            groups.push((tid, batch));
            proof {
                assert(view_groups(groups@).drop_last() =~= view_groups(before));
                assert(view_groups(groups@).last().1 =~= seq![rv[i as int]]);
                assert(group_views(view_groups(groups@)) =~= group_views(view_groups(before))
                    + seq![rv[i as int]]);
                assert(group_views(view_groups(groups@)) =~= rv.subrange(0, i + 1 as int));
                assert(wf_groups(view_groups(groups@))) by {
                    let gs = view_groups(groups@);
                    assert forall|k: int| 0 <= k < gs.len() implies (#[trigger] gs[k]).1.len() > 0
                        && (forall|j: int|
                        0 <= j < gs[k].1.len() ==> (#[trigger] gs[k].1[j]).0 == gs[k].0) by {
                        if k < gs.len() - 1 {
                            assert(gs[k] == view_groups(before)[k]);
                        } else {
                            assert(gs[k].1 =~= seq![rv[i as int]]);
                        }
                    }
                    assert forall|k: int| 0 <= k < gs.len() - 1 implies (#[trigger] gs[k]).0 != gs[k
                        + 1].0 by {
                        if k < gs.len() - 2 {
                            assert(gs[k] == view_groups(before)[k]);
                            assert(gs[k + 1] == view_groups(before)[k + 1]);
                        } else {
                            assert(gs[k] == view_groups(before)[k]);
                        }
                    }
                }
            }
        } else {
            let last = &mut groups[m - 1];
            last.1.push(record);
            proof {
                let gs = view_groups(groups@);
                let bs = view_groups(before);
                assert(gs.drop_last() =~= bs.drop_last());
                assert(gs.last().1 =~= bs.last().1.push(rv[i as int]));
                assert(gs.last().0 == bs.last().0);
                assert(group_views(gs) =~= group_views(gs.drop_last()) + gs.last().1);
                assert(group_views(bs.drop_last()) + bs.last().1.push(rv[i as int]) =~= (
                group_views(bs.drop_last()) + bs.last().1).push(rv[i as int]));
                assert(group_views(gs) =~= group_views(bs).push(rv[i as int]));
                assert(group_views(gs) =~= rv.subrange(0, i + 1 as int));
                assert(wf_groups(gs)) by {
                    assert forall|k: int| 0 <= k < gs.len() implies (#[trigger] gs[k]).1.len() > 0
                        && (forall|j: int|
                        0 <= j < gs[k].1.len() ==> (#[trigger] gs[k].1[j]).0 == gs[k].0) by {
                        if k < gs.len() - 1 {
                            assert(gs[k] == bs[k]);
                        } else {
                            assert(gs[k].1 =~= bs.last().1.push(rv[i as int]));
                            assert(bs[k].1.len() > 0);
                            assert forall|j: int| 0 <= j < gs[k].1.len() implies (#[trigger] gs[k].1[j]).0
                                == gs[k].0 by {
                                if j < bs[k].1.len() {
                                    assert(gs[k].1[j] == bs[k].1[j]);
                                } else {
                                    assert(gs[k].1[j] == rv[i as int]);
                                }
                            }
                        }
                    }
                    assert forall|k: int| 0 <= k < gs.len() - 1 implies (#[trigger] gs[k]).0 != gs[k
                        + 1].0 by {
                        assert(gs[k] == bs[k] || gs[k].0 == bs[k].0);
                        assert(gs[k + 1].0 == bs[k + 1].0);
                    }
                }
            }
        }
        i = i + 1;
    }
    proof {
        assert(view_records(records@).subrange(0, n as int) =~= view_records(records@));
    }
    groups
}

/// Sort completeness: a stream that sorting reordered and grouping
/// batched still holds every input record exactly once — the flattened
/// batches are a permutation of the input — and each tile id's batch
/// carries the same records the input held for that id.
pub proof fn lemma_sort_completeness(
    input: Seq<(u64, Seq<u8>)>,
    sorted: Seq<(u64, Seq<u8>)>,
    groups: Seq<(u64, Seq<(u64, Seq<u8>)>)>,
)
    requires
        sorted.to_multiset() == input.to_multiset(),
        group_views(groups) == sorted,
    ensures
        group_views(groups).to_multiset() == input.to_multiset(),
        group_views(groups).len() == input.len(),
{
    group_views(groups).to_multiset_ensures();
    input.to_multiset_ensures();
}

} // verus!
