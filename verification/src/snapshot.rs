//! Volume shadow copies: parsing `vssadmin` output, retention, and rollback bookkeeping.

pub mod vssadmin;
pub mod rollback;

use vstd::prelude::*;
use crate::events::types::SnapshotInfo;

verus! {

/// `sorted` with `x` inserted after every shadow copy that is not newer than it.
pub open spec fn insert_by_time(sorted: Seq<SnapshotInfo>, x: SnapshotInfo) -> Seq<SnapshotInfo>
    decreases sorted.len(),
{
    if sorted.len() == 0 {
        seq![x]
    } else if sorted.last().created_at <= x.created_at {
        sorted.push(x)
    } else {
        insert_by_time(sorted.drop_last(), x).push(sorted.last())
    }
}

/// The shadow copies oldest first; copies made at the same time keep their order.
pub open spec fn sort_by_time(s: Seq<SnapshotInfo>) -> Seq<SnapshotInfo>
    decreases s.len(),
{
    if s.len() == 0 {
        Seq::empty()
    } else {
        insert_by_time(sort_by_time(s.drop_last()), s.last())
    }
}

/// Whether the shadow copies are oldest first.
pub open spec fn oldest_first(s: Seq<SnapshotInfo>) -> bool {
    forall|i: int, j: int| 0 <= i <= j < s.len() ==> s[i].created_at <= s[j].created_at
}

/// The shadow copies that retention deletes, in the order it deletes them: the oldest,
/// until no more than `max_retained` are left.
pub open spec fn retention_victims_spec(s: Seq<SnapshotInfo>, max_retained: nat) -> Seq<SnapshotInfo> {
    if s.len() > max_retained {
        sort_by_time(s).take(s.len() - max_retained)
    } else {
        Seq::empty()
    }
}

proof fn lemma_insert_by_time(sorted: Seq<SnapshotInfo>, x: SnapshotInfo)
    requires
        oldest_first(sorted),
    ensures
        oldest_first(insert_by_time(sorted, x)),
        insert_by_time(sorted, x).len() == sorted.len() + 1,
        insert_by_time(sorted, x).to_multiset() == sorted.to_multiset().insert(x),
    decreases sorted.len(),
{
    broadcast use vstd::seq_lib::group_to_multiset_ensures;
    if sorted.len() > 0 && sorted.last().created_at > x.created_at {
        let front = sorted.drop_last();
        lemma_insert_by_time(front, x);
        let ins = insert_by_time(front, x);
        assert(sorted =~= front.push(sorted.last()));
        assert forall|k: int| 0 <= k < ins.len() implies ins[k].created_at <= sorted.last().created_at by {
            assert(ins.to_multiset().count(ins[k]) > 0);
            if ins[k] != x {
                assert(front.to_multiset().count(ins[k]) > 0);
                let m = choose|m: int| 0 <= m < front.len() && front[m] == ins[k];
                assert(sorted[m] == ins[k]);
            }
        }
        assert(ins.push(sorted.last()).to_multiset() =~= sorted.to_multiset().insert(x));
    }
}

/// Sorting oldest first orders the shadow copies and keeps every one of them.
pub proof fn lemma_sort_by_time(s: Seq<SnapshotInfo>)
    ensures
        oldest_first(sort_by_time(s)),
        sort_by_time(s).to_multiset() == s.to_multiset(),
        sort_by_time(s).len() == s.len(),
    decreases s.len(),
{
    broadcast use vstd::seq_lib::group_to_multiset_ensures;
    if s.len() > 0 {
        lemma_sort_by_time(s.drop_last());
        lemma_insert_by_time(sort_by_time(s.drop_last()), s.last());
        assert(s =~= s.drop_last().push(s.last()));
    }
}

fn insert_exec(v: &mut Vec<SnapshotInfo>, x: SnapshotInfo)
    ensures
        final(v)@ == insert_by_time(old(v)@, x),
{
    let ghost start = v@;
    let mut i: usize = v.len();
    assert(start.take(i as int) =~= start);
    assert(start.skip(i as int) =~= Seq::<SnapshotInfo>::empty());
    assert(insert_by_time(start, x) =~= insert_by_time(start.take(i as int), x) + start.skip(i as int));
    while i > 0 && v[i - 1].created_at > x.created_at
        invariant
            i <= v@.len(),
            v@ == start,
            insert_by_time(start, x) == insert_by_time(start.take(i as int), x) + start.skip(i as int),
        decreases i,
    {
        let ghost t = start.take(i as int);
        assert(t.drop_last() =~= start.take(i - 1));
        assert(seq![t.last()] + start.skip(i as int) =~= start.skip(i - 1));
        assert(insert_by_time(t, x) == insert_by_time(t.drop_last(), x).push(t.last()));
        assert(insert_by_time(t.drop_last(), x).push(t.last()) + start.skip(i as int)
            =~= insert_by_time(t.drop_last(), x) + start.skip(i - 1));
        i = i - 1;
    }
    proof {
        let t = start.take(i as int);
        if i > 0 {
            assert(t.last() == start[i - 1]);
            assert(insert_by_time(t, x) == t.push(x));
        } else {
            assert(t =~= Seq::<SnapshotInfo>::empty());
        }
    }
    v.insert(i, x);
    assert(v@ =~= insert_by_time(start, x));
}

/// The shadow copies oldest first, copies made at the same time in their listed order.
pub fn sort_oldest_first(shadows: Vec<SnapshotInfo>) -> (r: Vec<SnapshotInfo>)
    ensures
        r@ == sort_by_time(shadows@),
{
    let ghost s = shadows@;
    let mut sorted: Vec<SnapshotInfo> = Vec::new();
    let mut rest = shadows;
    let mut i: usize = 0;
    let n = rest.len();
    assert(s.skip(0) =~= s);
    while rest.len() > 0
        invariant
            n == s.len(),
            i + rest@.len() == s.len(),
            i <= s.len(),
            rest@ == s.skip(i as int),
            sorted@ == sort_by_time(s.take(i as int)),
        decreases rest@.len(),
    {
        let x = rest.remove(0);
        assert(x == s[i as int]);
        assert(s.take(i + 1).drop_last() =~= s.take(i as int));
        assert(s.skip(i + 1) =~= rest@);
        insert_exec(&mut sorted, x);
        i = i + 1;
    }
    assert(s.take(s.len() as int) =~= s);
    sorted
}

/// The shadow copies that retention deletes, in the order it deletes them: oldest first,
/// until no more than `max_retained` are left.
pub fn retention_victims(shadows: Vec<SnapshotInfo>, max_retained: usize) -> (r: Vec<SnapshotInfo>)
    ensures
        r@ == retention_victims_spec(shadows@, max_retained as nat),
{
    let ghost s = shadows@;
    let n = shadows.len();
    let mut sorted = sort_oldest_first(shadows);
    proof {
        lemma_sort_by_time(s);
    }
    if n <= max_retained {
        return Vec::new();
    }
    let k = n - max_retained;
    sorted.truncate(k);
    assert(sorted@ =~= sort_by_time(s).take(k as int));
    sorted
}

/// Retention deletes exactly the excess over `max_retained`, and never a shadow copy newer
/// than one it keeps.
pub proof fn lemma_retention_keeps_newest(s: Seq<SnapshotInfo>, max_retained: nat)
    ensures
        retention_victims_spec(s, max_retained).len() == (if s.len() > max_retained {
            s.len() - max_retained
        } else {
            0
        }),
        forall|i: int, j: int|
            0 <= i < retention_victims_spec(s, max_retained).len() && retention_victims_spec(
                s,
                max_retained,
            ).len() <= j < s.len() ==> #[trigger] retention_victims_spec(s, max_retained)[i].created_at
                <= #[trigger] sort_by_time(s)[j].created_at,
{
    lemma_sort_by_time(s);
}

/// The shadow copy that a rollback uses where some exist: the last one listed.
pub fn latest_shadow(shadows: Vec<SnapshotInfo>) -> (r: Option<SnapshotInfo>)
    ensures
        r == (if shadows@.len() > 0 {
            Some(shadows@.last())
        } else {
            None
        }),
{
    let mut shadows = shadows;
    shadows.pop()
}

} // verus!
