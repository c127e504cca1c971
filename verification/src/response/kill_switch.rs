//! Which processes the kill switch terminates, and in which order: the tree of a process in
//! a table of processes, and that table as `ps` prints it. Enumerating and signalling
//! processes is the application's.

use vstd::prelude::*;
use crate::num::{parse_u32, parse_u32_spec};
use crate::text::{
    chars_of, is_space, is_space_char, lines_spec, slice_range, split_lines, trim, trim_spec, views,
};

verus! {

/// The children of `parent` in a process table of `(pid, parent pid)` entries, in table order.
pub open spec fn children_of(procs: Seq<(u32, u32)>, parent: u32) -> Seq<u32>
    decreases procs.len(),
{
    if procs.len() == 0 {
        Seq::empty()
    } else {
        let rest = children_of(procs.drop_last(), parent);
        if procs.last().1 == parent {
            rest.push(procs.last().0)
        } else {
            rest
        }
    }
}

/// `seen` extended by the pids of `cs` that it does not hold yet, in order.
pub open spec fn add_new(seen: Seq<u32>, cs: Seq<u32>) -> Seq<u32>
    decreases cs.len(),
{
    if cs.len() == 0 {
        seen
    } else {
        let s = add_new(seen, cs.drop_last());
        if s.contains(cs.last()) {
            s
        } else {
            s.push(cs.last())
        }
    }
}

/// `seen` extended by the new children of each pid of `frontier`, in order.
pub open spec fn expand_frontier(procs: Seq<(u32, u32)>, frontier: Seq<u32>, seen: Seq<u32>) -> Seq<
    u32,
>
    decreases frontier.len(),
{
    if frontier.len() == 0 {
        seen
    } else {
        add_new(
            expand_frontier(procs, frontier.drop_last(), seen),
            children_of(procs, frontier.last()),
        )
    }
}

/// Breadth-first search from `frontier`, for at most `fuel` levels: each level is the new
/// children of the one before it, and `seen` holds every pid found so far, in the order found.
pub open spec fn bfs(procs: Seq<(u32, u32)>, frontier: Seq<u32>, seen: Seq<u32>, fuel: nat) -> Seq<
    u32,
>
    decreases fuel,
{
    if fuel == 0 || frontier.len() == 0 {
        seen
    } else {
        let next = expand_frontier(procs, frontier, seen);
        bfs(procs, next.subrange(seen.len() as int, next.len() as int), next, (fuel - 1) as nat)
    }
}

/// The process tree of `root` in breadth-first order, root first. Every level but the last
/// adds a pid of the table, so one level more than the table has entries finds them all.
pub open spec fn tree_order(root: u32, procs: Seq<(u32, u32)>) -> Seq<u32> {
    bfs(procs, seq![root], seq![root], procs.len() + 1)
}

/// The order in which the tree of `root` is killed: children first, the root last.
pub open spec fn kill_order_spec(root: u32, procs: Seq<(u32, u32)>) -> Seq<u32> {
    tree_order(root, procs).reverse()
}

proof fn lemma_add_new(seen: Seq<u32>, cs: Seq<u32>)
    ensures
        add_new(seen, cs).len() >= seen.len(),
        add_new(seen, cs).subrange(0, seen.len() as int) == seen,
        seen.no_duplicates() ==> add_new(seen, cs).no_duplicates(),
    decreases cs.len(),
{
    if cs.len() > 0 {
        lemma_add_new(seen, cs.drop_last());
        let s = add_new(seen, cs.drop_last());
        assert(s.push(cs.last()).subrange(0, seen.len() as int) =~= s.subrange(0, seen.len() as int));
    }
}

proof fn lemma_expand(procs: Seq<(u32, u32)>, frontier: Seq<u32>, seen: Seq<u32>)
    ensures
        expand_frontier(procs, frontier, seen).len() >= seen.len(),
        expand_frontier(procs, frontier, seen).subrange(0, seen.len() as int) == seen,
        seen.no_duplicates() ==> expand_frontier(procs, frontier, seen).no_duplicates(),
    decreases frontier.len(),
{
    if frontier.len() > 0 {
        let e = expand_frontier(procs, frontier.drop_last(), seen);
        lemma_expand(procs, frontier.drop_last(), seen);
        lemma_add_new(e, children_of(procs, frontier.last()));
        let r = add_new(e, children_of(procs, frontier.last()));
        assert(r.subrange(0, seen.len() as int) =~= r.subrange(0, e.len() as int).subrange(
            0,
            seen.len() as int,
        ));
    }
}

/// Breadth-first search keeps what it has found first, and finds no pid twice.
pub proof fn lemma_bfs(procs: Seq<(u32, u32)>, frontier: Seq<u32>, seen: Seq<u32>, fuel: nat)
    ensures
        bfs(procs, frontier, seen, fuel).len() >= seen.len(),
        bfs(procs, frontier, seen, fuel).subrange(0, seen.len() as int) == seen,
        seen.no_duplicates() ==> bfs(procs, frontier, seen, fuel).no_duplicates(),
    decreases fuel,
{
    if fuel > 0 && frontier.len() > 0 {
        let next = expand_frontier(procs, frontier, seen);
        lemma_expand(procs, frontier, seen);
        let nf = next.subrange(seen.len() as int, next.len() as int);
        lemma_bfs(procs, nf, next, (fuel - 1) as nat);
        let r = bfs(procs, nf, next, (fuel - 1) as nat);
        assert(r.subrange(0, seen.len() as int) =~= r.subrange(0, next.len() as int).subrange(
            0,
            seen.len() as int,
        ));
    }
}

/// Whether the table lists `c` as a child of `p`.
pub open spec fn child_of(procs: Seq<(u32, u32)>, c: u32, p: u32) -> bool {
    procs.contains((c, p))
}

/// Whether the parent of `s[k]`, by the table, comes before it in `s`.
pub open spec fn has_parent_before(procs: Seq<(u32, u32)>, s: Seq<u32>, k: int) -> bool {
    exists|j: int| 0 <= j < k && #[trigger] child_of(procs, s[k], s[j])
}

/// Every pid after the first has its parent, by the table, somewhere before it.
pub open spec fn parent_before(procs: Seq<(u32, u32)>, s: Seq<u32>) -> bool {
    forall|k: int| 1 <= k < s.len() ==> #[trigger] has_parent_before(procs, s, k)
}

proof fn lemma_children_of(procs: Seq<(u32, u32)>, parent: u32)
    ensures
        forall|i: int|
            0 <= i < children_of(procs, parent).len() ==> child_of(
                procs,
                #[trigger] children_of(procs, parent)[i],
                parent,
            ),
    decreases procs.len(),
{
    if procs.len() > 0 {
        let front = procs.drop_last();
        lemma_children_of(front, parent);
        let rest = children_of(front, parent);
        assert forall|i: int| 0 <= i < rest.len() implies child_of(procs, #[trigger] rest[i], parent) by {
            assert(child_of(front, rest[i], parent));
            let t = choose|t: int| 0 <= t < front.len() && front[t] == (rest[i], parent);
            assert(procs[t] == front[t]);
        }
        if procs.last().1 == parent {
            assert(procs[procs.len() - 1] == procs.last());
            let all = rest.push(procs.last().0);
            assert forall|i: int| 0 <= i < all.len() implies child_of(procs, #[trigger] all[i], parent) by {
                if i < rest.len() {
                    assert(all[i] == rest[i]);
                } else {
                    assert(procs[procs.len() - 1] == (all[i], parent));
                }
            }
        }
    }
}

proof fn lemma_add_new_parents(procs: Seq<(u32, u32)>, seen: Seq<u32>, cs: Seq<u32>, jp: int)
    requires
        parent_before(procs, seen),
        0 <= jp < seen.len(),
        forall|i: int| 0 <= i < cs.len() ==> child_of(procs, #[trigger] cs[i], seen[jp]),
    ensures
        parent_before(procs, add_new(seen, cs)),
    decreases cs.len(),
{
    if cs.len() > 0 {
        let front = cs.drop_last();
        assert forall|i: int| 0 <= i < front.len() implies child_of(procs, #[trigger] front[i], seen[jp]) by {
            assert(front[i] == cs[i]);
        }
        lemma_add_new_parents(procs, seen, front, jp);
        lemma_add_new(seen, front);
        let s = add_new(seen, front);
        if s.contains(cs.last()) {
            assert(add_new(seen, cs) == s);
        } else {
            let t = s.push(cs.last());
            assert(add_new(seen, cs) == t);
            assert(s[jp] == seen[jp]) by {
                assert(s.subrange(0, seen.len() as int)[jp] == s[jp]);
            }
            assert(child_of(procs, cs[cs.len() - 1], seen[jp]));
            assert forall|k: int| 1 <= k < t.len() implies #[trigger] has_parent_before(procs, t, k) by {
                if k < s.len() {
                    assert(s[k] == t[k]);
                    assert(has_parent_before(procs, s, k));
                    let j = choose|j: int| 0 <= j < k && #[trigger] child_of(procs, s[k], s[j]);
                    assert(t[j] == s[j]);
                    assert(child_of(procs, t[k], t[j]));
                } else {
                    assert(t[k] == cs.last() && t[jp] == seen[jp]);
                    assert(child_of(procs, t[k], t[jp]));
                }
            }
        }
    }
}

proof fn lemma_expand_parents(procs: Seq<(u32, u32)>, frontier: Seq<u32>, seen: Seq<u32>)
    requires
        parent_before(procs, seen),
        forall|i: int| 0 <= i < frontier.len() ==> seen.contains(#[trigger] frontier[i]),
    ensures
        parent_before(procs, expand_frontier(procs, frontier, seen)),
    decreases frontier.len(),
{
    if frontier.len() > 0 {
        let front = frontier.drop_last();
        assert forall|i: int| 0 <= i < front.len() implies seen.contains(#[trigger] front[i]) by {
            assert(front[i] == frontier[i]);
        }
        lemma_expand_parents(procs, front, seen);
        lemma_expand(procs, front, seen);
        let e = expand_frontier(procs, front, seen);
        let f = frontier.last();
        assert(seen.contains(frontier[frontier.len() - 1]));
        let jp = choose|jp: int| 0 <= jp < seen.len() && seen[jp] == f;
        assert(e[jp] == seen[jp]) by {
            assert(e.subrange(0, seen.len() as int)[jp] == e[jp]);
        }
        lemma_children_of(procs, f);
        lemma_add_new_parents(procs, e, children_of(procs, f), jp);
    }
}

proof fn lemma_bfs_parents(procs: Seq<(u32, u32)>, frontier: Seq<u32>, seen: Seq<u32>, fuel: nat)
    requires
        parent_before(procs, seen),
        forall|i: int| 0 <= i < frontier.len() ==> seen.contains(#[trigger] frontier[i]),
    ensures
        parent_before(procs, bfs(procs, frontier, seen, fuel)),
    decreases fuel,
{
    if fuel > 0 && frontier.len() > 0 {
        let next = expand_frontier(procs, frontier, seen);
        lemma_expand(procs, frontier, seen);
        lemma_expand_parents(procs, frontier, seen);
        let nf = next.subrange(seen.len() as int, next.len() as int);
        assert forall|i: int| 0 <= i < nf.len() implies next.contains(#[trigger] nf[i]) by {
            assert(next[seen.len() + i] == nf[i]);
        }
        lemma_bfs_parents(procs, nf, next, (fuel - 1) as nat);
    }
}

/// Whether the parent of `r[k]`, by the table, comes after it in `r`.
pub open spec fn has_parent_after(procs: Seq<(u32, u32)>, r: Seq<u32>, k: int) -> bool {
    exists|j: int| k < j < r.len() && #[trigger] child_of(procs, r[k], r[j])
}

/// Every pid but the last has its parent, by the table, somewhere after it.
pub open spec fn parent_after(procs: Seq<(u32, u32)>, r: Seq<u32>) -> bool {
    forall|k: int| 0 <= k < r.len() - 1 ==> #[trigger] has_parent_after(procs, r, k)
}

/// In the kill order, every process but the root comes before its parent, by the table:
/// children are killed first.
pub proof fn lemma_children_first(root: u32, procs: Seq<(u32, u32)>)
    ensures
        parent_after(procs, kill_order_spec(root, procs)),
{
    let s0 = seq![root];
    assert forall|i: int| 0 <= i < s0.len() implies s0.contains(#[trigger] s0[i]) by {
        assert(s0[0] == root);
    }
    assert(parent_before(procs, s0));
    lemma_bfs_parents(procs, s0, s0, procs.len() + 1);
    let t = tree_order(root, procs);
    let r = kill_order_spec(root, procs);
    assert forall|k: int| 0 <= k < r.len() - 1 implies #[trigger] has_parent_after(procs, r, k) by {
        let kk = t.len() - 1 - k;
        assert(r[k] == t[kk]);
        assert(1 <= kk < t.len());
        assert(has_parent_before(procs, t, kk));
        let jj = choose|jj: int| 0 <= jj < kk && #[trigger] child_of(procs, t[kk], t[jj]);
        let j = t.len() - 1 - jj;
        assert(r[j] == t[jj]);
        assert(child_of(procs, r[k], r[j]));
    }
}

proof fn lemma_children_of_complete(procs: Seq<(u32, u32)>, parent: u32, c: u32)
    requires
        child_of(procs, c, parent),
    ensures
        children_of(procs, parent).contains(c),
    decreases procs.len(),
{
    let front = procs.drop_last();
    let rest = children_of(front, parent);
    let t = choose|t: int| 0 <= t < procs.len() && procs[t] == (c, parent);
    if t == procs.len() - 1 {
        assert(procs.last() == (c, parent));
        assert(children_of(procs, parent)[rest.len() as int] == c);
    } else {
        assert(front[t] == procs[t]);
        lemma_children_of_complete(front, parent, c);
        let w = choose|w: int| 0 <= w < rest.len() && rest[w] == c;
        if procs.last().1 == parent {
            assert(children_of(procs, parent)[w] == c);
        }
    }
}

proof fn lemma_add_new_contains(seen: Seq<u32>, cs: Seq<u32>)
    ensures
        forall|x: u32| seen.contains(x) ==> #[trigger] add_new(seen, cs).contains(x),
        forall|i: int| 0 <= i < cs.len() ==> add_new(seen, cs).contains(#[trigger] cs[i]),
    decreases cs.len(),
{
    if cs.len() > 0 {
        let front = cs.drop_last();
        lemma_add_new_contains(seen, front);
        let s = add_new(seen, front);
        let t = add_new(seen, cs);
        assert forall|x: u32| s.contains(x) implies t.contains(x) by {
            let w = choose|w: int| 0 <= w < s.len() && s[w] == x;
            if !s.contains(cs.last()) {
                assert(t[w] == x);
            }
        }
        assert forall|i: int| 0 <= i < cs.len() implies t.contains(#[trigger] cs[i]) by {
            if i < front.len() {
                assert(front[i] == cs[i]);
                assert(s.contains(front[i]));
            } else if !s.contains(cs.last()) {
                assert(t[s.len() as int] == cs.last());
            }
        }
    }
}

proof fn lemma_expand_contains(procs: Seq<(u32, u32)>, frontier: Seq<u32>, seen: Seq<u32>)
    ensures
        forall|x: u32| seen.contains(x) ==> #[trigger] expand_frontier(procs, frontier, seen).contains(x),
        forall|i: int, c: u32|
            0 <= i < frontier.len() && #[trigger] child_of(procs, c, frontier[i])
                ==> expand_frontier(procs, frontier, seen).contains(c),
    decreases frontier.len(),
{
    if frontier.len() > 0 {
        let front = frontier.drop_last();
        lemma_expand_contains(procs, front, seen);
        let e = expand_frontier(procs, front, seen);
        let cs = children_of(procs, frontier.last());
        lemma_add_new_contains(e, cs);
        let r = expand_frontier(procs, frontier, seen);
        assert forall|x: u32| seen.contains(x) implies #[trigger] r.contains(x) by {
            assert(e.contains(x));
        }
        assert forall|i: int, c: u32|
            0 <= i < frontier.len() && #[trigger] child_of(procs, c, frontier[i]) implies r.contains(c) by {
            if i < front.len() {
                assert(front[i] == frontier[i]);
                assert(child_of(procs, c, front[i]));
                assert(e.contains(c));
            } else {
                lemma_children_of_complete(procs, frontier.last(), c);
                let w = choose|w: int| 0 <= w < cs.len() && cs[w] == c;
                assert(r.contains(cs[w]));
            }
        }
    }
}

/// Whether every child, by the table, of a pid of `seen` that is not on `frontier` is in `seen`.
pub open spec fn closed_but(procs: Seq<(u32, u32)>, seen: Seq<u32>, frontier: Seq<u32>) -> bool {
    forall|c: u32, p: u32|
        seen.contains(p) && !frontier.contains(p) && #[trigger] child_of(procs, c, p) ==> seen.contains(c)
}

/// A list of distinct pids, the first `root` and each later one listed by the table as a
/// child, is at most one longer than the table.
proof fn lemma_tree_len(procs: Seq<(u32, u32)>, root: u32, s: Seq<u32>)
    requires
        s.no_duplicates(),
        s.len() >= 1,
        s[0] == root,
        parent_before(procs, s),
    ensures
        s.len() <= procs.len() + 1,
{
    let firsts = procs.map_values(|e: (u32, u32)| e.0);
    let u = seq![root] + firsts;
    assert forall|x: u32| s.to_set().contains(x) implies u.to_set().contains(x) by {
        let k = choose|k: int| 0 <= k < s.len() && s[k] == x;
        if k == 0 {
            assert(u[0] == root);
        } else {
            assert(has_parent_before(procs, s, k));
            let j = choose|j: int| 0 <= j < k && #[trigger] child_of(procs, s[k], s[j]);
            let t = choose|t: int| 0 <= t < procs.len() && procs[t] == (s[k], s[j]);
            assert(u[t + 1] == firsts[t]);
        }
    }
    s.unique_seq_to_set();
    u.lemma_cardinality_of_set();
    vstd::set_lib::lemma_len_subset(s.to_set(), u.to_set());
}

proof fn lemma_bfs_closed(procs: Seq<(u32, u32)>, root: u32, frontier: Seq<u32>, seen: Seq<u32>, fuel: nat)
    requires
        closed_but(procs, seen, frontier),
        forall|i: int| 0 <= i < frontier.len() ==> seen.contains(#[trigger] frontier[i]),
        seen.no_duplicates(),
        seen.len() >= 1,
        seen[0] == root,
        parent_before(procs, seen),
        frontier.len() > 0 ==> seen.len() + fuel >= procs.len() + 2,
    ensures
        closed_but(procs, bfs(procs, frontier, seen, fuel), Seq::empty()),
    decreases fuel,
{
    if fuel == 0 || frontier.len() == 0 {
        if frontier.len() > 0 {
            lemma_tree_len(procs, root, seen);
        }
        assert forall|c: u32, p: u32|
            seen.contains(p) && !Seq::<u32>::empty().contains(p) && #[trigger] child_of(procs, c, p)
                implies seen.contains(c) by {
            assert(!frontier.contains(p));
        }
    } else {
        let next = expand_frontier(procs, frontier, seen);
        lemma_expand(procs, frontier, seen);
        lemma_expand_parents(procs, frontier, seen);
        lemma_expand_contains(procs, frontier, seen);
        let nf = next.subrange(seen.len() as int, next.len() as int);
        assert forall|i: int| 0 <= i < nf.len() implies next.contains(#[trigger] nf[i]) by {
            assert(next[seen.len() + i] == nf[i]);
        }
        assert(next[0] == seen[0]) by {
            assert(next.subrange(0, seen.len() as int)[0] == next[0]);
        }
        assert forall|c: u32, p: u32|
            next.contains(p) && !nf.contains(p) && #[trigger] child_of(procs, c, p) implies next.contains(c) by {
            let w = choose|w: int| 0 <= w < next.len() && next[w] == p;
            if w >= seen.len() {
                assert(nf[w - seen.len()] == p);
            }
            assert(seen[w] == next[w]) by {
                assert(next.subrange(0, seen.len() as int)[w] == next[w]);
            }
            assert(seen.contains(p));
            if frontier.contains(p) {
                let i = choose|i: int| 0 <= i < frontier.len() && frontier[i] == p;
                assert(child_of(procs, c, frontier[i]));
            } else {
                assert(seen.contains(c));
            }
        }
        lemma_bfs_closed(procs, root, nf, next, (fuel - 1) as nat);
    }
}

/// Every child, by the table, of a process in the kill order is in the kill order too: the
/// kill switch takes the whole tree, each descendant of the root with it.
pub proof fn lemma_whole_tree(root: u32, procs: Seq<(u32, u32)>)
    ensures
        forall|c: u32, p: u32|
            kill_order_spec(root, procs).contains(p) && #[trigger] child_of(procs, c, p)
                ==> kill_order_spec(root, procs).contains(c),
{
    let s0 = seq![root];
    assert forall|i: int| 0 <= i < s0.len() implies s0.contains(#[trigger] s0[i]) by {
        assert(s0[0] == root);
    }
    assert(parent_before(procs, s0));
    assert(s0.no_duplicates());
    assert forall|c: u32, p: u32| s0.contains(p) && !s0.contains(p) && #[trigger] child_of(procs, c, p)
        implies s0.contains(c) by {}
    lemma_bfs_closed(procs, root, s0, s0, procs.len() + 1);
    let t = tree_order(root, procs);
    let r = kill_order_spec(root, procs);
    assert forall|c: u32, p: u32| r.contains(p) && #[trigger] child_of(procs, c, p) implies r.contains(c) by {
        let w = choose|w: int| 0 <= w < r.len() && r[w] == p;
        assert(t[t.len() - 1 - w] == p);
        assert(t.contains(p));
        assert(!Seq::<u32>::empty().contains(p));
        assert(t.contains(c));
        let v = choose|v: int| 0 <= v < t.len() && t[v] == c;
        assert(r[t.len() - 1 - v] == c);
    }
}

proof fn lemma_add_new_from(seen: Seq<u32>, cs: Seq<u32>)
    ensures
        forall|k: int|
            seen.len() <= k < add_new(seen, cs).len() ==> cs.contains(#[trigger] add_new(seen, cs)[k]),
    decreases cs.len(),
{
    if cs.len() > 0 {
        let front = cs.drop_last();
        lemma_add_new_from(seen, front);
        lemma_add_new(seen, front);
        let s0 = add_new(seen, front);
        let t = add_new(seen, cs);
        assert forall|k: int| seen.len() <= k < t.len() implies cs.contains(#[trigger] t[k]) by {
            if k < s0.len() {
                assert(t[k] == s0[k]);
                let w = choose|w: int| 0 <= w < front.len() && front[w] == s0[k];
                assert(cs[w] == front[w]);
            } else {
                assert(t[k] == cs[cs.len() - 1]);
            }
        }
    }
}

/// Whether the table lists `x` as a child of some pid of `frontier`.
pub open spec fn child_of_some(procs: Seq<(u32, u32)>, frontier: Seq<u32>, x: u32) -> bool {
    exists|i: int| 0 <= i < frontier.len() && #[trigger] child_of(procs, x, frontier[i])
}

proof fn lemma_expand_from_frontier(procs: Seq<(u32, u32)>, frontier: Seq<u32>, seen: Seq<u32>)
    ensures
        forall|k: int|
            seen.len() <= k < expand_frontier(procs, frontier, seen).len() ==> #[trigger] child_of_some(
                procs,
                frontier,
                expand_frontier(procs, frontier, seen)[k],
            ),
    decreases frontier.len(),
{
    if frontier.len() > 0 {
        let front = frontier.drop_last();
        lemma_expand_from_frontier(procs, front, seen);
        lemma_expand(procs, front, seen);
        let e = expand_frontier(procs, front, seen);
        let f = frontier.last();
        let cs = children_of(procs, f);
        lemma_add_new_from(e, cs);
        lemma_add_new(e, cs);
        lemma_children_of(procs, f);
        let r = expand_frontier(procs, frontier, seen);
        assert forall|k: int| seen.len() <= k < r.len() implies #[trigger] child_of_some(procs, frontier, r[k]) by {
            if k < e.len() {
                assert(r[k] == e[k]) by {
                    assert(r.subrange(0, e.len() as int)[k] == r[k]);
                }
                assert(child_of_some(procs, front, e[k]));
                let i = choose|i: int| 0 <= i < front.len() && #[trigger] child_of(procs, e[k], front[i]);
                assert(frontier[i] == front[i]);
                assert(child_of(procs, r[k], frontier[i]));
            } else {
                assert(cs.contains(r[k]));
                let w = choose|w: int| 0 <= w < cs.len() && cs[w] == r[k];
                assert(child_of(procs, cs[w], f));
                assert(frontier[frontier.len() - 1] == f);
                assert(child_of(procs, r[k], frontier[frontier.len() - 1]));
            }
        }
    }
}

/// Whether, at position `k` of `t`, some earlier pid is a parent of `t[k]` one level up.
pub open spec fn has_parent_at(procs: Seq<(u32, u32)>, t: Seq<u32>, lv: Seq<int>, k: int) -> bool {
    exists|j: int| 0 <= j < k && #[trigger] child_of(procs, t[k], t[j]) && lv[j] == lv[k] - 1
}

/// Whether `lv` gives the depth of each pid of the breadth-first list `t`: the first pid is
/// at depth 0, depths never decrease along `t`, every later pid has a parent one level up
/// before it, and no parent in `t` is more than one level above its child.
pub open spec fn depth_labels(procs: Seq<(u32, u32)>, t: Seq<u32>, lv: Seq<int>) -> bool {
    &&& lv.len() == t.len()
    &&& t.len() >= 1
    &&& lv[0] == 0
    &&& forall|a: int, b: int| 0 <= a <= b < t.len() ==> #[trigger] lv[a] <= #[trigger] lv[b]
    &&& forall|k: int| 1 <= k < t.len() ==> #[trigger] has_parent_at(procs, t, lv, k)
    &&& forall|k: int, j: int|
        0 <= k < t.len() && 0 <= j < t.len() && #[trigger] child_of(procs, t[k], t[j]) ==> lv[k]
            <= lv[j] + 1
}

proof fn lemma_bfs_depth(
    procs: Seq<(u32, u32)>,
    frontier: Seq<u32>,
    seen: Seq<u32>,
    lv: Seq<int>,
    s: int,
    d: int,
    fuel: nat,
)
    requires
        seen.no_duplicates(),
        depth_labels(procs, seen, lv),
        0 <= s <= seen.len(),
        frontier == seen.subrange(s, seen.len() as int),
        forall|k: int| s <= k < seen.len() ==> #[trigger] lv[k] == d,
        forall|k: int| 0 <= k < s ==> #[trigger] lv[k] < d,
        closed_but(procs, seen, frontier),
    ensures
        exists|lv2: Seq<int>| depth_labels(procs, bfs(procs, frontier, seen, fuel), lv2),
    decreases fuel,
{
    if fuel == 0 || frontier.len() == 0 {
        assert(depth_labels(procs, bfs(procs, frontier, seen, fuel), lv));
    } else {
        let next = expand_frontier(procs, frontier, seen);
        lemma_expand(procs, frontier, seen);
        lemma_expand_contains(procs, frontier, seen);
        lemma_expand_from_frontier(procs, frontier, seen);
        let n = seen.len() as int;
        let nf = next.subrange(n, next.len() as int);
        let lv2 = lv + Seq::new((next.len() - n) as nat, |i: int| d + 1);
        assert forall|k: int| 0 <= k < n implies next[k] == seen[k] by {
            assert(next.subrange(0, n)[k] == next[k]);
        }
        assert forall|k: int| n <= k < next.len() implies !seen.contains(#[trigger] next[k]) by {
            if seen.contains(next[k]) {
                let w = choose|w: int| 0 <= w < n && seen[w] == next[k];
                assert(next[w] == next[k]);
            }
        }
        assert forall|k: int| n <= k < next.len() implies #[trigger] has_parent_at(procs, next, lv2, k) by {
            assert(child_of_some(procs, frontier, next[k]));
            let i = choose|i: int| 0 <= i < frontier.len() && #[trigger] child_of(procs, next[k], frontier[i]);
            assert(frontier[i] == seen[s + i]);
            assert(next[s + i] == seen[s + i]);
            assert(lv2[s + i] == lv[s + i]);
            assert(child_of(procs, next[k], next[s + i]));
        }
        assert forall|k: int| 1 <= k < n implies #[trigger] has_parent_at(procs, next, lv2, k) by {
            assert(has_parent_at(procs, seen, lv, k));
            let j = choose|j: int| 0 <= j < k && #[trigger] child_of(procs, seen[k], seen[j]) && lv[j] == lv[k] - 1;
            assert(next[j] == seen[j] && next[k] == seen[k]);
            assert(lv2[j] == lv[j] && lv2[k] == lv[k]);
            assert(child_of(procs, next[k], next[j]));
        }
        assert forall|a: int, b: int| 0 <= a <= b < next.len() implies #[trigger] lv2[a] <= #[trigger] lv2[b] by {
            if b < n {
                assert(lv2[a] == lv[a] && lv2[b] == lv[b]);
            } else if a < n {
                assert(lv2[a] == lv[a]);
                if a >= s {
                    assert(lv[a] == d);
                } else {
                    assert(lv[a] < d);
                }
            }
        }
        assert forall|k: int, j: int|
            0 <= k < next.len() && 0 <= j < next.len() && #[trigger] child_of(procs, next[k], next[j])
                implies lv2[k] <= lv2[j] + 1 by {
            if k < n && j < n {
                assert(next[k] == seen[k] && next[j] == seen[j]);
                assert(child_of(procs, seen[k], seen[j]));
                assert(lv2[k] == lv[k] && lv2[j] == lv[j]);
            } else if k < n {
                assert(lv2[k] == lv[k]);
                if k >= s {
                    assert(lv[k] == d);
                } else {
                    assert(lv[k] < d);
                }
            } else if j < n {
                assert(lv2[j] == lv[j]);
                if j < s {
                    assert(next[j] == seen[j]);
                    assert(seen.contains(seen[j]));
                    assert(!frontier.contains(seen[j])) by {
                        if frontier.contains(seen[j]) {
                            let w = choose|w: int| 0 <= w < frontier.len() && frontier[w] == seen[j];
                            assert(seen[s + w] == seen[j]);
                        }
                    }
                    assert(seen.contains(next[k]));
                } else {
                    assert(lv[j] == d);
                }
            }
        }
        assert(depth_labels(procs, next, lv2));
        assert forall|k: int| n <= k < next.len() implies #[trigger] lv2[k] == d + 1 by {}
        assert forall|k: int| 0 <= k < n implies #[trigger] lv2[k] < d + 1 by {
            assert(lv2[k] == lv[k]);
            if k >= s {
                assert(lv[k] == d);
            }
        }
        assert forall|i: int| 0 <= i < nf.len() implies next.contains(#[trigger] nf[i]) by {
            assert(next[n + i] == nf[i]);
        }
        assert forall|c: u32, p: u32|
            next.contains(p) && !nf.contains(p) && #[trigger] child_of(procs, c, p) implies next.contains(c) by {
            let w = choose|w: int| 0 <= w < next.len() && next[w] == p;
            if w >= n {
                assert(nf[w - n] == p);
            }
            assert(seen.contains(p));
            if frontier.contains(p) {
                let i = choose|i: int| 0 <= i < frontier.len() && frontier[i] == p;
                assert(child_of(procs, c, frontier[i]));
            } else {
                assert(seen.contains(c));
            }
        }
        lemma_bfs_depth(procs, nf, next, lv2, n, d + 1, (fuel - 1) as nat);
        assert(bfs(procs, frontier, seen, fuel) == bfs(procs, nf, next, (fuel - 1) as nat));
    }
}

/// Whether `dep` gives the depth of each pid of the kill order `r`: the root, last, is at
/// depth 0, depths never increase along `r`, every pid but the root has a parent one level
/// up after it, and no parent in `r` is more than one level above its child.
pub open spec fn kill_depths(procs: Seq<(u32, u32)>, r: Seq<u32>, dep: Seq<int>) -> bool {
    &&& dep.len() == r.len()
    &&& r.len() >= 1
    &&& dep[r.len() - 1] == 0
    &&& forall|a: int, b: int| 0 <= a <= b < r.len() ==> #[trigger] dep[a] >= #[trigger] dep[b]
    &&& forall|k: int| 0 <= k < r.len() - 1 ==> #[trigger] has_parent_above(procs, r, dep, k)
    &&& forall|k: int, j: int|
        0 <= k < r.len() && 0 <= j < r.len() && #[trigger] child_of(procs, r[k], r[j]) ==> dep[k]
            <= dep[j] + 1
}

/// Whether, at position `k` of the kill order `r`, some later pid is a parent of `r[k]` one
/// level up.
pub open spec fn has_parent_above(procs: Seq<(u32, u32)>, r: Seq<u32>, dep: Seq<int>, k: int) -> bool {
    exists|j: int| k < j < r.len() && #[trigger] child_of(procs, r[k], r[j]) && dep[j] == dep[k] - 1
}

/// The kill order goes by depth in the tree: deepest processes first, each level before the
/// one above it, the root last.
pub proof fn lemma_kill_by_depth(root: u32, procs: Seq<(u32, u32)>)
    ensures
        exists|dep: Seq<int>| kill_depths(procs, kill_order_spec(root, procs), dep),
{
    let s0 = seq![root];
    let lv0 = seq![0int];
    assert(s0.no_duplicates());
    assert(s0.subrange(0, 1) =~= s0);
    assert forall|c: u32, p: u32| s0.contains(p) && !s0.contains(p) && #[trigger] child_of(procs, c, p)
        implies s0.contains(c) by {}
    assert(depth_labels(procs, s0, lv0));
    lemma_bfs_depth(procs, s0, s0, lv0, 0, 0, procs.len() + 1);
    let t = tree_order(root, procs);
    let lv = choose|lv: Seq<int>| depth_labels(procs, t, lv);
    let r = kill_order_spec(root, procs);
    let m = t.len() as int;
    let dep = lv.reverse();
    assert forall|k: int| 0 <= k < m implies r[k] == t[m - 1 - k] && dep[k] == lv[m - 1 - k] by {}
    assert forall|a: int, b: int| 0 <= a <= b < r.len() implies #[trigger] dep[a] >= #[trigger] dep[b] by {
        assert(lv[m - 1 - b] <= lv[m - 1 - a]);
    }
    assert forall|k: int| 0 <= k < r.len() - 1 implies #[trigger] has_parent_above(procs, r, dep, k) by {
        let kk = m - 1 - k;
        assert(has_parent_at(procs, t, lv, kk));
        let jj = choose|jj: int| 0 <= jj < kk && #[trigger] child_of(procs, t[kk], t[jj]) && lv[jj] == lv[kk] - 1;
        let j = m - 1 - jj;
        assert(r[j] == t[jj] && dep[j] == lv[jj]);
        assert(child_of(procs, r[k], r[j]));
    }
    assert forall|k: int, j: int|
        0 <= k < r.len() && 0 <= j < r.len() && #[trigger] child_of(procs, r[k], r[j]) implies dep[k]
            <= dep[j] + 1 by {
        assert(r[k] == t[m - 1 - k] && r[j] == t[m - 1 - j]);
        assert(child_of(procs, t[m - 1 - k], t[m - 1 - j]));
    }
    assert(kill_depths(procs, r, dep));
}

fn children_exec(procs: &[(u32, u32)], parent: u32) -> (r: Vec<u32>)
    ensures
        r@ == children_of(procs@, parent),
{
    let mut r: Vec<u32> = Vec::new();
    let mut i: usize = 0;
    while i < procs.len()
        invariant
            i <= procs@.len(),
            r@ == children_of(procs@.take(i as int), parent),
        decreases procs@.len() - i,
    {
        assert(procs@.take(i + 1).drop_last() =~= procs@.take(i as int));
        let (pid, ppid) = procs[i];
        if ppid == parent {
            r.push(pid);
        }
        i = i + 1;
    }
    assert(procs@.take(procs@.len() as int) =~= procs@);
    r
}

fn holds(v: &Vec<u32>, x: u32) -> (r: bool)
    ensures
        r == v@.contains(x),
{
    let mut i: usize = 0;
    while i < v.len()
        invariant
            i <= v@.len(),
            forall|j: int| 0 <= j < i ==> v@[j] != x,
        decreases v@.len() - i,
    {
        if v[i] == x {
            return true;
        }
        i = i + 1;
    }
    false
}

fn add_new_exec(seen: &mut Vec<u32>, cs: &Vec<u32>)
    ensures
        final(seen)@ == add_new(old(seen)@, cs@),
{
    let ghost start = seen@;
    let mut i: usize = 0;
    while i < cs.len()
        invariant
            i <= cs@.len(),
            seen@ == add_new(start, cs@.take(i as int)),
        decreases cs@.len() - i,
    {
        assert(cs@.take(i + 1).drop_last() =~= cs@.take(i as int));
        let c = cs[i];
        if !holds(seen, c) {
            seen.push(c);
        }
        i = i + 1;
    }
    assert(cs@.take(cs@.len() as int) =~= cs@);
}

fn expand_exec(procs: &[(u32, u32)], frontier: &Vec<u32>, seen: &mut Vec<u32>)
    ensures
        final(seen)@ == expand_frontier(procs@, frontier@, old(seen)@),
{
    let ghost start = seen@;
    let mut i: usize = 0;
    while i < frontier.len()
        invariant
            i <= frontier@.len(),
            seen@ == expand_frontier(procs@, frontier@.take(i as int), start),
        decreases frontier@.len() - i,
    {
        assert(frontier@.take(i + 1).drop_last() =~= frontier@.take(i as int));
        let kids = children_exec(procs, frontier[i]);
        add_new_exec(seen, &kids);
        i = i + 1;
    }
    assert(frontier@.take(frontier@.len() as int) =~= frontier@);
}

fn tail_from(v: &Vec<u32>, start: usize) -> (r: Vec<u32>)
    requires
        start <= v@.len(),
    ensures
        r@ == v@.subrange(start as int, v@.len() as int),
{
    let mut r: Vec<u32> = Vec::new();
    let mut i: usize = start;
    while i < v.len()
        invariant
            start <= i <= v@.len(),
            r@ == v@.subrange(start as int, i as int),
        decreases v@.len() - i,
    {
        r.push(v[i]);
        i = i + 1;
        assert(r@ =~= v@.subrange(start as int, i as int));
    }
    r
}

/// The process tree of `root` in the table `procs` of `(pid, parent pid)` entries, in the
/// order in which it is killed: each level of descendants before the one above it, the root
/// last. No pid occurs twice, also where the table's parent links form a cycle, every pid
/// but the root comes before its parent, every child of a pid in it is in it too, and the
/// pids come by depth, deepest first (`kill_depths`).
pub fn kill_order(root: u32, procs: &[(u32, u32)]) -> (r: Vec<u32>)
    ensures
        r@ == kill_order_spec(root, procs@),
        r@.len() >= 1,
        r@.last() == root,
        r@.no_duplicates(),
        parent_after(procs@, r@),
        forall|c: u32, p: u32| r@.contains(p) && #[trigger] child_of(procs@, c, p) ==> r@.contains(c),
        exists|dep: Seq<int>| kill_depths(procs@, r@, dep),
{
    let mut seen: Vec<u32> = Vec::new();
    seen.push(root);
    let mut frontier: Vec<u32> = Vec::new();
    frontier.push(root);
    let mut fuel: u128 = procs.len() as u128 + 1;
    while fuel > 0 && frontier.len() > 0
        invariant
            fuel <= procs@.len() + 1,
            bfs(procs@, frontier@, seen@, fuel as nat) == tree_order(root, procs@),
        decreases fuel,
    {
        let before = seen.len();
        let ghost old_seen = seen@;
        expand_exec(procs, &frontier, &mut seen);
        proof {
            lemma_expand(procs@, frontier@, old_seen);
        }
        frontier = tail_from(&seen, before);
        fuel = fuel - 1;
    }
    proof {
        lemma_bfs(procs@, seq![root], seq![root], procs@.len() + 1);
        let t = tree_order(root, procs@);
        assert(t[0] == t.subrange(0, 1)[0]);
        assert(seq![root].no_duplicates());
    }
    let mut r: Vec<u32> = Vec::new();
    let mut i: usize = seen.len();
    while i > 0
        invariant
            i <= seen@.len(),
            r@ == seen@.subrange(i as int, seen@.len() as int).reverse(),
        decreases i,
    {
        i = i - 1;
        r.push(seen[i]);
        assert(r@ =~= seen@.subrange(i as int, seen@.len() as int).reverse());
    }
    assert(seen@.subrange(0, seen@.len() as int) =~= seen@);
    proof {
        lemma_children_first(root, procs@);
        lemma_whole_tree(root, procs@);
        lemma_kill_by_depth(root, procs@);
        let t = seen@;
        assert forall|a: int, b: int| 0 <= a < b < r@.len() implies r@[a] != r@[b] by {
            assert(r@[a] == t[t.len() - 1 - a]);
            assert(r@[b] == t[t.len() - 1 - b]);
        }
    }
    r
}

/// The position of the first white-space character of `s` at or after `i`.
pub open spec fn space_from(s: Seq<char>, i: int) -> Option<int>
    decreases s.len() - i,
{
    if i < 0 || i >= s.len() {
        None
    } else if is_space(s[i]) {
        Some(i)
    } else {
        space_from(s, i + 1)
    }
}

/// One line of the process table that `ps -A -o pid= -o ppid=` prints: trimmed, the pid up
/// to the first white space and the parent pid after it, white space around it ignored; a
/// line without both numbers is no entry.
pub open spec fn table_row(line: Seq<char>) -> Option<(u32, u32)> {
    let t = trim_spec(line);
    match space_from(t, 0) {
        Some(k) => match (parse_u32_spec(t.subrange(0, k)), parse_u32_spec(trim_spec(t.subrange(k, t.len() as int)))) {
            (Some(pid), Some(ppid)) => Some((pid, ppid)),
            _ => None,
        },
        None => None,
    }
}

/// The `(pid, parent pid)` entries of the process table printed on `lines`, in order.
pub open spec fn table_rows(lines: Seq<Seq<char>>) -> Seq<(u32, u32)>
    decreases lines.len(),
{
    if lines.len() == 0 {
        Seq::empty()
    } else {
        let rest = table_rows(lines.drop_last());
        match table_row(lines.last()) {
            Some(e) => rest.push(e),
            None => rest,
        }
    }
}

fn table_row_exec(line: &[char]) -> (r: Option<(u32, u32)>)
    ensures
        r == table_row(line@),
{
    let t = trim(line);
    let n = t.len();
    let mut k: usize = 0;
    while k < n && !is_space_char(t[k])
        invariant
            n == t@.len(),
            k <= n,
            space_from(t@, 0) == space_from(t@, k as int),
        decreases n - k,
    {
        k = k + 1;
    }
    if k == n {
        return None;
    }
    let pid_text = slice_range(t.as_slice(), 0, k);
    let rest = slice_range(t.as_slice(), k, n);
    let ppid_text = trim(rest.as_slice());
    match (parse_u32(pid_text.as_slice()), parse_u32(ppid_text.as_slice())) {
        (Some(pid), Some(ppid)) => Some((pid, ppid)),
        _ => None,
    }
}

/// The process table that `ps -A -o pid= -o ppid=` printed on `stdout`: one `(pid, parent
/// pid)` entry for each line that holds both numbers, in order. The kill switch orders the
/// tree of a process in it with `kill_order`.
pub fn process_table(stdout: &str) -> (r: Vec<(u32, u32)>)
    ensures
        r@ == table_rows(lines_spec(stdout@)),
{
    let c = chars_of(stdout);
    let lines = split_lines(c.as_slice());
    let ghost lv = views(lines@);
    let mut r: Vec<(u32, u32)> = Vec::new();
    let mut i: usize = 0;
    while i < lines.len()
        invariant
            i <= lines@.len(),
            lv == views(lines@),
            r@ == table_rows(lv.take(i as int)),
        decreases lines@.len() - i,
    {
        assert(lv.take(i + 1).drop_last() =~= lv.take(i as int));
        assert(lv.take(i + 1).last() == lines@[i as int]@);
        match table_row_exec(lines[i].as_slice()) {
            Some(e) => {
                r.push(e);
            },
            None => {},
        }
        i = i + 1;
    }
    assert(lv.take(lv.len() as int) =~= lv);
    r
}

} // verus!
