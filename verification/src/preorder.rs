//! Why a traversal visits every node exactly once: the order in which the
//! state machine emits nodes, held against the shape of a tree.

use vstd::prelude::*;
use crate::traversal::{
    before, climb, lemma_climb, lemma_nth_ends, lemma_nth_step, nth, parts_at, rest, successor,
    TraversalState,
};
use crate::tree::{shaped, sibling};

verus! {

/// What `shaped` says of the whole set, and of one node in it.
pub proof fn lemma_shaped(nodes: Set<Seq<int>>, p: Seq<int>)
    requires
        shaped(nodes),
    ensures
        nodes.finite(),
        nodes.contains(Seq::empty()),
        nodes.contains(p) && p.len() > 0 ==> {
            &&& nodes.contains(p.drop_last())
            &&& p.last() >= 0
            &&& p.last() > 0 ==> nodes.contains(p.drop_last().push(p.last() - 1))
        },
{
    reveal(shaped);
}

/// With a node a tree holds all its ancestors.
pub proof fn lemma_ancestor(nodes: Set<Seq<int>>, r: Seq<int>, m: int)
    requires
        shaped(nodes),
        nodes.contains(r),
        0 <= m <= r.len(),
    ensures
        nodes.contains(r.take(m)),
    decreases r.len() - m,
{
    if m < r.len() {
        lemma_ancestor(nodes, r, m + 1);
        lemma_shaped(nodes, r.take(m + 1));
        assert(r.take(m + 1).drop_last() =~= r.take(m));
    } else {
        assert(r.take(m) =~= r);
    }
}

/// With a child a tree holds the children before it.
pub proof fn lemma_earlier_child(nodes: Set<Seq<int>>, a: Seq<int>, x: int, y: int)
    requires
        shaped(nodes),
        nodes.contains(a.push(x)),
        0 <= y <= x,
    ensures
        nodes.contains(a.push(y)),
    decreases x - y,
{
    if y < x {
        lemma_shaped(nodes, a.push(x));
        assert(a.push(x).drop_last() =~= a);
        lemma_earlier_child(nodes, a, x - 1, y);
    }
}

/// Where a node turns to child `r[i]` at level `i`, the tree holds every
/// earlier child at that place.
pub proof fn lemma_branch(nodes: Set<Seq<int>>, r: Seq<int>, i: int, y: int)
    requires
        shaped(nodes),
        nodes.contains(r),
        0 <= i < r.len(),
    ensures
        r[i] >= 0,
        0 <= y <= r[i] ==> nodes.contains(r.take(i).push(y)),
{
    lemma_ancestor(nodes, r, i + 1);
    lemma_shaped(nodes, r.take(i + 1));
    assert(r.take(i + 1).drop_last() =~= r.take(i));
    assert(r.take(i + 1) =~= r.take(i).push(r[i]));
    if 0 <= y <= r[i] {
        lemma_earlier_child(nodes, r.take(i), r[i], y);
    }
}

/// Where `r` turns away from `p` to a later child at level `i`, what follows
/// the subtree at `p` is `r` or comes before it.
pub proof fn lemma_climb_next(nodes: Set<Seq<int>>, p: Seq<int>, r: Seq<int>, i: int)
    requires
        shaped(nodes),
        nodes.contains(r),
        0 <= i < p.len(),
        i < r.len(),
        forall|j: int| 0 <= j < i ==> p[j] == r[j],
        0 <= p[i] < r[i],
    ensures
        climb(nodes, p) is Some,
        r == climb(nodes, p)->0 || before(climb(nodes, p)->0, r),
    decreases p.len(),
{
    lemma_branch(nodes, r, i, p[i] + 1);
    let turn = r.take(i).push(p[i] + 1);
    if i == p.len() - 1 {
        assert(sibling(p) =~= turn);
        let q = sibling(p);
        if r[i] > p[i] + 1 {
            assert(parts_at(q, r, i));
        } else if r.len() == i + 1 {
            assert(r =~= q);
        } else {
            assert(parts_at(q, r, i + 1));
        }
    } else if nodes.contains(sibling(p)) {
        assert(parts_at(sibling(p), r, i));
    } else {
        lemma_climb_next(nodes, p.drop_last(), r, i);
    }
}

/// Every node after `p` is the one that follows `p`, or comes after that
/// one: a step skips no node.
pub proof fn lemma_successor_next(nodes: Set<Seq<int>>, p: Seq<int>, r: Seq<int>)
    requires
        shaped(nodes),
        nodes.contains(p),
        nodes.contains(r),
        before(p, r),
    ensures
        successor(nodes, p) is Some,
        r == successor(nodes, p)->0 || before(successor(nodes, p)->0, r),
{
    let i = choose|i: int| #[trigger] parts_at(p, r, i);
    if i == p.len() {
        lemma_branch(nodes, r, i, 0);
        assert(r.take(i) =~= p);
        let q = p.push(0);
        if r[i] > 0 {
            assert(parts_at(q, r, i));
        } else if r.len() == i + 1 {
            assert(r =~= q);
        } else {
            assert(parts_at(q, r, i + 1));
        }
    } else if nodes.contains(p.push(0)) {
        assert(parts_at(p.push(0), r, i));
    } else {
        lemma_branch(nodes, p, i, 0);
        lemma_climb_next(nodes, p, r, i);
    }
}

/// A step from a node that was emitted leaves exactly one node less to
/// come, and none is left where the step emits nothing.
pub proof fn lemma_one_less(nodes: Set<Seq<int>>, p: Seq<int>)
    requires
        shaped(nodes),
        nodes.contains(p),
    ensures
        match successor(nodes, p) {
            Some(q) => nodes.contains(q) && rest(nodes, p).len() == rest(nodes, q).len() + 1,
            None => rest(nodes, p).len() == 0,
        },
{
    lemma_shaped(nodes, p);
    nodes.lemma_len_filter(|r: Seq<int>| before(p, r));
    match successor(nodes, p) {
        Some(q) => {
            if nodes.contains(p.push(0)) {
                assert(parts_at(p, q, p.len() as int));
            } else {
                lemma_climb(nodes, p);
            }
            assert(rest(nodes, p).contains(q));
            assert forall|r: Seq<int>| #[trigger]
                rest(nodes, q).contains(r) <==> rest(nodes, p).remove(q).contains(r) by {
                if rest(nodes, q).contains(r) {
                    let i = choose|i: int| #[trigger] parts_at(p, q, i);
                    let j = choose|j: int| #[trigger] parts_at(q, r, j);
                    if i <= j {
                        assert(parts_at(p, r, i));
                    } else {
                        assert(parts_at(p, r, j));
                    }
                    if r == q {
                        assert(false);
                    }
                }
                if rest(nodes, p).remove(q).contains(r) {
                    lemma_successor_next(nodes, p, r);
                }
            }
            assert(rest(nodes, q) =~= rest(nodes, p).remove(q));
        },
        None => {
            if rest(nodes, p).len() != 0 {
                let r = rest(nodes, p).choose();
                assert(rest(nodes, p).contains(r));
                lemma_successor_next(nodes, p, r);
            }
        },
    }
}

/// The item with index `k` of a traversal from the root, where `k` is less
/// than the number of nodes, is a node with `k + 1` fewer nodes after it than
/// the tree has.
pub proof fn lemma_nth_counts(nodes: Set<Seq<int>>, k: nat)
    requires
        shaped(nodes),
        k < nodes.len(),
    ensures
        nth(nodes, TraversalState::Start, Seq::empty(), k) is Some,
        nodes.contains(nth(nodes, TraversalState::Start, Seq::empty(), k)->0),
        rest(nodes, nth(nodes, TraversalState::Start, Seq::empty(), k)->0).len() + k + 1
            == nodes.len(),
    decreases k,
{
    let root = Seq::<int>::empty();
    lemma_shaped(nodes, root);
    if k == 0 {
        assert forall|r: Seq<int>| #[trigger]
            rest(nodes, root).contains(r) <==> nodes.remove(root).contains(r) by {
            if nodes.contains(r) && r != root {
                assert(r.len() > 0) by {
                    if r.len() == 0 {
                        assert(r =~= root);
                    }
                }
                assert(parts_at(root, r, 0));
            }
            if before(root, r) {
                let i = choose|i: int| #[trigger] parts_at(root, r, i);
            }
        }
        assert(rest(nodes, root) =~= nodes.remove(root));
    } else {
        lemma_nth_counts(nodes, (k - 1) as nat);
        let q = nth(nodes, TraversalState::Start, root, (k - 1) as nat)->0;
        lemma_nth_step(nodes, TraversalState::Start, root, (k - 1) as nat);
        lemma_one_less(nodes, q);
    }
}

/// A traversal from the root of a tree emits exactly as many nodes as the
/// tree has: item `k` exists just where `k` is less than their number.
pub proof fn lemma_every_node_once(nodes: Set<Seq<int>>, k: nat)
    requires
        shaped(nodes),
    ensures
        nth(nodes, TraversalState::Start, Seq::empty(), k) is Some <==> k < nodes.len(),
{
    let root = Seq::<int>::empty();
    lemma_shaped(nodes, root);
    if k < nodes.len() {
        lemma_nth_counts(nodes, k);
    } else {
        let last = (nodes.len() - 1) as nat;
        assert(nodes.len() > 0) by {
            if nodes.len() == 0 {
                assert(nodes.contains(root));
            }
        }
        lemma_nth_counts(nodes, last);
        let q = nth(nodes, TraversalState::Start, root, last)->0;
        lemma_nth_step(nodes, TraversalState::Start, root, last);
        lemma_one_less(nodes, q);
        lemma_nth_ends(nodes, TraversalState::Start, root, nodes.len(), k);
    }
}

} // verus!
