//! Pre-order, depth-first traversal as a state machine that is driven one
//! step at a time and can be closed early.

use vstd::prelude::*;
use tree_sitter::Node;
use crate::cursor::{RCursor, TreeOrNode};
use crate::tree::{sibling, subtree};

verus! {

/// Where a traversal stands between two steps.
#[derive(Clone, Copy, PartialEq, Eq, Structural, Debug)]
pub enum TraversalState {
    /// Nothing was emitted yet.
    Start,
    /// The current node was emitted; its children come next.
    Down,
    /// The current node and all below it were emitted.
    Right,
    /// Nothing more will be emitted.
    Done,
}

/// The node that follows the subtree at `p`: the next sibling of `p` or, where
/// it has none, of its closest ancestor that has one.
pub open spec fn climb(nodes: Set<Seq<int>>, p: Seq<int>) -> Option<Seq<int>>
    decreases p.len(),
{
    if p.len() == 0 {
        None
    } else if nodes.contains(sibling(p)) {
        Some(sibling(p))
    } else {
        climb(nodes, p.drop_last())
    }
}

/// The node that follows `p` in pre-order: its first child or, without
/// children, what follows its subtree.
pub open spec fn successor(nodes: Set<Seq<int>>, p: Seq<int>) -> Option<Seq<int>> {
    if nodes.contains(p.push(0)) {
        Some(p.push(0))
    } else {
        climb(nodes, p)
    }
}

/// The node that the next step emits from state `state` at `p`, if any.
pub open spec fn upcoming(state: TraversalState, nodes: Set<Seq<int>>, p: Seq<int>) -> Option<
    Seq<int>,
> {
    match state {
        TraversalState::Start => Some(p),
        TraversalState::Down => successor(nodes, p),
        TraversalState::Right => climb(nodes, p),
        TraversalState::Done => None,
    }
}

/// The path of the item with index `k` among those that steps from `state`
/// at `p` emit, or `None` where the traversal ends before it.
pub open spec fn nth(nodes: Set<Seq<int>>, state: TraversalState, p: Seq<int>, k: nat) -> Option<
    Seq<int>,
>
    decreases k,
{
    match upcoming(state, nodes, p) {
        None => None,
        Some(q) => if k == 0 {
            Some(q)
        } else {
            nth(nodes, TraversalState::Down, q, (k - 1) as nat)
        },
    }
}

/// `p` comes before `q` in pre-order: at index `i` either `p` ends and `q`
/// goes on, or `p` turns to an earlier child than `q`.
pub open spec fn parts_at(p: Seq<int>, q: Seq<int>, i: int) -> bool {
    &&& 0 <= i <= p.len()
    &&& i < q.len()
    &&& forall|j: int| 0 <= j < i ==> p[j] == q[j]
    &&& (i == p.len() || p[i] < q[i])
}

/// `p` comes before `q` in pre-order.
pub open spec fn before(p: Seq<int>, q: Seq<int>) -> bool {
    exists|i: int| #[trigger] parts_at(p, q, i)
}

/// The nodes that come after `p` in pre-order.
pub open spec fn rest(nodes: Set<Seq<int>>, p: Seq<int>) -> Set<Seq<int>> {
    nodes.filter(|q: Seq<int>| before(p, q))
}

/// How many steps can still emit a node, at most.
pub open spec fn steps_left(state: TraversalState, nodes: Set<Seq<int>>, p: Seq<int>) -> nat {
    match state {
        TraversalState::Start => rest(nodes, p).len() + 1,
        TraversalState::Done => 0,
        _ => rest(nodes, p).len(),
    }
}

/// The position after `k` moves to the parent from `p`, or `None` where one
/// of them has no parent to move to.
pub open spec fn ascended(p: Seq<int>, k: nat) -> Option<Seq<int>>
    decreases k,
{
    if k == 0 {
        Some(p)
    } else if p.len() == 0 {
        None
    } else {
        ascended(p.drop_last(), (k - 1) as nat)
    }
}

/// A pre-order traversal of the nodes that a cursor can reach.
pub struct DepthFirstIterator<'a> {
    cursor: RCursor<'a>,
    state: TraversalState,
    depth: usize,
}

impl<'a> DepthFirstIterator<'a> {
    /// The cursor that the traversal moves.
    pub closed spec fn cursor(&self) -> RCursor<'a> {
        self.cursor
    }

    /// The state between steps.
    pub closed spec fn state(&self) -> TraversalState {
        self.state
    }

    /// The depth of the current node below the node the traversal began on.
    pub closed spec fn depth(&self) -> usize {
        self.depth
    }

    /// The nodes the traversal ranges over, by path.
    pub open spec fn nodes(&self) -> Map<Seq<int>, Node<'a>> {
        self.cursor().nodes()
    }

    /// The path of the current node.
    pub open spec fn path(&self) -> Seq<int> {
        self.cursor().path()
    }

    /// The cursor stands on a node, and the depth is the length of its path.
    pub open spec fn wf(&self) -> bool {
        &&& self.cursor().wf()
        &&& self.depth() == self.path().len()
    }

    /// A traversal that has emitted nothing yet and will begin with the root
    /// of the tree, or with the node.
    pub fn new(tree_or_node: TreeOrNode<'a>) -> (it: Self)
        ensures
            it.wf(),
            it.state() == TraversalState::Start,
            it.depth() == 0,
            it.path() == Seq::<int>::empty(),
            it.nodes() == subtree(tree_or_node.start()),
            it.cursor().node() == tree_or_node.start(),
    {
        DepthFirstIterator { cursor: tree_or_node.walk(), state: TraversalState::Start, depth: 0 }
    }

    /// The current node with its depth.
    pub fn item(&self) -> (r: Option<(Node<'a>, usize)>)
        ensures
            r == Some((self.cursor().node(), self.depth())),
    {
        Some((self.cursor.current_node(), self.depth))
    }

    /// The cursor, to read the current node from.
    pub fn cursor_ref(&self) -> (c: &RCursor<'a>)
        ensures
            *c == self.cursor(),
    {
        &self.cursor
    }

    /// The depth of the current node.
    pub fn current_depth(&self) -> (d: usize)
        ensures
            d == self.depth(),
    {
        self.depth
    }

    /// The state between steps.
    pub fn current_state(&self) -> (s: TraversalState)
        ensures
            s == self.state(),
    {
        self.state
    }

    /// Ends the traversal: no later step emits anything. The cursor stays
    /// where it is.
    pub fn close(&mut self)
        ensures
            final(self).state() == TraversalState::Done,
            final(self).cursor() == old(self).cursor(),
            final(self).depth() == old(self).depth(),
    {
        self.state = TraversalState::Done;
    }

    /// One step: moves to the next node in pre-order and gives it with its
    /// depth, or gives `None` and is done. The first step gives the node the
    /// traversal began on. After the last node the cursor is back on that
    /// node.
    pub fn next(&mut self) -> (r: Option<(Node<'a>, usize)>)
        requires
            old(self).wf(),
        ensures
            final(self).wf(),
            final(self).nodes() == old(self).nodes(),
            match upcoming(old(self).state(), old(self).nodes().dom(), old(self).path()) {
                Some(q) => {
                    &&& r == Some((old(self).nodes()[q], q.len() as usize))
                    &&& final(self).path() == q
                    &&& final(self).state() == TraversalState::Down
                },
                None => {
                    &&& r is None
                    &&& final(self).state() == TraversalState::Done
                    &&& final(self).path() == if old(self).state() == TraversalState::Done {
                        old(self).path()
                    } else {
                        Seq::<int>::empty()
                    }
                },
            },
    {
        match self.state {
            TraversalState::Start => {
                self.state = TraversalState::Down;
                return self.item();
            },
            TraversalState::Done => {
                return None;
            },
            TraversalState::Down => {
                proof {
                    self.cursor.lemma_wf();
                }
                if self.cursor.goto_first_child() {
                    proof {
                        self.cursor.lemma_wf();
                    }
                    self.depth += 1;
                    return self.item();
                }
                self.state = TraversalState::Right;
            },
            TraversalState::Right => {},
        }
        loop
            invariant
                self.wf(),
                self.state == TraversalState::Right,
                self.nodes() == old(self).nodes(),
                old(self).state() != TraversalState::Done,
                climb(self.nodes().dom(), self.path()) == upcoming(
                    old(self).state(),
                    old(self).nodes().dom(),
                    old(self).path(),
                ),
            decreases self.path().len(),
        {
            if self.cursor.goto_next_sibling() {
                self.state = TraversalState::Down;
                return self.item();
            } else if self.cursor.goto_parent() {
                self.depth -= 1;
            } else {
                assert(self.path() =~= Seq::<int>::empty());
                self.state = TraversalState::Done;
                return None;
            }
        }
    }
}

/// What follows the subtree at `p` is the next sibling of `p` or of one of
/// its ancestors, and a node of the tree.
pub proof fn lemma_climb(nodes: Set<Seq<int>>, p: Seq<int>)
    requires
        climb(nodes, p) is Some,
    ensures
        nodes.contains(climb(nodes, p)->0),
        exists|j: int| 1 <= j <= p.len() && climb(nodes, p)->0 == sibling(#[trigger] p.take(j)),
        before(p, climb(nodes, p)->0),
    decreases p.len(),
{
    let q = climb(nodes, p)->0;
    if nodes.contains(sibling(p)) {
        assert(p.take(p.len() as int) =~= p);
    } else {
        lemma_climb(nodes, p.drop_last());
        let j = choose|j: int|
            1 <= j <= p.drop_last().len() && q == sibling(#[trigger] p.drop_last().take(j));
        assert(p.drop_last().take(j) =~= p.take(j));
    }
    let j = choose|j: int| 1 <= j <= p.len() && q == sibling(#[trigger] p.take(j));
    assert(parts_at(p, q, j - 1));
}

/// Every step that emits a node moves forward in pre-order, so fewer steps
/// are left after it.
pub proof fn lemma_steps_left(state: TraversalState, nodes: Set<Seq<int>>, p: Seq<int>)
    requires
        nodes.finite(),
        upcoming(state, nodes, p) is Some,
    ensures
        steps_left(TraversalState::Down, nodes, upcoming(state, nodes, p)->0) < steps_left(
            state,
            nodes,
            p,
        ),
{
    let q = upcoming(state, nodes, p)->0;
    if state != TraversalState::Start {
        if state == TraversalState::Down && nodes.contains(p.push(0)) {
            assert(parts_at(p, q, p.len() as int));
        } else {
            lemma_climb(nodes, p);
        }
        assert(before(p, q) && nodes.contains(q));
        assert(rest(nodes, p).contains(q));
        assert(!rest(nodes, q).contains(q)) by {
            if before(q, q) {
                let i = choose|i: int| #[trigger] parts_at(q, q, i);
                assert(false);
            }
        }
        assert forall|r: Seq<int>| rest(nodes, q).contains(r) implies #[trigger] rest(
            nodes,
            p,
        ).remove(q).contains(r) by {
            let i = choose|i: int| #[trigger] parts_at(p, q, i);
            let j = choose|j: int| #[trigger] parts_at(q, r, j);
            if i <= j {
                assert(parts_at(p, r, i));
            } else {
                assert(parts_at(p, r, j));
            }
        }
        nodes.lemma_len_filter(|r: Seq<int>| before(p, r));
        vstd::set_lib::lemma_len_subset(rest(nodes, q), rest(nodes, p).remove(q));
    }
}

/// The item after the one with index `k` is the one that a step from the
/// latter emits.
pub proof fn lemma_nth_step(nodes: Set<Seq<int>>, state: TraversalState, p: Seq<int>, k: nat)
    requires
        nth(nodes, state, p, k) is Some,
    ensures
        nth(nodes, state, p, k + 1) == upcoming(
            TraversalState::Down,
            nodes,
            nth(nodes, state, p, k)->0,
        ),
    decreases k,
{
    let first = upcoming(state, nodes, p)->0;
    assert(nth(nodes, state, p, k + 1) == nth(nodes, TraversalState::Down, first, k));
    if k > 0 {
        lemma_nth_step(nodes, TraversalState::Down, first, (k - 1) as nat);
    } else {
        assert(nth(nodes, TraversalState::Down, first, 0) == upcoming(
            TraversalState::Down,
            nodes,
            first,
        ));
    }
}

/// Once the traversal has ended, no later item is emitted.
pub proof fn lemma_nth_ends(
    nodes: Set<Seq<int>>,
    state: TraversalState,
    p: Seq<int>,
    k: nat,
    later: nat,
)
    requires
        nth(nodes, state, p, k) is None,
        k <= later,
    ensures
        nth(nodes, state, p, later) is None,
    decreases k,
{
    if upcoming(state, nodes, p) is Some {
        lemma_nth_ends(
            nodes,
            TraversalState::Down,
            upcoming(state, nodes, p)->0,
            (k - 1) as nat,
            (later - 1) as nat,
        );
    }
}

/// A closed or exhausted traversal emits nothing, wherever its cursor stands
/// and whatever is left of the tree.
pub proof fn lemma_done_emits_nothing(nodes: Set<Seq<int>>, p: Seq<int>, k: nat)
    ensures
        upcoming(TraversalState::Done, nodes, p) is None,
        nth(nodes, TraversalState::Done, p, k) is None,
{
}

/// Two traversals that stand alike over the same nodes, such as two that were
/// just made on one tree, emit the same nodes at the same depths.
pub proof fn lemma_same_tree_same_walk<'a>(
    a: DepthFirstIterator<'a>,
    b: DepthFirstIterator<'a>,
    k: nat,
)
    requires
        a.nodes() == b.nodes(),
        a.state() == b.state(),
        a.path() == b.path(),
    ensures
        nth(a.nodes().dom(), a.state(), a.path(), k) == nth(
            b.nodes().dom(),
            b.state(),
            b.path(),
            k,
        ),
        nth(a.nodes().dom(), a.state(), a.path(), k) matches Some(q) ==> a.nodes()[q]
            == b.nodes()[q],
{
}

/// After `k` moves to the parent from `p`, the cursor stands on the ancestor
/// `k` levels up; there is none above the node the cursor was made on.
pub proof fn lemma_ascended(p: Seq<int>, k: nat)
    ensures
        k <= p.len() ==> ascended(p, k) == Some(p.take(p.len() - k)),
        k > p.len() ==> ascended(p, k) is None,
    decreases k,
{
    if k == 0 {
        assert(p.take(p.len() as int) =~= p);
    } else if p.len() > 0 {
        lemma_ascended(p.drop_last(), (k - 1) as nat);
        if k <= p.len() {
            assert(p.drop_last().take(p.len() - k) =~= p.take(p.len() - k));
        }
    }
}

/// From a node at depth `p.len()`, that many moves to the parent succeed and
/// end on the node the cursor was made on; one more fails.
pub proof fn lemma_parents_reach_root(p: Seq<int>)
    ensures
        forall|k: nat| k <= p.len() ==> (#[trigger] ascended(p, k)) is Some,
        ascended(p, p.len()) == Some(Seq::<int>::empty()),
        ascended(p, p.len() + 1) is None,
{
    assert forall|k: nat| k <= p.len() implies (#[trigger] ascended(p, k)) is Some by {
        lemma_ascended(p, k);
    }
    lemma_ascended(p, p.len());
    lemma_ascended(p, p.len() + 1);
    assert(p.take(0) =~= Seq::<int>::empty());
}

} // verus!
