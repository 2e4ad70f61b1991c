//! Bulk traversal: one call of a handler for every node, in pre-order, with
//! the properties asked for in a buffer that is used again for each node.

use vstd::prelude::*;
use tree_sitter::Node;
use crate::cursor::{RCursor, TreeOrNode};
use crate::preorder::lemma_every_node_once;
use crate::projection::{reading_at, Property, PropertyValue};
use crate::traversal::{
    lemma_nth_step, lemma_steps_left, nth, steps_left, upcoming,
    DepthFirstIterator, TraversalState,
};
use crate::tree::subtree;

verus! {

/// `row` holds what `props` read as on the node `cursor` stands on, slot by
/// slot, with the length of the cursor's path for the depth.
pub open spec fn is_row(row: Seq<PropertyValue>, props: Seq<Property>, cursor: RCursor<'_>) -> bool {
    &&& row.len() == props.len()
    &&& forall|i: int|
        0 <= i < props.len() ==> (#[trigger] row[i])@ == reading_at(
            cursor,
            cursor.path().len() as usize,
            props[i],
        )
}

/// One call of the handler: on the node at `q`, with its row, and with the
/// outcome `outcome`.
pub open spec fn visit<'a, E, F: Fn(Node<'a>, &Vec<PropertyValue>) -> Result<(), E>>(
    handler: F,
    nodes: Map<Seq<int>, Node<'a>>,
    props: Seq<Property>,
    q: Seq<int>,
    cursor: RCursor<'a>,
    row: Vec<PropertyValue>,
    outcome: Result<(), E>,
) -> bool {
    &&& cursor.nodes() == nodes
    &&& cursor.path() == q
    &&& is_row(row@, props, cursor)
    &&& call_ensures(handler, (nodes[q], &row), outcome)
}

/// The handler was called on the node at `q` with its row, with the outcome
/// `outcome`.
pub open spec fn handed<'a, E, F: Fn(Node<'a>, &Vec<PropertyValue>) -> Result<(), E>>(
    handler: F,
    nodes: Map<Seq<int>, Node<'a>>,
    props: Seq<Property>,
    q: Seq<int>,
    outcome: Result<(), E>,
) -> bool {
    exists|cursor: RCursor<'a>, row: Vec<PropertyValue>| #[trigger]
        visit(handler, nodes, props, q, cursor, row, outcome)
}

/// The handler was called on the first `k` nodes in pre-order, and each call
/// succeeded.
pub open spec fn handed_first<'a, E, F: Fn(Node<'a>, &Vec<PropertyValue>) -> Result<(), E>>(
    handler: F,
    nodes: Map<Seq<int>, Node<'a>>,
    props: Seq<Property>,
    k: nat,
) -> bool {
    forall|j: nat|
        j < k ==> {
            let q = #[trigger] nth(nodes.dom(), TraversalState::Start, Seq::empty(), j);
            q is Some && handed(handler, nodes, props, q->0, Ok::<(), E>(()))
        }
}

/// The properties asked for: none where no selection is given.
pub open spec fn selection(props: Option<&Vec<Property>>) -> Seq<Property> {
    match props {
        Some(props) => props@,
        None => Seq::empty(),
    }
}

/// A buffer of `len` absent values.
fn blank(len: usize) -> (row: Vec<PropertyValue>)
    ensures
        row.len() == len,
        forall|i: int| 0 <= i < len ==> #[trigger] row@[i] == PropertyValue::Nil,
{
    let mut row: Vec<PropertyValue> = Vec::new();
    while row.len() < len
        invariant
            row.len() <= len,
            forall|i: int| 0 <= i < row.len() ==> #[trigger] row@[i] == PropertyValue::Nil,
        decreases len - row.len(),
    {
        row.push(PropertyValue::Nil);
    }
    row
}

/// Calls `handler` once for every node at and below the start, in pre-order,
/// with the node and a row of the properties asked for: as many calls as
/// there are nodes. The first failure of the handler ends the traversal and
/// is returned as it is; no node after it is visited.
pub fn traverse_mapc<'a, E, F: Fn(Node<'a>, &Vec<PropertyValue>) -> Result<(), E>>(
    handler: F,
    tree_or_node: TreeOrNode<'a>,
    props: Option<&Vec<Property>>,
) -> (r: Result<(), E>)
    requires
        forall|node: Node<'a>, row: &Vec<PropertyValue>| call_requires(handler, (node, row)),
    ensures
        match r {
            Ok(()) => handed_first(
                handler,
                subtree(tree_or_node.start()),
                selection(props),
                subtree(tree_or_node.start()).dom().len(),
            ),
            Err(e) => exists|k: nat|
                {
                    let q = #[trigger] nth(
                        subtree(tree_or_node.start()).dom(),
                        TraversalState::Start,
                        Seq::empty(),
                        k,
                    );
                    &&& q is Some
                    &&& handed(
                        handler,
                        subtree(tree_or_node.start()),
                        selection(props),
                        q->0,
                        Err::<(), E>(e),
                    )
                    &&& handed_first(handler, subtree(tree_or_node.start()), selection(props), k)
                },
        },
{
    let mut it = DepthFirstIterator::new(tree_or_node);
    let none: Vec<Property> = Vec::new();
    let asked: &Vec<Property> = match props {
        Some(props) => props,
        None => &none,
    };
    let mut output = blank(asked.len());
    let ghost nodes = it.nodes();
    let ghost root = Seq::<int>::empty();
    let ghost mut k: nat = 0;
    loop
        invariant
            it.wf(),
            it.nodes() == nodes,
            nodes == subtree(tree_or_node.start()),
            asked@ == selection(props),
            output.len() == asked.len(),
            root == Seq::<int>::empty(),
            upcoming(it.state(), nodes.dom(), it.path()) == nth(
                nodes.dom(),
                TraversalState::Start,
                root,
                k,
            ),
            handed_first(handler, nodes, asked@, k),
            forall|node: Node<'a>, row: &Vec<PropertyValue>| call_requires(handler, (node, row)),
        decreases steps_left(it.state(), nodes.dom(), it.path()),
    {
        let ghost state = it.state();
        let ghost path = it.path();
        proof {
            it.cursor().lemma_wf();
            if upcoming(state, nodes.dom(), path) is Some {
                lemma_steps_left(state, nodes.dom(), path);
                lemma_nth_step(nodes.dom(), TraversalState::Start, root, k);
            }
        }
        match it.next_node(asked, &mut output) {
            Err(_) => {
                // Not reached: the row has a slot for every property asked for.
                assert(false);
                return Ok(());
            },
            Ok(emitted) => {
                if !emitted {
                    proof {
                        lemma_every_node_once(nodes.dom(), k);
                    }
                    return Ok(());
                }
            },
        }
        let node = it.cursor_ref().current_node();
        let outcome = handler(node, &output);
        proof {
            assert(visit(handler, nodes, asked@, it.path(), it.cursor(), output, outcome));
        }
        match outcome {
            Err(e) => {
                return Err(e);
            },
            Ok(()) => {},
        }
        proof {
            let q = nth(nodes.dom(), TraversalState::Start, root, k);
            assert(q == Some(it.path()));
            assert(outcome->Ok_0 == ());
            assert(visit(handler, nodes, asked@, q->0, it.cursor(), output, Ok::<(), E>(())));
            k = k + 1;
        }
    }
}

} // verus!
