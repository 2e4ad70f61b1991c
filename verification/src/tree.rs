//! The `tree_sitter` items that the library rests on, and the model under
//! which the rest of the library reasons about them.
//!
//! A cursor walks the subtree below the node it was created on. That subtree
//! is modelled as a map from paths to nodes: the empty path is the node the
//! cursor was created on, and `p.push(i)` is the child with index `i` of the
//! node at `p`. Only nodes that `tree_sitter` shows to its callers count as
//! children. Nothing in this file is proved: each contract restates, over
//! that model, what `tree_sitter` documents of the function it names.

use vstd::prelude::*;
use tree_sitter::TreeCursor;

verus! {

/// `tree_sitter::Tree`, a parsed syntax tree.
#[verifier::external_type_specification]
#[verifier::external_body]
pub struct ExTree(tree_sitter::Tree);

/// `tree_sitter::Node`, one node of a tree.
#[verifier::external_type_specification]
#[verifier::external_body]
pub struct ExNode<'tree>(tree_sitter::Node<'tree>);

/// `tree_sitter::TreeCursor`, a position in a tree that can be moved.
#[verifier::external_type_specification]
#[verifier::external_body]
pub struct ExTreeCursor<'tree>(tree_sitter::TreeCursor<'tree>);

/// The nodes that a cursor can reach, by their path from the node the cursor
/// was created on.
pub uninterp spec fn walk_nodes(c: TreeCursor<'_>) -> Map<Seq<int>, tree_sitter::Node<'_>>;

/// The path of the node a cursor stands on.
pub uninterp spec fn walk_path(c: TreeCursor<'_>) -> Seq<int>;

/// The field id that the grammar gives to the node a cursor stands on.
pub uninterp spec fn walk_field_id(c: TreeCursor<'_>) -> Option<u16>;

/// The field name that the grammar gives to the node a cursor stands on.
pub uninterp spec fn walk_field_name(c: TreeCursor<'_>) -> Option<Seq<char>>;

/// The nodes at and below a node, by their path from it.
pub uninterp spec fn subtree(n: tree_sitter::Node<'_>) -> Map<Seq<int>, tree_sitter::Node<'_>>;

/// The root node of a tree.
pub uninterp spec fn tree_root(t: tree_sitter::Tree) -> tree_sitter::Node<'static>;

/// A node's type, as the grammar names it.
pub uninterp spec fn node_kind(n: tree_sitter::Node<'_>) -> Seq<char>;

/// Whether a node is named.
pub uninterp spec fn node_named(n: tree_sitter::Node<'_>) -> bool;

/// Whether a node is extra.
pub uninterp spec fn node_extra(n: tree_sitter::Node<'_>) -> bool;

/// Whether a node is a syntax error.
pub uninterp spec fn node_error(n: tree_sitter::Node<'_>) -> bool;

/// Whether a node was inserted by the parser to recover from an error.
pub uninterp spec fn node_missing(n: tree_sitter::Node<'_>) -> bool;

/// Whether a node is, or contains, a syntax error.
pub uninterp spec fn node_has_error(n: tree_sitter::Node<'_>) -> bool;

/// The byte offset at which a node starts.
pub uninterp spec fn node_start_byte(n: tree_sitter::Node<'_>) -> usize;

/// The byte offset at which a node ends.
pub uninterp spec fn node_end_byte(n: tree_sitter::Node<'_>) -> usize;

/// The row and column at which a node starts.
pub uninterp spec fn node_start_point(n: tree_sitter::Node<'_>) -> (usize, usize);

/// The row and column at which a node ends.
pub uninterp spec fn node_end_point(n: tree_sitter::Node<'_>) -> (usize, usize);

/// The path of the next sibling of the node at `p`.
pub open spec fn sibling(p: Seq<int>) -> Seq<int>
    recommends
        p.len() > 0,
{
    p.drop_last().push(p.last() + 1)
}

/// A set of paths is the set of nodes of a tree: it is finite, it holds the
/// root, with a node it holds the node's parent, and the children of a node
/// are numbered from 0 without a gap.
#[verifier::opaque]
pub open spec fn shaped(nodes: Set<Seq<int>>) -> bool {
    &&& nodes.finite()
    &&& nodes.contains(Seq::empty())
    &&& forall|p: Seq<int>| #[trigger]
        nodes.contains(p) && p.len() > 0 ==> {
            &&& nodes.contains(p.drop_last())
            &&& p.last() >= 0
            &&& p.last() > 0 ==> nodes.contains(p.drop_last().push(p.last() - 1))
        }
}

/// What a cursor can reach is a tree, the cursor stands on one of its nodes,
/// and no deeper than `TreeCursor::depth`, which is a `u32`, can tell.
pub open spec fn on_a_node(c: TreeCursor<'_>) -> bool {
    &&& shaped(walk_nodes(c).dom())
    &&& walk_nodes(c).dom().contains(walk_path(c))
    &&& walk_path(c).len() <= u32::MAX
}

/// `Tree::walk` gives a cursor on the tree's root node, which can reach the
/// whole tree.
pub assume_specification<'a>[ tree_sitter::Tree::walk ](tree: &'a tree_sitter::Tree) -> (c: TreeCursor<'a>)
    ensures
        walk_path(c) == Seq::<int>::empty(),
        walk_nodes(c) == subtree(tree_root(*tree)),
        walk_nodes(c)[walk_path(c)] == tree_root(*tree),
        on_a_node(c),
;

/// `Node::walk` gives a cursor on that node, which can reach the node and
/// what is below it, and nothing else.
pub assume_specification<'tree>[ tree_sitter::Node::<'tree>::walk ](n: &tree_sitter::Node<'tree>) -> (c: TreeCursor<'tree>)
    ensures
        walk_path(c) == Seq::<int>::empty(),
        walk_nodes(c) == subtree(*n),
        walk_nodes(c)[walk_path(c)] == *n,
        on_a_node(c),
;

/// `TreeCursor::node` gives the node the cursor stands on.
pub assume_specification<'tree>[ TreeCursor::<'tree>::node ](c: &TreeCursor<'tree>) -> (n: tree_sitter::Node<'tree>)
    ensures
        n == walk_nodes(*c)[walk_path(*c)],
;

/// `TreeCursor::field_id`, with the id as a plain integer.
#[verifier::external_body]
pub(crate) fn field_id(c: &TreeCursor<'_>) -> (r: Option<u16>)
    ensures
        r == walk_field_id(*c),
{
    c.field_id().map(|id| id.get())
}

/// `TreeCursor::field_name`, with the name as an owned string.
#[verifier::external_body]
pub(crate) fn field_name(c: &TreeCursor<'_>) -> (r: Option<String>)
    ensures
        r is Some == walk_field_name(*c) is Some,
        r is Some ==> r->0@ == walk_field_name(*c)->0,
{
    c.field_name().map(|name| name.to_string())
}

/// `TreeCursor::goto_first_child` moves to the child with index 0 where the
/// current node has children, and stays where it is where it has none.
pub assume_specification<'tree>[ TreeCursor::<'tree>::goto_first_child ](
    c: &mut TreeCursor<'tree>,
) -> (moved: bool)
    ensures
        walk_nodes(*final(c)) == walk_nodes(*old(c)),
        moved == walk_nodes(*old(c)).dom().contains(walk_path(*old(c)).push(0)),
        walk_path(*final(c)) == if moved {
            walk_path(*old(c)).push(0)
        } else {
            walk_path(*old(c))
        },
        on_a_node(*old(c)) ==> on_a_node(*final(c)),
;

/// `TreeCursor::goto_next_sibling` moves to the next child of the same parent
/// where there is one. On the node the cursor was created on it never moves.
pub assume_specification<'tree>[ TreeCursor::<'tree>::goto_next_sibling ](
    c: &mut TreeCursor<'tree>,
) -> (moved: bool)
    ensures
        walk_nodes(*final(c)) == walk_nodes(*old(c)),
        moved == (walk_path(*old(c)).len() > 0 && walk_nodes(*old(c)).dom().contains(
            sibling(walk_path(*old(c))),
        )),
        walk_path(*final(c)) == if moved {
            sibling(walk_path(*old(c)))
        } else {
            walk_path(*old(c))
        },
        on_a_node(*old(c)) ==> on_a_node(*final(c)),
;

/// `TreeCursor::goto_parent` moves to the parent, except on the node the
/// cursor was created on, where it stays.
pub assume_specification<'tree>[ TreeCursor::<'tree>::goto_parent ](
    c: &mut TreeCursor<'tree>,
) -> (moved: bool)
    ensures
        walk_nodes(*final(c)) == walk_nodes(*old(c)),
        moved == (walk_path(*old(c)).len() > 0),
        walk_path(*final(c)) == if moved {
            walk_path(*old(c)).drop_last()
        } else {
            walk_path(*old(c))
        },
        on_a_node(*old(c)) ==> on_a_node(*final(c)),
;

/// The index that `TreeCursor::goto_first_child_for_byte` finds for a byte
/// offset from where a cursor stands, if it finds one. Which child that is
/// depends on nodes of the grammar that are not shown as children, so it is
/// named here and not written out.
pub uninterp spec fn child_for_byte(c: TreeCursor<'_>, byte: usize) -> Option<usize>;

/// `TreeCursor::goto_first_child_for_byte` gives the index `child_for_byte`
/// and moves to that child, or stays where it gives `None`. The offset is
/// passed on as a `u32`; for one that fits, the child found ends after it and
/// the children before it do not.
pub assume_specification<'tree>[ TreeCursor::<'tree>::goto_first_child_for_byte ](
    c: &mut TreeCursor<'tree>,
    index: usize,
) -> (found: Option<usize>)
    ensures
        found == child_for_byte(*old(c), index),
        walk_nodes(*final(c)) == walk_nodes(*old(c)),
        on_a_node(*old(c)) ==> on_a_node(*final(c)),
        match found {
            Some(i) => {
                &&& walk_path(*final(c)) == walk_path(*old(c)).push(i as int)
                &&& walk_nodes(*old(c)).dom().contains(walk_path(*old(c)).push(i as int))
                &&& index <= u32::MAX ==> ends_after(*old(c), i as int, index)
                &&& index <= u32::MAX ==> forall|j: int|
                    0 <= j < i ==> !#[trigger] ends_after(*old(c), j, index)
            },
            None => walk_path(*final(c)) == walk_path(*old(c)),
        },
;

/// The child with index `i` of the node a cursor stands on ends after the
/// byte offset `byte`.
pub open spec fn ends_after(c: TreeCursor<'_>, i: int, byte: usize) -> bool {
    node_end_byte(walk_nodes(c)[walk_path(c).push(i)]) > byte
}

/// `TreeCursor::reset` puts the cursor on the given node, as if it had been
/// created there.
pub assume_specification<'tree>[ TreeCursor::<'tree>::reset ](
    c: &mut TreeCursor<'tree>,
    n: tree_sitter::Node<'tree>,
)
    ensures
        walk_path(*final(c)) == Seq::<int>::empty(),
        walk_nodes(*final(c)) == subtree(n),
        walk_nodes(*final(c))[walk_path(*final(c))] == n,
        on_a_node(*final(c)),
;

/// `Node::kind`, as an owned string.
#[verifier::external_body]
pub(crate) fn kind(n: &tree_sitter::Node<'_>) -> (r: String)
    ensures
        r@ == node_kind(*n),
{
    n.kind().to_string()
}

/// `Node::is_named` tells whether the node is named.
pub assume_specification<'tree>[ tree_sitter::Node::<'tree>::is_named ](n: &tree_sitter::Node<'tree>) -> (r: bool)
    ensures
        r == node_named(*n),
;

/// `Node::is_extra` tells whether the node is extra.
pub assume_specification<'tree>[ tree_sitter::Node::<'tree>::is_extra ](n: &tree_sitter::Node<'tree>) -> (r: bool)
    ensures
        r == node_extra(*n),
;

/// `Node::is_error` tells whether the node is a syntax error.
pub assume_specification<'tree>[ tree_sitter::Node::<'tree>::is_error ](n: &tree_sitter::Node<'tree>) -> (r: bool)
    ensures
        r == node_error(*n),
;

/// `Node::is_missing` tells whether the parser inserted the node.
pub assume_specification<'tree>[ tree_sitter::Node::<'tree>::is_missing ](n: &tree_sitter::Node<'tree>) -> (r: bool)
    ensures
        r == node_missing(*n),
;

/// `Node::has_error` tells whether the node is or contains a syntax error.
pub assume_specification<'tree>[ tree_sitter::Node::<'tree>::has_error ](n: &tree_sitter::Node<'tree>) -> (r: bool)
    ensures
        r == node_has_error(*n),
;

/// `Node::start_byte` gives the byte offset at which the node starts.
pub assume_specification<'tree>[ tree_sitter::Node::<'tree>::start_byte ](n: &tree_sitter::Node<'tree>) -> (r: usize)
    ensures
        r == node_start_byte(*n),
;

/// `Node::end_byte` gives the byte offset at which the node ends.
pub assume_specification<'tree>[ tree_sitter::Node::<'tree>::end_byte ](n: &tree_sitter::Node<'tree>) -> (r: usize)
    ensures
        r == node_end_byte(*n),
;

/// `Node::start_position`, as a row and a column.
#[verifier::external_body]
pub(crate) fn start_point(n: &tree_sitter::Node<'_>) -> (r: (usize, usize))
    ensures
        r == node_start_point(*n),
{
    let p = n.start_position();
    (p.row, p.column)
}

/// `Node::end_position`, as a row and a column.
#[verifier::external_body]
pub(crate) fn end_point(n: &tree_sitter::Node<'_>) -> (r: (usize, usize))
    ensures
        r == node_end_point(*n),
{
    let p = n.end_position();
    (p.row, p.column)
}

} // verus!
