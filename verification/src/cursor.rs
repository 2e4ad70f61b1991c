//! A cursor over a syntax tree: a position that is moved in place from a node
//! to one next to it.

use vstd::prelude::*;
use tree_sitter::{Node, Tree, TreeCursor};
use crate::preorder::lemma_earlier_child;
use crate::tree::{
    child_for_byte, ends_after, field_id, field_name, on_a_node, shaped, sibling, subtree,
    tree_root, walk_field_id, walk_field_name, walk_nodes, walk_path,
};

verus! {

/// Where a cursor starts: on the root of a tree, or on a node.
#[derive(Clone, Copy)]
pub enum TreeOrNode<'a> {
    Tree(&'a Tree),
    Node(Node<'a>),
}

impl<'a> TreeOrNode<'a> {
    /// The node that a cursor made from this value starts on.
    pub open spec fn start(self) -> Node<'a> {
        match self {
            TreeOrNode::Tree(tree) => tree_root(*tree),
            TreeOrNode::Node(node) => node,
        }
    }

    /// A new cursor on the root of the tree, or on the node.
    pub fn walk(&self) -> (cursor: RCursor<'a>)
        ensures
            cursor.wf(),
            cursor.path() == Seq::<int>::empty(),
            cursor.nodes() == subtree(self.start()),
            cursor.node() == self.start(),
    {
        match *self {
            TreeOrNode::Tree(tree) => RCursor::new(tree),
            TreeOrNode::Node(node) => RCursor { inner: node.walk() },
        }
    }
}

/// A cursor that stands on one node of a syntax tree and can reach the node
/// it was made on and everything below it.
pub struct RCursor<'a> {
    inner: TreeCursor<'a>,
}

impl<'a> RCursor<'a> {
    /// The nodes the cursor can reach, by their path from the node it was
    /// made on: the empty path is that node, and `p.push(i)` is the child
    /// with index `i` of the node at `p`.
    pub closed spec fn nodes(&self) -> Map<Seq<int>, Node<'a>> {
        walk_nodes(self.inner)
    }

    /// The path of the node the cursor stands on.
    pub closed spec fn path(&self) -> Seq<int> {
        walk_path(self.inner)
    }

    /// The node the cursor stands on.
    pub open spec fn node(&self) -> Node<'a> {
        self.nodes()[self.path()]
    }

    /// The field id of the node the cursor stands on, within its parent.
    pub closed spec fn field_id(&self) -> Option<u16> {
        walk_field_id(self.inner)
    }

    /// The field name of the node the cursor stands on, within its parent.
    pub closed spec fn field(&self) -> Option<Seq<char>> {
        walk_field_name(self.inner)
    }

    /// What the cursor can reach is a tree, and it stands on one of its nodes.
    pub closed spec fn wf(&self) -> bool {
        on_a_node(self.inner)
    }

    /// What `wf` says of the position.
    pub proof fn lemma_wf(&self)
        requires
            self.wf(),
        ensures
            shaped(self.nodes().dom()),
            self.nodes().dom().finite(),
            self.nodes().dom().contains(self.path()),
            self.path().len() <= u32::MAX,
    {
        reveal(shaped);
    }

    /// A cursor on the root node of `tree`.
    pub fn new(tree: &'a Tree) -> (cursor: Self)
        ensures
            cursor.wf(),
            cursor.path() == Seq::<int>::empty(),
            cursor.nodes() == subtree(tree_root(*tree)),
            cursor.node() == tree_root(*tree),
    {
        RCursor { inner: tree.walk() }
    }

    /// The underlying cursor, to read from.
    pub fn borrow(&self) -> (inner: &TreeCursor<'a>)
        ensures
            walk_nodes(*inner) == self.nodes(),
            walk_path(*inner) == self.path(),
            walk_field_id(*inner) == self.field_id(),
            walk_field_name(*inner) == self.field(),
            on_a_node(*inner) == self.wf(),
    {
        &self.inner
    }

    /// The underlying cursor, to move. The cursor is afterwards where the
    /// caller left the underlying one.
    pub fn borrow_mut(&mut self) -> (inner: &mut TreeCursor<'a>)
        ensures
            walk_nodes(*inner) == old(self).nodes(),
            walk_path(*inner) == old(self).path(),
            walk_field_id(*inner) == old(self).field_id(),
            walk_field_name(*inner) == old(self).field(),
            on_a_node(*inner) == old(self).wf(),
            final(self).nodes() == walk_nodes(*final(inner)),
            final(self).path() == walk_path(*final(inner)),
            final(self).field_id() == walk_field_id(*final(inner)),
            final(self).field() == walk_field_name(*final(inner)),
            final(self).wf() == on_a_node(*final(inner)),
    {
        &mut self.inner
    }

    /// The node the cursor stands on.
    pub fn current_node(&self) -> (n: Node<'a>)
        ensures
            n == self.node(),
    {
        self.inner.node()
    }

    /// The field id of the current node, or `None` where it has no field.
    pub fn current_field_id(&self) -> (id: Option<u16>)
        ensures
            id == self.field_id(),
    {
        field_id(&self.inner)
    }

    /// The field name of the current node, or `None` where it has no field.
    pub fn current_field(&self) -> (name: Option<String>)
        ensures
            name is Some == self.field() is Some,
            name is Some ==> name->0@ == self.field()->0,
    {
        field_name(&self.inner)
    }

    /// Moves to the first child of the current node. Says whether it moved;
    /// without children the cursor stays where it is.
    pub fn goto_first_child(&mut self) -> (moved: bool)
        ensures
            final(self).nodes() == old(self).nodes(),
            moved == old(self).nodes().dom().contains(old(self).path().push(0)),
            final(self).path() == if moved {
                old(self).path().push(0)
            } else {
                old(self).path()
            },
            old(self).wf() ==> final(self).wf(),
    {
        self.inner.goto_first_child()
    }

    /// Moves to the next sibling of the current node. Says whether it moved;
    /// without a next sibling, and on the node the cursor was made on, the
    /// cursor stays where it is.
    pub fn goto_next_sibling(&mut self) -> (moved: bool)
        ensures
            final(self).nodes() == old(self).nodes(),
            moved == (old(self).path().len() > 0 && old(self).nodes().dom().contains(
                sibling(old(self).path()),
            )),
            final(self).path() == if moved {
                sibling(old(self).path())
            } else {
                old(self).path()
            },
            old(self).wf() ==> final(self).wf(),
    {
        self.inner.goto_next_sibling()
    }

    /// Moves to the parent of the current node. Says whether it moved; on the
    /// node the cursor was made on it stays where it is.
    pub fn goto_parent(&mut self) -> (moved: bool)
        ensures
            final(self).nodes() == old(self).nodes(),
            moved == (old(self).path().len() > 0),
            final(self).path() == if moved {
                old(self).path().drop_last()
            } else {
                old(self).path()
            },
            old(self).wf() ==> final(self).wf(),
    {
        self.inner.goto_parent()
    }

    /// Moves to the first child that ends after the byte offset `byte` and
    /// gives its index, or stays and gives `None`, as it does on a node
    /// without children. The index is the one that `child_for` names.
    pub fn goto_first_child_for_byte(&mut self, byte: usize) -> (found: Option<usize>)
        ensures
            found == old(self).child_for(byte),
            final(self).path() == match old(self).child_for(byte) {
                Some(i) => old(self).path().push(i as int),
                None => old(self).path(),
            },
            final(self).nodes() == old(self).nodes(),
            old(self).wf() ==> final(self).wf(),
            old(self).wf() && !old(self).nodes().dom().contains(old(self).path().push(0))
                ==> found is None,
            match found {
                Some(i) => {
                    &&& final(self).path() == old(self).path().push(i as int)
                    &&& old(self).nodes().dom().contains(old(self).path().push(i as int))
                    &&& byte <= u32::MAX ==> old(self).child_ends_after(i as int, byte)
                    &&& byte <= u32::MAX ==> forall|j: int|
                        0 <= j < i ==> !#[trigger] old(self).child_ends_after(j, byte)
                },
                None => final(self).path() == old(self).path(),
            },
    {
        let found = self.inner.goto_first_child_for_byte(byte);
        proof {
            if found is Some && old(self).wf() {
                lemma_earlier_child(old(self).nodes().dom(), old(self).path(), found->0 as int, 0);
            }
            if found is Some && byte <= u32::MAX {
                assert forall|j: int| 0 <= j < found->0 implies !#[trigger] old(
                    self,
                ).child_ends_after(j, byte) by {
                    assert(!ends_after(old(self).inner, j, byte));
                }
            }
        }
        found
    }

    /// The index of the child that a search for the byte offset `byte` finds
    /// among the children of the current node, if it finds one.
    pub closed spec fn child_for(&self, byte: usize) -> Option<usize> {
        child_for_byte(self.inner, byte)
    }

    /// The child with index `i` of the current node ends after `byte`.
    pub closed spec fn child_ends_after(&self, i: int, byte: usize) -> bool {
        ends_after(self.inner, i, byte)
    }

    /// Puts the cursor on `node`, as if it had been made there: what it could
    /// reach before is forgotten.
    pub fn reset(&mut self, node: Node<'a>)
        ensures
            final(self).wf(),
            final(self).path() == Seq::<int>::empty(),
            final(self).nodes() == subtree(node),
            final(self).node() == node,
    {
        self.inner.reset(node)
    }
}

} // verus!
