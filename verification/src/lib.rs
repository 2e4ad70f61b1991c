//! Cursor-based walking of syntax trees: a positioned cursor over a
//! `tree_sitter` tree, projection of node properties into a caller's buffer,
//! and a resumable pre-order depth-first traversal.

pub mod cursor;
pub mod driver;
pub mod preorder;
pub mod projection;
pub mod traversal;
pub mod tree;
