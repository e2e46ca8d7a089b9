//! Two tree containers: a comparison-ordered binary tree, and an implicit
//! binary tree that numbers its slots and is walked with cursors.

pub mod tree;
