//! In-memory containers over text tokens: a dynamic array, a singly and a
//! doubly linked list, a stack, a queue and a complete binary tree. Each
//! container describes its contents by a mathematical view, and each
//! operation states in its contract how it changes that view.
//!
//! `session` groups the six containers of one run and carries out the
//! commands that `command` reads from a query.

pub mod array;
pub mod command;
pub mod doubly_list;
pub mod error;
pub mod full_binary_tree;
pub mod queue;
pub mod session;
pub mod singly_list;
pub mod stack;
