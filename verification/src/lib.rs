//! The rewriting core of a version-control engine, and two commands on it.
//!
//! Commits and trees live in an append-only, content-addressed [`store`];
//! a [`repo`] adds the view of the store: the heads, the working copies and
//! the bookmarks. [`split`] splits one commit's change in two and repairs
//! every descendant, pointer and record that the split touches, in one
//! transaction. The commands in [`commands`] are written as steps: each
//! takes what the outside reports and says what the outside is to do next.

pub mod cascade;
pub mod command_error;
pub mod commands;
pub mod graph;
pub mod ids;
pub mod liveness;
pub mod name_map;
pub mod refs;
pub mod remap;
pub mod repo;
pub mod rewriter;
pub mod split;
pub mod store;
pub mod text;
pub mod tree;
