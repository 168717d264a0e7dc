//! A manager for stacks of dependent version-control branches.
//!
//! A stack is a rooted tree of branches, each built on top of its parent,
//! that must be kept rebased onto moving upstream tips while the matching
//! remote pull requests stay synchronized with the tree as it evolves.
//!
//! The library holds the branch-stack data model and its invariants, the
//! persisted-store codec, navigation between branches, stacks and raw
//! commits, the cascading-rebase planner, and the submission engine that
//! reconciles local stack state with remote pull-request state.  Everything
//! here is verified; the subprocess, network and terminal plumbing around it
//! lives in the accompanying binary.

pub mod cli;
pub mod codec;
pub mod data;
pub mod display;
pub mod errors;
pub mod nav;
pub mod repo;
pub mod restack;
pub mod strutil;
pub mod submit;
