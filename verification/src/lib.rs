//! Planning for a dotfile deployment tool.
//!
//! A repository of managed files is materialised into a destination tree by
//! symlinks or copies. This library holds the decisions of that tool: which
//! entries of a repository are items, where each one goes, and what has to
//! happen to a destination that is already occupied. It works on captured
//! values (a directory tree, parsed configurations, observed targets), so
//! that every decision has a contract and a proof; reading and changing the
//! disk is left to the caller.

pub mod backup;
pub mod config;
pub mod copy;
pub mod dest;
pub mod diff;
pub mod effects;
pub mod error;
pub mod hooks;
pub mod ignore;
pub mod init;
pub mod items;
pub mod laws;
pub mod link;
pub mod list;
pub mod path;
pub mod pattern;
pub mod plan;
pub mod pull;
pub mod repo;
pub mod show;
pub mod snapshot;
pub mod structs;
pub mod text;
pub mod tree;
pub mod update;
