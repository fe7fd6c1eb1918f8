//! Discovery-and-scheduling core of a local mail indexing agent.
//!
//! The library classifies filesystem entries as mail stores (plain mbox,
//! gzip-compressed mbox, or maildir), walks pre-probed directory entries with
//! symlink/duplicate suppression, keeps a registry of discovered stores with
//! unique names, and fills a deduplicating, priority-ordered work queue of
//! rescan tasks.

pub mod config;
pub mod mailbox;
pub mod registry;
pub mod scan;
pub mod task;
