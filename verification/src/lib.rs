//! Health checks for desktop launcher entries.
//!
//! For each `.desktop` file the crate decides whether the program that the
//! entry claims to launch exists and is runnable.
//!
//! Nothing in the crate touches the disk. Its state machines name what
//! they need to know next, the caller looks it up, and the answer is passed
//! back in:
//!
//! - [`walk`] finds the descriptor files under a set of directories;
//! - [`scan`] inspects one file and ends with one [`report::Finding`];
//! - [`check`] resolves the `TryExec` and `Exec` values of an entry;
//! - [`schedule`] keeps a bound on the inspections that run at once and
//!   collects one finding per file.
//!
//! Every contract is stated over the characters of the strings involved,
//! and every outcome against a [`check::FileSystem`], the facts about the
//! disk from which the answers are taken.

pub mod args;
pub mod check;
pub mod desktop;
pub mod linux_fs;
pub mod paths;
pub mod report;
pub mod scan;
pub mod schedule;
pub mod sorted;
pub mod text;
pub mod walk;
