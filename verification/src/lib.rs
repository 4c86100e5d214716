//! A verified core for a sandbox wrapper that runs a command under a
//! deny-list file-access overlay.
//!
//! The library holds the logic of the wrapper: the rule engine that parses
//! and evaluates deny rules, the planner that derives overlay mount points,
//! the overlay bookkeeping (inode and file-handle tables) together with the
//! per-request access decisions, the denial-log formatting, the command-line
//! grammar, and the supervisor state machine that orders the namespace
//! setup pipeline. Process management, filesystem syscalls and the kernel
//! filesystem protocol live outside the library and consume it through
//! plain values.

pub mod cli;
pub mod config;
pub mod overlay;
pub mod planner;
pub mod globs;
pub mod logfmt;
pub mod rules;
pub mod strutil;
pub mod supervisor;
