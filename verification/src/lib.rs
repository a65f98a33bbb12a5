//! Supervision of containerised processes on one host.
//!
//! A supervisor keeps a table of the processes that should run, starts them,
//! starts them again when they exit, and finds them again when it is itself
//! started anew. This crate holds what the supervisor decides; what it does
//! to the system (starting processes, sending signals, mounting) is left to
//! the caller, who is told what to do and reports what happened.
//!
//! - `monitor` is the state machine: the process table, the pid index and
//!   the restart `scheduler`, moved by events; `monitor_proofs` holds what
//!   is proved of it.
//! - `identity` reads from a running process who it is; `tree` brings what
//!   runs and what should run together when the supervisor starts.
//! - `executors` are the units that are run, `command` what it takes to
//!   start one.
//! - `tree_config`, `child_config`, `container_config`, `sandbox_config`
//!   and `id_map` are the configuration; `check` finds what is wrong with it,
//!   `cmd` names what a single command needs.
//! - `ascii` draws trees and tables, `text` and `json` read and compare
//!   text.

pub mod ascii;
pub mod check;
pub mod child_config;
pub mod cmd;
pub mod command;
pub mod container_config;
pub mod executors;
pub mod id_map;
pub mod identity;
pub mod json;
pub mod monitor;
pub mod monitor_proofs;
pub mod sandbox_config;
pub mod scheduler;
pub mod text;
pub mod tree;
pub mod tree_config;
