//! A dependency-aware service supervisor, stated as verified state machines.
//!
//! The library holds the rules of the supervisor: how task definitions are
//! ordered, how a task moves through its lifecycle, how dependents are woken
//! and what a control line does. Every function carries a contract that Verus
//! proves. Processes, pipes, timers and signals stay with the caller, which
//! performs the actions that the library hands back.
//!
//! - `config` and `command_line` hold the task definitions.
//! - `ordering` and `validate` make of them the list that is spawned.
//! - `task` holds the context of each task and the steps of its driver.
//! - `action` and `perform_action` are the control plane; `applet` tells the
//!   roles of the binary apart.
//! - `builtin` holds the tasks that run inside the supervisor.
//! - `guarantees` states what holds in every run.

use vstd::prelude::*;

pub mod action;
pub mod applet;
pub mod builtin;
pub mod command_line;
pub mod config;
pub mod def;
pub mod guarantees;
pub mod init;
pub mod ordering;
pub mod perform_action;
pub mod task;
pub mod text;
pub mod validate;

verus! {

/// Version string that a compiled configuration cache must carry.
pub const VERSION: &'static str = "0.1";

} // verus!
