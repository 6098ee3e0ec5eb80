//! Names and places that the supervisor and its front ends agree on.

use vstd::prelude::*;

verus! {

/// Main binary name.
pub const APLT_MAIN: &'static str = "alfad";

/// Name under which the binary acts as the controller.
pub const APLT_CTL: &'static str = "alfad-ctl";

/// Name under which the binary compiles the configuration.
pub const APLT_COMPILE: &'static str = "alfad-compile";

/// Name under which the binary runs as process 1.
pub const APLT_INIT: &'static str = "init";

/// Directory of the control pipe.
pub const DIR_RUN: &'static str = "/run/var";

/// Configuration directory.
pub const DIR_CFG: &'static str = "/etc/alfad";

/// Directory of the task definitions.
pub const DIR_CFG_D: &'static str = "/etc/alfad/alfad.d";

/// File name of the compiled configuration.
pub const FILE_CFG_BT: &'static str = "alfad.d.cache";

/// Name of the task that reads the control pipe.
pub const CTL_DAEMON: &'static str = "builtin::ctl::daemon";

/// Name of the task that creates the control pipe.
pub const CTL_CREATE: &'static str = "builtin::ctl::create";

/// How long the shutdown waits for one task to conclude, in milliseconds.
pub const KILL_WAIT_MS: u64 = 1000;

/// How long the control daemon sleeps before it opens the pipe again, in
/// seconds.
pub const PIPE_RETRY_SECS: u64 = 10;

} // verus!
