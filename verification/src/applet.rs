//! The roles of the one binary: it acts by the name under which it is
//! called.

use crate::action::{ActionError, ActionErrorView, SystemCommand};
use crate::def::{APLT_COMPILE, APLT_CTL, APLT_INIT, APLT_MAIN};
use crate::text::str_eq;
use vstd::prelude::*;

verus! {

/// What the binary does under a name.
#[derive(Debug, Clone, Copy, PartialEq, Eq, Structural)]
pub enum Applet {
    /// Run as process 1 and supervise the tasks.
    Init,
    /// Read an action from the command line and write it to the control
    /// pipe.
    Ctl,
    /// Compile the task definitions into the cache.
    Compile,
    /// Write this system action to the control pipe.
    System(SystemCommand),
}

/// The role for a name: `init`, `alfad-ctl` and `alfad-compile` have their
/// own; the binary's own name has none; any other name is taken as the
/// command of a system action.
pub open spec fn applet_of(name: Seq<char>) -> Result<Applet, ActionErrorView> {
    if name == APLT_INIT@ {
        Ok(Applet::Init)
    } else if name == APLT_CTL@ {
        Ok(Applet::Ctl)
    } else if name == APLT_COMPILE@ {
        Ok(Applet::Compile)
    } else if name == APLT_MAIN@ {
        Err(ActionErrorView::MainAppletCalled)
    } else {
        match SystemCommand::parse(name) {
            Some(command) => Ok(Applet::System(command)),
            None => Err(ActionErrorView::ActionNotFound("system "@ + name)),
        }
    }
}

/// The role of the binary when it is called as `name`.
pub fn applet(name: &str) -> (r: Result<Applet, ActionError>)
    ensures
        match applet_of(name@) {
            Ok(role) => r == Ok::<Applet, ActionError>(role),
            Err(error) => r matches Err(e) && e@ == error,
        },
{
    if str_eq(name, APLT_INIT) {
        Ok(Applet::Init)
    } else if str_eq(name, APLT_CTL) {
        Ok(Applet::Ctl)
    } else if str_eq(name, APLT_COMPILE) {
        Ok(Applet::Compile)
    } else if str_eq(name, APLT_MAIN) {
        Err(ActionError::MainAppletCalled)
    } else {
        match SystemCommand::from_str(name) {
            Some(command) => Ok(Applet::System(command)),
            None => Err(ActionError::ActionNotFound(String::from_str("system ").concat(name))),
        }
    }
}

} // verus!
