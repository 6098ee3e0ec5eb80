//! What a task does when it runs.

use crate::builtin::BuiltInService;
use crate::command_line::{
    parse_lines, text_lines, CommandLineError, CommandLineView, CommandLines,
};
use crate::task::{ExitReason, TaskState};
use std::ops::ControlFlow;
use vstd::prelude::*;

verus! {

/// The work of a task.
#[derive(Debug)]
pub enum Payload {
    /// Nothing to run: the task is a point that others synchronise on.
    Marker,
    /// Commands, run one after the other.
    Service(CommandLines),
    /// A routine inside the supervisor.
    Builtin(BuiltInService),
}

/// The work of a task, as a mathematical value.
pub enum PayloadView {
    Marker,
    Service(Seq<CommandLineView>),
    Builtin(usize),
}

impl View for Payload {
    type V = PayloadView;

    open spec fn view(&self) -> PayloadView {
        match self {
            Payload::Marker => PayloadView::Marker,
            Payload::Service(lines) => PayloadView::Service(lines@),
            Payload::Builtin(service) => PayloadView::Builtin(service.id),
        }
    }
}

/// What running one step of a payload asks for.
#[derive(Debug, Clone, Copy, PartialEq, Eq)]
pub enum Launch {
    /// Start the command with this index and wait for its end.
    Command(usize),
    /// Poll the routine with this handle.
    Routine(BuiltInService),
    /// Nothing is started: the step is over with this result.
    Outcome(ControlFlow<TaskState>),
}

impl PayloadView {
    /// What step `x` of the payload asks for. A service starts its `x`-th
    /// command, passes over a command without words, and is done past its
    /// last command. A routine is polled at step 0 and done after it. A
    /// marker is done at once.
    pub open spec fn launch(self, x: usize) -> Launch {
        match self {
            PayloadView::Service(lines) => if x < lines.len() {
                if lines[x as int].args.len() == 0 {
                    Launch::Outcome(ControlFlow::Continue(()))
                } else {
                    Launch::Command(x)
                }
            } else {
                Launch::Outcome(ControlFlow::Break(TaskState::Concluded(ExitReason::Done)))
            },
            PayloadView::Builtin(id) => if x == 0 {
                Launch::Routine(BuiltInService { id })
            } else {
                Launch::Outcome(ControlFlow::Break(TaskState::Concluded(ExitReason::Done)))
            },
            PayloadView::Marker => Launch::Outcome(
                ControlFlow::Break(TaskState::Concluded(ExitReason::Done)),
            ),
        }
    }

    /// How many steps of the payload start something.
    pub open spec fn steps(self) -> nat {
        match self {
            PayloadView::Service(lines) => lines.len(),
            PayloadView::Builtin(_) => 1,
            PayloadView::Marker => 0,
        }
    }
}

impl Payload {
    /// What step `x` asks for: a command to start, a routine to poll, or the
    /// step's result where nothing is to be started.
    pub fn run(&self, x: usize) -> (r: Launch)
        ensures
            r == self@.launch(x),
    {
        match self {
            Payload::Service(command_lines) => match command_lines.get(x) {
                Some(command_line) => {
                    if command_line.is_empty() {
                        Launch::Outcome(ControlFlow::Continue(()))
                    } else {
                        Launch::Command(x)
                    }
                },
                None => Launch::Outcome(ControlFlow::Break(TaskState::Concluded(ExitReason::Done))),
            },
            Payload::Builtin(runnable) => {
                if x == 0 {
                    Launch::Routine(*runnable)
                } else {
                    Launch::Outcome(ControlFlow::Break(TaskState::Concluded(ExitReason::Done)))
                }
            },
            Payload::Marker => Launch::Outcome(
                ControlFlow::Break(TaskState::Concluded(ExitReason::Done)),
            ),
        }
    }

    /// Whether the payload is a marker.
    pub fn is_marker(&self) -> (r: bool)
        ensures
            r == (self@ is Marker),
    {
        matches!(self, Self::Marker)
    }

    /// The service whose commands are the lines of `s`.
    pub fn from_str(s: &str) -> (r: Result<Payload, CommandLineError>)
        ensures
            match parse_lines(text_lines(s@)) {
                Ok(list) => r matches Ok(p) && p@ == PayloadView::Service(list),
                Err(error) => r matches Err(e) && e@ == error,
            },
    {
        match CommandLines::from_str(s) {
            Ok(lines) => Ok(Payload::Service(lines)),
            Err(e) => Err(e),
        }
    }
}

impl Clone for Payload {
    fn clone(&self) -> (r: Self)
        ensures
            r@ == self@,
    {
        match self {
            Payload::Marker => Payload::Marker,
            Payload::Service(lines) => Payload::Service(lines.clone()),
            Payload::Builtin(service) => Payload::Builtin(*service),
        }
    }
}

impl Default for Payload {
    fn default() -> (r: Self)
        ensures
            r@ == PayloadView::Service(Seq::<CommandLineView>::empty()),
    {
        Payload::Service(CommandLines::default())
    }
}

} // verus!
