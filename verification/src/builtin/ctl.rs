//! The built-in tasks of the control channel: one creates the pipe, one
//! reads action lines from it.

use crate::action::ActionError;
use crate::builtin::{BuiltInService, IntoConfig};
use crate::config::yaml::{PayloadYaml, PayloadYamlView, TaskConfigYaml, TaskConfigYamlView};
use crate::def::{CTL_CREATE, CTL_DAEMON, PIPE_RETRY_SECS};
use crate::perform_action::{perform, performed, performed_as, Performed};
use crate::task::{ContextMap, ContextView, ExitReason, TaskState, WakerId};
use vstd::prelude::*;

verus! {

/// The handle of the routine that creates the control pipe.
pub const CREATE_CTL_PIPE: usize = 0;

/// The handle of the routine that reads the control pipe.
pub const WAIT_FOR_COMMANDS: usize = 1;

/// The feature that the pipe's directory waits for.
pub const FEATURE_RUN: &'static str = "feature::fs::run";

/// The task that creates the control pipe.
pub struct CreateCtlPipe;

/// The task that reads action lines from the control pipe.
pub struct WaitForCommands;

impl CreateCtlPipe {
    /// The payload that runs the routine.
    pub fn box_fn() -> (r: PayloadYaml)
        ensures
            r@ == PayloadYamlView::Builtin(CREATE_CTL_PIPE),
    {
        PayloadYaml::Builtin(BuiltInService { id: CREATE_CTL_PIPE })
    }
}

impl WaitForCommands {
    /// The payload that runs the routine.
    pub fn box_fn() -> (r: PayloadYaml)
        ensures
            r@ == PayloadYamlView::Builtin(WAIT_FOR_COMMANDS),
    {
        PayloadYaml::Builtin(BuiltInService { id: WAIT_FOR_COMMANDS })
    }
}

impl IntoConfig for CreateCtlPipe {
    /// The pipe is created once the directory for run-time files is there.
    fn into_config(self) -> (r: TaskConfigYaml)
        ensures
            r@ == (TaskConfigYamlView {
                after: seq![FEATURE_RUN@],
                ..TaskConfigYamlView::bare(CTL_CREATE@, PayloadYamlView::Builtin(CREATE_CTL_PIPE))
            }),
    {
        let mut conf = TaskConfigYaml::with_payload(String::from_str(CTL_CREATE), Self::box_fn());
        conf.after(FEATURE_RUN);
        assert(Seq::<Seq<char>>::empty().push(FEATURE_RUN@) =~= seq![FEATURE_RUN@]);
        conf
    }
}

impl IntoConfig for WaitForCommands {
    /// The pipe is read once it has been created.
    fn into_config(self) -> (r: TaskConfigYaml)
        ensures
            r@ == (TaskConfigYamlView {
                after: seq![CTL_CREATE@],
                ..TaskConfigYamlView::bare(CTL_DAEMON@, PayloadYamlView::Builtin(WAIT_FOR_COMMANDS))
            }),
    {
        let mut conf = TaskConfigYaml::with_payload(String::from_str(CTL_DAEMON), Self::box_fn());
        conf.after(CTL_CREATE);
        assert(Seq::<Seq<char>>::empty().push(CTL_CREATE@) =~= seq![CTL_CREATE@]);
        conf
    }
}

/// The definitions of the built-in tasks.
pub fn get_built_in() -> (r: Vec<TaskConfigYaml>)
    ensures
        r.len() == 2,
        r[0]@ == (TaskConfigYamlView {
            after: seq![FEATURE_RUN@],
            ..TaskConfigYamlView::bare(CTL_CREATE@, PayloadYamlView::Builtin(CREATE_CTL_PIPE))
        }),
        r[1]@ == (TaskConfigYamlView {
            after: seq![CTL_CREATE@],
            ..TaskConfigYamlView::bare(CTL_DAEMON@, PayloadYamlView::Builtin(WAIT_FOR_COMMANDS))
        }),
{
    let mut list: Vec<TaskConfigYaml> = Vec::new();
    list.push(CreateCtlPipe.into_config());
    list.push(WaitForCommands.into_config());
    list
}

/// `s` without the white space at its ends.
pub uninterp spec fn trimmed(s: Seq<char>) -> Seq<char>;

/// Calls `str::trim`.
///
/// Trusted: the result depends on the text alone, and is known only by the
/// name `trimmed`.
#[verifier::external_body]
fn trim(s: &str) -> (r: &str)
    ensures
        r@ == trimmed(s@),
{
    s.trim()
}

/// What happened at the control pipe.
#[derive(Debug)]
pub enum PipeEvent {
    /// The routine starts, or has slept.
    Begin,
    /// The pipe could not be opened.
    OpenFailed,
    /// The pipe is open.
    Opened,
    /// A line was read.
    Line(String),
    /// The pipe is at its end, or reading failed.
    Closed,
}

/// What the routine does next at the control pipe.
#[derive(Debug, Clone, Copy, PartialEq, Eq, Structural)]
pub enum PipeAction {
    /// Open the pipe for reading.
    Open,
    /// Sleep for this many seconds, then begin again.
    Sleep(u64),
    /// Read the next line.
    Read,
    /// The routine is over.
    Stop,
}

/// The outcome of one step of the routine that reads the control pipe.
#[derive(Debug)]
pub struct PipeStep {
    pub action: PipeAction,
    /// What the action line asks for, if one was read and carried out; the
    /// error, if one was read and refused.
    pub performed: Option<Result<Performed, ActionError>>,
    /// Continuations to wake because the daemon's own state changed.
    pub wake: Vec<WakerId>,
}

/// Where the routine stands when it is about to open the pipe: a daemon
/// that was told to terminate concludes and stops; any other opens the pipe.
pub open spec fn begun(m: Seq<ContextView>, daemon: int) -> (Seq<ContextView>, PipeAction, Seq<WakerId>) {
    if m[daemon].state == TaskState::Terminating {
        (
            m.update(daemon, m[daemon].update_state(TaskState::Concluded(ExitReason::Terminated))),
            PipeAction::Stop,
            m[daemon].woken_by(TaskState::Concluded(ExitReason::Terminated)),
        )
    } else {
        (m, PipeAction::Open, Seq::empty())
    }
}

/// One step of the routine that reads the control pipe, for the daemon at
/// place `daemon`. A line that was read is trimmed and carried out as an
/// action, and the next line is read, whether the action was carried out or
/// refused. A pipe that could not be opened, or that is at its end, is
/// opened again after a sleep.
pub fn wait_for_commands(context_map: &mut ContextMap, daemon: usize, event: PipeEvent) -> (r: PipeStep)
    requires
        daemon < old(context_map)@.len(),
    ensures
        match event {
            PipeEvent::Begin => {
                &&& final(context_map)@ == begun(old(context_map)@, daemon as int).0
                &&& r.action == begun(old(context_map)@, daemon as int).1
                &&& r.wake@ == begun(old(context_map)@, daemon as int).2
                &&& r.performed is None
            },
            PipeEvent::OpenFailed | PipeEvent::Closed => {
                &&& final(context_map)@ == old(context_map)@
                &&& r.action == PipeAction::Sleep(PIPE_RETRY_SECS)
                &&& r.wake@ == Seq::<WakerId>::empty()
                &&& r.performed is None
            },
            PipeEvent::Opened => {
                &&& final(context_map)@ == old(context_map)@
                &&& r.action == PipeAction::Read
                &&& r.wake@ == Seq::<WakerId>::empty()
                &&& r.performed is None
            },
            PipeEvent::Line(line) => {
                &&& r.action == PipeAction::Read
                &&& r.wake@ == Seq::<WakerId>::empty()
                &&& match performed(old(context_map)@, trimmed(line@), daemon) {
                    Ok(v) => {
                        &&& r.performed matches Some(Ok(p)) && performed_as(p, v)
                        &&& final(context_map)@ == v.map
                    },
                    Err(error) => {
                        &&& r.performed matches Some(Err(e)) && e@ == error
                        &&& final(context_map)@ == old(context_map)@
                    },
                }
            },
        },
{
    match event {
        PipeEvent::Begin => {
            if context_map.state(daemon) == TaskState::Terminating {
                let wake = context_map.update_state(
                    daemon,
                    TaskState::Concluded(ExitReason::Terminated),
                );
                PipeStep { action: PipeAction::Stop, performed: None, wake }
            } else {
                PipeStep { action: PipeAction::Open, performed: None, wake: Vec::new() }
            }
        },
        PipeEvent::OpenFailed | PipeEvent::Closed => PipeStep {
            action: PipeAction::Sleep(PIPE_RETRY_SECS),
            performed: None,
            wake: Vec::new(),
        },
        PipeEvent::Opened => PipeStep { action: PipeAction::Read, performed: None, wake: Vec::new() },
        PipeEvent::Line(line) => {
            let action = trim(line.as_str());
            let result = perform(action, context_map, daemon);
            PipeStep { action: PipeAction::Read, performed: Some(result), wake: Vec::new() }
        },
    }
}

} // verus!
