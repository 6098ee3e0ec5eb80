//! Built-in routines: tasks that run inside the supervisor itself.

pub mod ctl;

use crate::config::yaml::TaskConfigYaml;
use crate::task::{ContextMap, ContextView, ExitReason, TaskState, WakerId};
use std::ops::ControlFlow;
use vstd::prelude::*;

verus! {

/// A handle on a routine that the program registered at startup. The library
/// carries the handle through; the program that holds the registry runs the
/// routine.
#[derive(Debug, Clone, Copy, PartialEq, Eq, Structural)]
pub struct BuiltInService {
    /// The routine's place in the registry.
    pub id: usize,
}

/// Something that knows the task definition under which it runs.
pub trait IntoConfig {
    fn into_config(self) -> TaskConfigYaml;
}

/// What a poll of a built-in routine begins with.
#[derive(Debug, Clone, Copy)]
pub enum RoutinePoll {
    /// The routine is not polled: the step is over with this result.
    Ready(ControlFlow<TaskState>),
    /// The routine is to be polled.
    Poll(BuiltInService),
}

/// Stands between the driver and a built-in routine: before each poll of the
/// routine it looks at the state of the task that the routine runs for.
#[derive(Debug, Clone, Copy, PartialEq, Eq, Structural)]
pub struct BuiltInServiceManager {
    pub function: BuiltInService,
    /// The place of the task that the routine runs for.
    pub context: usize,
}

impl BuiltInServiceManager {
    /// What a poll does to the context map: a task that is terminating is
    /// left as it is; any other gets `waker` as the continuation by which
    /// its driver is nudged.
    pub open spec fn polled(self, m: Seq<ContextView>, waker: WakerId) -> Seq<ContextView> {
        if m[self.context as int].state == TaskState::Terminating {
            m
        } else {
            m.update(
                self.context as int,
                ContextView { waker: Some(waker), ..m[self.context as int] },
            )
        }
    }

    /// Begins a poll of the routine. If the task is `Terminating`, the step
    /// ends with `Concluded(Terminated)` and the routine is not polled.
    /// Otherwise `waker` is installed as the continuation by which the
    /// task's driver is nudged, and the routine is to be polled.
    pub fn poll(&self, context_map: &mut ContextMap, waker: WakerId) -> (r: RoutinePoll)
        requires
            self.context < old(context_map)@.len(),
        ensures
            final(context_map)@ == self.polled(old(context_map)@, waker),
            match r {
                RoutinePoll::Ready(result) => {
                    &&& old(context_map)@[self.context as int].state == TaskState::Terminating
                    &&& result == ControlFlow::<TaskState>::Break(
                        TaskState::Concluded(ExitReason::Terminated),
                    )
                },
                RoutinePoll::Poll(function) => {
                    &&& old(context_map)@[self.context as int].state != TaskState::Terminating
                    &&& function == self.function
                },
            },
    {
        let state = context_map.state(self.context);
        if state == TaskState::Terminating {
            RoutinePoll::Ready(ControlFlow::Break(TaskState::Concluded(ExitReason::Terminated)))
        } else {
            context_map.set_waker(self.context, waker);
            RoutinePoll::Poll(self.function)
        }
    }
}

/// What the end of a routine means for its task: a routine that succeeded
/// lets the task move on, one that failed fails the run.
pub fn routine_outcome(succeeded: bool) -> (r: ControlFlow<TaskState>)
    ensures
        r == if succeeded {
            ControlFlow::<TaskState>::Continue(())
        } else {
            ControlFlow::<TaskState>::Break(TaskState::Concluded(ExitReason::Failed))
        },
{
    if succeeded {
        ControlFlow::Continue(())
    } else {
        ControlFlow::Break(TaskState::Concluded(ExitReason::Failed))
    }
}

} // verus!
