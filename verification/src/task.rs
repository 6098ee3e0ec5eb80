//! Task states and the per-task context that the drivers and the control
//! plane share.

use crate::builtin::BuiltInService;
use crate::config::payload::Launch;
use crate::config::{latest, latest_configs, Respawn, TaskConfig, TaskConfigView};
use crate::text::{lemma_index_of_first_is, lemma_index_of_first_none, str_eq};
use std::ops::ControlFlow;
use vstd::prelude::*;

verus! {

/// Names a continuation that can be woken. The program that runs the drivers
/// decides what stands behind a number; a driver registers under its task's
/// index.
pub type WakerId = usize;

/// Why a run of a task came to its end.
#[derive(Debug, Clone, Copy, PartialEq, Eq, Hash, Structural)]
pub enum ExitReason {
    /// Every step of the payload succeeded.
    Done,
    /// A step failed or could not be started.
    Failed,
    /// The run was stopped on request.
    Terminated,
    /// The task was switched off; it is never respawned from here.
    Deactivated,
}

/// The lifecycle state of a task.
#[derive(Debug, Clone, Copy, PartialEq, Eq, Hash, Structural)]
pub enum TaskState {
    /// Initial state, before the driver has looked at the task.
    Created,
    /// Waiting for dependencies.
    Waiting,
    /// Executing the payload step with this index, counted from zero.
    Running(usize),
    /// The current run has ended.
    Concluded(ExitReason),
    /// A stop was requested and the child has not yet been seen to exit.
    Terminating,
}

impl ExitReason {
    /// The variant's name.
    pub fn name(&self) -> (r: &'static str)
        ensures
            r@ == match *self {
                ExitReason::Done => "Done"@,
                ExitReason::Failed => "Failed"@,
                ExitReason::Terminated => "Terminated"@,
                ExitReason::Deactivated => "Deactivated"@,
            },
    {
        match self {
            ExitReason::Done => "Done",
            ExitReason::Failed => "Failed",
            ExitReason::Terminated => "Terminated",
            ExitReason::Deactivated => "Deactivated",
        }
    }
}

impl TaskState {
    /// True for every `Concluded(_)` state.
    pub fn has_concluded(&self) -> (r: bool)
        ensures
            r == (*self is Concluded),
    {
        matches!(self, Self::Concluded(_))
    }

    /// True for every `Running(_)` state.
    pub fn is_running(&self) -> (r: bool)
        ensures
            r == (*self is Running),
    {
        matches!(self, Self::Running(_))
    }

    /// True for `Waiting` only.
    pub fn is_waiting(&self) -> (r: bool)
        ensures
            r == (*self == TaskState::Waiting),
    {
        *self == Self::Waiting
    }

    /// The variant's name, without what it carries.
    pub fn name(&self) -> (r: &'static str)
        ensures
            r@ == match *self {
                TaskState::Created => "Created"@,
                TaskState::Waiting => "Waiting"@,
                TaskState::Running(_) => "Running"@,
                TaskState::Concluded(_) => "Concluded"@,
                TaskState::Terminating => "Terminating"@,
            },
    {
        match self {
            TaskState::Created => "Created",
            TaskState::Waiting => "Waiting",
            TaskState::Running(_) => "Running",
            TaskState::Concluded(_) => "Concluded",
            TaskState::Terminating => "Terminating",
        }
    }
}

impl Default for TaskState {
    fn default() -> (r: Self)
        ensures
            r == TaskState::Created,
    {
        Self::Created
    }
}

/// The signals that the supervisor sends.
#[derive(Debug, Clone, Copy, PartialEq, Eq, Hash, Structural)]
pub enum Signal {
    /// Ask the process to stop.
    SIGTERM,
    /// Stop the process without asking.
    SIGKILL,
}

/// A signal to deliver: to which process, and which one.
#[derive(Debug, Clone, Copy, PartialEq, Eq, Hash, Structural)]
pub struct SignalRequest {
    pub pid: i32,
    pub signal: Signal,
}

/// The state of a task together with those who wait on it.
#[derive(Debug)]
pub struct StateManager {
    pub state: TaskState,
    /// Continuations to wake when the state changes, oldest first.
    pub wakers: Vec<WakerId>,
    /// The driver's own continuation, for a nudge from outside.
    pub waker: Option<WakerId>,
}

impl Default for StateManager {
    fn default() -> (r: Self)
        ensures
            r.state == TaskState::Created,
            r.wakers@ == Seq::<WakerId>::empty(),
            r.waker is None,
    {
        StateManager { state: TaskState::Created, wakers: Vec::new(), waker: None }
    }
}

impl StateManager {
    /// Replaces the state. Where the state changes, everyone registered is
    /// handed back to be woken, oldest first, and the registry is left
    /// empty; where it does not, nothing happens.
    pub fn update(&mut self, state: TaskState) -> (woken: Vec<WakerId>)
        ensures
            final(self).state == state,
            final(self).waker == old(self).waker,
            old(self).state == state ==> final(self).wakers@ == old(self).wakers@ && woken@
                == Seq::<WakerId>::empty(),
            old(self).state != state ==> final(self).wakers@ == Seq::<WakerId>::empty() && woken@
                == old(self).wakers@,
    {
        let mut woken: Vec<WakerId> = Vec::new();
        if self.state != state {
            self.state = state;
            std::mem::swap(&mut self.wakers, &mut woken);
        }
        woken
    }
}

/// What the supervisor knows of one task, as a mathematical value.
pub struct ContextView {
    pub config: TaskConfigView,
    pub state: TaskState,
    /// Continuations to wake when the state changes, oldest first.
    pub wakers: Seq<WakerId>,
    /// The driver's own continuation, set while the driver is parked.
    pub waker: Option<WakerId>,
    /// The process id of the child, while there is one.
    pub child: Option<i32>,
    /// How often the task was respawned.
    pub respawn_attempts: usize,
    /// How many entries of `with` the driver has seen running in this wait.
    pub with_seen: usize,
    /// How many entries of `after` the driver has seen done in this wait.
    pub after_seen: usize,
    /// The payload step that has been started and has not yet ended.
    pub step: Option<usize>,
    /// Whether the step under way belongs to a run that the control plane
    /// has put an end to, so that its result no longer counts.
    pub stale: bool,
    /// Whether the task has ever entered a `Running` state.
    pub was_running: bool,
    /// Whether the task has ever entered `Concluded(Done)`.
    pub was_done: bool,
}

/// `i + 1`, or `i` where that does not fit.
pub open spec fn next_index(i: usize) -> usize {
    if i < usize::MAX {
        (i + 1) as usize
    } else {
        i
    }
}

impl ContextView {
    /// A task that nobody has looked at yet.
    pub open spec fn initial(config: TaskConfigView) -> ContextView {
        ContextView {
            config,
            state: TaskState::Created,
            wakers: Seq::empty(),
            waker: None,
            child: None,
            respawn_attempts: 0,
            with_seen: 0,
            after_seen: 0,
            step: None,
            stale: false,
            was_running: false,
            was_done: false,
        }
    }

    /// The context after its state was set to `new`. A change of state
    /// empties the registry of waiters and is remembered; entering `Waiting`
    /// starts the wait for dependencies afresh.
    pub open spec fn update_state(self, new: TaskState) -> ContextView {
        if self.state == new {
            self
        } else {
            ContextView {
                state: new,
                wakers: Seq::empty(),
                with_seen: if new == TaskState::Waiting {
                    0
                } else {
                    self.with_seen
                },
                after_seen: if new == TaskState::Waiting {
                    0
                } else {
                    self.after_seen
                },
                was_running: self.was_running || new is Running,
                was_done: self.was_done || new == TaskState::Concluded(ExitReason::Done),
                ..self
            }
        }
    }

    /// Who is woken when the state is set to `new`: everyone registered, if
    /// that changes the state.
    pub open spec fn woken_by(self, new: TaskState) -> Seq<WakerId> {
        if self.state == new {
            Seq::empty()
        } else {
            self.wakers
        }
    }

    /// The context after `waker` was registered to be woken at the next
    /// change of state. A continuation is registered once, however often
    /// it asks.
    pub open spec fn registered(self, waker: WakerId) -> ContextView {
        if self.wakers.contains(waker) {
            self
        } else {
            ContextView { wakers: self.wakers.push(waker), ..self }
        }
    }

    /// The signal that goes out when `signal` is sent to the task: one to
    /// its child, if it has one.
    pub open spec fn signal_request(self, signal: Signal) -> Option<SignalRequest> {
        match self.child {
            Some(pid) => Some(SignalRequest { pid, signal }),
            None => None,
        }
    }
}

/// The shared state of one task: its definition, its lifecycle state, who
/// waits on it, its child, and where its driver stands.
pub struct TaskContext {
    config: TaskConfig,
    state_manager: StateManager,
    child: Option<i32>,
    respawn_attempts: usize,
    with_seen: usize,
    after_seen: usize,
    step: Option<usize>,
    stale: bool,
    was_running: Ghost<bool>,
    was_done: Ghost<bool>,
}

impl View for TaskContext {
    type V = ContextView;

    closed spec fn view(&self) -> ContextView {
        ContextView {
            config: self.config@,
            state: self.state_manager.state,
            wakers: self.state_manager.wakers@,
            waker: self.state_manager.waker,
            child: self.child,
            respawn_attempts: self.respawn_attempts,
            with_seen: self.with_seen,
            after_seen: self.after_seen,
            step: self.step,
            stale: self.stale,
            was_running: self.was_running@,
            was_done: self.was_done@,
        }
    }
}

impl TaskContext {
    /// The context of a task that has not started.
    pub fn new(config: TaskConfig) -> (r: TaskContext)
        ensures
            r@ == ContextView::initial(config@),
    {
        TaskContext {
            config,
            state_manager: StateManager::default(),
            child: None,
            respawn_attempts: 0,
            with_seen: 0,
            after_seen: 0,
            step: None,
            stale: false,
            was_running: Ghost(false),
            was_done: Ghost(false),
        }
    }

    /// The task's definition.
    pub fn config(&self) -> (r: &TaskConfig)
        ensures
            r@ == self@.config,
    {
        &self.config
    }

    /// The current state.
    pub fn state(&self) -> (r: TaskState)
        ensures
            r == self@.state,
    {
        self.state_manager.state
    }

    /// The process id of the child, while there is one.
    pub fn child(&self) -> (r: Option<i32>)
        ensures
            r == self@.child,
    {
        self.child
    }

    /// How often the task was respawned.
    pub fn respawn_attempts(&self) -> (r: usize)
        ensures
            r == self@.respawn_attempts,
    {
        self.respawn_attempts
    }

    /// The payload step that is under way, if one is.
    pub fn step(&self) -> (r: Option<usize>)
        ensures
            r == self@.step,
    {
        self.step
    }

    /// Replaces the state and hands back who is to be woken. Setting the
    /// state that is already there does nothing.
    pub fn update_state(&mut self, state: TaskState) -> (woken: Vec<WakerId>)
        ensures
            final(self)@ == old(self)@.update_state(state),
            woken@ == old(self)@.woken_by(state),
    {
        if self.state_manager.state != state {
            if state == TaskState::Waiting {
                self.with_seen = 0;
                self.after_seen = 0;
            }
            let ghost running = self.was_running@ || state is Running;
            let ghost done = self.was_done@ || state == TaskState::Concluded(ExitReason::Done);
            self.was_running = Ghost(running);
            self.was_done = Ghost(done);
        }
        self.state_manager.update(state)
    }

    /// The signal to deliver so that `signal` reaches the task's child;
    /// `None` where the task has no child.
    pub fn send_signal(&self, signal: Signal) -> (r: Option<SignalRequest>)
        ensures
            r == self@.signal_request(signal),
    {
        match self.child {
            Some(pid) => Some(SignalRequest { pid, signal }),
            None => None,
        }
    }

    /// Installs the continuation by which the driver can be nudged.
    pub fn set_waker(&mut self, waker: WakerId)
        ensures
            final(self)@ == (ContextView { waker: Some(waker), ..old(self)@ }),
    {
        self.state_manager.waker = Some(waker);
    }

    /// Takes the driver's continuation out, to be woken once.
    pub fn wake(&mut self) -> (r: Option<WakerId>)
        ensures
            r == old(self)@.waker,
            final(self)@ == (ContextView { waker: None, ..old(self)@ }),
    {
        self.state_manager.waker.take()
    }

    /// Registers `waker` to be woken at the next change of state, unless it
    /// is registered already.
    pub fn register(&mut self, waker: WakerId)
        ensures
            final(self)@ == old(self)@.registered(waker),
    {
        let mut i: usize = 0;
        while i < self.state_manager.wakers.len()
            invariant
                i <= self.state_manager.wakers.len(),
                *self == *old(self),
                forall|j: int| 0 <= j < i ==> self.state_manager.wakers@[j] != waker,
            decreases self.state_manager.wakers.len() - i,
        {
            if self.state_manager.wakers[i] == waker {
                return ;
            }
            i += 1;
        }
        self.state_manager.wakers.push(waker);
    }

    /// Marks the step under way, if there is one, as belonging to a run that
    /// has been put an end to.
    pub fn abandon(&mut self)
        ensures
            final(self)@ == (ContextView {
                stale: old(self)@.stale || old(self)@.step is Some,
                ..old(self)@
            }),
    {
        if self.step.is_some() {
            self.stale = true;
        }
    }

    /// Forgets earlier respawns.
    pub fn reset_attempts(&mut self)
        ensures
            final(self)@ == (ContextView { respawn_attempts: 0, ..old(self)@ }),
    {
        self.respawn_attempts = 0;
    }

    /// Remembers the child that was started for the step under way. Without
    /// a step under way there is no child to remember.
    pub fn record_child(&mut self, pid: i32)
        ensures
            final(self)@ == (ContextView {
                child: if old(self)@.step is Some {
                    Some(pid)
                } else {
                    old(self)@.child
                },
                ..old(self)@
            }),
    {
        if self.step.is_some() {
            self.child = Some(pid);
        }
    }
}

/// The names of the tasks of `m`, in order.
pub open spec fn names(m: Seq<ContextView>) -> Seq<Seq<char>> {
    Seq::new(m.len(), |i: int| m[i].config.name)
}

/// The place of the task called `name`.
pub open spec fn find(m: Seq<ContextView>, name: Seq<char>) -> Option<int> {
    names(m).index_of_first(name)
}

/// The contexts that a list of definitions starts with: one for each
/// definition that counts.
pub open spec fn initial_map(configs: Seq<TaskConfigView>) -> Seq<ContextView> {
    Seq::new(latest(configs).len(), |i: int| ContextView::initial(latest(configs)[i]))
}

/// What a waiter waits for.
#[derive(Debug, Clone, Copy, PartialEq, Eq, Structural)]
pub enum Predicate {
    /// Exactly this state.
    Is(TaskState),
    /// Any `Running` state.
    Running,
    /// Any `Concluded` state.
    Concluded,
}

impl Predicate {
    /// Whether `state` is what is waited for.
    pub open spec fn holds(self, state: TaskState) -> bool {
        match self {
            Predicate::Is(wanted) => state == wanted,
            Predicate::Running => state is Running,
            Predicate::Concluded => state is Concluded,
        }
    }

    /// Whether `state` is what is waited for.
    pub fn test(&self, state: &TaskState) -> (r: bool)
        ensures
            r == self.holds(*state),
    {
        match self {
            Predicate::Is(wanted) => *state == *wanted,
            Predicate::Running => state.is_running(),
            Predicate::Concluded => state.has_concluded(),
        }
    }
}

/// One look of a waiter at the task at place `d`: the state, if it is what
/// is waited for; else the waiter is registered there and nothing is had.
pub open spec fn poll_wait(m: Seq<ContextView>, d: int, predicate: Predicate, waker: WakerId) -> (
    Seq<ContextView>,
    Option<TaskState>,
) {
    if predicate.holds(m[d].state) {
        (m, Some(m[d].state))
    } else {
        (m.update(d, m[d].registered(waker)), None)
    }
}

/// How a wait on a task named by its name stands.
#[derive(Debug, Clone, Copy, PartialEq, Eq, Structural)]
pub enum Waited {
    /// There is no task of that name.
    Missing,
    /// The task is not yet in the state waited for; the waiter is registered.
    Pending,
    /// The task is in this state, which is what was waited for.
    Ready(TaskState),
}

/// One look of a waiter at the task called `name`.
pub open spec fn poll_named(m: Seq<ContextView>, name: Seq<char>, predicate: Predicate, waker: WakerId) -> (
    Seq<ContextView>,
    Waited,
) {
    match find(m, name) {
        None => (m, Waited::Missing),
        Some(d) => match poll_wait(m, d, predicate, waker).1 {
            Some(state) => (m, Waited::Ready(state)),
            None => (poll_wait(m, d, predicate, waker).0, Waited::Pending),
        },
    }
}

/// What a driver asks of the program that runs it.
#[derive(Debug, Clone, Copy, PartialEq, Eq, Structural)]
pub enum DriverAction {
    /// A transition was made: drive again.
    Yield,
    /// Nothing to do until the driver is woken.
    Park,
    /// Start the command with this index, then report how it ended.
    Spawn(usize),
    /// Poll this routine, then report how it ended.
    Routine(BuiltInService),
}

/// What the program reports to a driver.
#[derive(Debug, Clone, Copy)]
pub enum DriverEvent {
    /// The driver was started or woken, or is driven again after a yield.
    Poll,
    /// The step that was under way has ended with this result.
    StepFinished(ControlFlow<TaskState>),
}

/// The outcome of driving a task once.
#[derive(Debug)]
pub struct Driven {
    pub action: DriverAction,
    /// Continuations to wake, oldest first.
    pub wake: Vec<WakerId>,
}

/// The outcome of driving a task once, as a mathematical value.
pub struct DrivenView {
    pub map: Seq<ContextView>,
    pub action: DriverAction,
    pub wake: Seq<WakerId>,
}

/// Nothing changes; the driver is told `action`.
pub open spec fn stay(m: Seq<ContextView>, action: DriverAction) -> DrivenView {
    DrivenView { map: m, action, wake: Seq::empty() }
}

/// The driver of task `t` sets its state to `new` and yields.
pub open spec fn set_state(m: Seq<ContextView>, t: int, new: TaskState) -> DrivenView {
    DrivenView {
        map: m.update(t, m[t].update_state(new)),
        action: DriverAction::Yield,
        wake: m[t].woken_by(new),
    }
}

/// The driver of task `t` looks at one dependency, `name`, which it wants
/// to see in a state that meets `predicate`. A missing dependency stalls the
/// task. A dependency in the wanted state lets the driver move on (`moved`
/// is the task's context after that). A deactivated dependency deactivates
/// the task. Otherwise the driver registers with the dependency and parks.
pub open spec fn await_dependency(
    m: Seq<ContextView>,
    t: int,
    name: Seq<char>,
    predicate: Predicate,
    moved: ContextView,
) -> DrivenView {
    match find(m, name) {
        None => stay(m, DriverAction::Park),
        Some(d) => if predicate.holds(m[d].state) {
            DrivenView { map: m.update(t, moved), action: DriverAction::Yield, wake: Seq::empty() }
        } else if m[d].state == TaskState::Concluded(ExitReason::Deactivated) {
            set_state(m, t, TaskState::Concluded(ExitReason::Deactivated))
        } else {
            DrivenView {
                map: poll_wait(m, d, predicate, t as usize).0,
                action: DriverAction::Park,
                wake: Seq::empty(),
            }
        },
    }
}

/// A waiting task: first each entry of `with` must be seen running, then
/// each entry of `after` must be seen done; then the task runs.
pub open spec fn wait_step(m: Seq<ContextView>, t: int) -> DrivenView {
    let c = m[t];
    if c.with_seen < c.config.with.len() {
        await_dependency(
            m,
            t,
            c.config.with[c.with_seen as int],
            Predicate::Running,
            ContextView { with_seen: next_index(c.with_seen), ..c },
        )
    } else if c.after_seen < c.config.after.len() {
        await_dependency(
            m,
            t,
            c.config.after[c.after_seen as int],
            Predicate::Is(TaskState::Concluded(ExitReason::Done)),
            ContextView { after_seen: next_index(c.after_seen), ..c },
        )
    } else {
        set_state(m, t, TaskState::Running(0))
    }
}

/// Whether a task in this context is started again once its run has ended
/// for the reason `reason`: never a marker, never after deactivation, and
/// otherwise as the respawn policy says, where a limit of 0 is no limit.
pub open spec fn respawns(c: ContextView, reason: ExitReason) -> bool {
    &&& !(c.config.payload is Marker)
    &&& reason != ExitReason::Deactivated
    &&& match c.config.respawn {
        Respawn::No => false,
        Respawn::Retry(max) => max == 0 || c.respawn_attempts < max,
    }
}

/// A task whose run has ended: it goes back to waiting, one attempt more on
/// its count, or it stays as it is.
pub open spec fn respawn_step(m: Seq<ContextView>, t: int, reason: ExitReason) -> DrivenView {
    let c = m[t];
    if respawns(c, reason) {
        let counted = ContextView { respawn_attempts: next_index(c.respawn_attempts), ..c };
        DrivenView {
            map: m.update(t, counted.update_state(TaskState::Waiting)),
            action: DriverAction::Yield,
            wake: c.woken_by(TaskState::Waiting),
        }
    } else {
        stay(m, DriverAction::Park)
    }
}

/// A task in `Running(i)` with no step under way: the step `i` is started,
/// or, where there is nothing to start, its result is applied at once.
pub open spec fn launch_step(m: Seq<ContextView>, t: int, i: usize) -> DrivenView {
    let c = m[t];
    match c.config.payload.launch(i) {
        Launch::Command(_) => DrivenView {
            map: m.update(t, ContextView { step: Some(i), stale: false, ..c }),
            action: DriverAction::Spawn(i),
            wake: Seq::empty(),
        },
        Launch::Routine(service) => DrivenView {
            map: m.update(t, ContextView { step: Some(i), stale: false, ..c }),
            action: DriverAction::Routine(service),
            wake: Seq::empty(),
        },
        Launch::Outcome(ControlFlow::Continue(_)) => set_state(m, t, TaskState::Running(next_index(i))),
        Launch::Outcome(ControlFlow::Break(state)) => set_state(m, t, state),
    }
}

/// The step `i` of task `t` has ended with `result`. The child is gone. A
/// task that was told to terminate is terminated. A task that is still in
/// the run that started the step moves to the next step or to the state that
/// the step broke with. A task whose state the control plane has overwritten
/// meanwhile keeps that state: the result of a stale step does not count.
pub open spec fn finish_step(m: Seq<ContextView>, t: int, i: usize, result: ControlFlow<TaskState>) -> DrivenView {
    let idle = ContextView { step: None, child: None, stale: false, ..m[t] };
    let new = match idle.state {
        TaskState::Terminating => TaskState::Concluded(ExitReason::Terminated),
        TaskState::Running(_) => if m[t].stale {
            idle.state
        } else {
            match result {
                ControlFlow::Continue(_) => TaskState::Running(next_index(i)),
                ControlFlow::Break(state) => state,
            }
        },
        other => other,
    };
    DrivenView {
        map: m.update(t, idle.update_state(new)),
        action: DriverAction::Yield,
        wake: idle.woken_by(new),
    }
}

/// One step of the driver of task `t`, before parking is recorded.
pub open spec fn drive_core(m: Seq<ContextView>, t: int, event: DriverEvent) -> DrivenView {
    let c = m[t];
    match c.step {
        Some(i) => match event {
            DriverEvent::Poll => stay(m, DriverAction::Park),
            DriverEvent::StepFinished(result) => finish_step(m, t, i, result),
        },
        None => match c.state {
            TaskState::Created => set_state(m, t, TaskState::Waiting),
            TaskState::Waiting => wait_step(m, t),
            TaskState::Running(i) => launch_step(m, t, i),
            TaskState::Terminating => set_state(m, t, TaskState::Concluded(ExitReason::Terminated)),
            TaskState::Concluded(reason) => respawn_step(m, t, reason),
        },
    }
}

/// One step of the driver of task `t`. A driver that parks leaves its
/// continuation in its context, so that it can be nudged.
pub open spec fn drive_step(m: Seq<ContextView>, t: int, event: DriverEvent) -> DrivenView {
    let core = drive_core(m, t, event);
    if core.action == DriverAction::Park {
        DrivenView {
            map: core.map.update(t, ContextView { waker: Some(t as usize), ..core.map[t] }),
            ..core
        }
    } else {
        core
    }
}

/// Driving a task neither adds nor removes a task.
pub proof fn lemma_drive_keeps_len(m: Seq<ContextView>, t: int, event: DriverEvent)
    requires
        0 <= t < m.len(),
    ensures
        drive_core(m, t, event).map.len() == m.len(),
        drive_step(m, t, event).map.len() == m.len(),
{
    let c = m[t];
    if c.with_seen < c.config.with.len() {
        lemma_find_in_range(m, c.config.with[c.with_seen as int]);
    }
    if c.after_seen < c.config.after.len() {
        lemma_find_in_range(m, c.config.after[c.after_seen as int]);
    }
}

/// What `find` finds is a place of the map, and the task there has the name.
pub proof fn lemma_find_in_range(m: Seq<ContextView>, name: Seq<char>)
    ensures
        match find(m, name) {
            Some(d) => 0 <= d < m.len() && m[d].config.name == name,
            None => forall|i: int| 0 <= i < m.len() ==> m[i].config.name != name,
        },
{
    names(m).index_of_first_ensures(name);
    match find(m, name) {
        Some(d) => {
            assert(names(m)[d] == name);
        },
        None => {
            assert forall|i: int| 0 <= i < m.len() implies m[i].config.name != name by {
                assert(names(m)[i] == m[i].config.name);
                assert(!names(m).contains(name));
            }
        },
    }
}

/// All tasks of the supervisor, found by name or by place.
pub struct ContextMap {
    contexts: Vec<TaskContext>,
}

impl View for ContextMap {
    type V = Seq<ContextView>;

    closed spec fn view(&self) -> Seq<ContextView> {
        Seq::new(self.contexts@.len(), |i: int| self.contexts@[i]@)
    }
}

impl ContextMap {
    /// The contexts for a list of task definitions. Where several
    /// definitions share a name, the last one counts.
    pub fn new(configs: Vec<TaskConfig>) -> (r: ContextMap)
        ensures
            r@ == initial_map(configs.deep_view()),
    {
        let unique = latest_configs(&configs);
        let mut contexts: Vec<TaskContext> = Vec::new();
        let mut i: usize = 0;
        while i < unique.len()
            invariant
                i <= unique.len(),
                contexts.len() == i,
                forall|j: int| 0 <= j < i ==> contexts[j]@ == ContextView::initial(unique[j]@),
            decreases unique.len() - i,
        {
            contexts.push(TaskContext::new(unique[i].clone()));
            i += 1;
        }
        let r = ContextMap { contexts };
        assert(r@ =~= initial_map(configs.deep_view())) by {
            assert(unique.deep_view().len() == unique.len());
            assert forall|j: int| 0 <= j < unique.len() implies r@[j] == initial_map(
                configs.deep_view(),
            )[j] by {
                assert(unique.deep_view()[j] == unique[j]@);
            }
        }
        r
    }

    /// How many tasks there are.
    pub fn len(&self) -> (r: usize)
        ensures
            r == self@.len(),
    {
        self.contexts.len()
    }

    /// The context at place `task`.
    pub fn get(&self, task: usize) -> (r: &TaskContext)
        requires
            task < self@.len(),
        ensures
            r@ == self@[task as int],
    {
        &self.contexts[task]
    }

    /// The place of the task called `name`.
    pub fn find(&self, name: &str) -> (r: Option<usize>)
        ensures
            match r {
                Some(i) => find(self@, name@) == Some(i as int) && i < self@.len(),
                None => find(self@, name@) is None,
            },
    {
        let mut i: usize = 0;
        while i < self.contexts.len()
            invariant
                i <= self.contexts.len(),
                forall|j: int| 0 <= j < i ==> names(self@)[j] != name@,
            decreases self.contexts.len() - i,
        {
            if str_eq(self.contexts[i].config.name.as_str(), name) {
                proof {
                    assert(names(self@)[i as int] == name@);
                    lemma_index_of_first_is(names(self@), name@, i as int);
                }
                return Some(i);
            }
            assert(names(self@)[i as int] != name@);
            i += 1;
        }
        proof {
            lemma_index_of_first_none(names(self@), name@);
        }
        None
    }

    /// The state of the task at place `task`.
    pub fn state(&self, task: usize) -> (r: TaskState)
        requires
            task < self@.len(),
        ensures
            r == self@[task as int].state,
    {
        self.contexts[task].state()
    }

    /// Sets the state of the task at place `task` and hands back who is to
    /// be woken.
    pub fn update_state(&mut self, task: usize, state: TaskState) -> (woken: Vec<WakerId>)
        requires
            task < old(self)@.len(),
        ensures
            final(self)@ == old(self)@.update(task as int, old(self)@[task as int].update_state(state)),
            woken@ == old(self)@[task as int].woken_by(state),
    {
        let woken = self.contexts[task].update_state(state);
        assert(self@ =~= old(self)@.update(task as int, old(self)@[task as int].update_state(state)));
        woken
    }

    /// The signal to deliver so that `signal` reaches the child of the task
    /// at place `task`.
    pub fn send_signal(&self, task: usize, signal: Signal) -> (r: Option<SignalRequest>)
        requires
            task < self@.len(),
        ensures
            r == self@[task as int].signal_request(signal),
    {
        self.contexts[task].send_signal(signal)
    }

    /// Installs the continuation by which the driver of the task at place
    /// `task` can be nudged.
    pub fn set_waker(&mut self, task: usize, waker: WakerId)
        requires
            task < old(self)@.len(),
        ensures
            final(self)@ == old(self)@.update(
                task as int,
                ContextView { waker: Some(waker), ..old(self)@[task as int] },
            ),
    {
        self.contexts[task].set_waker(waker);
        assert(self@ =~= old(self)@.update(
            task as int,
            ContextView { waker: Some(waker), ..old(self)@[task as int] },
        ));
    }

    /// Takes the continuation of the driver of the task at place `task`
    /// out, to be woken once.
    pub fn wake(&mut self, task: usize) -> (r: Option<WakerId>)
        requires
            task < old(self)@.len(),
        ensures
            r == old(self)@[task as int].waker,
            final(self)@ == old(self)@.update(
                task as int,
                ContextView { waker: None, ..old(self)@[task as int] },
            ),
    {
        let r = self.contexts[task].wake();
        assert(self@ =~= old(self)@.update(
            task as int,
            ContextView { waker: None, ..old(self)@[task as int] },
        ));
        r
    }

    /// Marks the step under way of the task at place `task`, if there is
    /// one, as belonging to a run that has been put an end to.
    pub fn abandon(&mut self, task: usize)
        requires
            task < old(self)@.len(),
        ensures
            final(self)@ == old(self)@.update(
                task as int,
                ContextView {
                    stale: old(self)@[task as int].stale || old(self)@[task as int].step is Some,
                    ..old(self)@[task as int]
                },
            ),
    {
        self.contexts[task].abandon();
        assert(self@ =~= old(self)@.update(
            task as int,
            ContextView {
                stale: old(self)@[task as int].stale || old(self)@[task as int].step is Some,
                ..old(self)@[task as int]
            },
        ));
    }

    /// Forgets the earlier respawns of the task at place `task`.
    pub fn reset_attempts(&mut self, task: usize)
        requires
            task < old(self)@.len(),
        ensures
            final(self)@ == old(self)@.update(
                task as int,
                ContextView { respawn_attempts: 0, ..old(self)@[task as int] },
            ),
    {
        self.contexts[task].reset_attempts();
        assert(self@ =~= old(self)@.update(
            task as int,
            ContextView { respawn_attempts: 0, ..old(self)@[task as int] },
        ));
    }

    /// Remembers the child that was started for the step under way of the
    /// task at place `task`.
    pub fn record_child(&mut self, task: usize, pid: i32)
        requires
            task < old(self)@.len(),
        ensures
            final(self)@ == old(self)@.update(
                task as int,
                ContextView {
                    child: if old(self)@[task as int].step is Some {
                        Some(pid)
                    } else {
                        old(self)@[task as int].child
                    },
                    ..old(self)@[task as int]
                },
            ),
    {
        self.contexts[task].record_child(pid);
        assert(self@ =~= old(self)@.update(
            task as int,
            ContextView {
                child: if old(self)@[task as int].step is Some {
                    Some(pid)
                } else {
                    old(self)@[task as int].child
                },
                ..old(self)@[task as int]
            },
        ));
    }

    /// One look at the task at place `target` on behalf of `waker`: the
    /// state, if it meets `predicate`; else `waker` is registered there.
    pub fn poll(&mut self, target: usize, predicate: Predicate, waker: WakerId) -> (r: Option<TaskState>)
        requires
            target < old(self)@.len(),
        ensures
            (final(self)@, r) == poll_wait(old(self)@, target as int, predicate, waker),
    {
        let state = self.contexts[target].state();
        if predicate.test(&state) {
            Some(state)
        } else {
            self.contexts[target].register(waker);
            assert(self@ =~= poll_wait(old(self)@, target as int, predicate, waker).0);
            None
        }
    }

    /// One look at the task called `other` on behalf of `waker`.
    fn poll_named(&mut self, other: &str, predicate: Predicate, waker: WakerId) -> (r: Waited)
        ensures
            (final(self)@, r) == poll_named(old(self)@, other@, predicate, waker),
    {
        match self.find(other) {
            Some(task) => match self.poll(task, predicate, waker) {
                Some(state) => Waited::Ready(state),
                None => Waited::Pending,
            },
            None => Waited::Missing,
        }
    }

    /// Waits for the task called `other` to be in `state`: one look, which
    /// registers `waker` where the wait is not over.
    pub fn wait_for(&mut self, other: &str, state: TaskState, waker: WakerId) -> (r: Waited)
        ensures
            (final(self)@, r) == poll_named(old(self)@, other@, Predicate::Is(state), waker),
    {
        self.poll_named(other, Predicate::Is(state), waker)
    }

    /// Waits for the task called `other` to be running: one look, which
    /// registers `waker` where the wait is not over.
    pub fn wait_for_running(&mut self, other: &str, waker: WakerId) -> (r: Waited)
        ensures
            (final(self)@, r) == poll_named(old(self)@, other@, Predicate::Running, waker),
    {
        self.poll_named(other, Predicate::Running, waker)
    }

    /// Waits for the task called `other` to have concluded: one look, which
    /// registers `waker` where the wait is not over.
    pub fn wait_for_conclusion(&mut self, other: &str, waker: WakerId) -> (r: Waited)
        ensures
            (final(self)@, r) == poll_named(old(self)@, other@, Predicate::Concluded, waker),
    {
        self.poll_named(other, Predicate::Concluded, waker)
    }
}

/// `i + 1`, or `i` where that does not fit.
fn next(i: usize) -> (r: usize)
    ensures
        r == next_index(i),
{
    if i < usize::MAX {
        i + 1
    } else {
        i
    }
}

impl ContextMap {
    /// The driver sets the state of its task and yields.
    fn set_state(&mut self, task: usize, new: TaskState) -> (r: Driven)
        requires
            task < old(self)@.len(),
        ensures
            final(self)@ == set_state(old(self)@, task as int, new).map,
            r.action == set_state(old(self)@, task as int, new).action,
            r.wake@ == set_state(old(self)@, task as int, new).wake,
    {
        let wake = self.update_state(task, new);
        Driven { action: DriverAction::Yield, wake }
    }

    /// The driver looks at one dependency, found at `dependency` or missing;
    /// `with` says which of the two lists it is on.
    fn await_dependency(&mut self, task: usize, dependency: Option<usize>, predicate: Predicate, with: bool) -> (r:
        Driven)
        requires
            task < old(self)@.len(),
            match dependency {
                Some(d) => d < old(self)@.len(),
                None => true,
            },
        ensures
            ({
                let m = old(self)@;
                let c = m[task as int];
                let moved = if with {
                    ContextView { with_seen: next_index(c.with_seen), ..c }
                } else {
                    ContextView { after_seen: next_index(c.after_seen), ..c }
                };
                let expected = match dependency {
                    None => stay(m, DriverAction::Park),
                    Some(d) => if predicate.holds(m[d as int].state) {
                        DrivenView {
                            map: m.update(task as int, moved),
                            action: DriverAction::Yield,
                            wake: Seq::empty(),
                        }
                    } else if m[d as int].state == TaskState::Concluded(ExitReason::Deactivated) {
                        set_state(m, task as int, TaskState::Concluded(ExitReason::Deactivated))
                    } else {
                        DrivenView {
                            map: poll_wait(m, d as int, predicate, task).0,
                            action: DriverAction::Park,
                            wake: Seq::empty(),
                        }
                    },
                };
                &&& final(self)@ == expected.map
                &&& r.action == expected.action
                &&& r.wake@ == expected.wake
            }),
    {
        match dependency {
            None => Driven { action: DriverAction::Park, wake: Vec::new() },
            Some(d) => {
                let state = self.contexts[d].state();
                if predicate.test(&state) {
                    if with {
                        self.contexts[task].with_seen = next(self.contexts[task].with_seen);
                    } else {
                        self.contexts[task].after_seen = next(self.contexts[task].after_seen);
                    }
                    proof {
                        let m = old(self)@;
                        let c = m[task as int];
                        let moved = if with {
                            ContextView { with_seen: next_index(c.with_seen), ..c }
                        } else {
                            ContextView { after_seen: next_index(c.after_seen), ..c }
                        };
                        assert(self@ =~= m.update(task as int, moved));
                    }
                    Driven { action: DriverAction::Yield, wake: Vec::new() }
                } else if state == TaskState::Concluded(ExitReason::Deactivated) {
                    self.set_state(task, TaskState::Concluded(ExitReason::Deactivated))
                } else {
                    let _ = self.poll(d, predicate, task);
                    Driven { action: DriverAction::Park, wake: Vec::new() }
                }
            },
        }
    }

    /// One step of a waiting task.
    fn wait_step(&mut self, task: usize) -> (r: Driven)
        requires
            task < old(self)@.len(),
        ensures
            final(self)@ == wait_step(old(self)@, task as int).map,
            r.action == wait_step(old(self)@, task as int).action,
            r.wake@ == wait_step(old(self)@, task as int).wake,
    {
        let with_seen = self.contexts[task].with_seen;
        let after_seen = self.contexts[task].after_seen;
        if with_seen < self.contexts[task].config.with.len() {
            let dependency = self.find(self.contexts[task].config.with[with_seen].as_str());
            assert(self@[task as int].config.with[with_seen as int]
                == self.contexts[task as int].config.with[with_seen as int]@);
            self.await_dependency(task, dependency, Predicate::Running, true)
        } else if after_seen < self.contexts[task].config.after.len() {
            let dependency = self.find(self.contexts[task].config.after[after_seen].as_str());
            assert(self@[task as int].config.after[after_seen as int]
                == self.contexts[task as int].config.after[after_seen as int]@);
            self.await_dependency(
                task,
                dependency,
                Predicate::Is(TaskState::Concluded(ExitReason::Done)),
                false,
            )
        } else {
            self.set_state(task, TaskState::Running(0))
        }
    }

    /// One step of a task whose run has ended.
    fn respawn_step(&mut self, task: usize, reason: ExitReason) -> (r: Driven)
        requires
            task < old(self)@.len(),
        ensures
            final(self)@ == respawn_step(old(self)@, task as int, reason).map,
            r.action == respawn_step(old(self)@, task as int, reason).action,
            r.wake@ == respawn_step(old(self)@, task as int, reason).wake,
    {
        let again = !self.contexts[task].config.payload.is_marker() && reason != ExitReason::Deactivated
            && match self.contexts[task].config.respawn {
            Respawn::No => false,
            Respawn::Retry(max) => max == 0 || self.contexts[task].respawn_attempts < max,
        };
        if again {
            self.contexts[task].respawn_attempts = next(self.contexts[task].respawn_attempts);
            let wake = self.contexts[task].update_state(TaskState::Waiting);
            proof {
                let c = old(self)@[task as int];
                let counted = ContextView { respawn_attempts: next_index(c.respawn_attempts), ..c };
                assert(self@ =~= old(self)@.update(task as int, counted.update_state(TaskState::Waiting)));
            }
            Driven { action: DriverAction::Yield, wake }
        } else {
            Driven { action: DriverAction::Park, wake: Vec::new() }
        }
    }

    /// One step of a running task with no step under way.
    fn launch_step(&mut self, task: usize, i: usize) -> (r: Driven)
        requires
            task < old(self)@.len(),
        ensures
            final(self)@ == launch_step(old(self)@, task as int, i).map,
            r.action == launch_step(old(self)@, task as int, i).action,
            r.wake@ == launch_step(old(self)@, task as int, i).wake,
    {
        match self.contexts[task].config.payload.run(i) {
            Launch::Command(_) => {
                self.contexts[task].step = Some(i);
                self.contexts[task].stale = false;
                assert(self@ =~= old(self)@.update(
                    task as int,
                    ContextView { step: Some(i), stale: false, ..old(self)@[task as int] },
                ));
                Driven { action: DriverAction::Spawn(i), wake: Vec::new() }
            },
            Launch::Routine(service) => {
                self.contexts[task].step = Some(i);
                self.contexts[task].stale = false;
                assert(self@ =~= old(self)@.update(
                    task as int,
                    ContextView { step: Some(i), stale: false, ..old(self)@[task as int] },
                ));
                Driven { action: DriverAction::Routine(service), wake: Vec::new() }
            },
            Launch::Outcome(ControlFlow::Continue(_)) => self.set_state(task, TaskState::Running(next(i))),
            Launch::Outcome(ControlFlow::Break(state)) => self.set_state(task, state),
        }
    }

    /// The step under way has ended.
    fn finish_step(&mut self, task: usize, i: usize, result: ControlFlow<TaskState>) -> (r: Driven)
        requires
            task < old(self)@.len(),
        ensures
            final(self)@ == finish_step(old(self)@, task as int, i, result).map,
            r.action == finish_step(old(self)@, task as int, i, result).action,
            r.wake@ == finish_step(old(self)@, task as int, i, result).wake,
    {
        let stale = self.contexts[task].stale;
        self.contexts[task].step = None;
        self.contexts[task].child = None;
        self.contexts[task].stale = false;
        let new = match self.contexts[task].state() {
            TaskState::Terminating => TaskState::Concluded(ExitReason::Terminated),
            TaskState::Running(x) => {
                if stale {
                    TaskState::Running(x)
                } else {
                    match result {
                        ControlFlow::Continue(_) => TaskState::Running(next(i)),
                        ControlFlow::Break(state) => state,
                    }
                }
            },
            other => other,
        };
        let wake = self.contexts[task].update_state(new);
        proof {
            let idle = ContextView { step: None, child: None, stale: false, ..old(self)@[task as int] };
            assert(self@ =~= old(self)@.update(task as int, idle.update_state(new)));
        }
        Driven { action: DriverAction::Yield, wake }
    }

    /// One step of the driver, before parking is recorded.
    fn drive_core(&mut self, task: usize, event: DriverEvent) -> (r: Driven)
        requires
            task < old(self)@.len(),
        ensures
            final(self)@ == drive_core(old(self)@, task as int, event).map,
            r.action == drive_core(old(self)@, task as int, event).action,
            r.wake@ == drive_core(old(self)@, task as int, event).wake,
    {
        match self.contexts[task].step {
            Some(i) => match event {
                DriverEvent::Poll => Driven { action: DriverAction::Park, wake: Vec::new() },
                DriverEvent::StepFinished(result) => self.finish_step(task, i, result),
            },
            None => match self.contexts[task].state() {
                TaskState::Created => self.set_state(task, TaskState::Waiting),
                TaskState::Waiting => self.wait_step(task),
                TaskState::Running(i) => self.launch_step(task, i),
                TaskState::Terminating => self.set_state(
                    task,
                    TaskState::Concluded(ExitReason::Terminated),
                ),
                TaskState::Concluded(reason) => self.respawn_step(task, reason),
            },
        }
    }

    /// Drives the task at place `task` by one step: the decision that its
    /// driver takes on `event`, the transition that follows from it, and what
    /// the driver asks for next.
    pub fn drive(&mut self, task: usize, event: DriverEvent) -> (r: Driven)
        requires
            task < old(self)@.len(),
        ensures
            final(self)@ == drive_step(old(self)@, task as int, event).map,
            r.action == drive_step(old(self)@, task as int, event).action,
            r.wake@ == drive_step(old(self)@, task as int, event).wake,
    {
        let driven = self.drive_core(task, event);
        proof {
            lemma_drive_keeps_len(old(self)@, task as int, event);
        }
        if driven.action == DriverAction::Park {
            let ghost before = self@;
            self.contexts[task].set_waker(task);
            assert(self@ =~= before.update(
                task as int,
                ContextView { waker: Some(task), ..before[task as int] },
            ));
        }
        driven
    }
}

/// Drives the task at place `task` of `context_map` by one step.
pub fn drive(context_map: &mut ContextMap, task: usize, event: DriverEvent) -> (r: Driven)
    requires
        task < old(context_map)@.len(),
    ensures
        final(context_map)@ == drive_step(old(context_map)@, task as int, event).map,
        r.action == drive_step(old(context_map)@, task as int, event).action,
        r.wake@ == drive_step(old(context_map)@, task as int, event).wake,
{
    context_map.drive(task, event)
}

/// A wait for one task to meet a predicate.
#[derive(Debug, Clone, Copy, PartialEq, Eq, Structural)]
pub struct TaskWaiter {
    /// The place of the task that is waited for.
    pub context: usize,
    pub predicate: Predicate,
}

impl TaskWaiter {
    /// One look at the task: its state, if that meets the predicate; else
    /// `waker` is registered with the task and `None` says that the wait
    /// goes on.
    pub fn poll(&self, context_map: &mut ContextMap, waker: WakerId) -> (r: Option<TaskState>)
        requires
            self.context < old(context_map)@.len(),
        ensures
            (final(context_map)@, r) == poll_wait(old(context_map)@, self.context as int, self.predicate, waker),
    {
        context_map.poll(self.context, self.predicate, waker)
    }
}

/// Starts the driver of the task at place `task`: its first step.
pub fn spawn(context_map: &mut ContextMap, task: usize) -> (r: Driven)
    requires
        task < old(context_map)@.len(),
    ensures
        final(context_map)@ == drive_step(old(context_map)@, task as int, DriverEvent::Poll).map,
        r.action == drive_step(old(context_map)@, task as int, DriverEvent::Poll).action,
        r.wake@ == drive_step(old(context_map)@, task as int, DriverEvent::Poll).wake,
{
    drive(context_map, task, DriverEvent::Poll)
}

} // verus!
