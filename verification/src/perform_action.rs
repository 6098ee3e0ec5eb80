//! The control plane: what an action line does to the tasks.
//!
//! Nothing here sends a signal, wakes a continuation or reboots. Each
//! function changes the context map and hands back what is to be done: the
//! signals to deliver, the continuations to wake, and what is still due once
//! the caller has waited.

use crate::action::{parse_action, Action, ActionError, ActionErrorView, ActionView, SystemCommand};
use crate::def::CTL_DAEMON;
use crate::task::{
    find, poll_wait, ContextMap, ContextView, ExitReason, Predicate, Signal, SignalRequest,
    TaskState, WakerId,
};
use crate::text::str_eq;
use vstd::prelude::*;

verus! {

/// A task could not be stopped; the text says why.
#[derive(Debug, Clone, Copy)]
pub struct FailedToKill(pub &'static str);

impl FailedToKill {
    /// The reason.
    pub fn message(&self) -> (r: &'static str)
        ensures
            r@ == self.0@,
    {
        self.0
    }
}

/// What remains to be done for an action once its first effects are out.
#[derive(Debug, Clone, Copy, PartialEq, Eq, Structural)]
pub enum FollowUp {
    /// The action is complete.
    Nothing,
    /// A restart waits for the task at place `task` to conclude; when the
    /// caller is woken it goes on with `resume_restart`.
    AwaitConclusion { task: usize, force: bool },
    /// The system goes down: the caller waits for each task in the list of
    /// those awaited, a bounded time each, and reboots with `command` after that.
    Reboot { command: SystemCommand },
}

/// What an action asks the caller to do.
#[derive(Debug)]
pub struct Performed {
    /// Signals to deliver, in order.
    pub signals: Vec<SignalRequest>,
    /// Continuations to wake, in order.
    pub wake: Vec<WakerId>,
    /// Places of the tasks whose conclusion is awaited before a reboot.
    pub awaiting: Vec<usize>,
    /// What is still due.
    pub due: FollowUp,
}

/// The context map after an action, and what the action asks for.
pub struct PerformedView {
    pub map: Seq<ContextView>,
    pub signals: Seq<SignalRequest>,
    pub wake: Seq<WakerId>,
    pub awaiting: Seq<usize>,
    pub due: FollowUp,
}

/// The one element of `Some`, or none.
pub open spec fn option_seq<T>(o: Option<T>) -> Seq<T> {
    match o {
        Some(x) => seq![x],
        None => Seq::empty(),
    }
}

/// Nothing happens.
pub open spec fn unchanged(m: Seq<ContextView>) -> PerformedView {
    PerformedView {
        map: m,
        signals: Seq::empty(),
        wake: Seq::empty(),
        awaiting: Seq::empty(),
        due: FollowUp::Nothing,
    }
}

/// First `first`, after it `second`, which started from the map that `first`
/// left; what is still due is what `second` says.
pub open spec fn sequence(first: PerformedView, second: PerformedView) -> PerformedView {
    PerformedView {
        map: second.map,
        signals: first.signals + second.signals,
        wake: first.wake + second.wake,
        awaiting: first.awaiting + second.awaiting,
        due: second.due,
    }
}

/// The control plane overwrites the state of the task at place `t`. Where
/// that changes the state, those who wait on the task are woken, and so is
/// its driver, whose continuation is used up; a step that is under way no
/// longer counts for the task.
pub open spec fn overwritten(m: Seq<ContextView>, t: int, new: TaskState) -> PerformedView {
    let c = m[t];
    if c.state == new {
        unchanged(m)
    } else {
        PerformedView {
            map: m.update(
                t,
                ContextView {
                    waker: None,
                    stale: c.stale || c.step is Some,
                    ..c.update_state(new)
                },
            ),
            signals: Seq::empty(),
            wake: c.woken_by(new) + option_seq(c.waker),
            awaiting: Seq::empty(),
            due: FollowUp::Nothing,
        }
    }
}

/// The task at place `t` is killed. A task that has concluded or is waiting
/// is left alone. Otherwise its child, if it has one, gets SIGTERM and the
/// task is `Terminating`; with `force` the child gets SIGKILL and the task is
/// `Concluded(Terminated)` at once.
pub open spec fn killed(m: Seq<ContextView>, t: int, force: bool) -> PerformedView {
    let c = m[t];
    if c.state is Concluded || c.state == TaskState::Waiting {
        unchanged(m)
    } else if force {
        PerformedView {
            signals: option_seq(c.signal_request(Signal::SIGKILL)),
            ..overwritten(m, t, TaskState::Concluded(ExitReason::Terminated))
        }
    } else {
        PerformedView {
            signals: option_seq(c.signal_request(Signal::SIGTERM)),
            ..overwritten(m, t, TaskState::Terminating)
        }
    }
}

/// The task at place `t` is started: it goes to `Waiting`. With `force` its
/// respawn count starts afresh and it goes straight to `Running(0)`, past
/// its dependencies; a task that is running already keeps running as it is.
pub open spec fn started(m: Seq<ContextView>, t: int, force: bool) -> PerformedView {
    if force {
        let fresh = m.update(t, ContextView { respawn_attempts: 0, ..m[t] });
        if m[t].state is Running {
            unchanged(fresh)
        } else {
            overwritten(fresh, t, TaskState::Running(0))
        }
    } else {
        overwritten(m, t, TaskState::Waiting)
    }
}

/// The task at place `t` is killed and marked as deactivated.
pub open spec fn deactivated(m: Seq<ContextView>, t: int, force: bool) -> PerformedView {
    let first = killed(m, t, force);
    sequence(first, overwritten(first.map, t, TaskState::Concluded(ExitReason::Deactivated)))
}

/// A restart of the task at place `t` goes on once the task may have
/// concluded: a concluded task starts with a fresh respawn count; any other
/// registers `waker` with the task and waits on.
pub open spec fn restart_resumed(m: Seq<ContextView>, t: int, force: bool, waker: WakerId) -> PerformedView {
    if m[t].state is Concluded {
        started(m.update(t, ContextView { respawn_attempts: 0, ..m[t] }), t, force)
    } else {
        PerformedView {
            map: poll_wait(m, t, Predicate::Concluded, waker).0,
            due: FollowUp::AwaitConclusion { task: t as usize, force },
            ..unchanged(m)
        }
    }
}

/// The task at place `t` is restarted: killed, and started again once it has
/// concluded.
pub open spec fn restarted(m: Seq<ContextView>, t: int, force: bool, waker: WakerId) -> PerformedView {
    let first = killed(m, t, force);
    sequence(first, restart_resumed(first.map, t, force, waker))
}

/// Whether the shutdown leaves the task at place `t` alone: only the task
/// that reads the control channel.
pub open spec fn spared(m: Seq<ContextView>, t: int) -> bool {
    m[t].config.name == CTL_DAEMON@
}

/// One task of a shutdown: the task at place `t` is killed and, unless it
/// has concluded by that time, awaited.
pub open spec fn shut_down(m: Seq<ContextView>, t: int, force: bool, waker: WakerId) -> PerformedView {
    if spared(m, t) {
        unchanged(m)
    } else {
        let first = killed(m, t, force);
        let waited = poll_wait(first.map, t, Predicate::Concluded, waker);
        PerformedView {
            map: waited.0,
            awaiting: if waited.1 is Some {
                Seq::empty()
            } else {
                seq![t as usize]
            },
            ..first
        }
    }
}

/// The first `k` tasks are shut down, in the order of the map.
pub open spec fn all_killed_upto(m: Seq<ContextView>, force: bool, waker: WakerId, k: nat) -> PerformedView
    decreases k,
{
    if k == 0 {
        unchanged(m)
    } else {
        let before = all_killed_upto(m, force, waker, (k - 1) as nat);
        sequence(before, shut_down(before.map, k - 1, force, waker))
    }
}

/// Every task but the one that reads the control channel is shut down.
pub open spec fn all_killed(m: Seq<ContextView>, force: bool, waker: WakerId) -> PerformedView {
    all_killed_upto(m, force, waker, m.len())
}

/// What an action does. An action on a task that does not exist is refused
/// and changes nothing. An action on the system kills every task, without
/// force, and leaves the reboot to the caller.
pub open spec fn executed(m: Seq<ContextView>, action: ActionView, waker: WakerId) -> Result<
    PerformedView,
    ActionErrorView,
> {
    match action {
        ActionView::Kill { task, force } => match find(m, task) {
            Some(t) => Ok(killed(m, t, force)),
            None => Err(ActionErrorView::TaskNotFound(task)),
        },
        ActionView::Deactivate { task, force } => match find(m, task) {
            Some(t) => Ok(deactivated(m, t, force)),
            None => Err(ActionErrorView::TaskNotFound(task)),
        },
        ActionView::Restart { task, force } => match find(m, task) {
            Some(t) => Ok(restarted(m, t, force, waker)),
            None => Err(ActionErrorView::TaskNotFound(task)),
        },
        ActionView::Start { task, force } => match find(m, task) {
            Some(t) => Ok(started(m, t, force)),
            None => Err(ActionErrorView::TaskNotFound(task)),
        },
        ActionView::System { command } => Ok(
            PerformedView { due: FollowUp::Reboot { command }, ..all_killed(m, false, waker) },
        ),
    }
}

/// What an action line does: it is read and, if it is an action, executed.
pub open spec fn performed(m: Seq<ContextView>, line: Seq<char>, waker: WakerId) -> Result<
    PerformedView,
    ActionErrorView,
> {
    match parse_action(line) {
        Ok(action) => executed(m, action, waker),
        Err(error) => Err(error),
    }
}

/// Whether `p` is what `v` describes.
pub open spec fn performed_as(p: Performed, v: PerformedView) -> bool {
    &&& p.signals@ == v.signals
    &&& p.wake@ == v.wake
    &&& p.awaiting@ == v.awaiting
    &&& p.due == v.due
}

impl Performed {
    /// Nothing to do.
    pub fn nothing() -> (r: Performed)
        ensures
            r.signals@ == Seq::<SignalRequest>::empty(),
            r.wake@ == Seq::<WakerId>::empty(),
            r.awaiting@ == Seq::<usize>::empty(),
            r.due == FollowUp::Nothing,
    {
        Performed { signals: Vec::new(), wake: Vec::new(), awaiting: Vec::new(), due: FollowUp::Nothing }
    }

    /// Appends what `next` asks for; what is still due is what `next` says.
    pub fn extend(&mut self, next: Performed)
        ensures
            final(self).signals@ == old(self).signals@ + next.signals@,
            final(self).wake@ == old(self).wake@ + next.wake@,
            final(self).awaiting@ == old(self).awaiting@ + next.awaiting@,
            final(self).due == next.due,
    {
        let mut next = next;
        self.signals.append(&mut next.signals);
        self.wake.append(&mut next.wake);
        self.awaiting.append(&mut next.awaiting);
        self.due = next.due;
    }
}

/// Overwrites the state of the task at place `task`.
fn overwrite(context: &mut ContextMap, task: usize, new: TaskState) -> (r: Performed)
    requires
        task < old(context)@.len(),
    ensures
        final(context)@ == overwritten(old(context)@, task as int, new).map,
        performed_as(r, overwritten(old(context)@, task as int, new)),
{
    let mut r = Performed::nothing();
    if context.state(task) != new {
        let ghost c = context@[task as int];
        let mut woken = context.update_state(task, new);
        context.abandon(task);
        r.wake.append(&mut woken);
        match context.wake(task) {
            Some(waker) => {
                r.wake.push(waker);
            },
            None => {},
        }
        assert(r.wake@ =~= c.woken_by(new) + option_seq(c.waker));
        assert(context@ =~= overwritten(old(context)@, task as int, new).map);
    }
    r
}

/// Kills the task at place `task`: SIGTERM, or SIGKILL with `force`.
pub fn kill(context: &mut ContextMap, task: usize, force: bool) -> (r: Performed)
    requires
        task < old(context)@.len(),
    ensures
        final(context)@ == killed(old(context)@, task as int, force).map,
        performed_as(r, killed(old(context)@, task as int, force)),
{
    let state = context.state(task);
    if state.has_concluded() || state.is_waiting() {
        return Performed::nothing();
    }
    let signal = if force {
        Signal::SIGKILL
    } else {
        Signal::SIGTERM
    };
    let new = if force {
        TaskState::Concluded(ExitReason::Terminated)
    } else {
        TaskState::Terminating
    };
    let request = context.send_signal(task, signal);
    let mut r = overwrite(context, task, new);
    match request {
        Some(request) => {
            r.signals.push(request);
        },
        None => {},
    }
    assert(r.signals@ =~= option_seq(request));
    r
}

/// Starts the task at place `task`.
pub fn start(context: &mut ContextMap, task: usize, force: bool) -> (r: Performed)
    requires
        task < old(context)@.len(),
    ensures
        final(context)@ == started(old(context)@, task as int, force).map,
        performed_as(r, started(old(context)@, task as int, force)),
{
    if force {
        context.reset_attempts(task);
        if context.state(task).is_running() {
            Performed::nothing()
        } else {
            overwrite(context, task, TaskState::Running(0))
        }
    } else {
        overwrite(context, task, TaskState::Waiting)
    }
}

/// Kills the task at place `task` and marks it as deactivated.
pub fn deactivate(context: &mut ContextMap, task: usize, force: bool) -> (r: Performed)
    requires
        task < old(context)@.len(),
    ensures
        final(context)@ == deactivated(old(context)@, task as int, force).map,
        performed_as(r, deactivated(old(context)@, task as int, force)),
{
    let mut r = kill(context, task, force);
    proof {
        lemma_killed_keeps_len(old(context)@, task as int, force);
    }
    let second = overwrite(context, task, TaskState::Concluded(ExitReason::Deactivated));
    r.extend(second);
    r
}

/// Goes on with a restart of the task at place `task` after a wake-up.
pub fn resume_restart(context: &mut ContextMap, task: usize, force: bool, waker: WakerId) -> (r: Performed)
    requires
        task < old(context)@.len(),
    ensures
        final(context)@ == restart_resumed(old(context)@, task as int, force, waker).map,
        performed_as(r, restart_resumed(old(context)@, task as int, force, waker)),
{
    if context.state(task).has_concluded() {
        context.reset_attempts(task);
        start(context, task, force)
    } else {
        let _ = context.poll(task, Predicate::Concluded, waker);
        let mut r = Performed::nothing();
        r.due = FollowUp::AwaitConclusion { task, force };
        r
    }
}

/// Restarts the task at place `task`.
pub fn restart(context: &mut ContextMap, task: usize, force: bool, waker: WakerId) -> (r: Performed)
    requires
        task < old(context)@.len(),
    ensures
        final(context)@ == restarted(old(context)@, task as int, force, waker).map,
        performed_as(r, restarted(old(context)@, task as int, force, waker)),
{
    let mut r = kill(context, task, force);
    proof {
        lemma_killed_keeps_len(old(context)@, task as int, force);
    }
    let second = resume_restart(context, task, force, waker);
    r.extend(second);
    r
}

/// Killing a task neither adds nor removes a task, and renames none.
pub proof fn lemma_killed_keeps_len(m: Seq<ContextView>, t: int, force: bool)
    requires
        0 <= t < m.len(),
    ensures
        killed(m, t, force).map.len() == m.len(),
        forall|i: int|
            0 <= i < m.len() ==> (#[trigger] killed(m, t, force).map[i]).config == m[i].config,
{
}

/// Shuts one task down.
fn shut_down_one(context: &mut ContextMap, task: usize, force: bool, waker: WakerId) -> (r: Performed)
    requires
        task < old(context)@.len(),
    ensures
        final(context)@ == shut_down(old(context)@, task as int, force, waker).map,
        performed_as(r, shut_down(old(context)@, task as int, force, waker)),
        final(context)@.len() == old(context)@.len(),
{
    if str_eq(context.get(task).config().name.as_str(), CTL_DAEMON) {
        Performed::nothing()
    } else {
        let mut r = kill(context, task, force);
        proof {
            lemma_killed_keeps_len(old(context)@, task as int, force);
        }
        match context.poll(task, Predicate::Concluded, waker) {
            Some(_) => {},
            None => {
                r.awaiting.push(task);
            },
        }
        r
    }
}

/// Kills every task but the one that reads the control channel, and
/// registers `waker` with each that has not concluded.
pub fn kill_all(context: &mut ContextMap, force: bool, waker: WakerId) -> (r: Performed)
    ensures
        final(context)@ == all_killed(old(context)@, force, waker).map,
        performed_as(r, all_killed(old(context)@, force, waker)),
{
    let mut r = Performed::nothing();
    let n = context.len();
    let mut i: usize = 0;
    while i < n
        invariant
            i <= n,
            n == old(context)@.len(),
            context@.len() == n,
            context@ == all_killed_upto(old(context)@, force, waker, i as nat).map,
            performed_as(r, all_killed_upto(old(context)@, force, waker, i as nat)),
        decreases n - i,
    {
        let next = shut_down_one(context, i, force, waker);
        r.extend(next);
        i += 1;
    }
    r
}

/// The place of the task called `name`, or the error that there is none.
pub fn get_context(context: &ContextMap, name: &str) -> (r: Result<usize, ActionError>)
    ensures
        match r {
            Ok(t) => find(context@, name@) == Some(t as int) && t < context@.len(),
            Err(e) => find(context@, name@) is None && e@ == ActionErrorView::TaskNotFound(name@),
        },
{
    match context.find(name) {
        Some(t) => Ok(t),
        None => Err(ActionError::TaskNotFound(String::from_str(name))),
    }
}

/// Kills the task called `task`.
pub fn kill_by_name(context: &mut ContextMap, task: &str, force: bool) -> (r: Result<Performed, ActionError>)
    ensures
        match find(old(context)@, task@) {
            Some(t) => r matches Ok(p) && performed_as(p, killed(old(context)@, t, force))
                && final(context)@ == killed(old(context)@, t, force).map,
            None => r matches Err(e) && e@ == ActionErrorView::TaskNotFound(task@) && final(context)@
                == old(context)@,
        },
{
    match get_context(context, task) {
        Ok(t) => Ok(kill(context, t, force)),
        Err(e) => Err(e),
    }
}

/// Carries out an action. `waker` is the continuation of the caller, which
/// is woken when a task that the action waits for changes its state.
pub fn execute(context: &mut ContextMap, action: &Action, waker: WakerId) -> (r: Result<Performed, ActionError>)
    ensures
        match executed(old(context)@, action@, waker) {
            Ok(v) => r matches Ok(p) && performed_as(p, v) && final(context)@ == v.map,
            Err(error) => r matches Err(e) && e@ == error && final(context)@ == old(context)@,
        },
{
    match action {
        Action::Kill { task, force } => kill_by_name(context, task.as_str(), *force),
        Action::Deactivate { task, force } => match get_context(context, task.as_str()) {
            Ok(t) => Ok(deactivate(context, t, *force)),
            Err(e) => Err(e),
        },
        Action::Restart { task, force } => match get_context(context, task.as_str()) {
            Ok(t) => Ok(restart(context, t, *force, waker)),
            Err(e) => Err(e),
        },
        Action::Start { task, force } => match get_context(context, task.as_str()) {
            Ok(t) => Ok(start(context, t, *force)),
            Err(e) => Err(e),
        },
        Action::System { command } => {
            let mut r = kill_all(context, false, waker);
            r.due = FollowUp::Reboot { command: *command };
            Ok(r)
        },
    }
}

/// Reads the action line `s` and carries it out. A line that is no action,
/// or that names no task, changes nothing.
pub fn perform(s: &str, context: &mut ContextMap, waker: WakerId) -> (r: Result<Performed, ActionError>)
    ensures
        match performed(old(context)@, s@, waker) {
            Ok(v) => r matches Ok(p) && performed_as(p, v) && final(context)@ == v.map,
            Err(error) => r matches Err(e) && e@ == error && final(context)@ == old(context)@,
        },
{
    match Action::from_str(s) {
        Ok(action) => execute(context, &action, waker),
        Err(e) => Err(e),
    }
}

} // verus!
