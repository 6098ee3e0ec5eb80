//! What holds of the drivers in every reachable state of the supervisor.
//!
//! The statements are about the mathematical model of the context map that
//! the executable functions are proved against. `map_wf` is the invariant:
//! it holds at the start, and every step of a driver and every control
//! action keeps it. A run is a sequence of context maps, each reached from
//! the one before by a fair step; every operation of the library on the
//! context map is one. The statements on whole runs come last.

use crate::action::{parse_action, ActionView};
use crate::builtin::ctl::begun;
use crate::builtin::BuiltInServiceManager;
use crate::command_line::CommandLineView;
use crate::config::payload::PayloadView;
use crate::config::{config_names, latest, lemma_latest_names_unique, Respawn, TaskConfigView};
use crate::perform_action::{
    all_killed_upto, deactivated, executed, killed, overwritten, performed, restart_resumed,
    restarted, shut_down, started, unchanged,
};
use crate::task::{
    drive_core, drive_step, find, initial_map, lemma_find_in_range, names, next_index, poll_wait,
    respawns, ContextView, DriverAction, DriverEvent, ExitReason, Predicate, TaskState,
};
use vstd::prelude::*;

verus! {

/// The task called `name` exists and has been running at some time.
pub open spec fn seen_running(m: Seq<ContextView>, name: Seq<char>) -> bool {
    match find(m, name) {
        Some(d) => m[d].was_running,
        None => false,
    }
}

/// The task called `name` exists and has been done at some time.
pub open spec fn seen_done(m: Seq<ContextView>, name: Seq<char>) -> bool {
    match find(m, name) {
        Some(d) => m[d].was_done,
        None => false,
    }
}

/// What holds of the context at place `t`: its history covers its state, a
/// child belongs to a step under way, only a step under way can be stale,
/// nobody is registered twice, and every dependency that its driver has
/// passed in the current wait was seen in the state waited for.
pub open spec fn context_wf(m: Seq<ContextView>, t: int) -> bool {
    let c = m[t];
    &&& c.state is Running ==> c.was_running
    &&& c.state == TaskState::Concluded(ExitReason::Done) ==> c.was_done
    &&& c.child is Some ==> c.step is Some
    &&& c.stale ==> c.step is Some
    &&& c.wakers.no_duplicates()
    &&& c.with_seen <= c.config.with.len()
    &&& c.after_seen <= c.config.after.len()
    &&& forall|j: int| 0 <= j < c.with_seen ==> seen_running(m, #[trigger] c.config.with[j])
    &&& forall|j: int| 0 <= j < c.after_seen ==> seen_done(m, #[trigger] c.config.after[j])
}

/// The invariant of the context map.
pub open spec fn map_wf(m: Seq<ContextView>) -> bool {
    forall|t: int| 0 <= t < m.len() ==> context_wf(m, t)
}

/// `after` has the tasks of `before`, with their definitions, and has
/// forgotten nothing of their history.
pub open spec fn extends(before: Seq<ContextView>, after: Seq<ContextView>) -> bool {
    &&& after.len() == before.len()
    &&& forall|i: int|
        0 <= i < before.len() ==> {
            &&& (#[trigger] after[i]).config == before[i].config
            &&& before[i].was_running ==> after[i].was_running
            &&& before[i].was_done ==> after[i].was_done
        }
}

/// A map that extends another finds the same tasks and has seen what the
/// other has seen.
pub proof fn lemma_extends_keeps_seen(before: Seq<ContextView>, after: Seq<ContextView>, name: Seq<char>)
    requires
        extends(before, after),
    ensures
        find(after, name) == find(before, name),
        seen_running(before, name) ==> seen_running(after, name),
        seen_done(before, name) ==> seen_done(after, name),
{
    assert(names(after) =~= names(before)) by {
        assert forall|i: int| 0 <= i < before.len() implies names(after)[i] == names(before)[i] by {
            assert(after[i].config == before[i].config);
        }
    }
    lemma_find_in_range(before, name);
}

/// A context that is well-formed in a map is well-formed in every map that
/// extends it and holds the same context.
pub proof fn lemma_extends_keeps_context(before: Seq<ContextView>, after: Seq<ContextView>, t: int)
    requires
        extends(before, after),
        0 <= t < before.len(),
        context_wf(before, t),
        after[t] == before[t] || after[t] == (ContextView {
            wakers: after[t].wakers,
            waker: after[t].waker,
            ..before[t]
        }),
        after[t].wakers.no_duplicates(),
    ensures
        context_wf(after, t),
{
    let c = before[t];
    assert forall|j: int| 0 <= j < c.with_seen implies seen_running(after, #[trigger] c.config.with[j]) by {
        lemma_extends_keeps_seen(before, after, c.config.with[j]);
    }
    assert forall|j: int| 0 <= j < c.after_seen implies seen_done(after, #[trigger] c.config.after[j]) by {
        lemma_extends_keeps_seen(before, after, c.config.after[j]);
    }
}

/// Registering keeps the registry free of doubles.
pub proof fn lemma_registered_once(c: ContextView, waker: usize)
    requires
        c.wakers.no_duplicates(),
    ensures
        c.registered(waker).wakers.no_duplicates(),
{
    if !c.wakers.contains(waker) {
        let now = c.wakers.push(waker);
        assert forall|i: int, j: int| 0 <= i < now.len() && 0 <= j < now.len() && i != j implies now[i]
            != now[j] by {
            if i < c.wakers.len() && j < c.wakers.len() {
                assert(now[i] == c.wakers[i] && now[j] == c.wakers[j]);
            } else if i < c.wakers.len() {
                assert(c.wakers.contains(now[i]));
            } else {
                assert(c.wakers.contains(now[j]));
            }
        }
    }
}

/// The invariant holds before any driver has run.
pub proof fn lemma_initial_map_wf(configs: Seq<TaskConfigView>)
    ensures
        map_wf(initial_map(configs)),
{
}

/// No two tasks of the supervisor have one name, whatever the list of
/// definitions held.
pub proof fn lemma_initial_map_names_unique(configs: Seq<TaskConfigView>)
    ensures
        names(initial_map(configs)).no_duplicates(),
{
    lemma_latest_names_unique(configs);
    assert(names(initial_map(configs)) =~= config_names(latest(configs)));
}

/// A step of a driver changes no definition and forgets no history.
pub proof fn lemma_drive_extends(m: Seq<ContextView>, t: int, event: DriverEvent)
    requires
        0 <= t < m.len(),
    ensures
        extends(m, drive_core(m, t, event).map),
        extends(m, drive_step(m, t, event).map),
{
    let c = m[t];
    if c.with_seen < c.config.with.len() {
        lemma_find_in_range(m, c.config.with[c.with_seen as int]);
    }
    if c.after_seen < c.config.after.len() {
        lemma_find_in_range(m, c.config.after[c.after_seen as int]);
    }
}

/// Every step of a driver keeps the invariant.
pub proof fn lemma_drive_preserves_wf(m: Seq<ContextView>, t: int, event: DriverEvent)
    requires
        0 <= t < m.len(),
        map_wf(m),
    ensures
        map_wf(drive_step(m, t, event).map),
{
    lemma_drive_extends(m, t, event);
    let after = drive_step(m, t, event).map;
    let c = m[t];
    if c.with_seen < c.config.with.len() {
        lemma_find_in_range(m, c.config.with[c.with_seen as int]);
    }
    if c.after_seen < c.config.after.len() {
        lemma_find_in_range(m, c.config.after[c.after_seen as int]);
    }
    assert forall|u: int| 0 <= u < after.len() implies context_wf(after, u) by {
        if u != t {
            assert(context_wf(m, u));
            lemma_registered_once(m[u], t as usize);
            lemma_extends_keeps_context(m, after, u);
        } else {
            let c2 = after[t];
            assert(context_wf(m, t));
            lemma_registered_once(m[t], t as usize);
            assert forall|j: int| 0 <= j < c2.with_seen implies seen_running(
                after,
                #[trigger] c2.config.with[j],
            ) by {
                lemma_extends_keeps_seen(m, after, c.config.with[j]);
                if j >= c.with_seen {
                    let d = find(m, c.config.with[j])->0;
                    assert(context_wf(m, d));
                }
            }
            assert forall|j: int| 0 <= j < c2.after_seen implies seen_done(
                after,
                #[trigger] c2.config.after[j],
            ) by {
                lemma_extends_keeps_seen(m, after, c.config.after[j]);
                if j >= c.after_seen {
                    let d = find(m, c.config.after[j])->0;
                    assert(context_wf(m, d));
                }
            }
        }
    }
}

/// A driver lets its task enter a `Running` state only after every task in
/// the task's `after` list has been done at some time, and every task in its
/// `with` list has been running at some time.
pub proof fn lemma_dependencies_precede_running(m: Seq<ContextView>, t: int, event: DriverEvent)
    requires
        0 <= t < m.len(),
        map_wf(m),
        !(m[t].state is Running),
        drive_step(m, t, event).map[t].state is Running,
    ensures
        forall|j: int|
            0 <= j < m[t].config.after.len() ==> seen_done(m, #[trigger] m[t].config.after[j]),
        forall|j: int|
            0 <= j < m[t].config.with.len() ==> seen_running(m, #[trigger] m[t].config.with[j]),
{
    let c = m[t];
    assert(context_wf(m, t));
    if c.with_seen < c.config.with.len() {
        lemma_find_in_range(m, c.config.with[c.with_seen as int]);
    }
    if c.after_seen < c.config.after.len() {
        lemma_find_in_range(m, c.config.after[c.after_seen as int]);
    }
}

/// A driver starts a step only where none is under way, and then there is
/// no child either. While a step is under way, driving the task without the
/// step's result starts nothing, moves nothing and parks.
pub proof fn lemma_one_step_at_a_time(m: Seq<ContextView>, t: int, event: DriverEvent)
    requires
        0 <= t < m.len(),
        map_wf(m),
    ensures
        (drive_step(m, t, event).action is Spawn || drive_step(m, t, event).action is Routine) ==> {
            &&& m[t].step is None
            &&& m[t].child is None
            &&& m[t].state is Running
            &&& drive_step(m, t, event).map[t].step is Some
        },
        m[t].step is Some && event is Poll ==> {
            &&& drive_step(m, t, event).action == DriverAction::Park
            &&& drive_step(m, t, event).map == m.update(t, ContextView { waker: Some(t as usize), ..m[t] })
            &&& drive_step(m, t, event).wake == Seq::<usize>::empty()
        },
        drive_step(m, t, event).map[t].child is Some ==> drive_step(m, t, event).map[t].child
            == m[t].child,
{
    let c = m[t];
    assert(context_wf(m, t));
    if c.with_seen < c.config.with.len() {
        lemma_find_in_range(m, c.config.with[c.with_seen as int]);
    }
    if c.after_seen < c.config.after.len() {
        lemma_find_in_range(m, c.config.after[c.after_seen as int]);
    }
}

/// A change of state wakes nobody twice: the continuations that a step of a
/// driver hands back to be woken are all different.
pub proof fn lemma_nobody_is_woken_twice(m: Seq<ContextView>, t: int, event: DriverEvent)
    requires
        0 <= t < m.len(),
        map_wf(m),
    ensures
        drive_step(m, t, event).wake.no_duplicates(),
        forall|new: TaskState| (#[trigger] m[t].woken_by(new)).no_duplicates(),
{
    let c = m[t];
    assert(context_wf(m, t));
    if c.with_seen < c.config.with.len() {
        lemma_find_in_range(m, c.config.with[c.with_seen as int]);
    }
    if c.after_seen < c.config.after.len() {
        lemma_find_in_range(m, c.config.after[c.after_seen as int]);
    }
}

/// Once a task with a respawn limit has used up its attempts, its driver
/// leaves a concluded task as it is: no state changes and nothing is
/// started.
pub proof fn lemma_respawn_is_limited(m: Seq<ContextView>, t: int, event: DriverEvent, max: usize)
    requires
        0 <= t < m.len(),
        m[t].config.respawn == Respawn::Retry(max),
        max > 0,
        m[t].respawn_attempts >= max,
        m[t].state is Concluded,
        m[t].step is None,
    ensures
        drive_step(m, t, event).action == DriverAction::Park,
        drive_step(m, t, event).map == m.update(t, ContextView { waker: Some(t as usize), ..m[t] }),
{
}

/// A respawn takes a concluded task back to `Waiting` and counts one more
/// attempt; it happens only where the policy allows one more.
pub proof fn lemma_respawn_counts(m: Seq<ContextView>, t: int, event: DriverEvent)
    requires
        0 <= t < m.len(),
        m[t].state is Concluded,
        drive_step(m, t, event).map[t].state == TaskState::Waiting,
    ensures
        m[t].step is None ==> {
            &&& respawns(m[t], m[t].state->Concluded_0)
            &&& drive_step(m, t, event).map[t].respawn_attempts == next_index(m[t].respawn_attempts)
        },
{
}

/// No driver takes a task out of `Concluded(Deactivated)`: whichever task
/// is driven, on whatever event, a deactivated task stays deactivated.
pub proof fn lemma_deactivated_is_absorbing(m: Seq<ContextView>, t: int, driven: int, event: DriverEvent)
    requires
        0 <= t < m.len(),
        0 <= driven < m.len(),
        m[t].state == TaskState::Concluded(ExitReason::Deactivated),
    ensures
        drive_step(m, driven, event).map[t].state == TaskState::Concluded(ExitReason::Deactivated),
        drive_step(m, driven, event).map[t].respawn_attempts == m[t].respawn_attempts,
{
    let c = m[driven];
    if c.with_seen < c.config.with.len() {
        lemma_find_in_range(m, c.config.with[c.with_seen as int]);
    }
    if c.after_seen < c.config.after.len() {
        lemma_find_in_range(m, c.config.after[c.after_seen as int]);
    }
}

/// A respawn limit of 0 is no limit: a task with `Retry(0)` that is no
/// marker goes back to `Waiting` after every conclusion but deactivation,
/// however many attempts are on its count.
pub proof fn lemma_retry_zero_is_unlimited(m: Seq<ContextView>, t: int, event: DriverEvent, reason: ExitReason)
    requires
        0 <= t < m.len(),
        m[t].config.respawn == Respawn::Retry(0),
        !(m[t].config.payload is Marker),
        m[t].state == TaskState::Concluded(reason),
        reason != ExitReason::Deactivated,
        m[t].step is None,
    ensures
        drive_step(m, t, event).map[t].state == TaskState::Waiting,
        drive_step(m, t, event).action == DriverAction::Yield,
{
}

/// Whether the task at place `t` depends on a name that no task has.
pub open spec fn has_missing_dependency(m: Seq<ContextView>, t: int) -> bool {
    ||| exists|j: int| 0 <= j < m[t].config.with.len() && find(m, #[trigger] m[t].config.with[j]) is None
    ||| exists|j: int|
        0 <= j < m[t].config.after.len() && find(m, #[trigger] m[t].config.after[j]) is None
}

/// A waiting task with a dependency that does not exist never runs: its
/// driver keeps it in `Waiting`, unless another of its dependencies is
/// deactivated, which deactivates the task. The dependency stays missing.
pub proof fn lemma_missing_dependency_stalls(m: Seq<ContextView>, t: int, event: DriverEvent)
    requires
        0 <= t < m.len(),
        map_wf(m),
        m[t].state == TaskState::Waiting,
        m[t].step is None,
        has_missing_dependency(m, t),
    ensures
        drive_step(m, t, event).map[t].state == TaskState::Waiting || drive_step(
            m,
            t,
            event,
        ).map[t].state == TaskState::Concluded(ExitReason::Deactivated),
        drive_step(m, t, event).action == DriverAction::Yield || drive_step(m, t, event).action
            == DriverAction::Park,
        has_missing_dependency(drive_step(m, t, event).map, t),
{
    let c = m[t];
    let after = drive_step(m, t, event).map;
    lemma_drive_extends(m, t, event);
    assert(context_wf(m, t));
    if c.with_seen < c.config.with.len() {
        lemma_find_in_range(m, c.config.with[c.with_seen as int]);
    }
    if c.after_seen < c.config.after.len() {
        lemma_find_in_range(m, c.config.after[c.after_seen as int]);
    }
    if exists|j: int| 0 <= j < c.config.with.len() && find(m, #[trigger] c.config.with[j]) is None {
        let j = choose|j: int| 0 <= j < c.config.with.len() && find(m, #[trigger] c.config.with[j]) is None;
        lemma_extends_keeps_seen(m, after, c.config.with[j]);
        assert(after[t].config == c.config);
        assert(find(after, after[t].config.with[j]) is None);
        if c.with_seen >= c.config.with.len() {
            assert(seen_running(m, c.config.with[j]));
        }
    } else {
        let j = choose|j: int|
            0 <= j < c.config.after.len() && find(m, #[trigger] c.config.after[j]) is None;
        lemma_extends_keeps_seen(m, after, c.config.after[j]);
        assert(after[t].config == c.config);
        assert(find(after, after[t].config.after[j]) is None);
        if c.after_seen >= c.config.after.len() {
            assert(seen_done(m, c.config.after[j]));
        }
    }
}

/// A command without words is passed over: the driver of a running service
/// whose current command is empty moves on to the next step and starts
/// nothing.
pub proof fn lemma_empty_command_is_skipped(
    m: Seq<ContextView>,
    t: int,
    event: DriverEvent,
    i: usize,
    lines: Seq<CommandLineView>,
)
    requires
        0 <= t < m.len(),
        m[t].state == TaskState::Running(i),
        m[t].step is None,
        m[t].config.payload == PayloadView::Service(lines),
        i < lines.len(),
        lines[i as int].args.len() == 0,
    ensures
        drive_step(m, t, event).map[t].state == TaskState::Running(next_index(i)),
        drive_step(m, t, event).action == DriverAction::Yield,
        drive_step(m, t, event).map[t].step is None,
{
}

/// Replacing one context by one with the same definition, no less history,
/// a state that its history covers, and no more dependencies passed keeps
/// the invariant.
pub proof fn lemma_update_keeps_wf(m: Seq<ContextView>, t: int, c: ContextView)
    requires
        0 <= t < m.len(),
        c.config == m[t].config,
        m[t].was_running ==> c.was_running,
        m[t].was_done ==> c.was_done,
        map_wf(m) ==> {
            &&& c.state is Running ==> c.was_running
            &&& c.state == TaskState::Concluded(ExitReason::Done) ==> c.was_done
            &&& c.child is Some ==> c.step is Some
            &&& c.stale ==> c.step is Some
            &&& c.wakers.no_duplicates()
        },
        c.with_seen <= m[t].with_seen,
        c.after_seen <= m[t].after_seen,
    ensures
        extends(m, m.update(t, c)),
        map_wf(m) ==> map_wf(m.update(t, c)),
{
    let after = m.update(t, c);
    assert(extends(m, after));
    if map_wf(m) {
        assert forall|u: int| 0 <= u < after.len() implies context_wf(after, u) by {
            assert(context_wf(m, u));
            if u != t {
                lemma_extends_keeps_context(m, after, u);
            } else {
                assert forall|j: int| 0 <= j < c.with_seen implies seen_running(
                    after,
                    #[trigger] c.config.with[j],
                ) by {
                    lemma_extends_keeps_seen(m, after, c.config.with[j]);
                }
                assert forall|j: int| 0 <= j < c.after_seen implies seen_done(
                    after,
                    #[trigger] c.config.after[j],
                ) by {
                    lemma_extends_keeps_seen(m, after, c.config.after[j]);
                }
            }
        }
    }
}

/// `extends` is transitive.
pub proof fn lemma_extends_transitive(a: Seq<ContextView>, b: Seq<ContextView>, c: Seq<ContextView>)
    requires
        extends(a, b),
        extends(b, c),
    ensures
        extends(a, c),
{
    assert forall|i: int| 0 <= i < a.len() implies {
        &&& (#[trigger] c[i]).config == a[i].config
        &&& a[i].was_running ==> c[i].was_running
        &&& a[i].was_done ==> c[i].was_done
    } by {
        assert(b[i].config == a[i].config);
    }
}

/// Whether a step from `before` to `after` changes no definition, forgets no
/// history and keeps the invariant.
pub open spec fn sound_step(before: Seq<ContextView>, after: Seq<ContextView>) -> bool {
    &&& extends(before, after)
    &&& map_wf(before) ==> map_wf(after)
}

/// Overwriting a task's state is a sound step.
pub proof fn lemma_overwritten_is_sound(m: Seq<ContextView>, t: int, new: TaskState)
    requires
        0 <= t < m.len(),
    ensures
        sound_step(m, overwritten(m, t, new).map),
{
    let c = m[t];
    if map_wf(m) {
        assert(context_wf(m, t));
    }
    if c.state != new {
        lemma_update_keeps_wf(
            m,
            t,
            ContextView { waker: None, stale: c.stale || c.step is Some, ..c.update_state(new) },
        );
    }
}

/// Killing a task is a sound step.
pub proof fn lemma_killed_is_sound(m: Seq<ContextView>, t: int, force: bool)
    requires
        0 <= t < m.len(),
    ensures
        sound_step(m, killed(m, t, force).map),
{
    lemma_overwritten_is_sound(m, t, TaskState::Concluded(ExitReason::Terminated));
    lemma_overwritten_is_sound(m, t, TaskState::Terminating);
}

/// Starting a task is a sound step.
pub proof fn lemma_started_is_sound(m: Seq<ContextView>, t: int, force: bool)
    requires
        0 <= t < m.len(),
    ensures
        sound_step(m, started(m, t, force).map),
{
    let fresh = m.update(t, ContextView { respawn_attempts: 0, ..m[t] });
    if map_wf(m) {
        assert(context_wf(m, t));
    }
    lemma_update_keeps_wf(m, t, ContextView { respawn_attempts: 0, ..m[t] });
    lemma_overwritten_is_sound(fresh, t, TaskState::Running(0));
    lemma_overwritten_is_sound(m, t, TaskState::Waiting);
    lemma_extends_transitive(m, fresh, overwritten(fresh, t, TaskState::Running(0)).map);
}

/// Deactivating a task is a sound step.
pub proof fn lemma_deactivated_is_sound(m: Seq<ContextView>, t: int, force: bool)
    requires
        0 <= t < m.len(),
    ensures
        sound_step(m, deactivated(m, t, force).map),
{
    let first = killed(m, t, force).map;
    lemma_killed_is_sound(m, t, force);
    lemma_overwritten_is_sound(first, t, TaskState::Concluded(ExitReason::Deactivated));
    lemma_extends_transitive(m, first, deactivated(m, t, force).map);
}

/// Registering a waiter with a task is a sound step.
pub proof fn lemma_registered_is_sound(m: Seq<ContextView>, t: int, waker: usize)
    requires
        0 <= t < m.len(),
    ensures
        sound_step(m, m.update(t, m[t].registered(waker))),
{
    if map_wf(m) {
        assert(context_wf(m, t));
    }
    lemma_update_keeps_wf(m, t, m[t].registered(waker));
}

/// Going on with a restart is a sound step.
pub proof fn lemma_restart_resumed_is_sound(m: Seq<ContextView>, t: int, force: bool, waker: usize)
    requires
        0 <= t < m.len(),
    ensures
        sound_step(m, restart_resumed(m, t, force, waker).map),
{
    let fresh = m.update(t, ContextView { respawn_attempts: 0, ..m[t] });
    if map_wf(m) {
        assert(context_wf(m, t));
    }
    lemma_update_keeps_wf(m, t, ContextView { respawn_attempts: 0, ..m[t] });
    lemma_started_is_sound(fresh, t, force);
    lemma_extends_transitive(m, fresh, started(fresh, t, force).map);
    lemma_registered_is_sound(m, t, waker);
}

/// Restarting a task is a sound step.
pub proof fn lemma_restarted_is_sound(m: Seq<ContextView>, t: int, force: bool, waker: usize)
    requires
        0 <= t < m.len(),
    ensures
        sound_step(m, restarted(m, t, force, waker).map),
{
    let first = killed(m, t, force).map;
    lemma_killed_is_sound(m, t, force);
    lemma_restart_resumed_is_sound(first, t, force, waker);
    lemma_extends_transitive(m, first, restarted(m, t, force, waker).map);
}

/// Shutting one task down is a sound step.
pub proof fn lemma_shut_down_is_sound(m: Seq<ContextView>, t: int, force: bool, waker: usize)
    requires
        0 <= t < m.len(),
    ensures
        sound_step(m, shut_down(m, t, force, waker).map),
{
    let first = killed(m, t, force).map;
    lemma_killed_is_sound(m, t, force);
    lemma_registered_is_sound(first, t, waker);
    lemma_extends_transitive(m, first, shut_down(m, t, force, waker).map);
}

/// Shutting the first `k` tasks down is a sound step.
pub proof fn lemma_all_killed_is_sound(m: Seq<ContextView>, force: bool, waker: usize, k: nat)
    requires
        k <= m.len(),
    ensures
        sound_step(m, all_killed_upto(m, force, waker, k).map),
    decreases k,
{
    if k > 0 {
        let before = all_killed_upto(m, force, waker, (k - 1) as nat).map;
        lemma_all_killed_is_sound(m, force, waker, (k - 1) as nat);
        lemma_shut_down_is_sound(before, k - 1, force, waker);
        lemma_extends_transitive(m, before, all_killed_upto(m, force, waker, k).map);
    }
}

/// Every action of the control plane changes no definition, forgets no
/// history and keeps the invariant.
pub proof fn lemma_action_is_sound(m: Seq<ContextView>, action: ActionView, waker: usize)
    ensures
        match executed(m, action, waker) {
            Ok(v) => sound_step(m, v.map),
            Err(_) => true,
        },
{
    match action {
        ActionView::Kill { task, force } => {
            lemma_find_in_range(m, task);
            if let Some(t) = find(m, task) {
                lemma_killed_is_sound(m, t, force);
            }
        },
        ActionView::Deactivate { task, force } => {
            lemma_find_in_range(m, task);
            if let Some(t) = find(m, task) {
                lemma_deactivated_is_sound(m, t, force);
            }
        },
        ActionView::Restart { task, force } => {
            lemma_find_in_range(m, task);
            if let Some(t) = find(m, task) {
                lemma_restarted_is_sound(m, t, force, waker);
            }
        },
        ActionView::Start { task, force } => {
            lemma_find_in_range(m, task);
            if let Some(t) = find(m, task) {
                lemma_started_is_sound(m, t, force);
            }
        },
        ActionView::System { command } => {
            lemma_all_killed_is_sound(m, false, waker, m.len());
        },
    }
}

/// A forced start of a task that is running leaves its state, its step and
/// its child as they are and asks for nothing; while the step is under way,
/// the task's driver starts no other.
pub proof fn lemma_force_start_spares_running(m: Seq<ContextView>, t: int)
    requires
        0 <= t < m.len(),
        m[t].state is Running,
    ensures
        started(m, t, true) == unchanged(m.update(t, ContextView { respawn_attempts: 0, ..m[t] })),
        m[t].step is Some ==> drive_step(started(m, t, true).map, t, DriverEvent::Poll).action
            == DriverAction::Park,
{
}

/// Whether the history of `after` is true to a step from `before`: a task
/// that is marked as having been running was so marked before or is running
/// now, and likewise for having been done.
pub open spec fn honest(before: Seq<ContextView>, after: Seq<ContextView>) -> bool {
    &&& after.len() == before.len()
    &&& forall|i: int|
        0 <= i < before.len() ==> {
            &&& (#[trigger] after[i]).was_running ==> before[i].was_running || after[i].state is Running
            &&& after[i].was_done ==> before[i].was_done || after[i].state == TaskState::Concluded(
                ExitReason::Done,
            )
        }
}

/// Whether `after` has the history of `before`, no more and no less.
pub open spec fn same_history(before: Seq<ContextView>, after: Seq<ContextView>) -> bool {
    &&& after.len() == before.len()
    &&& forall|i: int|
        0 <= i < before.len() ==> {
            &&& (#[trigger] after[i]).was_running == before[i].was_running
            &&& after[i].was_done == before[i].was_done
        }
}

/// A step that is sound and whose history is true.
pub open spec fn fair_step(before: Seq<ContextView>, after: Seq<ContextView>) -> bool {
    &&& sound_step(before, after)
    &&& honest(before, after)
}

/// A step of a driver is fair.
pub proof fn lemma_drive_is_fair(m: Seq<ContextView>, t: int, event: DriverEvent)
    requires
        0 <= t < m.len(),
    ensures
        fair_step(m, drive_step(m, t, event).map),
{
    lemma_drive_extends(m, t, event);
    if map_wf(m) {
        lemma_drive_preserves_wf(m, t, event);
    }
    let c = m[t];
    if c.with_seen < c.config.with.len() {
        lemma_find_in_range(m, c.config.with[c.with_seen as int]);
    }
    if c.after_seen < c.config.after.len() {
        lemma_find_in_range(m, c.config.after[c.after_seen as int]);
    }
}

/// Overwriting a task's state is a fair step.
pub proof fn lemma_overwritten_is_fair(m: Seq<ContextView>, t: int, new: TaskState)
    requires
        0 <= t < m.len(),
    ensures
        fair_step(m, overwritten(m, t, new).map),
        !(new is Running) && new != TaskState::Concluded(ExitReason::Done) ==> same_history(
            m,
            overwritten(m, t, new).map,
        ),
{
    lemma_overwritten_is_sound(m, t, new);
}

/// Killing a task leaves every history as it is.
pub proof fn lemma_killed_keeps_history(m: Seq<ContextView>, t: int, force: bool)
    requires
        0 <= t < m.len(),
    ensures
        same_history(m, killed(m, t, force).map),
{
    lemma_overwritten_is_fair(m, t, TaskState::Concluded(ExitReason::Terminated));
    lemma_overwritten_is_fair(m, t, TaskState::Terminating);
}

/// A step whose history is true, after steps that left every history as it
/// was, has a true history.
pub proof fn lemma_honest_after_same(a: Seq<ContextView>, b: Seq<ContextView>, c: Seq<ContextView>)
    requires
        same_history(a, b),
        honest(b, c),
    ensures
        honest(a, c),
{
    assert forall|i: int| 0 <= i < a.len() implies {
        &&& (#[trigger] c[i]).was_running ==> a[i].was_running || c[i].state is Running
        &&& c[i].was_done ==> a[i].was_done || c[i].state == TaskState::Concluded(ExitReason::Done)
    } by {
        assert(b[i].was_running == a[i].was_running);
    }
}

/// Leaving every history as it was is transitive.
pub proof fn lemma_same_history_transitive(a: Seq<ContextView>, b: Seq<ContextView>, c: Seq<ContextView>)
    requires
        same_history(a, b),
        same_history(b, c),
    ensures
        same_history(a, c),
{
    assert forall|i: int| 0 <= i < a.len() implies {
        &&& (#[trigger] c[i]).was_running == a[i].was_running
        &&& c[i].was_done == a[i].was_done
    } by {
        assert(b[i].was_running == a[i].was_running);
    }
}

/// Starting a task is a fair step.
pub proof fn lemma_started_is_fair(m: Seq<ContextView>, t: int, force: bool)
    requires
        0 <= t < m.len(),
    ensures
        fair_step(m, started(m, t, force).map),
{
    lemma_started_is_sound(m, t, force);
    let fresh = m.update(t, ContextView { respawn_attempts: 0, ..m[t] });
    assert(same_history(m, fresh));
    lemma_overwritten_is_fair(fresh, t, TaskState::Running(0));
    lemma_overwritten_is_fair(m, t, TaskState::Waiting);
    if force && !(m[t].state is Running) {
        lemma_honest_after_same(m, fresh, started(m, t, force).map);
    }
}

/// Going on with a restart is a fair step.
pub proof fn lemma_restart_resumed_is_fair(m: Seq<ContextView>, t: int, force: bool, waker: usize)
    requires
        0 <= t < m.len(),
    ensures
        fair_step(m, restart_resumed(m, t, force, waker).map),
{
    lemma_restart_resumed_is_sound(m, t, force, waker);
    let fresh = m.update(t, ContextView { respawn_attempts: 0, ..m[t] });
    assert(same_history(m, fresh));
    lemma_started_is_fair(fresh, t, force);
    if m[t].state is Concluded {
        lemma_honest_after_same(m, fresh, restart_resumed(m, t, force, waker).map);
    }
}

/// Shutting the first `k` tasks down leaves every history as it is.
pub proof fn lemma_all_killed_keeps_history(m: Seq<ContextView>, force: bool, waker: usize, k: nat)
    requires
        k <= m.len(),
    ensures
        same_history(m, all_killed_upto(m, force, waker, k).map),
    decreases k,
{
    if k > 0 {
        let before = all_killed_upto(m, force, waker, (k - 1) as nat).map;
        lemma_all_killed_keeps_history(m, force, waker, (k - 1) as nat);
        lemma_killed_keeps_history(before, k - 1, force);
        let first = killed(before, k - 1, force).map;
        assert(same_history(first, shut_down(before, k - 1, force, waker).map));
        lemma_same_history_transitive(before, first, shut_down(before, k - 1, force, waker).map);
        lemma_same_history_transitive(m, before, all_killed_upto(m, force, waker, k).map);
    }
}

/// Every action of the control plane is a fair step.
pub proof fn lemma_action_is_fair(m: Seq<ContextView>, action: ActionView, waker: usize)
    ensures
        match executed(m, action, waker) {
            Ok(v) => fair_step(m, v.map),
            Err(_) => true,
        },
{
    lemma_action_is_sound(m, action, waker);
    match action {
        ActionView::Kill { task, force } => {
            lemma_find_in_range(m, task);
            if let Some(t) = find(m, task) {
                lemma_killed_keeps_history(m, t, force);
            }
        },
        ActionView::Deactivate { task, force } => {
            lemma_find_in_range(m, task);
            if let Some(t) = find(m, task) {
                let first = killed(m, t, force).map;
                lemma_killed_keeps_history(m, t, force);
                lemma_overwritten_is_fair(first, t, TaskState::Concluded(ExitReason::Deactivated));
                lemma_same_history_transitive(m, first, deactivated(m, t, force).map);
            }
        },
        ActionView::Restart { task, force } => {
            lemma_find_in_range(m, task);
            if let Some(t) = find(m, task) {
                let first = killed(m, t, force).map;
                lemma_killed_keeps_history(m, t, force);
                lemma_restart_resumed_is_fair(first, t, force, waker);
                lemma_honest_after_same(m, first, restarted(m, t, force, waker).map);
            }
        },
        ActionView::Start { task, force } => {
            lemma_find_in_range(m, task);
            if let Some(t) = find(m, task) {
                lemma_started_is_fair(m, t, force);
            }
        },
        ActionView::System { command } => {
            lemma_all_killed_keeps_history(m, false, waker, m.len());
        },
    }
}

/// Every action line is a fair step, whether it is carried out or refused.
pub proof fn lemma_line_is_fair(m: Seq<ContextView>, line: Seq<char>, waker: usize)
    ensures
        match performed(m, line, waker) {
            Ok(v) => fair_step(m, v.map),
            Err(_) => true,
        },
{
    match parse_action(line) {
        Ok(action) => {
            lemma_action_is_fair(m, action, waker);
        },
        Err(_) => {},
    }
}

/// Setting a task's state is a fair step.
pub proof fn lemma_update_state_is_fair(m: Seq<ContextView>, t: int, new: TaskState)
    requires
        0 <= t < m.len(),
    ensures
        fair_step(m, m.update(t, m[t].update_state(new))),
{
    if map_wf(m) {
        assert(context_wf(m, t));
    }
    lemma_update_keeps_wf(m, t, m[t].update_state(new));
}

/// Looking at a task on behalf of a waiter is a fair step.
pub proof fn lemma_poll_is_fair(m: Seq<ContextView>, t: int, predicate: Predicate, waker: usize)
    requires
        0 <= t < m.len(),
    ensures
        fair_step(m, poll_wait(m, t, predicate, waker).0),
{
    lemma_registered_is_sound(m, t, waker);
}

/// Remembering a child is a fair step.
pub proof fn lemma_record_child_is_fair(m: Seq<ContextView>, t: int, pid: i32)
    requires
        0 <= t < m.len(),
    ensures
        fair_step(
            m,
            m.update(
                t,
                ContextView {
                    child: if m[t].step is Some {
                        Some(pid)
                    } else {
                        m[t].child
                    },
                    ..m[t]
                },
            ),
        ),
{
    if map_wf(m) {
        assert(context_wf(m, t));
    }
    lemma_update_keeps_wf(
        m,
        t,
        ContextView {
            child: if m[t].step is Some {
                Some(pid)
            } else {
                m[t].child
            },
            ..m[t]
        },
    );
}

/// A poll of a built-in routine is a fair step.
pub proof fn lemma_manager_poll_is_fair(m: Seq<ContextView>, manager: BuiltInServiceManager, waker: usize)
    requires
        manager.context < m.len(),
    ensures
        fair_step(m, manager.polled(m, waker)),
{
    let t = manager.context as int;
    if map_wf(m) {
        assert(context_wf(m, t));
    }
    lemma_update_keeps_wf(m, t, ContextView { waker: Some(waker), ..m[t] });
}

/// The control daemon's look at its own state is a fair step.
pub proof fn lemma_begun_is_fair(m: Seq<ContextView>, daemon: int)
    requires
        0 <= daemon < m.len(),
    ensures
        fair_step(m, begun(m, daemon).0),
{
    lemma_update_state_is_fair(m, daemon, TaskState::Concluded(ExitReason::Terminated));
}

/// Changing what does not bear on the invariant is a fair step: the
/// continuation by which a driver is nudged, the count of attempts, and the
/// mark on a step under way that it no longer counts.
pub proof fn lemma_small_change_is_fair(m: Seq<ContextView>, t: int, c: ContextView)
    requires
        0 <= t < m.len(),
        c == (ContextView { waker: c.waker, respawn_attempts: c.respawn_attempts, stale: c.stale, ..m[t] }),
        c.stale ==> m[t].step is Some,
    ensures
        fair_step(m, m.update(t, c)),
{
    if map_wf(m) {
        assert(context_wf(m, t));
    }
    lemma_update_keeps_wf(m, t, c);
}

/// Killing, deactivating and restarting a task, and shutting all tasks
/// down, are fair steps.
pub proof fn lemma_control_is_fair(m: Seq<ContextView>, t: int, force: bool, waker: usize)
    requires
        0 <= t < m.len(),
    ensures
        fair_step(m, killed(m, t, force).map),
        fair_step(m, deactivated(m, t, force).map),
        fair_step(m, restarted(m, t, force, waker).map),
        fair_step(m, all_killed_upto(m, force, waker, m.len()).map),
{
    let first = killed(m, t, force).map;
    lemma_killed_is_sound(m, t, force);
    lemma_killed_keeps_history(m, t, force);
    lemma_deactivated_is_sound(m, t, force);
    lemma_overwritten_is_fair(first, t, TaskState::Concluded(ExitReason::Deactivated));
    lemma_same_history_transitive(m, first, deactivated(m, t, force).map);
    lemma_restarted_is_sound(m, t, force, waker);
    lemma_restart_resumed_is_fair(first, t, force, waker);
    lemma_honest_after_same(m, first, restarted(m, t, force, waker).map);
    lemma_all_killed_is_sound(m, force, waker, m.len());
    lemma_all_killed_keeps_history(m, force, waker, m.len());
}

/// A run of the supervisor: the context maps that it goes through, each
/// reached from the one before by a fair step.
pub open spec fn fair_run(states: Seq<Seq<ContextView>>) -> bool {
    &&& states.len() > 0
    &&& forall|k: int| 0 <= k < states.len() - 1 ==> fair_step(#[trigger] states[k], states[k + 1])
}

/// In a run that starts from a well-formed map, every map is well-formed,
/// has the tasks of the first, and finds them at the same places.
pub proof fn lemma_run_keeps_wf(states: Seq<Seq<ContextView>>, k: int)
    requires
        fair_run(states),
        map_wf(states[0]),
        0 <= k < states.len(),
    ensures
        map_wf(states[k]),
        extends(states[0], states[k]),
    decreases k,
{
    if k > 0 {
        lemma_run_keeps_wf(states, k - 1);
        assert(fair_step(states[k - 1], states[k]));
        lemma_extends_transitive(states[0], states[k - 1], states[k]);
    }
}

/// In a run that starts with no history, a task that is marked as having
/// been done was in `Concluded(Done)` at some point of the run, and a task
/// that is marked as having been running was in a `Running` state at some
/// point of the run.
pub proof fn lemma_history_is_true(states: Seq<Seq<ContextView>>, k: int, i: int)
    requires
        fair_run(states),
        0 <= k < states.len(),
        0 <= i < states[0].len(),
        !states[0][i].was_done,
        !states[0][i].was_running,
    ensures
        states[k].len() == states[0].len(),
        states[k][i].was_done ==> exists|j: int|
            0 <= j <= k && (#[trigger] states[j])[i].state == TaskState::Concluded(ExitReason::Done),
        states[k][i].was_running ==> exists|j: int| 0 <= j <= k && (#[trigger] states[j])[i].state is Running,
    decreases k,
{
    if k > 0 {
        lemma_history_is_true(states, k - 1, i);
        assert(fair_step(states[k - 1], states[k]));
        if states[k][i].was_done {
            if states[k - 1][i].was_done {
                let j = choose|j: int|
                    0 <= j <= k - 1 && (#[trigger] states[j])[i].state == TaskState::Concluded(
                        ExitReason::Done,
                    );
                assert(0 <= j <= k && states[j][i].state == TaskState::Concluded(ExitReason::Done));
            } else {
                assert(states[k][i].state == TaskState::Concluded(ExitReason::Done));
            }
        }
        if states[k][i].was_running {
            if states[k - 1][i].was_running {
                let j = choose|j: int| 0 <= j <= k - 1 && (#[trigger] states[j])[i].state is Running;
                assert(0 <= j <= k && states[j][i].state is Running);
            } else {
                assert(states[k][i].state is Running);
            }
        }
    }
}

/// The order of dependencies, over a whole run. Take any run of the
/// supervisor from its start for some list of definitions, made of steps of
/// drivers and actions of the control plane in any order. If, after it, the
/// driver of a task lets the task enter a `Running` state, then every task
/// on the task's `after` list exists and was in `Concluded(Done)` at some
/// point of the run, and every task on its `with` list exists and was in a
/// `Running` state at some point of the run.
pub proof fn lemma_dependencies_precede_running_in_every_run(
    configs: Seq<TaskConfigView>,
    states: Seq<Seq<ContextView>>,
    t: int,
    event: DriverEvent,
)
    requires
        fair_run(states),
        states[0] == initial_map(configs),
        0 <= t < states.last().len(),
        !(states.last()[t].state is Running),
        drive_step(states.last(), t, event).map[t].state is Running,
    ensures
        forall|a: int|
            0 <= a < states.last()[t].config.after.len() ==> exists|d: int, j: int|
                0 <= d < states[0].len() && 0 <= j < states.len() && find(
                    states.last(),
                    #[trigger] states.last()[t].config.after[a],
                ) == Some(d) && (#[trigger] states[j][d]).state == TaskState::Concluded(ExitReason::Done),
        forall|w: int|
            0 <= w < states.last()[t].config.with.len() ==> exists|d: int, j: int|
                0 <= d < states[0].len() && 0 <= j < states.len() && find(
                    states.last(),
                    #[trigger] states.last()[t].config.with[w],
                ) == Some(d) && (#[trigger] states[j][d]).state is Running,
{
    let n = states.len() - 1;
    let last = states.last();
    lemma_initial_map_wf(configs);
    lemma_run_keeps_wf(states, n);
    lemma_dependencies_precede_running(last, t, event);
    assert forall|a: int| 0 <= a < last[t].config.after.len() implies exists|d: int, j: int|
        0 <= d < states[0].len() && 0 <= j < states.len() && find(last, #[trigger] last[t].config.after[a])
            == Some(d) && (#[trigger] states[j][d]).state == TaskState::Concluded(ExitReason::Done) by {
        let name = last[t].config.after[a];
        assert(seen_done(last, name));
        lemma_find_in_range(last, name);
        let d = find(last, name)->0;
        lemma_history_is_true(states, n, d);
        let j = choose|j: int|
            0 <= j <= n && (#[trigger] states[j])[d].state == TaskState::Concluded(ExitReason::Done);
        assert(states[j][d].state == TaskState::Concluded(ExitReason::Done));
    }
    assert forall|w: int| 0 <= w < last[t].config.with.len() implies exists|d: int, j: int|
        0 <= d < states[0].len() && 0 <= j < states.len() && find(last, #[trigger] last[t].config.with[w])
            == Some(d) && (#[trigger] states[j][d]).state is Running by {
        let name = last[t].config.with[w];
        assert(seen_running(last, name));
        lemma_find_in_range(last, name);
        let d = find(last, name)->0;
        lemma_history_is_true(states, n, d);
        let j = choose|j: int| 0 <= j <= n && (#[trigger] states[j])[d].state is Running;
        assert(states[j][d].state is Running);
    }
}

/// Whether one step of some driver leads from `before` to `after`.
pub open spec fn driven_step(before: Seq<ContextView>, after: Seq<ContextView>) -> bool {
    exists|t: int, event: DriverEvent|
        0 <= t < before.len() && #[trigger] drive_step(before, t, event).map == after
}

/// A run in which only drivers act: each map comes from the one before by
/// one step of some driver.
pub open spec fn driven_run(states: Seq<Seq<ContextView>>) -> bool {
    &&& states.len() > 0
    &&& forall|k: int| 0 <= k < states.len() - 1 ==> driven_step(#[trigger] states[k], states[k + 1])
}

/// How often the task at place `t` was respawned in the first `k` steps of
/// a run: how often a step took it from a `Concluded` state to `Waiting`.
pub open spec fn respawn_count(states: Seq<Seq<ContextView>>, t: int, k: nat) -> nat
    decreases k,
{
    if k == 0 {
        0
    } else {
        let before = respawn_count(states, t, (k - 1) as nat);
        if states[k - 1][t].state is Concluded && states[k as int][t].state == TaskState::Waiting {
            before + 1
        } else {
            before
        }
    }
}

/// One step of a driver, seen from a task with a respawn limit that it has
/// not gone beyond: the step leaves the task's definition alone, and it
/// raises the count of attempts by one if it respawns the task, and not at
/// all if it does not; the count stays within the limit.
pub proof fn lemma_step_counts_respawns(m: Seq<ContextView>, driven: int, event: DriverEvent, t: int, max: usize)
    requires
        0 <= driven < m.len(),
        0 <= t < m.len(),
        m[t].config.respawn == Respawn::Retry(max),
        max > 0,
        m[t].respawn_attempts <= max,
    ensures
        drive_step(m, driven, event).map.len() == m.len(),
        drive_step(m, driven, event).map[t].config == m[t].config,
        drive_step(m, driven, event).map[t].respawn_attempts <= max,
        drive_step(m, driven, event).map[t].respawn_attempts == m[t].respawn_attempts + (if m[t].state is Concluded
            && drive_step(m, driven, event).map[t].state == TaskState::Waiting {
            1int
        } else {
            0int
        }),
{
    let c = m[driven];
    if c.with_seen < c.config.with.len() {
        lemma_find_in_range(m, c.config.with[c.with_seen as int]);
    }
    if c.after_seen < c.config.after.len() {
        lemma_find_in_range(m, c.config.after[c.after_seen as int]);
    }
}

/// The respawn limit, over a whole run. While only drivers act, a task with
/// the policy `Retry(max)`, `max > 0`, whose count of attempts starts within
/// the limit is respawned at most as often as the limit leaves room for:
/// the count of attempts grows by one with each respawn and never goes
/// beyond `max`.
pub proof fn lemma_respawns_are_limited_in_every_run(states: Seq<Seq<ContextView>>, t: int, max: usize, k: int)
    requires
        driven_run(states),
        0 <= t < states[0].len(),
        states[0][t].config.respawn == Respawn::Retry(max),
        max > 0,
        states[0][t].respawn_attempts <= max,
        0 <= k < states.len(),
    ensures
        states[k].len() == states[0].len(),
        states[k][t].config == states[0][t].config,
        states[k][t].respawn_attempts == states[0][t].respawn_attempts + respawn_count(states, t, k as nat),
        states[0][t].respawn_attempts + respawn_count(states, t, k as nat) <= max,
    decreases k,
{
    if k > 0 {
        lemma_respawns_are_limited_in_every_run(states, t, max, k - 1);
        let before = states[k - 1];
        assert(driven_step(before, states[k]));
        let (driven, event) = choose|driven: int, event: DriverEvent|
            0 <= driven < before.len() && #[trigger] drive_step(before, driven, event).map == states[k];
        lemma_step_counts_respawns(before, driven, event, t, max);
    }
}

} // verus!
