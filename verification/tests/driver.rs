use alfad::builtin::BuiltInService;
use alfad::config::payload::{Launch, Payload};
use alfad::config::{Respawn, TaskConfig};
use alfad::task::{
    drive, spawn, ContextMap, DriverAction, DriverEvent, ExitReason, TaskState,
};
use std::ops::ControlFlow;

const DONE: TaskState = TaskState::Concluded(ExitReason::Done);
const FAILED: TaskState = TaskState::Concluded(ExitReason::Failed);
const TERMINATED: TaskState = TaskState::Concluded(ExitReason::Terminated);
const DEACTIVATED: TaskState = TaskState::Concluded(ExitReason::Deactivated);

fn service(name: &str, commands: &str) -> TaskConfig {
    let mut config = TaskConfig::new(name.to_string());
    config.payload = Payload::from_str(commands).unwrap();
    config
}

fn poll(map: &mut ContextMap, task: usize) -> DriverAction {
    map.drive(task, DriverEvent::Poll).action
}

fn finish(map: &mut ContextMap, task: usize, result: ControlFlow<TaskState>) -> DriverAction {
    map.drive(task, DriverEvent::StepFinished(result)).action
}

#[test]
fn a_service_walks_through_its_commands() {
    let mut map = ContextMap::new(vec![service("a", "one\ntwo")]);
    assert_eq!(spawn(&mut map, 0).action, DriverAction::Yield);
    assert_eq!(map.state(0), TaskState::Waiting);
    assert_eq!(poll(&mut map, 0), DriverAction::Yield);
    assert_eq!(map.state(0), TaskState::Running(0));
    assert_eq!(poll(&mut map, 0), DriverAction::Spawn(0));
    assert_eq!(map.get(0).step(), Some(0));
    assert_eq!(finish(&mut map, 0, ControlFlow::Continue(())), DriverAction::Yield);
    assert_eq!(map.state(0), TaskState::Running(1));
    assert_eq!(map.get(0).step(), None);
    assert_eq!(poll(&mut map, 0), DriverAction::Spawn(1));
    assert_eq!(finish(&mut map, 0, ControlFlow::Continue(())), DriverAction::Yield);
    assert_eq!(map.state(0), TaskState::Running(2));
    assert_eq!(poll(&mut map, 0), DriverAction::Yield);
    assert_eq!(map.state(0), DONE);
    assert_eq!(poll(&mut map, 0), DriverAction::Park);
    assert_eq!(map.state(0), DONE);
}

#[test]
fn a_step_that_breaks_sets_the_state_it_broke_with() {
    let mut map = ContextMap::new(vec![service("a", "one\ntwo")]);
    while poll(&mut map, 0) != DriverAction::Spawn(0) {}
    assert_eq!(finish(&mut map, 0, ControlFlow::Break(FAILED)), DriverAction::Yield);
    assert_eq!(map.state(0), FAILED);
    assert_eq!(poll(&mut map, 0), DriverAction::Park);
}

#[test]
fn while_a_step_is_under_way_the_driver_parks() {
    let mut map = ContextMap::new(vec![service("a", "one")]);
    while poll(&mut map, 0) != DriverAction::Spawn(0) {}
    map.record_child(0, 77);
    for _ in 0..5 {
        assert_eq!(poll(&mut map, 0), DriverAction::Park);
        assert_eq!(map.state(0), TaskState::Running(0));
        assert_eq!(map.get(0).child(), Some(77));
    }
}

#[test]
fn a_result_without_a_step_is_taken_as_a_poll() {
    let mut map = ContextMap::new(vec![service("a", "one")]);
    assert_eq!(finish(&mut map, 0, ControlFlow::Break(FAILED)), DriverAction::Yield);
    assert_eq!(map.state(0), TaskState::Waiting);
}

#[test]
fn a_marker_runs_nothing() {
    let mut marker = TaskConfig::new("m".to_string());
    marker.payload = Payload::Marker;
    marker.respawn = Respawn::Retry(0);
    let mut map = ContextMap::new(vec![marker]);
    let mut seen = vec![map.state(0)];
    for _ in 0..10 {
        let action = poll(&mut map, 0);
        assert!(action == DriverAction::Yield || action == DriverAction::Park);
        if *seen.last().unwrap() != map.state(0) {
            seen.push(map.state(0));
        }
    }
    // a marker is never respawned, whatever its policy
    assert_eq!(seen, [TaskState::Created, TaskState::Waiting, TaskState::Running(0), DONE]);
}

#[test]
fn a_routine_is_polled_at_step_zero_only() {
    let mut config = TaskConfig::new("r".to_string());
    config.payload = Payload::Builtin(BuiltInService { id: 3 });
    let mut map = ContextMap::new(vec![config]);
    assert_eq!(poll(&mut map, 0), DriverAction::Yield);
    assert_eq!(poll(&mut map, 0), DriverAction::Yield);
    assert_eq!(poll(&mut map, 0), DriverAction::Routine(BuiltInService { id: 3 }));
    assert_eq!(finish(&mut map, 0, ControlFlow::Continue(())), DriverAction::Yield);
    assert_eq!(map.state(0), TaskState::Running(1));
    assert_eq!(poll(&mut map, 0), DriverAction::Yield);
    assert_eq!(map.state(0), DONE);
}

#[test]
fn what_a_payload_asks_for() {
    let done = Launch::Outcome(ControlFlow::Break(DONE));
    let lines = Payload::from_str("one\n\nthree").unwrap();
    assert_eq!(lines.run(0), Launch::Command(0));
    assert_eq!(lines.run(1), Launch::Outcome(ControlFlow::Continue(())));
    assert_eq!(lines.run(2), Launch::Command(2));
    assert_eq!(lines.run(3), done);
    assert_eq!(lines.run(usize::MAX), done);
    let routine = Payload::Builtin(BuiltInService { id: 1 });
    assert_eq!(routine.run(0), Launch::Routine(BuiltInService { id: 1 }));
    assert_eq!(routine.run(1), done);
    assert_eq!(Payload::Marker.run(0), done);
    assert_eq!(Payload::Marker.run(5), done);
    assert!(Payload::Marker.is_marker());
    assert!(!lines.is_marker());
    assert!(!routine.is_marker());
    assert!(matches!(Payload::default(), Payload::Service(ref l) if l.len() == 0));
}

#[test]
fn with_is_awaited_before_after() {
    let mut config = service("t", "run");
    config.after("done_first");
    config.with.push("runs_first".to_string());
    let mut map = ContextMap::new(vec![config, service("done_first", "x"), service("runs_first", "y")]);
    assert_eq!(poll(&mut map, 0), DriverAction::Yield);
    // registers with `runs_first`, not with `done_first`
    assert_eq!(poll(&mut map, 0), DriverAction::Park);
    assert_eq!(map.update_state(1, DONE), Vec::<usize>::new());
    assert_eq!(map.update_state(2, TaskState::Running(0)), vec![0]);
    assert_eq!(poll(&mut map, 0), DriverAction::Yield);
    // `with` is passed; `after` is met already
    assert_eq!(poll(&mut map, 0), DriverAction::Yield);
    assert_eq!(poll(&mut map, 0), DriverAction::Yield);
    assert_eq!(map.state(0), TaskState::Running(0));
}

#[test]
fn observations_need_not_hold_at_the_same_time() {
    let mut config = service("t", "run");
    config.with.push("a".to_string());
    config.with.push("b".to_string());
    let mut map = ContextMap::new(vec![config, service("a", "x"), service("b", "y")]);
    poll(&mut map, 0);
    map.update_state(1, TaskState::Running(0));
    assert_eq!(poll(&mut map, 0), DriverAction::Yield);
    // `a` has concluded by the time `b` runs
    map.update_state(1, FAILED);
    assert_eq!(poll(&mut map, 0), DriverAction::Park);
    map.update_state(2, TaskState::Running(3));
    assert_eq!(poll(&mut map, 0), DriverAction::Yield);
    assert_eq!(poll(&mut map, 0), DriverAction::Yield);
    assert_eq!(map.state(0), TaskState::Running(0));
}

#[test]
fn after_needs_done_and_nothing_else() {
    let mut config = service("t", "run");
    config.after("a");
    let mut map = ContextMap::new(vec![config, service("a", "x")]);
    poll(&mut map, 0);
    for state in [TaskState::Running(0), FAILED, TERMINATED, TaskState::Terminating, TaskState::Waiting] {
        map.update_state(1, state);
        assert_eq!(poll(&mut map, 0), DriverAction::Park, "{:?}", state);
        assert_eq!(map.state(0), TaskState::Waiting);
    }
    map.update_state(1, DONE);
    assert_eq!(poll(&mut map, 0), DriverAction::Yield);
    assert_eq!(poll(&mut map, 0), DriverAction::Yield);
    assert_eq!(map.state(0), TaskState::Running(0));
}

#[test]
fn a_wait_starts_afresh_after_a_respawn() {
    let mut config = service("t", "run");
    config.after("a");
    config.respawn = Respawn::Retry(1);
    let mut map = ContextMap::new(vec![config, service("a", "x")]);
    map.update_state(1, DONE);
    while poll(&mut map, 0) != DriverAction::Spawn(0) {}
    map.update_state(1, TaskState::Running(0));
    finish(&mut map, 0, ControlFlow::Break(FAILED));
    assert_eq!(poll(&mut map, 0), DriverAction::Yield);
    assert_eq!(map.state(0), TaskState::Waiting);
    // `a` is no longer done: the task waits again
    assert_eq!(poll(&mut map, 0), DriverAction::Park);
    assert_eq!(map.state(0), TaskState::Waiting);
}

#[test]
fn deactivated_stays_whoever_is_driven() {
    let mut config = service("t", "run");
    config.respawn = Respawn::Retry(0);
    let mut other = service("o", "run");
    other.after("t");
    let mut map = ContextMap::new(vec![config, other]);
    map.update_state(0, DEACTIVATED);
    for _ in 0..10 {
        poll(&mut map, 0);
        poll(&mut map, 1);
        finish(&mut map, 0, ControlFlow::Continue(()));
        finish(&mut map, 1, ControlFlow::Break(DONE));
        assert_eq!(map.state(0), DEACTIVATED);
    }
    assert_eq!(map.state(1), DEACTIVATED);
    assert_eq!(map.get(0).respawn_attempts(), 0);
}

#[test]
fn terminating_without_a_step_concludes() {
    let mut map = ContextMap::new(vec![service("t", "run")]);
    map.update_state(0, TaskState::Terminating);
    assert_eq!(poll(&mut map, 0), DriverAction::Yield);
    assert_eq!(map.state(0), TERMINATED);
}

#[test]
fn a_terminating_task_is_terminated_whatever_the_step_says() {
    for result in [ControlFlow::Continue(()), ControlFlow::Break(DONE), ControlFlow::Break(FAILED)] {
        let mut map = ContextMap::new(vec![service("t", "one\ntwo")]);
        while poll(&mut map, 0) != DriverAction::Spawn(0) {}
        map.update_state(0, TaskState::Terminating);
        finish(&mut map, 0, result);
        assert_eq!(map.state(0), TERMINATED);
    }
}

#[test]
fn a_parked_driver_leaves_its_waker() {
    let mut map = ContextMap::new(vec![service("t", "")]);
    while poll(&mut map, 0) != DriverAction::Park {}
    assert_eq!(map.state(0), DONE);
    assert_eq!(map.wake(0), Some(0));
    assert_eq!(map.wake(0), None);
}

#[test]
fn the_free_function_drives_like_the_method() {
    let mut map = ContextMap::new(vec![service("t", "one")]);
    assert_eq!(drive(&mut map, 0, DriverEvent::Poll).action, DriverAction::Yield);
    assert_eq!(map.state(0), TaskState::Waiting);
}

#[test]
fn a_change_of_state_by_the_driver_wakes_the_waiters() {
    let mut map = ContextMap::new(vec![service("t", "one"), service("w", "x")]);
    map.wait_for_running("t", 1);
    let first = map.drive(0, DriverEvent::Poll);
    assert_eq!(first.wake, vec![1]);
    map.wait_for_running("t", 1);
    map.wait_for_running("t", 4);
    let second = map.drive(0, DriverEvent::Poll);
    assert_eq!(map.state(0), TaskState::Running(0));
    assert_eq!(second.wake, vec![1, 4]);
}
