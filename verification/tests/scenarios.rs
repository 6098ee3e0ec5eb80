use alfad::builtin::ctl::get_built_in;
use alfad::builtin::routine_outcome;
use alfad::command_line::{Child, CommandLine, Environment};
use alfad::config::payload::Payload;
use alfad::config::yaml::{PayloadYaml, TaskConfigYaml};
use alfad::config::{read_yaml_configs, Respawn, TaskConfig};
use alfad::perform_action::{perform, resume_restart, FollowUp, Performed};
use alfad::task::{
    ContextMap, DriverAction, DriverEvent, ExitReason, Signal, TaskState,
};
use alfad::validate::validate;
use std::ops::ControlFlow;

const DONE: TaskState = TaskState::Concluded(ExitReason::Done);
const FAILED: TaskState = TaskState::Concluded(ExitReason::Failed);
const TERMINATED: TaskState = TaskState::Concluded(ExitReason::Terminated);
const DEACTIVATED: TaskState = TaskState::Concluded(ExitReason::Deactivated);

/// A world in which `echo` and `true` succeed at once, `false` fails at once
/// and `sleep` runs until it gets a signal.
struct World {
    map: ContextMap,
    env: Environment,
    runnable: Vec<bool>,
    finished: Vec<Option<ControlFlow<TaskState>>>,
    sleeping: Vec<Option<Child>>,
    next_pid: u32,
    spawns: Vec<usize>,
    trace: Vec<Vec<TaskState>>,
    entered_running: Vec<usize>,
    pending: Vec<(usize, bool)>,
    signals: Vec<(usize, Signal)>,
}

impl World {
    fn new(configs: Vec<TaskConfig>) -> World {
        let map = ContextMap::new(configs);
        let n = map.len();
        World {
            map,
            env: Environment::new(),
            runnable: vec![true; n],
            finished: vec![None; n],
            sleeping: vec![None; n],
            next_pid: 100,
            spawns: vec![0; n],
            trace: (0..n).map(|_| vec![TaskState::Created]).collect(),
            entered_running: Vec::new(),
            pending: Vec::new(),
            signals: Vec::new(),
        }
    }

    fn control_waker(&self) -> usize {
        self.map.len()
    }

    fn place(&self, name: &str) -> usize {
        self.map.find(name).unwrap()
    }

    fn state(&self, name: &str) -> TaskState {
        self.map.state(self.place(name))
    }

    fn trace_of(&self, name: &str) -> Vec<TaskState> {
        self.trace[self.place(name)].clone()
    }

    fn observe(&mut self) {
        for t in 0..self.map.len() {
            let state = self.map.state(t);
            if *self.trace[t].last().unwrap() != state {
                if state == TaskState::Running(0) && !self.entered_running.contains(&t) {
                    self.entered_running.push(t);
                }
                self.trace[t].push(state);
            }
        }
    }

    fn wake(&mut self, list: &[usize]) {
        for &id in list {
            if id < self.runnable.len() {
                self.runnable[id] = true;
            }
        }
    }

    fn start_child(&mut self, t: usize, index: usize) {
        let line: CommandLine = match &self.map.get(t).config().payload {
            Payload::Service(lines) => lines.get(index).unwrap().clone(),
            other => panic!("no command in {:?}", other),
        };
        match line.to_command(&self.env) {
            Err(error) => {
                self.finished[t] = Some(CommandLine::spawn_failed(&error));
                self.runnable[t] = true;
            }
            Ok(spec) => {
                assert!(self.sleeping[t].is_none(), "a second child for task {}", t);
                assert_eq!(self.map.get(t).child(), None, "a second child for task {}", t);
                self.spawns[t] += 1;
                let child = Child { id: self.next_pid, ignore_return: line.ignore_return };
                self.next_pid += 1;
                self.map.record_child(t, child.id() as i32);
                assert_eq!(self.map.get(t).child(), Some(child.id() as i32));
                match spec.program.as_str() {
                    "echo" | "true" => {
                        self.finished[t] = Some(child.outcome(Ok(true)));
                        self.runnable[t] = true;
                    }
                    "false" => {
                        self.finished[t] = Some(child.outcome(Ok(false)));
                        self.runnable[t] = true;
                    }
                    "sleep" => {
                        self.sleeping[t] = Some(child);
                        self.runnable[t] = false;
                    }
                    other => panic!("unknown program {}", other),
                }
            }
        }
    }

    fn step(&mut self, t: usize) {
        let event = match self.finished[t].take() {
            Some(result) => DriverEvent::StepFinished(result),
            None => DriverEvent::Poll,
        };
        let driven = self.map.drive(t, event);
        self.observe();
        self.wake(&driven.wake);
        match driven.action {
            DriverAction::Yield => self.runnable[t] = true,
            DriverAction::Park => self.runnable[t] = false,
            DriverAction::Spawn(index) => self.start_child(t, index),
            DriverAction::Routine(_) => {
                self.finished[t] = Some(routine_outcome(true));
                self.runnable[t] = true;
            }
        }
    }

    /// Drives every driver that wants to run, round after round, for at most
    /// `rounds` rounds. Says whether everything came to rest.
    fn run(&mut self, rounds: usize) -> bool {
        for _ in 0..rounds {
            if !self.runnable.iter().any(|r| *r) {
                return true;
            }
            for t in 0..self.map.len() {
                if self.runnable[t] {
                    self.step(t);
                }
            }
            self.resume();
        }
        !self.runnable.iter().any(|r| *r)
    }

    fn settle(&mut self) {
        assert!(self.run(10_000), "the world did not come to rest");
    }

    /// Runs `name` alone until it is in `state`.
    fn run_until(&mut self, name: &str, state: TaskState) {
        let t = self.place(name);
        for _ in 0..10_000 {
            if self.map.state(t) == state {
                return;
            }
            self.step(t);
        }
        panic!("{} never reached {:?}", name, state);
    }

    fn apply(&mut self, performed: Performed) {
        for request in &performed.signals {
            let t = (0..self.map.len())
                .find(|t| self.sleeping[*t].map(|c| c.id() as i32) == Some(request.pid))
                .expect("a signal for a process that does not run");
            self.signals.push((t, request.signal));
            let child = self.sleeping[t].take().unwrap();
            self.finished[t] = Some(child.outcome(Ok(false)));
            self.runnable[t] = true;
        }
        self.wake(&performed.wake);
        if let FollowUp::AwaitConclusion { task, force } = performed.due {
            self.pending.push((task, force));
        }
    }

    fn resume(&mut self) {
        let pending = std::mem::take(&mut self.pending);
        for (task, force) in pending {
            let waker = self.control_waker();
            let performed = resume_restart(&mut self.map, task, force, waker);
            self.observe();
            self.apply(performed);
        }
    }

    fn control(&mut self, line: &str) -> Performed {
        let waker = self.control_waker();
        let performed = perform(line, &mut self.map, waker).unwrap();
        self.observe();
        let summary = Performed {
            signals: performed.signals.clone(),
            wake: performed.wake.clone(),
            awaiting: performed.awaiting.clone(),
            due: performed.due,
        };
        self.apply(performed);
        summary
    }
}

fn service(name: &str, commands: &str) -> TaskConfig {
    let mut config = TaskConfig::new(name.to_string());
    config.payload = Payload::from_str(commands).unwrap();
    config
}

fn after(mut config: TaskConfig, names: &[&str]) -> TaskConfig {
    for name in names {
        config.after(name);
    }
    config
}

fn with(mut config: TaskConfig, names: &[&str]) -> TaskConfig {
    for name in names {
        config.with.push(name.to_string());
    }
    config
}

fn respawn(mut config: TaskConfig, policy: Respawn) -> TaskConfig {
    config.respawn = policy;
    config
}

fn position(order: &[usize], t: usize) -> usize {
    order.iter().position(|x| *x == t).unwrap()
}

#[test]
fn linear_chain() {
    let mut world = World::new(vec![
        after(service("c", "echo c"), &["b"]),
        after(service("b", "echo b"), &["a"]),
        service("a", "echo a"),
    ]);
    world.settle();
    for name in ["a", "b", "c"] {
        assert_eq!(world.state(name), DONE);
        assert_eq!(
            world.trace_of(name),
            vec![TaskState::Created, TaskState::Waiting, TaskState::Running(0), TaskState::Running(1), DONE]
        );
    }
    let order = &world.entered_running;
    let (a, b, c) = (world.place("a"), world.place("b"), world.place("c"));
    assert!(position(order, a) < position(order, b));
    assert!(position(order, b) < position(order, c));
    assert_eq!(world.spawns, vec![1, 1, 1]);
}

#[test]
fn co_start_rendezvous() {
    let mut world = World::new(vec![
        with(service("dep", "echo"), &["srv"]),
        service("srv", "sleep 60"),
    ]);
    world.settle();
    assert_eq!(world.state("srv"), TaskState::Running(0));
    assert_eq!(world.state("dep"), DONE);
    let order = &world.entered_running;
    assert!(position(order, world.place("srv")) < position(order, world.place("dep")));
    assert_eq!(world.spawns[world.place("srv")], 1);
    assert_eq!(world.spawns[world.place("dep")], 1);
}

#[test]
fn kill_and_restart() {
    let mut world = World::new(vec![service("svc", "sleep 60")]);
    world.settle();
    assert_eq!(world.state("svc"), TaskState::Running(0));
    let pid = world.map.get(0).child().unwrap();

    let killed = world.control("kill svc");
    assert_eq!(killed.signals.len(), 1);
    assert_eq!(killed.signals[0].pid, pid);
    assert_eq!(killed.signals[0].signal, Signal::SIGTERM);
    assert_eq!(world.state("svc"), TaskState::Terminating);
    world.settle();
    assert_eq!(world.state("svc"), TERMINATED);
    assert_eq!(world.map.get(0).child(), None);

    world.control("start svc");
    world.settle();
    assert_eq!(world.state("svc"), TaskState::Running(0));
    assert_eq!(
        world.trace_of("svc"),
        vec![
            TaskState::Created,
            TaskState::Waiting,
            TaskState::Running(0),
            TaskState::Terminating,
            TERMINATED,
            TaskState::Waiting,
            TaskState::Running(0),
        ]
    );
    assert_eq!(world.spawns, vec![2]);
}

#[test]
fn deactivation_is_sticky() {
    let mut world = World::new(vec![respawn(service("x", "false"), Respawn::Retry(3))]);
    world.run_until("x", FAILED);
    assert_eq!(world.spawns, vec![1]);
    world.control("deactivate x");
    assert_eq!(world.state("x"), DEACTIVATED);
    world.settle();
    for _ in 0..20 {
        world.step(0);
    }
    assert_eq!(world.state("x"), DEACTIVATED);
    assert_eq!(world.spawns, vec![1]);
    assert_eq!(world.map.get(0).respawn_attempts(), 0);
}

#[test]
fn cycle_tolerance() {
    let configs = vec![
        after(service("p", "echo"), &["q"]),
        after(service("q", "echo"), &["p"]),
    ];
    let (configs, looping) = validate(configs);
    assert_eq!(looping, vec!["p", "q"]);
    let mut world = World::new(configs);
    world.settle();
    assert_eq!(world.state("p"), TaskState::Waiting);
    assert_eq!(world.state("q"), TaskState::Waiting);
    assert_eq!(world.spawns, vec![0, 0]);

    world.control("force-start p");
    world.settle();
    assert_eq!(world.state("p"), DONE);
    assert_eq!(world.state("q"), DONE);
    assert_eq!(world.spawns, vec![1, 1]);
    let order = &world.entered_running;
    assert!(position(order, world.place("p")) < position(order, world.place("q")));
}

#[test]
fn feature_marker() {
    let mut net = TaskConfigYaml::with_payload("net".to_string(), PayloadYaml::Service("echo".to_string()));
    net.provides.push("network".to_string());
    let mut web = TaskConfigYaml::with_payload("web".to_string(), PayloadYaml::Service("echo".to_string()));
    web.after("feature::network");
    let (configs, looping) = read_yaml_configs(vec![web, net], Vec::new());
    assert!(looping.is_empty());
    let names: Vec<&str> = configs.iter().map(|c| c.name.as_str()).collect();
    assert_eq!(names, vec!["net", "feature::network", "web"]);

    let mut world = World::new(configs);
    let marker = world.place("feature::network");
    // the marker concludes right after `net` does, and `web` starts after that
    world.run_until("net", DONE);
    assert_eq!(world.state("feature::network"), TaskState::Created);
    assert_eq!(world.state("web"), TaskState::Created);
    world.settle();
    assert_eq!(world.state("net"), DONE);
    assert_eq!(world.state("feature::network"), DONE);
    assert_eq!(world.state("web"), DONE);
    assert_eq!(
        world.trace_of("feature::network"),
        vec![TaskState::Created, TaskState::Waiting, TaskState::Running(0), DONE]
    );
    assert_eq!(world.spawns[marker], 0);
    let order = &world.entered_running;
    assert!(position(order, world.place("net")) < position(order, marker));
    assert!(position(order, marker) < position(order, world.place("web")));
}

#[test]
fn a_respawn_limit_is_respected() {
    let mut world = World::new(vec![respawn(service("flaky", "false"), Respawn::Retry(2))]);
    world.settle();
    assert_eq!(world.state("flaky"), FAILED);
    // the first run and two respawns
    assert_eq!(world.spawns, vec![3]);
    assert_eq!(world.map.get(0).respawn_attempts(), 2);
    for _ in 0..20 {
        world.step(0);
    }
    assert_eq!(world.state("flaky"), FAILED);
    assert_eq!(world.spawns, vec![3]);
}

#[test]
fn a_task_that_succeeds_is_respawned_like_one_that_fails() {
    let mut world = World::new(vec![respawn(service("again", "echo"), Respawn::Retry(1))]);
    world.settle();
    assert_eq!(world.state("again"), DONE);
    assert_eq!(world.spawns, vec![2]);
    assert_eq!(world.map.get(0).respawn_attempts(), 1);
}

#[test]
fn retry_zero_never_gives_up() {
    let mut world = World::new(vec![respawn(service("forever", "false"), Respawn::Retry(0))]);
    assert!(!world.run(500));
    assert!(world.spawns[0] >= 50);
    let before = world.spawns[0];
    assert!(!world.run(500));
    assert!(world.spawns[0] > before);
}

#[test]
fn no_respawn_by_default() {
    let mut world = World::new(vec![service("once", "false")]);
    world.settle();
    assert_eq!(world.state("once"), FAILED);
    assert_eq!(world.spawns, vec![1]);
    assert_eq!(world.map.get(0).respawn_attempts(), 0);
}

#[test]
fn a_missing_dependency_stalls_the_task() {
    let mut world = World::new(vec![
        service("a", "echo"),
        after(service("stuck", "echo"), &["a", "ghost"]),
        with(service("stuck_too", "echo"), &["ghost"]),
    ]);
    world.settle();
    assert_eq!(world.state("a"), DONE);
    assert_eq!(world.state("stuck"), TaskState::Waiting);
    assert_eq!(world.state("stuck_too"), TaskState::Waiting);
    for _ in 0..20 {
        world.step(1);
        world.step(2);
    }
    assert_eq!(world.state("stuck"), TaskState::Waiting);
    assert_eq!(world.state("stuck_too"), TaskState::Waiting);
    assert_eq!(world.spawns, vec![1, 0, 0]);
}

#[test]
fn force_start_of_a_running_task_starts_no_second_child() {
    let mut world = World::new(vec![respawn(service("svc", "sleep 60"), Respawn::Retry(5))]);
    world.settle();
    let pid = world.map.get(0).child();
    assert!(pid.is_some());
    let performed = world.control("force-start svc");
    assert!(performed.signals.is_empty());
    assert!(performed.wake.is_empty());
    assert_eq!(performed.due, FollowUp::Nothing);
    world.settle();
    for _ in 0..20 {
        world.step(0);
    }
    assert_eq!(world.state("svc"), TaskState::Running(0));
    assert_eq!(world.map.get(0).child(), pid);
    assert_eq!(world.map.get(0).step(), Some(0));
    assert_eq!(world.spawns, vec![1]);
}

#[test]
fn an_empty_command_is_passed_over() {
    let mut world = World::new(vec![service("gaps", "\necho one\n\n\necho two\n")]);
    world.settle();
    assert_eq!(world.state("gaps"), DONE);
    assert_eq!(world.spawns, vec![2]);
    assert_eq!(
        world.trace_of("gaps"),
        vec![
            TaskState::Created,
            TaskState::Waiting,
            TaskState::Running(0),
            TaskState::Running(1),
            TaskState::Running(2),
            TaskState::Running(3),
            TaskState::Running(4),
            TaskState::Running(5),
            DONE,
        ]
    );
}

#[test]
fn a_failing_command_ends_the_run() {
    let mut world = World::new(vec![service("half", "echo one\nfalse\necho never")]);
    world.settle();
    assert_eq!(world.state("half"), FAILED);
    assert_eq!(world.spawns, vec![2]);
    assert_eq!(world.map.get(0).child(), None);
}

#[test]
fn an_ignored_exit_status_lets_the_run_go_on() {
    let mut world = World::new(vec![service("lenient", "-false\necho after")]);
    world.settle();
    assert_eq!(world.state("lenient"), DONE);
    assert_eq!(world.spawns, vec![2]);
}

#[test]
fn a_command_that_cannot_be_expanded_fails_the_run() {
    let mut world = World::new(vec![service("deep", "echo $LOOP")]);
    world.env.set("LOOP", "$LOOP.");
    world.settle();
    assert_eq!(world.state("deep"), FAILED);
    assert_eq!(world.spawns, vec![0]);
}

#[test]
fn a_deactivated_dependency_deactivates_the_dependent() {
    let mut world = World::new(vec![
        service("base", "sleep 60"),
        after(service("top", "echo"), &["base"]),
        with(service("side", "echo"), &["top"]),
    ]);
    world.settle();
    assert_eq!(world.state("top"), TaskState::Waiting);
    world.control("deactivate base");
    world.settle();
    assert_eq!(world.state("base"), DEACTIVATED);
    assert_eq!(world.state("top"), DEACTIVATED);
    assert_eq!(world.state("side"), DEACTIVATED);
    assert_eq!(world.spawns, vec![1, 0, 0]);
}

#[test]
fn force_kill_concludes_at_once() {
    let mut world = World::new(vec![respawn(service("svc", "sleep 60"), Respawn::Retry(1))]);
    world.settle();
    let performed = world.control("force-kill svc");
    assert_eq!(performed.signals.len(), 1);
    assert_eq!(performed.signals[0].signal, Signal::SIGKILL);
    assert_eq!(world.state("svc"), TERMINATED);
    // the respawn waits until the child is gone, then happens once
    world.settle();
    assert_eq!(world.state("svc"), TaskState::Running(0));
    assert_eq!(world.spawns, vec![2]);
    assert_eq!(world.map.get(0).respawn_attempts(), 1);
}

#[test]
fn restart_waits_for_the_conclusion() {
    let mut world = World::new(vec![respawn(service("svc", "sleep 60"), Respawn::Retry(1))]);
    world.settle();
    let performed = world.control("restart svc");
    assert_eq!(performed.due, FollowUp::AwaitConclusion { task: 0, force: false });
    assert_eq!(world.state("svc"), TaskState::Terminating);
    world.settle();
    assert_eq!(world.state("svc"), TaskState::Running(0));
    assert_eq!(world.spawns, vec![2]);
    // a manual restart starts the respawn count afresh
    assert_eq!(world.map.get(0).respawn_attempts(), 0);
    assert_eq!(
        world.trace_of("svc"),
        vec![
            TaskState::Created,
            TaskState::Waiting,
            TaskState::Running(0),
            TaskState::Terminating,
            TERMINATED,
            TaskState::Waiting,
            TaskState::Running(0),
        ]
    );
}

#[test]
fn force_restart_does_not_wait() {
    let mut world = World::new(vec![service("svc", "sleep 60")]);
    world.settle();
    let performed = world.control("force-restart svc");
    assert_eq!(performed.due, FollowUp::Nothing);
    assert_eq!(performed.signals.len(), 1);
    assert_eq!(performed.signals[0].signal, Signal::SIGKILL);
    assert_eq!(world.state("svc"), TaskState::Running(0));
    world.settle();
    assert_eq!(world.state("svc"), TaskState::Running(0));
    assert_eq!(world.spawns, vec![2]);
}

#[test]
fn built_in_tasks_run_as_routines() {
    let mut run_dir = TaskConfigYaml::with_payload("mount".to_string(), PayloadYaml::Service("echo".to_string()));
    run_dir.provides.push("fs::run".to_string());
    let (configs, _) = read_yaml_configs(vec![run_dir], get_built_in());
    let names: Vec<String> = configs.iter().map(|c| c.name.clone()).collect();
    assert_eq!(names, vec!["mount", "feature::fs::run", "builtin::ctl::create", "builtin::ctl::daemon"]);
    let mut world = World::new(configs);
    world.settle();
    for name in names {
        assert_eq!(world.state(&name), DONE, "{}", name);
    }
    assert_eq!(world.spawns, vec![1, 0, 0, 0]);
}

#[test]
fn shutdown_spares_the_control_daemon() {
    let (configs, _) = read_yaml_configs(
        vec![
            TaskConfigYaml::with_payload("svc".to_string(), PayloadYaml::Service("sleep 60".to_string())),
            TaskConfigYaml::with_payload("done".to_string(), PayloadYaml::Service("echo".to_string())),
            TaskConfigYaml::with_payload(
                "builtin::ctl::daemon".to_string(),
                PayloadYaml::Service("sleep 60".to_string()),
            ),
        ],
        Vec::new(),
    );
    let mut world = World::new(configs);
    world.settle();
    let svc = world.place("svc");
    let performed = world.control("system poweroff");
    assert_eq!(
        performed.due,
        FollowUp::Reboot { command: alfad::action::SystemCommand::Poweroff }
    );
    assert_eq!(performed.signals.len(), 1);
    assert_eq!(performed.signals[0].signal, Signal::SIGTERM);
    assert_eq!(performed.awaiting, vec![svc]);
    assert_eq!(world.signals, vec![(svc, Signal::SIGTERM)]);
    assert_eq!(world.state("builtin::ctl::daemon"), TaskState::Running(0));
    world.settle();
    assert_eq!(world.state("svc"), TERMINATED);
    assert_eq!(world.state("done"), DONE);
    assert_eq!(world.state("builtin::ctl::daemon"), TaskState::Running(0));
}
