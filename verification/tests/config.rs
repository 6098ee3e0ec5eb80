use alfad::action::{ActionError, SystemCommand};
use alfad::applet::{applet, Applet};
use alfad::builtin::ctl::{
    get_built_in, wait_for_commands, CreateCtlPipe, PipeAction, PipeEvent, WaitForCommands,
    CREATE_CTL_PIPE, FEATURE_RUN, WAIT_FOR_COMMANDS,
};
use alfad::builtin::{routine_outcome, BuiltInService, BuiltInServiceManager, RoutinePoll, IntoConfig};
use alfad::command_line::CommandLineError;
use alfad::config::payload::Payload;
use alfad::config::yaml::{OneOrMany, PayloadYaml, RespawnYaml, TaskConfigYaml};
use alfad::config::{
    compile, convert, drop_errors, read_binary, read_config, read_yaml_configs, Respawn, TaskConfig,
};
use alfad::def::{
    APLT_COMPILE, APLT_CTL, APLT_INIT, APLT_MAIN, CTL_CREATE, CTL_DAEMON, DIR_CFG, DIR_CFG_D, DIR_RUN,
    FILE_CFG_BT, KILL_WAIT_MS, PIPE_RETRY_SECS,
};
use alfad::init::Alfad;
use alfad::perform_action::FollowUp;
use alfad::task::{ContextMap, ExitReason, TaskState};
use alfad::VERSION;
use std::ops::ControlFlow;

fn written(name: &str, commands: &str) -> TaskConfigYaml {
    TaskConfigYaml::with_payload(name.to_string(), PayloadYaml::Service(commands.to_string()))
}

fn names(configs: &[TaskConfig]) -> Vec<String> {
    configs.iter().map(|c| c.name.clone()).collect()
}

#[test]
fn constants() {
    assert_eq!(VERSION, "0.1");
    assert_eq!(APLT_MAIN, "alfad");
    assert_eq!(APLT_CTL, "alfad-ctl");
    assert_eq!(APLT_COMPILE, "alfad-compile");
    assert_eq!(APLT_INIT, "init");
    assert_eq!(DIR_RUN, "/run/var");
    assert_eq!(DIR_CFG, "/etc/alfad");
    assert_eq!(DIR_CFG_D, "/etc/alfad/alfad.d");
    assert_eq!(FILE_CFG_BT, "alfad.d.cache");
    assert_eq!(CTL_DAEMON, "builtin::ctl::daemon");
    assert_eq!(CTL_CREATE, "builtin::ctl::create");
    assert_eq!(KILL_WAIT_MS, 1000);
    assert_eq!(PIPE_RETRY_SECS, 10);
}

#[test]
fn defaults() {
    assert_eq!(Respawn::default(), Respawn::No);
    assert_eq!(RespawnYaml::default(), RespawnYaml::No);
    assert!(matches!(PayloadYaml::default(), PayloadYaml::Service(ref s) if s.is_empty()));
    let empty = TaskConfigYaml::default();
    assert!(empty.name.is_empty());
    assert!(matches!(empty.cmd, PayloadYaml::Service(ref s) if s.is_empty()));
    let new = TaskConfigYaml::new("n".to_string());
    assert_eq!(new.name, "n");
    assert!(new.before.is_empty() && new.with.is_empty() && new.provides.is_empty());
    assert_eq!(new.respawn, RespawnYaml::No);
    assert_eq!(new.group, None);
    assert!(new.after.to_names().is_empty());
    let config = TaskConfig::new("c".to_string());
    assert_eq!(config.name, "c");
    assert!(config.after.is_empty() && config.with.is_empty() && config.provides.is_empty());
    assert_eq!(config.respawn, Respawn::No);
    assert_eq!(config.group, None);
    assert!(matches!(config.payload, Payload::Service(ref l) if l.len() == 0));
}

#[test]
fn respawn_policies_convert() {
    assert_eq!(Respawn::from(RespawnYaml::No), Respawn::No);
    assert_eq!(Respawn::from(RespawnYaml::Retry(0)), Respawn::Retry(0));
    assert_eq!(Respawn::from(RespawnYaml::Retry(7)), Respawn::Retry(7));
}

#[test]
fn a_written_definition_converts_field_by_field() {
    let mut y = written("svc", ":first $A\n-second");
    y.with.push("peer".to_string());
    y.after("base");
    y.after("more");
    y.respawn = RespawnYaml::Retry(2);
    y.group = Some("g".to_string());
    y.provides.push("f".to_string());
    y.before.push("ignored here".to_string());
    let config = y.into_config().unwrap();
    assert_eq!(config.name, "svc");
    assert_eq!(config.with, ["peer"]);
    assert_eq!(config.after, ["base", "more"]);
    assert_eq!(config.respawn, Respawn::Retry(2));
    assert_eq!(config.group.as_deref(), Some("g"));
    assert_eq!(config.provides, ["f"]);
    match &config.payload {
        Payload::Service(lines) => {
            assert_eq!(lines.len(), 2);
            assert_eq!(lines.get(0).unwrap().args, ["first", "$A"]);
            assert!(lines.get(0).unwrap().ignore_env);
            assert!(lines.get(1).unwrap().ignore_return);
        }
        other => panic!("unexpected payload {:?}", other),
    }
}

#[test]
fn markers_and_routines_convert_as_they_are() {
    let marker = TaskConfigYaml::with_payload("m".to_string(), PayloadYaml::Marker).into_config().unwrap();
    assert!(marker.payload.is_marker());
    let routine =
        TaskConfigYaml::with_payload("r".to_string(), PayloadYaml::Builtin(BuiltInService { id: 9 }))
            .into_config()
            .unwrap();
    assert!(matches!(routine.payload, Payload::Builtin(BuiltInService { id: 9 })));
}

#[test]
fn commands_that_cannot_be_read_fail_the_conversion() {
    let error = written("bad", "echo ok\necho 'open").into_config().unwrap_err();
    assert!(matches!(error, CommandLineError::InvalidCommand(ref s) if s == "echo 'open"));
}

#[test]
fn errors_are_dropped() {
    let ok: Result<u8, String> = Ok(3);
    let bad: Result<u8, String> = Err("no".to_string());
    assert_eq!(drop_errors(ok), Some(3));
    assert_eq!(drop_errors(bad), None);
    let converted = convert(vec![written("a", "x"), written("bad", "\"open"), written("b", "y")]);
    assert_eq!(names(&converted), ["a", "b"]);
    assert!(convert(Vec::new()).is_empty());
}

#[test]
fn definitions_are_assembled_and_sorted() {
    let mut web = written("web", "httpd");
    web.after("feature::network");
    web.group = Some("servers".to_string());
    let mut net = written("net", "ifup");
    net.provides.push("network".to_string());
    net.before.push("dns".to_string());
    let dns = written("dns", "named");
    let mut db = written("db", "dbd");
    db.group = Some("servers".to_string());
    db.with.push("net".to_string());
    let broken = written("broken", "'");
    let (configs, looping) = read_yaml_configs(vec![web, net, dns, db, broken], Vec::new());
    assert!(looping.is_empty());
    // `net` has no dependencies. The first round holds what nothing in the
    // graph comes before: the marker that `web` waits for. The second round
    // holds the tasks that waited for `net` or for the marker, in the order
    // of their definition. The marker that nothing waits for comes last.
    assert_eq!(
        names(&configs),
        ["net", "feature::network", "web", "dns", "db", "group::servers"]
    );
    let dns = configs.iter().find(|c| c.name == "dns").unwrap();
    assert_eq!(dns.after, ["net"]);
    let group = configs.iter().find(|c| c.name == "group::servers").unwrap();
    assert!(group.payload.is_marker());
    assert_eq!(group.after, ["web", "db"]);
    let feature = configs.iter().find(|c| c.name == "feature::network").unwrap();
    assert_eq!(feature.after, ["net"]);
}

#[test]
fn assembly_reports_loops() {
    let mut a = written("a", "x");
    a.after("b");
    let mut b = written("b", "y");
    b.before.push("b".to_string());
    b.after("a");
    let (configs, looping) = read_yaml_configs(vec![a, b, written("c", "z")], Vec::new());
    assert_eq!(names(&configs), ["c", "a", "b"]);
    assert_eq!(looping, ["a", "b"]);
}

#[test]
fn a_compiled_configuration_needs_the_running_version() {
    let configs = vec![TaskConfig::new("a".to_string())];
    assert_eq!(names(&read_binary("0.1", configs).unwrap()), ["a"]);
    for version in ["0.2", "", "0.1 ", "0.10"] {
        assert!(read_binary(version, vec![TaskConfig::new("a".to_string())]).is_none());
    }
}

#[test]
fn a_compiled_configuration_is_used_as_it_is() {
    let compiled = vec![TaskConfig::new("z".to_string()), TaskConfig::new("a".to_string())];
    let configs = read_config(Some(compiled), vec![written("ignored", "x")], get_built_in());
    assert_eq!(names(&configs), ["z", "a", "builtin::ctl::create", "builtin::ctl::daemon"]);
    let fresh = read_config(None, vec![written("b", "x"), written("a", "y")], Vec::new());
    assert_eq!(names(&fresh), ["b", "a"]);
}

#[test]
fn compiling_leaves_the_built_in_tasks_out() {
    let (configs, _) = read_yaml_configs(vec![written("a", "x")], get_built_in());
    assert_eq!(names(&configs), ["a", "builtin::ctl::create", "builtin::ctl::daemon"]);
    let compiled = compile(&configs, &get_built_in());
    assert_eq!(names(&compiled), ["a"]);
    assert_eq!(names(&compile(&configs, &Vec::new())).len(), 3);
    // reading the compiled list back and adding the built-in tasks gives
    // the tasks that a fresh start makes of the definitions
    let again = read_config(Some(compiled), Vec::new(), get_built_in());
    assert_eq!(names(&again), names(&configs));
}

#[test]
fn the_built_in_tasks() {
    let create = CreateCtlPipe.into_config();
    assert_eq!(create.name, "builtin::ctl::create");
    assert!(matches!(create.cmd, PayloadYaml::Builtin(BuiltInService { id: CREATE_CTL_PIPE })));
    assert_eq!(create.after.to_names(), [FEATURE_RUN]);
    let daemon = WaitForCommands.into_config();
    assert_eq!(daemon.name, "builtin::ctl::daemon");
    assert!(matches!(daemon.cmd, PayloadYaml::Builtin(BuiltInService { id: WAIT_FOR_COMMANDS })));
    assert_eq!(daemon.after.to_names(), ["builtin::ctl::create"]);
    assert!(matches!(CreateCtlPipe::box_fn(), PayloadYaml::Builtin(BuiltInService { id: 0 })));
    assert!(matches!(WaitForCommands::box_fn(), PayloadYaml::Builtin(BuiltInService { id: 1 })));
    let both: Vec<String> = get_built_in().iter().map(|y| y.name.clone()).collect();
    assert_eq!(both, ["builtin::ctl::create", "builtin::ctl::daemon"]);
}

#[test]
fn one_or_many_becomes_a_list() {
    let one: OneOrMany<String, Vec<String>> = OneOrMany::One("one".to_string());
    assert_eq!(one.into_list(), ["one"]);
    let many: OneOrMany<String, Vec<String>> =
        OneOrMany::Many(vec!["one".to_string(), "two".to_string(), "three".to_string()]);
    assert_eq!(many.into_list(), ["one", "two", "three"]);
    let none: OneOrMany<u8, Vec<u8>> = OneOrMany::Many(Vec::new());
    assert!(none.into_list().is_empty());
}

#[test]
fn the_supervisor_starts_with_one_context_per_task() {
    let alfad = Alfad { builtin: get_built_in() };
    let map = alfad.run(None, vec![written("b", "x"), written("a", "y")]);
    assert_eq!(map.len(), 4);
    assert_eq!(map.find("b"), Some(0));
    assert_eq!(map.find("a"), Some(1));
    assert_eq!(map.find("builtin::ctl::create"), Some(2));
    assert_eq!(map.find("builtin::ctl::daemon"), Some(3));
    for t in 0..4 {
        assert_eq!(map.state(t), TaskState::Created);
    }
    let compiled = Alfad { builtin: Vec::new() }.run(Some(vec![TaskConfig::new("only".to_string())]), Vec::new());
    assert_eq!(compiled.len(), 1);
}

#[test]
fn the_manager_stops_a_terminating_routine() {
    let mut map = ContextMap::new(vec![TaskConfig::new("r".to_string())]);
    let manager = BuiltInServiceManager { function: BuiltInService { id: 4 }, context: 0 };
    assert!(matches!(manager.poll(&mut map, 8), RoutinePoll::Poll(BuiltInService { id: 4 })));
    assert_eq!(map.wake(0), Some(8));
    map.update_state(0, TaskState::Terminating);
    let polled = manager.poll(&mut map, 8);
    assert!(matches!(
        polled,
        RoutinePoll::Ready(ControlFlow::Break(TaskState::Concluded(ExitReason::Terminated)))
    ));
    assert_eq!(map.wake(0), None);
    assert_eq!(routine_outcome(true), ControlFlow::Continue(()));
    assert_eq!(
        routine_outcome(false),
        ControlFlow::Break(TaskState::Concluded(ExitReason::Failed))
    );
}

#[test]
fn the_control_daemon_reads_lines_until_it_is_told_to_stop() {
    let mut svc = TaskConfig::new("svc".to_string());
    svc.payload = Payload::from_str("sleep 60").unwrap();
    let mut map = ContextMap::new(vec![svc, TaskConfig::new("builtin::ctl::daemon".to_string())]);
    let daemon = 1;
    map.update_state(0, TaskState::Running(0));

    let step = wait_for_commands(&mut map, daemon, PipeEvent::Begin);
    assert_eq!(step.action, PipeAction::Open);
    assert!(step.performed.is_none());
    let step = wait_for_commands(&mut map, daemon, PipeEvent::OpenFailed);
    assert_eq!(step.action, PipeAction::Sleep(10));
    let step = wait_for_commands(&mut map, daemon, PipeEvent::Opened);
    assert_eq!(step.action, PipeAction::Read);

    let step = wait_for_commands(&mut map, daemon, PipeEvent::Line("  kill svc \n".to_string()));
    assert_eq!(step.action, PipeAction::Read);
    let performed = step.performed.unwrap().unwrap();
    assert_eq!(performed.due, FollowUp::Nothing);
    assert!(performed.signals.is_empty());
    assert_eq!(map.state(0), TaskState::Terminating);

    let step = wait_for_commands(&mut map, daemon, PipeEvent::Line("nonsense\n".to_string()));
    assert_eq!(step.action, PipeAction::Read);
    assert!(step.performed.unwrap().is_err());
    assert_eq!(map.state(0), TaskState::Terminating);

    // at the end of the pipe the daemon sleeps, then opens the pipe again
    let step = wait_for_commands(&mut map, daemon, PipeEvent::Closed);
    assert_eq!(step.action, PipeAction::Sleep(10));
    let step = wait_for_commands(&mut map, daemon, PipeEvent::Begin);
    assert_eq!(step.action, PipeAction::Open);

    map.wait_for_conclusion("builtin::ctl::daemon", 0);
    map.update_state(daemon, TaskState::Terminating);
    map.wait_for_conclusion("builtin::ctl::daemon", 5);
    let step = wait_for_commands(&mut map, daemon, PipeEvent::Closed);
    assert_eq!(step.action, PipeAction::Sleep(10));
    assert_eq!(map.state(daemon), TaskState::Terminating);
    let step = wait_for_commands(&mut map, daemon, PipeEvent::Begin);
    assert_eq!(step.action, PipeAction::Stop);
    assert_eq!(step.wake, vec![5]);
    assert_eq!(map.state(daemon), TaskState::Concluded(ExitReason::Terminated));
}

#[test]
fn the_binary_acts_by_its_name() {
    assert_eq!(applet("init").unwrap(), Applet::Init);
    assert_eq!(applet("alfad-ctl").unwrap(), Applet::Ctl);
    assert_eq!(applet("alfad-compile").unwrap(), Applet::Compile);
    assert_eq!(applet("poweroff").unwrap(), Applet::System(SystemCommand::Poweroff));
    assert_eq!(applet("halt").unwrap(), Applet::System(SystemCommand::Halt));
    assert_eq!(applet("restart").unwrap(), Applet::System(SystemCommand::Restart));
    assert!(matches!(applet("alfad").unwrap_err(), ActionError::MainAppletCalled));
    assert!(matches!(
        applet("shutdown").unwrap_err(),
        ActionError::ActionNotFound(ref line) if line == "system shutdown"
    ));
    assert!(matches!(applet("").unwrap_err(), ActionError::ActionNotFound(ref line) if line == "system "));
}
