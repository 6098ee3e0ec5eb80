use alfad::action::{Action, ActionError, SystemCommand};

fn text(action: &Action) -> String {
    action.to_string()
}

fn same(a: &Action, b: &Action) -> bool {
    match (a, b) {
        (Action::Kill { task: t1, force: f1 }, Action::Kill { task: t2, force: f2 }) => t1 == t2 && f1 == f2,
        (Action::Deactivate { task: t1, force: f1 }, Action::Deactivate { task: t2, force: f2 }) => {
            t1 == t2 && f1 == f2
        }
        (Action::Start { task: t1, force: f1 }, Action::Start { task: t2, force: f2 }) => t1 == t2 && f1 == f2,
        (Action::Restart { task: t1, force: f1 }, Action::Restart { task: t2, force: f2 }) => {
            t1 == t2 && f1 == f2
        }
        (Action::System { command: c1 }, Action::System { command: c2 }) => c1 == c2,
        _ => false,
    }
}

fn every_action(task: &str) -> Vec<Action> {
    let mut all = Vec::new();
    for force in [false, true] {
        all.push(Action::Kill { task: task.to_string(), force });
        all.push(Action::Deactivate { task: task.to_string(), force });
        all.push(Action::Start { task: task.to_string(), force });
        all.push(Action::Restart { task: task.to_string(), force });
    }
    all.push(Action::System { command: SystemCommand::Poweroff });
    all.push(Action::System { command: SystemCommand::Restart });
    all.push(Action::System { command: SystemCommand::Halt });
    all
}

#[test]
fn every_verb_is_read() {
    let cases: Vec<(&str, Action)> = vec![
        ("kill svc", Action::Kill { task: "svc".to_string(), force: false }),
        ("force-kill svc", Action::Kill { task: "svc".to_string(), force: true }),
        ("deactivate svc", Action::Deactivate { task: "svc".to_string(), force: false }),
        ("force-deactivate svc", Action::Deactivate { task: "svc".to_string(), force: true }),
        ("start svc", Action::Start { task: "svc".to_string(), force: false }),
        ("force-start svc", Action::Start { task: "svc".to_string(), force: true }),
        ("restart svc", Action::Restart { task: "svc".to_string(), force: false }),
        ("force-restart svc", Action::Restart { task: "svc".to_string(), force: true }),
        ("system poweroff", Action::System { command: SystemCommand::Poweroff }),
        ("system restart", Action::System { command: SystemCommand::Restart }),
        ("system halt", Action::System { command: SystemCommand::Halt }),
    ];
    for (line, expected) in cases {
        let parsed = Action::from_str(line).unwrap();
        assert!(same(&parsed, &expected), "{} gave {:?}", line, parsed);
    }
}

#[test]
fn every_action_is_written_as_verb_space_argument() {
    let lines: Vec<String> = every_action("web").iter().map(text).collect();
    assert_eq!(
        lines,
        vec![
            "kill web",
            "deactivate web",
            "start web",
            "restart web",
            "force-kill web",
            "force-deactivate web",
            "force-start web",
            "force-restart web",
            "system poweroff",
            "system restart",
            "system halt",
        ]
    );
}

#[test]
fn reading_what_was_written_gives_the_action_back() {
    for task in ["a", "group::net", "with space", " lead", "", "kill", "x y z"] {
        for action in every_action(task) {
            let line = action.to_string();
            let back = Action::from_str(&line).unwrap();
            assert!(same(&action, &back), "{:?} -> {:?} -> {:?}", action, line, back);
        }
    }
}

#[test]
fn writing_what_was_read_gives_the_line_back() {
    for line in ["kill a", "force-start  two  spaces", "system halt", "restart "] {
        assert_eq!(Action::from_str(line).unwrap().to_string(), line);
    }
}

#[test]
fn deactivate_is_a_verb_of_its_own() {
    let action = Action::from_str("deactivate x").unwrap();
    assert!(matches!(action, Action::Deactivate { ref task, force: false } if task == "x"));
    assert!(!matches!(action, Action::Kill { .. }));
}

#[test]
fn the_argument_is_all_that_follows_the_first_space() {
    let action = Action::from_str("kill my task").unwrap();
    assert!(matches!(action, Action::Kill { ref task, force: false } if task == "my task"));
    let empty = Action::from_str("start ").unwrap();
    assert!(matches!(empty, Action::Start { ref task, force: false } if task.is_empty()));
}

#[test]
fn a_line_without_a_space_is_a_syntax_error() {
    for line in ["kill", "", "poweroff", "system"] {
        let error = Action::from_str(line).unwrap_err();
        assert!(matches!(error, ActionError::SyntaxError(ref s) if s == line), "{:?}", error);
    }
    assert_eq!(
        Action::from_str("kill").unwrap_err().message(),
        "Could not parse command 'kill'"
    );
}

#[test]
fn an_unknown_verb_is_not_found() {
    for line in ["stop svc", "Kill svc", " kill svc", "force svc", "kill-force svc", "force-system halt"] {
        let error = Action::from_str(line).unwrap_err();
        assert!(matches!(error, ActionError::ActionNotFound(ref s) if s == line), "{:?}", error);
    }
    assert_eq!(
        Action::from_str("stop svc").unwrap_err().message(),
        "Unknown action 'stop svc'"
    );
}

#[test]
fn an_unknown_system_command_is_not_found() {
    for line in ["system reboot", "system ", "system halt ", "system power off"] {
        let error = Action::from_str(line).unwrap_err();
        assert!(matches!(error, ActionError::ActionNotFound(ref s) if s == line), "{:?}", error);
    }
}

#[test]
fn from_parts_reports_the_whole_line() {
    let error = Action::from_parts("bogus", "x", "bogus x").unwrap_err();
    assert!(matches!(error, ActionError::ActionNotFound(ref s) if s == "bogus x"));
    let action = Action::from_parts("force-kill", "x", "ignored").unwrap();
    assert!(matches!(action, Action::Kill { ref task, force: true } if task == "x"));
}

#[test]
fn system_commands_have_lower_case_names() {
    assert_eq!(SystemCommand::Poweroff.name(), "poweroff");
    assert_eq!(SystemCommand::Restart.name(), "restart");
    assert_eq!(SystemCommand::Halt.name(), "halt");
    assert_eq!(SystemCommand::from_str("poweroff"), Some(SystemCommand::Poweroff));
    assert_eq!(SystemCommand::from_str("restart"), Some(SystemCommand::Restart));
    assert_eq!(SystemCommand::from_str("halt"), Some(SystemCommand::Halt));
    assert_eq!(SystemCommand::from_str("Halt"), None);
    assert_eq!(SystemCommand::from_str(""), None);
}

#[test]
fn verbs() {
    let verbs: Vec<&str> = every_action("t").iter().map(|a| a.verb()).collect();
    assert_eq!(
        verbs,
        vec![
            "kill",
            "deactivate",
            "start",
            "restart",
            "force-kill",
            "force-deactivate",
            "force-start",
            "force-restart",
            "system",
            "system",
            "system"
        ]
    );
}

#[test]
fn action_error_messages() {
    assert_eq!(
        ActionError::TaskNotFound("ghost".to_string()).message(),
        "Task does not exist 'ghost'"
    );
    assert_eq!(
        ActionError::MainAppletCalled.message(),
        "Do not call this binary directly as \"alfad\"! Name or link to an applet expected instead.\nThe following applets are available:\n\n  - init\n  - alfad-ctl\n  - alfad-compile\n"
    );
}
