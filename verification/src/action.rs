//! The actions of the control channel and their one-line text form.

use crate::text::{find_char, lemma_index_of_first_is, str_eq};
use vstd::prelude::*;

verus! {

/// What to do with the whole system.
#[derive(Debug, Clone, Copy, PartialEq, Eq, Structural)]
pub enum SystemCommand {
    Poweroff,
    Restart,
    Halt,
}

/// A request to the supervisor.
#[derive(Debug)]
pub enum Action {
    /// Kill a task; `force` sends SIGKILL instead of SIGTERM.
    Kill { task: String, force: bool },
    /// Kill a task and prevent respawn.
    Deactivate { task: String, force: bool },
    /// Start a task; `force` ignores conditions and starts immediately.
    Start { task: String, force: bool },
    /// Restart a task; `force` ignores conditions and restarts immediately.
    Restart { task: String, force: bool },
    /// Power the system off, restart it or halt it.
    System { command: SystemCommand },
}

/// An action, as a mathematical value.
pub enum ActionView {
    Kill { task: Seq<char>, force: bool },
    Deactivate { task: Seq<char>, force: bool },
    Start { task: Seq<char>, force: bool },
    Restart { task: Seq<char>, force: bool },
    System { command: SystemCommand },
}

impl View for Action {
    type V = ActionView;

    open spec fn view(&self) -> ActionView {
        match self {
            Action::Kill { task, force } => ActionView::Kill { task: task@, force: *force },
            Action::Deactivate { task, force } => ActionView::Deactivate { task: task@, force: *force },
            Action::Start { task, force } => ActionView::Start { task: task@, force: *force },
            Action::Restart { task, force } => ActionView::Restart { task: task@, force: *force },
            Action::System { command } => ActionView::System { command: *command },
        }
    }
}

/// Why an action line was not carried out.
#[derive(Debug)]
pub enum ActionError {
    /// The line has no space between a verb and its argument.
    SyntaxError(String),
    /// The verb, or the argument of `system`, is none that is known.
    ActionNotFound(String),
    /// No task has the name.
    TaskNotFound(String),
    /// The binary was called under its own name.
    MainAppletCalled,
}

/// An action error, as a mathematical value.
pub enum ActionErrorView {
    SyntaxError(Seq<char>),
    ActionNotFound(Seq<char>),
    TaskNotFound(Seq<char>),
    MainAppletCalled,
}

impl View for ActionError {
    type V = ActionErrorView;

    open spec fn view(&self) -> ActionErrorView {
        match self {
            ActionError::SyntaxError(s) => ActionErrorView::SyntaxError(s@),
            ActionError::ActionNotFound(s) => ActionErrorView::ActionNotFound(s@),
            ActionError::TaskNotFound(s) => ActionErrorView::TaskNotFound(s@),
            ActionError::MainAppletCalled => ActionErrorView::MainAppletCalled,
        }
    }
}

impl ActionError {
    /// The message shown for this error.
    pub fn message(&self) -> (r: String)
        ensures
            r@ == match self@ {
                ActionErrorView::SyntaxError(s) => "Could not parse command '"@ + s + "'"@,
                ActionErrorView::ActionNotFound(s) => "Unknown action '"@ + s + "'"@,
                ActionErrorView::TaskNotFound(s) => "Task does not exist '"@ + s + "'"@,
                ActionErrorView::MainAppletCalled =>
                    "Do not call this binary directly as \"alfad\"! Name or link to an applet expected instead.\nThe following applets are available:\n\n  - init\n  - alfad-ctl\n  - alfad-compile\n"@,
            },
    {
        match self {
            ActionError::SyntaxError(s) => String::from_str("Could not parse command '").concat(
                s.as_str(),
            ).concat("'"),
            ActionError::ActionNotFound(s) => String::from_str("Unknown action '").concat(
                s.as_str(),
            ).concat("'"),
            ActionError::TaskNotFound(s) => String::from_str("Task does not exist '").concat(
                s.as_str(),
            ).concat("'"),
            ActionError::MainAppletCalled => String::from_str(
                "Do not call this binary directly as \"alfad\"! Name or link to an applet expected instead.\nThe following applets are available:\n\n  - init\n  - alfad-ctl\n  - alfad-compile\n",
            ),
        }
    }
}

impl SystemCommand {
    /// The word for this command on an action line.
    pub open spec fn text(self) -> Seq<char> {
        match self {
            SystemCommand::Poweroff => "poweroff"@,
            SystemCommand::Restart => "restart"@,
            SystemCommand::Halt => "halt"@,
        }
    }

    /// The word for this command on an action line.
    pub fn name(&self) -> (r: &'static str)
        ensures
            r@ == self.text(),
    {
        match self {
            SystemCommand::Poweroff => "poweroff",
            SystemCommand::Restart => "restart",
            SystemCommand::Halt => "halt",
        }
    }

    /// The command that `word` stands for.
    pub open spec fn parse(word: Seq<char>) -> Option<SystemCommand> {
        if word == "poweroff"@ {
            Some(SystemCommand::Poweroff)
        } else if word == "restart"@ {
            Some(SystemCommand::Restart)
        } else if word == "halt"@ {
            Some(SystemCommand::Halt)
        } else {
            None
        }
    }

    /// The command that `word` stands for, if it is one.
    pub fn from_str(word: &str) -> (r: Option<SystemCommand>)
        ensures
            r == Self::parse(word@),
    {
        if str_eq(word, "poweroff") {
            Some(SystemCommand::Poweroff)
        } else if str_eq(word, "restart") {
            Some(SystemCommand::Restart)
        } else if str_eq(word, "halt") {
            Some(SystemCommand::Halt)
        } else {
            None
        }
    }
}

/// The action that a verb and its argument stand for.
pub open spec fn action_of(verb: Seq<char>, argument: Seq<char>) -> Option<ActionView> {
    if verb == "kill"@ {
        Some(ActionView::Kill { task: argument, force: false })
    } else if verb == "force-kill"@ {
        Some(ActionView::Kill { task: argument, force: true })
    } else if verb == "deactivate"@ {
        Some(ActionView::Deactivate { task: argument, force: false })
    } else if verb == "force-deactivate"@ {
        Some(ActionView::Deactivate { task: argument, force: true })
    } else if verb == "restart"@ {
        Some(ActionView::Restart { task: argument, force: false })
    } else if verb == "force-restart"@ {
        Some(ActionView::Restart { task: argument, force: true })
    } else if verb == "start"@ {
        Some(ActionView::Start { task: argument, force: false })
    } else if verb == "force-start"@ {
        Some(ActionView::Start { task: argument, force: true })
    } else if verb == "system"@ {
        match SystemCommand::parse(argument) {
            Some(command) => Some(ActionView::System { command }),
            None => None,
        }
    } else {
        None
    }
}

/// What an action line means. The verb ends at the first space; all that
/// follows is its argument.
pub open spec fn parse_action(s: Seq<char>) -> Result<ActionView, ActionErrorView> {
    match s.index_of_first(' ') {
        None => Err(ActionErrorView::SyntaxError(s)),
        Some(i) => match action_of(s.subrange(0, i), s.subrange(i + 1, s.len() as int)) {
            Some(action) => Ok(action),
            None => Err(ActionErrorView::ActionNotFound(s)),
        },
    }
}

/// The verb of an action.
pub open spec fn verb_of(action: ActionView) -> Seq<char> {
    match action {
        ActionView::Kill { force, .. } => if force {
            "force-kill"@
        } else {
            "kill"@
        },
        ActionView::Deactivate { force, .. } => if force {
            "force-deactivate"@
        } else {
            "deactivate"@
        },
        ActionView::Start { force, .. } => if force {
            "force-start"@
        } else {
            "start"@
        },
        ActionView::Restart { force, .. } => if force {
            "force-restart"@
        } else {
            "restart"@
        },
        ActionView::System { .. } => "system"@,
    }
}

/// The argument of an action.
pub open spec fn argument_of(action: ActionView) -> Seq<char> {
    match action {
        ActionView::Kill { task, .. } => task,
        ActionView::Deactivate { task, .. } => task,
        ActionView::Start { task, .. } => task,
        ActionView::Restart { task, .. } => task,
        ActionView::System { command } => command.text(),
    }
}

/// The line that stands for an action: verb, one space, argument.
pub open spec fn action_text(action: ActionView) -> Seq<char> {
    verb_of(action) + " "@ + argument_of(action)
}

impl Action {
    /// The action for a verb and its argument; `line` is the whole line, for
    /// the error.
    pub fn from_parts(verb: &str, argument: &str, line: &str) -> (r: Result<Action, ActionError>)
        ensures
            match action_of(verb@, argument@) {
                Some(action) => r matches Ok(a) && a@ == action,
                None => r matches Err(e) && e@ == ActionErrorView::ActionNotFound(line@),
            },
    {
        if str_eq(verb, "kill") {
            Ok(Action::Kill { task: String::from_str(argument), force: false })
        } else if str_eq(verb, "force-kill") {
            Ok(Action::Kill { task: String::from_str(argument), force: true })
        } else if str_eq(verb, "deactivate") {
            Ok(Action::Deactivate { task: String::from_str(argument), force: false })
        } else if str_eq(verb, "force-deactivate") {
            Ok(Action::Deactivate { task: String::from_str(argument), force: true })
        } else if str_eq(verb, "restart") {
            Ok(Action::Restart { task: String::from_str(argument), force: false })
        } else if str_eq(verb, "force-restart") {
            Ok(Action::Restart { task: String::from_str(argument), force: true })
        } else if str_eq(verb, "start") {
            Ok(Action::Start { task: String::from_str(argument), force: false })
        } else if str_eq(verb, "force-start") {
            Ok(Action::Start { task: String::from_str(argument), force: true })
        } else if str_eq(verb, "system") {
            match SystemCommand::from_str(argument) {
                Some(command) => Ok(Action::System { command }),
                None => Err(ActionError::ActionNotFound(String::from_str(line))),
            }
        } else {
            Err(ActionError::ActionNotFound(String::from_str(line)))
        }
    }

    /// Reads one action line.
    pub fn from_str(s: &str) -> (r: Result<Action, ActionError>)
        ensures
            match parse_action(s@) {
                Ok(action) => r matches Ok(a) && a@ == action,
                Err(error) => r matches Err(e) && e@ == error,
            },
    {
        match find_char(s, ' ') {
            None => Err(ActionError::SyntaxError(String::from_str(s))),
            Some(i) => {
                proof {
                    s@.index_of_first_ensures(' ');
                }
                let n = s.unicode_len();
                let verb = s.substring_char(0, i);
                let argument = s.substring_char(i + 1, n);
                Self::from_parts(verb, argument, s)
            },
        }
    }

    /// The verb of this action.
    pub fn verb(&self) -> (r: &'static str)
        ensures
            r@ == verb_of(self@),
    {
        match self {
            Action::Kill { force, .. } => if *force {
                "force-kill"
            } else {
                "kill"
            },
            Action::Deactivate { force, .. } => if *force {
                "force-deactivate"
            } else {
                "deactivate"
            },
            Action::Start { force, .. } => if *force {
                "force-start"
            } else {
                "start"
            },
            Action::Restart { force, .. } => if *force {
                "force-restart"
            } else {
                "restart"
            },
            Action::System { .. } => "system",
        }
    }

    /// The line that stands for this action.
    pub fn to_string(&self) -> (r: String)
        ensures
            r@ == action_text(self@),
    {
        let head = String::from_str(self.verb()).concat(" ");
        match self {
            Action::Kill { task, .. } => head.concat(task.as_str()),
            Action::Deactivate { task, .. } => head.concat(task.as_str()),
            Action::Start { task, .. } => head.concat(task.as_str()),
            Action::Restart { task, .. } => head.concat(task.as_str()),
            Action::System { command } => head.concat(command.name()),
        }
    }
}

/// No verb holds a space, so the first space of a line ends its verb.
proof fn lemma_verb_has_no_space(action: ActionView)
    ensures
        forall|j: int| 0 <= j < verb_of(action).len() ==> verb_of(action)[j] != ' ',
        verb_of(action).len() > 0,
{
    reveal_strlit("kill");
    reveal_strlit("force-kill");
    reveal_strlit("deactivate");
    reveal_strlit("force-deactivate");
    reveal_strlit("start");
    reveal_strlit("force-start");
    reveal_strlit("restart");
    reveal_strlit("force-restart");
    reveal_strlit("system");
}

/// A verb and the argument of its action stand for that action.
proof fn lemma_verb_names_action(action: ActionView)
    ensures
        action_of(verb_of(action), argument_of(action)) == Some(action),
{
    reveal_strlit("kill");
    reveal_strlit("force-kill");
    reveal_strlit("deactivate");
    reveal_strlit("force-deactivate");
    reveal_strlit("start");
    reveal_strlit("force-start");
    reveal_strlit("restart");
    reveal_strlit("force-restart");
    reveal_strlit("system");
    reveal_strlit("poweroff");
    reveal_strlit("halt");
    assert("kill"@.len() == 4);
    assert("force-kill"@.len() == 10);
    assert("deactivate"@.len() == 10);
    assert("force-deactivate"@.len() == 16);
    assert("restart"@.len() == 7);
    assert("force-restart"@.len() == 13);
    assert("start"@.len() == 5);
    assert("force-start"@.len() == 11);
    assert("system"@.len() == 6);
    assert("poweroff"@.len() == 8);
    assert("halt"@.len() == 4);
    assert("force-kill"@[0] == 'f');
    assert("deactivate"@[0] == 'd');
    match action {
        ActionView::Kill { task, force } => {},
        ActionView::Deactivate { task, force } => {},
        ActionView::Start { task, force } => {},
        ActionView::Restart { task, force } => {},
        ActionView::System { command } => {
            assert(SystemCommand::parse(command.text()) == Some(command));
        },
    }
}

/// Reading the line that stands for an action gives the action back.
pub proof fn lemma_parse_of_text(action: ActionView)
    ensures
        parse_action(action_text(action)) == Ok::<ActionView, ActionErrorView>(action),
{
    let verb = verb_of(action);
    let argument = argument_of(action);
    let line = action_text(action);
    reveal_strlit(" ");
    lemma_verb_has_no_space(action);
    lemma_verb_names_action(action);
    assert(line.len() == verb.len() + 1 + argument.len());
    assert(line[verb.len() as int] == ' ');
    assert forall|j: int| 0 <= j < verb.len() implies line[j] != ' ' by {
        assert(line[j] == verb[j]);
    }
    lemma_index_of_first_is(line, ' ', verb.len() as int);
    assert(line.subrange(0, verb.len() as int) =~= verb);
    assert(line.subrange(verb.len() as int + 1, line.len() as int) =~= argument);
}

/// An action read from a line and written out again gives the same line,
/// and a line that cannot be read is reported with the whole line.
pub proof fn lemma_text_of_parse(line: Seq<char>)
    ensures
        match parse_action(line) {
            Ok(action) => action_text(action) == line,
            Err(ActionErrorView::SyntaxError(s)) => s == line && !line.contains(' '),
            Err(ActionErrorView::ActionNotFound(s)) => s == line,
            Err(_) => false,
        },
{
    line.index_of_first_ensures(' ');
    reveal_strlit(" ");
    match line.index_of_first(' ') {
        None => {},
        Some(i) => {
            let verb = line.subrange(0, i);
            let argument = line.subrange(i + 1, line.len() as int);
            match action_of(verb, argument) {
                Some(action) => {
                    assert(verb_of(action) == verb);
                    assert(argument_of(action) == argument);
                    assert(verb + " "@ + argument =~= line);
                },
                None => {},
            }
        },
    }
}

} // verus!
