//! Command lines of a service: flag prefixes, word splitting, expansion of
//! environment variables, and what the outcome of a command means for the
//! task that ran it.

use crate::task::{ExitReason, TaskState};
use crate::text::{clone_names, str_eq};
use regex::{Captures, Regex};
use std::ops::ControlFlow;
use vstd::prelude::*;

verus! {

/// Most rounds of substitution that one argument may take.
pub const MAX_ENVVAR_RECURSION: usize = 100;

/// What marks a variable inside an argument: a dollar sign and an identifier.
pub const FIND_ENVVAR: &'static str = "\\$([_a-zA-Z0-9]+)";

/// The variables that arguments are expanded against, oldest entry first.
pub struct Environment {
    pub vars: Vec<(String, String)>,
}

impl View for Environment {
    type V = Seq<(Seq<char>, Seq<char>)>;

    open spec fn view(&self) -> Seq<(Seq<char>, Seq<char>)> {
        self.vars.deep_view()
    }
}

/// The value of `name`: that of the latest entry with this name.
pub open spec fn env_value(env: Seq<(Seq<char>, Seq<char>)>, name: Seq<char>) -> Option<Seq<char>>
    decreases env.len(),
{
    if env.len() == 0 {
        None
    } else if env.last().0 == name {
        Some(env.last().1)
    } else {
        env_value(env.drop_last(), name)
    }
}

/// What a reference to `name` is replaced by: its value, or nothing if unset.
pub open spec fn env_value_or_empty(env: Seq<(Seq<char>, Seq<char>)>, name: Option<Seq<char>>) -> Seq<
    char,
> {
    match name {
        Some(n) => match env_value(env, n) {
            Some(v) => v,
            None => Seq::empty(),
        },
        None => Seq::empty(),
    }
}

impl Environment {
    /// An environment without variables.
    pub fn new() -> (r: Environment)
        ensures
            r@ == Seq::<(Seq<char>, Seq<char>)>::empty(),
    {
        let r = Environment { vars: Vec::new() };
        assert(r@ =~= Seq::<(Seq<char>, Seq<char>)>::empty());
        r
    }

    /// Sets `name` to `value`; an earlier value of `name` is shadowed.
    pub fn set(&mut self, name: &str, value: &str)
        ensures
            final(self)@ == old(self)@.push((name@, value@)),
    {
        self.vars.push((String::from_str(name), String::from_str(value)));
        assert(self@ =~= old(self)@.push((name@, value@)));
    }

    /// The value of `name`, if it is set.
    pub fn get(&self, name: &str) -> (r: Option<String>)
        ensures
            r.deep_view() == env_value(self@, name@),
    {
        let mut i: usize = self.vars.len();
        assert(self@.take(i as int) =~= self@);
        while i > 0
            invariant
                i <= self.vars.len(),
                env_value(self@, name@) == env_value(self@.take(i as int), name@),
            decreases i,
        {
            i -= 1;
            let ghost prefix = self@.take(i as int + 1);
            assert(prefix.last() == self@[i as int]);
            assert(prefix.drop_last() =~= self@.take(i as int));
            assert(self@[i as int] == (self.vars[i as int].0@, self.vars[i as int].1@));
            if str_eq(self.vars[i].0.as_str(), name) {
                return Some(self.vars[i].1.clone());
            }
        }
        assert(self@.take(0).len() == 0);
        None
    }

    /// The text that replaces a reference to the variable `name`.
    pub fn capture_value(&self, name: Option<&str>) -> (r: String)
        ensures
            r@ == env_value_or_empty(self@, name.deep_view()),
    {
        match name {
            Some(n) => match self.get(n) {
                Some(v) => v,
                None => String::new(),
            },
            None => String::new(),
        }
    }
}

/// Why a command line could not be used.
#[derive(Debug)]
pub enum CommandLineError {
    /// The text is no well-formed command.
    InvalidCommand(String),
    /// The command has no program to run.
    EmptyCommand,
    /// Expansion of environment variables did not settle.
    MaximumRecursion,
    /// The operating system refused; the text is its message.
    IO(String),
}

/// A command line error, as a mathematical value.
pub enum CommandLineErrorView {
    InvalidCommand(Seq<char>),
    EmptyCommand,
    MaximumRecursion,
    IO(Seq<char>),
}

impl View for CommandLineError {
    type V = CommandLineErrorView;

    open spec fn view(&self) -> CommandLineErrorView {
        match self {
            CommandLineError::InvalidCommand(s) => CommandLineErrorView::InvalidCommand(s@),
            CommandLineError::EmptyCommand => CommandLineErrorView::EmptyCommand,
            CommandLineError::MaximumRecursion => CommandLineErrorView::MaximumRecursion,
            CommandLineError::IO(s) => CommandLineErrorView::IO(s@),
        }
    }
}

impl CommandLineError {
    /// The message shown for this error.
    pub fn message(&self) -> (r: String)
        ensures
            r@ == match self@ {
                CommandLineErrorView::InvalidCommand(s) => "Invalid Command: "@ + s,
                CommandLineErrorView::EmptyCommand => "Empty Command"@,
                CommandLineErrorView::MaximumRecursion =>
                    "Maximum recursion depth of 100 was reached during resolution of environment variables"@,
                CommandLineErrorView::IO(s) => s,
            },
    {
        match self {
            CommandLineError::InvalidCommand(s) => String::from_str("Invalid Command: ").concat(
                s.as_str(),
            ),
            CommandLineError::EmptyCommand => String::from_str("Empty Command"),
            CommandLineError::MaximumRecursion => String::from_str(
                "Maximum recursion depth of 100 was reached during resolution of environment variables",
            ),
            CommandLineError::IO(s) => s.clone(),
        }
    }
}

/// The view of a `Result` that holds text or a command line error.
pub open spec fn text_result_view(r: Result<String, CommandLineError>) -> Result<
    Seq<char>,
    CommandLineErrorView,
> {
    match r {
        Ok(s) => Ok(s@),
        Err(e) => Err(e@),
    }
}

/// The result of replacing, in `haystack`, every match of `pattern` by the
/// value that `env` gives to the name in the match's first group; `None`
/// where `pattern` is no regular expression.
pub uninterp spec fn regex_replaced(
    pattern: Seq<char>,
    haystack: Seq<char>,
    env: Seq<(Seq<char>, Seq<char>)>,
) -> Option<Seq<char>>;

/// Calls `Regex::new` on `pattern` and `Regex::replace_all` on `haystack`,
/// with a replacer that looks the first capture group up in `env`.
///
/// Trusted: the result is taken to depend on the three arguments alone, and
/// is known only by the name `regex_replaced`.
#[verifier::external_body]
fn replace_captures(pattern: &str, haystack: &str, env: &Environment) -> (r: Option<String>)
    ensures
        r.deep_view() == regex_replaced(pattern@, haystack@, env@),
{
    match Regex::new(pattern) {
        Ok(re) => Some(
            re.replace_all(
                haystack,
                |caps: &Captures| env.capture_value(caps.get(1).map(|m| m.as_str())),
            ).into_owned(),
        ),
        Err(_) => None,
    }
}

/// One round of substitution on one argument.
pub open spec fn expand_once(haystack: Seq<char>, env: Seq<(Seq<char>, Seq<char>)>) -> Option<
    Seq<char>,
> {
    regex_replaced(FIND_ENVVAR@, haystack, env)
}

/// Substitution repeated until a round changes nothing, for at most `rounds`
/// rounds.
pub open spec fn expand(haystack: Seq<char>, env: Seq<(Seq<char>, Seq<char>)>, rounds: nat) -> Result<
    Seq<char>,
    CommandLineErrorView,
>
    decreases rounds,
{
    if rounds == 0 {
        Err(CommandLineErrorView::MaximumRecursion)
    } else {
        match expand_once(haystack, env) {
            None => Err(CommandLineErrorView::InvalidCommand(haystack)),
            Some(new) => if new == haystack {
                Ok(new)
            } else {
                expand(new, env, (rounds - 1) as nat)
            },
        }
    }
}

/// How one round of substitution ended.
pub enum Round {
    /// The round changed nothing: this is the expanded text.
    Settled(String),
    /// The round changed the text: another round is due.
    Changed(String),
    /// The text could not be searched.
    Refused(String),
}

/// Judges one round of substitution: `haystack` went in, `replaced` came out.
pub fn settle(haystack: String, replaced: Option<String>) -> (r: Round)
    ensures
        match replaced {
            None => r matches Round::Refused(h) && h@ == haystack@,
            Some(new) => if new@ == haystack@ {
                r matches Round::Settled(s) && s@ == new@
            } else {
                r matches Round::Changed(s) && s@ == new@
            },
        },
{
    match replaced {
        None => Round::Refused(haystack),
        Some(new) => {
            if new == haystack {
                Round::Settled(new)
            } else {
                Round::Changed(new)
            }
        },
    }
}

/// Replaces each `$NAME` in `s` by the value of `NAME`, again and again until
/// nothing changes. Fails once `MAX_ENVVAR_RECURSION` rounds have not settled
/// the text.
pub fn insert_envvars(s: &str, env: &Environment) -> (r: Result<String, CommandLineError>)
    ensures
        text_result_view(r) == expand(s@, env@, MAX_ENVVAR_RECURSION as nat),
{
    let mut haystack = String::from_str(s);
    let mut round: usize = 0;
    while round < MAX_ENVVAR_RECURSION
        invariant
            round <= MAX_ENVVAR_RECURSION,
            expand(s@, env@, MAX_ENVVAR_RECURSION as nat) == expand(
                haystack@,
                env@,
                (MAX_ENVVAR_RECURSION - round) as nat,
            ),
        decreases MAX_ENVVAR_RECURSION - round,
    {
        let replaced = replace_captures(FIND_ENVVAR, haystack.as_str(), env);
        match settle(haystack, replaced) {
            Round::Settled(new) => {
                return Ok(new);
            },
            Round::Changed(new) => {
                haystack = new;
            },
            Round::Refused(old) => {
                return Err(CommandLineError::InvalidCommand(old));
            },
        }
        round += 1;
    }
    Err(CommandLineError::MaximumRecursion)
}

/// Expanded text is a fixed point of substitution, and expansion ends in one
/// of three ways: with such a fixed point, with the error of too many rounds,
/// or with the error of text that could not be searched.
pub proof fn lemma_expansion_is_fixed_point(
    haystack: Seq<char>,
    env: Seq<(Seq<char>, Seq<char>)>,
    rounds: nat,
)
    ensures
        match expand(haystack, env, rounds) {
            Ok(text) => expand_once(text, env) == Some(text),
            Err(CommandLineErrorView::MaximumRecursion) => true,
            Err(CommandLineErrorView::InvalidCommand(_)) => true,
            Err(_) => false,
        },
    decreases rounds,
{
    if rounds > 0 {
        match expand_once(haystack, env) {
            None => {},
            Some(new) => {
                if new != haystack {
                    lemma_expansion_is_fixed_point(new, env, (rounds - 1) as nat);
                }
            },
        }
    }
}

/// Text that is already a fixed point of substitution expands to itself.
pub proof fn lemma_fixed_point_expands_to_itself(
    haystack: Seq<char>,
    env: Seq<(Seq<char>, Seq<char>)>,
    rounds: nat,
)
    requires
        rounds > 0,
        expand_once(haystack, env) == Some(haystack),
    ensures
        expand(haystack, env, rounds) == Ok::<Seq<char>, CommandLineErrorView>(haystack),
{
}

/// `s` without a leading `prefix`, and whether there was one.
pub open spec fn strip_flag(s: Seq<char>, prefix: char) -> (Seq<char>, bool) {
    if s.len() > 0 && s[0] == prefix {
        (s.skip(1), true)
    } else {
        (s, false)
    }
}

/// Takes one leading `prefix` off `s` and says whether it was there.
pub fn prefix_to_flag(s: &str, prefix: char) -> (r: (&str, bool))
    ensures
        (r.0@, r.1) == strip_flag(s@, prefix),
{
    let n = s.unicode_len();
    if n > 0 && s.get_char(0) == prefix {
        let rest = s.substring_char(1, n);
        assert(rest@ =~= s@.skip(1));
        (rest, true)
    } else {
        (s, false)
    }
}

/// The words that `s` splits into by the rules of a POSIX shell; `None`
/// where `s` is malformed (an open quote, a dangling escape).
pub uninterp spec fn shell_words(s: Seq<char>) -> Option<Seq<Seq<char>>>;

/// Calls `shlex::split`.
///
/// Trusted: the result depends on the text alone, and is known only by the
/// name `shell_words`.
#[verifier::external_body]
fn split_words(s: &str) -> (r: Option<Vec<String>>)
    ensures
        r.deep_view() == shell_words(s@),
{
    shlex::split(s)
}

/// The lines of `s`, without their line endings.
pub uninterp spec fn text_lines(s: Seq<char>) -> Seq<Seq<char>>;

/// Calls `str::lines` and collects what it yields.
///
/// Trusted: the result depends on the text alone, and is known only by the
/// name `text_lines`.
#[verifier::external_body]
fn split_lines(s: &str) -> (r: Vec<String>)
    ensures
        r.deep_view() == text_lines(s@),
{
    s.lines().map(|line| line.to_owned()).collect()
}

/// One command of a service.
#[derive(Debug)]
pub struct CommandLine {
    /// The child starts with an empty environment.
    pub ignore_env: bool,
    /// The child's exit status counts as success, whatever it is.
    pub ignore_return: bool,
    /// Program and arguments, before expansion.
    pub args: Vec<String>,
}

/// A command line, as a mathematical value.
pub struct CommandLineView {
    pub ignore_env: bool,
    pub ignore_return: bool,
    pub args: Seq<Seq<char>>,
}

impl View for CommandLine {
    type V = CommandLineView;

    open spec fn view(&self) -> CommandLineView {
        CommandLineView {
            ignore_env: self.ignore_env,
            ignore_return: self.ignore_return,
            args: self.args.deep_view(),
        }
    }
}

impl DeepView for CommandLine {
    type V = CommandLineView;

    open spec fn deep_view(&self) -> CommandLineView {
        self@
    }
}

impl Clone for CommandLine {
    fn clone(&self) -> (r: Self)
        ensures
            r@ == self@,
    {
        CommandLine {
            ignore_env: self.ignore_env,
            ignore_return: self.ignore_return,
            args: clone_names(&self.args),
        }
    }
}

/// What to start for a command line: the outcome of `to_command`.
#[derive(Debug)]
pub struct CommandSpec {
    pub program: String,
    pub args: Vec<String>,
    /// Start the child with an empty environment.
    pub clear_env: bool,
}

/// What to start for a command line, as a mathematical value.
pub struct CommandSpecView {
    pub program: Seq<char>,
    pub args: Seq<Seq<char>>,
    pub clear_env: bool,
}

impl View for CommandSpec {
    type V = CommandSpecView;

    open spec fn view(&self) -> CommandSpecView {
        CommandSpecView {
            program: self.program@,
            args: self.args.deep_view(),
            clear_env: self.clear_env,
        }
    }
}

/// What `s` means as a command line: an optional `:` (ignore the
/// environment), then an optional `-` (ignore the exit status), then words.
pub open spec fn parse_command_line(s: Seq<char>) -> Result<CommandLineView, CommandLineErrorView> {
    let first = strip_flag(s, ':');
    let second = strip_flag(first.0, '-');
    match shell_words(second.0) {
        Some(args) => Ok(CommandLineView { ignore_env: first.1, ignore_return: second.1, args }),
        None => Err(CommandLineErrorView::InvalidCommand(second.0)),
    }
}

/// Each argument expanded, in order; the error of the first that fails.
pub open spec fn expand_all(args: Seq<Seq<char>>, env: Seq<(Seq<char>, Seq<char>)>) -> Result<
    Seq<Seq<char>>,
    CommandLineErrorView,
>
    decreases args.len(),
{
    if args.len() == 0 {
        Ok(Seq::empty())
    } else {
        match expand_all(args.drop_last(), env) {
            Err(e) => Err(e),
            Ok(done) => match expand(args.last(), env, MAX_ENVVAR_RECURSION as nat) {
                Ok(text) => Ok(done.push(text)),
                Err(e) => Err(e),
            },
        }
    }
}

/// What is started for a command line with these expanded arguments.
pub open spec fn command_spec(line: CommandLineView, env: Seq<(Seq<char>, Seq<char>)>) -> Result<
    CommandSpecView,
    CommandLineErrorView,
> {
    match expand_all(line.args, env) {
        Err(e) => Err(e),
        Ok(args) => if args.len() == 0 {
            Err(CommandLineErrorView::EmptyCommand)
        } else {
            Ok(CommandSpecView { program: args[0], args: args.skip(1), clear_env: line.ignore_env })
        },
    }
}

/// What the end of an attempt to spawn means for the task: an empty command
/// is passed over, any other failure fails the run.
pub open spec fn spawn_error_outcome(error: CommandLineErrorView) -> ControlFlow<TaskState> {
    match error {
        CommandLineErrorView::EmptyCommand => ControlFlow::Continue(()),
        _ => ControlFlow::Break(TaskState::Concluded(ExitReason::Failed)),
    }
}

/// What the end of a child means for the task: success moves on to the next
/// step, anything else fails the run.
pub open spec fn exit_outcome(success: bool) -> ControlFlow<TaskState> {
    if success {
        ControlFlow::Continue(())
    } else {
        ControlFlow::Break(TaskState::Concluded(ExitReason::Failed))
    }
}

impl CommandLine {
    /// A command line from its parts.
    pub fn new(ignore_env: bool, ignore_return: bool, args: Vec<String>) -> (r: CommandLine)
        ensures
            r@ == (CommandLineView { ignore_env, ignore_return, args: args.deep_view() }),
    {
        CommandLine { ignore_env, ignore_return, args }
    }

    /// Whether the line names no program at all.
    pub fn is_empty(&self) -> (r: bool)
        ensures
            r == (self@.args.len() == 0),
    {
        self.args.len() == 0
    }

    /// The command line for flags already read and words already split;
    /// `source` is the text that the words came from.
    pub fn from_words(
        ignore_env: bool,
        ignore_return: bool,
        words: Option<Vec<String>>,
        source: &str,
    ) -> (r: Result<CommandLine, CommandLineError>)
        ensures
            match words {
                Some(args) => r matches Ok(line) && line@ == (CommandLineView {
                    ignore_env,
                    ignore_return,
                    args: args.deep_view(),
                }),
                None => r matches Err(e) && e@ == CommandLineErrorView::InvalidCommand(source@),
            },
    {
        match words {
            Some(args) => Ok(CommandLine { ignore_env, ignore_return, args }),
            None => Err(CommandLineError::InvalidCommand(String::from_str(source))),
        }
    }

    /// Reads a command line: flag prefixes first, then shell words.
    pub fn from_str(s: &str) -> (r: Result<CommandLine, CommandLineError>)
        ensures
            match parse_command_line(s@) {
                Ok(line) => r matches Ok(l) && l@ == line,
                Err(error) => r matches Err(e) && e@ == error,
            },
    {
        let (s, ignore_env) = prefix_to_flag(s, ':');
        let (s, ignore_return) = prefix_to_flag(s, '-');
        let words = split_words(s);
        Self::from_words(ignore_env, ignore_return, words, s)
    }

    /// The arguments with environment variables expanded.
    pub fn to_args(&self, env: &Environment) -> (r: Result<Vec<String>, CommandLineError>)
        ensures
            match expand_all(self@.args, env@) {
                Ok(args) => r matches Ok(v) && v.deep_view() == args,
                Err(error) => r matches Err(e) && e@ == error,
            },
    {
        let mut out: Vec<String> = Vec::new();
        let mut i: usize = 0;
        assert(self@.args.take(0) =~= Seq::<Seq<char>>::empty());
        assert(out.deep_view() =~= Seq::<Seq<char>>::empty());
        while i < self.args.len()
            invariant
                i <= self.args.len(),
                expand_all(self@.args.take(i as int), env@) == Ok::<
                    Seq<Seq<char>>,
                    CommandLineErrorView,
                >(out.deep_view()),
            decreases self.args.len() - i,
        {
            let ghost before = out.deep_view();
            let ghost next = self@.args.take(i as int + 1);
            assert(next.drop_last() =~= self@.args.take(i as int));
            assert(next.last() == self.args[i as int]@);
            match insert_envvars(self.args[i].as_str(), env) {
                Ok(text) => {
                    out.push(text);
                    assert(out.deep_view() =~= before.push(text@));
                },
                Err(e) => {
                    proof {
                        lemma_expand_all_error(self@.args, env@, i as int + 1);
                    }
                    return Err(e);
                },
            }
            i += 1;
        }
        assert(self@.args.take(i as int) =~= self@.args);
        Ok(out)
    }

    /// What to start for this line: the program, its arguments and whether
    /// the environment is cleared. A line without words is `EmptyCommand`.
    pub fn to_command(&self, env: &Environment) -> (r: Result<CommandSpec, CommandLineError>)
        ensures
            match command_spec(self@, env@) {
                Ok(spec) => r matches Ok(s) && s@ == spec,
                Err(error) => r matches Err(e) && e@ == error,
            },
    {
        match self.to_args(env) {
            Err(e) => Err(e),
            Ok(mut args) => {
                if args.len() == 0 {
                    Err(CommandLineError::EmptyCommand)
                } else {
                    let ghost all = args.deep_view();
                    let program = args.remove(0);
                    assert(args.deep_view() =~= all.skip(1));
                    Ok(CommandSpec { program, args, clear_env: self.ignore_env })
                }
            },
        }
    }

    /// What a failure to start the command means for the task.
    pub fn spawn_failed(error: &CommandLineError) -> (r: ControlFlow<TaskState>)
        ensures
            r == spawn_error_outcome(error@),
    {
        match error {
            CommandLineError::EmptyCommand => ControlFlow::Continue(()),
            _ => ControlFlow::Break(TaskState::Concluded(ExitReason::Failed)),
        }
    }
}

/// Once a prefix of the arguments fails to expand, so does the whole list,
/// with the same error.
pub proof fn lemma_expand_all_error(args: Seq<Seq<char>>, env: Seq<(Seq<char>, Seq<char>)>, n: int)
    requires
        0 <= n <= args.len(),
        expand_all(args.take(n), env) is Err,
    ensures
        expand_all(args, env) == expand_all(args.take(n), env),
    decreases args.len() - n,
{
    if n < args.len() {
        let next = args.take(n + 1);
        assert(next.drop_last() =~= args.take(n));
        lemma_expand_all_error(args, env, n + 1);
    } else {
        assert(args.take(n) =~= args);
    }
}

/// The command lines of a service, in the order in which they run.
#[derive(Debug)]
pub struct CommandLines(pub Vec<CommandLine>);

impl View for CommandLines {
    type V = Seq<CommandLineView>;

    open spec fn view(&self) -> Seq<CommandLineView> {
        self.0.deep_view()
    }
}

impl Clone for CommandLines {
    fn clone(&self) -> (r: Self)
        ensures
            r@ == self@,
    {
        let mut out: Vec<CommandLine> = Vec::new();
        let mut i: usize = 0;
        while i < self.0.len()
            invariant
                i <= self.0.len(),
                out.len() == i,
                forall|j: int| 0 <= j < i ==> out[j]@ == self.0[j]@,
            decreases self.0.len() - i,
        {
            out.push(self.0[i].clone());
            i += 1;
        }
        let r = CommandLines(out);
        assert(r@ =~= self@);
        r
    }
}

impl Default for CommandLines {
    fn default() -> (r: Self)
        ensures
            r@ == Seq::<CommandLineView>::empty(),
    {
        let r = CommandLines(Vec::new());
        assert(r@ =~= Seq::<CommandLineView>::empty());
        r
    }
}

/// Each line read as a command line, in order; the error of the first line
/// that is none.
pub open spec fn parse_lines(lines: Seq<Seq<char>>) -> Result<
    Seq<CommandLineView>,
    CommandLineErrorView,
>
    decreases lines.len(),
{
    if lines.len() == 0 {
        Ok(Seq::empty())
    } else {
        match parse_lines(lines.drop_last()) {
            Err(e) => Err(e),
            Ok(done) => match parse_command_line(lines.last()) {
                Ok(line) => Ok(done.push(line)),
                Err(e) => Err(e),
            },
        }
    }
}

/// Once a prefix of the lines fails to parse, so does the whole text, with
/// the same error.
pub proof fn lemma_parse_lines_error(lines: Seq<Seq<char>>, n: int)
    requires
        0 <= n <= lines.len(),
        parse_lines(lines.take(n)) is Err,
    ensures
        parse_lines(lines) == parse_lines(lines.take(n)),
    decreases lines.len() - n,
{
    if n < lines.len() {
        let next = lines.take(n + 1);
        assert(next.drop_last() =~= lines.take(n));
        lemma_parse_lines_error(lines, n + 1);
    } else {
        assert(lines.take(n) =~= lines);
    }
}

impl CommandLines {
    /// The command at `index`, if there is one.
    pub fn get(&self, index: usize) -> (r: Option<&CommandLine>)
        ensures
            match r {
                Some(line) => index < self@.len() && line@ == self@[index as int],
                None => index >= self@.len(),
            },
    {
        if index < self.0.len() {
            Some(&self.0[index])
        } else {
            None
        }
    }

    /// How many commands there are.
    pub fn len(&self) -> (r: usize)
        ensures
            r == self@.len(),
    {
        self.0.len()
    }

    /// The command lines for lines of text already split.
    pub fn from_lines(lines: &Vec<String>) -> (r: Result<CommandLines, CommandLineError>)
        ensures
            match parse_lines(lines.deep_view()) {
                Ok(list) => r matches Ok(l) && l@ == list,
                Err(error) => r matches Err(e) && e@ == error,
            },
    {
        let mut out: Vec<CommandLine> = Vec::new();
        let mut i: usize = 0;
        let ghost all = lines.deep_view();
        assert(all.take(0) =~= Seq::<Seq<char>>::empty());
        assert(out.deep_view() =~= Seq::<CommandLineView>::empty());
        while i < lines.len()
            invariant
                i <= lines.len(),
                all == lines.deep_view(),
                parse_lines(all.take(i as int)) == Ok::<Seq<CommandLineView>, CommandLineErrorView>(
                    out.deep_view(),
                ),
            decreases lines.len() - i,
        {
            let ghost before = out.deep_view();
            let ghost next = all.take(i as int + 1);
            assert(next.drop_last() =~= all.take(i as int));
            assert(next.last() == lines[i as int]@);
            match CommandLine::from_str(lines[i].as_str()) {
                Ok(line) => {
                    out.push(line);
                    assert(out.deep_view() =~= before.push(line@));
                },
                Err(e) => {
                    proof {
                        lemma_parse_lines_error(all, i as int + 1);
                    }
                    return Err(e);
                },
            }
            i += 1;
        }
        assert(all.take(i as int) =~= all);
        Ok(CommandLines(out))
    }

    /// Reads one command line from each line of `s`.
    pub fn from_str(s: &str) -> (r: Result<CommandLines, CommandLineError>)
        ensures
            match parse_lines(text_lines(s@)) {
                Ok(list) => r matches Ok(l) && l@ == list,
                Err(error) => r matches Err(e) && e@ == error,
            },
    {
        let lines = split_lines(s);
        Self::from_lines(&lines)
    }
}

/// A started child, as far as the supervisor's rules read it.
#[derive(Debug, Clone, Copy, PartialEq, Eq, Structural)]
pub struct Child {
    /// The process id.
    pub id: u32,
    /// The exit status counts as success, whatever it is.
    pub ignore_return: bool,
}

impl Child {
    /// The exit status that counts for a child: `observed` is what the
    /// operating system reported, `Ok` of whether the child succeeded or
    /// `Err` of why no status could be had.
    pub fn status(&self, observed: Result<bool, String>) -> (r: Result<bool, String>)
        ensures
            r == if self.ignore_return {
                Ok::<bool, String>(true)
            } else {
                observed
            },
    {
        if self.ignore_return {
            Ok(true)
        } else {
            observed
        }
    }

    /// The process id.
    pub fn id(&self) -> (r: u32)
        ensures
            r == self.id,
    {
        self.id
    }

    /// What the child's end means for the task that ran it.
    pub fn outcome(&self, observed: Result<bool, String>) -> (r: ControlFlow<TaskState>)
        ensures
            r == exit_outcome(self.ignore_return || observed == Ok::<bool, String>(true)),
    {
        match self.status(observed) {
            Ok(true) => ControlFlow::Continue(()),
            _ => ControlFlow::Break(TaskState::Concluded(ExitReason::Failed)),
        }
    }
}

} // verus!
