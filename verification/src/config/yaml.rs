//! Task definitions in the form in which they are written down.

use crate::builtin::BuiltInService;
use crate::command_line::{parse_lines, text_lines, CommandLineError, CommandLineErrorView};
use crate::config::payload::{Payload, PayloadView};
use crate::config::{Respawn, TaskConfig, TaskConfigView};
use smallvec::SmallVec;
use vstd::prelude::*;

verus! {

/// A list of names that is short most of the time.
#[verifier::external_body]
#[derive(Debug)]
pub struct NameList {
    inner: SmallVec<[String; 1]>,
}

/// The names that a list holds, in order.
pub uninterp spec fn name_list_items(list: NameList) -> Seq<Seq<char>>;

impl View for NameList {
    type V = Seq<Seq<char>>;

    open spec fn view(&self) -> Seq<Seq<char>> {
        name_list_items(*self)
    }
}

impl NameList {
    /// Calls `SmallVec::new`.
    ///
    /// Trusted: the new list holds no name.
    #[verifier::external_body]
    pub(crate) fn new() -> (r: NameList)
        ensures
            name_list_items(r) == Seq::<Seq<char>>::empty(),
    {
        NameList { inner: SmallVec::new() }
    }

    /// Calls `SmallVec::push`.
    ///
    /// Trusted: the name is appended; the names before it stay as they are.
    #[verifier::external_body]
    pub(crate) fn push(&mut self, name: String)
        ensures
            name_list_items(*final(self)) == name_list_items(*old(self)).push(name@),
    {
        self.inner.push(name)
    }

    /// Calls `SmallVec::into_vec`.
    ///
    /// Trusted: the vector holds the names of the list, in their order.
    #[verifier::external_body]
    pub(crate) fn into_vec(self) -> (r: Vec<String>)
        ensures
            r.deep_view() == name_list_items(self),
    {
        self.inner.into_vec()
    }

    /// The list of the names in `names`.
    pub fn from_names(names: &Vec<String>) -> (r: NameList)
        ensures
            r@ == names.deep_view(),
    {
        let mut list = NameList::new();
        let mut i: usize = 0;
        while i < names.len()
            invariant
                i <= names.len(),
                list@ == names.deep_view().take(i as int),
            decreases names.len() - i,
        {
            list.push(names[i].clone());
            assert(list@ =~= names.deep_view().take(i as int + 1));
            i += 1;
        }
        assert(names.deep_view().take(i as int) =~= names.deep_view());
        list
    }

    /// The names of the list, as a vector.
    pub fn to_names(self) -> (r: Vec<String>)
        ensures
            r.deep_view() == self@,
    {
        self.into_vec()
    }
}

/// What a task does, as written down: the text of its commands, a routine of
/// the supervisor, or nothing.
#[derive(Debug)]
pub enum PayloadYaml {
    Service(String),
    Builtin(BuiltInService),
    Marker,
}

/// A written payload, as a mathematical value.
pub enum PayloadYamlView {
    Service(Seq<char>),
    Builtin(usize),
    Marker,
}

impl View for PayloadYaml {
    type V = PayloadYamlView;

    open spec fn view(&self) -> PayloadYamlView {
        match self {
            PayloadYaml::Service(text) => PayloadYamlView::Service(text@),
            PayloadYaml::Builtin(service) => PayloadYamlView::Builtin(service.id),
            PayloadYaml::Marker => PayloadYamlView::Marker,
        }
    }
}

impl Default for PayloadYaml {
    fn default() -> (r: Self)
        ensures
            r@ == PayloadYamlView::Service(Seq::<char>::empty()),
    {
        Self::Service(String::new())
    }
}

/// The respawn policy, as written down.
#[derive(Debug, Clone, Copy, PartialEq, Eq, Hash, Structural)]
pub enum RespawnYaml {
    /// Never retry.
    No,
    /// Restart up to N times; N = 0 restarts without limit.
    Retry(usize),
}

impl Default for RespawnYaml {
    fn default() -> (r: Self)
        ensures
            r == RespawnYaml::No,
    {
        Self::No
    }
}

/// The policy that a written policy stands for.
pub open spec fn respawn_of(value: RespawnYaml) -> Respawn {
    match value {
        RespawnYaml::No => Respawn::No,
        RespawnYaml::Retry(x) => Respawn::Retry(x),
    }
}

impl From<RespawnYaml> for Respawn {
    fn from(value: RespawnYaml) -> (r: Respawn) {
        match value {
            RespawnYaml::No => Respawn::No,
            RespawnYaml::Retry(x) => Respawn::Retry(x),
        }
    }
}

impl vstd::std_specs::convert::FromSpecImpl<RespawnYaml> for Respawn {
    open spec fn obeys_from_spec() -> bool {
        true
    }

    open spec fn from_spec(value: RespawnYaml) -> Respawn {
        respawn_of(value)
    }
}

/// One task, as written down.
#[derive(Debug)]
pub struct TaskConfigYaml {
    pub name: String,
    pub cmd: PayloadYaml,
    /// Tasks that this one must run before.
    pub before: Vec<String>,
    pub with: Vec<String>,
    pub after: NameList,
    pub respawn: RespawnYaml,
    pub group: Option<String>,
    pub provides: Vec<String>,
}

/// A written definition, as a mathematical value.
pub struct TaskConfigYamlView {
    pub name: Seq<char>,
    pub cmd: PayloadYamlView,
    pub before: Seq<Seq<char>>,
    pub with: Seq<Seq<char>>,
    pub after: Seq<Seq<char>>,
    pub respawn: RespawnYaml,
    pub group: Option<Seq<char>>,
    pub provides: Seq<Seq<char>>,
}

impl View for TaskConfigYaml {
    type V = TaskConfigYamlView;

    open spec fn view(&self) -> TaskConfigYamlView {
        TaskConfigYamlView {
            name: self.name@,
            cmd: self.cmd@,
            before: self.before.deep_view(),
            with: self.with.deep_view(),
            after: self.after@,
            respawn: self.respawn,
            group: self.group.deep_view(),
            provides: self.provides.deep_view(),
        }
    }
}

impl DeepView for TaskConfigYaml {
    type V = TaskConfigYamlView;

    open spec fn deep_view(&self) -> TaskConfigYamlView {
        self@
    }
}

impl TaskConfigYamlView {
    /// A task called `name` with this payload and nothing else.
    pub open spec fn bare(name: Seq<char>, cmd: PayloadYamlView) -> TaskConfigYamlView {
        TaskConfigYamlView {
            name,
            cmd,
            before: Seq::empty(),
            with: Seq::empty(),
            after: Seq::empty(),
            respawn: RespawnYaml::No,
            group: None,
            provides: Seq::empty(),
        }
    }
}

/// The payload that a written payload stands for: the text of a service is
/// read line by line.
pub open spec fn payload_of(cmd: PayloadYamlView) -> Result<PayloadView, CommandLineErrorView> {
    match cmd {
        PayloadYamlView::Service(text) => match parse_lines(text_lines(text)) {
            Ok(lines) => Ok(PayloadView::Service(lines)),
            Err(error) => Err(error),
        },
        PayloadYamlView::Builtin(id) => Ok(PayloadView::Builtin(id)),
        PayloadYamlView::Marker => Ok(PayloadView::Marker),
    }
}

/// The definition that a written definition stands for.
pub open spec fn config_of(y: TaskConfigYamlView) -> Result<TaskConfigView, CommandLineErrorView> {
    match payload_of(y.cmd) {
        Ok(payload) => Ok(
            TaskConfigView {
                name: y.name,
                payload,
                with: y.with,
                after: y.after,
                respawn: respawn_of(y.respawn),
                group: y.group,
                provides: y.provides,
            },
        ),
        Err(error) => Err(error),
    }
}

impl TaskConfigYaml {
    /// A service called `name` without commands or dependencies.
    pub fn new(name: String) -> (r: TaskConfigYaml)
        ensures
            r@ == TaskConfigYamlView::bare(name@, PayloadYamlView::Service(Seq::empty())),
    {
        Self::with_payload(name, PayloadYaml::default())
    }

    /// A task called `name` with the payload `cmd` and nothing else.
    pub fn with_payload(name: String, cmd: PayloadYaml) -> (r: TaskConfigYaml)
        ensures
            r@ == TaskConfigYamlView::bare(name@, cmd@),
    {
        let r = TaskConfigYaml {
            name,
            cmd,
            before: Vec::new(),
            with: Vec::new(),
            after: NameList::new(),
            respawn: RespawnYaml::No,
            group: None,
            provides: Vec::new(),
        };
        assert(r.before.deep_view() =~= Seq::<Seq<char>>::empty());
        assert(r.with.deep_view() =~= Seq::<Seq<char>>::empty());
        assert(r.provides.deep_view() =~= Seq::<Seq<char>>::empty());
        r
    }

    /// Makes the task run after the one called `name`.
    pub fn after(&mut self, name: &str)
        ensures
            final(self)@ == (TaskConfigYamlView { after: old(self)@.after.push(name@), ..old(self)@ }),
    {
        self.after.push(String::from_str(name));
    }

    /// The definition in the form that the supervisor runs on. Fails where
    /// the text of the commands is no list of command lines.
    pub fn into_config(self) -> (r: Result<TaskConfig, CommandLineError>)
        ensures
            match config_of(self@) {
                Ok(config) => r matches Ok(c) && c@ == config,
                Err(error) => r matches Err(e) && e@ == error,
            },
    {
        let payload = match self.cmd {
            PayloadYaml::Service(x) => match Payload::from_str(x.as_str()) {
                Ok(payload) => payload,
                Err(e) => {
                    return Err(e);
                },
            },
            PayloadYaml::Builtin(builtin) => Payload::Builtin(builtin),
            PayloadYaml::Marker => Payload::Marker,
        };
        Ok(
            TaskConfig {
                name: self.name,
                payload,
                with: self.with,
                after: self.after.into_vec(),
                respawn: Respawn::from(self.respawn),
                group: self.group,
                provides: self.provides,
            },
        )
    }
}

impl Default for TaskConfigYaml {
    fn default() -> (r: Self)
        ensures
            r@ == TaskConfigYamlView::bare(Seq::empty(), PayloadYamlView::Service(Seq::empty())),
    {
        Self::new(String::new())
    }
}

/// A value that is written as one item or as a list of items.
#[derive(Debug, PartialEq)]
pub enum OneOrMany<One, Many> {
    /// Single value.
    One(One),
    /// Array of values.
    Many(Many),
}

impl<T> OneOrMany<T, Vec<T>> {
    /// The list that was written: of a single value the list that holds it.
    pub fn into_list(self) -> (r: Vec<T>)
        ensures
            r@ == match self {
                OneOrMany::One(one) => seq![one],
                OneOrMany::Many(many) => many@,
            },
    {
        match self {
            OneOrMany::One(one) => {
                let mut list = Vec::new();
                list.push(one);
                list
            },
            OneOrMany::Many(many) => many,
        }
    }
}

} // verus!
