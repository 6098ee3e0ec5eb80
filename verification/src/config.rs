//! Task definitions in the form that the supervisor runs on.

pub mod payload;
pub mod yaml;

use crate::config::payload::{Payload, PayloadView};
use crate::config::yaml::{config_of, TaskConfigYaml, TaskConfigYamlView};
use crate::ordering::{construct_markers, markers_of, resolve_before, resolved, sort, sorted, yaml_names};
use crate::text::{clone_names, str_eq};
use crate::validate::{looping, validate};
use crate::VERSION;
use vstd::prelude::*;

verus! {

/// Whether a task is started again after its run has ended.
#[derive(Debug, Clone, Copy, PartialEq, Eq, Structural)]
pub enum Respawn {
    /// Never retry.
    No,
    /// Restart up to N times; N = 0 restarts without limit.
    Retry(usize),
}

impl Default for Respawn {
    fn default() -> (r: Self)
        ensures
            r == Respawn::No,
    {
        Self::No
    }
}

/// The definition of one task.
#[derive(Debug)]
pub struct TaskConfig {
    /// Unique among all tasks.
    pub name: String,
    pub payload: Payload,
    /// Tasks that must have reached `Running` before this one starts.
    pub with: Vec<String>,
    /// Tasks that must have reached `Concluded(Done)` before this one starts.
    pub after: Vec<String>,
    pub respawn: Respawn,
    pub group: Option<String>,
    /// Features that the task provides.
    pub provides: Vec<String>,
}

/// The definition of one task, as a mathematical value.
pub struct TaskConfigView {
    pub name: Seq<char>,
    pub payload: PayloadView,
    pub with: Seq<Seq<char>>,
    pub after: Seq<Seq<char>>,
    pub respawn: Respawn,
    pub group: Option<Seq<char>>,
    pub provides: Seq<Seq<char>>,
}

impl View for TaskConfig {
    type V = TaskConfigView;

    open spec fn view(&self) -> TaskConfigView {
        TaskConfigView {
            name: self.name@,
            payload: self.payload@,
            with: self.with.deep_view(),
            after: self.after.deep_view(),
            respawn: self.respawn,
            group: self.group.deep_view(),
            provides: self.provides.deep_view(),
        }
    }
}

impl DeepView for TaskConfig {
    type V = TaskConfigView;

    open spec fn deep_view(&self) -> TaskConfigView {
        self@
    }
}

impl TaskConfigView {
    /// A task without dependencies can always run.
    pub open spec fn independent(self) -> bool {
        self.after.len() == 0 && self.with.len() == 0
    }
}

impl TaskConfig {
    /// A service named `name` without commands, dependencies or respawn.
    pub fn new(name: String) -> (r: TaskConfig)
        ensures
            r@ == (TaskConfigView {
                name: name@,
                payload: PayloadView::Service(Seq::empty()),
                with: Seq::empty(),
                after: Seq::empty(),
                respawn: Respawn::No,
                group: None,
                provides: Seq::empty(),
            }),
    {
        let r = TaskConfig {
            name,
            payload: Payload::default(),
            with: Vec::new(),
            after: Vec::new(),
            respawn: Respawn::No,
            group: None,
            provides: Vec::new(),
        };
        assert(r.with.deep_view() =~= Seq::<Seq<char>>::empty());
        assert(r.after.deep_view() =~= Seq::<Seq<char>>::empty());
        assert(r.provides.deep_view() =~= Seq::<Seq<char>>::empty());
        r
    }

    /// Makes the task run after the one called `name`.
    pub fn after(&mut self, name: &str)
        ensures
            final(self)@ == (TaskConfigView { after: old(self)@.after.push(name@), ..old(self)@ }),
    {
        self.after.push(String::from_str(name));
        assert(self.after.deep_view() =~= old(self).after.deep_view().push(name@));
    }
}

impl Clone for TaskConfig {
    fn clone(&self) -> (r: Self)
        ensures
            r@ == self@,
    {
        TaskConfig {
            name: self.name.clone(),
            payload: self.payload.clone(),
            with: clone_names(&self.with),
            after: clone_names(&self.after),
            respawn: self.respawn,
            group: match &self.group {
                Some(g) => Some(g.clone()),
                None => None,
            },
            provides: clone_names(&self.provides),
        }
    }
}

/// Keeps what succeeded and drops what failed.
pub fn drop_errors<T, E>(r: Result<T, E>) -> (o: Option<T>)
    ensures
        o == match r {
            Ok(x) => Some(x),
            Err(_) => None::<T>,
        },
{
    match r {
        Ok(x) => Some(x),
        Err(_) => None,
    }
}

/// Whether a later definition in `configs` has the name of the `i`-th.
pub open spec fn overridden(configs: Seq<TaskConfigView>, i: int) -> bool {
    exists|j: int| i < j < configs.len() && (#[trigger] configs[j]).name == configs[i].name
}

/// The places before `k` whose definition no later one in `configs`
/// overrides, in rising order.
pub open spec fn kept(configs: Seq<TaskConfigView>, k: nat) -> Seq<int>
    decreases k,
{
    if k == 0 {
        Seq::empty()
    } else {
        let before = kept(configs, (k - 1) as nat);
        if overridden(configs, k - 1) {
            before
        } else {
            before.push(k - 1)
        }
    }
}

/// The definitions at the given places.
pub open spec fn pick(configs: Seq<TaskConfigView>, places: Seq<int>) -> Seq<TaskConfigView> {
    Seq::new(places.len(), |p: int| configs[places[p]])
}

/// The definitions that count: of several with one name the last, each at
/// its own place in the order.
pub open spec fn latest(configs: Seq<TaskConfigView>) -> Seq<TaskConfigView> {
    pick(configs, kept(configs, configs.len()))
}

/// The names of `configs`, in order.
pub open spec fn config_names(configs: Seq<TaskConfigView>) -> Seq<Seq<char>> {
    Seq::new(configs.len(), |i: int| configs[i].name)
}

/// The kept places lie before `k`, rise strictly, and none is overridden.
pub proof fn lemma_kept_places(configs: Seq<TaskConfigView>, k: nat)
    requires
        k <= configs.len(),
    ensures
        forall|p: int|
            0 <= p < kept(configs, k).len() ==> 0 <= #[trigger] kept(configs, k)[p] < k
                && !overridden(configs, kept(configs, k)[p]),
        forall|p: int, q: int|
            0 <= p < q < kept(configs, k).len() ==> #[trigger] kept(configs, k)[p]
                < #[trigger] kept(configs, k)[q],
    decreases k,
{
    if k > 0 {
        lemma_kept_places(configs, (k - 1) as nat);
        let before = kept(configs, (k - 1) as nat);
        let now = kept(configs, k);
        assert forall|p: int| 0 <= p < now.len() implies 0 <= #[trigger] now[p] < k && !overridden(
            configs,
            now[p],
        ) by {
            if p < before.len() {
                assert(now[p] == before[p]);
            }
        }
        assert forall|p: int, q: int| 0 <= p < q < now.len() implies #[trigger] now[p]
            < #[trigger] now[q] by {
            assert(now[p] == before[p]);
            if q < before.len() {
                assert(now[q] == before[q]);
            }
        }
    }
}

/// Every place before `k` that is not overridden is kept.
pub proof fn lemma_kept_complete(configs: Seq<TaskConfigView>, k: nat, i: int)
    requires
        k <= configs.len(),
        0 <= i < k,
        !overridden(configs, i),
    ensures
        kept(configs, k).contains(i),
    decreases k,
{
    let before = kept(configs, (k - 1) as nat);
    if i == k - 1 {
        assert(kept(configs, k)[before.len() as int] == i);
    } else {
        lemma_kept_complete(configs, (k - 1) as nat, i);
        let p = choose|p: int| 0 <= p < before.len() && before[p] == i;
        assert(kept(configs, k)[p] == i);
    }
}

/// No name occurs twice among the definitions that count.
pub proof fn lemma_latest_names_unique(configs: Seq<TaskConfigView>)
    ensures
        config_names(latest(configs)).no_duplicates(),
{
    let places = kept(configs, configs.len());
    let names = config_names(latest(configs));
    lemma_kept_places(configs, configs.len());
    assert forall|p: int, q: int| 0 <= p < names.len() && 0 <= q < names.len() && p != q implies names[p]
        != names[q] by {
        let low = if p < q {
            p
        } else {
            q
        };
        let high = if p < q {
            q
        } else {
            p
        };
        assert(places[low] < places[high]);
        if names[p] == names[q] {
            assert(configs[places[high]].name == configs[places[low]].name);
            assert(overridden(configs, places[low]));
        }
    }
}

/// Every name of `configs` is the name of a definition that counts.
pub proof fn lemma_latest_keeps_names(configs: Seq<TaskConfigView>, i: int)
    requires
        0 <= i < configs.len(),
    ensures
        config_names(latest(configs)).contains(configs[i].name),
    decreases configs.len() - i,
{
    if overridden(configs, i) {
        let j = choose|j: int| i < j < configs.len() && (#[trigger] configs[j]).name == configs[i].name;
        lemma_latest_keeps_names(configs, j);
    } else {
        lemma_kept_complete(configs, configs.len(), i);
        let places = kept(configs, configs.len());
        let p = choose|p: int| 0 <= p < places.len() && places[p] == i;
        assert(config_names(latest(configs))[p] == configs[i].name);
    }
}

/// The definitions that count, of a list in which names may repeat: the
/// last definition of each name, in the order of the list.
pub fn latest_configs(configs: &Vec<TaskConfig>) -> (r: Vec<TaskConfig>)
    ensures
        r.deep_view() == latest(configs.deep_view()),
{
    let ghost all = configs.deep_view();
    let mut out: Vec<TaskConfig> = Vec::new();
    let mut i: usize = 0;
    assert(out.deep_view() =~= pick(all, kept(all, 0)));
    while i < configs.len()
        invariant
            i <= configs.len(),
            all == configs.deep_view(),
            out.deep_view() == pick(all, kept(all, i as nat)),
        decreases configs.len() - i,
    {
        let mut found = false;
        let mut j: usize = i + 1;
        while j < configs.len()
            invariant
                i < j <= configs.len(),
                all == configs.deep_view(),
                found == exists|k: int| i < k < j && (#[trigger] all[k]).name == all[i as int].name,
            decreases configs.len() - j,
        {
            if configs[j].name == configs[i].name {
                assert(all[j as int].name == all[i as int].name);
                found = true;
            }
            j += 1;
        }
        assert(found == overridden(all, i as int));
        if !found {
            let ghost before = out.deep_view();
            out.push(configs[i].clone());
            assert(out.deep_view() =~= before.push(all[i as int]));
            assert(before.push(all[i as int]) =~= pick(all, kept(all, (i + 1) as nat)));
        }
        i += 1;
    }
    out
}

/// The definitions that a list of written definitions stands for, in order;
/// a written definition that stands for none is left out.
pub open spec fn converted(written: Seq<TaskConfigYamlView>) -> Seq<TaskConfigView>
    decreases written.len(),
{
    if written.len() == 0 {
        Seq::empty()
    } else {
        let before = converted(written.drop_last());
        match config_of(written.last()) {
            Ok(config) => before.push(config),
            Err(_) => before,
        }
    }
}

/// Converts written definitions and drops those that cannot be converted.
pub fn convert(written: Vec<TaskConfigYaml>) -> (r: Vec<TaskConfig>)
    ensures
        r.deep_view() == converted(written.deep_view()),
{
    let ghost all = written.deep_view();
    let ghost held = written@;
    let mut out: Vec<TaskConfig> = Vec::new();
    assert(all.take(0) =~= Seq::<TaskConfigYamlView>::empty());
    assert(out.deep_view() =~= Seq::<TaskConfigView>::empty());
    for item in iter: written
        invariant
            iter.seq() == held,
            all.len() == held.len(),
            forall|j: int| 0 <= j < held.len() ==> all[j] == held[j]@,
            out.deep_view() == converted(all.take(iter.index() as int)),
    {
        let ghost before = out.deep_view();
        let ghost next = all.take(iter.index() + 1);
        assert(next.drop_last() =~= all.take(iter.index() as int));
        assert(next.last() == item@);
        match drop_errors(item.into_config()) {
            Some(config) => {
                out.push(config);
                assert(out.deep_view() =~= before.push(config@));
            },
            None => {},
        }
    }
    assert(all.take(held.len() as int) =~= all);
    out
}

/// The tasks that the supervisor runs, in the order in which it spawns
/// them, for the definitions that were read and those that are built in:
/// markers are added for groups and features, `before` lists are resolved,
/// what cannot be converted is dropped, and the rest is sorted.
pub open spec fn assembled(parsed: Seq<TaskConfigYamlView>, builtin: Seq<TaskConfigYamlView>) -> Seq<
    TaskConfigView,
> {
    sorted(prepared(parsed, builtin))
}

/// The same tasks before they are sorted.
pub open spec fn prepared(parsed: Seq<TaskConfigYamlView>, builtin: Seq<TaskConfigYamlView>) -> Seq<
    TaskConfigView,
> {
    converted(resolved(parsed + builtin + markers_of(parsed + builtin)))
}

/// Puts the definitions that were read together with the built-in ones and
/// makes of them the tasks that the supervisor runs, in the order in which
/// it spawns them. With them come the names of the tasks that wait for a
/// loop of dependencies.
pub fn read_yaml_configs(parsed: Vec<TaskConfigYaml>, builtin: Vec<TaskConfigYaml>) -> (r: (
    Vec<TaskConfig>,
    Vec<String>,
))
    ensures
        r.0.deep_view() == assembled(parsed.deep_view(), builtin.deep_view()),
        r.1.deep_view() == looping(
            prepared(parsed.deep_view(), builtin.deep_view()),
            prepared(parsed.deep_view(), builtin.deep_view()).len(),
        ),
{
    let mut configs = parsed;
    let mut builtin = builtin;
    let ghost first = configs.deep_view();
    let ghost second = builtin.deep_view();
    configs.append(&mut builtin);
    assert(configs.deep_view() =~= first + second);
    let mut groups = construct_markers(&configs);
    let ghost third = groups.deep_view();
    configs.append(&mut groups);
    assert(configs.deep_view() =~= first + second + third);
    let configs = resolve_before(configs);
    let configs = convert(configs);
    let (configs, waiting) = validate(configs);
    let configs = sort(configs);
    (configs, waiting)
}

/// The tasks of a compiled configuration, if it was compiled by a program
/// of the running version.
pub fn read_binary(version: &str, configs: Vec<TaskConfig>) -> (r: Option<Vec<TaskConfig>>)
    ensures
        r == if version@ == VERSION@ {
            Some(configs)
        } else {
            None
        },
{
    if str_eq(version, VERSION) {
        Some(configs)
    } else {
        None
    }
}

/// The tasks that the supervisor runs: those of the compiled configuration
/// followed by the built-in ones, or, where there is no compiled
/// configuration, those that `read_yaml_configs` makes of the definitions
/// that were read.
pub fn read_config(
    compiled: Option<Vec<TaskConfig>>,
    parsed: Vec<TaskConfigYaml>,
    builtin: Vec<TaskConfigYaml>,
) -> (r: Vec<TaskConfig>)
    ensures
        r.deep_view() == match compiled {
            Some(configs) => configs.deep_view() + converted(builtin.deep_view()),
            None => assembled(parsed.deep_view(), builtin.deep_view()),
        },
{
    match compiled {
        Some(configs) => {
            let mut configs = configs;
            let ghost first = configs.deep_view();
            let mut more = convert(builtin);
            let ghost second = more.deep_view();
            configs.append(&mut more);
            assert(configs.deep_view() =~= first + second);
            configs
        },
        None => read_yaml_configs(parsed, builtin).0,
    }
}

/// The first `k` tasks without those that have the name of a built-in one.
pub open spec fn without_builtin(configs: Seq<TaskConfigView>, builtin: Seq<Seq<char>>, k: nat) -> Seq<
    TaskConfigView,
>
    decreases k,
{
    if k == 0 {
        Seq::empty()
    } else {
        let before = without_builtin(configs, builtin, (k - 1) as nat);
        if builtin.contains(configs[k - 1].name) {
            before
        } else {
            before.push(configs[k - 1])
        }
    }
}

/// The tasks that go into a compiled configuration: all but the built-in
/// ones, which every start adds anew.
pub fn compile(configs: &Vec<TaskConfig>, builtin: &Vec<TaskConfigYaml>) -> (r: Vec<TaskConfig>)
    ensures
        r.deep_view() == without_builtin(
            configs.deep_view(),
            yaml_names(builtin.deep_view()),
            configs.len() as nat,
        ),
{
    let ghost all = configs.deep_view();
    let ghost names = yaml_names(builtin.deep_view());
    let mut out: Vec<TaskConfig> = Vec::new();
    let mut i: usize = 0;
    assert(out.deep_view() =~= without_builtin(all, names, 0));
    while i < configs.len()
        invariant
            i <= configs.len(),
            all == configs.deep_view(),
            names == yaml_names(builtin.deep_view()),
            out.deep_view() == without_builtin(all, names, i as nat),
        decreases configs.len() - i,
    {
        assert(all[i as int] == configs[i as int]@);
        let mut found = false;
        let mut j: usize = 0;
        while j < builtin.len()
            invariant
                j <= builtin.len(),
                i < configs.len(),
                names == yaml_names(builtin.deep_view()),
                found == exists|k: int| 0 <= k < j && names[k] == configs[i as int].name@,
            decreases builtin.len() - j,
        {
            assert(names[j as int] == builtin[j as int]@.name);
            if builtin[j].name == configs[i].name {
                found = true;
            }
            j += 1;
        }
        assert(found == names.contains(configs[i as int].name@));
        if !found {
            let ghost before = out.deep_view();
            out.push(configs[i].clone());
            assert(out.deep_view() =~= before.push(all[i as int]));
        }
        i += 1;
    }
    out
}

} // verus!
