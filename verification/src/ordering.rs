//! The order in which tasks are spawned.
//!
//! Tasks without dependencies come first. Then come the tasks that the
//! dependency graph orders, round by round: each round holds the tasks all
//! of whose dependencies came in earlier rounds. Then come the markers that
//! are left, then everything else: tasks on a cycle, behind a cycle, or
//! with no dependency that exists. Inside each part the tasks keep the order
//! in which they were defined.

pub mod laws;

use crate::config::yaml::{PayloadYaml, PayloadYamlView, TaskConfigYaml, TaskConfigYamlView};
use crate::config::{config_names, latest, latest_configs, pick, TaskConfig, TaskConfigView};
use crate::text::{
    contains_name, lemma_index_of_first_is, lemma_index_of_first_none,
    lemma_index_of_last_is, lemma_index_of_last_none, str_eq,
};
use topological_sort::TopologicalSort;
use vstd::prelude::*;

verus! {

/// Makes the sorter of the `topological_sort` crate known as a type; what
/// is inside it stays hidden.
#[verifier::external_type_specification]
#[verifier::external_body]
#[verifier::reject_recursive_types(T)]
pub struct ExTopologicalSort<T>(TopologicalSort<T>);

/// The names that a sorter holds.
pub uninterp spec fn sorter_nodes(s: TopologicalSort<String>) -> Set<Seq<char>>;

/// The dependencies that a sorter holds: pairs of a name and a name that
/// comes after it.
pub uninterp spec fn sorter_edges(s: TopologicalSort<String>) -> Set<(Seq<char>, Seq<char>)>;

/// A dependency graph on names.
pub struct Graph {
    pub nodes: Set<Seq<char>>,
    /// `(a, b)` says that `a` comes before `b`.
    pub edges: Set<(Seq<char>, Seq<char>)>,
}

impl Graph {
    /// The graph without names.
    pub open spec fn empty() -> Graph {
        Graph { nodes: Set::empty(), edges: Set::empty() }
    }

    /// The graph with one more dependency: `prec` comes before `succ`.
    pub open spec fn link(self, prec: Seq<char>, succ: Seq<char>) -> Graph {
        Graph { nodes: self.nodes.insert(prec).insert(succ), edges: self.edges.insert((prec, succ)) }
    }

    /// The names that nothing comes before.
    pub open spec fn ready(self) -> Set<Seq<char>> {
        Set::new(
            |n: Seq<char>|
                self.nodes.contains(n) && forall|p: Seq<char>| !(#[trigger] self.edges.contains((p, n))),
        )
    }

    /// The graph without the names that nothing comes before, and without
    /// the dependencies that start at them.
    pub open spec fn pop(self) -> Graph {
        Graph {
            nodes: self.nodes.difference(self.ready()),
            edges: Set::new(
                |e: (Seq<char>, Seq<char>)| self.edges.contains(e) && !self.ready().contains(e.0),
            ),
        }
    }
}

/// The graph that a sorter holds.
pub open spec fn sorter_graph(s: TopologicalSort<String>) -> Graph {
    Graph { nodes: sorter_nodes(s), edges: sorter_edges(s) }
}

/// Calls `TopologicalSort::new`.
///
/// Trusted: the new sorter holds no name and no dependency.
#[verifier::external_body]
fn sorter_new() -> (s: TopologicalSort<String>)
    ensures
        sorter_nodes(s) == Set::<Seq<char>>::empty(),
        sorter_edges(s) == Set::<(Seq<char>, Seq<char>)>::empty(),
{
    TopologicalSort::new()
}

/// Calls `TopologicalSort::add_dependency`.
///
/// Trusted: both names are in the sorter afterwards, together with the
/// dependency between them; nothing else changes.
#[verifier::external_body]
fn sorter_add_dependency(s: &mut TopologicalSort<String>, prec: String, succ: String)
    ensures
        sorter_nodes(*final(s)) == sorter_nodes(*old(s)).insert(prec@).insert(succ@),
        sorter_edges(*final(s)) == sorter_edges(*old(s)).insert((prec@, succ@)),
{
    s.add_dependency(prec, succ)
}

/// Calls `TopologicalSort::pop_all`.
///
/// Trusted: what comes out are the names that nothing in the sorter comes
/// before, each once, in no stated order; they leave the sorter, and so do
/// the dependencies that start at them.
#[verifier::external_body]
fn sorter_pop_all(s: &mut TopologicalSort<String>) -> (r: Vec<String>)
    ensures
        r.deep_view().no_duplicates(),
        r.deep_view().to_set() == (Graph {
            nodes: sorter_nodes(*old(s)),
            edges: sorter_edges(*old(s)),
        }).ready(),
        sorter_nodes(*final(s)) == (Graph {
            nodes: sorter_nodes(*old(s)),
            edges: sorter_edges(*old(s)),
        }).pop().nodes,
        sorter_edges(*final(s)) == (Graph {
            nodes: sorter_nodes(*old(s)),
            edges: sorter_edges(*old(s)),
        }).pop().edges,
{
    s.pop_all()
}

/// Whether a task brings dependencies into the graph: it has some, and it is
/// no marker.
pub open spec fn dependent(c: TaskConfigView) -> bool {
    !c.independent() && !(c.payload is Marker)
}

/// The graph `g` with a dependency from each of the first `k` names of
/// `deps` that is a name in `known`, to `task`.
pub open spec fn link_all(g: Graph, known: Seq<Seq<char>>, deps: Seq<Seq<char>>, task: Seq<char>, k: nat) -> Graph
    decreases k,
{
    if k == 0 {
        g
    } else {
        let before = link_all(g, known, deps, task, (k - 1) as nat);
        if known.contains(deps[k - 1]) {
            before.link(deps[k - 1], task)
        } else {
            before
        }
    }
}

/// The graph `g` with the dependencies of one task: those of its `after`
/// list and those of its `with` list, as far as they name tasks of `known`.
pub open spec fn link_task(g: Graph, known: Seq<Seq<char>>, c: TaskConfigView) -> Graph {
    if dependent(c) {
        link_all(
            link_all(g, known, c.after, c.name, c.after.len()),
            known,
            c.with,
            c.name,
            c.with.len(),
        )
    } else {
        g
    }
}

/// The dependency graph of the first `k` tasks of `configs`.
pub open spec fn graph_upto(configs: Seq<TaskConfigView>, k: nat) -> Graph
    decreases k,
{
    if k == 0 {
        Graph::empty()
    } else {
        link_task(graph_upto(configs, (k - 1) as nat), config_names(configs), configs[k - 1])
    }
}

/// The dependency graph of `configs`. A dependency on a name that no task
/// has is left out.
pub open spec fn graph_of(configs: Seq<TaskConfigView>) -> Graph {
    graph_upto(configs, configs.len())
}

/// Whether a task of `configs` is called `name`.
fn has_name(configs: &Vec<TaskConfig>, name: &str) -> (r: bool)
    ensures
        r == config_names(configs.deep_view()).contains(name@),
{
    let ghost names = config_names(configs.deep_view());
    let mut i: usize = 0;
    while i < configs.len()
        invariant
            i <= configs.len(),
            names == config_names(configs.deep_view()),
            forall|j: int| 0 <= j < i ==> names[j] != name@,
        decreases configs.len() - i,
    {
        assert(names[i as int] == configs[i as int]@.name);
        if str_eq(configs[i].name.as_str(), name) {
            return true;
        }
        i += 1;
    }
    false
}

/// Adds to the sorter the dependencies from `deps` to `task`.
fn add_dependencies(
    sorter: &mut TopologicalSort<String>,
    configs: &Vec<TaskConfig>,
    deps: &Vec<String>,
    task: &String,
)
    ensures
        sorter_graph(*final(sorter)) == link_all(
            sorter_graph(*old(sorter)),
            config_names(configs.deep_view()),
            deps.deep_view(),
            task@,
            deps.len() as nat,
        ),
{
    let ghost start = sorter_graph(*sorter);
    let ghost known = config_names(configs.deep_view());
    let mut j: usize = 0;
    while j < deps.len()
        invariant
            j <= deps.len(),
            known == config_names(configs.deep_view()),
            sorter_graph(*sorter) == link_all(start, known, deps.deep_view(), task@, j as nat),
        decreases deps.len() - j,
    {
        assert(deps.deep_view()[j as int] == deps[j as int]@);
        if has_name(configs, deps[j].as_str()) {
            sorter_add_dependency(sorter, deps[j].clone(), task.clone());
        }
        j += 1;
    }
}

/// The sorter that holds the dependency graph of `configs`.
fn build_sorter(configs: &Vec<TaskConfig>) -> (sorter: TopologicalSort<String>)
    ensures
        sorter_graph(sorter) == graph_of(configs.deep_view()),
{
    let ghost all = configs.deep_view();
    let mut sorter = sorter_new();
    let mut i: usize = 0;
    while i < configs.len()
        invariant
            i <= configs.len(),
            all == configs.deep_view(),
            sorter_graph(sorter) == graph_upto(all, i as nat),
        decreases configs.len() - i,
    {
        let t = &configs[i];
        assert(all[i as int] == t@);
        let independent = t.after.len() == 0 && t.with.len() == 0;
        if !independent && !t.payload.is_marker() {
            add_dependencies(&mut sorter, configs, &t.after, &t.name);
            add_dependencies(&mut sorter, configs, &t.with, &t.name);
        }
        i += 1;
    }
    sorter
}

/// The places before `k` that are in `keep`, in rising order.
pub open spec fn select(keep: Set<int>, k: nat) -> Seq<int>
    decreases k,
{
    if k == 0 {
        Seq::empty()
    } else {
        let before = select(keep, (k - 1) as nat);
        if keep.contains(k - 1) {
            before.push(k - 1)
        } else {
            before
        }
    }
}

/// What `select` holds: exactly the places before `k` that are in `keep`,
/// each once, rising.
pub proof fn lemma_select(keep: Set<int>, k: nat)
    ensures
        forall|p: int|
            0 <= p < select(keep, k).len() ==> 0 <= #[trigger] select(keep, k)[p] < k && keep.contains(
                select(keep, k)[p],
            ),
        forall|p: int, q: int|
            0 <= p < q < select(keep, k).len() ==> #[trigger] select(keep, k)[p]
                < #[trigger] select(keep, k)[q],
        forall|i: int| 0 <= i < k && keep.contains(i) ==> #[trigger] select(keep, k).contains(i),
        select(keep, k).len() <= k,
    decreases k,
{
    if k > 0 {
        let before = select(keep, (k - 1) as nat);
        let now = select(keep, k);
        lemma_select(keep, (k - 1) as nat);
        assert forall|p: int| 0 <= p < now.len() implies 0 <= #[trigger] now[p] < k && keep.contains(
            now[p],
        ) by {
            if p < before.len() {
                assert(now[p] == before[p]);
            }
        }
        assert forall|p: int, q: int| 0 <= p < q < now.len() implies #[trigger] now[p]
            < #[trigger] now[q] by {
            assert(now[p] == before[p]);
            if q < before.len() {
                assert(now[q] == before[q]);
            }
        }
        assert forall|i: int| 0 <= i < k && keep.contains(i) implies #[trigger] now.contains(i) by {
            if i < k - 1 {
                assert(before.contains(i));
                let p = choose|p: int| 0 <= p < before.len() && before[p] == i;
                assert(now[p] == i);
            } else {
                assert(now[now.len() - 1] == i);
            }
        }
    }
}

/// Which tasks a part of the order takes.
pub enum Wanted {
    /// Tasks without dependencies.
    Independent,
    /// Tasks with one of these names.
    Named(Set<Seq<char>>),
    /// Markers.
    Marker,
    /// Every task.
    Any,
}

impl Wanted {
    /// Whether the task `c` is wanted.
    pub open spec fn wants(self, c: TaskConfigView) -> bool {
        match self {
            Wanted::Independent => c.independent(),
            Wanted::Named(names) => names.contains(c.name),
            Wanted::Marker => c.payload is Marker,
            Wanted::Any => true,
        }
    }
}

/// The places of the tasks that are wanted and not yet taken.
pub open spec fn chosen(configs: Seq<TaskConfigView>, wanted: Wanted, taken: Set<int>) -> Set<int> {
    Set::new(|i: int| 0 <= i < configs.len() && !taken.contains(i) && wanted.wants(configs[i]))
}

/// One part of the order: the wanted tasks that are not yet taken, in the
/// order of their definition.
pub open spec fn part(configs: Seq<TaskConfigView>, wanted: Wanted, taken: Set<int>) -> Seq<int> {
    select(chosen(configs, wanted, taken), configs.len())
}

/// A round takes at least one name out of a graph that has a name that
/// nothing comes before.
pub proof fn lemma_pop_decreases(g: Graph)
    requires
        g.nodes.finite(),
        !g.ready().is_empty(),
    ensures
        g.pop().nodes.finite(),
        g.pop().nodes.len() < g.nodes.len(),
{
    let x = choose|x: Seq<char>| g.ready().contains(x);
    assert(g.ready().contains(x)) by {
        if forall|y: Seq<char>| !g.ready().contains(y) {
            assert(g.ready() =~= Set::<Seq<char>>::empty());
        }
    }
    let smaller = g.nodes.remove(x);
    assert(g.pop().nodes.subset_of(smaller));
    vstd::set_lib::lemma_len_subset(g.pop().nodes, smaller);
}

/// The rounds of the sort. Each round takes the tasks, not yet taken, whose
/// names nothing in the graph comes before, in the order of their
/// definition, and removes those names from the graph. The rounds end when
/// no such name is left.
pub open spec fn rounds(configs: Seq<TaskConfigView>, g: Graph, taken: Set<int>) -> Seq<int>
    decreases g.nodes.len(),
    when g.nodes.finite()
    via rounds_decreases
{
    if g.ready().is_empty() {
        Seq::empty()
    } else {
        let here = part(configs, Wanted::Named(g.ready()), taken);
        here + rounds(configs, g.pop(), taken.union(here.to_set()))
    }
}

#[via_fn]
proof fn rounds_decreases(configs: Seq<TaskConfigView>, g: Graph, taken: Set<int>) {
    if !g.ready().is_empty() {
        lemma_pop_decreases(g);
    }
}

/// The places of the tasks of `configs` in the order in which they are
/// spawned.
pub open spec fn sorted_places(configs: Seq<TaskConfigView>) -> Seq<int> {
    let first = part(configs, Wanted::Independent, Set::empty());
    let second = rounds(configs, graph_of(configs), first.to_set());
    let third = part(configs, Wanted::Marker, (first + second).to_set());
    let fourth = part(configs, Wanted::Any, (first + second + third).to_set());
    first + second + third + fourth
}

/// The tasks in the order in which they are spawned. Of several definitions
/// with one name only the last counts.
pub open spec fn sorted(configs: Seq<TaskConfigView>) -> Seq<TaskConfigView> {
    pick(latest(configs), sorted_places(latest(configs)))
}

/// Linking keeps a graph finite.
pub proof fn lemma_link_all_finite(g: Graph, known: Seq<Seq<char>>, deps: Seq<Seq<char>>, task: Seq<char>, k: nat)
    requires
        g.nodes.finite(),
    ensures
        link_all(g, known, deps, task, k).nodes.finite(),
    decreases k,
{
    if k > 0 {
        lemma_link_all_finite(g, known, deps, task, (k - 1) as nat);
    }
}

/// The dependency graph of a list of tasks is finite.
pub proof fn lemma_graph_finite(configs: Seq<TaskConfigView>, k: nat)
    ensures
        graph_upto(configs, k).nodes.finite(),
    decreases k,
{
    if k > 0 {
        lemma_graph_finite(configs, (k - 1) as nat);
        let before = graph_upto(configs, (k - 1) as nat);
        let c = configs[k - 1];
        let known = config_names(configs);
        lemma_link_all_finite(before, known, c.after, c.name, c.after.len());
        lemma_link_all_finite(
            link_all(before, known, c.after, c.name, c.after.len()),
            known,
            c.with,
            c.name,
            c.with.len(),
        );
    }
}

/// Which tasks one pass over the list takes.
enum Pass<'a> {
    Independent,
    Named(&'a Vec<String>),
    Marker,
    Any,
}

impl<'a> Pass<'a> {
    spec fn wanted(self) -> Wanted {
        match self {
            Pass::Independent => Wanted::Independent,
            Pass::Named(names) => Wanted::Named(names.deep_view().to_set()),
            Pass::Marker => Wanted::Marker,
            Pass::Any => Wanted::Any,
        }
    }

    fn wants(&self, c: &TaskConfig) -> (r: bool)
        ensures
            r == self.wanted().wants(c@),
    {
        match self {
            Pass::Independent => c.after.len() == 0 && c.with.len() == 0,
            Pass::Named(names) => contains_name(names, c.name.as_str()),
            Pass::Marker => c.payload.is_marker(),
            Pass::Any => true,
        }
    }
}

/// What the passes keep between them: `res` holds the tasks at `places`,
/// and `taken` marks exactly those places.
spec fn in_step(configs: Seq<TaskConfigView>, taken: Seq<bool>, res: Seq<TaskConfigView>, places: Seq<int>) -> bool {
    &&& taken.len() == configs.len()
    &&& res == pick(configs, places)
    &&& forall|i: int| 0 <= i < configs.len() ==> (#[trigger] taken[i] <==> places.contains(i))
    &&& forall|p: int| 0 <= p < places.len() ==> 0 <= #[trigger] places[p] < configs.len()
}

/// One pass over the list: appends to `res` the tasks that `pass` wants and
/// that are not yet taken, and marks them as taken.
fn take(
    configs: &Vec<TaskConfig>,
    pass: Pass,
    taken: &mut Vec<bool>,
    res: &mut Vec<TaskConfig>,
    Ghost(places): Ghost<Seq<int>>,
) -> (r: Ghost<Seq<int>>)
    requires
        in_step(configs.deep_view(), old(taken)@, old(res).deep_view(), places),
    ensures
        in_step(configs.deep_view(), final(taken)@, final(res).deep_view(), r@),
        r@ == places + part(configs.deep_view(), pass.wanted(), places.to_set()),
{
    let ghost all = configs.deep_view();
    let ghost keep = chosen(all, pass.wanted(), places.to_set());
    let ghost mut now = places;
    let mut i: usize = 0;
    assert(places + select(keep, 0) =~= places);
    while i < configs.len()
        invariant
            i <= configs.len(),
            all == configs.deep_view(),
            keep == chosen(all, pass.wanted(), places.to_set()),
            in_step(all, taken@, res.deep_view(), now),
            now == places + select(keep, i as nat),
            forall|j: int| i <= j < all.len() ==> (#[trigger] taken@[j] <==> places.contains(j)),
        decreases configs.len() - i,
    {
        assert(all[i as int] == configs[i as int]@);
        let ghost before = res.deep_view();
        let ghost was = now;
        if !taken[i] && pass.wants(&configs[i]) {
            assert(keep.contains(i as int));
            res.push(configs[i].clone());
            taken.set(i, true);
            proof {
                now = was.push(i as int);
                assert(res.deep_view() =~= before.push(all[i as int]));
                assert(before.push(all[i as int]) =~= pick(all, now));
                assert(now =~= places + select(keep, (i + 1) as nat));
                assert forall|j: int| 0 <= j < all.len() implies (#[trigger] taken@[j] <==> now.contains(
                    j,
                )) by {
                    if j == i {
                        assert(now[now.len() - 1] == j);
                    } else {
                        if was.contains(j) {
                            let p = choose|p: int| 0 <= p < was.len() && was[p] == j;
                            assert(now[p] == j);
                        }
                        if now.contains(j) {
                            let p = choose|p: int| 0 <= p < now.len() && now[p] == j;
                            assert(p < was.len());
                            assert(was[p] == j);
                        }
                    }
                }
            }
        } else {
            assert(!keep.contains(i as int)) by {
                assert(taken@[i as int] <==> places.contains(i as int));
            }
        }
        i += 1;
    }
    Ghost(now)
}

/// Puts the tasks in the order in which they are spawned: tasks without
/// dependencies first, then the tasks that the dependency graph orders,
/// round by round, then the markers that are left, then all others. Each
/// part keeps the order of definition. Of several definitions with one name
/// only the last counts.
pub fn sort(configs: Vec<TaskConfig>) -> (res: Vec<TaskConfig>)
    ensures
        res.deep_view() == sorted(configs.deep_view()),
{
    let configs = latest_configs(&configs);
    let ghost all = configs.deep_view();
    let mut sorter = build_sorter(&configs);
    let mut taken: Vec<bool> = Vec::new();
    let mut k: usize = 0;
    while k < configs.len()
        invariant
            k <= configs.len(),
            taken.len() == k,
            forall|i: int| 0 <= i < k ==> !taken@[i],
        decreases configs.len() - k,
    {
        taken.push(false);
        k += 1;
    }
    let mut res: Vec<TaskConfig> = Vec::new();
    assert(res.deep_view() =~= pick(all, Seq::<int>::empty()));
    assert(Seq::<int>::empty().to_set() =~= Set::<int>::empty());
    let Ghost(first) = take(&configs, Pass::Independent, &mut taken, &mut res, Ghost(Seq::empty()));
    assert(first =~= part(all, Wanted::Independent, Set::empty()));
    let ghost mut places = first;
    proof {
        lemma_graph_finite(all, all.len());
    }
    loop
        invariant_except_break
            sorter_graph(sorter).nodes.finite(),
            first + rounds(all, graph_of(all), first.to_set()) == places + rounds(
                all,
                sorter_graph(sorter),
                places.to_set(),
            ),
        invariant
            all == configs.deep_view(),
            graph_of(all).nodes.finite(),
            in_step(all, taken@, res.deep_view(), places),
        ensures
            in_step(all, taken@, res.deep_view(), places),
            places == first + rounds(all, graph_of(all), first.to_set()),
        decreases sorter_nodes(sorter).len(),
    {
        let ghost g = sorter_graph(sorter);
        let layer = sorter_pop_all(&mut sorter);
        if layer.len() == 0 {
            proof {
                assert(g.ready() =~= Set::<Seq<char>>::empty()) by {
                    assert forall|x: Seq<char>| !g.ready().contains(x) by {
                        if g.ready().contains(x) {
                            assert(layer.deep_view().to_set().contains(x));
                            assert(layer.deep_view().contains(x));
                        }
                    }
                }
                assert(places + Seq::<int>::empty() =~= places);
            }
            break;
        }
        proof {
            assert(layer.deep_view().to_set().contains(layer.deep_view()[0])) by {
                assert(layer.deep_view().contains(layer.deep_view()[0]));
            }
            assert(!g.ready().is_empty());
            lemma_pop_decreases(g);
        }
        let ghost was = places;
        let Ghost(now) = take(&configs, Pass::Named(&layer), &mut taken, &mut res, Ghost(places));
        proof {
            places = now;
            let here = part(all, Wanted::Named(g.ready()), was.to_set());
            assert(now == was + here);
            assert(now.to_set() =~= was.to_set().union(here.to_set())) by {
                vstd::seq_lib::seq_to_set_distributes_over_add(was, here);
            }
            assert(was + (here + rounds(all, g.pop(), was.to_set().union(here.to_set()))) =~= now + rounds(
                all,
                g.pop(),
                now.to_set(),
            ));
        }
    }
    let ghost second = rounds(all, graph_of(all), first.to_set());
    let Ghost(with_markers) = take(&configs, Pass::Marker, &mut taken, &mut res, Ghost(places));
    let Ghost(with_all) = take(&configs, Pass::Any, &mut taken, &mut res, Ghost(with_markers));
    assert(with_all == sorted_places(all));
    res
}

/// The names of written definitions, in order.
pub open spec fn yaml_names(configs: Seq<TaskConfigYamlView>) -> Seq<Seq<char>> {
    Seq::new(configs.len(), |i: int| configs[i].name)
}

/// The marker called `name` that waits for the tasks in `after`.
pub open spec fn marker(name: Seq<char>, after: Seq<Seq<char>>) -> TaskConfigYamlView {
    TaskConfigYamlView { after, ..TaskConfigYamlView::bare(name, PayloadYamlView::Marker) }
}

/// The name of the marker of a group.
pub open spec fn group_marker_name(group: Seq<char>) -> Seq<char> {
    "group::"@ + group
}

/// The name of the marker of a feature.
pub open spec fn feature_marker_name(feature: Seq<char>) -> Seq<char> {
    "feature::"@ + feature
}

/// The markers after `member` has joined the group whose marker is called
/// `name`: the marker waits for `member` too; if there was no such marker,
/// there is one now, at the end.
pub open spec fn joined(markers: Seq<TaskConfigYamlView>, name: Seq<char>, member: Seq<char>) -> Seq<
    TaskConfigYamlView,
> {
    match yaml_names(markers).index_of_first(name) {
        Some(p) => markers.update(
            p,
            TaskConfigYamlView { after: markers[p].after.push(member), ..markers[p] },
        ),
        None => markers.push(marker(name, seq![member])),
    }
}

/// The markers after `producer` has provided the feature whose marker is
/// called `name`: the marker waits for `producer` alone, whoever provided
/// the feature before; if there was no such marker, there is one now, at
/// the end.
pub open spec fn provided(markers: Seq<TaskConfigYamlView>, name: Seq<char>, producer: Seq<char>) -> Seq<
    TaskConfigYamlView,
> {
    match yaml_names(markers).index_of_first(name) {
        Some(p) => markers.update(p, marker(name, seq![producer])),
        None => markers.push(marker(name, seq![producer])),
    }
}

/// The markers of the groups of the first `k` tasks.
pub open spec fn group_markers(configs: Seq<TaskConfigYamlView>, k: nat) -> Seq<TaskConfigYamlView>
    decreases k,
{
    if k == 0 {
        Seq::empty()
    } else {
        let before = group_markers(configs, (k - 1) as nat);
        match configs[k - 1].group {
            Some(group) => joined(before, group_marker_name(group), configs[k - 1].name),
            None => before,
        }
    }
}

/// The markers after `producer` has provided the first `k` of `features`.
pub open spec fn provided_all(
    markers: Seq<TaskConfigYamlView>,
    features: Seq<Seq<char>>,
    producer: Seq<char>,
    k: nat,
) -> Seq<TaskConfigYamlView>
    decreases k,
{
    if k == 0 {
        markers
    } else {
        provided(
            provided_all(markers, features, producer, (k - 1) as nat),
            feature_marker_name(features[k - 1]),
            producer,
        )
    }
}

/// The markers after the first `k` tasks have provided their features.
pub open spec fn feature_markers(markers: Seq<TaskConfigYamlView>, configs: Seq<TaskConfigYamlView>, k: nat) -> Seq<
    TaskConfigYamlView,
>
    decreases k,
{
    if k == 0 {
        markers
    } else {
        provided_all(
            feature_markers(markers, configs, (k - 1) as nat),
            configs[k - 1].provides,
            configs[k - 1].name,
            configs[k - 1].provides.len(),
        )
    }
}

/// The markers of a list of tasks. Each group has a marker `group::<name>`
/// that waits for all its members. Each feature has a marker
/// `feature::<name>` that waits for the task that provides it, the last one
/// if there are several. The markers stand in the order in which their
/// groups, then their features, first occur.
pub open spec fn markers_of(configs: Seq<TaskConfigYamlView>) -> Seq<TaskConfigYamlView> {
    feature_markers(group_markers(configs, configs.len()), configs, configs.len())
}

/// The place of the first definition called `name`.
fn position(configs: &Vec<TaskConfigYaml>, name: &str) -> (r: Option<usize>)
    ensures
        match r {
            Some(p) => yaml_names(configs.deep_view()).index_of_first(name@) == Some(p as int) && p
                < configs.len(),
            None => yaml_names(configs.deep_view()).index_of_first(name@) is None,
        },
{
    let ghost names = yaml_names(configs.deep_view());
    let mut i: usize = 0;
    while i < configs.len()
        invariant
            i <= configs.len(),
            names == yaml_names(configs.deep_view()),
            forall|j: int| 0 <= j < i ==> names[j] != name@,
        decreases configs.len() - i,
    {
        assert(names[i as int] == configs[i as int]@.name);
        if str_eq(configs[i].name.as_str(), name) {
            proof {
                lemma_index_of_first_is(names, name@, i as int);
            }
            return Some(i);
        }
        i += 1;
    }
    proof {
        lemma_index_of_first_none(names, name@);
    }
    None
}

/// A new marker called `name` that waits for `after`.
fn new_marker(name: String, after: &str) -> (r: TaskConfigYaml)
    ensures
        r@ == marker(name@, seq![after@]),
{
    let mut conf = TaskConfigYaml::with_payload(name, PayloadYaml::Marker);
    conf.after(after);
    assert(Seq::<Seq<char>>::empty().push(after@) =~= seq![after@]);
    conf
}

/// Lets `member` join the group whose marker is called `name`.
fn join(markers: &mut Vec<TaskConfigYaml>, name: String, member: &str)
    ensures
        final(markers).deep_view() == joined(old(markers).deep_view(), name@, member@),
{
    let ghost before = markers.deep_view();
    match position(markers, name.as_str()) {
        Some(p) => {
            markers[p].after(member);
            assert(markers.deep_view() =~= joined(before, name@, member@)) by {
                assert(before[p as int] == old(markers)[p as int]@);
            }
        },
        None => {
            let conf = new_marker(name, member);
            markers.push(conf);
            assert(markers.deep_view() =~= joined(before, name@, member@));
        },
    }
}

/// Lets `producer` provide the feature whose marker is called `name`.
fn provide(markers: &mut Vec<TaskConfigYaml>, name: String, producer: &str)
    ensures
        final(markers).deep_view() == provided(old(markers).deep_view(), name@, producer@),
{
    let ghost before = markers.deep_view();
    match position(markers, name.as_str()) {
        Some(p) => {
            let conf = new_marker(name, producer);
            markers.set(p, conf);
            assert(markers.deep_view() =~= provided(before, name@, producer@));
        },
        None => {
            let conf = new_marker(name, producer);
            markers.push(conf);
            assert(markers.deep_view() =~= provided(before, name@, producer@));
        },
    }
}

/// Makes the markers for a list of tasks: one for each group, which waits
/// for the group's members, and one for each feature, which waits for the
/// task that provides it.
pub fn construct_markers(configs: &Vec<TaskConfigYaml>) -> (r: Vec<TaskConfigYaml>)
    ensures
        r.deep_view() == markers_of(configs.deep_view()),
{
    let ghost all = configs.deep_view();
    let mut markers: Vec<TaskConfigYaml> = Vec::new();
    let mut i: usize = 0;
    assert(markers.deep_view() =~= group_markers(all, 0));
    while i < configs.len()
        invariant
            i <= configs.len(),
            all == configs.deep_view(),
            markers.deep_view() == group_markers(all, i as nat),
        decreases configs.len() - i,
    {
        assert(all[i as int] == configs[i as int]@);
        match &configs[i].group {
            Some(group) => {
                let name = String::from_str("group::").concat(group.as_str());
                join(&mut markers, name, configs[i].name.as_str());
            },
            None => {},
        }
        i += 1;
    }
    let ghost groups = markers.deep_view();
    let mut i: usize = 0;
    while i < configs.len()
        invariant
            i <= configs.len(),
            all == configs.deep_view(),
            groups == group_markers(all, all.len()),
            markers.deep_view() == feature_markers(groups, all, i as nat),
        decreases configs.len() - i,
    {
        assert(all[i as int] == configs[i as int]@);
        let ghost start = markers.deep_view();
        let mut j: usize = 0;
        while j < configs[i].provides.len()
            invariant
                i < configs.len(),
                all == configs.deep_view(),
                all[i as int] == configs[i as int]@,
                j <= configs[i as int].provides.len(),
                markers.deep_view() == provided_all(
                    start,
                    all[i as int].provides,
                    all[i as int].name,
                    j as nat,
                ),
            decreases configs[i as int].provides.len() - j,
        {
            assert(all[i as int].provides[j as int] == configs[i as int].provides[j as int]@);
            let name = String::from_str("feature::").concat(configs[i].provides[j].as_str());
            provide(&mut markers, name, configs[i].name.as_str());
            j += 1;
        }
        i += 1;
    }
    markers
}

/// The definitions after `source` was told to run before `target`: the last
/// definition called `target` runs after `source`. Where no definition is
/// called `target`, nothing changes.
pub open spec fn resolved_one(list: Seq<TaskConfigYamlView>, source: Seq<char>, target: Seq<char>) -> Seq<
    TaskConfigYamlView,
> {
    match yaml_names(list).index_of_last(target) {
        Some(p) => list.update(p, TaskConfigYamlView { after: list[p].after.push(source), ..list[p] }),
        None => list,
    }
}

/// The definitions after `source` was told to run before the first `k` of
/// `targets`.
pub open spec fn resolved_all(
    list: Seq<TaskConfigYamlView>,
    source: Seq<char>,
    targets: Seq<Seq<char>>,
    k: nat,
) -> Seq<TaskConfigYamlView>
    decreases k,
{
    if k == 0 {
        list
    } else {
        resolved_one(resolved_all(list, source, targets, (k - 1) as nat), source, targets[k - 1])
    }
}

/// The definitions after the `before` lists of the first `k` were resolved:
/// those lists are empty, and what they named runs after the task that
/// named it.
pub open spec fn resolved_upto(configs: Seq<TaskConfigYamlView>, k: nat) -> Seq<TaskConfigYamlView>
    decreases k,
{
    if k == 0 {
        configs
    } else {
        let before = resolved_upto(configs, (k - 1) as nat);
        let cleared = before.update(
            k - 1,
            TaskConfigYamlView { before: Seq::empty(), ..before[k - 1] },
        );
        resolved_all(cleared, configs[k - 1].name, configs[k - 1].before, configs[k - 1].before.len())
    }
}

/// The definitions with every `before` list resolved into `after` lists.
pub open spec fn resolved(configs: Seq<TaskConfigYamlView>) -> Seq<TaskConfigYamlView> {
    resolved_upto(configs, configs.len())
}

/// Resolving changes no name, no place and no `before` list of a later
/// definition.
pub proof fn lemma_resolved_all_keeps(
    list: Seq<TaskConfigYamlView>,
    source: Seq<char>,
    targets: Seq<Seq<char>>,
    k: nat,
)
    ensures
        resolved_all(list, source, targets, k).len() == list.len(),
        yaml_names(resolved_all(list, source, targets, k)) == yaml_names(list),
        forall|i: int|
            0 <= i < list.len() ==> (#[trigger] resolved_all(list, source, targets, k)[i]).before
                == list[i].before,
    decreases k,
{
    if k > 0 {
        let before = resolved_all(list, source, targets, (k - 1) as nat);
        lemma_resolved_all_keeps(list, source, targets, (k - 1) as nat);
        yaml_names(before).index_of_last_ensures(targets[k - 1]);
        assert(yaml_names(resolved_one(before, source, targets[k - 1])) =~= yaml_names(before));
    }
}

/// Resolving the first `k` definitions changes no name, no place and no
/// `before` list of a later definition.
pub proof fn lemma_resolved_upto_keeps(configs: Seq<TaskConfigYamlView>, k: nat)
    requires
        k <= configs.len(),
    ensures
        resolved_upto(configs, k).len() == configs.len(),
        yaml_names(resolved_upto(configs, k)) == yaml_names(configs),
        forall|i: int|
            k <= i < configs.len() ==> (#[trigger] resolved_upto(configs, k)[i]).before
                == configs[i].before,
    decreases k,
{
    if k > 0 {
        let before = resolved_upto(configs, (k - 1) as nat);
        lemma_resolved_upto_keeps(configs, (k - 1) as nat);
        let cleared = before.update(
            k - 1,
            TaskConfigYamlView { before: Seq::empty(), ..before[k - 1] },
        );
        assert(yaml_names(cleared) =~= yaml_names(before));
        lemma_resolved_all_keeps(
            cleared,
            configs[k - 1].name,
            configs[k - 1].before,
            configs[k - 1].before.len(),
        );
    }
}

/// The place of the last definition called `name`.
fn position_of_last(configs: &Vec<TaskConfigYaml>, name: &str) -> (r: Option<usize>)
    ensures
        match r {
            Some(p) => yaml_names(configs.deep_view()).index_of_last(name@) == Some(p as int) && p
                < configs.len(),
            None => yaml_names(configs.deep_view()).index_of_last(name@) is None,
        },
{
    let ghost names = yaml_names(configs.deep_view());
    let mut i: usize = configs.len();
    while i > 0
        invariant
            i <= configs.len(),
            names == yaml_names(configs.deep_view()),
            forall|j: int| i <= j < configs.len() ==> names[j] != name@,
        decreases i,
    {
        i -= 1;
        assert(names[i as int] == configs[i as int]@.name);
        if str_eq(configs[i].name.as_str(), name) {
            proof {
                lemma_index_of_last_is(names, name@, i as int);
            }
            return Some(i);
        }
    }
    proof {
        lemma_index_of_last_none(names, name@);
    }
    None
}

/// Resolves the `before` lists: a task that is to run before another is put
/// on the `after` list of that other. A `before` entry that names no task
/// is dropped.
pub fn resolve_before(configs: Vec<TaskConfigYaml>) -> (r: Vec<TaskConfigYaml>)
    ensures
        r.deep_view() == resolved(configs.deep_view()),
{
    let ghost all = configs.deep_view();
    let mut configs = configs;
    let mut i: usize = 0;
    while i < configs.len()
        invariant
            i <= configs.len(),
            configs.len() == all.len(),
            configs.deep_view() == resolved_upto(all, i as nat),
        decreases configs.len() - i,
    {
        proof {
            lemma_resolved_upto_keeps(all, i as nat);
        }
        let ghost start = configs.deep_view();
        let ghost held = configs@;
        assert(start[i as int] == configs[i as int]@);
        let mut targets: Vec<String> = Vec::new();
        std::mem::swap(&mut configs[i].before, &mut targets);
        let source = configs[i].name.clone();
        let ghost cleared = start.update(
            i as int,
            TaskConfigYamlView { before: Seq::empty(), ..start[i as int] },
        );
        assert(configs[i as int].before.deep_view() =~= Seq::<Seq<char>>::empty());
        assert(configs[i as int]@ == cleared[i as int]);
        assert(configs.deep_view() =~= cleared) by {
            assert forall|u: int| 0 <= u < cleared.len() implies configs.deep_view()[u] == cleared[u] by {
                if u != i {
                    assert(configs@[u] == held[u]);
                    assert(start[u] == held[u]@);
                }
            }
        }
        assert(targets.deep_view() == all[i as int].before);
        assert(source@ == all[i as int].name) by {
            assert(yaml_names(start)[i as int] == yaml_names(all)[i as int]);
        }
        let mut j: usize = 0;
        while j < targets.len()
            invariant
                j <= targets.len(),
                configs.len() == all.len(),
                configs.deep_view() == resolved_all(cleared, source@, targets.deep_view(), j as nat),
            decreases targets.len() - j,
        {
            proof {
                lemma_resolved_all_keeps(cleared, source@, targets.deep_view(), j as nat);
            }
            let ghost list = configs.deep_view();
            assert(targets.deep_view()[j as int] == targets[j as int]@);
            match position_of_last(&configs, targets[j].as_str()) {
                Some(p) => {
                    assert(list[p as int] == configs[p as int]@);
                    configs[p].after(source.as_str());
                    assert(configs.deep_view() =~= resolved_one(list, source@, targets[j as int]@));
                },
                None => {},
            }
            j += 1;
        }
        i += 1;
    }
    configs
}

} // verus!
