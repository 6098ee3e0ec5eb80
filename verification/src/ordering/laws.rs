//! What holds of the ordering pass. Every task is in the spawn order once,
//! and a task that the dependency graph orders comes after the tasks that it
//! depends on. Every group and every feature has its marker. What was to
//! run before a task is waited for by that task.

use crate::config::yaml::{PayloadYamlView, TaskConfigYamlView};
use crate::config::{config_names, latest, lemma_latest_names_unique, pick, TaskConfigView};
use crate::ordering::{
    chosen, dependent, feature_marker_name, feature_markers, graph_of, graph_upto, group_marker_name,
    group_markers, joined, lemma_graph_finite, lemma_pop_decreases, lemma_select, link_all,
    link_task, marker, markers_of, part, provided, provided_all, resolved, resolved_all,
    resolved_one, resolved_upto, rounds, sorted, sorted_places, yaml_names, Graph, Wanted,
};
use vstd::prelude::*;

verus! {

/// What a part of the order holds: exactly the places of the tasks that are
/// wanted and not yet taken, each once.
pub proof fn lemma_part(configs: Seq<TaskConfigView>, wanted: Wanted, taken: Set<int>)
    ensures
        forall|p: int|
            0 <= p < part(configs, wanted, taken).len() ==> {
                &&& 0 <= #[trigger] part(configs, wanted, taken)[p] < configs.len()
                &&& !taken.contains(part(configs, wanted, taken)[p])
                &&& wanted.wants(configs[part(configs, wanted, taken)[p]])
            },
        part(configs, wanted, taken).no_duplicates(),
        forall|i: int|
            0 <= i < configs.len() && !taken.contains(i) && wanted.wants(configs[i])
                ==> #[trigger] part(configs, wanted, taken).contains(i),
{
    let keep = chosen(configs, wanted, taken);
    lemma_select(keep, configs.len());
    let here = part(configs, wanted, taken);
    assert forall|p: int, q: int| 0 <= p < here.len() && 0 <= q < here.len() && p != q implies here[p]
        != here[q] by {
        if p < q {
            assert(here[p] < here[q]);
        } else {
            assert(here[q] < here[p]);
        }
    }
    assert forall|i: int|
        0 <= i < configs.len() && !taken.contains(i) && wanted.wants(configs[i]) implies #[trigger] here.contains(
        i,
    ) by {
        assert(keep.contains(i));
    }
}

/// What the rounds hold: places of tasks, none of them taken before, each
/// once.
pub proof fn lemma_rounds(configs: Seq<TaskConfigView>, g: Graph, taken: Set<int>)
    requires
        g.nodes.finite(),
    ensures
        forall|p: int|
            0 <= p < rounds(configs, g, taken).len() ==> {
                &&& 0 <= #[trigger] rounds(configs, g, taken)[p] < configs.len()
                &&& !taken.contains(rounds(configs, g, taken)[p])
            },
        rounds(configs, g, taken).no_duplicates(),
    decreases g.nodes.len(),
{
    if !g.ready().is_empty() {
        let here = part(configs, Wanted::Named(g.ready()), taken);
        let taken_now = taken.union(here.to_set());
        lemma_pop_decreases(g);
        lemma_part(configs, Wanted::Named(g.ready()), taken);
        lemma_rounds(configs, g.pop(), taken_now);
        let rest = rounds(configs, g.pop(), taken_now);
        let all = rounds(configs, g, taken);
        assert(all == here + rest);
        assert forall|i: int, j: int| 0 <= i < here.len() && 0 <= j < rest.len() implies here[i]
            != rest[j] by {
            assert(here.to_set().contains(here[i])) by {
                assert(here.contains(here[i]));
            }
            assert(!taken_now.contains(rest[j]));
        }
        vstd::seq_lib::lemma_no_dup_in_concat(here, rest);
        assert forall|p: int| 0 <= p < all.len() implies {
            &&& 0 <= #[trigger] all[p] < configs.len()
            &&& !taken.contains(all[p])
        } by {
            if p < here.len() {
                assert(all[p] == here[p]);
            } else {
                assert(all[p] == rest[p - here.len()]);
                assert(!taken_now.contains(rest[p - here.len()]));
            }
        }
    }
}

/// Two lists of places, each without a place twice, where the second holds
/// nothing of the first, make one list without a place twice.
proof fn lemma_append_apart(a: Seq<int>, b: Seq<int>)
    requires
        a.no_duplicates(),
        b.no_duplicates(),
        forall|q: int| 0 <= q < b.len() ==> !a.to_set().contains(#[trigger] b[q]),
    ensures
        (a + b).no_duplicates(),
{
    assert forall|i: int, j: int| 0 <= i < a.len() && 0 <= j < b.len() implies a[i] != b[j] by {
        assert(a.contains(a[i]));
        assert(a.to_set().contains(a[i]));
    }
    vstd::seq_lib::lemma_no_dup_in_concat(a, b);
}

/// The spawn order is a rearrangement: every place of the list is in it,
/// once.
pub proof fn lemma_sorted_places_rearrange(configs: Seq<TaskConfigView>)
    ensures
        sorted_places(configs).no_duplicates(),
        sorted_places(configs).len() == configs.len(),
        forall|p: int|
            0 <= p < sorted_places(configs).len() ==> 0 <= #[trigger] sorted_places(configs)[p]
                < configs.len(),
        forall|i: int| 0 <= i < configs.len() ==> #[trigger] sorted_places(configs).contains(i),
{
    let n = configs.len();
    let none = Set::<int>::empty();
    let first = part(configs, Wanted::Independent, none);
    let second = rounds(configs, graph_of(configs), first.to_set());
    let third = part(configs, Wanted::Marker, (first + second).to_set());
    let fourth = part(configs, Wanted::Any, (first + second + third).to_set());
    let all = sorted_places(configs);
    assert(all == first + second + third + fourth);
    lemma_graph_finite(configs, n);
    lemma_part(configs, Wanted::Independent, none);
    lemma_rounds(configs, graph_of(configs), first.to_set());
    lemma_part(configs, Wanted::Marker, (first + second).to_set());
    lemma_part(configs, Wanted::Any, (first + second + third).to_set());
    lemma_append_apart(first, second);
    lemma_append_apart(first + second, third);
    lemma_append_apart(first + second + third, fourth);
    assert forall|p: int| 0 <= p < all.len() implies 0 <= #[trigger] all[p] < n by {
        if p < first.len() {
            assert(all[p] == first[p]);
        } else if p < first.len() + second.len() {
            assert(all[p] == second[p - first.len()]);
        } else if p < first.len() + second.len() + third.len() {
            assert(all[p] == third[p - first.len() - second.len()]);
        } else {
            assert(all[p] == fourth[p - first.len() - second.len() - third.len()]);
        }
    }
    assert forall|i: int| 0 <= i < n implies #[trigger] all.contains(i) by {
        let before = first + second + third;
        if before.to_set().contains(i) {
            assert(before.contains(i));
            let p = choose|p: int| 0 <= p < before.len() && before[p] == i;
            assert(all[p] == i);
        } else {
            assert(fourth.contains(i));
            let p = choose|p: int| 0 <= p < fourth.len() && fourth[p] == i;
            assert(all[before.len() + p] == i);
        }
    }
    assert(all.to_set() =~= vstd::set_lib::set_int_range(0, n as int)) by {
        assert forall|i: int| all.to_set().contains(i) <==> 0 <= i < n by {
            if all.to_set().contains(i) {
                assert(all.contains(i));
                let p = choose|p: int| 0 <= p < all.len() && all[p] == i;
                assert(0 <= all[p] < n);
            }
            if 0 <= i < n {
                assert(all.contains(i));
            }
        }
    }
    vstd::set_lib::lemma_int_range(0, n as int);
    all.unique_seq_to_set();
}

/// Sorting loses no task and makes none up: the sorted list holds the
/// definitions that count, each as often as the list of those holds it.
pub proof fn lemma_sorted_keeps_every_task(configs: Seq<TaskConfigView>)
    ensures
        sorted(configs).len() == latest(configs).len(),
        sorted(configs).to_multiset() == latest(configs).to_multiset(),
{
    let kept = latest(configs);
    let places = sorted_places(kept);
    lemma_sorted_places_rearrange(kept);
    lemma_pick_rearranged(kept, places);
}

/// No two tasks of the sorted list have one name.
pub proof fn lemma_sorted_names_are_unique(configs: Seq<TaskConfigView>)
    ensures
        config_names(sorted(configs)).no_duplicates(),
{
    let kept = latest(configs);
    let places = sorted_places(kept);
    let names = config_names(sorted(configs));
    lemma_latest_names_unique(configs);
    lemma_sorted_places_rearrange(kept);
    assert forall|p: int, q: int| 0 <= p < names.len() && 0 <= q < names.len() && p != q implies names[p]
        != names[q] by {
        assert(places[p] != places[q]);
        assert(names[p] == config_names(kept)[places[p]]);
        assert(names[q] == config_names(kept)[places[q]]);
    }
}

/// The definitions at the places of a rearrangement are the definitions,
/// rearranged.
pub proof fn lemma_pick_rearranged(configs: Seq<TaskConfigView>, places: Seq<int>)
    requires
        places.no_duplicates(),
        places.len() == configs.len(),
        forall|p: int| 0 <= p < places.len() ==> 0 <= #[trigger] places[p] < configs.len(),
    ensures
        pick(configs, places).to_multiset() == configs.to_multiset(),
    decreases configs.len(),
{
    let picked = pick(configs, places);
    if configs.len() == 0 {
        assert(picked =~= configs);
    } else {
        // take the last definition out of both lists
        let last = configs.len() - 1;
        places.unique_seq_to_set();
        vstd::set_lib::lemma_int_range(0, configs.len() as int);
        assert(places.to_set() =~= vstd::set_lib::set_int_range(0, configs.len() as int)) by {
            assert(places.to_set().subset_of(vstd::set_lib::set_int_range(0, configs.len() as int))) by {
                assert forall|i: int| places.to_set().contains(i) implies vstd::set_lib::set_int_range(
                    0,
                    configs.len() as int,
                ).contains(i) by {
                    assert(places.contains(i));
                }
            }
            vstd::set_lib::lemma_subset_equality(
                places.to_set(),
                vstd::set_lib::set_int_range(0, configs.len() as int),
            );
        }
        assert(places.to_set().contains(last));
        assert(places.contains(last));
        let at = choose|at: int| 0 <= at < places.len() && places[at] == last;
        let fewer = places.remove(at);
        let shorter = configs.drop_last();
        assert forall|p: int, q: int| 0 <= p < fewer.len() && 0 <= q < fewer.len() && p != q implies fewer[p]
            != fewer[q] by {
            let pp = if p < at {
                p
            } else {
                p + 1
            };
            let qq = if q < at {
                q
            } else {
                q + 1
            };
            assert(fewer[p] == places[pp]);
            assert(fewer[q] == places[qq]);
        }
        assert forall|p: int| 0 <= p < fewer.len() implies 0 <= #[trigger] fewer[p] < shorter.len() by {
            let pp = if p < at {
                p
            } else {
                p + 1
            };
            assert(fewer[p] == places[pp]);
            assert(places[pp] != places[at]);
        }
        lemma_pick_rearranged(shorter, fewer);
        assert(pick(shorter, fewer) =~= picked.remove(at)) by {
            assert forall|p: int| 0 <= p < fewer.len() implies pick(shorter, fewer)[p] == picked.remove(
                at,
            )[p] by {
                let pp = if p < at {
                    p
                } else {
                    p + 1
                };
                assert(fewer[p] == places[pp]);
            }
        }
        assert(picked[at] == configs[last]);
        picked.to_multiset_ensures();
        vstd::seq_lib::to_multiset_remove(picked, at);
        vstd::seq_lib::to_multiset_build(shorter, configs[last]);
        assert(configs =~= shorter.push(configs[last]));
        assert(picked.contains(picked[at]));
        assert(picked.to_multiset().count(picked[at]) > 0);
        assert(picked.to_multiset() =~= picked.to_multiset().remove(picked[at]).insert(picked[at]));
    }
}

/// Whether all that came before a name in the graph `whole` has either
/// been dealt with or is still before it in the graph `g`: for every
/// dependency of `whole` that ends at a name of `g`, the dependency is in
/// `g`, or every task with the name at its start is taken.
pub open spec fn settled(configs: Seq<TaskConfigView>, whole: Graph, g: Graph, taken: Set<int>) -> bool {
    forall|p: Seq<char>, n: Seq<char>|
        #[trigger] whole.edges.contains((p, n)) && g.nodes.contains(n) ==> g.edges.contains((p, n))
            || all_taken(configs, p, taken)
}

/// Whether every task called `name` is taken.
pub open spec fn all_taken(configs: Seq<TaskConfigView>, name: Seq<char>, taken: Set<int>) -> bool {
    forall|i: int| 0 <= i < configs.len() && (#[trigger] configs[i]).name == name ==> taken.contains(i)
}

/// In the rounds, a task comes after every task that a dependency of the
/// graph puts before it: each such task was taken before the rounds began,
/// or stands earlier in the rounds.
pub proof fn lemma_rounds_follow_dependencies(configs: Seq<TaskConfigView>, whole: Graph, g: Graph, taken: Set<int>)
    requires
        g.nodes.finite(),
        settled(configs, whole, g, taken),
    ensures
        forall|q: int|
            0 <= q < rounds(configs, g, taken).len() ==> g.nodes.contains(
                configs[#[trigger] rounds(configs, g, taken)[q]].name,
            ),
        forall|q: int, i: int|
            0 <= q < rounds(configs, g, taken).len() && 0 <= i < configs.len() && whole.edges.contains(
                ((#[trigger] configs[i]).name, configs[#[trigger] rounds(configs, g, taken)[q]].name),
            ) ==> taken.contains(i) || exists|e: int|
                0 <= e < q && #[trigger] rounds(configs, g, taken)[e] == i,
    decreases g.nodes.len(),
{
    if !g.ready().is_empty() {
        let here = part(configs, Wanted::Named(g.ready()), taken);
        let taken_now = taken.union(here.to_set());
        let next = g.pop();
        let rest = rounds(configs, next, taken_now);
        let all = rounds(configs, g, taken);
        assert(all == here + rest);
        lemma_pop_decreases(g);
        lemma_part(configs, Wanted::Named(g.ready()), taken);
        assert(settled(configs, whole, next, taken_now)) by {
            assert forall|p: Seq<char>, n: Seq<char>|
                #[trigger] whole.edges.contains((p, n)) && next.nodes.contains(n) implies next.edges.contains(
                (p, n),
            ) || all_taken(configs, p, taken_now) by {
                if g.edges.contains((p, n)) {
                    if g.ready().contains(p) {
                        assert forall|i: int|
                            0 <= i < configs.len() && (#[trigger] configs[i]).name == p implies taken_now.contains(
                            i,
                        ) by {
                            if !taken.contains(i) {
                                assert(here.contains(i));
                                assert(here.to_set().contains(i));
                            }
                        }
                    }
                } else {
                    assert(all_taken(configs, p, taken));
                }
            }
        }
        lemma_rounds_follow_dependencies(configs, whole, next, taken_now);
        assert forall|q: int| 0 <= q < all.len() implies g.nodes.contains(configs[#[trigger] all[q]].name) by {
            if q < here.len() {
                assert(all[q] == here[q]);
            } else {
                assert(all[q] == rest[q - here.len()]);
            }
        }
        assert forall|q: int, i: int|
            0 <= q < all.len() && 0 <= i < configs.len() && whole.edges.contains(
                ((#[trigger] configs[i]).name, configs[#[trigger] all[q]].name),
            ) implies taken.contains(i) || exists|e: int| 0 <= e < q && #[trigger] all[e] == i by {
            let p = configs[i].name;
            let n = configs[all[q]].name;
            if q < here.len() {
                assert(all[q] == here[q]);
                assert(g.ready().contains(n));
                assert(!g.edges.contains((p, n)));
                assert(all_taken(configs, p, taken));
            } else {
                let back = q - here.len();
                assert(all[q] == rest[back]);
                if taken_now.contains(i) {
                    if !taken.contains(i) {
                        assert(here.to_set().contains(i));
                        assert(here.contains(i));
                        let e = choose|e: int| 0 <= e < here.len() && here[e] == i;
                        assert(all[e] == i);
                    }
                } else {
                    let e = choose|e: int| 0 <= e < back && #[trigger] rest[e] == i;
                    assert(all[here.len() + e] == i);
                }
            }
        }
    }
}

/// Linking adds to a graph and takes nothing away, and it adds each
/// dependency that names a known task.
pub proof fn lemma_link_all_edges(g: Graph, known: Seq<Seq<char>>, deps: Seq<Seq<char>>, task: Seq<char>, k: nat)
    requires
        k <= deps.len(),
    ensures
        g.edges.subset_of(link_all(g, known, deps, task, k).edges),
        forall|x: int|
            0 <= x < k && known.contains(#[trigger] deps[x]) ==> link_all(g, known, deps, task, k).edges.contains(
                (deps[x], task),
            ),
    decreases k,
{
    if k > 0 {
        lemma_link_all_edges(g, known, deps, task, (k - 1) as nat);
    }
}

/// The graph of a list of tasks grows with the list.
pub proof fn lemma_graph_grows(configs: Seq<TaskConfigView>, j: nat, k: nat)
    requires
        j <= k <= configs.len(),
    ensures
        graph_upto(configs, j).edges.subset_of(graph_upto(configs, k).edges),
    decreases k - j,
{
    if j < k {
        lemma_graph_grows(configs, j, (k - 1) as nat);
        let before = graph_upto(configs, (k - 1) as nat);
        let c = configs[k - 1];
        let known = config_names(configs);
        lemma_link_all_edges(before, known, c.after, c.name, c.after.len());
        lemma_link_all_edges(
            link_all(before, known, c.after, c.name, c.after.len()),
            known,
            c.with,
            c.name,
            c.with.len(),
        );
    }
}

/// Every dependency of a task that is no marker, on a task that exists,
/// is in the dependency graph.
pub proof fn lemma_dependency_is_in_graph(configs: Seq<TaskConfigView>, j: int, name: Seq<char>)
    requires
        0 <= j < configs.len(),
        dependent(configs[j]),
        configs[j].after.contains(name) || configs[j].with.contains(name),
        config_names(configs).contains(name),
    ensures
        graph_of(configs).edges.contains((name, configs[j].name)),
{
    let before = graph_upto(configs, j as nat);
    let c = configs[j];
    let known = config_names(configs);
    let middle = link_all(before, known, c.after, c.name, c.after.len());
    lemma_link_all_edges(before, known, c.after, c.name, c.after.len());
    lemma_link_all_edges(middle, known, c.with, c.name, c.with.len());
    assert(graph_upto(configs, (j + 1) as nat) == link_task(before, known, c));
    lemma_graph_grows(configs, (j + 1) as nat, configs.len());
    if c.after.contains(name) {
        let x = choose|x: int| 0 <= x < c.after.len() && c.after[x] == name;
        assert(middle.edges.contains((c.after[x], c.name)));
    } else {
        let x = choose|x: int| 0 <= x < c.with.len() && c.with[x] == name;
        assert(link_task(before, known, c).edges.contains((c.with[x], c.name)));
    }
}

/// The spawn order honours the dependencies. A task that the rounds of the
/// sort have placed, and that is no marker, stands after every task that it
/// names on its `after` list or its `with` list.
pub proof fn lemma_sorted_places_follow_dependencies(configs: Seq<TaskConfigView>, q: int, i: int)
    requires
        part(configs, Wanted::Independent, Set::empty()).len() <= q < part(
            configs,
            Wanted::Independent,
            Set::empty(),
        ).len() + rounds(
            configs,
            graph_of(configs),
            part(configs, Wanted::Independent, Set::empty()).to_set(),
        ).len(),
        0 <= i < configs.len(),
        !(configs[sorted_places(configs)[q]].payload is Marker),
        configs[sorted_places(configs)[q]].after.contains(configs[i].name) || configs[sorted_places(
            configs,
        )[q]].with.contains(configs[i].name),
    ensures
        exists|e: int| 0 <= e < q && #[trigger] sorted_places(configs)[e] == i,
{
    let whole = graph_of(configs);
    let first = part(configs, Wanted::Independent, Set::empty());
    let second = rounds(configs, whole, first.to_set());
    let all = sorted_places(configs);
    let back = q - first.len();
    let j = all[q];
    assert(j == second[back]);
    lemma_graph_finite(configs, configs.len());
    lemma_part(configs, Wanted::Independent, Set::empty());
    lemma_rounds(configs, whole, first.to_set());
    assert(settled(configs, whole, whole, first.to_set()));
    lemma_rounds_follow_dependencies(configs, whole, whole, first.to_set());
    assert(dependent(configs[j])) by {
        // a task without dependencies was taken before the rounds
        if configs[j].independent() {
            assert(first.contains(j));
            assert(first.to_set().contains(j));
        }
    }
    assert(config_names(configs).contains(configs[i].name)) by {
        assert(config_names(configs)[i] == configs[i].name);
    }
    lemma_dependency_is_in_graph(configs, j, configs[i].name);
    if first.to_set().contains(i) {
        assert(first.contains(i));
        let e = choose|e: int| 0 <= e < first.len() && first[e] == i;
        assert(all[e] == i);
    } else {
        let e = choose|e: int| 0 <= e < back && #[trigger] second[e] == i;
        assert(all[first.len() + e] == i);
    }
}

/// Whether the list holds a marker called `name` that waits for `task`.
pub open spec fn waits_for(markers: Seq<TaskConfigYamlView>, name: Seq<char>, task: Seq<char>) -> bool {
    exists|p: int|
        0 <= p < markers.len() && (#[trigger] markers[p]).name == name && markers[p].cmd
            == PayloadYamlView::Marker && markers[p].after.contains(task)
}

/// Whether the list holds the marker called `name` that waits for `task`
/// and for nothing else.
pub open spec fn waits_only_for(markers: Seq<TaskConfigYamlView>, name: Seq<char>, task: Seq<char>) -> bool {
    exists|p: int| 0 <= p < markers.len() && #[trigger] markers[p] == marker(name, seq![task])
}

/// The marker of a group and the marker of a feature never have one name,
/// and the markers of two features have one name only if the features are
/// one.
pub proof fn lemma_marker_names_differ(group: Seq<char>, feature: Seq<char>, other: Seq<char>)
    ensures
        group_marker_name(group) != feature_marker_name(feature),
        feature_marker_name(feature) == feature_marker_name(other) ==> feature == other,
{
    reveal_strlit("group::");
    reveal_strlit("feature::");
    assert(group_marker_name(group)[0] == 'g');
    assert(feature_marker_name(feature)[0] == 'f');
    if feature_marker_name(feature) == feature_marker_name(other) {
        let head = "feature::"@;
        assert(feature =~= feature_marker_name(feature).subrange(head.len() as int, (head.len() + feature.len()) as int));
        assert(other =~= feature_marker_name(other).subrange(head.len() as int, (head.len() + other.len()) as int));
        assert(feature_marker_name(feature).len() == head.len() + feature.len());
        assert(feature_marker_name(other).len() == head.len() + other.len());
    }
}

/// Whether everything in the list is a marker.
pub open spec fn groups_are_markers(markers: Seq<TaskConfigYamlView>) -> bool {
    forall|p: int| 0 <= p < markers.len() ==> (#[trigger] markers[p]).cmd == PayloadYamlView::Marker
}

/// The marker of each group waits for each member of the group.
pub proof fn lemma_group_markers_hold_members(configs: Seq<TaskConfigYamlView>, k: nat, i: int, group: Seq<char>)
    requires
        k <= configs.len(),
        0 <= i < k,
        configs[i].group == Some(group),
    ensures
        waits_for(group_markers(configs, k), group_marker_name(group), configs[i].name),
        groups_are_markers(group_markers(configs, k)),
    decreases k,
{
    lemma_group_markers_are_markers(configs, k);
    let before = group_markers(configs, (k - 1) as nat);
    match configs[k - 1].group {
        Some(g) => {
            lemma_group_markers_are_markers(configs, (k - 1) as nat);
            lemma_joined_marker(before, group_marker_name(g), configs[k - 1].name);
            if i < k - 1 {
                lemma_group_markers_hold_members(configs, (k - 1) as nat, i, group);
            }
        },
        None => {
            lemma_group_markers_hold_members(configs, (k - 1) as nat, i, group);
        },
    }
}

/// Every group marker is a marker.
pub proof fn lemma_group_markers_are_markers(configs: Seq<TaskConfigYamlView>, k: nat)
    requires
        k <= configs.len(),
    ensures
        groups_are_markers(group_markers(configs, k)),
    decreases k,
{
    if k > 0 {
        lemma_group_markers_are_markers(configs, (k - 1) as nat);
        let before = group_markers(configs, (k - 1) as nat);
        match configs[k - 1].group {
            Some(g) => {
                yaml_names(before).index_of_first_ensures(group_marker_name(g));
            },
            None => {},
        }
    }
}

/// In a list of markers, a member that joins a group is waited for by the
/// group's marker, and whoever was waited for by a marker still is.
pub proof fn lemma_joined_marker(markers: Seq<TaskConfigYamlView>, name: Seq<char>, member: Seq<char>)
    requires
        groups_are_markers(markers),
    ensures
        waits_for(joined(markers, name, member), name, member),
        forall|n: Seq<char>, t: Seq<char>|
            waits_for(markers, n, t) ==> #[trigger] waits_for(joined(markers, name, member), n, t),
{
    let now = joined(markers, name, member);
    yaml_names(markers).index_of_first_ensures(name);
    match yaml_names(markers).index_of_first(name) {
        Some(q) => {
            assert(yaml_names(markers)[q] == markers[q].name);
            assert(now[q].after[markers[q].after.len() as int] == member);
            assert(now[q].after.contains(member));
            assert(now[q].name == name && now[q].cmd == PayloadYamlView::Marker);
        },
        None => {
            assert(now[markers.len() as int] == marker(name, seq![member]));
            assert(seq![member][0] == member);
            assert(now[markers.len() as int].after.contains(member));
        },
    }
    assert forall|n: Seq<char>, t: Seq<char>| waits_for(markers, n, t) implies #[trigger] waits_for(
        now,
        n,
        t,
    ) by {
        let p = choose|p: int|
            0 <= p < markers.len() && (#[trigger] markers[p]).name == n && markers[p].cmd
                == PayloadYamlView::Marker && markers[p].after.contains(t);
        let x = choose|x: int| 0 <= x < markers[p].after.len() && markers[p].after[x] == t;
        assert(now[p].name == n && now[p].cmd == PayloadYamlView::Marker);
        assert(now[p].after[x] == t);
    }
}

/// A feature that is provided leaves the markers of other names as they
/// are, and its own marker waits for its provider alone.
pub proof fn lemma_provided(markers: Seq<TaskConfigYamlView>, name: Seq<char>, producer: Seq<char>)
    ensures
        waits_only_for(provided(markers, name, producer), name, producer),
        forall|n: Seq<char>, t: Seq<char>|
            n != name && waits_for(markers, n, t) ==> #[trigger] waits_for(
                provided(markers, name, producer),
                n,
                t,
            ),
        forall|n: Seq<char>, t: Seq<char>|
            n != name && waits_only_for(markers, n, t) ==> #[trigger] waits_only_for(
                provided(markers, name, producer),
                n,
                t,
            ),
{
    let now = provided(markers, name, producer);
    yaml_names(markers).index_of_first_ensures(name);
    match yaml_names(markers).index_of_first(name) {
        Some(q) => {
            assert(yaml_names(markers)[q] == markers[q].name);
            assert(now[q] == marker(name, seq![producer]));
        },
        None => {
            assert(now[markers.len() as int] == marker(name, seq![producer]));
        },
    }
    assert forall|n: Seq<char>, t: Seq<char>| n != name && waits_for(markers, n, t) implies #[trigger] waits_for(
        now,
        n,
        t,
    ) by {
        let p = choose|p: int|
            0 <= p < markers.len() && (#[trigger] markers[p]).name == n && markers[p].cmd
                == PayloadYamlView::Marker && markers[p].after.contains(t);
        assert(now[p] == markers[p]);
    }
    assert forall|n: Seq<char>, t: Seq<char>|
        n != name && waits_only_for(markers, n, t) implies #[trigger] waits_only_for(now, n, t) by {
        let p = choose|p: int| 0 <= p < markers.len() && #[trigger] markers[p] == marker(n, seq![t]);
        assert(now[p] == markers[p]);
    }
}

/// The features that a task provides leave the markers of groups as they
/// are.
pub proof fn lemma_provided_all_keeps_groups(
    markers: Seq<TaskConfigYamlView>,
    features: Seq<Seq<char>>,
    producer: Seq<char>,
    k: nat,
    group: Seq<char>,
    task: Seq<char>,
)
    requires
        k <= features.len(),
        waits_for(markers, group_marker_name(group), task),
    ensures
        waits_for(provided_all(markers, features, producer, k), group_marker_name(group), task),
    decreases k,
{
    if k > 0 {
        lemma_provided_all_keeps_groups(markers, features, producer, (k - 1) as nat, group, task);
        lemma_marker_names_differ(group, features[k - 1], features[k - 1]);
        lemma_provided(
            provided_all(markers, features, producer, (k - 1) as nat),
            feature_marker_name(features[k - 1]),
            producer,
        );
    }
}

/// The features of the first `k` tasks leave the markers of groups as they
/// are.
pub proof fn lemma_feature_markers_keep_groups(
    markers: Seq<TaskConfigYamlView>,
    configs: Seq<TaskConfigYamlView>,
    k: nat,
    group: Seq<char>,
    task: Seq<char>,
)
    requires
        k <= configs.len(),
        waits_for(markers, group_marker_name(group), task),
    ensures
        waits_for(feature_markers(markers, configs, k), group_marker_name(group), task),
    decreases k,
{
    if k > 0 {
        lemma_feature_markers_keep_groups(markers, configs, (k - 1) as nat, group, task);
        lemma_provided_all_keeps_groups(
            feature_markers(markers, configs, (k - 1) as nat),
            configs[k - 1].provides,
            configs[k - 1].name,
            configs[k - 1].provides.len(),
            group,
            task,
        );
    }
}

/// Every group has its marker. For every task with a group, the markers
/// hold a marker named `group::` and the group's name that waits for the
/// task.
pub proof fn lemma_every_member_is_waited_for(configs: Seq<TaskConfigYamlView>, i: int, group: Seq<char>)
    requires
        0 <= i < configs.len(),
        configs[i].group == Some(group),
    ensures
        waits_for(markers_of(configs), group_marker_name(group), configs[i].name),
{
    lemma_group_markers_hold_members(configs, configs.len(), i, group);
    lemma_feature_markers_keep_groups(
        group_markers(configs, configs.len()),
        configs,
        configs.len(),
        group,
        configs[i].name,
    );
}

/// The place of the last among the first `k` tasks that provides `feature`.
pub open spec fn last_provider(configs: Seq<TaskConfigYamlView>, feature: Seq<char>, k: nat) -> Option<int>
    decreases k,
{
    if k == 0 {
        None
    } else if configs[k - 1].provides.contains(feature) {
        Some(k - 1)
    } else {
        last_provider(configs, feature, (k - 1) as nat)
    }
}

/// The place of the task that the marker of `feature` waits for once the
/// first `k` tasks and the first `x` features of the next have been dealt
/// with.
pub open spec fn provider_so_far(configs: Seq<TaskConfigYamlView>, feature: Seq<char>, k: nat, x: nat) -> Option<int> {
    if configs[k as int].provides.take(x as int).contains(feature) {
        Some(k as int)
    } else {
        last_provider(configs, feature, k)
    }
}

/// While the features of one task are dealt with, the marker of each
/// feature waits for the task that provided it last.
pub proof fn lemma_provided_all_sets_providers(
    markers: Seq<TaskConfigYamlView>,
    configs: Seq<TaskConfigYamlView>,
    k: nat,
    x: nat,
    feature: Seq<char>,
)
    requires
        k < configs.len(),
        x <= configs[k as int].provides.len(),
        forall|f: Seq<char>|
            last_provider(configs, f, k) is Some ==> #[trigger] waits_only_for(
                markers,
                feature_marker_name(f),
                configs[last_provider(configs, f, k)->0].name,
            ),
        provider_so_far(configs, feature, k, x) is Some,
    ensures
        waits_only_for(
            provided_all(markers, configs[k as int].provides, configs[k as int].name, x),
            feature_marker_name(feature),
            configs[provider_so_far(configs, feature, k, x)->0].name,
        ),
    decreases x,
{
    let tags = configs[k as int].provides;
    if x == 0 {
        assert(tags.take(0).len() == 0);
        assert(waits_only_for(
            markers,
            feature_marker_name(feature),
            configs[last_provider(configs, feature, k)->0].name,
        ));
    } else {
        let before = provided_all(markers, tags, configs[k as int].name, (x - 1) as nat);
        let tag = tags[x - 1];
        lemma_provided(before, feature_marker_name(tag), configs[k as int].name);
        assert(tags.take(x as int) =~= tags.take(x - 1).push(tag));
        if tag == feature {
            assert(tags.take(x as int)[x - 1] == feature);
        } else {
            lemma_marker_names_differ(feature, feature, tag);
            let longer = tags.take(x as int);
            let shorter = tags.take(x - 1);
            assert(longer.contains(feature) == shorter.contains(feature)) by {
                if longer.contains(feature) {
                    let y = choose|y: int| 0 <= y < longer.len() && longer[y] == feature;
                    assert(shorter[y] == feature);
                }
                if shorter.contains(feature) {
                    let y = choose|y: int| 0 <= y < shorter.len() && shorter[y] == feature;
                    assert(longer[y] == feature);
                }
            }
            lemma_provided_all_sets_providers(markers, configs, k, (x - 1) as nat, feature);
        }
    }
}

/// Once the features of the first `k` tasks are dealt with, the marker of
/// each feature waits for the task that provided it last.
pub proof fn lemma_feature_markers_set_providers(
    markers: Seq<TaskConfigYamlView>,
    configs: Seq<TaskConfigYamlView>,
    k: nat,
    feature: Seq<char>,
)
    requires
        k <= configs.len(),
        last_provider(configs, feature, k) is Some,
    ensures
        waits_only_for(
            feature_markers(markers, configs, k),
            feature_marker_name(feature),
            configs[last_provider(configs, feature, k)->0].name,
        ),
    decreases k,
{
    let j = (k - 1) as nat;
    let before = feature_markers(markers, configs, j);
    let tags = configs[j as int].provides;
    assert forall|f: Seq<char>| last_provider(configs, f, j) is Some implies #[trigger] waits_only_for(
        before,
        feature_marker_name(f),
        configs[last_provider(configs, f, j)->0].name,
    ) by {
        lemma_feature_markers_set_providers(markers, configs, j, f);
    }
    assert(tags.take(tags.len() as int) =~= tags);
    lemma_provided_all_sets_providers(before, configs, j, tags.len(), feature);
}

/// Every feature has its marker, and the last provider overrides. For
/// every feature that some task provides, the markers hold the marker named
/// `feature::` and the feature's name that waits for the last task that
/// provides the feature, and for nothing else.
pub proof fn lemma_every_feature_waits_for_its_last_provider(configs: Seq<TaskConfigYamlView>, feature: Seq<char>)
    requires
        last_provider(configs, feature, configs.len()) is Some,
    ensures
        waits_only_for(
            markers_of(configs),
            feature_marker_name(feature),
            configs[last_provider(configs, feature, configs.len())->0].name,
        ),
{
    lemma_feature_markers_set_providers(
        group_markers(configs, configs.len()),
        configs,
        configs.len(),
        feature,
    );
}

/// What `last_provider` finds: a task that provides the feature, after
/// which no task provides it; and it finds one whenever a task provides the
/// feature.
pub proof fn lemma_last_provider(configs: Seq<TaskConfigYamlView>, feature: Seq<char>, k: nat)
    requires
        k <= configs.len(),
    ensures
        match last_provider(configs, feature, k) {
            Some(j) => 0 <= j < k && configs[j].provides.contains(feature) && forall|l: int|
                j < l < k ==> !(#[trigger] configs[l]).provides.contains(feature),
            None => forall|l: int| 0 <= l < k ==> !(#[trigger] configs[l]).provides.contains(feature),
        },
    decreases k,
{
    if k > 0 {
        lemma_last_provider(configs, feature, (k - 1) as nat);
    }
}

/// A list of markers with a marker changed in place, or with a marker of a
/// new name at its end, still has no name twice.
proof fn lemma_names_stay_unique(markers: Seq<TaskConfigYamlView>, now: Seq<TaskConfigYamlView>, name: Seq<char>)
    requires
        yaml_names(markers).no_duplicates(),
        match yaml_names(markers).index_of_first(name) {
            Some(q) => now.len() == markers.len() && now[q].name == name && forall|p: int|
                0 <= p < markers.len() && p != q ==> now[p] == markers[p],
            None => now.len() == markers.len() + 1 && now.last().name == name && forall|p: int|
                0 <= p < markers.len() ==> now[p] == markers[p],
        },
    ensures
        yaml_names(now).no_duplicates(),
{
    let before = yaml_names(markers);
    let after = yaml_names(now);
    before.index_of_first_ensures(name);
    assert forall|i: int, j: int| 0 <= i < after.len() && 0 <= j < after.len() && i != j implies after[i]
        != after[j] by {
        match before.index_of_first(name) {
            Some(q) => {
                assert(before[q] == name);
                assert(after[i] == before[i]);
                assert(after[j] == before[j]);
            },
            None => {
                if i < markers.len() && j < markers.len() {
                    assert(after[i] == before[i]);
                    assert(after[j] == before[j]);
                } else if i < markers.len() {
                    assert(after[i] == before[i]);
                    assert(before.contains(before[i]));
                } else {
                    assert(after[j] == before[j]);
                    assert(before.contains(before[j]));
                }
            },
        }
    }
}

/// The features that a task provides leave no marker name twice.
proof fn lemma_provided_all_unique(
    markers: Seq<TaskConfigYamlView>,
    features: Seq<Seq<char>>,
    producer: Seq<char>,
    k: nat,
)
    requires
        k <= features.len(),
        yaml_names(markers).no_duplicates(),
    ensures
        yaml_names(provided_all(markers, features, producer, k)).no_duplicates(),
    decreases k,
{
    if k > 0 {
        let before = provided_all(markers, features, producer, (k - 1) as nat);
        lemma_provided_all_unique(markers, features, producer, (k - 1) as nat);
        yaml_names(before).index_of_first_ensures(feature_marker_name(features[k - 1]));
        lemma_names_stay_unique(
            before,
            provided(before, feature_marker_name(features[k - 1]), producer),
            feature_marker_name(features[k - 1]),
        );
    }
}

/// No two markers have one name.
pub proof fn lemma_marker_names_are_unique(configs: Seq<TaskConfigYamlView>)
    ensures
        yaml_names(markers_of(configs)).no_duplicates(),
{
    lemma_group_names_unique(configs, configs.len());
    lemma_feature_names_unique(group_markers(configs, configs.len()), configs, configs.len());
}

/// No two group markers have one name.
proof fn lemma_group_names_unique(configs: Seq<TaskConfigYamlView>, k: nat)
    requires
        k <= configs.len(),
    ensures
        yaml_names(group_markers(configs, k)).no_duplicates(),
    decreases k,
{
    if k > 0 {
        lemma_group_names_unique(configs, (k - 1) as nat);
        let before = group_markers(configs, (k - 1) as nat);
        match configs[k - 1].group {
            Some(g) => {
                yaml_names(before).index_of_first_ensures(group_marker_name(g));
                lemma_names_stay_unique(
                    before,
                    joined(before, group_marker_name(g), configs[k - 1].name),
                    group_marker_name(g),
                );
            },
            None => {},
        }
    }
}

/// The features of the first `k` tasks leave no marker name twice.
proof fn lemma_feature_names_unique(markers: Seq<TaskConfigYamlView>, configs: Seq<TaskConfigYamlView>, k: nat)
    requires
        k <= configs.len(),
        yaml_names(markers).no_duplicates(),
    ensures
        yaml_names(feature_markers(markers, configs, k)).no_duplicates(),
    decreases k,
{
    if k > 0 {
        lemma_feature_names_unique(markers, configs, (k - 1) as nat);
        lemma_provided_all_unique(
            feature_markers(markers, configs, (k - 1) as nat),
            configs[k - 1].provides,
            configs[k - 1].name,
            configs[k - 1].provides.len(),
        );
    }
}

/// Whether `after` is `before` with longer `after` lists: the same tasks at
/// the same places, each waiting for all that it waited for, and maybe for
/// more.
pub open spec fn grown(before: Seq<TaskConfigYamlView>, after: Seq<TaskConfigYamlView>) -> bool {
    &&& after.len() == before.len()
    &&& forall|i: int|
        0 <= i < before.len() ==> {
            &&& before[i].after.is_prefix_of((#[trigger] after[i]).after)
            &&& after[i] == (TaskConfigYamlView {
                after: after[i].after,
                before: after[i].before,
                ..before[i]
            })
        }
}

/// Growing is transitive.
proof fn lemma_grown_transitive(a: Seq<TaskConfigYamlView>, b: Seq<TaskConfigYamlView>, c: Seq<TaskConfigYamlView>)
    requires
        grown(a, b),
        grown(b, c),
    ensures
        grown(a, c),
{
    assert forall|i: int| 0 <= i < a.len() implies {
        &&& a[i].after.is_prefix_of((#[trigger] c[i]).after)
        &&& c[i] == (TaskConfigYamlView { after: c[i].after, before: c[i].before, ..a[i] })
    } by {
        assert(a[i].after.is_prefix_of(b[i].after));
        assert(b[i].after.is_prefix_of(c[i].after));
        assert(a[i].after =~= c[i].after.subrange(0, a[i].after.len() as int)) by {
            assert(a[i].after =~= b[i].after.subrange(0, a[i].after.len() as int));
            assert(b[i].after =~= c[i].after.subrange(0, b[i].after.len() as int));
        }
    }
}

/// A task that a list waits for is still waited for once the list has
/// grown.
proof fn lemma_grown_keeps_after(before: Seq<TaskConfigYamlView>, after: Seq<TaskConfigYamlView>, i: int, name: Seq<char>)
    requires
        grown(before, after),
        0 <= i < before.len(),
        before[i].after.contains(name),
    ensures
        after[i].after.contains(name),
{
    let x = choose|x: int| 0 <= x < before[i].after.len() && before[i].after[x] == name;
    assert(before[i].after =~= after[i].after.subrange(0, before[i].after.len() as int));
    assert(after[i].after[x] == before[i].after[x]);
}

/// Resolving one `before` entry lets the lists grow, leaves the `before`
/// lists alone, and puts the source on the `after` list of the last task
/// with the target's name.
proof fn lemma_resolved_one(list: Seq<TaskConfigYamlView>, source: Seq<char>, target: Seq<char>)
    ensures
        grown(list, resolved_one(list, source, target)),
        yaml_names(resolved_one(list, source, target)) == yaml_names(list),
        forall|i: int|
            0 <= i < list.len() ==> (#[trigger] resolved_one(list, source, target)[i]).before
                == list[i].before,
        match yaml_names(list).index_of_last(target) {
            Some(p) => 0 <= p < list.len() && resolved_one(list, source, target)[p].after.contains(source),
            None => true,
        },
{
    let now = resolved_one(list, source, target);
    yaml_names(list).index_of_last_ensures(target);
    assert(yaml_names(now) =~= yaml_names(list));
    match yaml_names(list).index_of_last(target) {
        Some(p) => {
            assert(now[p].after[list[p].after.len() as int] == source);
            assert(list[p].after =~= now[p].after.subrange(0, list[p].after.len() as int));
        },
        None => {},
    }
    assert forall|i: int| 0 <= i < list.len() implies list[i].after.is_prefix_of(
        (#[trigger] now[i]).after,
    ) by {
        assert(list[i].after =~= now[i].after.subrange(0, list[i].after.len() as int));
    }
}

/// Resolving the first `k` entries of one `before` list lets the lists
/// grow, leaves the `before` lists alone, and puts the source on the `after`
/// list of the last task with the name of each entry.
proof fn lemma_resolved_all(list: Seq<TaskConfigYamlView>, source: Seq<char>, targets: Seq<Seq<char>>, k: nat)
    requires
        k <= targets.len(),
    ensures
        grown(list, resolved_all(list, source, targets, k)),
        yaml_names(resolved_all(list, source, targets, k)) == yaml_names(list),
        forall|i: int|
            0 <= i < list.len() ==> (#[trigger] resolved_all(list, source, targets, k)[i]).before
                == list[i].before,
        forall|x: int, p: int|
            0 <= x < k && yaml_names(list).index_of_last(#[trigger] targets[x]) == Some(p)
                ==> 0 <= p < list.len() && (#[trigger] resolved_all(
                list,
                source,
                targets,
                k,
            )[p]).after.contains(source),
    decreases k,
{
    if k > 0 {
        let before = resolved_all(list, source, targets, (k - 1) as nat);
        let now = resolved_all(list, source, targets, k);
        lemma_resolved_all(list, source, targets, (k - 1) as nat);
        lemma_resolved_one(before, source, targets[k - 1]);
        lemma_grown_transitive(list, before, now);
        assert forall|x: int, p: int|
            0 <= x < k && yaml_names(list).index_of_last(#[trigger] targets[x]) == Some(p) implies 0 <= p
            < list.len() && (#[trigger] now[p]).after.contains(source) by {
            yaml_names(list).index_of_last_ensures(targets[x]);
            if x < k - 1 {
                assert(before[p].after.contains(source));
                lemma_grown_keeps_after(before, now, p, source);
            }
        }
    } else {
        assert forall|i: int| 0 <= i < list.len() implies list[i].after.is_prefix_of(
            (#[trigger] list[i]).after,
        ) by {
            assert(list[i].after =~= list[i].after.subrange(0, list[i].after.len() as int));
        }
    }
}

/// What resolving the `before` lists of the first `k` tasks gives: the same
/// tasks at the same places; the `before` lists of the first `k` empty and
/// the others untouched; every `after` list as it was, and maybe longer;
/// and each of the first `k` tasks on the `after` list of the last task with
/// the name of each entry of its `before` list.
pub proof fn lemma_resolved_upto(configs: Seq<TaskConfigYamlView>, k: nat)
    requires
        k <= configs.len(),
    ensures
        grown(configs, resolved_upto(configs, k)),
        yaml_names(resolved_upto(configs, k)) == yaml_names(configs),
        forall|i: int| 0 <= i < k ==> (#[trigger] resolved_upto(configs, k)[i]).before.len() == 0,
        forall|i: int|
            k <= i < configs.len() ==> (#[trigger] resolved_upto(configs, k)[i]).before
                == configs[i].before,
        forall|i: int, x: int, p: int|
            0 <= i < k && 0 <= x < configs[i].before.len() && yaml_names(configs).index_of_last(
                #[trigger] configs[i].before[x],
            ) == Some(p) ==> 0 <= p < configs.len() && (#[trigger] resolved_upto(
                configs,
                k,
            )[p]).after.contains(configs[i].name),
    decreases k,
{
    if k > 0 {
        let before = resolved_upto(configs, (k - 1) as nat);
        let cleared = before.update(
            k - 1,
            TaskConfigYamlView { before: Seq::empty(), ..before[k - 1] },
        );
        let source = configs[k - 1].name;
        let targets = configs[k - 1].before;
        let now = resolved_upto(configs, k);
        lemma_resolved_upto(configs, (k - 1) as nat);
        assert(yaml_names(cleared) =~= yaml_names(before));
        assert(grown(before, cleared)) by {
            assert forall|i: int| 0 <= i < before.len() implies before[i].after.is_prefix_of(
                (#[trigger] cleared[i]).after,
            ) by {
                assert(before[i].after =~= cleared[i].after.subrange(0, before[i].after.len() as int));
            }
        }
        lemma_resolved_all(cleared, source, targets, targets.len());
        lemma_grown_transitive(configs, before, cleared);
        lemma_grown_transitive(configs, cleared, now);
        lemma_grown_transitive(before, cleared, now);
        assert forall|i: int, x: int, p: int|
            0 <= i < k && 0 <= x < configs[i].before.len() && yaml_names(configs).index_of_last(
                #[trigger] configs[i].before[x],
            ) == Some(p) implies 0 <= p < configs.len() && (#[trigger] now[p]).after.contains(
            configs[i].name,
        ) by {
            yaml_names(configs).index_of_last_ensures(configs[i].before[x]);
            if i < k - 1 {
                assert(before[p].after.contains(configs[i].name));
                lemma_grown_keeps_after(before, now, p, configs[i].name);
            }
        }
    } else {
        assert forall|i: int| 0 <= i < configs.len() implies configs[i].after.is_prefix_of(
            (#[trigger] configs[i]).after,
        ) by {
            assert(configs[i].after =~= configs[i].after.subrange(0, configs[i].after.len() as int));
        }
    }
}

/// What becomes of `before`. After the `before` lists are resolved, no task
/// has one; every task waits for all that it waited for; and a task that
/// was to run before another is on the `after` list of that other, the last
/// of its name.
pub proof fn lemma_before_becomes_after(configs: Seq<TaskConfigYamlView>)
    ensures
        grown(configs, resolved(configs)),
        forall|i: int| 0 <= i < configs.len() ==> (#[trigger] resolved(configs)[i]).before.len() == 0,
        forall|i: int, x: int, p: int|
            0 <= i < configs.len() && 0 <= x < configs[i].before.len() && yaml_names(
                configs,
            ).index_of_last(#[trigger] configs[i].before[x]) == Some(p) ==> 0 <= p < configs.len()
                && (#[trigger] resolved(configs)[p]).after.contains(configs[i].name),
{
    lemma_resolved_upto(configs, configs.len());
}

} // verus!
