//! Looks for tasks that wait for themselves, directly or through others.

use crate::config::{TaskConfig, TaskConfigView};
use crate::text::{
    clone_names, contains_name, lemma_index_of_last_is, lemma_index_of_last_none, str_eq,
};
use vstd::prelude::*;

verus! {

/// For each task its name and the names that it waits for.
pub type DependencyMap = Vec<(String, Vec<String>)>;

/// The names that have an entry in the map, in order.
pub open spec fn keys(map: Seq<(Seq<char>, Seq<Seq<char>>)>) -> Seq<Seq<char>> {
    Seq::new(map.len(), |i: int| map[i].0)
}

/// What the task called `name` waits for: the list of the last entry of
/// that name.
pub open spec fn dependencies(map: Seq<(Seq<char>, Seq<Seq<char>>)>, name: Seq<char>) -> Option<
    Seq<Seq<char>>,
> {
    match keys(map).index_of_last(name) {
        Some(i) => Some(map[i].1),
        None => None,
    }
}

/// The names with an entry in the map that are not in `visited`.
pub open spec fn unvisited(map: Seq<(Seq<char>, Seq<Seq<char>>)>, visited: Seq<Seq<char>>) -> Set<
    Seq<char>,
> {
    keys(map).to_set().difference(visited.to_set())
}

/// Whether a walk along the dependencies that starts at `name`, after the
/// names in `visited`, comes to a name that it has been at.
pub open spec fn loops_from(
    map: Seq<(Seq<char>, Seq<Seq<char>>)>,
    visited: Seq<Seq<char>>,
    name: Seq<char>,
) -> bool
    decreases unvisited(map, visited).len(), 0nat,
    via loops_from_decreases
{
    if visited.contains(name) {
        true
    } else {
        match dependencies(map, name) {
            Some(list) => loops_among(map, visited.push(name), list, list.len()),
            None => false,
        }
    }
}

/// Whether such a walk from one of the first `k` names of `list` does.
pub open spec fn loops_among(
    map: Seq<(Seq<char>, Seq<Seq<char>>)>,
    visited: Seq<Seq<char>>,
    list: Seq<Seq<char>>,
    k: nat,
) -> bool
    decreases unvisited(map, visited).len(), k + 1,
{
    if k == 0 {
        false
    } else {
        loops_among(map, visited, list, (k - 1) as nat) || loops_from(map, visited, list[k - 1])
    }
}

#[via_fn]
proof fn loops_from_decreases(
    map: Seq<(Seq<char>, Seq<Seq<char>>)>,
    visited: Seq<Seq<char>>,
    name: Seq<char>,
) {
    if !visited.contains(name) && dependencies(map, name) is Some {
        lemma_visit_decreases(map, visited, name);
    }
}

/// Visiting a name that has an entry and was not visited leaves fewer names
/// to visit.
pub proof fn lemma_visit_decreases(
    map: Seq<(Seq<char>, Seq<Seq<char>>)>,
    visited: Seq<Seq<char>>,
    name: Seq<char>,
)
    requires
        !visited.contains(name),
        dependencies(map, name) is Some,
    ensures
        unvisited(map, visited.push(name)).len() < unvisited(map, visited).len(),
{
    keys(map).index_of_last_ensures(name);
    let before = unvisited(map, visited);
    let after = unvisited(map, visited.push(name));
    vstd::seq_lib::seq_to_set_is_finite(keys(map));
    assert(before.finite());
    assert(before.contains(name));
    assert(after =~= before.remove(name)) by {
        assert forall|x: Seq<char>| #[trigger] after.contains(x) <==> (before.contains(x) && x != name) by {
            if visited.push(name).contains(x) {
                let p = choose|p: int| 0 <= p < visited.push(name).len() && visited.push(name)[p] == x;
                if p < visited.len() {
                    assert(visited[p] == x);
                }
            }
            if visited.contains(x) {
                let p = choose|p: int| 0 <= p < visited.len() && visited[p] == x;
                assert(visited.push(name)[p] == x);
            }
            if x == name {
                assert(visited.push(name)[visited.len() as int] == name);
            }
        }
    }
}

/// The list that the last entry called `name` holds.
fn lookup<'a>(map: &'a DependencyMap, name: &str) -> (r: Option<&'a Vec<String>>)
    ensures
        r.deep_view() == dependencies(map.deep_view(), name@),
{
    let ghost names = keys(map.deep_view());
    let mut i: usize = map.len();
    while i > 0
        invariant
            i <= map.len(),
            names == keys(map.deep_view()),
            forall|j: int| i <= j < map.len() ==> names[j] != name@,
        decreases i,
    {
        i -= 1;
        assert(names[i as int] == map[i as int].0@);
        if str_eq(map[i].0.as_str(), name) {
            proof {
                lemma_index_of_last_is(names, name@, i as int);
                assert(map.deep_view()[i as int].1 == map[i as int].1.deep_view());
            }
            return Some(&map[i].1);
        }
    }
    proof {
        lemma_index_of_last_none(names, name@);
    }
    None
}

/// Whether the task called `name` waits for a loop: whether a walk along the
/// dependencies that starts at `name`, after the names in `visited`, comes
/// to a name that it has been at.
pub fn has_loop(name: String, map: &DependencyMap, visited: &Vec<String>) -> (r: bool)
    ensures
        r == loops_from(map.deep_view(), visited.deep_view(), name@),
    decreases unvisited(map.deep_view(), visited.deep_view()).len(), 0nat,
{
    if contains_name(visited, name.as_str()) {
        return true;
    }
    let mut path = clone_names(visited);
    let ghost before = visited.deep_view();
    path.push(name.clone());
    assert(path.deep_view() =~= before.push(name@));
    match lookup(map, name.as_str()) {
        Some(list) => {
            proof {
                lemma_visit_decreases(map.deep_view(), before, name@);
            }
            let mut found = false;
            let mut k: usize = 0;
            while k < list.len() && !found
                invariant
                    k <= list.len(),
                    before == visited.deep_view(),
                    path.deep_view() == before.push(name@),
                    unvisited(map.deep_view(), path.deep_view()).len() < unvisited(
                        map.deep_view(),
                        before,
                    ).len(),
                    found == loops_among(map.deep_view(), path.deep_view(), list.deep_view(), k as nat),
                decreases list.len() - k,
            {
                assert(list.deep_view()[k as int] == list[k as int]@);
                found = has_loop(list[k].clone(), map, &path);
                k += 1;
            }
            proof {
                if found {
                    lemma_loops_among_grows(
                        map.deep_view(),
                        path.deep_view(),
                        list.deep_view(),
                        k as nat,
                        list.len() as nat,
                    );
                }
            }
            found
        },
        None => false,
    }
}

/// A loop found among the first `k` names is found among the first `n`.
pub proof fn lemma_loops_among_grows(
    map: Seq<(Seq<char>, Seq<Seq<char>>)>,
    visited: Seq<Seq<char>>,
    list: Seq<Seq<char>>,
    k: nat,
    n: nat,
)
    requires
        k <= n,
        loops_among(map, visited, list, k),
    ensures
        loops_among(map, visited, list, n),
    decreases n - k,
{
    if k < n {
        lemma_loops_among_grows(map, visited, list, k + 1, n);
    }
}

/// For each task of `configs` its name and what it waits for: its `after`
/// list followed by its `with` list.
pub open spec fn dependency_map(configs: Seq<TaskConfigView>) -> Seq<(Seq<char>, Seq<Seq<char>>)> {
    Seq::new(configs.len(), |i: int| (configs[i].name, configs[i].after + configs[i].with))
}

/// The names of those among the first `k` tasks that wait for a loop.
pub open spec fn looping(configs: Seq<TaskConfigView>, k: nat) -> Seq<Seq<char>>
    decreases k,
{
    if k == 0 {
        Seq::empty()
    } else {
        let before = looping(configs, (k - 1) as nat);
        if loops_from(dependency_map(configs), Seq::empty(), configs[k - 1].name) {
            before.push(configs[k - 1].name)
        } else {
            before
        }
    }
}

/// The dependency map of a list of tasks.
fn build_map(configs: &Vec<TaskConfig>) -> (map: DependencyMap)
    ensures
        map.deep_view() == dependency_map(configs.deep_view()),
{
    let mut map: DependencyMap = Vec::new();
    let mut i: usize = 0;
    while i < configs.len()
        invariant
            i <= configs.len(),
            map.len() == i,
            forall|j: int|
                0 <= j < i ==> map[j].0@ == configs[j]@.name && map[j].1.deep_view() == configs[j]@.after
                    + configs[j]@.with,
        decreases configs.len() - i,
    {
        let mut deps = clone_names(&configs[i].after);
        let mut with = clone_names(&configs[i].with);
        let ghost first = deps.deep_view();
        let ghost second = with.deep_view();
        deps.append(&mut with);
        assert(deps.deep_view() =~= first + second);
        map.push((configs[i].name.clone(), deps));
        i += 1;
    }
    assert(map.deep_view() =~= dependency_map(configs.deep_view())) by {
        assert forall|j: int| 0 <= j < map.len() implies map.deep_view()[j] == dependency_map(
            configs.deep_view(),
        )[j] by {
            assert(map.deep_view()[j] == (map[j].0@, map[j].1.deep_view()));
            assert(configs.deep_view()[j] == configs[j]@);
        }
    }
    map
}

/// Checks every task for a loop among its dependencies. The tasks come back
/// as they were given, together with the names of those that wait for a
/// loop and will never run by themselves.
pub fn validate(configs: Vec<TaskConfig>) -> (r: (Vec<TaskConfig>, Vec<String>))
    ensures
        r.0 == configs,
        r.1.deep_view() == looping(configs.deep_view(), configs.len() as nat),
{
    let map = build_map(&configs);
    let ghost all = configs.deep_view();
    let mut found: Vec<String> = Vec::new();
    let visited: Vec<String> = Vec::new();
    assert(visited.deep_view() =~= Seq::<Seq<char>>::empty());
    assert(found.deep_view() =~= looping(all, 0));
    let mut i: usize = 0;
    while i < configs.len()
        invariant
            i <= configs.len(),
            all == configs.deep_view(),
            map.deep_view() == dependency_map(all),
            visited.deep_view() == Seq::<Seq<char>>::empty(),
            found.deep_view() == looping(all, i as nat),
        decreases configs.len() - i,
    {
        assert(all[i as int] == configs[i as int]@);
        if has_loop(configs[i].name.clone(), &map, &visited) {
            let ghost before = found.deep_view();
            found.push(configs[i].name.clone());
            assert(found.deep_view() =~= before.push(all[i as int].name));
        }
        i += 1;
    }
    (configs, found)
}

/// Whether `walk` goes along the dependencies: each name but the first is
/// on the list of the name before it.
pub open spec fn follows(map: Seq<(Seq<char>, Seq<Seq<char>>)>, walk: Seq<Seq<char>>) -> bool {
    &&& walk.len() > 0
    &&& forall|i: int|
        0 <= i < walk.len() - 1 ==> match dependencies(map, #[trigger] walk[i]) {
            Some(list) => list.contains(walk[i + 1]),
            None => false,
        }
}

/// A loop that is reported is there. Where a loop is found from `name`
/// after the names in `visited`, a walk along the dependencies leads from
/// `name` to a name that was visited or that the walk has been at. The walk
/// is what the proof hands back.
pub proof fn lemma_a_loop_is_a_walk(
    map: Seq<(Seq<char>, Seq<Seq<char>>)>,
    visited: Seq<Seq<char>>,
    name: Seq<char>,
) -> (walk: Seq<Seq<char>>)
    requires
        loops_from(map, visited, name),
    ensures
        follows(map, walk),
        walk[0] == name,
        (visited + walk.drop_last()).contains(walk.last()),
    decreases unvisited(map, visited).len(), 0nat,
{
    if visited.contains(name) {
        let walk = seq![name];
        let at = choose|at: int| 0 <= at < visited.len() && visited[at] == name;
        assert((visited + walk.drop_last())[at] == name);
        walk
    } else {
        let list = dependencies(map, name)->0;
        lemma_visit_decreases(map, visited, name);
        let (x, rest) = lemma_a_loop_among(map, visited.push(name), list, list.len());
        let walk = seq![name] + rest;
        assert forall|i: int| 0 <= i < walk.len() - 1 implies match dependencies(map, #[trigger] walk[i]) {
            Some(l) => l.contains(walk[i + 1]),
            None => false,
        } by {
            if i == 0 {
                assert(walk[1] == rest[0]);
                assert(list[x] == rest[0]);
            } else {
                assert(walk[i] == rest[i - 1]);
                assert(walk[i + 1] == rest[i]);
            }
        }
        assert(visited + walk.drop_last() =~= visited.push(name) + rest.drop_last());
        assert(walk.last() == rest.last());
        walk
    }
}

/// Where a loop is found from one of the first `k` names of `list`, there
/// is such a name, and a walk from it that leads to a name that was visited
/// or that the walk has been at.
pub proof fn lemma_a_loop_among(
    map: Seq<(Seq<char>, Seq<Seq<char>>)>,
    visited: Seq<Seq<char>>,
    list: Seq<Seq<char>>,
    k: nat,
) -> (found: (int, Seq<Seq<char>>))
    requires
        k <= list.len(),
        loops_among(map, visited, list, k),
    ensures
        0 <= found.0 < k,
        follows(map, found.1),
        found.1[0] == list[found.0],
        (visited + found.1.drop_last()).contains(found.1.last()),
    decreases unvisited(map, visited).len(), k + 1,
{
    if loops_among(map, visited, list, (k - 1) as nat) {
        lemma_a_loop_among(map, visited, list, (k - 1) as nat)
    } else {
        (k - 1, lemma_a_loop_is_a_walk(map, visited, list[k - 1]))
    }
}

} // verus!
