use alfad::config::payload::Payload;
use alfad::config::yaml::{NameList, PayloadYaml, TaskConfigYaml};
use alfad::config::{latest_configs, TaskConfig};
use alfad::ordering::{construct_markers, resolve_before, sort};
use alfad::validate::{has_loop, validate, DependencyMap};

fn task(name: &str, after: &[&str], with: &[&str]) -> TaskConfig {
    let mut config = TaskConfig::new(name.to_string());
    for a in after {
        config.after(a);
    }
    for w in with {
        config.with.push(w.to_string());
    }
    config
}

fn marker(name: &str, after: &[&str]) -> TaskConfig {
    let mut config = task(name, after, &[]);
    config.payload = Payload::Marker;
    config
}

fn names(configs: &[TaskConfig]) -> Vec<String> {
    configs.iter().map(|c| c.name.clone()).collect()
}

fn sorted_names(configs: Vec<TaskConfig>) -> Vec<String> {
    names(&sort(configs))
}

fn written(name: &str) -> TaskConfigYaml {
    TaskConfigYaml::with_payload(name.to_string(), PayloadYaml::Service("echo".to_string()))
}

fn grouped(name: &str, group: &str) -> TaskConfigYaml {
    let mut y = written(name);
    y.group = Some(group.to_string());
    y
}

fn providing(name: &str, features: &[&str]) -> TaskConfigYaml {
    let mut y = written(name);
    for f in features {
        y.provides.push(f.to_string());
    }
    y
}

fn running_before(name: &str, before: &[&str]) -> TaskConfigYaml {
    let mut y = written(name);
    for b in before {
        y.before.push(b.to_string());
    }
    y
}

fn after_of(y: TaskConfigYaml) -> Vec<String> {
    y.after.to_names()
}

fn strings(list: &[&str]) -> Vec<String> {
    list.iter().map(|s| s.to_string()).collect()
}

#[test]
fn independent_tasks_keep_their_order() {
    let order = sorted_names(vec![task("c", &[], &[]), task("a", &[], &[]), task("b", &[], &[])]);
    assert_eq!(order, ["c", "a", "b"]);
}

#[test]
fn an_empty_list_sorts_to_an_empty_list() {
    assert!(sort(Vec::new()).is_empty());
}

#[test]
fn a_chain_is_sorted_along_its_dependencies() {
    let order = sorted_names(vec![
        task("c", &["b"], &[]),
        task("b", &["a"], &[]),
        task("a", &[], &[]),
    ]);
    assert_eq!(order, ["a", "b", "c"]);
}

#[test]
fn with_dependencies_order_like_after_dependencies() {
    let order = sorted_names(vec![
        task("dep", &[], &["srv"]),
        task("late", &["dep"], &[]),
        task("srv", &[], &[]),
    ]);
    assert_eq!(order, ["srv", "dep", "late"]);
}

#[test]
fn tasks_of_one_round_keep_their_order() {
    // z, y and x all wait for `base` alone; m waits for y
    let order = sorted_names(vec![
        task("m", &["y"], &[]),
        task("z", &["base"], &[]),
        task("base", &[], &[]),
        task("y", &["base"], &[]),
        task("x", &[], &["base"]),
    ]);
    assert_eq!(order, ["base", "z", "y", "x", "m"]);
}

#[test]
fn a_task_comes_in_the_round_after_its_last_dependency() {
    let order = sorted_names(vec![
        task("top", &["a", "c"], &[]),
        task("c", &["b"], &[]),
        task("b", &["a"], &[]),
        task("side", &["a"], &[]),
        task("a", &[], &[]),
    ]);
    // rounds: {b, side}, {c}, {top}
    assert_eq!(order, ["a", "b", "side", "c", "top"]);
}

#[test]
fn markers_that_nothing_waits_for_come_after_the_sorted_tasks() {
    let order = sorted_names(vec![
        marker("group::g", &["a", "b"]),
        task("b", &["a"], &[]),
        task("a", &[], &[]),
    ]);
    assert_eq!(order, ["a", "b", "group::g"]);
}

#[test]
fn a_marker_that_a_task_waits_for_comes_before_that_task() {
    let order = sorted_names(vec![
        task("web", &["feature::network"], &[]),
        marker("feature::network", &["net"]),
        task("net", &[], &[]),
    ]);
    assert_eq!(order, ["net", "feature::network", "web"]);
}

#[test]
fn a_marker_without_dependencies_is_an_independent_task() {
    let order = sorted_names(vec![task("a", &["m"], &[]), marker("m", &[])]);
    assert_eq!(order, ["m", "a"]);
}

#[test]
fn tasks_on_a_cycle_come_last() {
    let order = sorted_names(vec![
        task("p", &["q"], &[]),
        task("q", &["p"], &[]),
        marker("group::g", &["p"]),
        task("behind", &["p"], &[]),
        task("b", &["a"], &[]),
        task("a", &[], &[]),
    ]);
    assert_eq!(order, ["a", "b", "group::g", "p", "q", "behind"]);
}

#[test]
fn a_task_that_waits_for_itself_comes_last() {
    let order = sorted_names(vec![task("selfish", &["selfish"], &[]), task("a", &[], &[])]);
    assert_eq!(order, ["a", "selfish"]);
}

#[test]
fn dependencies_that_do_not_exist_are_ignored() {
    let order = sorted_names(vec![
        task("orphan", &["ghost"], &[]),
        task("half", &["ghost", "a"], &[]),
        task("a", &[], &[]),
    ]);
    // `half` is ordered by the dependency that exists; `orphan` has none
    assert_eq!(order, ["a", "half", "orphan"]);
}

#[test]
fn the_last_definition_of_a_name_counts() {
    let sorted = sort(vec![
        task("a", &["b"], &[]),
        task("b", &[], &[]),
        task("a", &[], &[]),
    ]);
    assert_eq!(names(&sorted), ["b", "a"]);
    assert!(sorted[1].after.is_empty());
    let latest = latest_configs(&vec![task("x", &[], &[]), task("y", &[], &[]), task("x", &["y"], &[])]);
    assert_eq!(names(&latest), ["y", "x"]);
    assert_eq!(latest[1].after, ["y"]);
}

#[test]
fn sorting_keeps_every_task_once() {
    let configs = vec![
        task("e", &["d", "ghost"], &["a"]),
        task("d", &["c"], &[]),
        marker("group::x", &["a", "e"]),
        task("c", &["e"], &[]),
        task("a", &[], &[]),
        task("lonely", &["nobody"], &[]),
        marker("feature::f", &["a"]),
    ];
    let mut expected = names(&configs);
    let mut got = sorted_names(configs);
    assert_eq!(got, ["a", "group::x", "feature::f", "e", "d", "c", "lonely"]);
    expected.sort();
    got.sort();
    assert_eq!(got, expected);
}

#[test]
fn sorting_keeps_the_definitions_whole() {
    let mut svc = task("svc", &["base"], &["peer"]);
    svc.payload = Payload::from_str(":-run $X\nsecond").unwrap();
    svc.group = Some("g".to_string());
    svc.provides.push("feat".to_string());
    svc.respawn = alfad::config::Respawn::Retry(4);
    let sorted = sort(vec![svc, task("base", &[], &[]), task("peer", &[], &[])]);
    assert_eq!(names(&sorted), ["base", "peer", "svc"]);
    let svc = &sorted[2];
    assert_eq!(svc.after, ["base"]);
    assert_eq!(svc.with, ["peer"]);
    assert_eq!(svc.group.as_deref(), Some("g"));
    assert_eq!(svc.provides, ["feat"]);
    assert_eq!(svc.respawn, alfad::config::Respawn::Retry(4));
    match &svc.payload {
        Payload::Service(lines) => {
            assert_eq!(lines.len(), 2);
            assert!(lines.get(0).unwrap().ignore_env && lines.get(0).unwrap().ignore_return);
            assert_eq!(lines.get(0).unwrap().args, ["run", "$X"]);
        }
        other => panic!("unexpected payload {:?}", other),
    }
}

#[test]
fn a_group_marker_waits_for_all_members() {
    let markers = construct_markers(&vec![
        grouped("a", "net"),
        written("loner"),
        grouped("b", "disk"),
        grouped("c", "net"),
    ]);
    assert_eq!(markers.len(), 2);
    let mut markers = markers.into_iter();
    let net = markers.next().unwrap();
    let disk = markers.next().unwrap();
    assert_eq!(net.name, "group::net");
    assert!(matches!(net.cmd, PayloadYaml::Marker));
    assert!(net.with.is_empty() && net.before.is_empty() && net.provides.is_empty());
    assert_eq!(net.group, None);
    assert_eq!(after_of(net), ["a", "c"]);
    assert_eq!(disk.name, "group::disk");
    assert_eq!(after_of(disk), ["b"]);
}

#[test]
fn a_feature_marker_waits_for_its_provider() {
    let markers = construct_markers(&vec![providing("net", &["network", "dns"]), written("x")]);
    assert_eq!(markers.len(), 2);
    let mut markers = markers.into_iter();
    let network = markers.next().unwrap();
    let dns = markers.next().unwrap();
    assert_eq!(network.name, "feature::network");
    assert!(matches!(network.cmd, PayloadYaml::Marker));
    assert_eq!(after_of(network), ["net"]);
    assert_eq!(dns.name, "feature::dns");
    assert_eq!(after_of(dns), ["net"]);
}

#[test]
fn the_last_provider_of_a_feature_overrides() {
    let markers = construct_markers(&vec![
        providing("first", &["f", "g"]),
        providing("second", &["f"]),
        providing("third", &["h", "f"]),
    ]);
    let listed: Vec<String> = markers.iter().map(|m| m.name.clone()).collect();
    assert_eq!(listed, ["feature::f", "feature::g", "feature::h"]);
    let mut markers = markers.into_iter();
    assert_eq!(after_of(markers.next().unwrap()), ["third"]);
    assert_eq!(after_of(markers.next().unwrap()), ["first"]);
    assert_eq!(after_of(markers.next().unwrap()), ["third"]);
}

#[test]
fn group_markers_come_before_feature_markers() {
    let mut both = providing("a", &["f"]);
    both.group = Some("g".to_string());
    let markers = construct_markers(&vec![both]);
    let listed: Vec<String> = markers.iter().map(|m| m.name.clone()).collect();
    assert_eq!(listed, ["group::g", "feature::f"]);
    assert!(construct_markers(&Vec::new()).is_empty());
    assert!(construct_markers(&vec![written("plain")]).is_empty());
}

#[test]
fn before_becomes_after_on_the_other_side() {
    let resolved = resolve_before(vec![
        running_before("early", &["late", "later"]),
        written("late"),
        running_before("middle", &["later"]),
        written("later"),
    ]);
    let listed: Vec<String> = resolved.iter().map(|m| m.name.clone()).collect();
    assert_eq!(listed, ["early", "late", "middle", "later"]);
    assert!(resolved.iter().all(|y| y.before.is_empty()));
    let mut resolved = resolved.into_iter();
    assert!(after_of(resolved.next().unwrap()).is_empty());
    assert_eq!(after_of(resolved.next().unwrap()), ["early"]);
    assert!(after_of(resolved.next().unwrap()).is_empty());
    assert_eq!(after_of(resolved.next().unwrap()), ["early", "middle"]);
}

#[test]
fn before_a_task_that_does_not_exist_is_dropped() {
    let resolved = resolve_before(vec![running_before("a", &["ghost", "b"]), written("b")]);
    assert_eq!(resolved.len(), 2);
    assert!(resolved[0].before.is_empty());
    let mut resolved = resolved.into_iter();
    assert!(after_of(resolved.next().unwrap()).is_empty());
    assert_eq!(after_of(resolved.next().unwrap()), ["a"]);
}

#[test]
fn before_keeps_what_was_after_already() {
    let mut target = written("target");
    target.after("old");
    let resolved = resolve_before(vec![target, running_before("new", &["target"])]);
    let mut resolved = resolved.into_iter();
    assert_eq!(after_of(resolved.next().unwrap()), ["old", "new"]);
}

#[test]
fn name_lists() {
    let list = NameList::from_names(&strings(&["a", "b", "c"]));
    assert_eq!(list.to_names(), ["a", "b", "c"]);
    assert!(NameList::from_names(&Vec::new()).to_names().is_empty());
}

fn deps(entries: &[(&str, &[&str])]) -> DependencyMap {
    entries.iter().map(|(n, d)| (n.to_string(), strings(d))).collect()
}

#[test]
fn loops_are_found() {
    let map = deps(&[("a", &["b"]), ("b", &["c"]), ("c", &["a"]), ("d", &["a"]), ("e", &[]), ("f", &["e", "f"])]);
    let none: Vec<String> = Vec::new();
    assert!(has_loop("a".to_string(), &map, &none));
    assert!(has_loop("b".to_string(), &map, &none));
    assert!(has_loop("d".to_string(), &map, &none));
    assert!(!has_loop("e".to_string(), &map, &none));
    assert!(has_loop("f".to_string(), &map, &none));
}

#[test]
fn a_name_that_was_visited_is_a_loop() {
    let map = deps(&[("a", &[])]);
    assert!(has_loop("a".to_string(), &map, &strings(&["a"])));
    assert!(has_loop("ghost".to_string(), &map, &strings(&["x", "ghost"])));
    assert!(!has_loop("a".to_string(), &map, &strings(&["x"])));
}

#[test]
fn a_name_without_an_entry_is_no_loop() {
    let map = deps(&[("a", &["ghost"])]);
    let none: Vec<String> = Vec::new();
    assert!(!has_loop("ghost".to_string(), &map, &none));
    assert!(!has_loop("a".to_string(), &map, &none));
    assert!(!has_loop("a".to_string(), &Vec::new(), &none));
}

#[test]
fn a_diamond_is_no_loop() {
    let map = deps(&[("top", &["left", "right"]), ("left", &["base"]), ("right", &["base"]), ("base", &[])]);
    let none: Vec<String> = Vec::new();
    assert!(!has_loop("top".to_string(), &map, &none));
}

#[test]
fn the_last_entry_of_a_name_counts() {
    let map = deps(&[("a", &["a"]), ("a", &[])]);
    let none: Vec<String> = Vec::new();
    assert!(!has_loop("a".to_string(), &map, &none));
    let map = deps(&[("a", &[]), ("a", &["a"])]);
    assert!(has_loop("a".to_string(), &map, &none));
}

#[test]
fn validation_names_the_tasks_that_wait_for_a_loop() {
    let configs = vec![
        task("ok", &[], &[]),
        task("p", &["q"], &[]),
        task("q", &[], &["p"]),
        task("behind", &["ok", "p"], &[]),
        task("selfish", &[], &["selfish"]),
        task("fine", &["ok", "ghost"], &[]),
    ];
    let before = names(&configs);
    let (configs, looping) = validate(configs);
    assert_eq!(names(&configs), before);
    assert_eq!(looping, ["p", "q", "behind", "selfish"]);
    let (_, none) = validate(vec![task("a", &[], &[]), task("b", &["a"], &["a"])]);
    assert!(none.is_empty());
}
