use everest_mod_cli::graph::{DependencyGraph, DependencyInfo};
use everest_mod_cli::install::{check_dependencies, resolve};
use everest_mod_cli::manifest::Dependency;
use everest_mod_cli::registry::{RemoteModInfo, RemoteModRegistry};

fn deps(names: &[&str]) -> DependencyInfo {
    DependencyInfo {
        dependencies: names
            .iter()
            .map(|n| Dependency { name: n.to_string(), version: None })
            .collect(),
        optional_dependencies: Vec::new(),
    }
}

fn graph(entries: &[(&str, &[&str])]) -> DependencyGraph {
    let mut g = DependencyGraph::new();
    for (name, ds) in entries {
        g.insert(name.to_string(), deps(ds));
    }
    g
}

fn entry(name: &str) -> RemoteModInfo {
    RemoteModInfo {
        version: "1.0".to_string(),
        file_size: 1,
        updated_at: 0,
        download_url: format!("https://gamebanana.com/mmdl/{}", name.len()),
        checksums: vec![format!("{:016x}", name.len())],
        gamebanana_type: "Mod".to_string(),
        gamebanana_id: name.len() as u32,
    }
}

fn registry(names: &[&str]) -> RemoteModRegistry {
    let mut r = RemoteModRegistry::new();
    for n in names {
        r.insert(n.to_string(), entry(n));
    }
    r
}

fn sorted_names(v: &[(String, RemoteModInfo)]) -> Vec<String> {
    let mut n: Vec<String> = v.iter().map(|p| p.0.clone()).collect();
    n.sort();
    n
}

#[test]
fn scenario_chain_fetches_the_whole_closure() {
    let g = graph(&[("A", &["B", "C"]), ("B", &["C"]), ("C", &[])]);
    let reg = registry(&["A", "B", "C"]);
    let r = check_dependencies("A", &reg, &g, &[]);
    assert_eq!(sorted_names(&r), vec!["A", "B", "C"]);
}

#[test]
fn scenario_unlisted_dependency_is_reported_and_left_out() {
    let g = graph(&[("A", &["B"])]);
    let reg = registry(&["A"]);
    let r = resolve("A", &reg, &g, &[]);
    assert_eq!(sorted_names(&r.fetch_set), vec!["A"]);
    assert_eq!(r.unavailable, vec!["B".to_string()]);
}

#[test]
fn closure_handles_cycles_and_self_references() {
    let g = graph(&[("A", &["B", "A"]), ("B", &["A", "C", "C"]), ("C", &["C", "B"])]);
    let mut c = g.collect_all_dependencies_bfs("A");
    assert_eq!(c[0], "A");
    c.sort();
    assert_eq!(c, vec!["A", "B", "C"]);
}

#[test]
fn closure_of_unknown_target_is_the_target() {
    let g = graph(&[("A", &["B"])]);
    assert_eq!(g.collect_all_dependencies_bfs("Z"), vec!["Z".to_string()]);
}

#[test]
fn resolving_twice_gives_the_same_fetch_set() {
    let g = graph(&[("A", &["B", "D"]), ("B", &["C"]), ("D", &["C", "E"])]);
    let reg = registry(&["A", "B", "C", "D"]);
    let installed = vec!["D".to_string()];
    let r1 = check_dependencies("A", &reg, &g, &installed);
    let r2 = check_dependencies("A", &reg, &g, &installed);
    assert_eq!(r1, r2);
    assert_eq!(sorted_names(&r1), vec!["A", "B", "C"]);
}

#[test]
fn platform_core_names_are_never_fetched() {
    let g = graph(&[("A", &["Everest", "EverestCore", "B"]), ("Everest", &["C"])]);
    let reg = registry(&["A", "B", "C", "Everest", "EverestCore"]);
    let r = check_dependencies("A", &reg, &g, &[]);
    assert_eq!(sorted_names(&r), vec!["A", "B", "C"]);
    let r = check_dependencies("Everest", &reg, &g, &[]);
    assert_eq!(sorted_names(&r), vec!["C"]);
}

#[test]
fn installed_mods_are_never_fetched() {
    let g = graph(&[("A", &["B", "C"]), ("B", &["C"])]);
    let reg = registry(&["A", "B", "C"]);
    let installed = vec!["B".to_string(), "C".to_string()];
    let r = check_dependencies("A", &reg, &g, &installed);
    assert_eq!(sorted_names(&r), vec!["A"]);
    let r = check_dependencies("A", &reg, &g, &["A".to_string(), "B".to_string(), "C".to_string()]);
    assert!(r.is_empty());
}

#[test]
fn fetch_set_carries_registry_entries() {
    let g = graph(&[("A", &["Bee"])]);
    let reg = registry(&["A", "Bee"]);
    let r = check_dependencies("A", &reg, &g, &[]);
    for (name, info) in &r {
        assert_eq!(info, &entry(name));
    }
    assert_eq!(r.len(), 2);
}

#[test]
fn graph_insert_replaces_an_entry() {
    let mut g = graph(&[("A", &["B"])]);
    g.insert("A".to_string(), deps(&["C"]));
    assert_eq!(g.len(), 1);
    let mut c = g.collect_all_dependencies_bfs("A");
    c.sort();
    assert_eq!(c, vec!["A", "C"]);
}
