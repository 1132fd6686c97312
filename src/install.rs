//! The resolver: which mods must be fetched to install a mod.

use crate::graph::{contains_name, names_of, reaches, DependencyGraph, GraphView};
use crate::registry::{ModRegistryQuery, RegistryView, RemoteModInfo, RemoteModRegistry};
use vstd::prelude::*;

verus! {

/// Name of the game's mod loader, which is the host itself.
pub const EVEREST: &'static str = "Everest";

/// Name of the loader's core variant, also part of the host.
pub const EVEREST_CORE: &'static str = "EverestCore";

/// `n` names a part of the host runtime, which is never fetched.
pub open spec fn is_platform_core(n: Seq<char>) -> bool {
    n == EVEREST@ || n == EVEREST_CORE@
}

/// Decides whether `n` names a part of the host runtime.
pub fn is_platform_core_name(n: &str) -> (r: bool)
    ensures
        r == is_platform_core(n@),
{
    crate::text::str_eq(n, EVEREST) || crate::text::str_eq(n, EVEREST_CORE)
}

/// `n` must be present for `target` to work and is not yet: it is reached
/// from `target`, is no part of the host and is not installed.
pub open spec fn is_missing(g: GraphView, installed: Seq<Seq<char>>, target: Seq<char>, n: Seq<char>) -> bool {
    reaches(g, target, n) && !is_platform_core(n) && !installed.contains(n)
}

/// The names of a fetch set, in order.
pub open spec fn fetch_names(r: Seq<(String, RemoteModInfo)>) -> Seq<Seq<char>> {
    r.map_values(|p: (String, RemoteModInfo)| p.0@)
}

/// `r` is a fetch set for `target`: each missing mod that the registry
/// lists, exactly once, with its registry entry, and nothing else.
pub open spec fn is_fetch_set(
    r: Seq<(String, RemoteModInfo)>,
    target: Seq<char>,
    g: GraphView,
    reg: RegistryView,
    installed: Seq<Seq<char>>,
) -> bool {
    &&& fetch_names(r).no_duplicates()
    &&& forall|i: int| 0 <= i < r.len() ==> reg.contains_key(#[trigger] r[i].0@) && r[i].1@ == reg[r[i].0@]
    &&& forall|n: Seq<char>| #[trigger] fetch_names(r).contains(n) <==> (is_missing(g, installed, target, n) && reg.contains_key(n))
}

/// Appending a name that a list of distinct names lacks keeps it distinct.
pub proof fn lemma_push_distinct(s: Seq<Seq<char>>, x: Seq<char>)
    requires
        s.no_duplicates(),
        !s.contains(x),
    ensures
        s.push(x).no_duplicates(),
{
    let t = s.push(x);
    assert forall|a: int, b: int| 0 <= a < t.len() && 0 <= b < t.len() && a != b implies t[a] != t[b] by {
        if a < s.len() && b < s.len() {
            assert(t[a] == s[a] && t[b] == s[b]);
        } else if a < s.len() {
            assert(t[a] == s[a]);
        } else if b < s.len() {
            assert(t[b] == s[b]);
        }
    }
}

/// `n` is among the first `i` names of `cl`.
pub open spec fn seen(cl: Seq<Seq<char>>, i: int, n: Seq<char>) -> bool {
    exists|w: int| 0 <= w < i && #[trigger] cl[w] == n
}

/// What resolution found: the mods to fetch, and the missing mods that the
/// registry does not list.
pub struct Resolution {
    /// Missing mods that the registry lists, with their entries.
    pub fetch_set: Vec<(String, RemoteModInfo)>,
    /// Missing mods that the registry does not list.
    pub unavailable: Vec<String>,
}

/// Resolves what installing `mod_name` takes: the closure of its required
/// dependencies (itself included), less the host's own names and the
/// installed mods, split by whether the registry lists each.
pub fn resolve(
    mod_name: &str,
    mod_registry: &RemoteModRegistry,
    dependency_graph: &DependencyGraph,
    installed_mod_names: &[String],
) -> (r: Resolution)
    requires
        mod_registry.wf(),
        dependency_graph.wf(),
    ensures
        is_fetch_set(r.fetch_set@, mod_name@, dependency_graph@, mod_registry@, names_of(installed_mod_names@)),
        names_of(r.unavailable@).no_duplicates(),
        forall|n: Seq<char>| #[trigger] names_of(r.unavailable@).contains(n) <==> (is_missing(
            dependency_graph@,
            names_of(installed_mod_names@),
            mod_name@,
            n,
        ) && !mod_registry@.contains_key(n)),
{
    let ghost g = dependency_graph@;
    let ghost reg = mod_registry@;
    let ghost inst = names_of(installed_mod_names@);
    let ghost target = mod_name@;
    let closure = dependency_graph.collect_all_dependencies_bfs(mod_name);
    let ghost cl = names_of(closure@);
    let mut fetch_set: Vec<(String, RemoteModInfo)> = Vec::new();
    let mut unavailable: Vec<String> = Vec::new();
    let mut i: usize = 0;
    while i < closure.len()
        invariant
            mod_registry.wf(),
            reg == mod_registry@,
            g == dependency_graph@,
            inst == names_of(installed_mod_names@),
            cl == names_of(closure@),
            cl.no_duplicates(),
            forall|n: Seq<char>| #[trigger] cl.contains(n) <==> reaches(g, target, n),
            i <= closure.len(),
            fetch_names(fetch_set@).no_duplicates(),
            names_of(unavailable@).no_duplicates(),
            forall|k: int| 0 <= k < fetch_set.len() ==> reg.contains_key(#[trigger] fetch_set@[k].0@) && fetch_set@[k].1@ == reg[fetch_set@[k].0@],
            forall|n: Seq<char>| #[trigger] fetch_names(fetch_set@).contains(n) <==> (seen(cl, i as int, n) && is_missing(g, inst, target, n) && reg.contains_key(n)),
            forall|n: Seq<char>| #[trigger] names_of(unavailable@).contains(n) <==> (seen(cl, i as int, n) && is_missing(g, inst, target, n) && !reg.contains_key(n)),
        decreases closure.len() - i,
    {
        let name = &closure[i];
        let ghost nv = name@;
        assert(cl[i as int] == nv);
        assert(cl.contains(nv));
        proof {
            assert forall|n: Seq<char>| seen(cl, i + 1, n) <==> (seen(cl, i as int, n) || n == nv) by {
                if seen(cl, i + 1, n) {
                    let w = choose|w: int| 0 <= w < i + 1 && #[trigger] cl[w] == n;
                    if w < i {
                        assert(seen(cl, i as int, n));
                    }
                }
                if seen(cl, i as int, n) {
                    let w = choose|w: int| 0 <= w < i && #[trigger] cl[w] == n;
                    assert(seen(cl, i + 1, n));
                }
                if n == nv {
                    assert(cl[i as int] == n);
                }
            }
            assert(!seen(cl, i as int, nv)) by {
                if seen(cl, i as int, nv) {
                    let w = choose|w: int| 0 <= w < i && #[trigger] cl[w] == nv;
                    assert(cl[w] == cl[i as int]);
                }
            }
        }
        if !is_platform_core_name(name.as_str()) && !contains_name(installed_mod_names, name) {
            match mod_registry.get_mod_info_by_name(name.as_str()) {
                Some(info) => {
                    let ghost before = fetch_set@;
                    fetch_set.push((name.clone(), info.clone()));
                    proof {
                        assert(fetch_names(fetch_set@) =~= fetch_names(before).push(nv));
                        lemma_push_distinct(fetch_names(before), nv);
                        assert forall|c: Seq<char>| #[trigger] fetch_names(fetch_set@).contains(c) <==> (fetch_names(before).contains(c) || c == nv) by {
                            if fetch_names(fetch_set@).contains(c) {
                                let w = choose|w: int| 0 <= w < fetch_names(fetch_set@).len() && fetch_names(fetch_set@)[w] == c;
                                if w < before.len() {
                                    assert(fetch_names(before)[w] == c);
                                }
                            }
                            if fetch_names(before).contains(c) {
                                let w = choose|w: int| 0 <= w < fetch_names(before).len() && fetch_names(before)[w] == c;
                                assert(fetch_names(fetch_set@)[w] == c);
                            }
                            if c == nv {
                                assert(fetch_names(fetch_set@)[before.len() as int] == c);
                            }
                        }
                        assert forall|k: int| 0 <= k < fetch_set.len() implies reg.contains_key(#[trigger] fetch_set@[k].0@) && fetch_set@[k].1@ == reg[fetch_set@[k].0@] by {
                            if k < before.len() {
                                assert(fetch_set@[k] == before[k]);
                            }
                        }
                    }
                },
                None => {
                    let ghost before = unavailable@;
                    unavailable.push(name.clone());
                    proof {
                        assert(names_of(unavailable@) =~= names_of(before).push(nv));
                        lemma_push_distinct(names_of(before), nv);
                        assert forall|c: Seq<char>| #[trigger] names_of(unavailable@).contains(c) <==> (names_of(before).contains(c) || c == nv) by {
                            if names_of(unavailable@).contains(c) {
                                let w = choose|w: int| 0 <= w < names_of(unavailable@).len() && names_of(unavailable@)[w] == c;
                                if w < before.len() {
                                    assert(names_of(before)[w] == c);
                                }
                            }
                            if names_of(before).contains(c) {
                                let w = choose|w: int| 0 <= w < names_of(before).len() && names_of(before)[w] == c;
                                assert(names_of(unavailable@)[w] == c);
                            }
                            if c == nv {
                                assert(names_of(unavailable@)[before.len() as int] == c);
                            }
                        }
                    }
                },
            }
        }
        i = i + 1;
    }
    proof {
        assert forall|n: Seq<char>| seen(cl, cl.len() as int, n) <==> cl.contains(n) by {
            if cl.contains(n) {
                let w = choose|w: int| 0 <= w < cl.len() && cl[w] == n;
                assert(seen(cl, cl.len() as int, n));
            }
        }
        assert forall|n: Seq<char>| #[trigger] fetch_names(fetch_set@).contains(n) <==> (is_missing(g, inst, target, n) && reg.contains_key(n)) by {
            if is_missing(g, inst, target, n) {
                assert(cl.contains(n));
            }
        }
        assert forall|n: Seq<char>| #[trigger] names_of(unavailable@).contains(n) <==> (is_missing(g, inst, target, n) && !reg.contains_key(n)) by {
            if is_missing(g, inst, target, n) {
                assert(cl.contains(n));
            }
        }
    }
    Resolution { fetch_set, unavailable }
}

/// The mods to download to install `mod_name`: every mod in the closure of
/// its required dependencies (itself included) that is no part of the host,
/// is not installed and is listed in the registry, each once, with its
/// registry entry. Missing mods that the registry does not list are left out.
pub fn check_dependencies(
    mod_name: &str,
    mod_registry: &RemoteModRegistry,
    dependency_graph: &DependencyGraph,
    installed_mod_names: &[String],
) -> (r: Vec<(String, RemoteModInfo)>)
    requires
        mod_registry.wf(),
        dependency_graph.wf(),
    ensures
        is_fetch_set(r@, mod_name@, dependency_graph@, mod_registry@, names_of(installed_mod_names@)),
        forall|i: int| 0 <= i < r.len() ==> !is_platform_core(#[trigger] r@[i].0@),
        forall|i: int, j: int|
            0 <= i < r.len() && 0 <= j < installed_mod_names.len() ==> #[trigger] r@[i].0@ != #[trigger] installed_mod_names@[j]@,
{
    let r = resolve(mod_name, mod_registry, dependency_graph, installed_mod_names).fetch_set;
    proof {
        assert forall|i: int| 0 <= i < r.len() implies !is_platform_core(#[trigger] r@[i].0@) && forall|j: int|
            0 <= j < installed_mod_names.len() ==> r@[i].0@ != #[trigger] installed_mod_names@[j]@ by {
            assert(fetch_names(r@)[i] == r@[i].0@);
            assert(fetch_names(r@).contains(r@[i].0@));
            assert forall|j: int| 0 <= j < installed_mod_names.len() implies r@[i].0@ != #[trigger] installed_mod_names@[j]@ by {
                assert(names_of(installed_mod_names@)[j] == installed_mod_names@[j]@);
            }
        }
    }
    r
}

/// Resolution depends on its inputs alone: any two fetch sets for the same
/// target, graph, registry and installed names hold the same mods with the
/// same entries, and are equally long.
pub proof fn lemma_resolution_is_idempotent(
    r1: Seq<(String, RemoteModInfo)>,
    r2: Seq<(String, RemoteModInfo)>,
    target: Seq<char>,
    g: GraphView,
    reg: RegistryView,
    installed: Seq<Seq<char>>,
)
    requires
        is_fetch_set(r1, target, g, reg, installed),
        is_fetch_set(r2, target, g, reg, installed),
    ensures
        fetch_names(r1).to_set() == fetch_names(r2).to_set(),
        r1.len() == r2.len(),
        forall|i: int, j: int|
            0 <= i < r1.len() && 0 <= j < r2.len() && #[trigger] r1[i].0@ == #[trigger] r2[j].0@ ==> r1[i].1@ == r2[j].1@,
{
    assert(fetch_names(r1).to_set() =~= fetch_names(r2).to_set()) by {
        assert forall|n: Seq<char>| fetch_names(r1).to_set().contains(n) <==> fetch_names(r2).to_set().contains(n) by {
            assert(fetch_names(r1).contains(n) <==> fetch_names(r2).contains(n));
        }
    }
    fetch_names(r1).unique_seq_to_set();
    fetch_names(r2).unique_seq_to_set();
}

} // verus!
