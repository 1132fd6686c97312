//! The remote dependency graph: for each mod, the mods it requires, and the
//! transitive closure of those requirements.

use crate::manifest::{dependency_names, Dependency};
use crate::text::str_eq;
use vstd::prelude::*;

verus! {

/// One entry of the dependency graph.
#[derive(Debug, Default, Clone, PartialEq, Eq)]
pub struct DependencyInfo {
    /// Mods that must be installed for this one to work.
    pub dependencies: Vec<Dependency>,
    /// Mods that are loaded first when present; informational only.
    pub optional_dependencies: Vec<Dependency>,
}

/// The graph as a mapping: mod name to the names of its required dependencies.
pub type GraphView = Map<Seq<char>, Seq<Seq<char>>>;

/// `b` is a required dependency of `a`.
pub open spec fn requires_edge(g: GraphView, a: Seq<char>, b: Seq<char>) -> bool {
    g.contains_key(a) && g[a].contains(b)
}

/// `p` is a non-empty chain of names, each requiring the next.
pub open spec fn is_dependency_path(g: GraphView, p: Seq<Seq<char>>) -> bool {
    &&& p.len() > 0
    &&& forall|k: int| 0 <= k < p.len() - 1 ==> #[trigger] requires_edge(g, p[k], p[k + 1])
}

/// `to` is `from` itself or is reached from `from` along required dependencies.
pub open spec fn reaches(g: GraphView, from: Seq<char>, to: Seq<char>) -> bool {
    exists|p: Seq<Seq<char>>| is_dependency_path(g, p) && p[0] == from && p.last() == to
}

/// The names held by a list of strings.
pub open spec fn names_of(v: Seq<String>) -> Seq<Seq<char>> {
    v.map_values(|s: String| s@)
}

/// Every name reaches itself.
pub proof fn lemma_reaches_self(g: GraphView, n: Seq<char>)
    ensures
        reaches(g, n, n),
{
    let p = seq![n];
    assert(is_dependency_path(g, p));
    assert(p[0] == n && p.last() == n);
}

/// A required dependency of a reached name is reached.
pub proof fn lemma_reaches_step(g: GraphView, from: Seq<char>, a: Seq<char>, b: Seq<char>)
    requires
        reaches(g, from, a),
        requires_edge(g, a, b),
    ensures
        reaches(g, from, b),
{
    let p = choose|p: Seq<Seq<char>>| is_dependency_path(g, p) && p[0] == from && p.last() == a;
    let q = p.push(b);
    assert forall|k: int| 0 <= k < q.len() - 1 implies #[trigger] requires_edge(g, q[k], q[k + 1]) by {
        if k < p.len() - 1 {
            assert(q[k] == p[k] && q[k + 1] == p[k + 1]);
        } else {
            assert(q[k] == a && q[k + 1] == b);
        }
    }
    assert(is_dependency_path(g, q));
    assert(q[0] == from && q.last() == b);
}

/// A set of names that holds `from` and every required dependency of its
/// members holds every name that `from` reaches.
pub proof fn lemma_closed_holds_reached(g: GraphView, s: Seq<Seq<char>>, from: Seq<char>, to: Seq<char>)
    requires
        s.contains(from),
        forall|a: Seq<char>, b: Seq<char>| s.contains(a) && #[trigger] requires_edge(g, a, b) ==> s.contains(b),
        reaches(g, from, to),
    ensures
        s.contains(to),
{
    let p = choose|p: Seq<Seq<char>>| is_dependency_path(g, p) && p[0] == from && p.last() == to;
    lemma_closed_holds_path(g, s, p, p.len() - 1);
}

proof fn lemma_closed_holds_path(g: GraphView, s: Seq<Seq<char>>, p: Seq<Seq<char>>, k: int)
    requires
        is_dependency_path(g, p),
        s.contains(p[0]),
        forall|a: Seq<char>, b: Seq<char>| s.contains(a) && #[trigger] requires_edge(g, a, b) ==> s.contains(b),
        0 <= k < p.len(),
    ensures
        s.contains(p[k]),
    decreases k,
{
    if k > 0 {
        lemma_closed_holds_path(g, s, p, k - 1);
        let j = k - 1;
        assert(requires_edge(g, p[j], p[j + 1]));
    }
}

/// The remote dependency graph, keyed by mod name.
#[derive(Debug, Clone)]
pub struct DependencyGraph {
    entries: Vec<(String, DependencyInfo)>,
}

impl View for DependencyGraph {
    type V = GraphView;

    closed spec fn view(&self) -> GraphView {
        Map::new(
            |n: Seq<char>| exists|i: int| 0 <= i < self.entries.len() && #[trigger] self.entries[i].0@ == n,
            |n: Seq<char>|
                {
                    let i = choose|i: int| 0 <= i < self.entries.len() && #[trigger] self.entries[i].0@ == n;
                    dependency_names(self.entries[i].1.dependencies@)
                },
        )
    }
}

impl DependencyGraph {
    /// No two entries share a name.
    pub closed spec fn wf(&self) -> bool {
        forall|i: int, j: int|
            0 <= i < self.entries.len() && 0 <= j < self.entries.len() && #[trigger] self.entries[i].0@
                == #[trigger] self.entries[j].0@ ==> i == j
    }

    /// An empty graph.
    pub fn new() -> (r: Self)
        ensures
            r.wf(),
            r@ == Map::<Seq<char>, Seq<Seq<char>>>::empty(),
    {
        let r = DependencyGraph { entries: Vec::new() };
        assert(r@ =~= Map::<Seq<char>, Seq<Seq<char>>>::empty());
        r
    }

    /// Number of mods with an entry.
    pub fn len(&self) -> (r: usize)
        requires
            self.wf(),
        ensures
            r == self@.dom().len(),
    {
        proof {
            self.lemma_dom_len();
        }
        self.entries.len()
    }

    proof fn lemma_dom_len(&self)
        requires
            self.wf(),
        ensures
            self@.dom().finite(),
            self@.dom().len() == self.entries.len(),
    {
        let ns = names_of(self.entries@.map_values(|e: (String, DependencyInfo)| e.0));
        assert(ns.no_duplicates()) by {
            assert forall|i: int, j: int| 0 <= i < ns.len() && 0 <= j < ns.len() && i != j implies ns[i] != ns[j] by {
                assert(ns[i] == self.entries[i].0@);
                assert(ns[j] == self.entries[j].0@);
            }
        }
        assert(self@.dom() =~= ns.to_set()) by {
            assert forall|n: Seq<char>| self@.dom().contains(n) implies ns.to_set().contains(n) by {
                let i = choose|i: int| 0 <= i < self.entries.len() && #[trigger] self.entries[i].0@ == n;
                assert(ns[i] == n);
            }
            assert forall|n: Seq<char>| ns.to_set().contains(n) implies self@.dom().contains(n) by {
                let i = choose|i: int| 0 <= i < ns.len() && ns[i] == n;
                assert(self.entries[i].0@ == n);
            }
        }
        ns.unique_seq_to_set();
    }

    proof fn lemma_view_at(&self, i: int)
        requires
            self.wf(),
            0 <= i < self.entries.len(),
        ensures
            self@.contains_key(self.entries[i].0@),
            self@[self.entries[i].0@] == dependency_names(self.entries[i].1.dependencies@),
    {
        let n = self.entries[i].0@;
        assert(self@.contains_key(n));
        let c = choose|c: int| 0 <= c < self.entries.len() && #[trigger] self.entries[c].0@ == n;
        assert(self.entries[c].0@ == self.entries[i].0@);
    }

    /// Index of the entry named `name`, if there is one.
    fn position(&self, name: &str) -> (r: Option<usize>)
        requires
            self.wf(),
        ensures
            match r {
                Some(i) => i < self.entries.len() && self.entries[i as int].0@ == name@
                    && self@.contains_key(name@) && self@[name@] == dependency_names(
                    self.entries[i as int].1.dependencies@,
                ),
                None => !self@.contains_key(name@),
            },
    {
        let mut i: usize = 0;
        while i < self.entries.len()
            invariant
                self.wf(),
                i <= self.entries.len(),
                forall|j: int| 0 <= j < i ==> self.entries[j].0@ != name@,
            decreases self.entries.len() - i,
        {
            if str_eq(self.entries[i].0.as_str(), name) {
                proof {
                    self.lemma_view_at(i as int);
                }
                return Some(i);
            }
            i = i + 1;
        }
        None
    }

    /// Adds or replaces the entry of mod `name`.
    pub fn insert(&mut self, name: String, info: DependencyInfo)
        requires
            old(self).wf(),
        ensures
            final(self).wf(),
            final(self)@ == old(self)@.insert(name@, dependency_names(info.dependencies@)),
    {
        let ghost n = name@;
        let ghost v = dependency_names(info.dependencies@);
        let ghost at: int;
        match self.position(name.as_str()) {
            Some(i) => {
                self.entries.set(i, (name, info));
                proof {
                    at = i as int;
                }
            },
            None => {
                self.entries.push((name, info));
                proof {
                    at = self.entries.len() - 1;
                }
            },
        }
        let ghost pre = *old(self);
        assert(forall|j: int| 0 <= j < self.entries.len() && j != at ==> j < pre.entries.len() && #[trigger] self.entries[j] == pre.entries[j]);
        assert(self.entries[at].0@ == n);
        assert(self.wf());
        assert forall|m: Seq<char>| #[trigger] self@.contains_key(m) <==> pre@.insert(n, v).contains_key(m) by {
            if m != n {
                if self@.contains_key(m) {
                    let j = choose|j: int| 0 <= j < self.entries.len() && #[trigger] self.entries[j].0@ == m;
                    assert(pre.entries[j].0@ == m);
                }
                if pre@.contains_key(m) {
                    let j = choose|j: int| 0 <= j < pre.entries.len() && #[trigger] pre.entries[j].0@ == m;
                    assert(j != at);
                    assert(self.entries[j].0@ == m);
                }
            } else {
                self.lemma_view_at(at);
            }
        }
        assert forall|m: Seq<char>| #[trigger] self@.contains_key(m) implies self@[m] == pre@.insert(n, v)[m] by {
            if m == n {
                self.lemma_view_at(at);
            } else {
                let j = choose|j: int| 0 <= j < self.entries.len() && #[trigger] self.entries[j].0@ == m;
                self.lemma_view_at(j);
                pre.lemma_view_at(j);
            }
        }
        assert(self@ =~= pre@.insert(n, v));
    }

    /// The required-dependency names of the first `n` entries, in order.
    closed spec fn required_names_upto(&self, n: int) -> Seq<Seq<char>>
        decreases n,
    {
        if n <= 0 || n > self.entries.len() {
            Seq::empty()
        } else {
            self.required_names_upto(n - 1) + dependency_names(self.entries[n - 1].1.dependencies@)
        }
    }

    proof fn lemma_required_names_upto(&self, n: int, i: int, k: int)
        requires
            0 <= i < n <= self.entries.len(),
            0 <= k < self.entries[i].1.dependencies.len(),
        ensures
            self.required_names_upto(n).contains(dependency_names(self.entries[i].1.dependencies@)[k]),
        decreases n,
    {
        let prev = self.required_names_upto(n - 1);
        let last = dependency_names(self.entries[n - 1].1.dependencies@);
        if i == n - 1 {
            assert((prev + last)[prev.len() + k] == last[k]);
        } else {
            self.lemma_required_names_upto(n - 1, i, k);
            let x = dependency_names(self.entries[i].1.dependencies@)[k];
            let w = choose|w: int| 0 <= w < prev.len() && prev[w] == x;
            assert((prev + last)[w] == x);
        }
    }

    /// The names that the closure of `mod_name` may hold: it and every
    /// required dependency named anywhere in the graph.
    closed spec fn closure_universe(&self, mod_name: Seq<char>) -> Set<Seq<char>> {
        self.required_names_upto(self.entries.len() as int).to_set().insert(mod_name)
    }

    /// Collects `mod_name` and every mod that it requires, directly or
    /// transitively, each exactly once, by a breadth-first walk. Cycles and
    /// self-references are harmless: every name is expanded at most once.
    pub fn collect_all_dependencies_bfs(&self, mod_name: &str) -> (r: Vec<String>)
        requires
            self.wf(),
        ensures
            r@.len() > 0,
            r@[0]@ == mod_name@,
            names_of(r@).no_duplicates(),
            forall|n: Seq<char>| #[trigger] names_of(r@).contains(n) <==> reaches(self@, mod_name@, n),
    {
        let ghost g = self@;
        let ghost start = mod_name@;
        let ghost universe = self.closure_universe(start);
        let mut order: Vec<String> = Vec::new();
        order.push(String::from_str(mod_name));
        proof {
            lemma_reaches_self(g, start);
            assert(names_of(order@) =~= seq![start]);
        }
        let mut i: usize = 0;
        while i < order.len()
            invariant
                self.wf(),
                g == self@,
                universe == self.closure_universe(start),
                order@.len() > 0,
                order@[0]@ == start,
                i <= order.len(),
                names_of(order@).no_duplicates(),
                forall|j: int| 0 <= j < order.len() ==> universe.contains(#[trigger] order@[j]@),
                forall|j: int| 0 <= j < order.len() ==> reaches(g, start, #[trigger] order@[j]@),
                forall|j: int, b: Seq<char>|
                    0 <= j < i && #[trigger] requires_edge(g, order@[j]@, b) ==> names_of(order@).contains(b),
            decreases universe.len() - i,
        {
            let ghost cur = order@[i as int]@;
            match self.position(order[i].as_str()) {
                Some(p) => {
                    let deps = &self.entries[p].1.dependencies;
                    let ghost dn = dependency_names(deps@);
                    let mut k: usize = 0;
                    while k < deps.len()
                        invariant
                            self.wf(),
                            g == self@,
                            universe == self.closure_universe(start),
                            p < self.entries.len(),
                            deps == &self.entries[p as int].1.dependencies,
                            dn == dependency_names(deps@),
                            g.contains_key(cur),
                            g[cur] == dn,
                            i < order.len(),
                            order@[i as int]@ == cur,
                            order@.len() > 0,
                            order@[0]@ == start,
                            k <= deps.len(),
                            names_of(order@).no_duplicates(),
                            forall|j: int| 0 <= j < order.len() ==> universe.contains(#[trigger] order@[j]@),
                            forall|j: int| 0 <= j < order.len() ==> reaches(g, start, #[trigger] order@[j]@),
                            forall|j: int, b: Seq<char>|
                                0 <= j < i && #[trigger] requires_edge(g, order@[j]@, b) ==> names_of(
                                    order@,
                                ).contains(b),
                            forall|kk: int| 0 <= kk < k ==> names_of(order@).contains(#[trigger] dn[kk]),
                        decreases deps.len() - k,
                    {
                        let d = &deps[k].name;
                        assert(d@ == dn[k as int]);
                        if !contains_name(order.as_slice(), d) {
                            let ghost before = order@;
                            order.push(d.clone());
                            proof {
                                assert(names_of(order@) =~= names_of(before).push(d@));
                                assert forall|x: int, y: int|
                                    0 <= x < names_of(order@).len() && 0 <= y < names_of(order@).len() && x
                                        != y implies names_of(order@)[x] != names_of(order@)[y] by {
                                    if x < before.len() && y < before.len() {
                                        assert(names_of(before)[x] == names_of(order@)[x]);
                                        assert(names_of(before)[y] == names_of(order@)[y]);
                                    } else if x < before.len() {
                                        assert(names_of(before)[x] == names_of(order@)[x]);
                                    } else if y < before.len() {
                                        assert(names_of(before)[y] == names_of(order@)[y]);
                                    }
                                }
                                self.lemma_required_names_upto(self.entries.len() as int, p as int, k as int);
                                assert(requires_edge(g, cur, d@));
                                lemma_reaches_step(g, start, cur, d@);
                                assert forall|j: int| 0 <= j < order.len() implies universe.contains(
                                    #[trigger] order@[j]@,
                                ) && reaches(g, start, order@[j]@) by {
                                    if j < before.len() {
                                        assert(order@[j] == before[j]);
                                    }
                                }
                                assert forall|c: Seq<char>| names_of(before).contains(c) implies names_of(
                                    order@,
                                ).contains(c) by {
                                    let w = choose|w: int| 0 <= w < names_of(before).len() && names_of(before)[w] == c;
                                    assert(names_of(order@)[w] == c);
                                }
                                assert(names_of(order@)[before.len() as int] == d@);
                            }
                        }
                        k = k + 1;
                    }
                    proof {
                        assert forall|b: Seq<char>| #[trigger] requires_edge(g, cur, b) implies names_of(
                            order@,
                        ).contains(b) by {
                            let kk = choose|kk: int| 0 <= kk < dn.len() && dn[kk] == b;
                            assert(names_of(order@).contains(dn[kk]));
                        }
                    }
                },
                None => {},
            }
            proof {
                assert forall|j: int, b: Seq<char>|
                    0 <= j < i + 1 && #[trigger] requires_edge(g, order@[j]@, b) implies names_of(
                    order@,
                ).contains(b) by {
                    if j == i {
                        assert(order@[j]@ == cur);
                    }
                }
                lemma_distinct_bounded(names_of(order@), universe, self.required_names_upto(self.entries.len() as int), start);
            }
            i = i + 1;
        }
        proof {
            let ns = names_of(order@);
            assert forall|a: Seq<char>, b: Seq<char>| ns.contains(a) && #[trigger] requires_edge(g, a, b) implies ns.contains(b) by {
                let j = choose|j: int| 0 <= j < ns.len() && ns[j] == a;
                assert(order@[j]@ == a);
            }
            assert(ns[0] == start);
            assert forall|n: Seq<char>| #[trigger] ns.contains(n) <==> reaches(g, start, n) by {
                if ns.contains(n) {
                    let j = choose|j: int| 0 <= j < ns.len() && ns[j] == n;
                    assert(order@[j]@ == n);
                }
                if reaches(g, start, n) {
                    lemma_closed_holds_reached(g, ns, start, n);
                }
            }
        }
        order
    }
}

/// A list of distinct names drawn from a finite set is no longer than the set.
proof fn lemma_distinct_bounded(s: Seq<Seq<char>>, u: Set<Seq<char>>, base: Seq<Seq<char>>, extra: Seq<char>)
    requires
        u == base.to_set().insert(extra),
        s.no_duplicates(),
        forall|j: int| 0 <= j < s.len() ==> u.contains(#[trigger] s[j]),
    ensures
        u.finite(),
        s.len() <= u.len(),
{
    vstd::seq_lib::seq_to_set_is_finite(base);
    s.unique_seq_to_set();
    assert(s.to_set().subset_of(u));
    vstd::set_lib::lemma_len_subset(s.to_set(), u);
}

/// Decides whether `v` holds a string equal to `s`.
pub fn contains_name(v: &[String], s: &String) -> (r: bool)
    ensures
        r == names_of(v@).contains(s@),
{
    let mut i: usize = 0;
    while i < v.len()
        invariant
            i <= v.len(),
            forall|j: int| 0 <= j < i ==> v@[j]@ != s@,
        decreases v.len() - i,
    {
        if v[i] == *s {
            assert(names_of(v@)[i as int] == s@);
            return true;
        }
        i = i + 1;
    }
    assert(!names_of(v@).contains(s@)) by {
        if names_of(v@).contains(s@) {
            let w = choose|w: int| 0 <= w < names_of(v@).len() && names_of(v@)[w] == s@;
            assert(v@[w]@ == s@);
        }
    }
    false
}

} // verus!
