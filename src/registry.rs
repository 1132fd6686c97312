//! The remote mod registry: for each mod name, where to download it and the
//! checksums that a download must match.

use crate::text::str_eq;
use crate::text::{eq_ignore_ascii_case, str_eq_ignore_ascii_case};
use vstd::prelude::*;

verus! {

/// One registry entry.
#[derive(Debug, Hash, PartialEq, Eq)]
pub struct RemoteModInfo {
    /// Version string.
    pub version: String,
    /// File size in bytes.
    pub file_size: u64,
    /// Timestamp of the last update.
    pub updated_at: u64,
    /// Download link for the mod file.
    pub download_url: String,
    /// Acceptable xxHash checksums of the file, in hexadecimal.
    pub checksums: Vec<String>,
    /// Category of the mod on GameBanana.
    pub gamebanana_type: String,
    /// ID of the mod's GameBanana page.
    pub gamebanana_id: u32,
}

/// A registry entry as plain values.
pub struct RemoteModInfoView {
    pub version: Seq<char>,
    pub file_size: u64,
    pub updated_at: u64,
    pub download_url: Seq<char>,
    pub checksums: Seq<Seq<char>>,
    pub gamebanana_type: Seq<char>,
    pub gamebanana_id: u32,
}

/// The characters of each string of a list.
pub open spec fn strings_view(v: Seq<String>) -> Seq<Seq<char>> {
    v.map_values(|s: String| s@)
}

impl View for RemoteModInfo {
    type V = RemoteModInfoView;

    open spec fn view(&self) -> RemoteModInfoView {
        RemoteModInfoView {
            version: self.version@,
            file_size: self.file_size,
            updated_at: self.updated_at,
            download_url: self.download_url@,
            checksums: strings_view(self.checksums@),
            gamebanana_type: self.gamebanana_type@,
            gamebanana_id: self.gamebanana_id,
        }
    }
}

/// `h` equals one of `checksums`, ignoring ASCII case.
pub open spec fn matches_any(checksums: Seq<Seq<char>>, h: Seq<char>) -> bool {
    exists|i: int| 0 <= i < checksums.len() && eq_ignore_ascii_case(#[trigger] checksums[i], h)
}

/// `h` equals one of the entry's checksums, ignoring ASCII case.
pub open spec fn matches_some_checksum(info: RemoteModInfoView, h: Seq<char>) -> bool {
    matches_any(info.checksums, h)
}

/// Decides whether `computed` equals one of `checksums`, ignoring the case
/// of ASCII letters.
pub fn checksum_matches(checksums: &[String], computed: &str) -> (r: bool)
    ensures
        r == matches_any(strings_view(checksums@), computed@),
{
    let mut i: usize = 0;
    while i < checksums.len()
        invariant
            i <= checksums.len(),
            forall|j: int| 0 <= j < i ==> !eq_ignore_ascii_case(#[trigger] strings_view(checksums@)[j], computed@),
        decreases checksums.len() - i,
    {
        assert(strings_view(checksums@)[i as int] == checksums@[i as int]@);
        if str_eq_ignore_ascii_case(checksums[i].as_str(), computed) {
            return true;
        }
        i = i + 1;
    }
    false
}

impl Clone for RemoteModInfo {
    fn clone(&self) -> (r: Self)
        ensures
            r@ == self@,
    {
        let checksums = self.checksums.clone();
        assert(strings_view(checksums@) =~= strings_view(self.checksums@));
        RemoteModInfo {
            version: self.version.clone(),
            file_size: self.file_size,
            updated_at: self.updated_at,
            download_url: self.download_url.clone(),
            checksums,
            gamebanana_type: self.gamebanana_type.clone(),
            gamebanana_id: self.gamebanana_id,
        }
    }
}

impl RemoteModInfo {
    /// Checks whether `computed_hash` matches any of the expected checksums,
    /// ignoring the case of ASCII letters.
    pub fn has_matching_hash(&self, computed_hash: &str) -> (r: bool)
        ensures
            r == matches_some_checksum(self@, computed_hash@),
    {
        checksum_matches(self.checksums.as_slice(), computed_hash)
    }
}

/// The registry as a mapping from mod name to entry.
pub type RegistryView = Map<Seq<char>, RemoteModInfoView>;

/// Lookups on the remote registry.
pub trait ModRegistryQuery {
    /// What the registry holds.
    spec fn registry_view(&self) -> RegistryView;

    /// The registry is well formed.
    spec fn registry_wf(&self) -> bool;

    /// Gets the entry of the mod named `name`.
    fn get_mod_info_by_name(&self, name: &str) -> (r: Option<&RemoteModInfo>)
        requires
            self.registry_wf(),
        ensures
            match r {
                Some(info) => self.registry_view().contains_key(name@) && info@ == self.registry_view()[name@],
                None => !self.registry_view().contains_key(name@),
            },
    ;

    /// Finds an entry, with its name, whose GameBanana page ID is `mod_id`.
    fn find_mod_registry_from_url(&self, mod_id: u32) -> (r: Option<(&String, &RemoteModInfo)>)
        requires
            self.registry_wf(),
        ensures
            match r {
                Some((name, info)) => self.registry_view().contains_key(name@) && info@
                    == self.registry_view()[name@] && info.gamebanana_id == mod_id,
                None => forall|n: Seq<char>| #[trigger]
                    self.registry_view().contains_key(n) ==> self.registry_view()[n].gamebanana_id != mod_id,
            },
    ;
}

/// The complete remote registry, keyed by mod name.
#[derive(Debug, Clone)]
pub struct RemoteModRegistry {
    entries: Vec<(String, RemoteModInfo)>,
}

impl View for RemoteModRegistry {
    type V = RegistryView;

    closed spec fn view(&self) -> RegistryView {
        Map::new(
            |n: Seq<char>| exists|i: int| 0 <= i < self.entries.len() && #[trigger] self.entries[i].0@ == n,
            |n: Seq<char>|
                {
                    let i = choose|i: int| 0 <= i < self.entries.len() && #[trigger] self.entries[i].0@ == n;
                    self.entries[i].1@
                },
        )
    }
}

impl RemoteModRegistry {
    /// No two entries share a name.
    pub closed spec fn wf(&self) -> bool {
        forall|i: int, j: int|
            0 <= i < self.entries.len() && 0 <= j < self.entries.len() && #[trigger] self.entries[i].0@
                == #[trigger] self.entries[j].0@ ==> i == j
    }

    /// An empty registry.
    pub fn new() -> (r: Self)
        ensures
            r.wf(),
            r@ == RegistryView::empty(),
    {
        let r = RemoteModRegistry { entries: Vec::new() };
        assert(r@ =~= RegistryView::empty());
        r
    }

    proof fn lemma_view_at(&self, i: int)
        requires
            self.wf(),
            0 <= i < self.entries.len(),
        ensures
            self@.contains_key(self.entries[i].0@),
            self@[self.entries[i].0@] == self.entries[i].1@,
    {
        let n = self.entries[i].0@;
        assert(self@.contains_key(n));
        let c = choose|c: int| 0 <= c < self.entries.len() && #[trigger] self.entries[c].0@ == n;
        assert(self.entries[c].0@ == self.entries[i].0@);
    }

    /// Index of the entry named `name`, if there is one.
    fn position(&self, name: &str) -> (r: Option<usize>)
        requires
            self.wf(),
        ensures
            match r {
                Some(i) => i < self.entries.len() && self.entries[i as int].0@ == name@
                    && self@.contains_key(name@) && self@[name@] == self.entries[i as int].1@,
                None => !self@.contains_key(name@),
            },
    {
        let mut i: usize = 0;
        while i < self.entries.len()
            invariant
                self.wf(),
                i <= self.entries.len(),
                forall|j: int| 0 <= j < i ==> self.entries[j].0@ != name@,
            decreases self.entries.len() - i,
        {
            if str_eq(self.entries[i].0.as_str(), name) {
                proof {
                    self.lemma_view_at(i as int);
                }
                return Some(i);
            }
            i = i + 1;
        }
        None
    }

    /// Adds or replaces the entry of mod `name`.
    pub fn insert(&mut self, name: String, info: RemoteModInfo)
        requires
            old(self).wf(),
        ensures
            final(self).wf(),
            final(self)@ == old(self)@.insert(name@, info@),
    {
        let ghost n = name@;
        let ghost v = info@;
        let ghost at: int;
        match self.position(name.as_str()) {
            Some(i) => {
                self.entries.set(i, (name, info));
                proof {
                    at = i as int;
                }
            },
            None => {
                self.entries.push((name, info));
                proof {
                    at = self.entries.len() - 1;
                }
            },
        }
        let ghost pre = *old(self);
        assert(forall|j: int| 0 <= j < self.entries.len() && j != at ==> j < pre.entries.len() && #[trigger] self.entries[j] == pre.entries[j]);
        assert(self.entries[at].0@ == n);
        assert(self.wf());
        assert forall|m: Seq<char>| #[trigger] self@.contains_key(m) <==> pre@.insert(n, v).contains_key(m) by {
            if m != n {
                if self@.contains_key(m) {
                    let j = choose|j: int| 0 <= j < self.entries.len() && #[trigger] self.entries[j].0@ == m;
                    assert(pre.entries[j].0@ == m);
                }
                if pre@.contains_key(m) {
                    let j = choose|j: int| 0 <= j < pre.entries.len() && #[trigger] pre.entries[j].0@ == m;
                    assert(j != at);
                    assert(self.entries[j].0@ == m);
                }
            } else {
                self.lemma_view_at(at);
            }
        }
        assert forall|m: Seq<char>| #[trigger] self@.contains_key(m) implies self@[m] == pre@.insert(n, v)[m] by {
            if m == n {
                self.lemma_view_at(at);
            } else {
                let j = choose|j: int| 0 <= j < self.entries.len() && #[trigger] self.entries[j].0@ == m;
                self.lemma_view_at(j);
                pre.lemma_view_at(j);
            }
        }
        assert(self@ =~= pre@.insert(n, v));
    }

    /// One of the first `i` entries is named `n` and has page ID `mod_id`.
    closed spec fn listed_with_id(&self, n: Seq<char>, mod_id: u32, i: int) -> bool {
        exists|j: int| 0 <= j < i && #[trigger] self.entries[j].0@ == n && self.entries[j].1.gamebanana_id == mod_id
    }

    /// Names of all entries whose GameBanana page ID is `mod_id`, each once.
    pub fn get_mod_name_by_id(&self, mod_id: u32) -> (r: Vec<String>)
        requires
            self.wf(),
        ensures
            strings_view(r@).no_duplicates(),
            forall|n: Seq<char>| #[trigger] strings_view(r@).contains(n) <==> (self@.contains_key(n)
                && self@[n].gamebanana_id == mod_id),
    {
        let mut r: Vec<String> = Vec::new();
        let mut i: usize = 0;
        while i < self.entries.len()
            invariant
                self.wf(),
                i <= self.entries.len(),
                r@.len() <= i,
                forall|k: int| 0 <= k < r.len() ==> #[trigger] self.listed_with_id(r@[k]@, mod_id, i as int),
                forall|j: int| 0 <= j < i && #[trigger] self.entries[j].1.gamebanana_id == mod_id ==> strings_view(r@).contains(self.entries[j].0@),
                strings_view(r@).no_duplicates(),
            decreases self.entries.len() - i,
        {
            if self.entries[i].1.gamebanana_id == mod_id {
                let ghost before = r@;
                r.push(self.entries[i].0.clone());
                proof {
                    assert(strings_view(r@) =~= strings_view(before).push(self.entries[i as int].0@));
                    assert forall|c: Seq<char>| strings_view(before).contains(c) implies strings_view(r@).contains(c) by {
                        let w = choose|w: int| 0 <= w < strings_view(before).len() && strings_view(before)[w] == c;
                        assert(strings_view(r@)[w] == c);
                    }
                    assert(strings_view(r@)[before.len() as int] == self.entries[i as int].0@);
                    assert forall|k: int| 0 <= k < before.len() implies strings_view(r@)[k] != self.entries[i as int].0@ by {
                        assert(self.listed_with_id(before[k]@, mod_id, i as int));
                        let j = choose|j: int| 0 <= j < i && #[trigger] self.entries[j].0@ == before[k]@ && self.entries[j].1.gamebanana_id == mod_id;
                        assert(strings_view(r@)[k] == before[k]@);
                    }
                    assert forall|k: int| 0 <= k < r.len() implies #[trigger] self.listed_with_id(r@[k]@, mod_id, i + 1) by {
                        if k < before.len() {
                            assert(r@[k] == before[k]);
                            assert(self.listed_with_id(before[k]@, mod_id, i as int));
                            let j = choose|j: int| 0 <= j < i && #[trigger] self.entries[j].0@ == before[k]@ && self.entries[j].1.gamebanana_id == mod_id;
                            assert(0 <= j < i + 1 && self.entries[j].0@ == r@[k]@);
                        } else {
                            assert(self.entries[i as int].0@ == r@[k]@);
                        }
                    }
                }
            } else {
                proof {
                    assert forall|k: int| 0 <= k < r.len() implies #[trigger] self.listed_with_id(r@[k]@, mod_id, i + 1) by {
                        assert(self.listed_with_id(r@[k]@, mod_id, i as int));
                        let j = choose|j: int| 0 <= j < i && #[trigger] self.entries[j].0@ == r@[k]@ && self.entries[j].1.gamebanana_id == mod_id;
                        assert(0 <= j < i + 1);
                    }
                }
            }
            i = i + 1;
        }
        proof {
            assert forall|n: Seq<char>| #[trigger] strings_view(r@).contains(n) <==> (self@.contains_key(n)
                && self@[n].gamebanana_id == mod_id) by {
                if strings_view(r@).contains(n) {
                    let k = choose|k: int| 0 <= k < strings_view(r@).len() && strings_view(r@)[k] == n;
                    assert(self.listed_with_id(r@[k]@, mod_id, i as int));
                    let j = choose|j: int| 0 <= j < i && #[trigger] self.entries[j].0@ == r@[k]@ && self.entries[j].1.gamebanana_id == mod_id;
                    self.lemma_view_at(j);
                }
                if self@.contains_key(n) && self@[n].gamebanana_id == mod_id {
                    let j = choose|j: int| 0 <= j < self.entries.len() && #[trigger] self.entries[j].0@ == n;
                    self.lemma_view_at(j);
                }
            }
        }
        r
    }
}

impl ModRegistryQuery for RemoteModRegistry {
    open spec fn registry_view(&self) -> RegistryView {
        self@
    }

    open spec fn registry_wf(&self) -> bool {
        self.wf()
    }

    fn get_mod_info_by_name(&self, name: &str) -> (r: Option<&RemoteModInfo>) {
        match self.position(name) {
            Some(i) => Some(&self.entries[i].1),
            None => None,
        }
    }

    fn find_mod_registry_from_url(&self, mod_id: u32) -> (r: Option<(&String, &RemoteModInfo)>) {
        let mut i: usize = 0;
        while i < self.entries.len()
            invariant
                self.wf(),
                i <= self.entries.len(),
                forall|j: int| 0 <= j < i ==> #[trigger] self.entries[j].1.gamebanana_id != mod_id,
            decreases self.entries.len() - i,
        {
            if self.entries[i].1.gamebanana_id == mod_id {
                proof {
                    self.lemma_view_at(i as int);
                }
                return Some((&self.entries[i].0, &self.entries[i].1));
            }
            i = i + 1;
        }
        proof {
            assert forall|n: Seq<char>| #[trigger] self@.contains_key(n) implies self@[n].gamebanana_id != mod_id by {
                let j = choose|j: int| 0 <= j < self.entries.len() && #[trigger] self.entries[j].0@ == n;
                self.lemma_view_at(j);
            }
        }
        None
    }
}

} // verus!
