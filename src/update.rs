//! Finding updates: which installed mods the registry has a newer file of.

use crate::local::LocalMod;
use crate::registry::{matches_some_checksum, ModRegistryQuery, RegistryView, RemoteModInfo, RemoteModInfoView, RemoteModRegistry};
use vstd::prelude::*;

verus! {

/// The update for `m`, if there is one: the registry lists its name, its
/// checksum is known, and matches none of the listed checksums.
pub open spec fn update_for(m: LocalMod, reg: RegistryView) -> Option<(Seq<char>, RemoteModInfoView)> {
    let name = m@.manifest.name@;
    match m@.checksum {
        Some(h) => if reg.contains_key(name) && !matches_some_checksum(reg[name], h) {
            Some((name, reg[name]))
        } else {
            None
        },
        None => None,
    }
}

/// The updates for a list of installed mods, in the list's order.
pub open spec fn updates_for(ms: Seq<LocalMod>, reg: RegistryView) -> Seq<(Seq<char>, RemoteModInfoView)>
    decreases ms.len(),
{
    if ms.len() == 0 {
        Seq::empty()
    } else {
        let rest = updates_for(ms.drop_last(), reg);
        match update_for(ms.last(), reg) {
            Some(u) => rest.push(u),
            None => rest,
        }
    }
}

/// A list of (name, entry) pairs as plain values.
pub open spec fn pairs_view(r: Seq<(String, RemoteModInfo)>) -> Seq<(Seq<char>, RemoteModInfoView)> {
    r.map_values(|p: (String, RemoteModInfo)| (p.0@, p.1@))
}

/// Finds the installed mods that are out of date: those that the registry
/// lists and whose computed checksum matches none of the registry's
/// checksums, each with its registry entry, in the order of `local_mods`.
/// Mods whose checksum could not be computed, and mods the registry does not
/// list, are left out.
pub fn check_updates(local_mods: &[LocalMod], mod_registry: &RemoteModRegistry) -> (r: Vec<(String, RemoteModInfo)>)
    requires
        mod_registry.wf(),
    ensures
        pairs_view(r@) == updates_for(local_mods@, mod_registry@),
{
    let mut r: Vec<(String, RemoteModInfo)> = Vec::new();
    let mut i: usize = 0;
    while i < local_mods.len()
        invariant
            mod_registry.wf(),
            i <= local_mods.len(),
            pairs_view(r@) == updates_for(local_mods@.subrange(0, i as int), mod_registry@),
        decreases local_mods.len() - i,
    {
        let m = &local_mods[i];
        let manifest = m.manifest();
        let ghost before = r@;
        assert(local_mods@.subrange(0, i + 1).drop_last() =~= local_mods@.subrange(0, i as int));
        assert(local_mods@.subrange(0, i + 1).last() == *m);
        match mod_registry.get_mod_info_by_name(manifest.name.as_str()) {
            Some(remote) => {
                match m.checksum() {
                    Some(h) => {
                        if !remote.has_matching_hash(h) {
                            r.push((manifest.name.clone(), remote.clone()));
                            assert(pairs_view(r@) =~= pairs_view(before).push((manifest.name@, remote@)));
                        }
                    },
                    None => {},
                }
            },
            None => {},
        }
        i = i + 1;
    }
    assert(local_mods@.subrange(0, local_mods.len() as int) =~= local_mods@);
    r
}

} // verus!
