//! Installed mods: an archive's location, its manifest and, once computed,
//! its checksum.

use crate::manifest::ModManifest;
use vstd::prelude::*;

verus! {

/// A locally installed mod.
#[derive(Debug, Clone)]
pub struct LocalMod {
    /// Path of the archive that holds the mod's assets and manifest.
    pub location: String,
    /// The manifest found in the archive.
    pub manifest: ModManifest,
    /// Checksum of the archive, once computed: set at most once.
    checksum: Option<String>,
}

/// An installed mod as plain values.
pub struct LocalModView {
    pub location: Seq<char>,
    pub manifest: ModManifest,
    pub checksum: Option<Seq<char>>,
}

impl View for LocalMod {
    type V = LocalModView;

    closed spec fn view(&self) -> LocalModView {
        LocalModView {
            location: self.location@,
            manifest: self.manifest,
            checksum: match self.checksum {
                Some(s) => Some(s@),
                None => None,
            },
        }
    }
}

impl LocalMod {
    /// A mod found at `location` with the given manifest; its checksum is not
    /// computed yet.
    pub fn new(location: String, manifest: ModManifest) -> (r: Self)
        ensures
            r@.location == location@,
            r@.manifest == manifest,
            r@.checksum is None,
    {
        LocalMod { location, manifest, checksum: None }
    }

    /// The manifest found in the archive.
    pub fn manifest(&self) -> (r: &ModManifest)
        ensures
            *r == self@.manifest,
    {
        &self.manifest
    }

    /// The cached checksum, if it was computed.
    pub fn checksum(&self) -> (r: Option<&str>)
        ensures
            match r {
                Some(s) => self@.checksum == Some(s@),
                None => self@.checksum is None,
            },
    {
        match &self.checksum {
            Some(s) => Some(s.as_str()),
            None => None,
        }
    }

    /// Caches `hash` as the checksum, unless one is cached already: the first
    /// recorded checksum is kept for the life of the value.
    pub fn record_checksum(&mut self, hash: String)
        ensures
            final(self)@.location == old(self)@.location,
            final(self)@.manifest == old(self)@.manifest,
            final(self)@.checksum == match old(self)@.checksum {
                Some(c) => Some(c),
                None => Some(hash@),
            },
    {
        if self.checksum.is_none() {
            self.checksum = Some(hash);
        }
    }
}

} // verus!
