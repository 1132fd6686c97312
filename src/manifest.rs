//! The manifest (`everest.yaml`) that every mod archive embeds.

use std::collections::VecDeque;
use vstd::prelude::*;

verus! {

/// A required or optional dependency of a mod.
#[derive(Debug, Default, Clone, Hash, PartialEq, Eq)]
pub struct Dependency {
    /// Name of the dependency mod.
    pub name: String,
    /// Version of the dependency mod, when declared.
    pub version: Option<String>,
}

/// The names of a list of dependencies, in order.
pub open spec fn dependency_names(deps: Seq<Dependency>) -> Seq<Seq<char>> {
    deps.map_values(|d: Dependency| d.name@)
}

/// Relied on only as an opaque value: the error that `serde_yaml_ng` reports
/// for malformed YAML, carried to the caller unchanged.
#[verifier::external_type_specification]
#[verifier::external_body]
pub struct ExYamlError(serde_yaml_ng::Error);

/// Errors that can occur while reading the manifest of a mod.
#[derive(Debug)]
pub enum ManifestParseError {
    /// The manifest holds no mod entry.
    NoModEntries,
    /// The manifest is not valid YAML of the expected shape.
    Parse(serde_yaml_ng::Error),
}

/// Errors that can occur while loading a mod archive.
#[derive(Debug)]
pub enum ModManifestError {
    /// The manifest holds no mod entry.
    Invalid,
    /// The archive holds no manifest.
    NotFound,
    /// The manifest is not valid YAML of the expected shape.
    Parse(serde_yaml_ng::Error),
    /// The archive could not be read; the message says why.
    Zip(String),
}

/// The manifest (`everest.yaml`) that defines a mod.
#[derive(Debug, Default, Clone, Hash, PartialEq, Eq)]
pub struct ModManifest {
    /// Name of the mod: the unique identifier of the mod.
    pub name: String,
    /// Version of the mod. Not every mod follows semantic versioning.
    pub version: String,
    /// Path to the mod's code file, if it has one.
    pub dll: Option<String>,
    /// Mods that this mod requires.
    pub dependencies: Option<Vec<Dependency>>,
    /// Mods that are loaded first when installed, but are not required.
    pub optional_dependencies: Option<Vec<Dependency>>,
}

impl ModManifest {
    /// A manifest with the given fields.
    pub fn new(
        name: String,
        version: String,
        dll: Option<String>,
        dependencies: Option<Vec<Dependency>>,
        optional_dependencies: Option<Vec<Dependency>>,
    ) -> (r: Self)
        ensures
            r.name == name,
            r.version == version,
            r.dll == dll,
            r.dependencies == dependencies,
            r.optional_dependencies == optional_dependencies,
    {
        ModManifest { name, version, dll, dependencies, optional_dependencies }
    }

    /// Path to the mod's code file, if it has one.
    pub fn dll(&self) -> (r: &Option<String>)
        ensures
            *r == self.dll,
    {
        &self.dll
    }

    /// The manifest of the primary mod among the entries of a manifest file:
    /// the first one.
    pub fn from_entries(mut entries: VecDeque<ModManifest>) -> (r: Result<ModManifest, ManifestParseError>)
        ensures
            entries@.len() > 0 ==> r == Ok::<ModManifest, ManifestParseError>(entries@[0]),
            entries@.len() == 0 ==> r matches Err(ManifestParseError::NoModEntries),
    {
        match entries.pop_front() {
            Some(entry) => Ok(entry),
            None => Err(ManifestParseError::NoModEntries),
        }
    }
}

/// `b` begins with the UTF-8 byte order mark.
pub open spec fn has_bom(b: Seq<u8>) -> bool {
    b.len() >= 3 && b[0] == 0xEF && b[1] == 0xBB && b[2] == 0xBF
}

/// Removes a leading UTF-8 byte order mark, if there is one.
pub fn strip_bom(buffer: Vec<u8>) -> (r: Vec<u8>)
    ensures
        r@ == if has_bom(buffer@) {
            buffer@.subrange(3, buffer@.len() as int)
        } else {
            buffer@
        },
{
    if buffer.len() >= 3 && buffer[0] == 0xEF && buffer[1] == 0xBB && buffer[2] == 0xBF {
        let mut r: Vec<u8> = Vec::new();
        let mut i: usize = 3;
        while i < buffer.len()
            invariant
                3 <= i <= buffer.len(),
                r@ == buffer@.subrange(3, i as int),
            decreases buffer.len() - i,
        {
            r.push(buffer[i]);
            i = i + 1;
            assert(r@ =~= buffer@.subrange(3, i as int));
        }
        r
    } else {
        buffer
    }
}

} // verus!
