use everest_mod_cli::local::LocalMod;
use everest_mod_cli::manifest::{strip_bom, ManifestParseError, ModManifest};
use everest_mod_cli::registry::{RemoteModInfo, RemoteModRegistry};
use everest_mod_cli::update::check_updates;
use std::collections::VecDeque;

fn manifest(name: &str, version: &str) -> ModManifest {
    ModManifest::new(name.to_string(), version.to_string(), None, None, None)
}

fn remote(checksum: &str) -> RemoteModInfo {
    RemoteModInfo {
        version: "2.0".to_string(),
        file_size: 10,
        updated_at: 1,
        download_url: "https://gamebanana.com/mmdl/1".to_string(),
        checksums: vec![checksum.to_string()],
        gamebanana_type: "Mod".to_string(),
        gamebanana_id: 1,
    }
}

fn local(name: &str, checksum: Option<&str>) -> LocalMod {
    let mut m = LocalMod::new(format!("/mods/{}.zip", name), manifest(name, "1.0"));
    if let Some(c) = checksum {
        m.record_checksum(c.to_string());
    }
    m
}

#[test]
fn first_manifest_entry_is_the_mod() {
    let mut entries = VecDeque::new();
    entries.push_back(manifest("TestMod", "1.0.0"));
    entries.push_back(manifest("Other", "2"));
    let m = ModManifest::from_entries(entries).unwrap();
    assert_eq!(m.name, "TestMod");
    assert_eq!(m.version, "1.0.0");
    assert!(matches!(ModManifest::from_entries(VecDeque::new()), Err(ManifestParseError::NoModEntries)));
}

#[test]
fn byte_order_mark_is_stripped() {
    assert_eq!(strip_bom(vec![0xEF, 0xBB, 0xBF, b'a']), vec![b'a']);
    assert_eq!(strip_bom(vec![0xEF, 0xBB, b'a']), vec![0xEF, 0xBB, b'a']);
    assert_eq!(strip_bom(vec![]), Vec::<u8>::new());
}

#[test]
fn checksum_is_recorded_once() {
    let mut m = LocalMod::new("/m.zip".to_string(), manifest("M", "1"));
    assert_eq!(m.checksum(), None);
    m.record_checksum("aaaa".to_string());
    m.record_checksum("bbbb".to_string());
    assert_eq!(m.checksum(), Some("aaaa"));
    assert_eq!(m.location, "/m.zip");
}

#[test]
fn updates_are_mods_whose_checksum_is_not_listed() {
    let mut reg = RemoteModRegistry::new();
    reg.insert("Old".to_string(), remote("1111"));
    reg.insert("Fresh".to_string(), remote("ABCD"));
    reg.insert("Unknown".to_string(), remote("2222"));
    let locals = vec![
        local("Old", Some("0000")),
        local("Fresh", Some("abcd")),
        local("Unknown", None),
        local("Gone", Some("3333")),
    ];
    let updates = check_updates(&locals, &reg);
    assert_eq!(updates, vec![("Old".to_string(), remote("1111"))]);
}
