use everest_mod_cli::registry::{checksum_matches, ModRegistryQuery, RemoteModInfo, RemoteModRegistry};

fn info(url: &str, checksums: &[&str], id: u32) -> RemoteModInfo {
    RemoteModInfo {
        version: "1.0".to_string(),
        file_size: 1024,
        updated_at: 1610000000,
        download_url: url.to_string(),
        checksums: checksums.iter().map(|c| c.to_string()).collect(),
        gamebanana_type: "test".to_string(),
        gamebanana_id: id,
    }
}

/// Tests the get_mod_info_from_url function with a dummy registry.
#[test]
fn test_get_mod_info_from_url_valid() {
    // Create a dummy mod registry with two entries.
    let mut mod_registry = RemoteModRegistry::new();
    let key1 = String::from("mod1");
    let mod_info1 = RemoteModInfo {
        version: "1.0".to_string(),
        file_size: 1024,
        updated_at: 1610000000,
        download_url: "https://example.com/mod1".to_string(),
        checksums: vec!["deadbeef".to_string()],
        gamebanana_type: "test".to_string(),
        gamebanana_id: 42,
    };
    let key2 = String::from("mod2");
    let mod_info2 = RemoteModInfo {
        version: "2.0".to_string(),
        file_size: 2048,
        updated_at: 1620000000,
        download_url: "https://example.com/mod2".to_string(),
        checksums: vec!["feedface".to_string()],
        gamebanana_type: "test".to_string(),
        gamebanana_id: 99,
    };

    mod_registry.insert(key1.clone(), mod_info1);
    mod_registry.insert(key2.clone(), mod_info2);

    // Test URL that should match gamebanana_id 42
    let id = 42;
    let result = mod_registry.find_mod_registry_from_url(id);
    assert!(result.is_some());
    let (found_key, found_mod) = result.unwrap();
    // The found mod should have gamebanana_id 42 and the key should be "mod1"
    assert_eq!(found_mod.gamebanana_id, 42);
    assert_eq!(found_key, &key1);

    // Test URL that does not match any entry
    let id = 12345;
    let result_invalid = mod_registry.find_mod_registry_from_url(id);
    assert!(result_invalid.is_none());
}

/// Tests the has_matching_hash method for RemoteModInfo.
#[test]
fn test_has_matching_hash() {
    let mod_info = RemoteModInfo {
        version: "1.0".to_string(),
        file_size: 1024,
        updated_at: 1610000000,
        download_url: "https://example.com/mod".to_string(),
        checksums: vec!["abcd1234".to_string(), "efgh5678".to_string()],
        gamebanana_type: "test".to_string(),
        gamebanana_id: 10,
    };

    assert!(mod_info.has_matching_hash("abcd1234"));
    assert!(mod_info.has_matching_hash("efgh5678"));
    assert!(!mod_info.has_matching_hash("notfound"));
}

#[test]
fn matching_hash_ignores_ascii_case_only() {
    let m = info("u", &["DEADbeef"], 1);
    assert!(m.has_matching_hash("deadBEEF"));
    assert!(!m.has_matching_hash("deadbee"));
    assert!(!m.has_matching_hash("deadbeeff"));
    assert!(!checksum_matches(&[], "deadbeef"));
}

#[test]
fn registry_lookup_by_name_and_replacement() {
    let mut reg = RemoteModRegistry::new();
    reg.insert("A".to_string(), info("ua", &["01"], 1));
    reg.insert("B".to_string(), info("ub", &["02"], 2));
    reg.insert("A".to_string(), info("ua2", &["03"], 3));
    assert_eq!(reg.get_mod_info_by_name("A").unwrap().download_url, "ua2");
    assert_eq!(reg.get_mod_info_by_name("B").unwrap().gamebanana_id, 2);
    assert!(reg.get_mod_info_by_name("C").is_none());
    assert!(reg.find_mod_registry_from_url(1).is_none());
}

#[test]
fn names_by_page_id_lists_every_file_of_a_page() {
    let mut reg = RemoteModRegistry::new();
    reg.insert("A".to_string(), info("ua", &["01"], 7));
    reg.insert("B".to_string(), info("ub", &["02"], 8));
    reg.insert("C".to_string(), info("uc", &["03"], 7));
    let mut names = reg.get_mod_name_by_id(7);
    names.sort();
    assert_eq!(names, vec!["A".to_string(), "C".to_string()]);
    assert!(reg.get_mod_name_by_id(9).is_empty());
}

#[test]
fn cloned_entry_is_equal() {
    let m = info("u", &["aa", "bb"], 5);
    assert_eq!(m.clone(), m);
}
