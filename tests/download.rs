use everest_mod_cli::checksum::{to_hex16, ChecksumStream};
use everest_mod_cli::download::{
    choose_filename, determine_filename, extract_filename_from_etag, extract_filename_from_url, DownloadError,
    DownloadSession, DownloadStep,
};
use everest_mod_cli::mirror::{candidate_urls, mirror_url, parse_mirror_preferences, Mirror};
use everest_mod_cli::pool::{DownloadPool, DEFAULT_POOL_SIZE};
use everest_mod_cli::registry::RemoteModInfo;

fn session(urls: &[&str], expected: &[&str]) -> DownloadSession {
    DownloadSession::new(
        urls.iter().map(|u| u.to_string()).collect(),
        expected.iter().map(|e| e.to_string()).collect(),
        "/mods".to_string(),
    )
}

fn received(s: &mut DownloadSession) -> String {
    assert_eq!(s.start(), DownloadStep::Request("https://a/1".to_string()));
    assert_eq!(s.on_response("m.zip"), DownloadStep::Save("/mods/m.zip".to_string()));
    s.on_chunk(b"abc");
    "/mods/m.zip".to_string()
}

#[test]
fn scenario_matching_checksum_keeps_the_file() {
    let mut s = session(&["https://a/1"], &["deadbeef"]);
    let path = received(&mut s);
    assert_eq!(s.settle("deadbeef".to_string()), DownloadStep::Keep(path));
}

#[test]
fn scenario_mismatching_checksum_removes_the_file() {
    let mut s = session(&["https://a/1"], &["deadbeef"]);
    let path = received(&mut s);
    assert_eq!(
        s.settle("cafefeed".to_string()),
        DownloadStep::Discard(
            path.clone(),
            DownloadError::InvalidChecksum {
                file: path,
                computed: "cafefeed".to_string(),
                expected: vec!["deadbeef".to_string()],
            }
        )
    );
}

#[test]
fn checksum_verdict_ignores_ascii_case() {
    let mut s = session(&["https://a/1"], &["DEADBEEF", "0011"]);
    let path = received(&mut s);
    assert_eq!(s.settle("deadbeef".to_string()), DownloadStep::Keep(path));
}

#[test]
fn stream_end_checks_the_xxh64_of_the_body() {
    let body: &[u8] = b"abc";
    let digest = format!("{:016x}", xxhash_rust::xxh64::xxh64(body, 0));
    let mut s = session(&["https://a/1"], &[digest.as_str()]);
    let path = received(&mut s);
    assert_eq!(s.on_stream_end(), DownloadStep::Keep(path));

    let mut s = session(&["https://a/1"], &["0000000000000000"]);
    let path = received(&mut s);
    match s.on_stream_end() {
        DownloadStep::Discard(p, DownloadError::InvalidChecksum { computed, .. }) => {
            assert_eq!(p, path);
            assert_eq!(computed, digest);
        }
        other => panic!("unexpected step {:?}", other),
    }
}

#[test]
fn every_mirror_failing_makes_one_request_each() {
    let urls = ["https://a/1", "https://b/1", "https://c/1"];
    let mut s = session(&urls, &["00"]);
    let mut requests = Vec::new();
    let mut step = s.start();
    loop {
        match step {
            DownloadStep::Request(u) => {
                requests.push(u);
                step = s.on_request_failed();
            }
            DownloadStep::Fail(e) => {
                assert_eq!(e, DownloadError::Unreachable { attempts: 3 });
                break;
            }
            other => panic!("unexpected step {:?}", other),
        }
    }
    assert_eq!(requests, urls.iter().map(|u| u.to_string()).collect::<Vec<_>>());
}

#[test]
fn no_candidate_fails_at_once() {
    let mut s = session(&[], &["00"]);
    assert_eq!(s.start(), DownloadStep::Fail(DownloadError::Unreachable { attempts: 0 }));
}

#[test]
fn broken_body_removes_the_partial_file_and_tries_the_next_mirror() {
    let mut s = session(&["https://a/1", "https://b/1"], &["00"]);
    let path = received(&mut s);
    assert_eq!(
        s.on_stream_failed(),
        DownloadStep::Retry { remove: path, url: "https://b/1".to_string() }
    );
    assert_eq!(s.on_response("n.zip"), DownloadStep::Save("/mods/n.zip".to_string()));
    assert_eq!(
        s.on_stream_failed(),
        DownloadStep::Discard("/mods/n.zip".to_string(), DownloadError::Unreachable { attempts: 2 })
    );
}

#[test]
fn write_failure_removes_the_partial_file() {
    let mut s = session(&["https://a/1"], &["00"]);
    let path = received(&mut s);
    assert_eq!(
        s.on_write_failed(),
        DownloadStep::Discard(path.clone(), DownloadError::Storage { file: path })
    );
}

#[test]
fn session_for_a_mod_tries_mirrors_in_order() {
    let info = RemoteModInfo {
        version: "1".to_string(),
        file_size: 3,
        updated_at: 0,
        download_url: "https://gamebanana.com/mmdl/555".to_string(),
        checksums: vec!["ab".to_string()],
        gamebanana_type: "Mod".to_string(),
        gamebanana_id: 9,
    };
    let mut s = DownloadSession::for_mod(&info, &[Mirror::Otobot, Mirror::GameBanana], "/d".to_string());
    assert_eq!(
        s.start(),
        DownloadStep::Request("https://banana-mirror-mods.celestemods.com/555.zip".to_string())
    );
    assert_eq!(
        s.on_request_failed(),
        DownloadStep::Request("https://gamebanana.com/mmdl/555".to_string())
    );
}

#[test]
fn filename_comes_from_url_then_etag_then_a_unique_name() {
    assert_eq!(extract_filename_from_url("/files/mod.zip"), Some("mod.zip".to_string()));
    assert_eq!(extract_filename_from_url("/files/"), None);
    assert_eq!(extract_filename_from_url(""), None);
    assert_eq!(extract_filename_from_url("plain"), Some("plain".to_string()));
    assert_eq!(extract_filename_from_etag("\"abc123\""), "abc123.zip");
    assert_eq!(extract_filename_from_etag("W/\"x\""), "W/\"x.zip");
    assert_eq!(choose_filename("/a/b.zip", Some("\"e\""), "u"), "b.zip");
    assert_eq!(choose_filename("/a/", Some("\"e\""), "u"), "e.zip");
    assert_eq!(choose_filename("/a/", None, "u"), "unknown-mod_u.zip");
    assert_eq!(determine_filename("/x/y.zip", None), "y.zip");
    assert_eq!(determine_filename("/", Some("\"t\"")), "t.zip");
    let made_up = determine_filename("/", None);
    assert!(made_up.starts_with("unknown-mod_") && made_up.ends_with(".zip"));
    assert_eq!(made_up.len(), "unknown-mod_".len() + 36 + ".zip".len());
    assert_ne!(made_up, determine_filename("/", None));
}

#[test]
fn mirrors_serve_gamebanana_files_by_id() {
    let url = "https://gamebanana.com/mmdl/1234";
    assert_eq!(mirror_url(Mirror::GameBanana, url), Some(url.to_string()));
    assert_eq!(
        mirror_url(Mirror::Jade, url),
        Some("https://celestemodupdater.0x0a.de/banana-mirror/1234.zip".to_string())
    );
    assert_eq!(
        mirror_url(Mirror::Wegfan, url),
        Some("https://celeste.weg.fan/api/v2/download/gamebanana-files/1234".to_string())
    );
    assert_eq!(
        mirror_url(Mirror::Otobot, url),
        Some("https://banana-mirror-mods.celestemods.com/1234.zip".to_string())
    );
    assert_eq!(mirror_url(Mirror::Jade, "https://example.com/x.zip"), None);
    assert_eq!(
        candidate_urls(&[Mirror::Jade, Mirror::GameBanana], "https://example.com/x.zip"),
        vec!["https://example.com/x.zip".to_string()]
    );
}

#[test]
fn mirror_priority_lists_are_parsed_in_order() {
    assert_eq!(
        parse_mirror_preferences("otobot,gb,jade,wegfan"),
        Ok(vec![Mirror::Otobot, Mirror::GameBanana, Mirror::Jade, Mirror::Wegfan])
    );
    assert_eq!(parse_mirror_preferences(" jade , gb"), Ok(vec![Mirror::Jade, Mirror::GameBanana]));
    assert_eq!(parse_mirror_preferences("gb,nope"), Err("nope".to_string()));
    assert_eq!(parse_mirror_preferences("gb,,jade"), Err("".to_string()));
}

#[test]
fn pool_never_exceeds_its_permits() {
    let mut pool = DownloadPool::new(10, 3);
    let mut running: Vec<usize> = Vec::new();
    let mut started = Vec::new();
    let mut peak = 0;
    while !pool.is_done() {
        while let Some(i) = pool.start_next() {
            running.push(i);
            started.push(i);
        }
        peak = peak.max(pool.in_flight());
        assert!(pool.in_flight() <= 3);
        running.remove(0);
        pool.finish();
    }
    assert_eq!(peak, 3);
    assert_eq!(started, (0..10).collect::<Vec<_>>());
    assert_eq!(DEFAULT_POOL_SIZE, 6);
}

#[test]
fn hex_and_streamed_checksum() {
    assert_eq!(to_hex16(0xdeadbeef), "00000000deadbeef");
    assert_eq!(to_hex16(u64::MAX), "ffffffffffffffff");
    assert_eq!(ChecksumStream::new().finish(), "ef46db3751d8e999");
    let mut s = ChecksumStream::new();
    s.update(b"hello ");
    s.update(b"world");
    assert_eq!(s.finish(), format!("{:016x}", xxhash_rust::xxh64::xxh64(b"hello world", 0)));
}
