use everest_mod_cli::error::ModPageUrlParseError;
use everest_mod_cli::util::{mod_id_from_url_parts, parse_mod_page_url, sanitize, trim, UrlParts};
use std::borrow::Cow;

#[test]
fn test_valid_url() {
    let url = "https://gamebanana.com/mods/12345";
    assert_eq!(parse_mod_page_url(url).unwrap(), 12345);
}

#[test]
fn test_invalid_scheme() {
    let url = "ftp://gamebanana.com/mods/12345";
    assert!(parse_mod_page_url(url).is_err());
}

#[test]
fn test_invalid_host() {
    let url = "https://example.com/mods/12345";
    assert!(parse_mod_page_url(url).is_err());
}

#[test]
fn test_missing_id() {
    let url = "https://gamebanana.com/mods/";
    assert!(parse_mod_page_url(url).is_err());
}

#[test]
fn test_non_numeric_id() {
    let url = "https://gamebanana.com/mods/abc";
    assert!(parse_mod_page_url(url).is_err());
}

#[test]
fn mod_page_url_errors_name_their_cause() {
    assert_eq!(
        parse_mod_page_url("not a url"),
        Err(ModPageUrlParseError::InvalidUrl("not a url".to_string()))
    );
    assert_eq!(
        parse_mod_page_url("ftp://gamebanana.com/mods/12345"),
        Err(ModPageUrlParseError::UnsupportedScheme("ftp://gamebanana.com/mods/12345".to_string()))
    );
    assert_eq!(
        parse_mod_page_url("https://example.com/mods/12345"),
        Err(ModPageUrlParseError::InvalidGameBananaUrl("https://example.com/mods/12345".to_string()))
    );
    assert_eq!(
        parse_mod_page_url("https://gamebanana.com/tools/12345"),
        Err(ModPageUrlParseError::InvalidGameBananaUrl("https://gamebanana.com/tools/12345".to_string()))
    );
    assert_eq!(
        parse_mod_page_url("https://gamebanana.com/mods/abc"),
        Err(ModPageUrlParseError::InvalidModId("abc".to_string()))
    );
    assert_eq!(parse_mod_page_url("http://gamebanana.com/mods/77/updates"), Ok(77));
}

#[test]
fn mod_id_from_parts_checks_each_part() {
    let parts = |scheme: &str, host: Option<&str>, segs: Option<Vec<&str>>| UrlParts {
        scheme: scheme.to_string(),
        host: host.map(|h| h.to_string()),
        segments: segs.map(|v| v.into_iter().map(|s| s.to_string()).collect()),
    };
    assert_eq!(
        mod_id_from_url_parts("u", Some(parts("https", Some("gamebanana.com"), Some(vec!["mods", "42"])))),
        Ok(42)
    );
    assert_eq!(
        mod_id_from_url_parts("u", Some(parts("https", Some("gamebanana.com"), None))),
        Err(ModPageUrlParseError::InvalidGameBananaUrl("u".to_string()))
    );
    assert_eq!(
        mod_id_from_url_parts("u", Some(parts("https", None, Some(vec!["mods", "42"])))),
        Err(ModPageUrlParseError::InvalidGameBananaUrl("u".to_string()))
    );
    assert_eq!(mod_id_from_url_parts("u", None), Err(ModPageUrlParseError::InvalidUrl("u".to_string())));
}

#[test]
fn test_sanitize_empty() {
    assert_eq!(sanitize(""), Cow::Borrowed("unnamed"));
}

#[test]
fn test_sanitize_with_bad_chars() {
    assert_eq!(
        sanitize("Mod/Name*With?Bad:Chars;"),
        Cow::Owned::<str>("Mod_Name_With_Bad_Chars_".to_string())
    );
}

#[test]
fn test_sanitize_with_whitespace() {
    assert_eq!(
        sanitize("  Mod Name  "),
        Cow::Owned::<str>("Mod Name".to_string())
    );
}

#[test]
fn test_sanitize_long_name() {
    let long_name = "a".repeat(300);
    assert_eq!(sanitize(&long_name).len(), 255);
}

#[test]
fn sanitize_collapses_inner_white_space_and_drops_a_leading_dot() {
    assert_eq!(sanitize(" .hidden \t name\n"), "hidden name");
    assert_eq!(sanitize(". spaced"), "spaced");
    assert_eq!(sanitize("..two"), ".two");
    assert_eq!(sanitize("a\u{3000}b"), "a b");
}

#[test]
fn sanitize_drops_nul_and_gives_unnamed_when_nothing_is_left() {
    assert_eq!(sanitize("a\0b"), "ab");
    assert_eq!(sanitize("   "), "unnamed");
    assert_eq!(sanitize("."), "unnamed");
    assert_eq!(sanitize("\0"), "unnamed");
}

#[test]
fn sanitize_cuts_at_a_character_boundary() {
    let name = "é".repeat(200);
    let r = sanitize(&name);
    assert_eq!(r.len(), 254);
    assert_eq!(r.chars().count(), 127);
    let exact = "b".repeat(255);
    assert_eq!(sanitize(&exact), exact);
}

#[test]
fn trim_removes_surrounding_white_space() {
    assert_eq!(trim("  otobot \t"), "otobot");
    assert_eq!(trim(""), "");
}
