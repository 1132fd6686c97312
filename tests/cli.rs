use everest_mod_cli::cli::{extract_id, parse_id, IdExtractionError};

#[test]
fn test_extract_id_valid_numeric() {
    let url = "https://gamebanana.com/mods/123456";
    assert_eq!(extract_id(url).unwrap(), "123456");
}

#[test]
fn test_extract_id_valid_with_trailing_path() {
    let url = "https://gamebanana.com/mods/123456/download";
    assert_eq!(extract_id(url).unwrap(), "123456/download");
}

#[test]
fn test_extract_id_valid_with_query_params() {
    let url = "https://gamebanana.com/mods/123456?tab=comments";
    assert_eq!(extract_id(url).unwrap(), "123456?tab=comments");
}

#[test]
fn test_extract_id_valid_alphanumeric() {
    let url = "https://gamebanana.com/mods/abc123def";
    assert_eq!(extract_id(url).unwrap(), "abc123def");
}

#[test]
fn test_extract_id_empty_id_segment() {
    let url = "https://gamebanana.com/mods/";
    let result = extract_id(url);
    assert_eq!(result, Err(IdExtractionError::NoIdSegment));
}

#[test]
fn test_extract_id_invalid_prefix_different_domain() {
    let url = "https://example.com/mods/123456";
    let result = extract_id(url);
    assert_eq!(
        result,
        Err(IdExtractionError::InvalidPrefix {
            url: url.to_string()
        })
    );
}

#[test]
fn test_extract_id_invalid_prefix_different_path() {
    let url = "https://gamebanana.com/mmdl/123456";
    let result = extract_id(url);
    assert_eq!(
        result,
        Err(IdExtractionError::InvalidPrefix {
            url: url.to_string()
        })
    );
}

#[test]
fn test_extract_id_invalid_prefix_missing_trailing_slash() {
    let url = "https://gamebanana.com/mods123456";
    let result = extract_id(url);
    assert_eq!(
        result,
        Err(IdExtractionError::InvalidPrefix {
            url: url.to_string()
        })
    );
}

#[test]
fn test_extract_id_invalid_prefix_http_instead_of_https() {
    let url = "http://gamebanana.com/mods/123456";
    let result = extract_id(url);
    assert_eq!(
        result,
        Err(IdExtractionError::InvalidPrefix {
            url: url.to_string()
        })
    );
}

#[test]
fn test_extract_id_invalid_prefix_with_subdomain() {
    let url = "https://www.gamebanana.com/mods/123456";
    let result = extract_id(url);
    assert_eq!(
        result,
        Err(IdExtractionError::InvalidPrefix {
            url: url.to_string()
        })
    );
}

#[test]
fn test_extract_id_empty_string() {
    let url = "";
    let result = extract_id(url);
    assert_eq!(
        result,
        Err(IdExtractionError::InvalidPrefix {
            url: url.to_string()
        })
    );
}

#[test]
fn test_extract_id_valid_with_fragment() {
    let url = "https://gamebanana.com/mods/123456#description";
    assert_eq!(extract_id(url).unwrap(), "123456#description");
}

#[test]
fn parse_id_reads_decimal_numbers() {
    assert_eq!(parse_id("123456"), Ok(123456));
    assert_eq!(parse_id("+7"), Ok(7));
    assert_eq!(parse_id("4294967295"), Ok(u32::MAX));
}

#[test]
fn parse_id_rejects_what_is_not_a_u32() {
    assert!(parse_id("").is_err());
    assert!(parse_id("-1").is_err());
    assert!(parse_id("12a").is_err());
    assert!(parse_id(" 12").is_err());
    assert!(parse_id("4294967296").is_err());
}
