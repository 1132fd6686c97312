//! Errors of reading a mod page URL.

use vstd::prelude::*;

verus! {

/// Why a mod page URL was refused; each variant carries the offending text.
#[derive(Debug, Clone, PartialEq, Eq)]
pub enum ModPageUrlParseError {
    /// The text is not a URL.
    InvalidUrl(String),
    /// The scheme is neither `http` nor `https`.
    UnsupportedScheme(String),
    /// The host is not `gamebanana.com`, or the path is not `/mods/<id>`.
    InvalidGameBananaUrl(String),
    /// The URL cannot be a base URL.
    CannotBeBaseUrl(String),
    /// The path is not of the form `/mods/<id>`.
    InvalidPathFormat(String),
    /// The ID is not a number that fits in 32 bits.
    InvalidModId(String),
}

} // verus!
