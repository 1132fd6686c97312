//! Command-line surface of the tool: the parsed arguments and the helpers
//! that turn a mod page URL into a numeric mod ID.

use crate::text::{is_prefix_of, starts_with, u32_of_text};
use std::num::ParseIntError;
use vstd::prelude::*;

verus! {

/// Parsed command line.
#[derive(Debug)]
pub struct Cli {
    /// Directory where mods are stored, when given.
    pub mods_directory: Option<String>,
    /// Comma-separated mirror priority list.
    pub mirror_preferences: String,
    /// Write verbose logs.
    pub verbose: bool,
    /// The subcommand to execute.
    pub command: Commands,
}

/// The available subcommands.
#[derive(Debug)]
pub enum Commands {
    /// Install a mod using the URL of its page.
    Install(InstallArgs),
    /// List installed mods.
    List,
    /// Show detailed information about an installed mod.
    Show(ShowArgs),
    /// Check for updates.
    Update(UpdateArgs),
}

/// Arguments of the `install` subcommand.
#[derive(Debug)]
pub struct InstallArgs {
    /// URL of the page where the mod is featured on GameBanana.
    pub mod_page_url: String,
}

/// Arguments of the `show` subcommand.
#[derive(Debug)]
pub struct ShowArgs {
    /// Name of the mod to show details for.
    pub name: String,
}

/// Arguments of the `update` subcommand.
#[derive(Debug)]
pub struct UpdateArgs {
    /// Install available updates.
    pub install: bool,
}

/// The only accepted beginning of a mod page URL.
pub const VALID_MOD_PAGE_URL_PREFIX: &'static str = "https://gamebanana.com/mods/";

/// The accepted prefix, as characters.
pub open spec fn mod_page_prefix() -> Seq<char> {
    "https://gamebanana.com/mods/"@
}

/// Error of [`extract_id`].
#[derive(Debug, Clone, PartialEq, Eq)]
pub enum IdExtractionError {
    /// The URL does not start with [`VALID_MOD_PAGE_URL_PREFIX`].
    InvalidPrefix { url: String },
    /// The URL is exactly the prefix: nothing follows it.
    NoIdSegment,
}

/// Extracts the ID segment (everything after the prefix) from a mod page URL.
pub fn extract_id(url: &str) -> (r: Result<&str, IdExtractionError>)
    ensures
        match r {
            Ok(id) => is_prefix_of(mod_page_prefix(), url@) && url@.len() > mod_page_prefix().len()
                && id@ == url@.subrange(mod_page_prefix().len() as int, url@.len() as int),
            Err(IdExtractionError::NoIdSegment) => url@ == mod_page_prefix(),
            Err(IdExtractionError::InvalidPrefix { url: u }) => !is_prefix_of(
                mod_page_prefix(),
                url@,
            ) && u@ == url@,
        },
{
    if !starts_with(url, VALID_MOD_PAGE_URL_PREFIX) {
        return Err(IdExtractionError::InvalidPrefix { url: String::from_str(url) });
    }
    proof {
        reveal_strlit("https://gamebanana.com/mods/");
    }
    let n = url.unicode_len();
    let p = VALID_MOD_PAGE_URL_PREFIX.unicode_len();
    if n == p {
        assert(url@ =~= url@.subrange(0, p as int));
        Err(IdExtractionError::NoIdSegment)
    } else {
        Ok(url.substring_char(p, n))
    }
}

/// Relied on only as an opaque value: the error that `str::parse` reports for
/// text that is no integer of the requested type.
#[verifier::external_type_specification]
#[verifier::external_body]
pub struct ExParseIntError(ParseIntError);

/// Relies on `str::parse::<u32>` (`u32::from_str`): it accepts exactly an
/// optional `+` followed by decimal digits whose value fits in a `u32`.
#[verifier::external_body]
fn parse_u32(s: &str) -> (r: Result<u32, ParseIntError>)
    ensures
        match r {
            Ok(v) => u32_of_text(s@) == Some(v),
            Err(_) => u32_of_text(s@) is None,
        },
{
    s.parse::<u32>()
}

/// Parses a mod ID segment into its numeric value.
pub fn parse_id(id_str: &str) -> (r: Result<u32, ParseIntError>)
    ensures
        r is Ok <==> u32_of_text(id_str@) is Some,
        r matches Ok(v) ==> u32_of_text(id_str@) == Some(v),
{
    parse_u32(id_str)
}

} // verus!
