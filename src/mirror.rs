//! Download mirrors: the hosts that serve GameBanana files, and the URL of a
//! file on each.

use crate::registry::strings_view;
use crate::text::{is_prefix_of, starts_with};
use crate::util::{trim, trim_end, trim_start};
use vstd::prelude::*;

verus! {

/// A host that serves mod files.
#[derive(Clone, Copy, Debug, PartialEq, Eq, Structural)]
pub enum Mirror {
    /// The GameBanana server itself (United States).
    GameBanana,
    /// Mirror in Germany.
    Jade,
    /// Mirror in China.
    Wegfan,
    /// Mirror in North America.
    Otobot,
}

/// Beginning of the download URL of a GameBanana file; the file ID follows.
pub const GAMEBANANA_FILE_PREFIX: &'static str = "https://gamebanana.com/mmdl/";

/// Base URL of the German mirror.
pub const JADE_BASE: &'static str = "https://celestemodupdater.0x0a.de/banana-mirror/";

/// Base URL of the Chinese mirror.
pub const WEGFAN_BASE: &'static str = "https://celeste.weg.fan/api/v2/download/gamebanana-files/";

/// Base URL of the North American mirror.
pub const OTOBOT_BASE: &'static str = "https://banana-mirror-mods.celestemods.com/";

/// Extension that the mirrors that serve archives by file name expect.
pub const ZIP_SUFFIX: &'static str = ".zip";

/// The short identifier of each mirror, as written in a priority list.
pub open spec fn mirror_id(m: Mirror) -> Seq<char> {
    match m {
        Mirror::GameBanana => "gb"@,
        Mirror::Jade => "jade"@,
        Mirror::Wegfan => "wegfan"@,
        Mirror::Otobot => "otobot"@,
    }
}

/// The mirror whose identifier is `id`, if any.
pub fn mirror_from_id(id: &str) -> (r: Option<Mirror>)
    ensures
        match r {
            Some(m) => mirror_id(m) == id@,
            None => forall|m: Mirror| mirror_id(m) != id@,
        },
{
    if crate::text::str_eq(id, "gb") {
        Some(Mirror::GameBanana)
    } else if crate::text::str_eq(id, "jade") {
        Some(Mirror::Jade)
    } else if crate::text::str_eq(id, "wegfan") {
        Some(Mirror::Wegfan)
    } else if crate::text::str_eq(id, "otobot") {
        Some(Mirror::Otobot)
    } else {
        proof {
            reveal_strlit("gb");
            reveal_strlit("jade");
            reveal_strlit("wegfan");
            reveal_strlit("otobot");
            assert forall|m: Mirror| mirror_id(m) != id@ by {
                match m {
                    Mirror::GameBanana => {},
                    Mirror::Jade => {},
                    Mirror::Wegfan => {},
                    Mirror::Otobot => {},
                }
            }
        }
        None
    }
}

/// The GameBanana file ID in a download URL, if the URL has that form.
pub open spec fn file_id_of(url: Seq<char>) -> Option<Seq<char>> {
    let p = GAMEBANANA_FILE_PREFIX@;
    if is_prefix_of(p, url) && url.len() > p.len() {
        Some(url.subrange(p.len() as int, url.len() as int))
    } else {
        None
    }
}

/// Where `m` serves the file whose registry download URL is `url`, if it can
/// serve it: GameBanana serves every URL as it is; the mirrors serve the
/// files of GameBanana, by file ID.
pub open spec fn mirror_url_of(m: Mirror, url: Seq<char>) -> Option<Seq<char>> {
    match m {
        Mirror::GameBanana => Some(url),
        Mirror::Jade => match file_id_of(url) {
            Some(id) => Some(JADE_BASE@ + id + ZIP_SUFFIX@),
            None => None,
        },
        Mirror::Wegfan => match file_id_of(url) {
            Some(id) => Some(WEGFAN_BASE@ + id),
            None => None,
        },
        Mirror::Otobot => match file_id_of(url) {
            Some(id) => Some(OTOBOT_BASE@ + id + ZIP_SUFFIX@),
            None => None,
        },
    }
}

fn file_id(url: &str) -> (r: Option<&str>)
    ensures
        match r {
            Some(id) => file_id_of(url@) == Some(id@),
            None => file_id_of(url@) is None,
        },
{
    if !starts_with(url, GAMEBANANA_FILE_PREFIX) {
        return None;
    }
    let n = url.unicode_len();
    let p = GAMEBANANA_FILE_PREFIX.unicode_len();
    if n == p {
        None
    } else {
        Some(url.substring_char(p, n))
    }
}

/// Where `m` serves the file whose registry download URL is `download_url`.
pub fn mirror_url(m: Mirror, download_url: &str) -> (r: Option<String>)
    ensures
        match r {
            Some(u) => mirror_url_of(m, download_url@) == Some(u@),
            None => mirror_url_of(m, download_url@) is None,
        },
{
    match m {
        Mirror::GameBanana => Some(String::from_str(download_url)),
        _ => match file_id(download_url) {
            Some(id) => {
                let base = match m {
                    Mirror::Jade => JADE_BASE,
                    Mirror::Wegfan => WEGFAN_BASE,
                    _ => OTOBOT_BASE,
                };
                let mut u = String::from_str(base);
                u.append(id);
                match m {
                    Mirror::Wegfan => {},
                    _ => u.append(ZIP_SUFFIX),
                }
                Some(u)
            },
            None => None,
        },
    }
}

/// The URLs to try for the file at `url`, in the order of `mirrors`; a
/// mirror that cannot serve the file is skipped.
pub open spec fn candidate_urls_of(mirrors: Seq<Mirror>, url: Seq<char>) -> Seq<Seq<char>>
    decreases mirrors.len(),
{
    if mirrors.len() == 0 {
        Seq::empty()
    } else {
        let rest = candidate_urls_of(mirrors.drop_last(), url);
        match mirror_url_of(mirrors.last(), url) {
            Some(u) => rest.push(u),
            None => rest,
        }
    }
}

/// The URLs to try for the file whose registry download URL is
/// `download_url`, in mirror priority order.
pub fn candidate_urls(mirrors: &[Mirror], download_url: &str) -> (r: Vec<String>)
    ensures
        strings_view(r@) == candidate_urls_of(mirrors@, download_url@),
{
    let mut r: Vec<String> = Vec::new();
    let mut i: usize = 0;
    while i < mirrors.len()
        invariant
            i <= mirrors.len(),
            strings_view(r@) == candidate_urls_of(mirrors@.subrange(0, i as int), download_url@),
        decreases mirrors.len() - i,
    {
        let ghost before = r@;
        assert(mirrors@.subrange(0, i + 1).drop_last() =~= mirrors@.subrange(0, i as int));
        match mirror_url(mirrors[i], download_url) {
            Some(u) => {
                r.push(u);
                assert(strings_view(r@) =~= strings_view(before).push(r@.last()@));
            },
            None => {},
        }
        i = i + 1;
    }
    assert(mirrors@.subrange(0, mirrors.len() as int) =~= mirrors@);
    r
}

/// The comma-separated fields of `s`, in order; `s` without a comma is one
/// field.
pub open spec fn split_commas(s: Seq<char>) -> Seq<Seq<char>>
    decreases s.len(),
{
    if s.len() == 0 {
        seq![Seq::empty()]
    } else {
        let prev = split_commas(s.drop_last());
        if s.last() == ',' {
            prev.push(Seq::empty())
        } else {
            prev.drop_last().push(prev.last().push(s.last()))
        }
    }
}

proof fn lemma_split_commas_len(s: Seq<char>)
    ensures
        split_commas(s).len() >= 1,
    decreases s.len(),
{
    if s.len() > 0 {
        lemma_split_commas_len(s.drop_last());
    }
}

/// The mirrors that a priority list names, in order, when every field of it,
/// without surrounding white space, is a mirror identifier; otherwise the
/// first field that is not.
pub open spec fn mirrors_of(fields: Seq<Seq<char>>) -> Result<Seq<Mirror>, Seq<char>>
    decreases fields.len(),
{
    if fields.len() == 0 {
        Ok(Seq::empty())
    } else {
        match mirrors_of(fields.drop_last()) {
            Err(e) => Err(e),
            Ok(ms) => {
                let f = trim_end(trim_start(fields.last()));
                if exists|m: Mirror| mirror_id(m) == f {
                    Ok(ms.push(choose|m: Mirror| mirror_id(m) == f))
                } else {
                    Err(f)
                }
            },
        }
    }
}

/// Splits `s` at its commas.
fn split_at_commas(s: &str) -> (r: Vec<String>)
    ensures
        strings_view(r@) == split_commas(s@),
{
    let n = s.unicode_len();
    let mut fields: Vec<String> = Vec::new();
    let mut cur = String::new();
    let mut i: usize = 0;
    assert(s@.subrange(0, 0) =~= Seq::<char>::empty());
    assert(strings_view(fields@).push(cur@) =~= split_commas(s@.subrange(0, 0)));
    while i < n
        invariant
            i <= n,
            n == s@.len(),
            strings_view(fields@).push(cur@) == split_commas(s@.subrange(0, i as int)),
        decreases n - i,
    {
        let ghost pre = s@.subrange(0, i as int);
        let ghost fv0 = strings_view(fields@);
        let ghost cur0 = cur@;
        assert(s@.subrange(0, i + 1).drop_last() =~= pre);
        let c = s.get_char(i);
        if c == ',' {
            fields.push(cur);
            cur = String::new();
            assert(strings_view(fields@) =~= fv0.push(cur0));
            assert(strings_view(fields@).push(cur@) =~= fv0.push(cur0).push(Seq::empty()));
        } else {
            let piece = s.substring_char(i, i + 1);
            assert(piece@ =~= seq![c]);
            cur.append(piece);
            assert(cur@ =~= cur0.push(c));
            assert(fv0.push(cur0).drop_last() =~= fv0);
            assert(fv0.push(cur0).last() == cur0);
            assert(strings_view(fields@).push(cur@) =~= fv0.push(cur0.push(c)));
        }
        i = i + 1;
    }
    assert(s@.subrange(0, n as int) =~= s@);
    fields.push(cur);
    fields
}

/// Parses a comma-separated mirror priority list such as
/// `otobot,gb,jade,wegfan`: the mirrors in the order given, or the first
/// field that names no mirror.
pub fn parse_mirror_preferences(s: &str) -> (r: Result<Vec<Mirror>, String>)
    ensures
        match r {
            Ok(ms) => mirrors_of(split_commas(s@)) == Ok::<Seq<Mirror>, Seq<char>>(ms@),
            Err(f) => mirrors_of(split_commas(s@)) == Err::<Seq<Mirror>, Seq<char>>(f@),
        },
{
    let fields = split_at_commas(s);
    let ghost fs = split_commas(s@);
    let mut ms: Vec<Mirror> = Vec::new();
    let mut i: usize = 0;
    while i < fields.len()
        invariant
            i <= fields.len(),
            strings_view(fields@) == fs,
            fs == split_commas(s@),
            mirrors_of(fs.subrange(0, i as int)) == Ok::<Seq<Mirror>, Seq<char>>(ms@),
        decreases fields.len() - i,
    {
        assert(fs.subrange(0, i + 1).drop_last() =~= fs.subrange(0, i as int));
        assert(fs.subrange(0, i + 1).last() == fields@[i as int]@);
        let f = trim(fields[i].as_str());
        match mirror_from_id(f) {
            Some(m) => {
                let ghost before = ms@;
                ms.push(m);
                proof {
                    let c = choose|x: Mirror| mirror_id(x) == f@;
                    lemma_mirror_id_injective(c, m);
                    assert(ms@ =~= before.push(m));
                }
            },
            None => {
                proof {
                    assert(!exists|x: Mirror| mirror_id(x) == f@);
                    assert(mirrors_of(fs.subrange(0, i + 1)) == Err::<Seq<Mirror>, Seq<char>>(f@));
                    lemma_mirrors_err_stays(fs, (i + 1) as int, f@);
                }
                let e = String::from_str(f);
                assert(mirrors_of(split_commas(s@)) == Err::<Seq<Mirror>, Seq<char>>(e@));
                return Err(e);
            },
        }
        i = i + 1;
    }
    assert(fs.subrange(0, fields.len() as int) =~= fs);
    Ok(ms)
}

proof fn lemma_mirror_id_injective(a: Mirror, b: Mirror)
    requires
        mirror_id(a) == mirror_id(b),
    ensures
        a == b,
{
    reveal_strlit("gb");
    reveal_strlit("jade");
    reveal_strlit("wegfan");
    reveal_strlit("otobot");
    assert("gb"@.len() == 2 && "jade"@.len() == 4 && "wegfan"@.len() == 6 && "otobot"@.len() == 6);
    assert("wegfan"@[0] == 'w' && "otobot"@[0] == 'o');
}

proof fn lemma_mirrors_err_stays(fs: Seq<Seq<char>>, k: int, e: Seq<char>)
    requires
        0 <= k <= fs.len(),
        mirrors_of(fs.subrange(0, k)) == Err::<Seq<Mirror>, Seq<char>>(e),
    ensures
        mirrors_of(fs) == Err::<Seq<Mirror>, Seq<char>>(e),
    decreases fs.len() - k,
{
    if k == fs.len() {
        assert(fs.subrange(0, k) =~= fs);
    } else {
        assert(fs.subrange(0, k + 1).drop_last() =~= fs.subrange(0, k));
        lemma_mirrors_err_stays(fs, k + 1, e);
    }
}

} // verus!
