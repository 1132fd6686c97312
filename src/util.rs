//! Reading a mod page URL, and turning a mod name into a name that is safe
//! as a file name.

use crate::error::ModPageUrlParseError;
use crate::text::str_eq;
use crate::registry::strings_view;
use crate::text::u32_of_text;
use vstd::prelude::*;

verus! {

/// What the URL parser reads from a URL: scheme, host and, unless the URL
/// cannot be a base, its path segments.
#[derive(Debug, Clone)]
pub struct UrlParts {
    pub scheme: String,
    pub host: Option<String>,
    pub segments: Option<Vec<String>>,
}

/// The parts of a URL as plain values.
pub type UrlPartsView = (Seq<char>, Option<Seq<char>>, Option<Seq<Seq<char>>>);

impl View for UrlParts {
    type V = UrlPartsView;

    open spec fn view(&self) -> UrlPartsView {
        (
            self.scheme@,
            match self.host {
                Some(h) => Some(h@),
                None => None,
            },
            match self.segments {
                Some(v) => Some(strings_view(v@)),
                None => None,
            },
        )
    }
}

/// What the WHATWG URL parser makes of `s`: `None` when `s` is no URL.
pub uninterp spec fn parsed_url(s: Seq<char>) -> Option<UrlPartsView>;

/// Relies on `reqwest::Url::parse` (the `url` crate) and on the accessors
/// `scheme`, `host_str` and `path_segments` of its result: the result depends
/// on the text alone.
#[verifier::external_body]
fn parse_url(s: &str) -> (r: Option<UrlParts>)
    ensures
        match r {
            Some(p) => parsed_url(s@) == Some(p@),
            None => parsed_url(s@) is None,
        },
{
    reqwest::Url::parse(s).ok().map(|u| UrlParts {
        scheme: u.scheme().to_string(),
        host: u.host_str().map(|h| h.to_string()),
        segments: u.path_segments().map(|it| it.map(|x| x.to_string()).collect()),
    })
}

/// The mod ID that a mod page URL gives, or the code of the reason why it
/// gives none, from what the URL parser read from it.
pub open spec fn mod_id_from_parts(parts: Option<UrlPartsView>) -> Result<u32, int> {
    match parts {
        None => Err(0),
        Some((scheme, host, segments)) => if scheme != "http"@ && scheme != "https"@ {
            Err(1)
        } else if host != Some("gamebanana.com"@) {
            Err(2)
        } else {
            match segments {
                None => Err(2),
                Some(segs) => if segs.len() >= 2 && segs[0] == "mods"@ {
                    match u32_of_text(segs[1]) {
                        Some(id) => Ok(id),
                        None => Err(5),
                    }
                } else {
                    Err(2)
                },
            }
        },
    }
}

/// The code of each error variant, as [`mod_id_from_parts`] numbers them.
pub open spec fn error_code(e: ModPageUrlParseError) -> int {
    match e {
        ModPageUrlParseError::InvalidUrl(_) => 0,
        ModPageUrlParseError::UnsupportedScheme(_) => 1,
        ModPageUrlParseError::InvalidGameBananaUrl(_) => 2,
        ModPageUrlParseError::CannotBeBaseUrl(_) => 3,
        ModPageUrlParseError::InvalidPathFormat(_) => 4,
        ModPageUrlParseError::InvalidModId(_) => 5,
    }
}

/// Reads the mod ID from what the URL parser made of `page_url_str`: the
/// scheme must be `http` or `https`, the host `gamebanana.com`, and the path
/// `/mods/<id>` with a 32-bit decimal ID. Each error carries the input text,
/// but an invalid ID, which carries the ID segment.
pub fn mod_id_from_url_parts(page_url_str: &str, parts: Option<UrlParts>) -> (r: Result<u32, ModPageUrlParseError>)
    ensures
        match r {
            Ok(id) => mod_id_from_parts(match parts {
                Some(p) => Some(p@),
                None => None,
            }) == Ok::<u32, int>(id),
            Err(e) => mod_id_from_parts(match parts {
                Some(p) => Some(p@),
                None => None,
            }) == Err::<u32, int>(error_code(e)),
        },
{
    proof {
        reveal_strlit("http");
        reveal_strlit("https");
        reveal_strlit("gamebanana.com");
        reveal_strlit("mods");
    }
    match parts {
        None => Err(ModPageUrlParseError::InvalidUrl(String::from_str(page_url_str))),
        Some(p) => {
            if !str_eq(p.scheme.as_str(), "http") && !str_eq(p.scheme.as_str(), "https") {
                return Err(ModPageUrlParseError::UnsupportedScheme(String::from_str(page_url_str)));
            }
            let host_ok = match &p.host {
                Some(h) => str_eq(h.as_str(), "gamebanana.com"),
                None => false,
            };
            if !host_ok {
                return Err(ModPageUrlParseError::InvalidGameBananaUrl(String::from_str(page_url_str)));
            }
            match &p.segments {
                None => Err(ModPageUrlParseError::InvalidGameBananaUrl(String::from_str(page_url_str))),
                Some(segs) => {
                    if segs.len() >= 2 && str_eq(segs[0].as_str(), "mods") {
                        assert(strings_view(segs@)[0] == segs@[0]@);
                        assert(strings_view(segs@)[1] == segs@[1]@);
                        match crate::cli::parse_id(segs[1].as_str()) {
                            Ok(id) => Ok(id),
                            Err(_) => Err(ModPageUrlParseError::InvalidModId(segs[1].clone())),
                        }
                    } else {
                        proof {
                            if segs.len() >= 2 {
                                assert(strings_view(segs@)[0] == segs@[0]@);
                            }
                        }
                        Err(ModPageUrlParseError::InvalidGameBananaUrl(String::from_str(page_url_str)))
                    }
                },
            }
        },
    }
}

/// Parses a mod page URL into the mod ID it names (see
/// [`mod_id_from_url_parts`]).
pub fn parse_mod_page_url(page_url_str: &str) -> (r: Result<u32, ModPageUrlParseError>)
    ensures
        match r {
            Ok(id) => mod_id_from_parts(parsed_url(page_url_str@)) == Ok::<u32, int>(id),
            Err(e) => mod_id_from_parts(parsed_url(page_url_str@)) == Err::<u32, int>(error_code(e)),
        },
{
    let parts = parse_url(page_url_str);
    mod_id_from_url_parts(page_url_str, parts)
}

/// `c` has the Unicode `White_Space` property.
pub open spec fn is_white_space(c: char) -> bool {
    ('\t' <= c && c <= '\r') || c == ' ' || c == '\u{85}' || c == '\u{a0}' || c == '\u{1680}' || ('\u{2000}' <= c
        && c <= '\u{200a}') || c == '\u{2028}' || c == '\u{2029}' || c == '\u{202f}' || c == '\u{205f}' || c
        == '\u{3000}'
}

/// Decides whether `c` has the Unicode `White_Space` property.
pub fn white_space(c: char) -> (r: bool)
    ensures
        r == is_white_space(c),
{
    ('\t' <= c && c <= '\r') || c == ' ' || c == '\u{85}' || c == '\u{a0}' || c == '\u{1680}' || ('\u{2000}' <= c
        && c <= '\u{200a}') || c == '\u{2028}' || c == '\u{2029}' || c == '\u{202f}' || c == '\u{205f}' || c
        == '\u{3000}'
}

/// `s` without its leading white space.
pub open spec fn trim_start(s: Seq<char>) -> Seq<char>
    decreases s.len(),
{
    if s.len() > 0 && is_white_space(s[0]) {
        trim_start(s.drop_first())
    } else {
        s
    }
}

/// `s` without its trailing white space.
pub open spec fn trim_end(s: Seq<char>) -> Seq<char>
    decreases s.len(),
{
    if s.len() > 0 && is_white_space(s.last()) {
        trim_end(s.drop_last())
    } else {
        s
    }
}

/// `s` without one leading dot, if it has one.
pub open spec fn without_leading_dot(s: Seq<char>) -> Seq<char> {
    if s.len() > 0 && s[0] == '.' {
        s.drop_first()
    } else {
        s
    }
}

/// The words of `s` (its maximal runs of non-white-space characters),
/// joined by single spaces.
pub open spec fn collapse_white_space(s: Seq<char>) -> Seq<char>
    decreases s.len(),
{
    if s.len() == 0 {
        Seq::empty()
    } else {
        let c = s.last();
        let init = s.drop_last();
        let prev = collapse_white_space(init);
        if is_white_space(c) {
            prev
        } else if init.len() > 0 && is_white_space(init.last()) && prev.len() > 0 {
            prev + seq![' ', c]
        } else {
            prev.push(c)
        }
    }
}

/// Characters that file systems refuse in names; each becomes `_`.
pub open spec fn is_bad_char(c: char) -> bool {
    c == '/' || c == '\\' || c == '*' || c == '?' || c == ':' || c == ';'
}

/// Control characters that are dropped.
pub open spec fn is_dropped_char(c: char) -> bool {
    c == '\r' || c == '\n' || c == '\0'
}

/// `s` with dropped characters removed and bad characters replaced by `_`.
pub open spec fn clean(s: Seq<char>) -> Seq<char>
    decreases s.len(),
{
    if s.len() == 0 {
        Seq::empty()
    } else {
        let prev = clean(s.drop_last());
        let c = s.last();
        if is_dropped_char(c) {
            prev
        } else if is_bad_char(c) {
            prev.push('_')
        } else {
            prev.push(c)
        }
    }
}

/// Bytes that `c` takes in UTF-8.
pub open spec fn utf8_width(c: char) -> int {
    if (c as u32) < 0x80 {
        1
    } else if (c as u32) < 0x800 {
        2
    } else if (c as u32) < 0x10000 {
        3
    } else {
        4
    }
}

/// The longest prefix of `s` that takes at most `limit` bytes in UTF-8.
pub open spec fn utf8_prefix(s: Seq<char>, limit: int) -> Seq<char>
    decreases s.len(),
{
    if s.len() > 0 && utf8_width(s[0]) <= limit {
        seq![s[0]] + utf8_prefix(s.drop_first(), limit - utf8_width(s[0]))
    } else {
        Seq::empty()
    }
}

/// Longest file name, in bytes.
pub const MAX_NAME_BYTES: usize = 255;

/// Name used when nothing of the mod name is left.
pub const UNNAMED: &'static str = "unnamed";

/// The sanitized form of a mod name: trimmed, without one leading dot, its
/// words joined by single spaces, control characters dropped, characters
/// that file systems refuse replaced by `_`, cut to at most 255 bytes; or
/// `unnamed` when nothing is left.
pub open spec fn sanitized(s: Seq<char>) -> Seq<char> {
    let body = utf8_prefix(
        clean(collapse_white_space(without_leading_dot(trim_end(trim_start(s))))),
        MAX_NAME_BYTES as int,
    );
    if body.len() == 0 {
        UNNAMED@
    } else {
        body
    }
}

/// Bounds of `text` without its leading and trailing white space.
fn trim_bounds(text: &str) -> (r: (usize, usize))
    ensures
        r.0 <= r.1 <= text@.len(),
        text@.subrange(r.0 as int, r.1 as int) == trim_end(trim_start(text@)),
{
    let ghost s = text@;
    let n = text.unicode_len();
    // Trim leading white space.
    let mut a: usize = 0;
    assert(s.subrange(0, n as int) =~= s);
    while a < n && white_space(text.get_char(a))
        invariant
            a <= n,
            n == s.len(),
            s == text@,
            trim_start(s) == trim_start(s.subrange(a as int, n as int)),
        decreases n - a,
    {
        assert(s.subrange(a as int, n as int).drop_first() =~= s.subrange(a + 1, n as int));
        a = a + 1;
    }
    let ghost ts = s.subrange(a as int, n as int);
    assert(trim_start(ts) == ts);
    // Trim trailing white space.
    let mut b: usize = n;
    assert(s.subrange(a as int, n as int) =~= ts);
    while b > a && white_space(text.get_char(b - 1))
        invariant
            a <= b <= n,
            n == s.len(),
            s == text@,
            ts == s.subrange(a as int, n as int),
            trim_end(ts) == trim_end(s.subrange(a as int, b as int)),
        decreases b,
    {
        assert(s.subrange(a as int, b as int).drop_last() =~= s.subrange(a as int, b - 1));
        b = b - 1;
    }
    let ghost te = s.subrange(a as int, b as int);
    assert(trim_end(te) == te);
    (a, b)
}

/// `text` without its leading and trailing white space.
pub fn trim(text: &str) -> (r: &str)
    ensures
        r@ == trim_end(trim_start(text@)),
{
    let (a, b) = trim_bounds(text);
    text.substring_char(a, b)
}

fn char_width(c: char) -> (r: usize)
    ensures
        r == utf8_width(c),
{
    if (c as u32) < 0x80 {
        1
    } else if (c as u32) < 0x800 {
        2
    } else if (c as u32) < 0x10000 {
        3
    } else {
        4
    }
}

proof fn lemma_clean_one(c: char)
    ensures
        clean(seq![c]) == if is_dropped_char(c) {
            Seq::<char>::empty()
        } else if is_bad_char(c) {
            seq!['_']
        } else {
            seq![c]
        },
{
    assert(seq![c].drop_last() =~= Seq::<char>::empty());
    assert(seq![c].last() == c);
    assert(clean(Seq::<char>::empty()) == Seq::<char>::empty());
    assert(Seq::<char>::empty().push('_') =~= seq!['_']);
    assert(Seq::<char>::empty().push(c) =~= seq![c]);
}

proof fn lemma_clean_two(prev: Seq<char>, c: char)
    requires
        !is_white_space(c),
    ensures
        clean(prev + seq![' ', c]) == clean(prev).push(' ') + clean(seq![c]),
{
    let s = prev + seq![' ', c];
    assert(s.drop_last() =~= prev.push(' '));
    assert(prev.push(' ').drop_last() =~= prev);
    assert(seq![c].drop_last() =~= Seq::<char>::empty());
    assert(seq![c].last() == c);
    assert(clean(Seq::<char>::empty()) == Seq::<char>::empty());
    assert(clean(prev.push(' ')) == clean(prev).push(' '));
    if is_dropped_char(c) {
        assert(clean(seq![c]) =~= Seq::<char>::empty());
        assert(clean(prev).push(' ') + clean(seq![c]) =~= clean(prev).push(' '));
    } else if is_bad_char(c) {
        assert(clean(seq![c]) =~= seq!['_']);
        assert(clean(prev).push(' ') + clean(seq![c]) =~= clean(prev).push(' ').push('_'));
    } else {
        assert(clean(seq![c]) =~= seq![c]);
        assert(clean(prev).push(' ') + clean(seq![c]) =~= clean(prev).push(' ').push(c));
    }
}

/// Returns the sanitized form of a mod name (see [`sanitized`]): safe as a
/// file name, never empty.
pub fn sanitize(mod_name: &str) -> (r: String)
    ensures
        r@ == sanitized(mod_name@),
{
    let ghost s = mod_name@;
    let n = mod_name.unicode_len();
    let (a, b) = trim_bounds(mod_name);
    let ghost te = s.subrange(a as int, b as int);
    // Drop one leading dot.
    let mut i: usize = a;
    if a < b && mod_name.get_char(a) == '.' {
        i = a + 1;
        assert(te.drop_first() =~= s.subrange(i as int, b as int));
    } else {
        assert(te =~= s.subrange(i as int, b as int));
    }
    let start: usize = i;
    let ghost wd = s.subrange(start as int, b as int);
    assert(wd == without_leading_dot(te));
    // Collapse white space, drop control characters, replace bad ones.
    let mut out = String::new();
    let mut col_nonempty = false;
    let mut after_ws = false;
    let ghost mut col: Seq<char> = Seq::empty();
    assert(wd.subrange(0, 0) =~= Seq::<char>::empty());
    while i < b
        invariant
            start <= i <= b <= n,
            n == s.len(),
            s == mod_name@,
            wd == s.subrange(start as int, b as int),
            col == collapse_white_space(wd.subrange(0, i - start)),
            out@ == clean(col),
            col_nonempty == (col.len() > 0),
            after_ws == (i > start && is_white_space(wd[i - start - 1])),
        decreases b - i,
    {
        let c = mod_name.get_char(i);
        let ghost pre = wd.subrange(0, i - start);
        let ghost cur = wd.subrange(0, i + 1 - start);
        assert(cur.drop_last() =~= pre);
        assert(cur.last() == c);
        let ws = white_space(c);
        let ghost col0 = col;
        if ws {
            after_ws = true;
        } else {
            let piece: &str = mod_name.substring_char(i, i + 1);
            assert(piece@ =~= seq![c]);
            let ghost out0 = out@;
            let two = after_ws && col_nonempty;
            if two {
                out.append(" ");
            }
            let ghost out1 = out@;
            if c == '\r' || c == '\n' || c == '\0' {
            } else if c == '/' || c == '\\' || c == '*' || c == '?' || c == ':' || c == ';' {
                out.append("_");
            } else {
                out.append(piece);
            }
            proof {
                reveal_strlit(" ");
                reveal_strlit("_");
                lemma_clean_one(c);
                assert(out@ =~= out1 + clean(seq![c]));
                if two {
                    lemma_clean_two(col0, c);
                    assert(pre.len() > 0 && pre.last() == wd[i - start - 1]);
                    col = col0 + seq![' ', c];
                    assert(out1 =~= clean(col0).push(' '));
                } else {
                    col = col0.push(c);
                    assert(col.drop_last() =~= col0);
                    assert(col.last() == c);
                    assert(out1 == clean(col0));
                    if is_dropped_char(c) {
                        assert(clean(col) == clean(col0));
                    } else if is_bad_char(c) {
                        assert(clean(col) == clean(col0).push('_'));
                    } else {
                        assert(clean(col) == clean(col0).push(c));
                    }
                }
                assert(out@ =~= clean(col));
            }
            after_ws = false;
            col_nonempty = true;
        }
        i = i + 1;
    }
    assert(wd.subrange(0, b - start) =~= wd);
    // Cut to at most 255 bytes, at a character boundary.
    let ghost cl = out@;
    let m = out.as_str().unicode_len();
    let mut k: usize = 0;
    let mut used: usize = 0;
    let mut cut = String::new();
    assert(cl.subrange(0, m as int) =~= cl);
    assert(cut@ =~= cl.subrange(0, 0));
    assert(cut@ + utf8_prefix(cl.subrange(0, m as int), MAX_NAME_BYTES as int) =~= utf8_prefix(cl, MAX_NAME_BYTES as int));
    let mut full = false;
    while k < m && !full
        invariant
            k <= m,
            m == cl.len(),
            cl == out@,
            used <= MAX_NAME_BYTES,
            cut@ == cl.subrange(0, k as int),
            utf8_prefix(cl, MAX_NAME_BYTES as int) == cut@ + if full {
                Seq::empty()
            } else {
                utf8_prefix(cl.subrange(k as int, m as int), MAX_NAME_BYTES - used)
            },
        decreases if full { 0 } else { m - k + 1 },
    {
        let c = out.as_str().get_char(k);
        let w = char_width(c);
        let ghost rest = cl.subrange(k as int, m as int);
        assert(rest[0] == c);
        if used + w <= MAX_NAME_BYTES {
            assert(rest.drop_first() =~= cl.subrange(k + 1, m as int));
            cut.append(out.as_str().substring_char(k, k + 1));
            used = used + w;
            k = k + 1;
            assert(cut@ =~= cl.subrange(0, k as int));
        } else {
            full = true;
        }
    }
    if !full {
        assert(cl.subrange(k as int, m as int) =~= Seq::<char>::empty());
    }
    if k == 0 {
        String::from_str(UNNAMED)
    } else {
        cut
    }
}

} // verus!
