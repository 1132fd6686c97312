//! Acquisition of one mod file: the destination file name, mirror failover
//! and checksum verification, as a session that tells its driver what to do
//! next and learns what happened.

use crate::checksum::{hex16, xxh64_digest, ChecksumStream};
use crate::mirror::{candidate_urls, candidate_urls_of, Mirror};
use crate::registry::{checksum_matches, matches_any, strings_view, RemoteModInfo};
use vstd::prelude::*;

verus! {

/// Beginning of a file name made up when neither the URL nor the response
/// names the file.
pub const UNKNOWN_MOD_PREFIX: &'static str = "unknown-mod_";

/// Extension of mod archives.
pub const ARCHIVE_SUFFIX: &'static str = ".zip";

/// The characters after the last `/` of `p` (all of `p` when it has none).
pub open spec fn last_segment(p: Seq<char>) -> Seq<char>
    decreases p.len(),
{
    if p.len() == 0 || p.last() == '/' {
        Seq::empty()
    } else {
        last_segment(p.drop_last()).push(p.last())
    }
}

/// The file name that a URL path gives: its last segment, when not empty.
pub open spec fn name_from_url_path(p: Seq<char>) -> Option<Seq<char>> {
    if last_segment(p).len() > 0 {
        Some(last_segment(p))
    } else {
        None
    }
}

/// `s` without its leading double quotes.
pub open spec fn strip_leading_quotes(s: Seq<char>) -> Seq<char>
    decreases s.len(),
{
    if s.len() > 0 && s[0] == '"' {
        strip_leading_quotes(s.drop_first())
    } else {
        s
    }
}

/// `s` without its trailing double quotes.
pub open spec fn strip_trailing_quotes(s: Seq<char>) -> Seq<char>
    decreases s.len(),
{
    if s.len() > 0 && s.last() == '"' {
        strip_trailing_quotes(s.drop_last())
    } else {
        s
    }
}

/// The file name that an entity tag gives: the tag without the quotes
/// around it, as an archive.
pub open spec fn name_from_etag(etag: Seq<char>) -> Seq<char> {
    strip_trailing_quotes(strip_leading_quotes(etag)) + ARCHIVE_SUFFIX@
}

/// The file name chosen for a download: from the URL path when it names a
/// file, else from the entity tag when the response has one, else one made
/// of `unique`.
pub open spec fn chosen_filename(url_path: Seq<char>, etag: Option<Seq<char>>, unique: Seq<char>) -> Seq<char> {
    match name_from_url_path(url_path) {
        Some(n) => n,
        None => match etag {
            Some(e) => name_from_etag(e),
            None => UNKNOWN_MOD_PREFIX@ + unique + ARCHIVE_SUFFIX@,
        },
    }
}

/// Extracts a file name from the last segment of a URL path.
pub fn extract_filename_from_url(url_path: &str) -> (r: Option<String>)
    ensures
        match r {
            Some(n) => name_from_url_path(url_path@) == Some(n@),
            None => name_from_url_path(url_path@) is None,
        },
{
    let n = url_path.unicode_len();
    let mut k: usize = n;
    assert(url_path@.subrange(0, n as int) =~= url_path@);
    assert(url_path@.subrange(n as int, n as int) =~= Seq::<char>::empty());
    while k > 0 && url_path.get_char(k - 1) != '/'
        invariant
            k <= n,
            n == url_path@.len(),
            last_segment(url_path@) == last_segment(url_path@.subrange(0, k as int)) + url_path@.subrange(k as int, n as int),
        decreases k,
    {
        let ghost p = url_path@.subrange(0, k as int);
        assert(p.drop_last() =~= url_path@.subrange(0, k - 1));
        assert(url_path@.subrange(k - 1, n as int) =~= seq![p.last()] + url_path@.subrange(k as int, n as int));
        k = k - 1;
    }
    assert(last_segment(url_path@.subrange(0, k as int)) =~= Seq::<char>::empty());
    assert(last_segment(url_path@) =~= url_path@.subrange(k as int, n as int));
    if k == n {
        None
    } else {
        Some(String::from_str(url_path.substring_char(k, n)))
    }
}

/// Extracts a file name from an entity tag: the tag stripped of its quotes,
/// with the archive extension.
pub fn extract_filename_from_etag(etag: &str) -> (r: String)
    ensures
        r@ == name_from_etag(etag@),
{
    let n = etag.unicode_len();
    let mut a: usize = 0;
    assert(etag@.subrange(0, n as int) =~= etag@);
    while a < n && etag.get_char(a) == '"'
        invariant
            a <= n,
            n == etag@.len(),
            strip_leading_quotes(etag@) == strip_leading_quotes(etag@.subrange(a as int, n as int)),
        decreases n - a,
    {
        assert(etag@.subrange(a as int, n as int).drop_first() =~= etag@.subrange(a + 1, n as int));
        a = a + 1;
    }
    let ghost lead = etag@.subrange(a as int, n as int);
    assert(strip_leading_quotes(lead) == lead);
    let mut b: usize = n;
    assert(etag@.subrange(a as int, n as int) =~= lead);
    while b > a && etag.get_char(b - 1) == '"'
        invariant
            a <= b <= n,
            n == etag@.len(),
            lead == etag@.subrange(a as int, n as int),
            strip_trailing_quotes(lead) == strip_trailing_quotes(etag@.subrange(a as int, b as int)),
        decreases b,
    {
        assert(etag@.subrange(a as int, b as int).drop_last() =~= etag@.subrange(a as int, b - 1));
        b = b - 1;
    }
    let ghost core = etag@.subrange(a as int, b as int);
    assert(strip_trailing_quotes(core) == core);
    let mut r = String::from_str(etag.substring_char(a, b));
    r.append(ARCHIVE_SUFFIX);
    r
}

/// Chooses the file name of a download: the last segment of the final URL
/// path when it is not empty, else the entity tag of the response without
/// its quotes and with the archive extension, else a name made of `unique`.
pub fn choose_filename(url_path: &str, etag: Option<&str>, unique: &str) -> (r: String)
    ensures
        r@ == chosen_filename(url_path@, match etag {
            Some(e) => Some(e@),
            None => None,
        }, unique@),
{
    match extract_filename_from_url(url_path) {
        Some(n) => n,
        None => match etag {
            Some(e) => extract_filename_from_etag(e),
            None => {
                let mut r = String::from_str(UNKNOWN_MOD_PREFIX);
                r.append(unique);
                r.append(ARCHIVE_SUFFIX);
                r
            },
        },
    }
}

/// Relies on `uuid::Uuid::new_v4` and its `Display`: a random version-4 UUID
/// in its hyphenated form, 36 characters long.
#[verifier::external_body]
fn random_uuid() -> (r: String)
    ensures
        r@.len() == 36,
{
    uuid::Uuid::new_v4().to_string()
}

/// Determines the file name of a download as [`choose_filename`] does,
/// making up a random unique part only when neither the URL path nor the
/// entity tag gives a name.
pub fn determine_filename(url_path: &str, etag: Option<&str>) -> (r: String)
    ensures
        name_from_url_path(url_path@) is Some || etag is Some ==> r@ == chosen_filename(url_path@, match etag {
            Some(e) => Some(e@),
            None => None,
        }, Seq::empty()),
        name_from_url_path(url_path@) is None && etag is None ==> exists|u: Seq<char>| u.len() == 36 && r@ == chosen_filename(url_path@, None, u),
{
    match extract_filename_from_url(url_path) {
        Some(n) => n,
        None => match etag {
            Some(e) => extract_filename_from_etag(e),
            None => {
                let unique = random_uuid();
                let r = choose_filename(url_path, None, unique.as_str());
                assert(r@ == chosen_filename(url_path@, None, unique@));
                r
            },
        },
    }
}

/// `dir` joined with the file name `name`.
pub open spec fn join_path(dir: Seq<char>, name: Seq<char>) -> Seq<char> {
    dir + "/"@ + name
}

/// Why the acquisition of a file failed.
#[derive(Debug, Clone, PartialEq, Eq)]
pub enum DownloadError {
    /// Every candidate URL failed at the transport level; `attempts` requests
    /// were made.
    Unreachable { attempts: usize },
    /// The file's checksum matches none of the expected ones; the file was
    /// removed.
    InvalidChecksum { file: String, computed: String, expected: Vec<String> },
    /// The file could not be written; what was written was removed.
    Storage { file: String },
}

/// Where a session stands.
#[derive(Clone, Copy, Debug, PartialEq, Eq, Structural)]
pub enum Phase {
    /// Nothing requested yet.
    Idle,
    /// A request is in flight.
    Requesting,
    /// A response body is being written to the destination file.
    Receiving,
    /// Done, one way or the other.
    Finished,
}

/// What the driver of a session must do next.
#[derive(Debug, Clone, PartialEq, Eq)]
pub enum DownloadStep {
    /// Send a GET request to this URL.
    Request(String),
    /// Create the file at this path and stream the response body into it.
    Save(String),
    /// Remove the partial file at `remove`, then send a GET request to `url`.
    Retry { remove: String, url: String },
    /// Done: the verified file stays at this path.
    Keep(String),
    /// Remove the file at this path, then report the error.
    Discard(String, DownloadError),
    /// Report the error; nothing was written.
    Fail(DownloadError),
}

/// A session as plain values.
pub struct DownloadSessionView {
    /// Candidate URLs, in mirror priority order.
    pub urls: Seq<Seq<char>>,
    /// Acceptable checksums.
    pub expected: Seq<Seq<char>>,
    /// Destination directory.
    pub directory: Seq<char>,
    /// Requests made so far.
    pub attempts: nat,
    pub phase: Phase,
    /// The bytes of the current response body received so far.
    pub received: Seq<u8>,
    /// The file that this session has on disk, if any.
    pub file: Option<Seq<char>>,
}

/// The state after starting: the first candidate is requested, or, with no
/// candidate, the session is over.
pub open spec fn after_start(v: DownloadSessionView) -> DownloadSessionView {
    if v.urls.len() > 0 {
        DownloadSessionView { attempts: 1, phase: Phase::Requesting, ..v }
    } else {
        DownloadSessionView { phase: Phase::Finished, ..v }
    }
}

/// The state after a failed request: the next candidate is requested, or,
/// when every candidate was tried, the session is over.
pub open spec fn after_request_failed(v: DownloadSessionView) -> DownloadSessionView {
    if v.attempts < v.urls.len() {
        DownloadSessionView { attempts: v.attempts + 1, ..v }
    } else {
        DownloadSessionView { phase: Phase::Finished, ..v }
    }
}

/// The state after `k` failed requests in a row, from `v`.
pub open spec fn after_failures(v: DownloadSessionView, k: nat) -> DownloadSessionView
    decreases k,
{
    if k == 0 {
        v
    } else {
        after_request_failed(after_failures(v, (k - 1) as nat))
    }
}

/// With every candidate failing, a session makes exactly one request per
/// candidate URL: after `k` failures with `k` below the number of
/// candidates, it still requests, having made `k + 1` requests; after as
/// many failures as candidates, it is over, having made exactly that many.
pub proof fn lemma_mirror_exhaustion(v: DownloadSessionView, k: nat)
    requires
        v.phase == Phase::Idle,
        v.attempts == 0,
        v.urls.len() > 0,
    ensures
        after_failures(after_start(v), k).urls == v.urls,
        k < v.urls.len() ==> after_failures(after_start(v), k).phase == Phase::Requesting
            && after_failures(after_start(v), k).attempts == k + 1,
        k >= v.urls.len() ==> after_failures(after_start(v), k).phase == Phase::Finished
            && after_failures(after_start(v), k).attempts == v.urls.len(),
    decreases k,
{
    if k > 0 {
        lemma_mirror_exhaustion(v, (k - 1) as nat);
    }
}

/// The acquisition of one file.
pub struct DownloadSession {
    urls: Vec<String>,
    expected: Vec<String>,
    directory: String,
    attempts: usize,
    phase: Phase,
    hasher: ChecksumStream,
    file: Option<String>,
}

impl View for DownloadSession {
    type V = DownloadSessionView;

    closed spec fn view(&self) -> DownloadSessionView {
        DownloadSessionView {
            urls: strings_view(self.urls@),
            expected: strings_view(self.expected@),
            directory: self.directory@,
            attempts: self.attempts as nat,
            phase: self.phase,
            received: self.hasher@,
            file: match self.file {
                Some(f) => Some(f@),
                None => None,
            },
        }
    }
}

impl DownloadSession {
    /// The session's fields agree with each other.
    pub closed spec fn wf(&self) -> bool {
        &&& self.hasher.wf()
        &&& self.attempts <= self.urls.len()
        &&& self.phase == Phase::Idle ==> self.attempts == 0
        &&& self.phase == Phase::Requesting ==> self.attempts >= 1
        &&& self.phase == Phase::Receiving ==> self.file is Some
    }

    /// A session that will try `urls` in order, keep a file whose checksum
    /// is one of `expected`, and write into `directory`.
    pub fn new(urls: Vec<String>, expected: Vec<String>, directory: String) -> (r: Self)
        ensures
            r.wf(),
            r@.urls == strings_view(urls@),
            r@.expected == strings_view(expected@),
            r@.directory == directory@,
            r@.attempts == 0,
            r@.phase == Phase::Idle,
            r@.received == Seq::<u8>::empty(),
            r@.file is None,
    {
        DownloadSession {
            urls,
            expected,
            directory,
            attempts: 0,
            phase: Phase::Idle,
            hasher: ChecksumStream::new(),
            file: None,
        }
    }

    /// A session for the registry entry `info`, trying `mirrors` in order.
    pub fn for_mod(info: &RemoteModInfo, mirrors: &[Mirror], directory: String) -> (r: Self)
        ensures
            r.wf(),
            r@.urls == candidate_urls_of(mirrors@, info@.download_url),
            r@.expected == info@.checksums,
            r@.directory == directory@,
            r@.attempts == 0,
            r@.phase == Phase::Idle,
            r@.received == Seq::<u8>::empty(),
            r@.file is None,
    {
        let urls = candidate_urls(mirrors, info.download_url.as_str());
        let expected = info.checksums.clone();
        assert(strings_view(expected@) =~= strings_view(info.checksums@));
        DownloadSession::new(urls, expected, directory)
    }

    /// Starts: requests the first candidate URL, or fails at once when there
    /// is none.
    pub fn start(&mut self) -> (step: DownloadStep)
        requires
            old(self).wf(),
            old(self)@.phase == Phase::Idle,
        ensures
            final(self).wf(),
            final(self)@ == after_start(old(self)@),
            old(self)@.urls.len() > 0 ==> (step matches DownloadStep::Request(u) && u@ == old(self)@.urls[0]),
            old(self)@.urls.len() == 0 ==> step == DownloadStep::Fail(DownloadError::Unreachable { attempts: 0 }),
    {
        if self.urls.len() > 0 {
            self.attempts = 1;
            self.phase = Phase::Requesting;
            assert(self@ =~= after_start(old(self)@));
            DownloadStep::Request(self.urls[0].clone())
        } else {
            self.phase = Phase::Finished;
            assert(self@ =~= after_start(old(self)@));
            DownloadStep::Fail(DownloadError::Unreachable { attempts: 0 })
        }
    }

    /// The request in flight failed (network error or non-success status):
    /// requests the next candidate, or fails when every one was tried.
    pub fn on_request_failed(&mut self) -> (step: DownloadStep)
        requires
            old(self).wf(),
            old(self)@.phase == Phase::Requesting,
        ensures
            final(self).wf(),
            final(self)@ == after_request_failed(old(self)@),
            old(self)@.attempts < old(self)@.urls.len() ==> (step matches DownloadStep::Request(u) && u@
                == old(self)@.urls[old(self)@.attempts as int]),
            old(self)@.attempts >= old(self)@.urls.len() ==> (step matches DownloadStep::Fail(
                DownloadError::Unreachable { attempts },
            ) && attempts == old(self)@.urls.len()),
    {
        if self.attempts < self.urls.len() {
            let u = self.urls[self.attempts].clone();
            self.attempts = self.attempts + 1;
            assert(self@ =~= after_request_failed(old(self)@));
            DownloadStep::Request(u)
        } else {
            self.phase = Phase::Finished;
            assert(self@ =~= after_request_failed(old(self)@));
            DownloadStep::Fail(DownloadError::Unreachable { attempts: self.attempts })
        }
    }

    /// The request succeeded and the file is to be named `file_name`: the
    /// body goes to that name in the destination directory.
    pub fn on_response(&mut self, file_name: &str) -> (step: DownloadStep)
        requires
            old(self).wf(),
            old(self)@.phase == Phase::Requesting,
        ensures
            final(self).wf(),
            final(self)@ == (DownloadSessionView {
                phase: Phase::Receiving,
                received: Seq::empty(),
                file: Some(join_path(old(self)@.directory, file_name@)),
                ..old(self)@
            }),
            (step matches DownloadStep::Save(p) && p@ == join_path(old(self)@.directory, file_name@)),
    {
        let mut path = self.directory.clone();
        path.append("/");
        path.append(file_name);
        self.hasher = ChecksumStream::new();
        self.phase = Phase::Receiving;
        self.file = Some(path.clone());
        assert(self@ =~= (DownloadSessionView {
            phase: Phase::Receiving,
            received: Seq::empty(),
            file: Some(join_path(old(self)@.directory, file_name@)),
            ..old(self)@
        }));
        DownloadStep::Save(path)
    }

    /// The next chunk of the body arrived and was written.
    pub fn on_chunk(&mut self, chunk: &[u8])
        requires
            old(self).wf(),
            old(self)@.phase == Phase::Receiving,
        ensures
            final(self).wf(),
            final(self)@ == (DownloadSessionView { received: old(self)@.received + chunk@, ..old(self)@ }),
    {
        self.hasher.update(chunk);
        assert(self@ =~= (DownloadSessionView { received: old(self)@.received + chunk@, ..old(self)@ }));
    }

    fn take_file(&mut self) -> (r: String)
        requires
            old(self).wf(),
            old(self)@.phase == Phase::Receiving,
        ensures
            old(self)@.file == Some(r@),
            final(self).file is None,
            final(self).urls == old(self).urls,
            final(self).expected == old(self).expected,
            final(self).directory == old(self).directory,
            final(self).attempts == old(self).attempts,
            final(self).phase == old(self).phase,
            final(self).hasher == old(self).hasher,
    {
        match self.file.take() {
            Some(f) => f,
            None => vstd::pervasive::unreached(),
        }
    }

    /// Writing the file failed: the partial file must go, and the
    /// acquisition fails.
    pub fn on_write_failed(&mut self) -> (step: DownloadStep)
        requires
            old(self).wf(),
            old(self)@.phase == Phase::Receiving,
        ensures
            final(self).wf(),
            final(self)@ == (DownloadSessionView { phase: Phase::Finished, file: None, ..old(self)@ }),
            (step matches DownloadStep::Discard(p, DownloadError::Storage { file }) && Some(p@)
                == old(self)@.file && file@ == p@),
    {
        let path = self.take_file();
        self.phase = Phase::Finished;
        assert(self@ =~= (DownloadSessionView { phase: Phase::Finished, file: None, ..old(self)@ }));
        DownloadStep::Discard(path.clone(), DownloadError::Storage { file: path })
    }

    /// Reading the body failed: the partial file must go, and the next
    /// candidate is tried, or the acquisition fails when every one was.
    pub fn on_stream_failed(&mut self) -> (step: DownloadStep)
        requires
            old(self).wf(),
            old(self)@.phase == Phase::Receiving,
        ensures
            final(self).wf(),
            final(self)@.file is None,
            old(self)@.attempts < old(self)@.urls.len() ==> final(self)@ == (DownloadSessionView {
                attempts: old(self)@.attempts + 1,
                phase: Phase::Requesting,
                file: None,
                ..old(self)@
            }),
            old(self)@.attempts < old(self)@.urls.len() ==> (step matches DownloadStep::Retry { remove, url }
                && Some(remove@) == old(self)@.file && url@ == old(self)@.urls[old(self)@.attempts as int]),
            old(self)@.attempts >= old(self)@.urls.len() ==> final(self)@ == (DownloadSessionView {
                phase: Phase::Finished,
                file: None,
                ..old(self)@
            }),
            old(self)@.attempts >= old(self)@.urls.len() ==> (step matches DownloadStep::Discard(
                p,
                DownloadError::Unreachable { attempts },
            ) && Some(p@) == old(self)@.file && attempts == old(self)@.urls.len()),
    {
        let path = self.take_file();
        if self.attempts < self.urls.len() {
            let u = self.urls[self.attempts].clone();
            self.attempts = self.attempts + 1;
            self.phase = Phase::Requesting;
            assert(self@ =~= (DownloadSessionView {
                attempts: old(self)@.attempts + 1,
                phase: Phase::Requesting,
                file: None,
                ..old(self)@
            }));
            DownloadStep::Retry { remove: path, url: u }
        } else {
            self.phase = Phase::Finished;
            assert(self@ =~= (DownloadSessionView { phase: Phase::Finished, file: None, ..old(self)@ }));
            DownloadStep::Discard(path, DownloadError::Unreachable { attempts: self.attempts })
        }
    }

    /// The body was received in full and its checksum is `computed`: the
    /// file stays when `computed` is one of the expected checksums (ignoring
    /// ASCII case); otherwise it must go, and the acquisition fails with the
    /// file, the computed checksum and the expected ones.
    pub fn settle(&mut self, computed: String) -> (step: DownloadStep)
        requires
            old(self).wf(),
            old(self)@.phase == Phase::Receiving,
        ensures
            final(self).wf(),
            final(self)@.phase == Phase::Finished,
            matches_any(old(self)@.expected, computed@) ==> final(self)@ == (DownloadSessionView {
                phase: Phase::Finished,
                ..old(self)@
            }),
            matches_any(old(self)@.expected, computed@) ==> (step matches DownloadStep::Keep(p) && Some(p@)
                == old(self)@.file),
            !matches_any(old(self)@.expected, computed@) ==> final(self)@ == (DownloadSessionView {
                phase: Phase::Finished,
                file: None,
                ..old(self)@
            }),
            !matches_any(old(self)@.expected, computed@) ==> (step matches DownloadStep::Discard(
                p,
                DownloadError::InvalidChecksum { file, computed: c, expected },
            ) && Some(p@) == old(self)@.file && file@ == p@ && c@ == computed@ && strings_view(expected@)
                == old(self)@.expected),
    {
        if checksum_matches(self.expected.as_slice(), computed.as_str()) {
            self.phase = Phase::Finished;
            assert(self@ =~= (DownloadSessionView { phase: Phase::Finished, ..old(self)@ }));
            match &self.file {
                Some(f) => DownloadStep::Keep(f.clone()),
                None => vstd::pervasive::unreached(),
            }
        } else {
            let path = self.take_file();
            self.phase = Phase::Finished;
            assert(self@ =~= (DownloadSessionView { phase: Phase::Finished, file: None, ..old(self)@ }));
            let expected = self.expected.clone();
            assert(strings_view(expected@) =~= strings_view(self.expected@));
            DownloadStep::Discard(
                path.clone(),
                DownloadError::InvalidChecksum { file: path, computed, expected },
            )
        }
    }

    /// The body was received in full: checks its XXH64 checksum against the
    /// expected ones as [`DownloadSession::settle`] does.
    pub fn on_stream_end(&mut self) -> (step: DownloadStep)
        requires
            old(self).wf(),
            old(self)@.phase == Phase::Receiving,
        ensures
            final(self).wf(),
            final(self)@.phase == Phase::Finished,
            ({
                let h = hex16(xxh64_digest(0, old(self)@.received));
                &&& matches_any(old(self)@.expected, h) ==> final(self)@.file == old(self)@.file
                &&& matches_any(old(self)@.expected, h) ==> (step matches DownloadStep::Keep(p) && Some(p@)
                    == old(self)@.file)
                &&& !matches_any(old(self)@.expected, h) ==> final(self)@.file is None
                &&& !matches_any(old(self)@.expected, h) ==> (step matches DownloadStep::Discard(
                    p,
                    DownloadError::InvalidChecksum { file, computed, expected },
                ) && Some(p@) == old(self)@.file && computed@ == h)
            }),
    {
        let computed = self.hasher.finish();
        self.settle(computed)
    }
}

} // verus!
