//! Streaming XXH64 checksums, written as 16 lowercase hexadecimal digits.

use vstd::prelude::*;
use xxhash_rust::xxh64::Xxh64;

verus! {

/// The streaming XXH64 hasher of `xxhash_rust`, seen through the bytes fed
/// to it and its seed.
#[verifier::external_type_specification]
#[verifier::external_body]
pub struct ExXxh64(Xxh64);

/// The bytes fed to an XXH64 hasher since it was created.
pub uninterp spec fn xxh64_input(h: Xxh64) -> Seq<u8>;

/// The seed an XXH64 hasher was created with.
pub uninterp spec fn xxh64_seed(h: Xxh64) -> u64;

/// The XXH64 digest of `data` under `seed`.
pub uninterp spec fn xxh64_digest(seed: u64, data: Seq<u8>) -> u64;

/// Relies on `xxhash_rust::xxh64::Xxh64::new`: a fresh hasher with the given
/// seed that has been fed nothing.
#[verifier::external_body]
fn xxh64_new(seed: u64) -> (r: Xxh64)
    ensures
        xxh64_input(r) == Seq::<u8>::empty(),
        xxh64_seed(r) == seed,
{
    Xxh64::new(seed)
}

/// Relies on `xxhash_rust::xxh64::Xxh64::update`: feeds `input` after what
/// the hasher was fed before.
#[verifier::external_body]
fn xxh64_update(h: &mut Xxh64, input: &[u8])
    ensures
        xxh64_input(*final(h)) == xxh64_input(*old(h)) + input@,
        xxh64_seed(*final(h)) == xxh64_seed(*old(h)),
{
    h.update(input)
}

/// Relies on `xxhash_rust::xxh64::Xxh64::digest`: the XXH64 digest of all
/// the bytes fed so far, under the hasher's seed.
#[verifier::external_body]
fn xxh64_finish(h: &Xxh64) -> (r: u64)
    ensures
        r == xxh64_digest(xxh64_seed(*h), xxh64_input(*h)),
{
    h.digest()
}

/// The hexadecimal digits, by value.
pub const HEX_DIGITS: &'static str = "0123456789abcdef";

/// The lowercase hexadecimal digit of `d`, for `d < 16`.
pub open spec fn hex_digit(d: nat) -> char {
    HEX_DIGITS@[d as int]
}

/// The last `n` hexadecimal digits of `v`, most significant first.
pub open spec fn hex_tail(v: nat, n: nat) -> Seq<char>
    decreases n,
{
    if n == 0 {
        Seq::empty()
    } else {
        hex_tail(v / 16, (n - 1) as nat).push(hex_digit(v % 16))
    }
}

/// `v` written as exactly 16 lowercase hexadecimal digits, zero-padded.
pub open spec fn hex16(v: u64) -> Seq<char> {
    hex_tail(v as nat, 16)
}

fn hex_tail_exec(v: u64, n: usize) -> (r: String)
    requires
        n <= 16,
    ensures
        r@ == hex_tail(v as nat, n as nat),
    decreases n,
{
    if n == 0 {
        String::new()
    } else {
        let mut r = hex_tail_exec(v / 16, n - 1);
        let d = (v % 16) as usize;
        proof {
            reveal_strlit("0123456789abcdef");
        }
        r.append(HEX_DIGITS.substring_char(d, d + 1));
        assert(r@ =~= hex_tail(v as nat, n as nat));
        r
    }
}

/// Writes `v` as exactly 16 lowercase hexadecimal digits, zero-padded.
pub fn to_hex16(v: u64) -> (r: String)
    ensures
        r@ == hex16(v),
{
    hex_tail_exec(v, 16)
}

/// An XXH64 checksum (seed 0) computed over a stream of chunks.
pub struct ChecksumStream {
    state: Xxh64,
}

impl View for ChecksumStream {
    type V = Seq<u8>;

    /// The bytes fed so far.
    closed spec fn view(&self) -> Seq<u8> {
        xxh64_input(self.state)
    }
}

impl ChecksumStream {
    /// The hasher is seeded with 0.
    pub closed spec fn wf(&self) -> bool {
        xxh64_seed(self.state) == 0
    }

    /// A stream that has been fed nothing.
    pub fn new() -> (r: Self)
        ensures
            r.wf(),
            r@ == Seq::<u8>::empty(),
    {
        ChecksumStream { state: xxh64_new(0) }
    }

    /// Feeds the next chunk.
    pub fn update(&mut self, chunk: &[u8])
        requires
            old(self).wf(),
        ensures
            final(self).wf(),
            final(self)@ == old(self)@ + chunk@,
    {
        xxh64_update(&mut self.state, chunk);
    }

    /// The checksum of everything fed so far, as 16 lowercase hexadecimal
    /// digits.
    pub fn finish(&self) -> (r: String)
        requires
            self.wf(),
        ensures
            r@ == hex16(xxh64_digest(0, self@)),
    {
        to_hex16(xxh64_finish(&self.state))
    }
}

} // verus!
