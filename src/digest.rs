//! The running SHA-256 digest that absorbs the canonical text of a traversal.

use crypto::digest::Digest;
use crypto::sha2::Sha256;
use vstd::prelude::*;

verus! {

#[verifier::external_type_specification]
#[verifier::external_body]
pub struct ExSha256(Sha256);

/// The bytes a SHA-256 state has absorbed since it was created.
pub uninterp spec fn sha256_absorbed(h: Sha256) -> Seq<u8>;

/// The SHA-256 digest of a byte sequence, as lowercase hexadecimal text.
pub uninterp spec fn sha256_hex(bytes: Seq<u8>) -> Seq<char>;

/// A SHA-256 state counts the absorbed bits in a `u64`: it takes fewer
/// bytes than this in all.
pub const SHA256_MAX_BYTES: u64 = 0x2000_0000_0000_0000;

/// A lowercase hexadecimal digit.
pub open spec fn is_lower_hex_digit(c: char) -> bool {
    ('0' <= c && c <= '9') || ('a' <= c && c <= 'f')
}

/// Relies on `Sha256::new`: a fresh state has absorbed nothing.
pub assume_specification[ Sha256::new ]() -> (r: Sha256)
    ensures
        sha256_absorbed(r) == Seq::<u8>::empty(),
;

/// Relies on `Digest::input` of `Sha256`: appends `bytes` to what the state
/// has absorbed; it panics once the bit count would pass `u64::MAX`.
#[verifier::external_body]
fn sha256_input(h: &mut Sha256, bytes: &[u8])
    requires
        sha256_absorbed(*old(h)).len() + bytes@.len() < SHA256_MAX_BYTES,
    ensures
        sha256_absorbed(*final(h)) == sha256_absorbed(*old(h)) + bytes@,
{
    h.input(bytes)
}

/// Relies on `Digest::result_str` of `Sha256`, run on a copy of the state:
/// the digest of what was absorbed, as 64 lowercase hexadecimal digits.
#[verifier::external_body]
fn sha256_result_hex(h: &Sha256) -> (r: String)
    ensures
        r@ == sha256_hex(sha256_absorbed(*h)),
        r@.len() == 64,
        forall|i: int| 0 <= i < 64 ==> is_lower_hex_digit(#[trigger] r@[i]),
{
    let mut copy = *h;
    copy.result_str()
}

/// What a state holds after absorbing `chunks` one after another, starting
/// from `start`.
pub open spec fn absorb_each(start: Seq<u8>, chunks: Seq<Seq<u8>>) -> Seq<u8>
    decreases chunks.len(),
{
    if chunks.len() == 0 {
        start
    } else {
        absorb_each(start + chunks[0], chunks.drop_first())
    }
}

/// Absorbing chunks one after another appends their concatenation.
pub proof fn lemma_chunked_absorption(start: Seq<u8>, chunks: Seq<Seq<u8>>)
    ensures
        absorb_each(start, chunks) == start + chunks.flatten(),
    decreases chunks.len(),
{
    if chunks.len() == 0 {
        assert(start + chunks.flatten() =~= start);
    } else {
        lemma_chunked_absorption(start + chunks[0], chunks.drop_first());
        assert(start + chunks[0] + chunks.drop_first().flatten() =~= start + chunks.flatten());
    }
}

/// Streaming: a fresh state fed bytes chunk by chunk gives the same digest
/// as one fed the same bytes at once.
pub proof fn lemma_streaming_digest(chunks: Seq<Seq<u8>>)
    ensures
        sha256_hex(absorb_each(Seq::empty(), chunks)) == sha256_hex(chunks.flatten()),
{
    lemma_chunked_absorption(Seq::empty(), chunks);
    assert(Seq::<u8>::empty() + chunks.flatten() =~= chunks.flatten());
}

/// An order-sensitive accumulator: its digest is that of the exact byte
/// sequence absorbed, in order.
pub struct RunningDigest {
    sha: Sha256,
    count: u64,
}

impl View for RunningDigest {
    type V = Seq<u8>;

    closed spec fn view(&self) -> Seq<u8> {
        sha256_absorbed(self.sha)
    }
}

impl RunningDigest {
    #[verifier::type_invariant]
    spec fn counted(&self) -> bool {
        self.count == sha256_absorbed(self.sha).len() && self.count < SHA256_MAX_BYTES
    }

    /// A digest that has absorbed nothing.
    pub fn new() -> (r: RunningDigest)
        ensures
            r@ == Seq::<u8>::empty(),
    {
        RunningDigest { sha: Sha256::new(), count: 0 }
    }

    /// Absorbs `bytes` after what was absorbed so far, unless the total would
    /// reach the state's limit; then nothing changes and the result is false.
    pub fn absorb(&mut self, bytes: &[u8]) -> (ok: bool)
        ensures
            ok == (old(self)@.len() + bytes@.len() < SHA256_MAX_BYTES),
            ok ==> final(self)@ == old(self)@ + bytes@,
            !ok ==> final(self)@ == old(self)@,
    {
        proof {
            use_type_invariant(&*self);
        }
        let n = bytes.len();
        if n as u64 >= SHA256_MAX_BYTES - self.count {
            return false;
        }
        let mut sha = self.sha;
        sha256_input(&mut sha, bytes);
        *self = RunningDigest { sha, count: self.count + n as u64 };
        true
    }

    /// The digest of everything absorbed, as 64 lowercase hexadecimal digits.
    pub fn hex_digest(&self) -> (r: String)
        ensures
            r@ == sha256_hex(self@),
            r@.len() == 64,
            forall|i: int| 0 <= i < 64 ==> is_lower_hex_digit(#[trigger] r@[i]),
    {
        sha256_result_hex(&self.sha)
    }
}

} // verus!
