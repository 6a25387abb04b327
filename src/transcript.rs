use vstd::prelude::*;
use sha3::{Digest, Keccak256};
use crate::field::{be_value, modulus, Scalar};

verus! {

/// The Keccak-256 digest of `data`.
pub uninterp spec fn keccak256(data: Seq<u8>) -> Seq<u8>;

/// The bytes a sponge has absorbed since it was created or last finalized.
pub uninterp spec fn sponge_input(s: KeccakSponge) -> Seq<u8>;

/// sha3's Keccak-256 hashing state, held opaque: its type is an alias of a generic
/// wrapper whose bounds cannot be declared, so what it has absorbed is named by
/// `sponge_input`.
#[verifier::external_body]
#[derive(Debug)]
pub struct KeccakSponge {
    hasher: Keccak256,
}

/// Relies on sha3's `Keccak256::new`: a state that has absorbed nothing.
#[verifier::external_body]
fn sponge_new() -> (r: KeccakSponge)
    ensures
        sponge_input(r) == Seq::<u8>::empty(),
{
    KeccakSponge { hasher: Keccak256::new() }
}

/// Relies on sha3's `Digest::update`: the bytes are absorbed after those before.
#[verifier::external_body]
fn sponge_update(s: &mut KeccakSponge, data: &[u8])
    ensures
        sponge_input(*final(s)) == sponge_input(*old(s)) + data@,
{
    s.hasher.update(data);
}

/// Relies on sha3's `Digest::finalize_reset`: the digest of the bytes absorbed so far,
/// after which the state has absorbed nothing.
#[verifier::external_body]
fn sponge_finalize_reset(s: &mut KeccakSponge) -> (r: [u8; 32])
    ensures
        r@ == keccak256(sponge_input(*old(s))),
        sponge_input(*final(s)) == Seq::<u8>::empty(),
{
    s.hasher.finalize_reset().into()
}

/// The field challenge squeezed from a transcript that has absorbed `state`: the
/// digest read as a big-endian integer and reduced into the field.
pub open spec fn challenge_of(state: Seq<u8>) -> int {
    be_value(keccak256(state)) % modulus()
}

/// A Fiat-Shamir transcript: it absorbs prover messages and squeezes challenges that
/// depend only on what it absorbed.
#[derive(Debug)]
pub struct Transcript {
    hasher: KeccakSponge,
}

impl View for Transcript {
    type V = Seq<u8>;

    /// The bytes absorbed since the last squeeze (a squeeze absorbs its own digest).
    closed spec fn view(&self) -> Seq<u8> {
        sponge_input(self.hasher)
    }
}

impl Transcript {
    pub fn new() -> (r: Self)
        ensures
            r@ == Seq::<u8>::empty(),
    {
        Transcript { hasher: sponge_new() }
    }

    /// Absorbs `new_data`.
    pub fn append(&mut self, new_data: &[u8])
        ensures
            final(self)@ == old(self)@ + new_data@,
    {
        sponge_update(&mut self.hasher, new_data);
    }

    /// Squeezes a 32-byte challenge; the digest is absorbed again, so the next squeeze
    /// differs.
    pub fn sample_challenges(&mut self) -> (r: [u8; 32])
        ensures
            r@ == keccak256(old(self)@),
            final(self)@ == keccak256(old(self)@),
    {
        let result = sponge_finalize_reset(&mut self.hasher);
        sponge_update(&mut self.hasher, result.as_slice());
        result
    }

    /// Squeezes a field challenge: the digest reduced into the field; the digest is
    /// absorbed again, so the next squeeze differs.
    pub fn sample_challenge(&mut self) -> (r: Scalar)
        ensures
            r@ == challenge_of(old(self)@),
            final(self)@ == keccak256(old(self)@),
    {
        let digest = sponge_finalize_reset(&mut self.hasher);
        sponge_update(&mut self.hasher, digest.as_slice());
        Scalar::from_be_bytes_mod_order(digest.as_slice())
    }
}

/// The operations of a Fiat-Shamir transcript.
pub trait TranscriptInterface: Sized {
    fn new() -> Self;

    fn submit_data(&mut self, input_data: &[u8]);

    fn generate_challenge(&mut self) -> [u8; 32];

    fn compute_challenge_in_field(&mut self) -> Scalar;
}

impl TranscriptInterface for Transcript {
    fn new() -> Self {
        Transcript::new()
    }

    fn submit_data(&mut self, input_data: &[u8]) {
        self.append(input_data);
    }

    fn generate_challenge(&mut self) -> [u8; 32] {
        self.sample_challenges()
    }

    fn compute_challenge_in_field(&mut self) -> Scalar {
        self.sample_challenge()
    }
}

/// Two transcripts that have absorbed the same bytes squeeze the same challenges, as
/// bytes and as field elements, are left in the same state by a squeeze, and stay
/// equal when they absorb the same bytes next.
pub proof fn lemma_transcript_determinism(a: Transcript, b: Transcript, next: Seq<u8>)
    requires
        a@ == b@,
    ensures
        keccak256(a@) == keccak256(b@),
        challenge_of(a@) == challenge_of(b@),
        a@ + next == b@ + next,
{
}

} // verus!
