//! Derivation of an asset's 16 bytes of generative data.
//!
//! The data is a pure function of (per-block randomness seed, caller
//! identity, call index within the block): the tuple is SCALE-encoded and
//! hashed with a 128-bit Blake2b digest. Replay of a block must reproduce
//! the same data, so nothing non-deterministic may enter here.
//!
//! Breeding mixes two parents' data bit by bit under a selector derived the
//! same way: where a selector bit is 1 the child takes parent A's bit, else
//! parent B's.

use parity_scale_codec::Encode;
use vstd::prelude::*;

verus! {

/// SCALE encoding of a `u64`: its eight bytes, least significant first.
pub open spec fn u64_le_bytes(x: u64) -> Seq<u8> {
    seq![
        (x & 0xff) as u8,
        ((x >> 8) & 0xff) as u8,
        ((x >> 16) & 0xff) as u8,
        ((x >> 24) & 0xff) as u8,
        ((x >> 32) & 0xff) as u8,
        ((x >> 40) & 0xff) as u8,
        ((x >> 48) & 0xff) as u8,
        ((x >> 56) & 0xff) as u8,
    ]
}

/// SCALE encoding of a `u32`: its four bytes, least significant first.
pub open spec fn u32_le_bytes(x: u32) -> Seq<u8> {
    seq![
        (x & 0xff) as u8,
        ((x >> 8) & 0xff) as u8,
        ((x >> 16) & 0xff) as u8,
        ((x >> 24) & 0xff) as u8,
    ]
}

/// SCALE encoding of an `Option<u32>`: a presence byte, then the value if any.
pub open spec fn option_u32_bytes(x: Option<u32>) -> Seq<u8> {
    match x {
        None => seq![0u8],
        Some(v) => seq![1u8] + u32_le_bytes(v),
    }
}

/// SCALE encoding of the dna payload tuple (seed, caller, call index):
/// a byte array encodes as its raw bytes, and a tuple as the
/// concatenation of its fields' encodings.
pub open spec fn payload_bytes(seed: Seq<u8>, who: u64, extrinsic_index: Option<u32>) -> Seq<u8> {
    seed + u64_le_bytes(who) + option_u32_bytes(extrinsic_index)
}

/// The 16-byte Blake2b digest, named: it depends on the input bytes alone.
pub uninterp spec fn blake2_128_of(data: Seq<u8>) -> Seq<u8>;

/// The generative data minted for `who` under `seed` at call `extrinsic_index`.
pub open spec fn dna_of(seed: Seq<u8>, who: u64, extrinsic_index: Option<u32>) -> Seq<u8> {
    blake2_128_of(payload_bytes(seed, who, extrinsic_index))
}

/// Relies on `parity_scale_codec::Encode`: a tuple encodes as its fields'
/// encodings in order, `[u8; 32]` as its raw bytes, `u64` and `u32` as
/// little-endian bytes, and `Option` as a presence byte then the value.
#[verifier::external_body]
fn encode_payload(seed: &[u8; 32], who: u64, extrinsic_index: Option<u32>) -> (r: Vec<u8>)
    ensures
        r@ == payload_bytes(seed@, who, extrinsic_index),
{
    (seed, who, extrinsic_index).encode()
}

/// Relies on `sp_crypto_hashing::blake2_128`: a 16-byte Blake2b digest,
/// a function of the input bytes alone.
#[verifier::external_body]
fn blake2_128(data: &Vec<u8>) -> (r: [u8; 16])
    ensures
        r@ == blake2_128_of(data@),
{
    sp_crypto_hashing::blake2_128(data.as_slice())
}

/// Derives generative data for `who`: hash of the SCALE-encoded payload.
pub fn random_value(seed: &[u8; 32], who: u64, extrinsic_index: Option<u32>) -> (r: [u8; 16])
    ensures
        r@ == dna_of(seed@, who, extrinsic_index),
{
    let payload = encode_payload(seed, who, extrinsic_index);
    blake2_128(&payload)
}

/// One byte of a child's data: each bit comes from `a` where the selector
/// bit is 1, from `b` where it is 0.
pub open spec fn mix_byte(sel: u8, a: u8, b: u8) -> u8 {
    (sel & a) | (!sel & b)
}

/// A child's 16 bytes of data, mixed bytewise from the two parents.
pub open spec fn mix_dna(sel: Seq<u8>, a: Seq<u8>, b: Seq<u8>) -> Seq<u8> {
    Seq::new(16, |i: int| mix_byte(sel[i], a[i], b[i]))
}

/// Mixes two parents' data under a selector, bit by bit.
pub fn mix(sel: &[u8; 16], a: &[u8; 16], b: &[u8; 16]) -> (r: [u8; 16])
    ensures
        r@ == mix_dna(sel@, a@, b@),
{
    let mut out: [u8; 16] = [0u8; 16];
    let mut i: usize = 0;
    while i < 16
        invariant
            i <= 16,
            out@.len() == 16,
            forall|j: int| 0 <= j < i ==> out@[j] == mix_byte(sel@[j], a@[j], b@[j]),
        decreases 16 - i,
    {
        out[i] = (sel[i] & a[i]) | (!sel[i] & b[i]);
        i = i + 1;
    }
    proof {
        assert(out@ =~= mix_dna(sel@, a@, b@));
    }
    out
}

/// Law: in every byte of a mixed child, each bit equals the corresponding
/// parent-A bit where the selector bit is 1, else the parent-B bit.
pub proof fn lemma_mix_byte_bits(sel: u8, a: u8, b: u8, k: u8)
    requires
        k < 8,
    ensures
        (mix_byte(sel, a, b) >> k) & 1 == if (sel >> k) & 1 == 1 {
            (a >> k) & 1
        } else {
            (b >> k) & 1
        },
{
    assert(((sel & a) | (!sel & b)) >> k & 1 == if (sel >> k) & 1 == 1 {
        (a >> k) & 1
    } else {
        (b >> k) & 1
    }) by (bit_vector)
        requires
            k < 8,
    ;
}

/// Law: the full per-bit statement over whole dna values, and with it
/// determinism — the child is a function of the parents and the selector.
pub proof fn lemma_mix_dna_bits(sel: Seq<u8>, a: Seq<u8>, b: Seq<u8>, i: int, k: u8)
    requires
        0 <= i < 16,
        k < 8,
    ensures
        (mix_dna(sel, a, b)[i] >> k) & 1 == if (sel[i] >> k) & 1 == 1 {
            (a[i] >> k) & 1
        } else {
            (b[i] >> k) & 1
        },
{
    lemma_mix_byte_bits(sel[i], a[i], b[i], k);
}

} // verus!
