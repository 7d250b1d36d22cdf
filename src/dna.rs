use vstd::prelude::*;
use crate::types::{Entropy, Gender};

verus! {

/// The BLAKE2b digest of `data` with a 16-byte output.
pub uninterp spec fn blake2_128_of(data: Seq<u8>) -> Seq<u8>;

/// Relies on sp_io::hashing::blake2_128: the 16-byte BLAKE2b digest of `data`,
/// a function of the bytes alone.
#[verifier::external_body]
fn blake2_128(data: &[u8]) -> (r: [u8; 16])
    ensures
        r@ == blake2_128_of(data@),
{
    sp_io::hashing::blake2_128(data)
}

/// The four little-endian bytes of `x`.
pub open spec fn le_u32(x: u32) -> Seq<u8> {
    seq![
        (x % 256) as u8,
        (x / 256 % 256) as u8,
        (x / 65536 % 256) as u8,
        (x / 16777216) as u8,
    ]
}

/// The SCALE encoding of the tuple (random hash, operation index, block number):
/// the 32 hash bytes, then each number in four little-endian bytes.
pub open spec fn payload_of(seed: Seq<u8>, extrinsic_index: Option<u32>, block_number: u32) -> Seq<u8> {
    let idx = match extrinsic_index {
        Some(i) => i,
        None => 0u32,
    };
    seed + le_u32(idx) + le_u32(block_number)
}

/// The genetic code that `gen_dna` derives from `e`.
pub open spec fn dna_of(e: Entropy) -> Seq<u8> {
    blake2_128_of(payload_of(e.dna_seed@, e.extrinsic_index, e.block_number))
}

/// The gender selected by a random output: its first byte, modulo two.
pub open spec fn gender_of(seed: Seq<u8>) -> Gender {
    if seed[0] % 2 == 0 {
        Gender::Male
    } else {
        Gender::Female
    }
}

/// One byte of the offspring: the bits of `a` where `mask` is set, of `b` elsewhere.
pub open spec fn mix_byte(mask: u8, a: u8, b: u8) -> u8 {
    (mask & a) | (!mask & b)
}

/// The offspring's genetic code, byte by byte.
pub open spec fn crossover_of(mask: Seq<u8>, dna1: Seq<u8>, dna2: Seq<u8>) -> Seq<u8> {
    Seq::new(16, |i: int| mix_byte(mask[i], dna1[i], dna2[i]))
}

fn push_le_u32(out: &mut Vec<u8>, x: u32)
    ensures
        final(out)@ == old(out)@ + le_u32(x),
{
    out.push((x % 256) as u8);
    out.push((x / 256 % 256) as u8);
    out.push((x / 65536 % 256) as u8);
    out.push((x / 16777216) as u8);
    assert(final(out)@ =~= old(out)@ + le_u32(x));
}

/// The bytes that are hashed to derive a genetic code.
pub fn dna_payload(seed: &[u8; 32], extrinsic_index: Option<u32>, block_number: u32) -> (r: Vec<u8>)
    ensures
        r@ == payload_of(seed@, extrinsic_index, block_number),
{
    let mut out: Vec<u8> = Vec::new();
    let mut i: usize = 0;
    while i < 32
        invariant
            i <= 32,
            out@ == seed@.subrange(0, i as int),
        decreases 32 - i,
    {
        out.push(seed[i]);
        i = i + 1;
        assert(out@ =~= seed@.subrange(0, i as int));
    }
    assert(out@ =~= seed@);
    let idx: u32 = match extrinsic_index {
        Some(v) => v,
        None => 0,
    };
    push_le_u32(&mut out, idx);
    push_le_u32(&mut out, block_number);
    out
}

/// Derives a 16-byte genetic code: the 128-bit BLAKE2 digest of the encoded
/// random output for `"dna"`, operation index and block number.
pub fn gen_dna(e: &Entropy) -> (r: [u8; 16])
    ensures
        r@ == dna_of(*e),
{
    let payload = dna_payload(&e.dna_seed, e.extrinsic_index, e.block_number);
    blake2_128(payload.as_slice())
}

/// Derives a gender from the random output for `"gender"`: an even first byte
/// gives `Male`, an odd one `Female`.
pub fn gen_gender(seed: &[u8; 32]) -> (r: Gender)
    ensures
        r == gender_of(seed@),
{
    if seed[0] % 2 == 0 {
        Gender::Male
    } else {
        Gender::Female
    }
}

/// One byte of the offspring: the bits of `a` where `mask` is set, of `b` elsewhere.
pub fn breed_bits(mask: u8, a: u8, b: u8) -> (r: u8)
    ensures
        r == mix_byte(mask, a, b),
{
    (mask & a) | (!mask & b)
}

/// Recombines two genetic codes bit by bit: where a bit of `mask` is set the
/// offspring has the bit of `dna1`, elsewhere the bit of `dna2`.
pub fn crossover(mask: &[u8; 16], dna1: &[u8; 16], dna2: &[u8; 16]) -> (r: [u8; 16])
    ensures
        r@ == crossover_of(mask@, dna1@, dna2@),
{
    let mut out: [u8; 16] = *mask;
    let mut i: usize = 0;
    while i < 16
        invariant
            i <= 16,
            out@.len() == 16,
            forall|j: int| 0 <= j < i ==> out@[j] == mix_byte(mask@[j], dna1@[j], dna2@[j]),
        decreases 16 - i,
    {
        out[i] = breed_bits(mask[i], dna1[i], dna2[i]);
        i = i + 1;
    }
    assert(out@ =~= crossover_of(mask@, dna1@, dna2@));
    out
}

} // verus!
