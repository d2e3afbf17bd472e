//! Identity/trait generation: a deterministic pseudo-random derivation of
//! 16-byte identifiers, trait vectors ("DNA") and the sex attribute from
//! externally supplied entropy, the calling account, the block height and
//! the per-block operation sequence number.

use vstd::prelude::*;

verus! {

/// Sex attribute of an asset; breeding requires two parents of opposite gender.
#[derive(Clone, Copy, PartialEq, Eq, Structural, Debug)]
pub enum Gender {
    Female,
    Male,
}

/// Salt separating the high half of the identifier derivation from the low half.
pub const HI_SALT: u64 = 0x9e3779b97f4a7c15;

/// Salt separating the gender derivation from the identifier derivation.
pub const GENDER_SALT: u64 = 0x2545f4914f6cdd1d;

/// One xorshift scrambling round: a bijective mixing step on 64-bit words.
pub open spec fn spec_mix64(x: u64) -> u64 {
    let a = x ^ (x << 13u64);
    let b = a ^ (a >> 7u64);
    b ^ (b << 17u64)
}

fn mix64(x: u64) -> (r: u64)
    ensures
        r == spec_mix64(x),
{
    let a = x ^ (x << 13u64);
    let b = a ^ (a >> 7u64);
    b ^ (b << 17u64)
}

/// A 64-bit word read little-endian from eight bytes of a seed.
pub open spec fn spec_le64(s: Seq<u8>, off: int) -> u64
    recommends
        0 <= off,
        off + 8 <= s.len(),
{
    (s[off] as u64) | ((s[off + 1] as u64) << 8u64) | ((s[off + 2] as u64) << 16u64) | ((s[off
        + 3] as u64) << 24u64) | ((s[off + 4] as u64) << 32u64) | ((s[off + 5] as u64) << 40u64) | (
    (s[off + 6] as u64) << 48u64) | ((s[off + 7] as u64) << 56u64)
}

fn le64(s: &[u8; 32], off: usize) -> (r: u64)
    requires
        off + 8 <= 32,
    ensures
        r == spec_le64(s@, off as int),
{
    (s[off] as u64) | ((s[off + 1] as u64) << 8u64) | ((s[off + 2] as u64) << 16u64) | ((s[off
        + 3] as u64) << 24u64) | ((s[off + 4] as u64) << 32u64) | ((s[off + 5] as u64) << 40u64) | (
    (s[off + 6] as u64) << 48u64) | ((s[off + 7] as u64) << 56u64)
}

/// The entropy, caller, and block height mixed into one word; the operation
/// sequence number is folded in afterwards, so that within one block it acts
/// as the anti-collision salt.
pub open spec fn spec_h1(seed: Seq<u8>, caller: u64, block: u64) -> u64 {
    spec_mix64(spec_mix64(spec_le64(seed, 0) ^ caller) ^ spec_mix64(spec_le64(seed, 8) ^ block))
}

/// Low half of the generated identifier: the sequence number enters by
/// exclusive or, which keeps the identifier injective in the sequence number.
pub open spec fn spec_lo(seed: Seq<u8>, caller: u64, block: u64, ei: u32) -> u64 {
    spec_h1(seed, caller, block) ^ (ei as u64)
}

/// High half of the generated identifier, salted differently from the low half.
pub open spec fn spec_hi(seed: Seq<u8>, caller: u64, block: u64) -> u64 {
    spec_mix64(
        spec_mix64(spec_le64(seed, 16) ^ caller) ^ spec_mix64(spec_le64(seed, 24) ^ block)
            ^ HI_SALT,
    )
}

/// Byte `i` (little-endian) of a 64-bit word.
pub open spec fn spec_byte(x: u64, i: int) -> u8
    recommends
        0 <= i < 8,
{
    ((x >> ((8 * i) as u64)) & 0xffu64) as u8
}

/// The 16 bytes generated for a fresh identifier and trait vector.
pub open spec fn spec_gen_id(seed: Seq<u8>, caller: u64, block: u64, ei: u32) -> Seq<u8> {
    Seq::new(
        16,
        |i: int|
            if i < 8 {
                spec_byte(spec_lo(seed, caller, block, ei), i)
            } else {
                spec_byte(spec_hi(seed, caller, block), i - 8)
            },
    )
}

/// The gender derived from the same inputs by a differently salted mix;
/// parity of the low derived byte selects the variant.
pub open spec fn spec_gen_gender(seed: Seq<u8>, caller: u64, block: u64, ei: u32) -> Gender {
    if spec_byte(
        spec_mix64(spec_lo(seed, caller, block, ei) ^ spec_hi(seed, caller, block) ^ GENDER_SALT),
        0,
    ) % 2 == 0 {
        Gender::Female
    } else {
        Gender::Male
    }
}

/// The derived trait vector of a bred child: byte `i` is copied from parent A
/// when selector byte `i` is even, from parent B otherwise.
pub open spec fn spec_child_dna(sel: Seq<u8>, a: Seq<u8>, b: Seq<u8>) -> Seq<u8>
    recommends
        sel.len() == 16,
        a.len() == 16,
        b.len() == 16,
{
    Seq::new(16, |i: int| if sel[i] % 2 == 0 { a[i] } else { b[i] })
}

fn extract_byte(x: u64, i: usize) -> (r: u8)
    requires
        i < 8,
    ensures
        r == spec_byte(x, i as int),
{
    let sh: u64 = 8 * (i as u64);
    let v: u64 = (x >> sh) & 0xffu64;
    proof {
        assert((x >> sh) & 0xffu64 <= 0xffu64) by (bit_vector);
    }
    v as u8
}

/// Generates a fresh 16-byte identifier/trait vector and a gender from the
/// entropy seed, the calling account, the block height and the per-block
/// operation sequence number.
pub fn gen_dna_from(seed: &[u8; 32], caller: u64, block: u64, ei: u32) -> (r: ([u8; 16], Gender))
    ensures
        r.0@ == spec_gen_id(seed@, caller, block, ei),
        r.1 == spec_gen_gender(seed@, caller, block, ei),
{
    let s0 = le64(seed, 0);
    let s1 = le64(seed, 8);
    let s2 = le64(seed, 16);
    let s3 = le64(seed, 24);
    let lo = mix64(mix64(s0 ^ caller) ^ mix64(s1 ^ block)) ^ (ei as u64);
    let hi = mix64(mix64(s2 ^ caller) ^ mix64(s3 ^ block) ^ HI_SALT);
    assert(lo == spec_lo(seed@, caller, block, ei));
    assert(hi == spec_hi(seed@, caller, block));
    let mut out: [u8; 16] = [0u8; 16];
    let mut i: usize = 0;
    while i < 8
        invariant
            i <= 8,
            lo == spec_lo(seed@, caller, block, ei),
            forall|k: int| 0 <= k < i ==> out@[k] == spec_gen_id(seed@, caller, block, ei)[k],
        decreases 8 - i,
    {
        out[i] = extract_byte(lo, i);
        i = i + 1;
    }
    while i < 16
        invariant
            8 <= i <= 16,
            lo == spec_lo(seed@, caller, block, ei),
            hi == spec_hi(seed@, caller, block),
            forall|k: int| 0 <= k < i ==> out@[k] == spec_gen_id(seed@, caller, block, ei)[k],
        decreases 16 - i,
    {
        out[i] = extract_byte(hi, i - 8);
        i = i + 1;
    }
    assert(out@ =~= spec_gen_id(seed@, caller, block, ei));
    let gb = extract_byte(mix64(lo ^ hi ^ GENDER_SALT), 0);
    let gender = if gb % 2 == 0 {
        Gender::Female
    } else {
        Gender::Male
    };
    (out, gender)
}

/// Derives a child trait vector from two parents: each byte of the result is
/// copied from the corresponding byte of one of the parents, chosen by the
/// per-byte selector generated from the same inputs as a fresh identifier;
/// the gender is derived independently of either parent.
pub fn breed_dna_from(
    seed: &[u8; 32],
    caller: u64,
    block: u64,
    ei: u32,
    parent_a: &[u8; 16],
    parent_b: &[u8; 16],
) -> (r: ([u8; 16], Gender))
    ensures
        r.0@ == spec_child_dna(spec_gen_id(seed@, caller, block, ei), parent_a@, parent_b@),
        forall|i: int| 0 <= i < 16 ==> r.0@[i] == parent_a@[i] || r.0@[i] == parent_b@[i],
        r.1 == spec_gen_gender(seed@, caller, block, ei),
{
    let (sel, gender) = gen_dna_from(seed, caller, block, ei);
    let ghost sel_s = spec_gen_id(seed@, caller, block, ei);
    let mut out: [u8; 16] = [0u8; 16];
    let mut i: usize = 0;
    while i < 16
        invariant
            i <= 16,
            sel@ == sel_s,
            forall|k: int|
                0 <= k < i ==> out@[k] == spec_child_dna(sel_s, parent_a@, parent_b@)[k],
        decreases 16 - i,
    {
        out[i] = if sel[i] % 2 == 0 {
            parent_a[i]
        } else {
            parent_b[i]
        };
        i = i + 1;
    }
    assert(out@ =~= spec_child_dna(sel_s, parent_a@, parent_b@));
    (out, gender)
}

proof fn lemma_bytes_injective(x: u64, y: u64)
    requires
        forall|i: int| 0 <= i < 8 ==> spec_byte(x, i) == spec_byte(y, i),
    ensures
        x == y,
{
    assert(spec_byte(x, 0) == spec_byte(y, 0));
    assert(spec_byte(x, 1) == spec_byte(y, 1));
    assert(spec_byte(x, 2) == spec_byte(y, 2));
    assert(spec_byte(x, 3) == spec_byte(y, 3));
    assert(spec_byte(x, 4) == spec_byte(y, 4));
    assert(spec_byte(x, 5) == spec_byte(y, 5));
    assert(spec_byte(x, 6) == spec_byte(y, 6));
    assert(spec_byte(x, 7) == spec_byte(y, 7));
    assert(x == y) by (bit_vector)
        requires
            ((x >> 0u64) & 0xffu64) as u8 == ((y >> 0u64) & 0xffu64) as u8,
            ((x >> 8u64) & 0xffu64) as u8 == ((y >> 8u64) & 0xffu64) as u8,
            ((x >> 16u64) & 0xffu64) as u8 == ((y >> 16u64) & 0xffu64) as u8,
            ((x >> 24u64) & 0xffu64) as u8 == ((y >> 24u64) & 0xffu64) as u8,
            ((x >> 32u64) & 0xffu64) as u8 == ((y >> 32u64) & 0xffu64) as u8,
            ((x >> 40u64) & 0xffu64) as u8 == ((y >> 40u64) & 0xffu64) as u8,
            ((x >> 48u64) & 0xffu64) as u8 == ((y >> 48u64) & 0xffu64) as u8,
            ((x >> 56u64) & 0xffu64) as u8 == ((y >> 56u64) & 0xffu64) as u8,
    ;
}

/// Distinctness under sequence advance: two fresh generations by the same
/// caller, with the same entropy and in the same block, but with different
/// operation sequence numbers, always produce different identifiers.
pub proof fn lemma_gen_id_distinct(seed: Seq<u8>, caller: u64, block: u64, ei1: u32, ei2: u32)
    requires
        ei1 != ei2,
    ensures
        spec_gen_id(seed, caller, block, ei1) != spec_gen_id(seed, caller, block, ei2),
{
    let id1 = spec_gen_id(seed, caller, block, ei1);
    let id2 = spec_gen_id(seed, caller, block, ei2);
    let h = spec_h1(seed, caller, block);
    let e1 = ei1 as u64;
    let e2 = ei2 as u64;
    let lo1 = spec_lo(seed, caller, block, ei1);
    let lo2 = spec_lo(seed, caller, block, ei2);
    assert(e1 != e2);
    assert(lo1 == h ^ e1 && lo2 == h ^ e2);
    assert((h ^ e1) != (h ^ e2)) by (bit_vector)
        requires
            e1 != e2,
    ;
    if id1 == id2 {
        assert forall|i: int| 0 <= i < 8 implies spec_byte(lo1, i) == spec_byte(lo2, i) by {
            assert(id1[i] == id2[i]);
        }
        lemma_bytes_injective(lo1, lo2);
        assert(false);
    }
}

} // verus!
