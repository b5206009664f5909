//! Big-endian encoding of the 32-bit length and checksum fields.

use vstd::prelude::*;
use vstd::arithmetic::div_mod::{
    lemma_div_denominator, lemma_fundamental_div_mod, lemma_fundamental_div_mod_converse,
};

verus! {

/// The value of a 4-byte big-endian field.
pub open spec fn be32(b: Seq<u8>) -> int
    recommends
        b.len() == 4,
{
    b[0] * 0x100_0000 + b[1] * 0x1_0000 + b[2] * 0x100 + b[3]
}

/// The 4-byte big-endian encoding of a 32-bit value.
pub open spec fn be_of(n: int) -> Seq<u8>
    recommends
        0 <= n < 0x1_0000_0000,
{
    seq![
        (n / 0x100_0000) as u8,
        ((n / 0x1_0000) % 0x100) as u8,
        ((n / 0x100) % 0x100) as u8,
        (n % 0x100) as u8,
    ]
}

/// A 4-byte big-endian field never holds more than 32 bits of value.
pub proof fn lemma_be32_range(b: Seq<u8>)
    requires
        b.len() == 4,
    ensures
        0 <= be32(b) < 0x1_0000_0000,
{
}

/// Decoding the encoding of a 32-bit value gives the value back.
pub proof fn lemma_be32_of_be_of(n: int)
    requires
        0 <= n < 0x1_0000_0000,
    ensures
        be_of(n).len() == 4,
        be32(be_of(n)) == n,
{
    lemma_fundamental_div_mod(n, 0x100);
    lemma_fundamental_div_mod(n / 0x100, 0x100);
    lemma_fundamental_div_mod(n / 0x1_0000, 0x100);
    lemma_div_denominator(n, 0x100, 0x100);
    lemma_div_denominator(n, 0x1_0000, 0x100);
    assert(n / 0x100 / 0x100 == n / 0x1_0000);
    assert(n / 0x1_0000 / 0x100 == n / 0x100_0000);
    lemma_fundamental_div_mod(n, 0x100_0000);
    assert(n / 0x100_0000 < 0x100);
}

/// Encoding the value of a 4-byte field gives the field back.
pub proof fn lemma_be_of_be32(b: Seq<u8>)
    requires
        b.len() == 4,
    ensures
        be_of(be32(b)) == b,
{
    let v = be32(b);
    lemma_fundamental_div_mod_converse(v, 0x100_0000, b[0] as int,
        b[1] * 0x1_0000 + b[2] * 0x100 + b[3]);
    lemma_fundamental_div_mod_converse(v, 0x1_0000, b[0] * 0x100 + b[1],
        b[2] * 0x100 + b[3]);
    lemma_fundamental_div_mod_converse(v, 0x100, b[0] * 0x1_0000 + b[1] * 0x100 + b[2],
        b[3] as int);
    lemma_fundamental_div_mod_converse(b[0] * 0x100 + b[1], 0x100, b[0] as int, b[1] as int);
    lemma_fundamental_div_mod_converse(b[0] * 0x1_0000 + b[1] * 0x100 + b[2], 0x100,
        b[0] * 0x100 + b[1], b[2] as int);
    assert(be_of(v) =~= b);
}

/// Encodes a 32-bit value as 4 bytes, most significant byte first.
pub fn int_to_bytes(n: u32) -> (r: Vec<u8>)
    ensures
        r@.len() == 4,
        r@ == be_of(n as int),
        be32(r@) == n as int,
{
    let b0: u8 = (n / 0x100_0000) as u8;
    let b1: u8 = ((n / 0x1_0000) % 0x100) as u8;
    let b2: u8 = ((n / 0x100) % 0x100) as u8;
    let b3: u8 = (n % 0x100) as u8;
    let mut r: Vec<u8> = Vec::new();
    r.push(b0);
    r.push(b1);
    r.push(b2);
    r.push(b3);
    proof {
        assert(r@ =~= be_of(n as int));
        lemma_be32_of_be_of(n as int);
    }
    r
}

/// Decodes 4 bytes as a 32-bit big-endian value.
pub fn bytes_to_int(bytes: &[u8]) -> (n: u32)
    requires
        bytes@.len() == 4,
    ensures
        n as int == be32(bytes@),
{
    (bytes[0] as u32) * 0x100_0000 + (bytes[1] as u32) * 0x1_0000 + (bytes[2] as u32) * 0x100
        + (bytes[3] as u32)
}

} // verus!
