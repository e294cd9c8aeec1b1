//! The eight bits of a byte, one to a byte.

use vstd::prelude::*;

verus! {

/// The bit of `x` that counts `2^n`, as 0 or 1.
pub open spec fn bit_of(x: u8, n: u8) -> u8 {
    (x >> n) & 1
}

/// The bits of `x` from the most significant to the least.
pub open spec fn bits(x: u8) -> Seq<u8> {
    seq![
        bit_of(x, 7),
        bit_of(x, 6),
        bit_of(x, 5),
        bit_of(x, 4),
        bit_of(x, 3),
        bit_of(x, 2),
        bit_of(x, 1),
        bit_of(x, 0),
    ]
}

/// The byte of `y` that counts `256^n`.
pub open spec fn byte_of(y: u64, n: u64) -> u8 {
    ((y >> (8 * n)) & 0xff) as u8
}

/// The bytes of `y` from the least significant to the most.
pub open spec fn bytes_from_least(y: u64) -> Seq<u8> {
    seq![
        byte_of(y, 0),
        byte_of(y, 1),
        byte_of(y, 2),
        byte_of(y, 3),
        byte_of(y, 4),
        byte_of(y, 5),
        byte_of(y, 6),
        byte_of(y, 7),
    ]
}

/// The bits of `x` from the most significant to the least, each taken by a
/// shift and a mask of its own.
pub fn bitarray_naive(x: u8) -> (out: [u8; 8])
    ensures
        out@ == bits(x),
{
    let a = x >> 7;
    let b = (x >> 6) & 1;
    let c = (x >> 5) & 1;
    let d = (x >> 4) & 1;
    let e = (x >> 3) & 1;
    let f = (x >> 2) & 1;
    let g = (x >> 1) & 1;
    let h = x & 1;
    let out = [a, b, c, d, e, f, g, h];
    proof {
        assert(x >> 7 == (x >> 7) & 1) by (bit_vector);
        assert(x & 1 == (x >> 0) & 1) by (bit_vector);
    }
    out
}

/// The byte as a word.
fn u64(x: u8) -> (wide: u64)
    ensures
        wide == x,
{
    x as u64
}

/// The lowest bit of each byte of a word.
const M: u64 = 0x0101010101010101;

/// `u64::to_ne_bytes`: the bytes of `y` in the order in which this machine
/// keeps them in memory, which is from the least significant on or from the
/// most significant on.
#[verifier::external_body]
fn native_bytes(y: u64) -> (out: [u8; 8])
    ensures
        out@ == bytes_from_least(y) || out@ == bytes_from_least(y).reverse(),
{
    y.to_ne_bytes()
}

/// The bytes of `y` from the least significant to the most, on any machine.
fn bytes_least_first(y: u64) -> (out: [u8; 8])
    ensures
        out@ == bytes_from_least(y),
{
    let out = [
        (y & 0xff) as u8,
        ((y >> 8) & 0xff) as u8,
        ((y >> 16) & 0xff) as u8,
        ((y >> 24) & 0xff) as u8,
        ((y >> 32) & 0xff) as u8,
        ((y >> 40) & 0xff) as u8,
        ((y >> 48) & 0xff) as u8,
        ((y >> 56) & 0xff) as u8,
    ];
    proof {
        assert(y & 0xff == (y >> 0) & 0xff) by (bit_vector);
    }
    out
}

/// The bits of `x` spread over a word, one to a byte and the most significant
/// bit in the most significant byte: one multiplication copies the upper seven
/// bits to their bytes, and the lowest bit stays where it is.
pub fn spread_most_first(x: u8) -> (y: u64)
    ensures
        bytes_from_least(y) == bits(x).reverse(),
{
    let m: u64 = 0x0002040810204081;
    let low = x & 0xfe;
    assert(low as u64 * 0x0002040810204081u64 <= 0xffff_ffff_ffff_ffffu64) by (bit_vector)
        requires
            low == x & 0xfe,
    ;
    let y = ((u64(low) * m) | u64(x)) & M;
    proof {
        assert(byte_of(y, 0) == bit_of(x, 0) && byte_of(y, 1) == bit_of(x, 1) && byte_of(y, 2)
            == bit_of(x, 2) && byte_of(y, 3) == bit_of(x, 3)) by (bit_vector)
            requires
                y == ((((x & 0xfe) as u64) * 0x0002040810204081u64) as u64 | (x as u64))
                    & 0x0101010101010101u64,
        ;
        assert(byte_of(y, 4) == bit_of(x, 4) && byte_of(y, 5) == bit_of(x, 5) && byte_of(y, 6)
            == bit_of(x, 6) && byte_of(y, 7) == bit_of(x, 7)) by (bit_vector)
            requires
                y == ((((x & 0xfe) as u64) * 0x0002040810204081u64) as u64 | (x as u64))
                    & 0x0101010101010101u64,
        ;
    }
    y
}

/// The bits of `x` spread over a word, one to a byte and the most significant
/// bit in the least significant byte: one multiplication copies the lower
/// seven bits to their bytes, and the highest bit is put in by itself.
pub fn spread_least_first(x: u8) -> (y: u64)
    ensures
        bytes_from_least(y) == bits(x),
{
    let m: u64 = 0x0100804020100804;
    assert(x as u64 * 0x0100804020100804u64 <= 0xffff_ffff_ffff_ffffu64) by (bit_vector);
    let y = ((u64(x) * m) | u64(x >> 7)) & M;
    proof {
        assert(byte_of(y, 0) == bit_of(x, 7) && byte_of(y, 1) == bit_of(x, 6) && byte_of(y, 2)
            == bit_of(x, 5) && byte_of(y, 3) == bit_of(x, 4)) by (bit_vector)
            requires
                y == (((x as u64) * 0x0100804020100804u64) as u64 | ((x >> 7) as u64))
                    & 0x0101010101010101u64,
        ;
        assert(byte_of(y, 4) == bit_of(x, 3) && byte_of(y, 5) == bit_of(x, 2) && byte_of(y, 6)
            == bit_of(x, 1) && byte_of(y, 7) == bit_of(x, 0)) by (bit_vector)
            requires
                y == (((x as u64) * 0x0100804020100804u64) as u64 | ((x >> 7) as u64))
                    & 0x0101010101010101u64,
        ;
    }
    y
}

/// The bits of `x`, by one multiplication, for a machine that keeps the most
/// significant byte of a word first: there they come out from the most
/// significant to the least. On a machine that keeps the least significant
/// byte first they come out in the opposite order.
pub fn bitarray_ge(x: u8) -> (out: [u8; 8])
    ensures
        out@ == bits(x) || out@ == bits(x).reverse(),
{
    let y = spread_most_first(x);
    native_bytes(y)
}

/// The bits of `x`, by one multiplication, for a machine that keeps the least
/// significant byte of a word first: there they come out from the most
/// significant to the least. On a machine that keeps the most significant byte
/// first they come out in the opposite order.
pub fn bitarray_le(x: u8) -> (out: [u8; 8])
    ensures
        out@ == bits(x) || out@ == bits(x).reverse(),
{
    let y = spread_least_first(x);
    native_bytes(y)
}

/// The bits of `x` from the most significant to the least, by one
/// multiplication, on any machine.
pub fn bitarray(x: u8) -> (out: [u8; 8])
    ensures
        out@ == bits(x),
{
    let y = spread_least_first(x);
    bytes_least_first(y)
}

} // verus!
