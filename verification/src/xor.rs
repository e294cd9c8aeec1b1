//! The exclusive or of all the bytes of a stream.

use vstd::prelude::*;

verus! {

/// The exclusive or of all the bytes of `bytes`; 0 if there is none.
pub open spec fn xor_of(bytes: Seq<u8>) -> u8
    decreases bytes.len(),
{
    if bytes.len() == 0 {
        0
    } else {
        xor_of(bytes.drop_last()) ^ bytes.last()
    }
}

/// A stream may be read in blocks of any length: the exclusive or of the
/// whole is that of its parts.
pub proof fn lemma_xor_of_blocks(a: Seq<u8>, b: Seq<u8>)
    ensures
        xor_of(a + b) == xor_of(a) ^ xor_of(b),
    decreases b.len(),
{
    if b.len() == 0 {
        let x = xor_of(a);
        assert(x ^ 0 == x) by (bit_vector);
    } else {
        assert((a + b).drop_last() =~= a + b.drop_last());
        lemma_xor_of_blocks(a, b.drop_last());
        let x = xor_of(a);
        let y = xor_of(b.drop_last());
        let z = b.last();
        assert((x ^ y) ^ z == x ^ (y ^ z)) by (bit_vector);
    }
}

/// Takes one more block into the exclusive or `ans` of the bytes read so far.
pub fn xor_block(ans: u8, buf: &[u8]) -> (out: u8)
    ensures
        out == ans ^ xor_of(buf@),
{
    let mut out = ans;
    let mut i: usize = 0;
    assert(ans ^ 0 == ans) by (bit_vector);
    while i < buf.len()
        invariant
            i <= buf.len(),
            out == ans ^ xor_of(buf@.take(i as int)),
        decreases buf.len() - i,
    {
        let ghost before = xor_of(buf@.take(i as int));
        let byte = buf[i];
        proof {
            assert(buf@.take(i + 1).drop_last() =~= buf@.take(i as int));
            assert((ans ^ before) ^ byte == ans ^ (before ^ byte)) by (bit_vector);
        }
        out ^= byte;
        i += 1;
    }
    assert(buf@.take(buf.len() as int) =~= buf@);
    out
}

} // verus!
