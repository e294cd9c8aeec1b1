//! The exchange of the first and the last byte that were read into a buffer.

use vstd::prelude::*;

verus! {

/// Exchanges the first of the `nread` bytes at the front of `buf` with the
/// last of them. One byte or none is left as it is.
pub fn swap_ends(buf: &mut [u8], nread: usize)
    requires
        nread <= old(buf)@.len(),
    ensures
        final(buf)@ == if nread > 1 {
            old(buf)@.update(0, old(buf)@[nread - 1]).update(nread - 1, old(buf)@[0])
        } else {
            old(buf)@
        },
{
    if nread > 1 {
        let head = buf[0];
        let tail = buf[nread - 1];
        buf[0] = tail;
        buf[nread - 1] = head;
    }
}

} // verus!
