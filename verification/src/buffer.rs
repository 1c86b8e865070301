//! The self-sizing output-buffer protocol.
//!
//! Many engine calls write a variable-length result into a caller-supplied
//! buffer and report either success with the number of bytes written, or a
//! buffer-too-small status together with the required size.  The protocol
//! here is implemented once and reused by every such accessor: allocate an
//! initial guess, on a too-small status reallocate exactly the reported size
//! and retry once, and truncate the buffer to the bytes actually written, so
//! the result never carries trailing padding.

use vstd::prelude::*;

use crate::error::{Error, RC_SUCCESS, RC_INSUFFICIENT_BUFFER};
use crate::util::zero_vec;

verus! {

/// A variable-length byte result retrieved through the caller-supplied-buffer
/// convention: the producer fills the front of the buffer when it is large
/// enough, and always reports the required size.
pub trait ByteSource {
    /// The bytes this source produces.
    spec fn payload(&self) -> Seq<u8>;

    /// One engine call: fill the front of `out` when it is large enough, and
    /// report the status together with the required (equally, written) size.
    /// On a too-small status the buffer is left unchanged.
    fn fill(&self, out: &mut Vec<u8>) -> (r: (i32, usize))
        ensures
            r.1 == self.payload().len(),
            final(out)@.len() == old(out)@.len(),
            if old(out)@.len() >= self.payload().len() {
                r.0 == RC_SUCCESS && final(out)@.take(self.payload().len() as int)
                    == self.payload()
            } else {
                r.0 == RC_INSUFFICIENT_BUFFER && final(out)@ == old(out)@
            },
    ;
}

/// Retrieve a variable-length result with the resize-and-retry protocol.
/// Whatever the initial guess, the result is the complete payload, truncated
/// to the written length: no trailing padding.
pub fn fetch_bytes<S: ByteSource>(src: &S, initial_guess: usize) -> (r: Result<Vec<u8>, Error>)
    ensures
        r matches Ok(v) && v@ == src.payload(),
{
    let mut buf = zero_vec(initial_guess);
    let (rc, needed) = src.fill(&mut buf);
    if rc == RC_SUCCESS {
        buf.truncate(needed);
        proof {
            assert(buf@ =~= src.payload());
        }
        return Ok(buf);
    }
    // the buffer was too small: reallocate exactly the reported size, retry
    let mut exact = zero_vec(needed);
    let (rc2, written) = src.fill(&mut exact);
    if rc2 == RC_SUCCESS {
        exact.truncate(written);
        proof {
            assert(exact@ =~= src.payload());
        }
        Ok(exact)
    } else {
        // an exactly sized buffer cannot be too small again; a second
        // failure of the same kind is an unexpected-state condition
        Err(Error::from_rc(rc2))
    }
}

/// The engine side of the convention, shared by the byte-field accessors:
/// copy `src` into the front of `out` when it fits, and always report the
/// required size.
pub(crate) fn fill_from_bytes(src: &[u8], out: &mut Vec<u8>) -> (r: (i32, usize))
    ensures
        r.1 == src@.len(),
        final(out)@.len() == old(out)@.len(),
        if old(out)@.len() >= src@.len() {
            r.0 == RC_SUCCESS && final(out)@.take(src@.len() as int) == src@
        } else {
            r.0 == RC_INSUFFICIENT_BUFFER && final(out)@ == old(out)@
        },
{
    let n = src.len();
    if out.len() < n {
        return (RC_INSUFFICIENT_BUFFER, n);
    }
    let mut i: usize = 0;
    while i < n
        invariant
            i <= n,
            n == src@.len(),
            n <= out@.len(),
            out@.len() == old(out)@.len(),
            forall|j: int| 0 <= j < i ==> out@[j] == src@[j],
        decreases n - i,
    {
        out.set(i, src[i]);
        i += 1;
    }
    proof {
        assert(out@.take(src@.len() as int) =~= src@);
    }
    (RC_SUCCESS, n)
}

} // verus!
