//! The byte-source port of the streaming finder: a sequential source that
//! exposes only "read the next chunk", as a file, socket or in-memory cursor
//! does. Callers outside the library implement it by delegating to their own
//! reader; the contract below is what the finder's proofs rely on.

use vstd::prelude::*;

verus! {

/// Declares `std::io::Error` so read failures can be carried through the
/// library unchanged; the value is opaque here.
#[verifier::external_type_specification]
#[verifier::external_body]
pub struct ExIoError(std::io::Error);

/// A sequential byte source of finite, possibly unknown, length.
///
/// This is the streaming finder's only connection to the outside world.
/// Implementations live outside the library (wrapping a reader); the finder
/// is verified against this contract alone, so it holds for whatever bytes a
/// source delivers:
/// - a successful read writes only into `buf[start..start + n]` and reports
///   `n`, never exceeding the space offered;
/// - each successfully read byte consumes the source's remaining supply,
///   which callers bound at construction so that every absolute position
///   fits in a `usize`.
pub trait ByteSource {
    /// How many bytes the source can still deliver. The default is a
    /// placeholder so that implementations outside the library need not
    /// name it; each source is read against the contract below, under
    /// whichever value fits its actual supply.
    open spec fn stream_remaining(&self) -> nat {
        0
    }

    /// Reads some bytes into `buf[start..]`, returning how many were
    /// written, or a read error. Returning `Ok(0)` signals that the source
    /// is drained.
    fn read_into(&mut self, buf: &mut Vec<u8>, start: usize) -> (r: Result<usize, std::io::Error>)
        requires
            start <= old(buf)@.len(),
        ensures
            final(buf)@.len() == old(buf)@.len(),
            forall|t: int| 0 <= t < start ==> final(buf)@[t] == old(buf)@[t],
            match r {
                Ok(n) => {
                    &&& start + n <= old(buf)@.len()
                    &&& n <= old(self).stream_remaining()
                    &&& final(self).stream_remaining() == old(self).stream_remaining() - n
                    &&& forall|t: int|
                        start + n <= t < old(buf)@.len() ==> final(buf)@[t] == old(buf)@[t]
                },
                Err(_) => {
                    &&& final(buf)@ == old(buf)@
                    &&& final(self).stream_remaining() <= old(self).stream_remaining()
                },
            },
    ;
}

} // verus!
