use vstd::prelude::*;

pub mod cipher;
pub mod datagram;
pub mod stream;

verus! {

/// Why a decode operation gave up. Any of these ends the session or drops
/// the packet; none is retryable.
#[derive(Clone, Copy, Debug, PartialEq, Eq, Structural)]
pub enum CodecError {
    /// An authentication tag did not match: tampering or a wrong key.
    AuthFailed,
    /// A chunk claimed a length above `MAX_PACKET_SIZE`.
    InvalidData,
    /// The source ended in the middle of a unit.
    Truncated,
    /// The source ended exactly at a chunk boundary: clean termination.
    CleanEof,
    /// A datagram packet too short to hold a salt and a tag.
    TooShort,
}

/// Largest payload a single stream chunk may carry: the length field is a
/// 16-bit big-endian integer whose top two bits are reserved and must be
/// zero, so only the low 14 bits carry the true length.
pub const MAX_PACKET_SIZE: usize = 0x3FFF;

/// Exact number of output bytes a stream chunk occupies on the wire for a
/// given payload: an encrypted 2-byte length field with its tag, followed by
/// the encrypted payload with its tag. Both codec paths size buffers with
/// this single formula.
pub fn buffer_size(tag_size: usize, data: &[u8]) -> (r: usize)
    requires
        2 + tag_size + data@.len() + tag_size <= usize::MAX,
    ensures
        r == 2 + tag_size + data@.len() + tag_size,
{
    2 + tag_size + data.len() + tag_size
}

} // verus!
