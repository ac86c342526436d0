//! The unit that opens a coded video sequence.
use super::{ObuContext, ObuError};
use crate::buffer::Buffer;
use vstd::prelude::*;

verus! {

/// A sequence header that was met in the stream. Its fields are not decoded:
/// the payload stays in the bytes, for the caller to pass over.
#[derive(Debug, Clone, Copy, PartialEq, Eq, Structural)]
pub struct SequenceHeader {}

impl SequenceHeader {
    /// Takes note in `ctx` that the stream has a sequence header, which lets
    /// the frames that follow be decoded. Reads nothing from `buf` and always
    /// succeeds.
    pub fn decode(ctx: &mut ObuContext, buf: &mut Buffer<'_>) -> (r: Result<Self, ObuError>)
        ensures
            r == Ok::<Self, ObuError>(SequenceHeader {  }),
            *final(ctx) == (ObuContext { sequence_header: Some(SequenceHeader {  }), ..*old(ctx) }),
            final(buf)@ == old(buf)@,
    {
        let header = SequenceHeader {  };
        ctx.sequence_header = Some(header);
        Ok(header)
    }
}

} // verus!
