//! The unit that carries a frame header together with its tile data.
use super::{ObuContext, ObuError};
use crate::buffer::Buffer;
use vstd::prelude::*;

verus! {

/// A frame that was met in the stream. Its fields are not decoded: the
/// payload stays in the bytes, for the caller to pass over.
#[derive(Debug, Clone, Copy, PartialEq, Eq, Structural)]
pub struct Frame {}

impl Frame {
    /// Accepts a frame where the stream has had a sequence header, and
    /// refuses it where it has had none. Reads nothing from `buf` and leaves
    /// `ctx` as it is.
    pub fn decode(ctx: &mut ObuContext, buf: &mut Buffer<'_>) -> (r: Result<Self, ObuError>)
        ensures
            old(ctx).sequence_header is Some ==> r == Ok::<Self, ObuError>(Frame {  }),
            old(ctx).sequence_header is None ==> r == Err::<Self, ObuError>(
                ObuError::NotFoundSequenceHeader,
            ),
            *final(ctx) == *old(ctx),
            final(buf)@ == old(buf)@,
    {
        if ctx.sequence_header.is_none() {
            Err(ObuError::NotFoundSequenceHeader)
        } else {
            Ok(Frame {  })
        }
    }
}

} // verus!
