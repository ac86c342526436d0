//! Demuxing front-end for AV1 bitstreams: a bit-granular cursor over a byte
//! window, the decoding of Open Bitstream Unit headers, and the parser that
//! routes each unit according to its type and the selected operating point.
pub mod buffer;
pub mod obu;
