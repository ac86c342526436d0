//! Open Bitstream Units: their header syntax, the state kept between units,
//! and the parser that routes each unit to its decoder.
pub mod frame;
pub mod frame_header;
pub mod sequence_header;

use self::frame::Frame;
use self::frame_header::FrameType;
use self::sequence_header::SequenceHeader;
use crate::buffer::{
    bit_at, bits_value, leb128, lemma_bits_value_bound, lemma_leb128_within, BitCursor, Buffer,
    LEB128_MAX_GROUPS,
};
use vstd::arithmetic::power2::lemma2_to64;
use vstd::prelude::*;
use vstd::std_specs::convert::TryFromSpecImpl;

verus! {

/// The field whose value lies outside the set that its syntax defines.
#[derive(Debug, Clone, Copy, PartialEq, Eq, Structural)]
pub enum ObuUnknownError {
    ObuHeaderType,
    Profile,
    ColorPrimaries,
    TransferCharacteristics,
    MatrixCoefficients,
    ChromaSamplePosition,
    MetadataType,
    ScalabilityModeIdc,
    FrameType,
    InterpolationFilter,
    FrameTypeRefIndex,
}

/// Why the decoding of a unit was abandoned.
#[derive(Debug, Clone, Copy, PartialEq, Eq, Structural)]
pub enum ObuError {
    /// A field holds a value that its syntax does not define, or that this
    /// parser has no decoder for.
    Unknown(ObuUnknownError),
    /// A frame arrived before any sequence header.
    NotFoundSequenceHeader,
    /// A read or a seek would leave the byte window.
    OutOfBounds,
}

/// The kind of a unit, as the four-bit code in its header names it.
#[derive(Debug, Clone, Copy, PartialEq, Eq, Structural)]
pub enum ObuType {
    /// A code that the syntax reserves; the code is kept.
    Reserved(u8),
    SequenceHeader,
    /// A temporal delimiter has an empty payload.
    TemporalDelimiter,
    FrameHeader,
    TileGroup,
    Metadata,
    Frame,
    RedundantFrameHeader,
    TileList,
    /// Padding is meant to be skipped by its size.
    Padding,
}

impl ObuType {
    /// The kind that a code from 0 to 15 names.
    pub open spec fn of_code(code: u8) -> ObuType {
        if code == 1 {
            ObuType::SequenceHeader
        } else if code == 2 {
            ObuType::TemporalDelimiter
        } else if code == 3 {
            ObuType::FrameHeader
        } else if code == 4 {
            ObuType::TileGroup
        } else if code == 5 {
            ObuType::Metadata
        } else if code == 6 {
            ObuType::Frame
        } else if code == 7 {
            ObuType::RedundantFrameHeader
        } else if code == 8 {
            ObuType::TileList
        } else if code == 15 {
            ObuType::Padding
        } else {
            ObuType::Reserved(code)
        }
    }
}

impl TryFrom<u8> for ObuType {
    type Error = ObuError;

    /// The kind that `value` names; a value above 15 names none.
    fn try_from(value: u8) -> (r: Result<Self, ObuError>) {
        Ok(
            match value {
                0 | 9..=14 => Self::Reserved(value),
                1 => Self::SequenceHeader,
                2 => Self::TemporalDelimiter,
                3 => Self::FrameHeader,
                4 => Self::TileGroup,
                5 => Self::Metadata,
                6 => Self::Frame,
                7 => Self::RedundantFrameHeader,
                8 => Self::TileList,
                15 => Self::Padding,
                _ => return Err(ObuError::Unknown(ObuUnknownError::ObuHeaderType)),
            },
        )
    }
}

impl TryFromSpecImpl<u8> for ObuType {
    open spec fn obeys_try_from_spec() -> bool {
        true
    }

    open spec fn try_from_spec(v: u8) -> Result<Self, ObuError> {
        if v <= 15 {
            Ok(ObuType::of_code(v))
        } else {
            Err(ObuError::Unknown(ObuUnknownError::ObuHeaderType))
        }
    }
}

/// The layers that a unit belongs to, from the optional second byte of its
/// header.
#[derive(Debug, Clone, Copy, PartialEq, Eq, Structural)]
pub struct ObuHeaderExtension {
    pub temporal_id: u8,
    pub spatial_id: u8,
}

impl ObuHeaderExtension {
    /// Each identifier fits the width of its field: three bits and two.
    pub open spec fn wf(self) -> bool {
        self.temporal_id <= 7 && self.spatial_id <= 3
    }

    /// The extension that the eight bits from bit index `pos` spell: three
    /// bits of temporal identifier, two of spatial identifier, three unused.
    pub open spec fn at(bytes: Seq<u8>, pos: int) -> ObuHeaderExtension {
        ObuHeaderExtension {
            temporal_id: bits_value(bytes, pos, 3) as u8,
            spatial_id: bits_value(bytes, pos + 3, 2) as u8,
        }
    }

    /// Reads the extension byte of a header. Where fewer than eight bits are
    /// left, nothing is read and the cursor stays.
    pub fn decode(buf: &mut Buffer<'_>) -> (r: Result<Self, ObuError>)
        ensures
            final(buf)@.wf(),
            match r {
                Ok(ext) => 8 <= old(buf)@.remaining() && ext.wf() && ext == Self::at(
                    old(buf)@.bytes,
                    old(buf)@.position as int,
                ) && final(buf)@ == old(buf)@.moved(8),
                Err(e) => e == ObuError::OutOfBounds && old(buf)@.remaining() < 8 && final(buf)@
                    == old(buf)@,
            },
    {
        let entry = *buf;
        proof {
            lemma_bits_value_bound(buf@.bytes, buf@.position as int, 3);
            lemma_bits_value_bound(buf@.bytes, buf@.position as int + 3, 2);
            lemma2_to64();
        }
        let temporal_id = match buf.get_bits(3) {
            Ok(v) => v as u8,
            Err(e) => {
                return Err(e);
            },
        };
        let spatial_id = match buf.get_bits(2) {
            Ok(v) => v as u8,
            Err(e) => {
                *buf = entry;
                return Err(e);
            },
        };
        match buf.seek_bits(3) {
            Ok(_) => Ok(Self { temporal_id, spatial_id }),
            Err(e) => {
                *buf = entry;
                Err(e)
            },
        }
    }
}

/// The header of a unit: its kind, whether a size field follows, and the
/// layers it belongs to where it names them.
#[derive(Debug, Clone, Copy, PartialEq, Eq, Structural)]
pub struct ObuHeader {
    pub obu_type: ObuType,
    pub has_size: bool,
    pub extension: Option<ObuHeaderExtension>,
}

impl ObuHeader {
    /// The number of bits of the header that starts at bit index `pos`:
    /// eight, and eight more where the extension flag is set.
    pub open spec fn bits_at(bytes: Seq<u8>, pos: int) -> nat {
        if bit_at(bytes, pos + 5) {
            16
        } else {
            8
        }
    }

    /// Whether the whole header that starts at bit index `pos` lies within
    /// `bytes`.
    pub open spec fn complete_at(bytes: Seq<u8>, pos: int) -> bool {
        pos + 8 <= 8 * bytes.len() && pos + Self::bits_at(bytes, pos) <= 8 * bytes.len()
    }

    /// The header that the bits from bit index `pos` spell: one forbidden
    /// bit that is not looked at, four bits of type code, the extension
    /// flag, the size flag, one unused bit, and the extension byte where the
    /// extension flag is set.
    pub open spec fn at(bytes: Seq<u8>, pos: int) -> ObuHeader {
        ObuHeader {
            obu_type: ObuType::of_code(bits_value(bytes, pos + 1, 4) as u8),
            has_size: bit_at(bytes, pos + 6),
            extension: if bit_at(bytes, pos + 5) {
                Some(ObuHeaderExtension::at(bytes, pos + 8))
            } else {
                None
            },
        }
    }

    /// Every identifier of the extension, where there is one, fits its field.
    pub open spec fn wf(self) -> bool {
        self.extension matches Some(ext) ==> ext.wf()
    }

    /// Reads the header of a unit: one byte, or two with the extension. A
    /// set forbidden bit is passed over without complaint. Where the bytes
    /// end within the header, nothing is read and the cursor stays.
    pub fn decode(buf: &mut Buffer<'_>) -> (r: Result<Self, ObuError>)
        ensures
            final(buf)@.wf(),
            match r {
                Ok(header) => Self::complete_at(old(buf)@.bytes, old(buf)@.position as int)
                    && header.wf() && header == Self::at(
                    old(buf)@.bytes,
                    old(buf)@.position as int,
                ) && final(buf)@ == old(buf)@.moved(
                    Self::bits_at(old(buf)@.bytes, old(buf)@.position as int) as int,
                ),
                Err(e) => e == ObuError::OutOfBounds && !Self::complete_at(
                    old(buf)@.bytes,
                    old(buf)@.position as int,
                ) && final(buf)@ == old(buf)@,
            },
    {
        let entry = *buf;
        proof {
            lemma_bits_value_bound(buf@.bytes, buf@.position as int + 1, 4);
            lemma2_to64();
        }
        // The forbidden bit.
        match buf.seek_bits(1) {
            Ok(_) => {},
            Err(e) => {
                return Err(e);
            },
        }
        let code = match buf.get_bits(4) {
            Ok(v) => v as u8,
            Err(e) => {
                *buf = entry;
                return Err(e);
            },
        };
        let obu_type = match ObuType::try_from(code) {
            Ok(t) => t,
            Err(e) => {
                *buf = entry;
                return Err(e);
            },
        };
        let extension_flag = match buf.get_bit() {
            Ok(b) => b,
            Err(e) => {
                *buf = entry;
                return Err(e);
            },
        };
        let has_size = match buf.get_bit() {
            Ok(b) => b,
            Err(e) => {
                *buf = entry;
                return Err(e);
            },
        };
        // The reserved bit.
        match buf.seek_bits(1) {
            Ok(_) => {},
            Err(e) => {
                *buf = entry;
                return Err(e);
            },
        }
        let extension = if extension_flag {
            match ObuHeaderExtension::decode(buf) {
                Ok(ext) => Some(ext),
                Err(e) => {
                    *buf = entry;
                    return Err(e);
                },
            }
        } else {
            None
        };
        Ok(Self { obu_type, has_size, extension })
    }
}

/// What the parser remembers from one unit of a stream to the next.
#[derive(Debug)]
pub struct ObuContext {
    /// The sequence header, once the stream has had one.
    pub sequence_header: Option<SequenceHeader>,
    /// The header extension of the last decoded unit that carried one.
    pub obu_header_extension: Option<ObuHeaderExtension>,
    pub num_planes: u8,
    pub seen_frame_header: bool,
    pub frame_is_intra: bool,
    pub order_hint: u32,
    pub frame_width: u16,
    pub frame_height: u16,
    pub superres_denom: u8,
    pub upscaled_width: u16,
    pub mi_cols: u32,
    pub mi_rows: u32,
    pub render_width: u16,
    pub render_height: u16,
    pub delta_frame_id: u32,
    pub bit_depth: u8,
    pub order_hint_bits: usize,
    pub operating_point: usize,
    /// The layers to decode, one bit each: bits 0 to 7 for the temporal
    /// layers, bits 8 to 11 for the spatial ones. Zero selects every unit.
    pub operating_point_idc: u16,
    /// The kind of the frame last stored in each reference slot.
    pub frame_type_refs: Vec<FrameType>,
}

impl ObuContext {
    /// The context of a stream of which nothing has been seen.
    pub open spec fn is_initial(self) -> bool {
        &&& self.sequence_header is None
        &&& self.obu_header_extension is None
        &&& self.num_planes == 0
        &&& !self.seen_frame_header
        &&& !self.frame_is_intra
        &&& self.order_hint == 0
        &&& self.frame_width == 0
        &&& self.frame_height == 0
        &&& self.superres_denom == 0
        &&& self.upscaled_width == 0
        &&& self.mi_cols == 0
        &&& self.mi_rows == 0
        &&& self.render_width == 0
        &&& self.render_height == 0
        &&& self.delta_frame_id == 0
        &&& self.bit_depth == 0
        &&& self.order_hint_bits == 0
        &&& self.operating_point == 0
        &&& self.operating_point_idc == 0
        &&& self.frame_type_refs@ == Seq::<FrameType>::empty()
    }
}

impl Default for ObuContext {
    fn default() -> (ctx: Self)
        ensures
            ctx.is_initial(),
    {
        ObuContext {
            sequence_header: None,
            obu_header_extension: None,
            num_planes: 0,
            seen_frame_header: false,
            frame_is_intra: false,
            order_hint: 0,
            frame_width: 0,
            frame_height: 0,
            superres_denom: 0,
            upscaled_width: 0,
            mi_cols: 0,
            mi_rows: 0,
            render_width: 0,
            render_height: 0,
            delta_frame_id: 0,
            bit_depth: 0,
            order_hint_bits: 0,
            operating_point: 0,
            operating_point_idc: 0,
            frame_type_refs: Vec::new(),
        }
    }
}

/// Whether bit `k` of `mask` is set, bit 0 being the least significant. A
/// mask of sixteen bits has no bit set from 16 on.
pub open spec fn bit_is_set(mask: u16, k: int) -> bool {
    0 <= k < 16 && (mask >> (k as u16)) & 1 == 1
}

/// Whether bit `k` of `mask` is set.
fn has_bit(mask: u16, k: u16) -> (r: bool)
    ensures
        r == bit_is_set(mask, k as int),
{
    k < 16 && (mask >> k) & 1 == 1
}

impl ObuHeader {
    /// Whether a unit with this header lies outside the layers that
    /// `operating_point_idc` selects, and is therefore passed over. That can
    /// only be so where the selection is not zero, the header carries an
    /// extension, and the unit is neither a sequence header nor a temporal
    /// delimiter. The unit is then outside where bit `temporal_id` of the
    /// selection is clear, or bit `spatial_id + 8` is.
    pub open spec fn is_filtered_out(self, operating_point_idc: u16) -> bool {
        &&& self.obu_type != ObuType::SequenceHeader
        &&& self.obu_type != ObuType::TemporalDelimiter
        &&& operating_point_idc != 0
        &&& self.extension matches Some(ext)
        &&& !(bit_is_set(operating_point_idc, ext.temporal_id as int) && bit_is_set(
            operating_point_idc,
            ext.spatial_id + 8,
        ))
    }

    /// Decides whether the layer filter passes over a unit with this header.
    pub fn filtered_out(&self, operating_point_idc: u16) -> (r: bool)
        ensures
            r == self.is_filtered_out(operating_point_idc),
            operating_point_idc == 0 ==> !r,
            self.extension is None ==> !r,
            self.obu_type == ObuType::SequenceHeader || self.obu_type == ObuType::TemporalDelimiter
                ==> !r,
    {
        match self.obu_type {
            ObuType::SequenceHeader | ObuType::TemporalDelimiter => false,
            _ => match self.extension {
                Some(ext) => operating_point_idc != 0 && !(has_bit(
                    operating_point_idc,
                    ext.temporal_id as u16,
                ) && has_bit(operating_point_idc, ext.spatial_id as u16 + 8)),
                None => false,
            },
        }
    }
}

/// What stands before the payload of the unit at the cursor `c`: its header,
/// its size in bytes where the header announces a size field, and the number
/// of bits that the two take together. `None` where the bytes end within the
/// header or the size field.
pub open spec fn unit_start(c: BitCursor) -> Option<(ObuHeader, Option<nat>, nat)> {
    let pos = c.position as int;
    let header = ObuHeader::at(c.bytes, pos);
    let header_bits = ObuHeader::bits_at(c.bytes, pos);
    if !ObuHeader::complete_at(c.bytes, pos) {
        None
    } else if !header.has_size {
        Some((header, None, header_bits))
    } else {
        match leb128(c.bytes, pos + header_bits, LEB128_MAX_GROUPS as nat) {
            Some((size, groups)) => Some((header, Some(size), header_bits + 8 * groups)),
            None => None,
        }
    }
}

/// Reads the header of a unit and, where the header announces one, the size
/// of its payload in bytes. Afterwards the cursor stands at the first bit of
/// the payload. Where the bytes end before that, nothing is read and the
/// cursor stays.
pub fn decode_unit_start(buf: &mut Buffer<'_>) -> (r: Result<(ObuHeader, Option<u64>), ObuError>)
    ensures
        final(buf)@.wf(),
        match r {
            Ok((header, size)) => unit_start(old(buf)@) matches Some((h, s, bits)) && header == h
                && header.wf() && (match size {
                Some(v) => s == Some(v as nat),
                None => s is None,
            }) && final(buf)@ == old(buf)@.moved(bits as int),
            Err(e) => e == ObuError::OutOfBounds && unit_start(old(buf)@) is None && final(buf)@
                == old(buf)@,
        },
{
    let entry = *buf;
    let header = match ObuHeader::decode(buf) {
        Ok(header) => header,
        Err(e) => {
            return Err(e);
        },
    };
    let size = if header.has_size {
        match buf.get_leb128() {
            Ok(v) => Some(v),
            Err(e) => {
                *buf = entry;
                return Err(e);
            },
        }
    } else {
        None
    };
    Ok((header, size))
}

/// What the parser makes of one unit.
#[derive(Debug, Clone, Copy, PartialEq, Eq, Structural)]
pub enum Obu {
    SequenceHeader(SequenceHeader),
    Frame(Frame),
    TemporalDelimiter,
    /// The unit lies outside the selected layers and was passed over.
    Drop,
}

impl ObuContext {
    /// This context after a unit with the extension `extension` has been
    /// taken in: an extension that is there replaces the one kept so far.
    pub open spec fn with_extension(self, extension: Option<ObuHeaderExtension>) -> ObuContext {
        if extension is Some {
            ObuContext { obu_header_extension: extension, ..self }
        } else {
            self
        }
    }
}

/// The parser of one stream of units, with what it remembers between them.
pub struct ObuParser {
    pub ctx: ObuContext,
}

impl Default for ObuParser {
    fn default() -> (parser: Self)
        ensures
            parser.ctx.is_initial(),
    {
        ObuParser { ctx: ObuContext::default() }
    }
}

impl ObuParser {
    /// What parsing the unit at the cursor `c` gives in the context `ctx`:
    /// the result, the context afterwards and the cursor afterwards.
    ///
    /// Where the bytes end within the header or the size field, the result is
    /// `OutOfBounds`. A unit outside the selected layers gives `Drop`, with
    /// the cursor at its payload and the context untouched. Otherwise the
    /// kind decides: a temporal delimiter gives itself; a sequence header is
    /// noted in the context; a frame needs a sequence header in the context
    /// and gives `NotFoundSequenceHeader` without one; every other kind has no
    /// decoder and gives `Unknown(ObuHeaderType)`. A unit that is decoded
    /// leaves the cursor at its payload and its extension, where it has one,
    /// in the context. An error leaves cursor and context as they were.
    pub open spec fn outcome(ctx: ObuContext, c: BitCursor) -> (
        Result<Obu, ObuError>,
        ObuContext,
        BitCursor,
    ) {
        match unit_start(c) {
            None => (Err(ObuError::OutOfBounds), ctx, c),
            Some((header, _, bits)) => {
                let taken = ctx.with_extension(header.extension);
                if header.is_filtered_out(ctx.operating_point_idc) {
                    (Ok(Obu::Drop), ctx, c.moved(bits as int))
                } else {
                    match header.obu_type {
                        ObuType::TemporalDelimiter => (
                            Ok(Obu::TemporalDelimiter),
                            taken,
                            c.moved(bits as int),
                        ),
                        ObuType::SequenceHeader => (
                            Ok(Obu::SequenceHeader(SequenceHeader {  })),
                            ObuContext { sequence_header: Some(SequenceHeader {  }), ..taken },
                            c.moved(bits as int),
                        ),
                        ObuType::Frame => if ctx.sequence_header is Some {
                            (Ok(Obu::Frame(Frame {  })), taken, c.moved(bits as int))
                        } else {
                            (Err(ObuError::NotFoundSequenceHeader), ctx, c)
                        },
                        _ => (Err(ObuError::Unknown(ObuUnknownError::ObuHeaderType)), ctx, c),
                    }
                }
            },
        }
    }

    /// Parses the unit at the cursor: reads its header and size, passes over
    /// it where it lies outside the selected layers, and otherwise hands it
    /// to the decoder of its kind.
    pub fn parse(&mut self, buf: &mut Buffer<'_>) -> (r: Result<Obu, ObuError>)
        ensures
            final(buf)@.wf(),
            (r, final(self).ctx, final(buf)@) == Self::outcome(old(self).ctx, old(buf)@),
            old(self).ctx.operating_point_idc == 0 ==> r != Ok::<Obu, ObuError>(Obu::Drop),
            r is Err ==> final(buf)@ == old(buf)@ && final(self).ctx == old(self).ctx,
            final(buf)@.bytes == old(buf)@.bytes,
            final(buf)@.position >= old(buf)@.position,
    {
        let entry = *buf;
        let (header, _) = match decode_unit_start(buf) {
            Ok(start) => start,
            Err(e) => {
                return Err(e);
            },
        };
        if header.filtered_out(self.ctx.operating_point_idc) {
            return Ok(Obu::Drop);
        }
        let kept = self.ctx.obu_header_extension;
        if header.extension.is_some() {
            self.ctx.obu_header_extension = header.extension;
        }
        let decoded = match header.obu_type {
            ObuType::SequenceHeader => match SequenceHeader::decode(&mut self.ctx, buf) {
                Ok(sequence_header) => Ok(Obu::SequenceHeader(sequence_header)),
                Err(e) => Err(e),
            },
            ObuType::Frame => match Frame::decode(&mut self.ctx, buf) {
                Ok(frame) => Ok(Obu::Frame(frame)),
                Err(e) => Err(e),
            },
            ObuType::TemporalDelimiter => Ok(Obu::TemporalDelimiter),
            _ => Err(ObuError::Unknown(ObuUnknownError::ObuHeaderType)),
        };
        if decoded.is_err() {
            self.ctx.obu_header_extension = kept;
            *buf = entry;
        }
        decoded
    }
}

/// With the selection at zero no unit is passed over, whatever its header
/// and its extension hold.
pub proof fn lemma_zero_selects_every_unit(ctx: ObuContext, c: BitCursor)
    requires
        ctx.operating_point_idc == 0,
    ensures
        ObuParser::outcome(ctx, c).0 != Ok::<Obu, ObuError>(Obu::Drop),
{
}

/// Sequence headers and temporal delimiters are never passed over, whatever
/// the selection, and neither is a unit without an extension.
pub proof fn lemma_never_filtered(header: ObuHeader, operating_point_idc: u16)
    requires
        header.obu_type == ObuType::SequenceHeader || header.obu_type == ObuType::TemporalDelimiter
            || header.extension is None,
    ensures
        !header.is_filtered_out(operating_point_idc),
{
}

/// What stands before the payload of a unit lies within the bytes, and takes
/// between one byte and ten.
pub proof fn lemma_unit_start_within(c: BitCursor)
    requires
        c.wf(),
        unit_start(c) is Some,
    ensures
        8 <= unit_start(c).unwrap().2 <= 80,
        unit_start(c).unwrap().2 <= c.remaining(),
{
    let pos = c.position as int;
    let header_bits = ObuHeader::bits_at(c.bytes, pos);
    if ObuHeader::at(c.bytes, pos).has_size {
        lemma_leb128_within(c.bytes, pos + header_bits, 8);
    }
}

/// Parsing never moves the cursor backwards, never leaves the bytes, and
/// never changes them. A unit that fails leaves cursor and context as they
/// were, and a unit that is passed over leaves the context as it was.
pub proof fn lemma_outcome_keeps_cursor_valid(ctx: ObuContext, c: BitCursor)
    requires
        c.wf(),
    ensures
        ({
            let (result, after_ctx, after) = ObuParser::outcome(ctx, c);
            &&& after.wf()
            &&& after.bytes == c.bytes
            &&& after.position >= c.position
            &&& result is Err ==> after == c && after_ctx == ctx
            &&& result == Ok::<Obu, ObuError>(Obu::Drop) ==> after_ctx == ctx
        }),
{
    if unit_start(c) is Some {
        lemma_unit_start_within(c);
    }
}

} // verus!
