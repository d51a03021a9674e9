use vstd::prelude::*;
use vstd::slice::slice_subrange;

use crate::be_bytes::lemma_u32_from_to_be;
use crate::be_bytes::push_u32_be;
use crate::be_bytes::read_u32_be;
use crate::be_bytes::u32_from_be;
use crate::be_bytes::u32_to_be;
use crate::error::DecodeError;

verus! {

/// The decoded payload of the header chunk: image dimensions and the core
/// format parameters. Each single-byte field with a closed code set keeps
/// unknown codes verbatim in an `Unrecognized` variant, so that decoding
/// and re-encoding reproduces out-of-spec bytes exactly.
#[derive(Debug, Clone, PartialEq, Eq, Hash)]
pub struct IhdrData {
    pub width: u32,
    pub height: u32,
    pub bit_depth: u8,
    pub color_type: ColorType,
    pub compression_method: CompressionMethod,
    pub filter_method: FilterMethod,
    pub interlace_method: InterlaceMethod,
}

/// Whether a header payload can be decoded from the front of `i`: the only
/// requirement is that its 13 fixed bytes are present. Out-of-range codes
/// never fail.
pub open spec fn ihdr_parse_ok(i: Seq<u8>) -> bool {
    i.len() >= 13
}

/// The header fields decoded from the first 13 bytes of `i`: width and
/// height as big-endian 32-bit numbers, then one byte each for bit depth,
/// color type, compression method, filter method and interlace method.
pub open spec fn ihdr_parse(i: Seq<u8>) -> IhdrData {
    IhdrData {
        width: u32_from_be(i.subrange(0, 4)),
        height: u32_from_be(i.subrange(4, 8)),
        bit_depth: i[8],
        color_type: spec_color_type_of(i[9]),
        compression_method: spec_compression_method_of(i[10]),
        filter_method: spec_filter_method_of(i[11]),
        interlace_method: spec_interlace_method_of(i[12]),
    }
}

impl IhdrData {
    /// The 13 bytes the header fields encode to, each enumeration mapped
    /// back to its numeric code.
    pub open spec fn serialized(self) -> Seq<u8> {
        u32_to_be(self.width) + u32_to_be(self.height) + seq![
            self.bit_depth,
            spec_color_type_code(self.color_type),
            spec_compression_method_code(self.compression_method),
            spec_filter_method_code(self.filter_method),
            spec_interlace_method_code(self.interlace_method),
        ]
    }

    /// The PNG legality table for the header fields, all conjunctive:
    /// dimensions in 1..=2^31; bit depth allowed for the color type
    /// (grayscale 1/2/4/8/16, true-color 8/16, indexed 1/2/4/8,
    /// grayscale-with-alpha 8/16, true-color-with-alpha 8/16, unrecognized
    /// never); compression deflate; filter adaptive; interlace none or
    /// Adam7.
    pub open spec fn valid(self) -> bool {
        &&& 1 <= self.width <= 0x8000_0000u32
        &&& 1 <= self.height <= 0x8000_0000u32
        &&& match self.color_type {
            ColorType::GreyScale => self.bit_depth == 1 || self.bit_depth == 2
                || self.bit_depth == 4 || self.bit_depth == 8 || self.bit_depth == 16,
            ColorType::RGB => self.bit_depth == 8 || self.bit_depth == 16,
            ColorType::Palette => self.bit_depth == 1 || self.bit_depth == 2
                || self.bit_depth == 4 || self.bit_depth == 8,
            ColorType::GreyScaleAlpha => self.bit_depth == 8 || self.bit_depth == 16,
            ColorType::RGBA => self.bit_depth == 8 || self.bit_depth == 16,
            ColorType::Unrecognized(_) => false,
        }
        &&& self.compression_method == CompressionMethod::Flate
        &&& self.filter_method == FilterMethod::Adaptive
        &&& (self.interlace_method == InterlaceMethod::NoInterlace
            || self.interlace_method == InterlaceMethod::Adam7)
    }

    /// Decodes exactly 13 bytes of header payload and returns the remaining
    /// bytes. Fails only when fewer than 13 bytes are available; an
    /// out-of-range enumeration code is preserved, never rejected.
    pub fn parse(i: &[u8]) -> (r: Result<(&[u8], IhdrData), DecodeError>)
        ensures
            match r {
                Ok((rest, d)) => {
                    &&& ihdr_parse_ok(i@)
                    &&& d == ihdr_parse(i@)
                    &&& rest@ == i@.skip(13)
                },
                Err(e) => !ihdr_parse_ok(i@) && e == DecodeError::IncompleteInput,
            },
    {
        if i.len() < 13 {
            return Err(DecodeError::IncompleteInput);
        }
        let width = read_u32_be(i, 0);
        let height = read_u32_be(i, 4);
        let bit_depth = i[8];
        let color_type = ColorType::from(i[9]);
        let compression_method = CompressionMethod::from(i[10]);
        let filter_method = FilterMethod::from(i[11]);
        let interlace_method = InterlaceMethod::from(i[12]);
        let rest = slice_subrange(i, 13, i.len());
        let d = IhdrData {
            width,
            height,
            bit_depth,
            color_type,
            compression_method,
            filter_method,
            interlace_method,
        };
        proof {
            assert(rest@ =~= i@.skip(13));
        }
        Ok((rest, d))
    }

    /// Encodes the header fields back to their 13 bytes: the byte-exact
    /// inverse of `parse`, unrecognized codes included.
    pub fn serialize(&self) -> (r: Vec<u8>)
        ensures
            r@ == self.serialized(),
    {
        let mut out: Vec<u8> = Vec::new();
        push_u32_be(&mut out, self.width);
        push_u32_be(&mut out, self.height);
        out.push(self.bit_depth);
        out.push(u8::from(self.color_type));
        out.push(u8::from(self.compression_method));
        out.push(u8::from(self.filter_method));
        out.push(u8::from(self.interlace_method));
        assert(out@ =~= self.serialized());
        out
    }

    /// Whether the fields satisfy the PNG legality table (`valid`); a
    /// boolean, not a partitioned reason.
    pub fn verify(&self) -> (r: bool)
        ensures
            r == self.valid(),
    {
        let width_valid = self.width >= 1 && self.width <= 0x8000_0000;
        let height_valid = self.height >= 1 && self.height <= 0x8000_0000;
        let bit_depth_valid = match self.color_type {
            ColorType::GreyScale => matches!(self.bit_depth, 1 | 2 | 4 | 8 | 16),
            ColorType::RGB => matches!(self.bit_depth, 8 | 16),
            ColorType::Palette => matches!(self.bit_depth, 1 | 2 | 4 | 8),
            ColorType::GreyScaleAlpha => matches!(self.bit_depth, 8 | 16),
            ColorType::RGBA => matches!(self.bit_depth, 8 | 16),
            ColorType::Unrecognized(_) => false,
        };
        let compression_method_valid = matches!(self.compression_method, CompressionMethod::Flate);
        let filter_method_valid = matches!(self.filter_method, FilterMethod::Adaptive);
        let interlace_method_valid = matches!(
            self.interlace_method,
            InterlaceMethod::NoInterlace | InterlaceMethod::Adam7
        );
        width_valid && height_valid && bit_depth_valid && compression_method_valid
            && filter_method_valid && interlace_method_valid
    }
}

/// Law: decoding any 13-byte buffer and re-encoding it gives the buffer
/// back, out-of-spec enumeration codes included.
pub proof fn lemma_ihdr_round_trip(h: Seq<u8>)
    requires
        h.len() == 13,
    ensures
        ihdr_parse(h).serialized() == h,
{
    lemma_u32_from_to_be(h.subrange(0, 4));
    lemma_u32_from_to_be(h.subrange(4, 8));
    lemma_color_type_bijection(h[9]);
    lemma_compression_method_bijection(h[10]);
    lemma_filter_method_bijection(h[11]);
    lemma_interlace_method_bijection(h[12]);
    assert(ihdr_parse(h).serialized() =~= h);
}

/// The color type a code byte denotes: 0 grayscale, 2 true-color,
/// 3 indexed, 4 grayscale-with-alpha, 6 true-color-with-alpha.
pub open spec fn spec_color_type_of(v: u8) -> ColorType {
    if v == 0 {
        ColorType::GreyScale
    } else if v == 2 {
        ColorType::RGB
    } else if v == 3 {
        ColorType::Palette
    } else if v == 4 {
        ColorType::GreyScaleAlpha
    } else if v == 6 {
        ColorType::RGBA
    } else {
        ColorType::Unrecognized(v)
    }
}

/// The code byte a color type encodes to.
pub open spec fn spec_color_type_code(c: ColorType) -> u8 {
    match c {
        ColorType::GreyScale => 0,
        ColorType::RGB => 2,
        ColorType::Palette => 3,
        ColorType::GreyScaleAlpha => 4,
        ColorType::RGBA => 6,
        ColorType::Unrecognized(x) => x,
    }
}

/// Law: converting any byte to a color type and back yields the byte.
pub proof fn lemma_color_type_bijection(v: u8)
    ensures
        spec_color_type_code(spec_color_type_of(v)) == v,
{
}

/// The color model of the image's pixels; unknown codes are carried
/// verbatim.
#[derive(Debug, Copy, Clone, Eq, PartialEq, Hash)]
pub enum ColorType {
    GreyScale,
    RGB,
    Palette,
    GreyScaleAlpha,
    RGBA,
    Unrecognized(u8),
}

impl core::convert::From<u8> for ColorType {
    fn from(v: u8) -> (r: Self) {
        if v == 0 {
            ColorType::GreyScale
        } else if v == 2 {
            ColorType::RGB
        } else if v == 3 {
            ColorType::Palette
        } else if v == 4 {
            ColorType::GreyScaleAlpha
        } else if v == 6 {
            ColorType::RGBA
        } else {
            ColorType::Unrecognized(v)
        }
    }
}

impl vstd::std_specs::convert::FromSpecImpl<u8> for ColorType {
    open spec fn obeys_from_spec() -> bool {
        true
    }

    open spec fn from_spec(v: u8) -> ColorType {
        spec_color_type_of(v)
    }
}

impl core::convert::From<ColorType> for u8 {
    fn from(v: ColorType) -> (r: Self) {
        match v {
            ColorType::GreyScale => 0,
            ColorType::RGB => 2,
            ColorType::Palette => 3,
            ColorType::GreyScaleAlpha => 4,
            ColorType::RGBA => 6,
            ColorType::Unrecognized(x) => x,
        }
    }
}

impl vstd::std_specs::convert::FromSpecImpl<ColorType> for u8 {
    open spec fn obeys_from_spec() -> bool {
        true
    }

    open spec fn from_spec(v: ColorType) -> u8 {
        spec_color_type_code(v)
    }
}

/// The compression method a code byte denotes: 0 deflate.
pub open spec fn spec_compression_method_of(v: u8) -> CompressionMethod {
    if v == 0 {
        CompressionMethod::Flate
    } else {
        CompressionMethod::Unrecognized(v)
    }
}

/// The code byte a compression method encodes to.
pub open spec fn spec_compression_method_code(c: CompressionMethod) -> u8 {
    match c {
        CompressionMethod::Flate => 0,
        CompressionMethod::Unrecognized(x) => x,
    }
}

/// Law: converting any byte to a compression method and back yields the
/// byte.
pub proof fn lemma_compression_method_bijection(v: u8)
    ensures
        spec_compression_method_code(spec_compression_method_of(v)) == v,
{
}

/// How the pixel data is compressed; the format knows only deflate.
#[derive(Debug, Copy, Clone, Eq, PartialEq, Hash)]
pub enum CompressionMethod {
    Flate,
    Unrecognized(u8),
}

impl core::convert::From<u8> for CompressionMethod {
    fn from(v: u8) -> (r: Self) {
        if v == 0 {
            CompressionMethod::Flate
        } else {
            CompressionMethod::Unrecognized(v)
        }
    }
}

impl vstd::std_specs::convert::FromSpecImpl<u8> for CompressionMethod {
    open spec fn obeys_from_spec() -> bool {
        true
    }

    open spec fn from_spec(v: u8) -> CompressionMethod {
        spec_compression_method_of(v)
    }
}

impl core::convert::From<CompressionMethod> for u8 {
    fn from(v: CompressionMethod) -> (r: Self) {
        match v {
            CompressionMethod::Flate => 0,
            CompressionMethod::Unrecognized(x) => x,
        }
    }
}

impl vstd::std_specs::convert::FromSpecImpl<CompressionMethod> for u8 {
    open spec fn obeys_from_spec() -> bool {
        true
    }

    open spec fn from_spec(v: CompressionMethod) -> u8 {
        spec_compression_method_code(v)
    }
}

/// The filter method a code byte denotes: 0 adaptive.
pub open spec fn spec_filter_method_of(v: u8) -> FilterMethod {
    if v == 0 {
        FilterMethod::Adaptive
    } else {
        FilterMethod::Unrecognized(v)
    }
}

/// The code byte a filter method encodes to.
pub open spec fn spec_filter_method_code(c: FilterMethod) -> u8 {
    match c {
        FilterMethod::Adaptive => 0,
        FilterMethod::Unrecognized(x) => x,
    }
}

/// Law: converting any byte to a filter method and back yields the byte.
pub proof fn lemma_filter_method_bijection(v: u8)
    ensures
        spec_filter_method_code(spec_filter_method_of(v)) == v,
{
}

/// How scanlines are filtered before compression; the format knows only
/// the adaptive scheme.
#[derive(Debug, Copy, Clone, Eq, PartialEq, Hash)]
pub enum FilterMethod {
    Adaptive,
    Unrecognized(u8),
}

impl core::convert::From<u8> for FilterMethod {
    fn from(v: u8) -> (r: Self) {
        if v == 0 {
            FilterMethod::Adaptive
        } else {
            FilterMethod::Unrecognized(v)
        }
    }
}

impl vstd::std_specs::convert::FromSpecImpl<u8> for FilterMethod {
    open spec fn obeys_from_spec() -> bool {
        true
    }

    open spec fn from_spec(v: u8) -> FilterMethod {
        spec_filter_method_of(v)
    }
}

impl core::convert::From<FilterMethod> for u8 {
    fn from(v: FilterMethod) -> (r: Self) {
        match v {
            FilterMethod::Adaptive => 0,
            FilterMethod::Unrecognized(x) => x,
        }
    }
}

impl vstd::std_specs::convert::FromSpecImpl<FilterMethod> for u8 {
    open spec fn obeys_from_spec() -> bool {
        true
    }

    open spec fn from_spec(v: FilterMethod) -> u8 {
        spec_filter_method_code(v)
    }
}

/// The interlace method a code byte denotes: 0 none, 1 Adam7.
pub open spec fn spec_interlace_method_of(v: u8) -> InterlaceMethod {
    if v == 0 {
        InterlaceMethod::NoInterlace
    } else if v == 1 {
        InterlaceMethod::Adam7
    } else {
        InterlaceMethod::Unrecognized(v)
    }
}

/// The code byte an interlace method encodes to.
pub open spec fn spec_interlace_method_code(c: InterlaceMethod) -> u8 {
    match c {
        InterlaceMethod::NoInterlace => 0,
        InterlaceMethod::Adam7 => 1,
        InterlaceMethod::Unrecognized(x) => x,
    }
}

/// Law: converting any byte to an interlace method and back yields the
/// byte.
pub proof fn lemma_interlace_method_bijection(v: u8)
    ensures
        spec_interlace_method_code(spec_interlace_method_of(v)) == v,
{
}

/// How the image's scanlines are ordered in the stream.
#[derive(Debug, Copy, Clone, Eq, PartialEq, Hash)]
pub enum InterlaceMethod {
    NoInterlace,
    Adam7,
    Unrecognized(u8),
}

impl core::convert::From<u8> for InterlaceMethod {
    fn from(v: u8) -> (r: Self) {
        if v == 0 {
            InterlaceMethod::NoInterlace
        } else if v == 1 {
            InterlaceMethod::Adam7
        } else {
            InterlaceMethod::Unrecognized(v)
        }
    }
}

impl vstd::std_specs::convert::FromSpecImpl<u8> for InterlaceMethod {
    open spec fn obeys_from_spec() -> bool {
        true
    }

    open spec fn from_spec(v: u8) -> InterlaceMethod {
        spec_interlace_method_of(v)
    }
}

impl core::convert::From<InterlaceMethod> for u8 {
    fn from(v: InterlaceMethod) -> (r: Self) {
        match v {
            InterlaceMethod::NoInterlace => 0,
            InterlaceMethod::Adam7 => 1,
            InterlaceMethod::Unrecognized(x) => x,
        }
    }
}

impl vstd::std_specs::convert::FromSpecImpl<InterlaceMethod> for u8 {
    open spec fn obeys_from_spec() -> bool {
        true
    }

    open spec fn from_spec(v: InterlaceMethod) -> u8 {
        spec_interlace_method_code(v)
    }
}

} // verus!
