//! The PNG sample formats the engine accepts, and how their pixels are laid
//! out in a decoded row.

use vstd::prelude::*;

use crate::text::{decimal_text, push_decimal};

verus! {

/// PNG color type of a decoded image.
#[derive(Clone, Copy, Debug, PartialEq, Eq, Structural)]
pub enum ColorType {
    Grayscale,
    Rgb,
    Indexed,
    GrayscaleAlpha,
    Rgba,
}

/// PNG bits per sample.
#[derive(Clone, Copy, Debug, PartialEq, Eq, Structural)]
pub enum BitDepth {
    One,
    Two,
    Four,
    Eight,
    Sixteen,
}

/// Samples per pixel of a color type.
pub open spec fn spec_samples(color: ColorType) -> nat {
    match color {
        ColorType::Grayscale => 1,
        ColorType::Rgb => 3,
        ColorType::Indexed => 1,
        ColorType::GrayscaleAlpha => 2,
        ColorType::Rgba => 4,
    }
}

/// Samples per pixel of a color type.
pub fn samples(color: ColorType) -> (count: usize)
    ensures
        count == spec_samples(color),
{
    match color {
        ColorType::Grayscale => 1,
        ColorType::Rgb => 3,
        ColorType::Indexed => 1,
        ColorType::GrayscaleAlpha => 2,
        ColorType::Rgba => 4,
    }
}

/// Whether the color type carries an explicit alpha sample (the last one).
pub fn has_alpha(color: ColorType) -> (alpha: bool)
    ensures
        alpha == (color == ColorType::GrayscaleAlpha || color == ColorType::Rgba),
{
    match color {
        ColorType::GrayscaleAlpha | ColorType::Rgba => true,
        _ => false,
    }
}

/// Header facts that decide whether an image can be corrected.
#[derive(Clone, Copy, Debug, PartialEq, Eq, Structural)]
pub struct PngHeader {
    pub width: u32,
    pub height: u32,
    pub interlaced: bool,
    pub animated: bool,
    pub bit_depth: BitDepth,
    pub color_type: ColorType,
    /// A `tRNS` transparency chunk is present.
    pub has_trns: bool,
}

/// Why a PNG cannot be corrected.
#[derive(Clone, Copy, Debug, PartialEq, Eq, Structural)]
pub enum PngFormatError {
    Interlaced,
    Animated,
    UnsupportedDepth,
    Indexed,
    Transparency,
}

/// The explanation reported for each refused PNG.
pub open spec fn png_error_text(error: PngFormatError) -> Seq<char> {
    match error {
        PngFormatError::Interlaced => "interlaced PNGs are not supported"@,
        PngFormatError::Animated => "animated PNGs are not supported"@,
        PngFormatError::UnsupportedDepth => "only 8-bit and 16-bit-per-channel PNG samples are supported"@,
        PngFormatError::Indexed => "indexed-color PNGs must be converted to RGB or RGBA first"@,
        PngFormatError::Transparency => "PNG tRNS transparency is not supported; convert it to an explicit alpha channel first"@,
    }
}

impl PngFormatError {
    pub fn message(&self) -> (text: &'static str)
        ensures
            text@ == png_error_text(*self),
    {
        match self {
            PngFormatError::Interlaced => "interlaced PNGs are not supported",
            PngFormatError::Animated => "animated PNGs are not supported",
            PngFormatError::UnsupportedDepth => "only 8-bit and 16-bit-per-channel PNG samples are supported",
            PngFormatError::Indexed => "indexed-color PNGs must be converted to RGB or RGBA first",
            PngFormatError::Transparency => "PNG tRNS transparency is not supported; convert it to an explicit alpha channel first",
        }
    }
}

/// The first reason, in checking order, why `header` cannot be corrected.
pub open spec fn header_error(header: PngHeader) -> Option<PngFormatError> {
    if header.interlaced {
        Some(PngFormatError::Interlaced)
    } else if header.animated {
        Some(PngFormatError::Animated)
    } else if !(header.bit_depth == BitDepth::Eight || header.bit_depth == BitDepth::Sixteen) {
        Some(PngFormatError::UnsupportedDepth)
    } else if header.color_type == ColorType::Indexed {
        Some(PngFormatError::Indexed)
    } else if header.has_trns {
        Some(PngFormatError::Transparency)
    } else {
        None
    }
}

/// Accept only non-interlaced, non-animated 8-bit or 16-bit grayscale or RGB
/// images, with or without an explicit alpha channel.
pub fn validate_info(header: &PngHeader) -> (result: Result<(), PngFormatError>)
    ensures
        match header_error(*header) {
            Some(error) => result == Err::<(), PngFormatError>(error),
            None => result is Ok,
        },
{
    if header.interlaced {
        return Err(PngFormatError::Interlaced);
    }
    if header.animated {
        return Err(PngFormatError::Animated);
    }
    match header.bit_depth {
        BitDepth::Eight | BitDepth::Sixteen => {},
        _ => {
            return Err(PngFormatError::UnsupportedDepth);
        },
    }
    if let ColorType::Indexed = header.color_type {
        return Err(PngFormatError::Indexed);
    }
    if header.has_trns {
        return Err(PngFormatError::Transparency);
    }
    Ok(())
}

/// Bytes per sample of an accepted image.
pub fn bytes_per_sample(depth: BitDepth) -> (bytes: usize)
    requires
        depth == BitDepth::Eight || depth == BitDepth::Sixteen,
    ensures
        bytes == if depth == BitDepth::Eight {
            1nat
        } else {
            2nat
        },
{
    match depth {
        BitDepth::Eight => 1,
        _ => 2,
    }
}

/// Byte offset of pixel `x`, `y` in rows of `row_bytes` bytes.
pub fn pixel_offset(x: usize, y: usize, row_bytes: usize, channels: usize, bytes_per_sample: usize) -> (offset: usize)
    requires
        x * channels <= usize::MAX,
        y * row_bytes + x * channels * bytes_per_sample <= usize::MAX,
    ensures
        offset == y * row_bytes + x * channels * bytes_per_sample,
{
    proof {
        assert(y * row_bytes >= 0 && x * channels * bytes_per_sample >= 0) by (nonlinear_arith)
            requires
                x >= 0,
                y >= 0,
                row_bytes >= 0,
                channels >= 0,
                bytes_per_sample >= 0,
        ;
    }
    y * row_bytes + x * channels * bytes_per_sample
}

/// The stored value of a sample that starts at `offset`: one byte, or a
/// big-endian pair of bytes.
pub open spec fn stored_code(data: Seq<u8>, offset: int, depth: BitDepth) -> int {
    if depth == BitDepth::Eight {
        data[offset] as int
    } else {
        data[offset] * 256 + data[offset + 1]
    }
}

/// Read the integer code of the sample at `offset` of a decoded row.
pub fn read_sample_code(data: &[u8], offset: usize, depth: BitDepth) -> (code: u16)
    requires
        depth == BitDepth::Eight || depth == BitDepth::Sixteen,
        offset + (if depth == BitDepth::Eight {
            1int
        } else {
            2int
        }) <= data@.len(),
    ensures
        code == stored_code(data@, offset as int, depth),
{
    match depth {
        BitDepth::Eight => data[offset] as u16,
        _ => data[offset] as u16 * 256 + data[offset + 1] as u16,
    }
}

/// Store `code` as the sample at `offset`, leaving every other byte as it
/// was. A 16-bit code is written big-endian, as PNG stores it.
pub fn write_sample_code(data: &mut [u8], offset: usize, depth: BitDepth, code: u16)
    requires
        depth == BitDepth::Eight || depth == BitDepth::Sixteen,
        depth == BitDepth::Eight ==> code <= 255,
        offset + (if depth == BitDepth::Eight {
            1int
        } else {
            2int
        }) <= old(data)@.len(),
    ensures
        final(data)@.len() == old(data)@.len(),
        stored_code(final(data)@, offset as int, depth) == code,
        forall|i: int|
            0 <= i < old(data)@.len() && (i < offset || i >= offset + if depth == BitDepth::Eight {
                1int
            } else {
                2int
            }) ==> #[trigger] final(data)@[i] == old(data)@[i],
{
    match depth {
        BitDepth::Eight => {
            data[offset] = code as u8;
        },
        _ => {
            data[offset] = (code / 256) as u8;
            data[offset + 1] = (code % 256) as u8;
        },
    }
}

/// The name of a color type in a depth label.
pub open spec fn color_name(color: ColorType) -> Seq<char> {
    match color {
        ColorType::Grayscale => "grayscale"@,
        ColorType::GrayscaleAlpha => "grayscale+alpha"@,
        ColorType::Rgb => "RGB"@,
        ColorType::Rgba => "RGBA"@,
        ColorType::Indexed => "indexed"@,
    }
}

/// Bits per channel reported for a depth: 8 or 16, otherwise 0.
pub open spec fn channel_bits(depth: BitDepth) -> nat {
    match depth {
        BitDepth::Eight => 8,
        BitDepth::Sixteen => 16,
        _ => 0,
    }
}

/// `"{pixel bits}-bit {color} ({channel bits} bits/channel)"`.
pub open spec fn depth_label(color: ColorType, depth: BitDepth) -> Seq<char> {
    decimal_text(spec_samples(color) * channel_bits(depth)) + "-bit "@ + color_name(color) + " ("@
        + decimal_text(channel_bits(depth)) + " bits/channel)"@
}

/// A readable description of the sample format, such as
/// `24-bit RGB (8 bits/channel)`.
pub fn png_depth_label(color: ColorType, depth: BitDepth) -> (label: String)
    ensures
        label@ == depth_label(color, depth),
{
    let bits: usize = match depth {
        BitDepth::Eight => 8,
        BitDepth::Sixteen => 16,
        _ => 0,
    };
    let name: &str = match color {
        ColorType::Grayscale => "grayscale",
        ColorType::GrayscaleAlpha => "grayscale+alpha",
        ColorType::Rgb => "RGB",
        ColorType::Rgba => "RGBA",
        ColorType::Indexed => "indexed",
    };
    let mut label = String::new();
    push_decimal(&mut label, samples(color) * bits);
    label.append("-bit ");
    label.append(name);
    label.append(" (");
    push_decimal(&mut label, bits);
    label.append(" bits/channel)");
    assert(label@ =~= depth_label(color, depth));
    label
}

} // verus!
