//! Reading and writing PNG streams with the `png` crate: the header and rows
//! of an input stream, and the re-encoded stream that carries its metadata.

use std::io::{Cursor, Write};

use png::{DeflateCompression, Decoder, Encoder};
use vstd::prelude::*;

use crate::png_format::{
    header_error, png_error_text, spec_samples, BitDepth, ColorType, PngFormatError, PngHeader,
};

verus! {

/// Header fields as a PNG stream codes them: the bit depth in bits per
/// sample (1, 2, 4, 8 or 16) and the color type by its PNG number (0
/// grayscale, 2 RGB, 3 indexed, 4 grayscale with alpha, 6 RGBA).
#[derive(Clone, Copy, Debug, PartialEq, Eq, Structural)]
pub struct PngHeaderCodes {
    pub width: u32,
    pub height: u32,
    pub interlaced: bool,
    pub animated: bool,
    pub bit_depth: u8,
    pub color_type: u8,
    /// A `tRNS` transparency chunk is present.
    pub has_trns: bool,
}

/// The header that `png::Decoder::read_info` reads from `bytes` (signature,
/// `IHDR` and every chunk before the image data) where every frame size
/// fits the address space, or `None` when the decoder refuses the stream
/// for a reason other than the machine's address space.
pub uninterp spec fn spec_png_header(bytes: Seq<u8>) -> Option<PngHeaderCodes>;

/// The rows that `png::Reader::next_frame` decodes from a non-interlaced
/// still image without transformations (samples as stored, 16-bit samples
/// big-endian, rows one after another), provided `Reader::finish` then also
/// reads the chunks after the image data. `None` when either fails on the
/// stream itself.
pub uninterp spec fn spec_png_rows(bytes: Seq<u8>) -> Option<Seq<u8>>;

/// The stream that `png::Encoder` writes for `rows` at DEFLATE `level`, carrying
/// the header and every chunk that `png` reads from `source` (trailing
/// chunks included, animation chunks left out). `None` when either side
/// refuses.
pub uninterp spec fn spec_png_reencoded(source: Seq<u8>, rows: Seq<u8>, level: u8) -> Option<Seq<u8>>;

/// Samples per pixel of the PNG color type numbered `code`.
pub open spec fn code_samples(code: u8) -> int {
    if code == 2 {
        3
    } else if code == 4 {
        2
    } else if code == 6 {
        4
    } else {
        1
    }
}

/// Bytes of one decoded row: `width × samples × depth` bits, rounded up to
/// whole bytes.
pub open spec fn frame_row_bytes(codes: PngHeaderCodes) -> int {
    (codes.width * code_samples(codes.color_type) * codes.bit_depth + 7) / 8
}

/// Bytes of the decoded image.
pub open spec fn frame_bytes(codes: PngHeaderCodes) -> int {
    frame_row_bytes(codes) * codes.height
}

/// The decoder accepts the frame's size on this machine: a row with its
/// filter byte fits `usize` and the whole frame fits `isize`.
pub open spec fn frame_fits(codes: PngHeaderCodes) -> bool {
    frame_row_bytes(codes) + 1 <= usize::MAX && frame_bytes(codes) <= isize::MAX
}

/// What `png_read_header` returns: the header, unless the frame does not
/// fit this machine.
pub open spec fn readable_header(bytes: Seq<u8>) -> Option<PngHeaderCodes> {
    match spec_png_header(bytes) {
        Some(codes) => if frame_fits(codes) {
            Some(codes)
        } else {
            None
        },
        None => None,
    }
}

/// The header describes a non-interlaced still image of 8- or 16-bit
/// samples: the only kind this library decodes and re-encodes.
pub open spec fn plain_still_image(codes: PngHeaderCodes) -> bool {
    &&& !codes.interlaced
    &&& !codes.animated
    &&& (codes.bit_depth == 8 || codes.bit_depth == 16)
}

/// Calls `png::Decoder::read_info` on `bytes` and reports the header fields
/// of the resulting `png::Info`: its dimensions, interlacing, whether it is
/// animated, its bit depth and color type as PNG numbers, and whether it has
/// a `tRNS` chunk. Besides what the stream itself decides, `read_info`
/// refuses a frame whose row (with filter byte) overflows `usize` or whose
/// size exceeds `isize::MAX`.
#[verifier::external_body]
fn png_read_header(bytes: &[u8]) -> (codes: Option<PngHeaderCodes>)
    ensures
        codes == readable_header(bytes@),
{
    let reader = Decoder::new(Cursor::new(bytes)).read_info().ok()?;
    let info = reader.info();
    Some(PngHeaderCodes {
        width: info.width,
        height: info.height,
        interlaced: info.interlaced,
        animated: info.is_animated(),
        bit_depth: info.bit_depth as u8,
        color_type: info.color_type as u8,
        has_trns: info.trns.is_some(),
    })
}

/// Calls `png::Reader::next_frame` on `rows` after `read_info`, then
/// `Reader::finish`. For a non-interlaced still image without
/// transformations `next_frame` overwrites the first `frame_bytes` bytes of
/// `rows` row by row and leaves the rest; it fails only when `rows` is
/// shorter than that or the stream does not decode. Nothing is claimed of
/// `rows` after a failure.
#[verifier::external_body]
fn png_decode_rows(bytes: &[u8], rows: &mut [u8]) -> (decoded: bool)
    requires
        readable_header(bytes@) matches Some(codes) && plain_still_image(codes),
    ensures
        final(rows)@.len() == old(rows)@.len(),
        decoded ==> (spec_png_rows(bytes@) matches Some(r) && r.len() == frame_bytes(
            spec_png_header(bytes@)->0,
        ) && r.len() <= old(rows)@.len() && final(rows)@ == r + old(rows)@.skip(r.len() as int)),
        (spec_png_rows(bytes@) is Some && frame_bytes(spec_png_header(bytes@)->0) <= old(
            rows,
        )@.len()) ==> decoded,
        spec_png_rows(bytes@) is None ==> !decoded,
{
    match Decoder::new(Cursor::new(bytes)).read_info() {
        Ok(mut reader) => reader.next_frame(rows).is_ok() && reader.finish().is_ok(),
        Err(_) => false,
    }
}

/// Reads the complete `png::Info` of `source` (`read_info`, then `finish`),
/// drops its animation chunks, and encodes `rows` with it through
/// `png::Encoder::with_info`, DEFLATE level `level` and a streaming writer.
/// The encoder writes the header fields of the `Info` into `IHDR` and the
/// rows, filtered and compressed, into the image data; so for a
/// non-interlaced still image whose rows have the frame's size, decoding the
/// result gives back the same header and rows. Which other chunks survive is
/// not claimed.
#[verifier::external_body]
fn png_reencode(source: &[u8], rows: &[u8], level: u8) -> (encoded: Option<Vec<u8>>)
    requires
        1 <= level <= 9,
    ensures
        match encoded {
            Some(e) => spec_png_reencoded(source@, rows@, level) == Some(e@),
            None => spec_png_reencoded(source@, rows@, level) is None,
        },
        (encoded is Some && spec_png_header(source@) is Some && plain_still_image(
            spec_png_header(source@)->0,
        ) && rows@.len() == frame_bytes(spec_png_header(source@)->0)) ==> spec_png_rows(
            encoded->0@,
        ) == Some(rows@) && spec_png_header(encoded->0@) == spec_png_header(source@),
{
    let mut reader = Decoder::new(Cursor::new(source)).read_info().ok()?;
    reader.finish().ok()?;
    let mut info = reader.info().clone();
    (info.frame_control, info.animation_control) = (None, None);
    let mut encoded = Vec::new();
    {
        let mut encoder = Encoder::with_info(&mut encoded, info).ok()?;
        encoder.set_deflate_compression(DeflateCompression::Level(level));
        let mut writer = encoder.write_header().ok()?;
        let mut stream = writer.stream_writer_with_size(1 << 20).ok()?;
        stream.write_all(rows).ok()?;
        stream.finish().ok()?;
    }
    Some(encoded)
}

/// The bit depth PNG codes as `bits` bits per sample.
pub open spec fn depth_from_code(bits: u8) -> Option<BitDepth> {
    if bits == 1 {
        Some(BitDepth::One)
    } else if bits == 2 {
        Some(BitDepth::Two)
    } else if bits == 4 {
        Some(BitDepth::Four)
    } else if bits == 8 {
        Some(BitDepth::Eight)
    } else if bits == 16 {
        Some(BitDepth::Sixteen)
    } else {
        None
    }
}

/// The color type PNG codes as `code`.
pub open spec fn color_from_code(code: u8) -> Option<ColorType> {
    if code == 0 {
        Some(ColorType::Grayscale)
    } else if code == 2 {
        Some(ColorType::Rgb)
    } else if code == 3 {
        Some(ColorType::Indexed)
    } else if code == 4 {
        Some(ColorType::GrayscaleAlpha)
    } else if code == 6 {
        Some(ColorType::Rgba)
    } else {
        None
    }
}

/// The header that PNG header fields describe, or `None` for a depth or
/// color type that PNG does not define.
pub open spec fn header_from_codes(codes: PngHeaderCodes) -> Option<PngHeader> {
    match (depth_from_code(codes.bit_depth), color_from_code(codes.color_type)) {
        (Some(bit_depth), Some(color_type)) => Some(
            PngHeader {
                width: codes.width,
                height: codes.height,
                interlaced: codes.interlaced,
                animated: codes.animated,
                bit_depth,
                color_type,
                has_trns: codes.has_trns,
            },
        ),
        _ => None,
    }
}

fn header_of_codes(codes: PngHeaderCodes) -> (header: Option<PngHeader>)
    ensures
        header == header_from_codes(codes),
{
    let bit_depth = if codes.bit_depth == 1 {
        BitDepth::One
    } else if codes.bit_depth == 2 {
        BitDepth::Two
    } else if codes.bit_depth == 4 {
        BitDepth::Four
    } else if codes.bit_depth == 8 {
        BitDepth::Eight
    } else if codes.bit_depth == 16 {
        BitDepth::Sixteen
    } else {
        return None;
    };
    let color_type = if codes.color_type == 0 {
        ColorType::Grayscale
    } else if codes.color_type == 2 {
        ColorType::Rgb
    } else if codes.color_type == 3 {
        ColorType::Indexed
    } else if codes.color_type == 4 {
        ColorType::GrayscaleAlpha
    } else if codes.color_type == 6 {
        ColorType::Rgba
    } else {
        return None;
    };
    Some(
        PngHeader {
            width: codes.width,
            height: codes.height,
            interlaced: codes.interlaced,
            animated: codes.animated,
            bit_depth,
            color_type,
            has_trns: codes.has_trns,
        },
    )
}

/// Why a PNG stream cannot be decoded into a pixel store.
#[derive(Clone, Copy, Debug, PartialEq, Eq, Structural)]
pub enum PngDecodeError {
    /// The stream is not a PNG the decoder can read.
    Unreadable,
    /// The PNG is readable but cannot be corrected.
    Refused(PngFormatError),
    /// The decoded image does not fit in this platform's address space.
    TooLarge,
    /// The pixel store does not have the decoded image's size.
    WrongStore,
    /// The image data cannot be decoded.
    Undecodable,
}

/// The explanation reported for each decoding failure.
pub open spec fn decode_error_text(error: PngDecodeError) -> Seq<char> {
    match error {
        PngDecodeError::Unreadable => "could not read PNG header"@,
        PngDecodeError::Refused(refusal) => png_error_text(refusal),
        PngDecodeError::TooLarge => "decoded PNG size exceeds this platform's address space"@,
        PngDecodeError::WrongStore => "decoded PNG store has an unexpected byte count"@,
        PngDecodeError::Undecodable => "could not decode PNG image data"@,
    }
}

impl PngDecodeError {
    /// Human-readable explanation of the failure.
    pub fn message(&self) -> (text: &'static str)
        ensures
            text@ == decode_error_text(*self),
    {
        match self {
            PngDecodeError::Unreadable => "could not read PNG header",
            PngDecodeError::Refused(refusal) => refusal.message(),
            PngDecodeError::TooLarge => "decoded PNG size exceeds this platform's address space",
            PngDecodeError::WrongStore => "decoded PNG store has an unexpected byte count",
            PngDecodeError::Undecodable => "could not decode PNG image data",
        }
    }
}

/// The header of `bytes` if the image can be corrected, or why not.
pub open spec fn header_outcome(bytes: Seq<u8>) -> Result<PngHeader, PngDecodeError> {
    match readable_header(bytes) {
        None => Err(PngDecodeError::Unreadable),
        Some(codes) => match header_from_codes(codes) {
            None => Err(PngDecodeError::Unreadable),
            Some(header) => match header_error(header) {
                Some(refusal) => Err(PngDecodeError::Refused(refusal)),
                None => Ok(header),
            },
        },
    }
}

/// Read the header of a PNG stream and check that it can be corrected.
pub fn read_png_header(bytes: &[u8]) -> (result: Result<PngHeader, PngDecodeError>)
    ensures
        result == header_outcome(bytes@),
{
    let codes = match png_read_header(bytes) {
        Some(codes) => codes,
        None => {
            return Err(PngDecodeError::Unreadable);
        },
    };
    let header = match header_of_codes(codes) {
        Some(header) => header,
        None => {
            return Err(PngDecodeError::Unreadable);
        },
    };
    match header_error_of(&header) {
        Some(refusal) => Err(PngDecodeError::Refused(refusal)),
        None => Ok(header),
    }
}

fn header_error_of(header: &PngHeader) -> (refusal: Option<PngFormatError>)
    ensures
        refusal == header_error(*header),
{
    match crate::png_format::validate_info(header) {
        Ok(()) => None,
        Err(refusal) => Some(refusal),
    }
}

/// Bytes of one decoded row of an accepted image.
pub open spec fn spec_row_bytes(header: PngHeader) -> int {
    header.width * spec_samples(header.color_type) * if header.bit_depth == BitDepth::Eight {
        1int
    } else {
        2int
    }
}

/// Bytes of the decoded rows of an accepted image.
pub open spec fn spec_store_bytes(header: PngHeader) -> int {
    spec_row_bytes(header) * header.height
}

/// Row size and total size of the decoded pixels of an accepted image, or
/// `None` when either exceeds `usize`.
pub fn png_store_size(header: &PngHeader) -> (size: Option<(usize, usize)>)
    requires
        header_error(*header) is None,
    ensures
        match size {
            Some((row, total)) => row == spec_row_bytes(*header) && total == spec_store_bytes(
                *header,
            ),
            None => spec_row_bytes(*header) > usize::MAX || spec_store_bytes(*header) > usize::MAX,
        },
{
    let channels = crate::png_format::samples(header.color_type);
    let sample_bytes = crate::png_format::bytes_per_sample(header.bit_depth);
    let pixel_bytes = channels * sample_bytes;
    proof {
        assert(spec_row_bytes(*header) == header.width * pixel_bytes) by (nonlinear_arith)
            requires
                pixel_bytes == spec_samples(header.color_type) * (if header.bit_depth == BitDepth::Eight {
                    1int
                } else {
                    2int
                }),
        ;
    }
    let row = match (header.width as usize).checked_mul(pixel_bytes) {
        Some(row) => row,
        None => {
            return None;
        },
    };
    match row.checked_mul(header.height as usize) {
        Some(total) => Some((row, total)),
        None => None,
    }
}

/// An accepted header and the header fields it came from describe the
/// same frame: a plain still image whose decoded rows are exactly the
/// store this library sizes for it.
proof fn lemma_accepted_frame(bytes: Seq<u8>)
    requires
        header_outcome(bytes) is Ok,
    ensures
        readable_header(bytes) matches Some(codes) && plain_still_image(codes) && frame_fits(codes)
            && frame_row_bytes(codes) == spec_row_bytes(header_outcome(bytes)->Ok_0)
            && frame_bytes(codes) == spec_store_bytes(header_outcome(bytes)->Ok_0),
{
    let codes = readable_header(bytes)->0;
    let header = header_outcome(bytes)->Ok_0;
    let k = codes.width * code_samples(codes.color_type);
    assert(code_samples(codes.color_type) == spec_samples(header.color_type));
    assert(k >= 0) by (nonlinear_arith)
        requires
            codes.width >= 0,
            code_samples(codes.color_type) >= 1,
            k == codes.width * code_samples(codes.color_type),
    ;
    if codes.bit_depth == 8 {
        assert((k * 8 + 7) / 8 == k);
        assert(spec_row_bytes(header) == k * 1);
    } else {
        assert((k * 16 + 7) / 8 == k * 2);
        assert(spec_row_bytes(header) == k * 2);
    }
    assert(frame_row_bytes(codes) == (k * codes.bit_depth + 7) / 8) by (nonlinear_arith)
        requires
            k == codes.width * code_samples(codes.color_type),
            frame_row_bytes(codes) == (codes.width * code_samples(codes.color_type) * codes.bit_depth
                + 7) / 8,
    ;
}

/// Decode a PNG stream into `rows`, a store of exactly the decoded size,
/// after checking that the image can be corrected.
///
/// Once the header is accepted and the store has its size, the result is
/// `Ok` exactly when the image data and the chunks after it decode, and the
/// store then holds the decoded rows. Unless decoding was attempted, `rows`
/// is left as it was.
pub fn decode_png(bytes: &[u8], rows: &mut [u8]) -> (result: Result<PngHeader, PngDecodeError>)
    ensures
        match header_outcome(bytes@) {
            Err(error) => result == Err::<PngHeader, PngDecodeError>(error),
            Ok(header) => if spec_row_bytes(header) > usize::MAX || spec_store_bytes(header)
                > usize::MAX {
                result == Err::<PngHeader, PngDecodeError>(PngDecodeError::TooLarge)
            } else if spec_store_bytes(header) != old(rows)@.len() {
                result == Err::<PngHeader, PngDecodeError>(PngDecodeError::WrongStore)
            } else {
                &&& (result == Ok::<PngHeader, PngDecodeError>(header) || result == Err::<
                    PngHeader,
                    PngDecodeError,
                >(PngDecodeError::Undecodable))
                &&& (result is Ok <==> spec_png_rows(bytes@) is Some)
            },
        },
        result is Ok ==> spec_png_rows(bytes@) == Some(final(rows)@),
        result is Err && result != Err::<PngHeader, PngDecodeError>(PngDecodeError::Undecodable)
            ==> final(rows)@ == old(rows)@,
{
    let header = match read_png_header(bytes) {
        Ok(header) => header,
        Err(error) => {
            return Err(error);
        },
    };
    let total = match png_store_size(&header) {
        Some((_, total)) => total,
        None => {
            return Err(PngDecodeError::TooLarge);
        },
    };
    if total != rows.len() {
        return Err(PngDecodeError::WrongStore);
    }
    proof {
        lemma_accepted_frame(bytes@);
    }
    if png_decode_rows(bytes, rows) {
        proof {
            let r = spec_png_rows(bytes@)->0;
            assert(old(rows)@.skip(r.len() as int) =~= Seq::<u8>::empty());
            assert(final(rows)@ =~= r);
        }
        Ok(header)
    } else {
        Err(PngDecodeError::Undecodable)
    }
}

/// DEFLATE level 1 to 9 that stands for a zlib stream's `FLEVEL` class:
/// fastest, fast, default, maximum.
pub open spec fn level_for_flevel(flevel: int) -> u8 {
    if flevel == 0 {
        1
    } else if flevel == 1 {
        5
    } else if flevel == 2 {
        6
    } else {
        9
    }
}

/// The big-endian 32-bit number at `pos`.
pub open spec fn be_u32(bytes: Seq<u8>, pos: int) -> int {
    bytes[pos] * 16777216 + bytes[pos + 1] * 65536 + bytes[pos + 2] * 256 + bytes[pos + 3]
}

/// Chunk type `IDAT` at `pos + 4`.
pub open spec fn is_idat_at(bytes: Seq<u8>, pos: int) -> bool {
    bytes[pos + 4] == 73 && bytes[pos + 5] == 68 && bytes[pos + 6] == 65 && bytes[pos + 7] == 84
}

/// The second byte of the image data, searched chunk by chunk from the
/// chunk at `pos`, `seen` image-data bytes having been passed already: the
/// zlib `FLG` byte, whose top two bits are `FLEVEL`. `None` when the chunks
/// run out first.
pub open spec fn zlib_flag_from(bytes: Seq<u8>, pos: int, seen: int) -> Option<u8>
    decreases if pos < bytes.len() {
        bytes.len() - pos
    } else {
        0
    },
{
    if pos < 0 || seen < 0 || pos + 8 > bytes.len() {
        None
    } else if is_idat_at(bytes, pos) && seen + be_u32(bytes, pos) >= 2 {
        if pos + 9 - seen < bytes.len() {
            Some(bytes[pos + 9 - seen])
        } else {
            None
        }
    } else {
        proof {
            assert(be_u32(bytes, pos) >= 0);
        }
        zlib_flag_from(
            bytes,
            pos + 12 + be_u32(bytes, pos),
            if is_idat_at(bytes, pos) {
                seen + be_u32(bytes, pos)
            } else {
                seen
            },
        )
    }
}

/// The DEFLATE level for re-encoding `bytes`: the one that stands for the
/// `FLEVEL` of its image data, or the default level 6 when there is none.
pub open spec fn source_level(bytes: Seq<u8>) -> u8 {
    match zlib_flag_from(bytes, 8, 0) {
        Some(flag) => level_for_flevel((flag / 64) as int),
        None => 6,
    }
}

/// Find the DEFLATE level that the image data of a PNG stream was written
/// at, by its zlib `FLEVEL`.
pub fn deflate_level(bytes: &[u8]) -> (level: u8)
    ensures
        level == source_level(bytes@),
        1 <= level <= 9,
{
    let n = bytes.len();
    let mut pos: usize = 8;
    let mut seen: u64 = 0;
    while pos <= n && n - pos >= 8
        invariant
            n == bytes@.len(),
            seen <= 1,
            zlib_flag_from(bytes@, pos as int, seen as int) == zlib_flag_from(bytes@, 8, 0),
        decreases n - pos,
    {
        let length: u64 = bytes[pos] as u64 * 16777216 + bytes[pos + 1] as u64 * 65536
            + bytes[pos + 2] as u64 * 256 + bytes[pos + 3] as u64;
        let idat = bytes[pos + 4] == 73 && bytes[pos + 5] == 68 && bytes[pos + 6] == 65
            && bytes[pos + 7] == 84;
        assert(length == be_u32(bytes@, pos as int));
        assert(idat == is_idat_at(bytes@, pos as int));
        if idat && seen + length >= 2 {
            let rest = (n - pos) as u64;
            if 9 - seen < rest {
                let flag = bytes[pos + 9 - seen as usize];
                return level_of_flevel(flag / 64);
            } else {
                return 6;
            }
        }
        if idat {
            seen = seen + length;
        }
        let rest = (n - pos) as u64;
        if rest < 12 || rest - 12 < length {
            assert(zlib_flag_from(bytes@, pos + 12 + length, seen as int) is None);
            return 6;
        }
        pos = pos + 12 + length as usize;
    }
    6
}

fn level_of_flevel(flevel: u8) -> (level: u8)
    ensures
        level == level_for_flevel(flevel as int),
{
    if flevel == 0 {
        1
    } else if flevel == 1 {
        5
    } else if flevel == 2 {
        6
    } else {
        9
    }
}

/// Why a corrected PNG cannot be written.
#[derive(Clone, Copy, Debug, PartialEq, Eq, Structural)]
pub enum PngEncodeError {
    /// The source stream is not a PNG this library corrects.
    Source(PngDecodeError),
    /// The encoder refused the corrected rows or the source's metadata.
    Refused,
}

/// The explanation reported for each encoding failure.
pub open spec fn encode_error_text(error: PngEncodeError) -> Seq<char> {
    match error {
        PngEncodeError::Source(cause) => decode_error_text(cause),
        PngEncodeError::Refused => "could not encode corrected PNG pixels"@,
    }
}

impl PngEncodeError {
    /// Human-readable explanation of the failure.
    pub fn message(&self) -> (text: &'static str)
        ensures
            text@ == encode_error_text(*self),
    {
        match self {
            PngEncodeError::Source(cause) => cause.message(),
            PngEncodeError::Refused => "could not encode corrected PNG pixels",
        }
    }
}

/// The output PNG for `source` and its corrected `rows`. When no correction
/// was applied it is the source, byte for byte. Otherwise the rows are
/// re-encoded with the source's header and metadata at the DEFLATE level
/// its own image data was written at; decoding the result gives back the
/// source's header and exactly the rows.
pub fn output_png(source: &[u8], rows: &[u8], applied: bool) -> (result: Result<Vec<u8>, PngEncodeError>)
    ensures
        !applied ==> (result matches Ok(out) && out@ == source@),
        applied ==> match header_outcome(source@) {
            Err(cause) => result == Err::<Vec<u8>, PngEncodeError>(PngEncodeError::Source(cause)),
            Ok(_) => match spec_png_reencoded(source@, rows@, source_level(source@)) {
                Some(e) => result matches Ok(out) && out@ == e,
                None => result == Err::<Vec<u8>, PngEncodeError>(PngEncodeError::Refused),
            },
        },
        (applied && result is Ok && header_outcome(source@) is Ok && rows@.len()
            == spec_store_bytes(header_outcome(source@)->Ok_0)) ==> spec_png_rows(result->Ok_0@)
            == Some(rows@) && spec_png_header(result->Ok_0@) == spec_png_header(source@),
{
    if !applied {
        return Ok(vstd::slice::slice_to_vec(source));
    }
    match read_png_header(source) {
        Ok(_) => {},
        Err(cause) => {
            return Err(PngEncodeError::Source(cause));
        },
    }
    proof {
        lemma_accepted_frame(source@);
    }
    let level = deflate_level(source);
    match png_reencode(source, rows, level) {
        Some(encoded) => Ok(encoded),
        None => Err(PngEncodeError::Refused),
    }
}

} // verus!
