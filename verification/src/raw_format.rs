//! Shape of a little-endian `[B,H,W,C]` float32 image batch.

use vstd::prelude::*;

use crate::text::{decimal_text, push_decimal};

verus! {

/// Dimensions of a float32 batch.
#[derive(Clone, Copy, Debug, PartialEq, Eq, Structural)]
pub struct RawShape {
    pub width: u32,
    pub height: u32,
    pub batch: usize,
    pub channels: usize,
}

/// Why a float32 batch shape was refused.
#[derive(Clone, Copy, Debug, PartialEq, Eq, Structural)]
pub enum RawShapeError {
    NarrowImage,
    ShortImage,
    EmptyBatch,
    UnsupportedChannels,
}

/// The explanation reported for each refused float32 shape.
pub open spec fn raw_shape_error_text(error: RawShapeError) -> Seq<char> {
    match error {
        RawShapeError::NarrowImage => "float32 image width must be at least four"@,
        RawShapeError::ShortImage => "float32 image height must be at least four"@,
        RawShapeError::EmptyBatch => "float32 batch must be non-zero"@,
        RawShapeError::UnsupportedChannels => "float32 transport supports RGB or RGBA tensors only"@,
    }
}

impl RawShapeError {
    pub fn message(&self) -> (text: &'static str)
        ensures
            text@ == raw_shape_error_text(*self),
    {
        match self {
            RawShapeError::NarrowImage => "float32 image width must be at least four",
            RawShapeError::ShortImage => "float32 image height must be at least four",
            RawShapeError::EmptyBatch => "float32 batch must be non-zero",
            RawShapeError::UnsupportedChannels => "float32 transport supports RGB or RGBA tensors only",
        }
    }
}

/// The first reason, in checking order, why `shape` is refused.
pub open spec fn shape_error(shape: RawShape) -> Option<RawShapeError> {
    if shape.width < 4 {
        Some(RawShapeError::NarrowImage)
    } else if shape.height < 4 {
        Some(RawShapeError::ShortImage)
    } else if shape.batch == 0 {
        Some(RawShapeError::EmptyBatch)
    } else if !(shape.channels == 3 || shape.channels == 4) {
        Some(RawShapeError::UnsupportedChannels)
    } else {
        None
    }
}

/// Accept images of at least 4x4 pixels with three or four channels in a
/// non-empty batch.
pub fn validate_shape(shape: &RawShape) -> (result: Result<(), RawShapeError>)
    ensures
        match shape_error(*shape) {
            Some(error) => result == Err::<(), RawShapeError>(error),
            None => result is Ok,
        },
{
    if shape.width < 4 {
        return Err(RawShapeError::NarrowImage);
    }
    if shape.height < 4 {
        return Err(RawShapeError::ShortImage);
    }
    if shape.batch == 0 {
        return Err(RawShapeError::EmptyBatch);
    }
    if !(shape.channels == 3 || shape.channels == 4) {
        return Err(RawShapeError::UnsupportedChannels);
    }
    Ok(())
}

/// Bytes of one image of the batch: four bytes per sample.
pub open spec fn spec_image_bytes(shape: RawShape) -> int {
    shape.width * shape.height * shape.channels * 4
}

/// Bytes of the whole batch.
pub open spec fn spec_total_bytes(shape: RawShape) -> int {
    spec_image_bytes(shape) * shape.batch
}

/// Bytes of one image, or `None` when that does not fit in `usize`.
pub fn image_bytes(shape: &RawShape) -> (bytes: Option<usize>)
    ensures
        match bytes {
            Some(b) => b == spec_image_bytes(*shape),
            None => spec_image_bytes(*shape) > usize::MAX
                || shape.width * shape.height > usize::MAX
                || shape.width * shape.height * shape.channels > usize::MAX,
        },
{
    let pixels = match (shape.width as usize).checked_mul(shape.height as usize) {
        Some(p) => p,
        None => {
            return None;
        },
    };
    let samples = match pixels.checked_mul(shape.channels) {
        Some(s) => s,
        None => {
            return None;
        },
    };
    samples.checked_mul(4)
}

/// Bytes of the whole batch, or `None` when they do not fit in `usize`.
pub fn total_bytes(shape: &RawShape) -> (bytes: Option<usize>)
    ensures
        bytes matches Some(b) ==> b == spec_total_bytes(*shape),
        bytes is None ==> spec_total_bytes(*shape) > usize::MAX || spec_image_bytes(*shape)
            > usize::MAX || shape.width * shape.height > usize::MAX || shape.width
            * shape.height * shape.channels > usize::MAX,
{
    match image_bytes(shape) {
        Some(image) => image.checked_mul(shape.batch),
        None => None,
    }
}

/// Index of the first float of pixel `x`, `y` in an image of the batch.
pub fn sample_index(x: u32, y: u32, width: u32, channels: usize) -> (index: usize)
    requires
        y * width + x <= usize::MAX,
        (y * width + x) * channels <= usize::MAX,
    ensures
        index == (y * width + x) * channels,
{
    proof {
        assert(y * width >= 0) by (nonlinear_arith)
            requires
                y >= 0,
                width >= 0,
        ;
    }
    (y as usize * width as usize + x as usize) * channels
}

/// Byte range of image `index` of a batch of `batch` images of
/// `image_bytes` bytes each.
pub fn batch_byte_range(image_bytes: usize, index: usize, batch: usize) -> (range: (usize, usize))
    requires
        index < batch,
        image_bytes * batch <= usize::MAX,
    ensures
        range.0 == index * image_bytes,
        range.1 == (index + 1) * image_bytes,
        range.1 <= image_bytes * batch,
{
    proof {
        assert(0 <= index * image_bytes && (index + 1) * image_bytes <= image_bytes * batch
            && (index + 1) * image_bytes == index * image_bytes + image_bytes) by (nonlinear_arith)
            requires
                index < batch,
                image_bytes >= 0,
        ;
    }
    let start = index * image_bytes;
    (start, start + image_bytes)
}

/// The transport named in the report of image `index` of a batch.
pub open spec fn batch_transport_text(index: nat) -> Seq<char> {
    "raw-f32-batch-"@ + decimal_text(index)
}

/// `raw-f32-batch-{index}`.
pub fn batch_transport(index: usize) -> (transport: String)
    ensures
        transport@ == batch_transport_text(index as nat),
{
    let mut transport = String::from_str("raw-f32-batch-");
    push_decimal(&mut transport, index);
    transport
}

/// The little-endian 32-bit word that starts at byte `offset`.
pub open spec fn stored_word(data: Seq<u8>, offset: int) -> int {
    data[offset] + 256 * data[offset + 1] + 65536 * data[offset + 2] + 16777216 * data[offset + 3]
}

/// The bits of float sample `sample`: four little-endian bytes.
pub fn read_sample_word(data: &[u8], sample: usize) -> (word: u32)
    requires
        4 * sample + 4 <= data@.len(),
    ensures
        word == stored_word(data@, 4 * sample),
{
    let length = data.len();
    assert(4 * sample + 4 <= length);
    let offset = 4 * sample;
    data[offset] as u32 + 256 * data[offset + 1] as u32 + 65536 * data[offset + 2] as u32
        + 16777216 * data[offset + 3] as u32
}

/// Store `word` as the bits of float sample `sample`, leaving every other
/// byte as it was.
pub fn write_sample_word(data: &mut [u8], sample: usize, word: u32)
    requires
        4 * sample + 4 <= old(data)@.len(),
    ensures
        final(data)@.len() == old(data)@.len(),
        stored_word(final(data)@, 4 * sample) == word,
        forall|i: int|
            0 <= i < old(data)@.len() && (i < 4 * sample || i >= 4 * sample + 4)
                ==> #[trigger] final(data)@[i] == old(data)@[i],
{
    let length = data.len();
    assert(4 * sample + 4 <= length);
    let offset = 4 * sample;
    let low = word % 256;
    let rest = word / 256;
    let second = rest % 256;
    let upper = rest / 256;
    let third = upper % 256;
    let top = upper / 256;
    assert(top < 256);
    data[offset] = low as u8;
    data[offset + 1] = second as u8;
    data[offset + 2] = third as u8;
    data[offset + 3] = top as u8;
}

} // verus!
