use seamingly_epic::png_format::{
    bytes_per_sample, has_alpha, pixel_offset, png_depth_label, read_sample_code, samples,
    validate_info, write_sample_code, BitDepth, ColorType, PngFormatError, PngHeader,
};
use seamingly_epic::raw_format::{
    batch_byte_range, batch_transport, image_bytes, read_sample_word, sample_index, total_bytes,
    validate_shape, write_sample_word, RawShape, RawShapeError,
};

fn header(color_type: ColorType, bit_depth: BitDepth) -> PngHeader {
    PngHeader {
        width: 64,
        height: 32,
        interlaced: false,
        animated: false,
        bit_depth,
        color_type,
        has_trns: false,
    }
}

#[test]
fn accepts_eight_and_sixteen_bit_gray_and_rgb() {
    for color in [
        ColorType::Grayscale,
        ColorType::GrayscaleAlpha,
        ColorType::Rgb,
        ColorType::Rgba,
    ] {
        for depth in [BitDepth::Eight, BitDepth::Sixteen] {
            assert_eq!(validate_info(&header(color, depth)), Ok(()));
        }
    }
}

#[test]
fn refuses_each_unsupported_png_in_checking_order() {
    let mut all_wrong = header(ColorType::Indexed, BitDepth::Four);
    all_wrong.interlaced = true;
    all_wrong.animated = true;
    all_wrong.has_trns = true;
    assert_eq!(validate_info(&all_wrong), Err(PngFormatError::Interlaced));
    all_wrong.interlaced = false;
    assert_eq!(validate_info(&all_wrong), Err(PngFormatError::Animated));
    all_wrong.animated = false;
    assert_eq!(validate_info(&all_wrong), Err(PngFormatError::UnsupportedDepth));
    all_wrong.bit_depth = BitDepth::Eight;
    assert_eq!(validate_info(&all_wrong), Err(PngFormatError::Indexed));
    all_wrong.color_type = ColorType::Rgb;
    assert_eq!(validate_info(&all_wrong), Err(PngFormatError::Transparency));
    all_wrong.has_trns = false;
    assert_eq!(validate_info(&all_wrong), Ok(()));
    for depth in [BitDepth::One, BitDepth::Two, BitDepth::Four] {
        assert_eq!(
            validate_info(&header(ColorType::Rgb, depth)),
            Err(PngFormatError::UnsupportedDepth)
        );
    }
    assert_eq!(
        PngFormatError::Interlaced.message(),
        "interlaced PNGs are not supported"
    );
}

#[test]
fn labels_describe_pixel_and_channel_bits() {
    assert_eq!(
        png_depth_label(ColorType::Rgb, BitDepth::Eight),
        "24-bit RGB (8 bits/channel)"
    );
    assert_eq!(
        png_depth_label(ColorType::Rgba, BitDepth::Sixteen),
        "64-bit RGBA (16 bits/channel)"
    );
    assert_eq!(
        png_depth_label(ColorType::GrayscaleAlpha, BitDepth::Eight),
        "16-bit grayscale+alpha (8 bits/channel)"
    );
    assert_eq!(
        png_depth_label(ColorType::Grayscale, BitDepth::Sixteen),
        "16-bit grayscale (16 bits/channel)"
    );
    assert_eq!(
        png_depth_label(ColorType::Indexed, BitDepth::Four),
        "0-bit indexed (0 bits/channel)"
    );
}

#[test]
fn sample_layout_of_png_rows() {
    assert_eq!(samples(ColorType::Grayscale), 1);
    assert_eq!(samples(ColorType::GrayscaleAlpha), 2);
    assert_eq!(samples(ColorType::Rgb), 3);
    assert_eq!(samples(ColorType::Rgba), 4);
    assert_eq!(samples(ColorType::Indexed), 1);
    assert!(has_alpha(ColorType::Rgba));
    assert!(has_alpha(ColorType::GrayscaleAlpha));
    assert!(!has_alpha(ColorType::Rgb));
    assert!(!has_alpha(ColorType::Grayscale));
    assert_eq!(bytes_per_sample(BitDepth::Eight), 1);
    assert_eq!(bytes_per_sample(BitDepth::Sixteen), 2);
    // Pixel (3, 2) of a 16-bit RGBA image 10 pixels wide.
    assert_eq!(pixel_offset(3, 2, 80, 4, 2), 2 * 80 + 3 * 4 * 2);
    assert_eq!(pixel_offset(0, 0, 30, 3, 1), 0);
}

fn shape(width: u32, height: u32, batch: usize, channels: usize) -> RawShape {
    RawShape {
        width,
        height,
        batch,
        channels,
    }
}

#[test]
fn refuses_each_unsupported_float_batch_in_checking_order() {
    assert_eq!(validate_shape(&shape(3, 3, 0, 2)), Err(RawShapeError::NarrowImage));
    assert_eq!(validate_shape(&shape(4, 3, 0, 2)), Err(RawShapeError::ShortImage));
    assert_eq!(validate_shape(&shape(4, 4, 0, 2)), Err(RawShapeError::EmptyBatch));
    assert_eq!(
        validate_shape(&shape(4, 4, 1, 2)),
        Err(RawShapeError::UnsupportedChannels)
    );
    assert_eq!(
        validate_shape(&shape(4, 4, 1, 5)),
        Err(RawShapeError::UnsupportedChannels)
    );
    assert_eq!(validate_shape(&shape(4, 4, 1, 3)), Ok(()));
    assert_eq!(validate_shape(&shape(640, 480, 2, 4)), Ok(()));
    assert_eq!(
        RawShapeError::UnsupportedChannels.message(),
        "float32 transport supports RGB or RGBA tensors only"
    );
}

#[test]
fn float_batch_sizes_are_four_bytes_per_sample() {
    assert_eq!(image_bytes(&shape(640, 480, 2, 3)), Some(640 * 480 * 3 * 4));
    assert_eq!(total_bytes(&shape(640, 480, 2, 3)), Some(640 * 480 * 3 * 4 * 2));
    assert_eq!(total_bytes(&shape(4, 4, 1, 4)), Some(256));
    assert_eq!(image_bytes(&shape(u32::MAX, u32::MAX, 1, usize::MAX)), None);
    assert_eq!(total_bytes(&shape(4, 4, usize::MAX, 4)), None);
    assert_eq!(sample_index(3, 2, 10, 4), (2 * 10 + 3) * 4);
    assert_eq!(sample_index(0, 0, 10, 3), 0);
}

#[test]
fn sixteen_bit_samples_are_big_endian() {
    let mut row = vec![0x12, 0x34, 0x56, 0x78, 0x9a];
    assert_eq!(read_sample_code(&row, 1, BitDepth::Sixteen), 0x3456);
    assert_eq!(read_sample_code(&row, 4, BitDepth::Eight), 0x9a);
    write_sample_code(&mut row, 2, BitDepth::Sixteen, 20000);
    assert_eq!(row, vec![0x12, 0x34, 0x4e, 0x20, 0x9a]);
    assert_eq!(read_sample_code(&row, 2, BitDepth::Sixteen), 20000);
    write_sample_code(&mut row, 0, BitDepth::Eight, 251);
    assert_eq!(row, vec![251, 0x34, 0x4e, 0x20, 0x9a]);
}

#[test]
fn float_samples_are_little_endian_words() {
    let mut data = vec![0u8; 12];
    write_sample_word(&mut data, 1, 0.5f32.to_bits());
    assert_eq!(&data[4..8], &0.5f32.to_le_bytes());
    assert_eq!(f32::from_bits(read_sample_word(&data, 1)), 0.5);
    write_sample_word(&mut data, 2, 0xdead_beef);
    assert_eq!(&data[8..12], &[0xef, 0xbe, 0xad, 0xde]);
    assert_eq!(read_sample_word(&data, 2), 0xdead_beef);
    assert_eq!(read_sample_word(&data, 0), 0);
}

#[test]
fn batch_images_follow_one_another() {
    let bytes = image_bytes(&shape(64, 32, 3, 4)).unwrap();
    assert_eq!(batch_byte_range(bytes, 0, 3), (0, bytes));
    assert_eq!(batch_byte_range(bytes, 2, 3), (2 * bytes, 3 * bytes));
    assert_eq!(batch_transport(0), "raw-f32-batch-0");
    assert_eq!(batch_transport(12), "raw-f32-batch-12");
}

#[test]
fn decoded_stores_have_the_documented_sizes() {
    // The offset just past the last row is the size of the temporary store.
    let rgb8 = 8192 * samples(ColorType::Rgb) * bytes_per_sample(BitDepth::Eight);
    assert_eq!(pixel_offset(0, 8192, rgb8, 3, 1), 192 << 20);
    let rgba16 = 8192 * samples(ColorType::Rgba) * bytes_per_sample(BitDepth::Sixteen);
    assert_eq!(pixel_offset(0, 8192, rgba16, 4, 2), 512 << 20);
    let large = 16384 * samples(ColorType::Rgba) * bytes_per_sample(BitDepth::Sixteen);
    assert_eq!(pixel_offset(0, 16384, large, 4, 2), 2 << 30);
}
