use std::io::Cursor;

use seamingly_epic::png_codec::{
    decode_png, deflate_level, output_png, png_store_size, read_png_header, PngDecodeError,
    PngEncodeError,
};
use seamingly_epic::png_format::{BitDepth, ColorType, PngFormatError, PngHeader};

fn encode(
    width: u32,
    height: u32,
    color: png::ColorType,
    depth: png::BitDepth,
    data: &[u8],
    configure: impl FnOnce(&mut png::Encoder<'_, &mut Vec<u8>>),
) -> Vec<u8> {
    let mut bytes = Vec::new();
    {
        let mut encoder = png::Encoder::new(&mut bytes, width, height);
        encoder.set_color(color);
        encoder.set_depth(depth);
        configure(&mut encoder);
        let mut writer = encoder.write_header().unwrap();
        writer.write_image_data(data).unwrap();
        writer.finish().unwrap();
    }
    bytes
}

fn rgba_source() -> (Vec<u8>, Vec<u8>) {
    let data: Vec<u8> = (0..32u8).map(|value| value * 7).collect();
    let bytes = encode(4, 2, png::ColorType::Rgba, png::BitDepth::Eight, &data, |encoder| {
        encoder
            .add_text_chunk("workflow".to_owned(), "{\"nodes\":[]}".to_owned())
            .unwrap();
    });
    (bytes, data)
}

#[test]
fn reads_the_header_of_an_rgba_png() {
    let (bytes, _) = rgba_source();
    let header = read_png_header(&bytes).unwrap();
    assert_eq!(
        header,
        PngHeader {
            width: 4,
            height: 2,
            interlaced: false,
            animated: false,
            bit_depth: BitDepth::Eight,
            color_type: ColorType::Rgba,
            has_trns: false,
        }
    );
    assert_eq!(png_store_size(&header), Some((16, 32)));
}

#[test]
fn decodes_rows_exactly_as_stored() {
    let (bytes, data) = rgba_source();
    let mut rows = vec![0u8; 32];
    let header = decode_png(&bytes, &mut rows).unwrap();
    assert_eq!(header.width, 4);
    assert_eq!(rows, data);

    let wide: Vec<u8> = vec![0x12, 0x34, 0xab, 0xcd, 0x00, 0x01];
    let sixteen = encode(3, 1, png::ColorType::Grayscale, png::BitDepth::Sixteen, &wide, |_| {});
    let mut rows = vec![0u8; 6];
    let header = decode_png(&sixteen, &mut rows).unwrap();
    assert_eq!(header.bit_depth, BitDepth::Sixteen);
    assert_eq!(png_store_size(&header), Some((6, 6)));
    assert_eq!(rows, wide);
}

#[test]
fn reencoding_keeps_depth_alpha_and_text_metadata() {
    let (bytes, data) = rgba_source();
    let mut corrected = data.clone();
    corrected[0] = 200;
    corrected[5] = 1;
    let output = output_png(&bytes, &corrected, true).unwrap();
    assert_ne!(output, bytes);

    let mut reader = png::Decoder::new(Cursor::new(&output)).read_info().unwrap();
    let mut decoded = vec![0u8; reader.output_buffer_size().unwrap()];
    reader.next_frame(&mut decoded).unwrap();
    reader.finish().unwrap();
    assert_eq!(decoded, corrected);
    assert_eq!(reader.info().bit_depth, png::BitDepth::Eight);
    assert_eq!(reader.info().color_type, png::ColorType::Rgba);
    assert!(reader
        .info()
        .uncompressed_latin1_text
        .iter()
        .any(|chunk| chunk.keyword == "workflow"));

    let mut rows = vec![0u8; 32];
    decode_png(&output, &mut rows).unwrap();
    assert_eq!(rows, corrected);
}

#[test]
fn refuses_what_cannot_be_corrected() {
    assert_eq!(
        read_png_header(b"not a png at all"),
        Err(PngDecodeError::Unreadable)
    );
    let indexed = encode(2, 2, png::ColorType::Indexed, png::BitDepth::Eight, &[0, 1, 1, 0], |encoder| {
        encoder.set_palette(vec![0, 0, 0, 255, 255, 255]);
    });
    assert_eq!(
        read_png_header(&indexed),
        Err(PngDecodeError::Refused(PngFormatError::Indexed))
    );
    let transparent = encode(2, 1, png::ColorType::Rgb, png::BitDepth::Eight, &[1, 2, 3, 4, 5, 6], |encoder| {
        encoder.set_trns(vec![0, 0, 1, 0, 2, 0]);
    });
    assert_eq!(
        read_png_header(&transparent),
        Err(PngDecodeError::Refused(PngFormatError::Transparency))
    );
    let packed = encode(8, 1, png::ColorType::Grayscale, png::BitDepth::One, &[0b1010_1010], |_| {});
    assert_eq!(
        read_png_header(&packed),
        Err(PngDecodeError::Refused(PngFormatError::UnsupportedDepth))
    );
    assert_eq!(
        PngDecodeError::Refused(PngFormatError::Indexed).message(),
        "indexed-color PNGs must be converted to RGB or RGBA first"
    );
    assert_eq!(PngDecodeError::Unreadable.message(), "could not read PNG header");
}

#[test]
fn a_store_of_the_wrong_size_is_left_untouched() {
    let (bytes, _) = rgba_source();
    let mut rows = vec![9u8; 31];
    assert_eq!(decode_png(&bytes, &mut rows), Err(PngDecodeError::WrongStore));
    assert_eq!(rows, vec![9u8; 31]);
    let mut truncated = bytes.clone();
    truncated.truncate(bytes.len() - 20);
    let mut rows = vec![0u8; 32];
    assert_eq!(decode_png(&truncated, &mut rows), Err(PngDecodeError::Undecodable));
}

#[test]
fn an_uncorrected_image_is_copied_byte_for_byte() {
    let (bytes, data) = rgba_source();
    let mut other = data.clone();
    other[3] = 0;
    assert_eq!(output_png(&bytes, &other, false).unwrap(), bytes);
    assert_eq!(output_png(b"anything", &[], false).unwrap(), b"anything".to_vec());
    assert_eq!(
        output_png(b"not a png", &[], true),
        Err(PngEncodeError::Source(PngDecodeError::Unreadable))
    );
    let (bytes, _) = rgba_source();
    assert_eq!(output_png(&bytes, &[1, 2, 3], true), Err(PngEncodeError::Refused));
    assert_eq!(
        PngEncodeError::Refused.message(),
        "could not encode corrected PNG pixels"
    );
}

#[test]
fn the_source_deflate_class_is_kept() {
    let data: Vec<u8> = (0..48u8).collect();
    let compressions = [
        png::Compression::Fastest,
        png::Compression::High,
        png::Compression::Balanced,
    ];
    for compression in compressions {
        let bytes = encode(4, 4, png::ColorType::Rgb, png::BitDepth::Eight, &data, |encoder| {
            encoder.set_compression(compression);
        });
        let level = deflate_level(&bytes);
        let flag = zlib_flag(&bytes);
        assert_eq!(level, [1, 5, 6, 9][(flag >> 6) as usize]);
        let output = output_png(&bytes, &data, true).unwrap();
        assert_eq!(deflate_level(&output), level);
    }
    assert_eq!(deflate_level(b"\x89PNG\r\n\x1a\n"), 6);
    assert_eq!(deflate_level(&[]), 6);
}

/// The second byte of the first IDAT chunk's data.
fn zlib_flag(bytes: &[u8]) -> u8 {
    let mut pos = 8;
    loop {
        let length = u32::from_be_bytes(bytes[pos..pos + 4].try_into().unwrap()) as usize;
        if &bytes[pos + 4..pos + 8] == b"IDAT" {
            return bytes[pos + 9];
        }
        pos += 12 + length;
    }
}
