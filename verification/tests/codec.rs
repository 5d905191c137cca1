use librender::texture::tga::{
    TgaHeader, decode, encode, header_to_bytes, parse_header, rle_encode_from,
};
use librender::texture::{Texture, TextureColor};
use librender::utils::{RenderError, read_n_bytes};

fn sample_texture() -> Texture {
    let mut t = Texture::new(3, 2);
    let mut v: u8 = 1;
    for y in 0..2 {
        for x in 0..3 {
            let c = TextureColor {
                r: v,
                g: v.wrapping_mul(31),
                b: v.wrapping_mul(97),
                a: v.wrapping_mul(13),
            };
            t.set_color(x, y, c).unwrap();
            v = v.wrapping_add(41);
        }
    }
    t
}

#[test]
fn header_bytes_round_trip() {
    let h = TgaHeader {
        image_id_length: 1,
        color_map_type: 2,
        image_type: 10,
        color_map_first_entry_index: 0x1234,
        color_map_length: 0xff01,
        color_map_entry_size: 7,
        x_origin: 400,
        y_origin: 65535,
        image_width: 1600,
        image_height: 900,
        pixel_depth: 32,
        image_descriptor: 0x20,
    };
    let bytes = header_to_bytes(&h);
    assert_eq!(bytes.len(), 18);
    assert_eq!(parse_header(&bytes).unwrap(), h);
}

#[test]
fn parse_header_short_input_is_read_error() {
    let bytes = vec![0u8; 17];
    assert_eq!(parse_header(&bytes).unwrap_err(), RenderError::ReadError);
}

#[test]
fn round_trip_uncompressed_32() {
    let t = sample_texture();
    let bytes = encode(&t, 32, false, false).unwrap();
    let back = decode(&bytes).unwrap();
    assert_eq!(back.width, 3);
    assert_eq!(back.height, 2);
    assert_eq!(back.data, t.data);
}

#[test]
fn round_trip_uncompressed_32_ignore_alpha() {
    let t = sample_texture();
    let bytes = encode(&t, 32, false, true).unwrap();
    let back = decode(&bytes).unwrap();
    for (got, want) in back.data.iter().zip(t.data.iter()) {
        assert_eq!(got.r, want.r);
        assert_eq!(got.g, want.g);
        assert_eq!(got.b, want.b);
        assert_eq!(got.a, 255);
    }
}

#[test]
fn round_trip_uncompressed_24_drops_alpha() {
    let t = sample_texture();
    let bytes = encode(&t, 24, false, false).unwrap();
    let back = decode(&bytes).unwrap();
    assert_eq!(back.width, 3);
    assert_eq!(back.height, 2);
    for (got, want) in back.data.iter().zip(t.data.iter()) {
        assert_eq!(got.r, want.r);
        assert_eq!(got.g, want.g);
        assert_eq!(got.b, want.b);
        assert_eq!(got.a, 255);
    }
}

#[test]
fn round_trip_rle_32() {
    let t = sample_texture();
    let bytes = encode(&t, 32, true, false).unwrap();
    let back = decode(&bytes).unwrap();
    assert_eq!(back.width, 3);
    assert_eq!(back.height, 2);
    assert_eq!(back.data, t.data);
}

#[test]
fn round_trip_rle_24() {
    let t = sample_texture();
    let bytes = encode(&t, 24, true, false).unwrap();
    let back = decode(&bytes).unwrap();
    for (got, want) in back.data.iter().zip(t.data.iter()) {
        assert_eq!(got.r, want.r);
        assert_eq!(got.g, want.g);
        assert_eq!(got.b, want.b);
        assert_eq!(got.a, 255);
    }
}

#[test]
fn round_trip_rle_uniform_compresses_runs() {
    let mut t = Texture::new(16, 16);
    let c = TextureColor { r: 5, g: 6, b: 7, a: 255 };
    for y in 0..16 {
        for x in 0..16 {
            t.set_color(x, y, c).unwrap();
        }
    }
    let body = rle_encode_from(&t, 0, 32, false);
    // 256 equal pixels pack into two 128-pixel repeat packets of 5 bytes each
    assert_eq!(body.len(), 10);
    let bytes = encode(&t, 32, true, false).unwrap();
    let back = decode(&bytes).unwrap();
    assert_eq!(back.data, t.data);
}

#[test]
fn encode_rejects_unsupported_depth() {
    let t = sample_texture();
    assert_eq!(encode(&t, 8, false, false).unwrap_err(), RenderError::UnsupportedFileFormat);
    assert_eq!(encode(&t, 16, true, false).unwrap_err(), RenderError::UnsupportedFileFormat);
}

#[test]
fn decode_short_file_is_read_error() {
    let bytes = vec![0u8; 10];
    assert_eq!(decode(&bytes).unwrap_err(), RenderError::ReadError);
}

#[test]
fn decode_bad_depth_is_unsupported() {
    let t = sample_texture();
    let mut bytes = encode(&t, 32, false, false).unwrap();
    bytes[16] = 15;
    assert_eq!(decode(&bytes).unwrap_err(), RenderError::UnsupportedFileFormat);
}

#[test]
fn decode_bad_image_type_is_unsupported() {
    let t = sample_texture();
    let mut bytes = encode(&t, 32, false, false).unwrap();
    bytes[2] = 9;
    assert_eq!(decode(&bytes).unwrap_err(), RenderError::UnsupportedFileFormat);
}

#[test]
fn decode_truncated_pixels_is_read_error() {
    let t = sample_texture();
    let mut bytes = encode(&t, 32, false, false).unwrap();
    bytes.pop();
    assert_eq!(decode(&bytes).unwrap_err(), RenderError::ReadError);
}

#[test]
fn decode_rle_overflow_is_wrong_pixel_numbers() {
    // 1x1 image, but the repeat packet announces two pixels
    let h = TgaHeader {
        image_id_length: 0,
        color_map_type: 0,
        image_type: 10,
        color_map_first_entry_index: 0,
        color_map_length: 0,
        color_map_entry_size: 0,
        x_origin: 0,
        y_origin: 0,
        image_width: 1,
        image_height: 1,
        pixel_depth: 32,
        image_descriptor: 0,
    };
    let mut bytes = header_to_bytes(&h);
    bytes.push(129);
    bytes.extend_from_slice(&[1, 2, 3, 4]);
    assert_eq!(decode(&bytes).unwrap_err(), RenderError::WrongPixelNumbers);
}

#[test]
fn decode_rle_literal_packet() {
    // 2x1 image from one literal packet holding two pixel values
    let h = TgaHeader {
        image_id_length: 0,
        color_map_type: 0,
        image_type: 10,
        color_map_first_entry_index: 0,
        color_map_length: 0,
        color_map_entry_size: 0,
        x_origin: 0,
        y_origin: 0,
        image_width: 2,
        image_height: 1,
        pixel_depth: 24,
        image_descriptor: 0,
    };
    let mut bytes = header_to_bytes(&h);
    bytes.push(1);
    bytes.extend_from_slice(&[10, 20, 30, 40, 50, 60]);
    let t = decode(&bytes).unwrap();
    assert_eq!(t.data[0], TextureColor { r: 30, g: 20, b: 10, a: 255 });
    assert_eq!(t.data[1], TextureColor { r: 60, g: 50, b: 40, a: 255 });
}

#[test]
fn decode_grayscale_8_replicates_channel() {
    let h = TgaHeader {
        image_id_length: 0,
        color_map_type: 0,
        image_type: 3,
        color_map_first_entry_index: 0,
        color_map_length: 0,
        color_map_entry_size: 0,
        x_origin: 0,
        y_origin: 0,
        image_width: 2,
        image_height: 1,
        pixel_depth: 8,
        image_descriptor: 0,
    };
    let mut bytes = header_to_bytes(&h);
    bytes.extend_from_slice(&[77, 200]);
    let t = decode(&bytes).unwrap();
    assert_eq!(t.data[0], TextureColor { r: 77, g: 77, b: 77, a: 255 });
    assert_eq!(t.data[1], TextureColor { r: 200, g: 200, b: 200, a: 255 });
}

#[test]
fn decode_descriptor_bit4_flips_horizontally() {
    let t = sample_texture();
    let mut bytes = encode(&t, 32, false, false).unwrap();
    bytes[17] = 1 << 4;
    let back = decode(&bytes).unwrap();
    for y in 0..2u32 {
        for x in 0..3u32 {
            assert_eq!(back.get_color(x, y).unwrap(), t.get_color(2 - x, y).unwrap());
        }
    }
}

#[test]
fn decode_descriptor_bit5_flips_vertically() {
    let t = sample_texture();
    let mut bytes = encode(&t, 32, false, false).unwrap();
    bytes[17] = 1 << 5;
    let back = decode(&bytes).unwrap();
    for y in 0..2u32 {
        for x in 0..3u32 {
            assert_eq!(back.get_color(x, y).unwrap(), t.get_color(x, 1 - y).unwrap());
        }
    }
}

#[test]
fn read_n_bytes_copies_or_fails() {
    let data = vec![1u8, 2, 3, 4, 5];
    assert_eq!(read_n_bytes(&data, 1, 3).unwrap(), vec![2, 3, 4]);
    assert_eq!(read_n_bytes(&data, 0, 5).unwrap(), data);
    assert_eq!(read_n_bytes(&data, 3, 3).unwrap_err(), RenderError::ReadError);
}
