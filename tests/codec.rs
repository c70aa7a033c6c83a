use bmp_codec::{
    calculate_image_size, calculate_row_length, BMPixel, Bmp, DecodeError, FileHeader, InfoHeader,
    Ode5Bmp,
};

fn le32(b: &[u8], i: usize) -> u32 {
    u32::from_le_bytes([b[i], b[i + 1], b[i + 2], b[i + 3]])
}

fn grid(width: usize, height: usize, pixels: &[u32]) -> Bmp {
    let mut bmp = Bmp::new(width, height);
    for y in 0..height {
        for x in 0..width {
            bmp.set_pixel(x, y, BMPixel(pixels[y * width + x]));
        }
    }
    bmp
}

#[test]
fn row_stride_examples() {
    assert_eq!(calculate_row_length(45), 136);
    assert_eq!(calculate_row_length(4), 12);
    assert_eq!(calculate_row_length(0), 0);
    assert_eq!(calculate_row_length(1), 4);
    assert_eq!(calculate_row_length(2), 8);
    assert_eq!(calculate_row_length(3), 12);
}

#[test]
fn row_stride_is_aligned() {
    for w in 0..200usize {
        let s = calculate_row_length(w);
        assert_eq!(s % 4, 0);
        assert!(s >= 3 * w && s - 3 * w <= 3);
    }
}

#[test]
fn image_size_examples() {
    assert_eq!(calculate_image_size(45, 30), 4080);
    assert_eq!(calculate_image_size(2, 2), 16);
    assert_eq!(calculate_image_size(7, 0), 0);
    assert_eq!(calculate_image_size(3, 5), calculate_row_length(3) * 5);
}

#[test]
fn header_sizes() {
    let bytes = grid(5, 3, &[0x010203; 15]).encode();
    let size = calculate_image_size(5, 3) as u32;
    assert_eq!(le32(&bytes, 2), 54 + size);
    assert_eq!(le32(&bytes, 10), 54);
    assert_eq!(le32(&bytes, 34), size);
    assert_eq!(bytes.len(), 54 + size as usize);
}

#[test]
fn header_fields() {
    let bytes = grid(5, 3, &[0; 15]).encode();
    assert_eq!(&bytes[0..2], &[0x42, 0x4d]);
    assert_eq!(&bytes[6..10], &[0, 0, 0, 0]);
    assert_eq!(le32(&bytes, 14), 40);
    assert_eq!(le32(&bytes, 18), 5);
    assert_eq!(le32(&bytes, 22), 3);
    assert_eq!(&bytes[26..30], &[1, 0, 24, 0]);
    assert_eq!(le32(&bytes, 30), 0);
    assert!(bytes[38..54].iter().all(|b| *b == 0));
}

#[test]
fn bottom_up_storage() {
    let bytes = grid(3, 2, &[0x0000ff, 0, 0, 0, 0, 0]).encode();
    let data = &bytes[54..];
    let stride = calculate_row_length(3);
    assert!(data[..stride].iter().all(|b| *b == 0));
    assert_eq!(&data[stride..stride + 3], &[0xff, 0, 0]);
    assert!(data[stride + 3..].iter().all(|b| *b == 0));
}

#[test]
fn channels_stored_blue_green_red() {
    let bytes = grid(1, 1, &[0x112233]).encode();
    assert_eq!(&bytes[54..], &[0x33, 0x22, 0x11, 0]);
}

#[test]
fn two_by_two_scenario() {
    let pixels = [0xff0000, 0x00ff00, 0x0000ff, 0x000000];
    let bmp = grid(2, 2, &pixels);
    let bytes = bmp.encode();
    assert_eq!(bytes.len(), 70);
    assert_eq!(
        &bytes[54..],
        &[0xff, 0, 0, 0, 0, 0, 0, 0, 0, 0, 0xff, 0, 0xff, 0, 0, 0]
    );
    let back = Bmp::decode(&bytes).unwrap();
    assert_eq!(back.width, 2);
    assert_eq!(back.height, 2);
    let values: Vec<u32> = back.pixels.iter().map(|p| p.0).collect();
    assert_eq!(values, pixels.to_vec());
}

#[test]
fn round_trip_odd_widths() {
    for w in 1..7usize {
        for h in 1..4usize {
            let pixels: Vec<u32> = (0..w * h).map(|i| (i as u32 * 0x010305) & 0xff_ffff).collect();
            let bmp = grid(w, h, &pixels);
            assert_eq!(Bmp::decode(&bmp.encode()).unwrap(), bmp);
        }
    }
}

#[test]
fn rejects_wrong_signature() {
    let mut bytes = grid(2, 2, &[1, 2, 3, 4]).encode();
    bytes[0] = 0x50;
    assert_eq!(Bmp::decode(&bytes), Err(DecodeError::Format));
    let mut bytes = grid(2, 2, &[1, 2, 3, 4]).encode();
    bytes[1] = 0x00;
    assert_eq!(Bmp::decode(&bytes), Err(DecodeError::Format));
}

#[test]
fn rejects_other_bit_depth() {
    let mut bytes = grid(2, 2, &[1, 2, 3, 4]).encode();
    bytes[28] = 8;
    assert_eq!(Bmp::decode(&bytes), Err(DecodeError::UnsupportedFormat));
}

#[test]
fn rejects_compression() {
    let mut bytes = grid(2, 2, &[1, 2, 3, 4]).encode();
    bytes[30] = 1;
    assert_eq!(Bmp::decode(&bytes), Err(DecodeError::UnsupportedFormat));
}

#[test]
fn rejects_truncated_streams() {
    let bytes = grid(2, 2, &[1, 2, 3, 4]).encode();
    assert_eq!(Bmp::decode(&bytes[..69]), Err(DecodeError::TruncatedInput));
    assert_eq!(Bmp::decode(&bytes[..54]), Err(DecodeError::TruncatedInput));
    assert_eq!(Bmp::decode(&bytes[..30]), Err(DecodeError::TruncatedInput));
    assert_eq!(Bmp::decode(&bytes[..5]), Err(DecodeError::TruncatedInput));
    assert_eq!(Bmp::decode(&[]), Err(DecodeError::TruncatedInput));
}

#[test]
fn rejects_size_mismatch() {
    let mut bytes = grid(2, 2, &[1, 2, 3, 4]).encode();
    bytes[34] = 12;
    assert_eq!(Bmp::decode(&bytes), Err(DecodeError::SizeMismatch));
}

#[test]
fn decode_honours_data_offset() {
    let bytes = grid(1, 2, &[0x0a0b0c, 0x010203]).encode();
    let mut shifted = bytes[..54].to_vec();
    shifted[10] = 58;
    shifted.extend_from_slice(&[9, 9, 9, 9]);
    shifted.extend_from_slice(&bytes[54..]);
    let bmp = Bmp::decode(&shifted).unwrap();
    assert_eq!(bmp.pixels, vec![BMPixel(0x0a0b0c), BMPixel(0x010203)]);
}

#[test]
fn decode_empty_image() {
    let bmp = Bmp::new(4, 0);
    let bytes = bmp.encode();
    assert_eq!(bytes.len(), 54);
    let back = Bmp::decode(&bytes).unwrap();
    assert_eq!(back, bmp);
}

#[test]
fn file_header_bytes() {
    let h = FileHeader::new(70);
    assert_eq!(
        h.to_bytes(),
        vec![0x42, 0x4d, 70, 0, 0, 0, 0, 0, 0, 0, 54, 0, 0, 0]
    );
    let back = FileHeader::from_bytes(&h.to_bytes());
    assert_eq!(back.signature, [0x42, 0x4d]);
    assert_eq!(back.file_size, 70);
    assert_eq!(back.data_offset, 54);
}

#[test]
fn info_header_bytes() {
    let mut h = InfoHeader::default();
    h.width = 0x0102;
    h.height = 3;
    h.image_size = 0x0a0b0c0d;
    let bytes = h.to_bytes();
    assert_eq!(bytes.len(), 40);
    assert_eq!(&bytes[0..12], &[40, 0, 0, 0, 2, 1, 0, 0, 3, 0, 0, 0]);
    assert_eq!(&bytes[20..24], &[0x0d, 0x0c, 0x0b, 0x0a]);
    let back = InfoHeader::from_bytes(&bytes);
    assert_eq!(back.width, 0x0102);
    assert_eq!(back.bit_count, 24);
    assert_eq!(back.planes, 1);
    assert_eq!(back.image_size, 0x0a0b0c0d);
}

#[test]
fn encoded_form_matches_encode() {
    let bmp = grid(3, 1, &[1, 2, 3]);
    let ode5 = Ode5Bmp::new(&bmp);
    assert_eq!(ode5.data.len(), 12);
    assert_eq!(ode5.to_bytes(), bmp.encode());
    let empty = Ode5Bmp::default();
    assert!(empty.data.is_empty());
    assert_eq!(empty.file_header.data_offset, 54);
}
