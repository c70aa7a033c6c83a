use bmp_codec::{BMPixel, Bmp, BoundingBox, DecodeError};

fn blue_square() -> Bmp {
    let mut bmp = Bmp::new(45, 30);
    bmp.fill(
        BoundingBox {
            x1: 0,
            y1: 0,
            x2: 45,
            y2: 30,
        },
        BMPixel(0x00_00ff),
    );
    bmp
}

fn green_blue_square() -> Bmp {
    let mut bmp = Bmp::new(12, 12);
    bmp.fill(
        BoundingBox {
            x1: 0,
            y1: 0,
            x2: 12,
            y2: 6,
        },
        BMPixel(0x00_ff00),
    );
    bmp.fill(
        BoundingBox {
            x1: 0,
            y1: 6,
            x2: 12,
            y2: 12,
        },
        BMPixel(0x00_00ff),
    );
    bmp
}

#[test]
fn test_read_bmp_pixels() {
    let bytes = blue_square().encode();
    let bmp = Bmp::decode(&bytes).unwrap();
    assert_eq!(bmp.width, 45);
    assert_eq!(bmp.height, 30);
    assert_eq!(bmp.pixels[0], BMPixel(0x00_00ff));
}

#[test]
fn test_write_bmp() {
    let bmp = blue_square();
    let bytes = bmp.encode();
    assert_eq!(bytes.len(), 54 + 4080);
}

#[test]
fn test_roundtrip() {
    let bmp = Bmp::decode(&green_blue_square().encode()).unwrap();
    let bytes = bmp.encode();
    let bmp2 = Bmp::decode(&bytes).unwrap();
    assert_eq!(bmp, bmp2);
    assert_eq!(bmp2, green_blue_square());
}

#[test]
fn pixel_channels() {
    let p = BMPixel(0x12_3456);
    assert_eq!(p.red(), 0x12);
    assert_eq!(p.green(), 0x34);
    assert_eq!(p.blue(), 0x56);
    assert_eq!(BMPixel(0xab12_3456).red(), 0x12);
    assert_eq!(BMPixel::from_rgb(0x12, 0x34, 0x56), p);
    assert_eq!(BMPixel::empty(), BMPixel(0));
}

#[test]
fn new_grid_is_empty() {
    let bmp = Bmp::new(3, 2);
    assert_eq!(bmp.width, 3);
    assert_eq!(bmp.height, 2);
    assert_eq!(bmp.pixels, vec![BMPixel(0); 6]);
    let none = Bmp::new(0, 0);
    assert!(none.pixels.is_empty());
}

#[test]
fn set_pixel_is_row_major() {
    let mut bmp = Bmp::new(3, 2);
    bmp.set_pixel(2, 1, BMPixel(7));
    bmp.set_pixel(1, 0, BMPixel(9));
    assert_eq!(
        bmp.pixels,
        vec![BMPixel(0), BMPixel(9), BMPixel(0), BMPixel(0), BMPixel(0), BMPixel(7)]
    );
}

#[test]
fn fill_touches_only_the_box() {
    let mut bmp = Bmp::new(4, 3);
    bmp.fill(
        BoundingBox {
            x1: 1,
            y1: 1,
            x2: 3,
            y2: 3,
        },
        BMPixel(5),
    );
    let e = BMPixel(0);
    let f = BMPixel(5);
    assert_eq!(bmp.pixels, vec![e, e, e, e, e, f, f, e, e, f, f, e]);
    bmp.fill(
        BoundingBox {
            x1: 3,
            y1: 0,
            x2: 1,
            y2: 3,
        },
        BMPixel(8),
    );
    assert_eq!(bmp.pixels, vec![e, e, e, e, e, f, f, e, e, f, f, e]);
}

#[test]
fn fill_with_empty_box_outside_the_grid() {
    let mut bmp = Bmp::new(4, 3);
    bmp.fill(
        BoundingBox {
            x1: 9,
            y1: 0,
            x2: 9,
            y2: 20,
        },
        BMPixel(5),
    );
    bmp.fill(
        BoundingBox {
            x1: 0,
            y1: 7,
            x2: 30,
            y2: 7,
        },
        BMPixel(5),
    );
    assert_eq!(bmp, Bmp::new(4, 3));
}

#[test]
fn decode_error_is_comparable() {
    assert_ne!(DecodeError::Format, DecodeError::TruncatedInput);
}
