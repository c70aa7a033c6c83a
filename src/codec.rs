//! Whole-image encoding and decoding.

use vstd::prelude::*;
use vstd::arithmetic::div_mod::lemma_fundamental_div_mod;
use crate::geometry::{calculate_row_length, image_size, lemma_row_offset, row_stride};
use crate::models::{
    grid_index, lemma_grid_index, lemma_grid_index_bound, lemma_pack_channels, pack_rgb, BMPixel,
    Bmp,
};
use crate::repr::{
    channel, encodable, file_header_bytes, info_header_bytes, le16_at, le16_bytes, le32_at,
    le32_bytes, pixel_data, FileHeader, InfoHeader, Ode5Bmp, FILE_HEADER_SIZE, INFO_HEADER_SIZE,
    PIXEL_DATA_OFFSET,
};

verus! {

/// Why a byte stream could not be decoded.
#[derive(Debug, Clone, Copy, PartialEq, Eq, Structural)]
pub enum DecodeError {
    /// The stream does not start with the signature "BM".
    Format,
    /// The bit depth is not 24, or the pixel data is compressed.
    UnsupportedFormat,
    /// The stream ends before a header or the declared pixel data does.
    TruncatedInput,
    /// The declared pixel-data size differs from the one the width and
    /// height call for.
    SizeMismatch,
}

/// The file header of the stream of a `width` by `height` grid.
#[verifier::opaque]
pub open spec fn file_header_part(width: int, height: int) -> Seq<u8> {
    seq![0x42u8, 0x4Du8] + le32_bytes((PIXEL_DATA_OFFSET + image_size(width, height)) as u32)
        + le16_bytes(0) + le16_bytes(0) + le32_bytes(PIXEL_DATA_OFFSET)
}

/// The info header of the stream of a `width` by `height` grid.
#[verifier::opaque]
pub open spec fn info_header_part(width: int, height: int) -> Seq<u8> {
    le32_bytes(INFO_HEADER_SIZE) + le32_bytes(width as u32) + le32_bytes(height as u32)
        + le16_bytes(1) + le16_bytes(24) + le32_bytes(0) + le32_bytes(image_size(width, height) as u32)
        + le32_bytes(0) + le32_bytes(0) + le32_bytes(0) + le32_bytes(0)
}

/// The byte stream of a `width` by `height` grid: file header, info header,
/// then the pixel data.
pub open spec fn encoded(width: int, height: int, pixels: Seq<BMPixel>) -> Seq<u8> {
    file_header_part(width, height) + info_header_part(width, height) + pixel_data(
        width,
        height,
        pixels,
    )
}

/// The declared pixel-data offset of a stream.
pub open spec fn declared_offset(b: Seq<u8>) -> int {
    le32_at(b, 10) as int
}

/// The declared width of a stream.
pub open spec fn declared_width(b: Seq<u8>) -> int {
    le32_at(b, 18) as int
}

/// The declared height of a stream.
pub open spec fn declared_height(b: Seq<u8>) -> int {
    le32_at(b, 22) as int
}

/// The declared pixel-data size of a stream.
pub open spec fn declared_size(b: Seq<u8>) -> int {
    le32_at(b, 34) as int
}

/// The error that decoding `b` ends in, if any, in the order the checks run.
pub open spec fn decode_error(b: Seq<u8>) -> Option<DecodeError> {
    if b.len() < FILE_HEADER_SIZE {
        Some(DecodeError::TruncatedInput)
    } else if b[0] != 0x42u8 || b[1] != 0x4Du8 {
        Some(DecodeError::Format)
    } else if b.len() < PIXEL_DATA_OFFSET {
        Some(DecodeError::TruncatedInput)
    } else if le16_at(b, 28) != 24 || le32_at(b, 30) != 0 {
        Some(DecodeError::UnsupportedFormat)
    } else if declared_size(b) != image_size(declared_width(b), declared_height(b)) {
        Some(DecodeError::SizeMismatch)
    } else if declared_offset(b) + declared_size(b) > b.len() {
        Some(DecodeError::TruncatedInput)
    } else {
        None
    }
}

/// The pixel that the stream `b` holds at column `x`, row `y` of a `width`
/// by `height` grid whose pixel data starts at `offset`: stored row
/// `height - 1 - y`, bytes blue, green, red.
pub open spec fn stored_pixel(b: Seq<u8>, offset: int, width: int, height: int, x: int, y: int) -> BMPixel {
    let at = offset + (height - 1 - y) * row_stride(width) + 3 * x;
    BMPixel(pack_rgb(b[at + 2], b[at + 1], b[at]))
}

/// The grid, top row first, that the stream `b` holds.
pub open spec fn decoded_pixels(b: Seq<u8>, offset: int, width: int, height: int) -> Seq<BMPixel> {
    Seq::new(
        (width * height) as nat,
        |i: int| stored_pixel(b, offset, width, height, i % width, i / width),
    )
}

/// Reads a `width` by `height` grid from the pixel data at `offset`.
fn read_pixels(bytes: &[u8], offset: usize, width: usize, height: usize) -> (r: Vec<BMPixel>)
    requires
        3 * width + 3 <= usize::MAX,
        offset + image_size(width as int, height as int) <= bytes@.len(),
    ensures
        r@ == decoded_pixels(bytes@, offset as int, width as int, height as int),
{
    let ghost w = width as int;
    let ghost h = height as int;
    let ghost expected = decoded_pixels(bytes@, offset as int, w, h);
    let bytes_per_row: usize = calculate_row_length(width);
    // The length, as a usize, bounds every offset read below usize::MAX.
    let len: usize = bytes.len();
    let mut pixels: Vec<BMPixel> = Vec::new();
    let mut y: usize = 0;
    while y < height
        invariant
            w == width,
            h == height,
            expected == decoded_pixels(bytes@, offset as int, w, h),
            bytes_per_row == row_stride(w),
            offset + image_size(w, h) <= bytes@.len(),
            len == bytes@.len(),
            y <= height,
            pixels@ == expected.subrange(0, y * w),
        decreases height - y,
    {
        let stored_row: usize = height - 1 - y;
        let mut x: usize = 0;
        while x < width
            invariant
                w == width,
                h == height,
                expected == decoded_pixels(bytes@, offset as int, w, h),
                bytes_per_row == row_stride(w),
                offset + image_size(w, h) <= bytes@.len(),
                len == bytes@.len(),
                y < height,
                stored_row == height - 1 - y,
                x <= width,
                pixels@ == expected.subrange(0, y * w + x),
            decreases width - x,
        {
            proof {
                lemma_row_offset(w, h, stored_row as int, 3 * x as int);
                lemma_row_offset(w, h, stored_row as int, 3 * x + 2);
                lemma_grid_index(w, x as int, y as int);
                lemma_grid_index_bound(w, h, x as int, y as int);
            }
            let data_index: usize = offset + stored_row * bytes_per_row + x * 3;
            let b = bytes[data_index];
            let g = bytes[data_index + 1];
            let r = bytes[data_index + 2];
            pixels.push(BMPixel::from_rgb(r, g, b));
            x += 1;
            assert(pixels@ =~= expected.subrange(0, y * w + x));
        }
        y += 1;
        assert(y * w == (y - 1) * w + w) by (nonlinear_arith);
    }
    assert(y * w == w * h) by (nonlinear_arith)
        requires y == h;
    assert(pixels@ =~= expected);
    pixels
}

impl Bmp {
    /// The byte stream of this image.
    pub fn encode(&self) -> (r: Vec<u8>)
        requires
            self.wf(),
            encodable(self.width as int, self.height as int),
        ensures
            r@ == encoded(self.width as int, self.height as int, self.pixels@),
    {
        let ode5bmp = Ode5Bmp::new(self);
        let r = ode5bmp.to_bytes();
        proof {
            let (w, h) = (self.width as int, self.height as int);
            reveal(file_header_part);
            reveal(info_header_part);
            assert(file_header_bytes(ode5bmp.file_header) =~= file_header_part(w, h));
            assert(info_header_bytes(ode5bmp.info_header) =~= info_header_part(w, h));
        }
        r
    }

    /// The image that a byte stream holds.
    #[verifier::rlimit(40)]
    pub fn decode(bytes: &[u8]) -> (r: Result<Bmp, DecodeError>)
        ensures
            match r {
                Ok(bmp) => {
                    &&& decode_error(bytes@) is None
                    &&& bmp.wf()
                    &&& bmp.width == declared_width(bytes@)
                    &&& bmp.height == declared_height(bytes@)
                    &&& bmp.pixels@ == decoded_pixels(
                        bytes@,
                        declared_offset(bytes@),
                        bmp.width as int,
                        bmp.height as int,
                    )
                },
                Err(e) => decode_error(bytes@) == Some(e),
            },
    {
        if bytes.len() < FILE_HEADER_SIZE as usize {
            return Err(DecodeError::TruncatedInput);
        }
        let file_header = FileHeader::from_bytes(bytes);
        if file_header.signature[0] != 0x42 || file_header.signature[1] != 0x4d {
            return Err(DecodeError::Format);
        }
        if bytes.len() < PIXEL_DATA_OFFSET as usize {
            return Err(DecodeError::TruncatedInput);
        }
        let mut info_bytes: Vec<u8> = Vec::new();
        let mut i: usize = FILE_HEADER_SIZE as usize;
        while i < PIXEL_DATA_OFFSET as usize
            invariant
                FILE_HEADER_SIZE <= i <= PIXEL_DATA_OFFSET,
                bytes@.len() >= PIXEL_DATA_OFFSET,
                info_bytes@ == bytes@.subrange(FILE_HEADER_SIZE as int, i as int),
            decreases PIXEL_DATA_OFFSET - i,
        {
            info_bytes.push(bytes[i]);
            i += 1;
            assert(info_bytes@ =~= bytes@.subrange(FILE_HEADER_SIZE as int, i as int));
        }
        let info_header = InfoHeader::from_bytes(info_bytes.as_slice());
        if info_header.bit_count != 24 || info_header.compression != 0 {
            return Err(DecodeError::UnsupportedFormat);
        }
        let width64: u64 = info_header.width as u64;
        let stride64: u64 = width64 * 3 + (4 - (width64 * 3) % 4) % 4;
        assert((stride64 as u128) * (info_header.height as u128) <= 0x4_0000_0000u128 * 0xffff_ffffu128)
            by (nonlinear_arith)
            requires stride64 <= 0x4_0000_0000u64, info_header.height <= 0xffff_ffffu32;
        if (stride64 as u128) * (info_header.height as u128) != info_header.image_size as u128 {
            return Err(DecodeError::SizeMismatch);
        }
        if (file_header.data_offset as u64) + (info_header.image_size as u64) > bytes.len() as u64 {
            return Err(DecodeError::TruncatedInput);
        }
        let width: usize = info_header.width as usize;
        let height: usize = info_header.height as usize;
        let pixels: Vec<BMPixel> = if height == 0 {
            Vec::new()
        } else {
            proof {
                let s = row_stride(width as int);
                assert(s <= s * height) by (nonlinear_arith)
                    requires height >= 1, s >= 0;
            }
            read_pixels(bytes, file_header.data_offset as usize, width, height)
        };
        proof {
            if height == 0 {
                assert(width as int * 0 == 0);
                assert(pixels@ =~= decoded_pixels(bytes@, declared_offset(bytes@), width as int, 0));
            }
        }
        Ok(Bmp { width, height, pixels })
    }
}

/// The fields of the file header of the stream of a grid.
proof fn lemma_file_header_part(width: int, height: int)
    requires
        0 <= width,
        0 <= height,
        PIXEL_DATA_OFFSET + image_size(width, height) <= u32::MAX,
    ensures
        file_header_part(width, height).len() == FILE_HEADER_SIZE,
        file_header_part(width, height)[0] == 0x42u8,
        file_header_part(width, height)[1] == 0x4Du8,
        le32_at(file_header_part(width, height), 2) == PIXEL_DATA_OFFSET + image_size(width, height),
        le32_at(file_header_part(width, height), 10) == PIXEL_DATA_OFFSET,
{
    reveal(file_header_part);
    assert(row_stride(width) * height >= 0) by (nonlinear_arith)
        requires row_stride(width) >= 0, height >= 0;
    let f = file_header_part(width, height);
    let size = (PIXEL_DATA_OFFSET + image_size(width, height)) as u32;
    assert(f.subrange(2, 6) =~= le32_bytes(size));
    assert(f.subrange(10, 14) =~= le32_bytes(PIXEL_DATA_OFFSET));
    lemma_le32_at_bytes(f, 2, size);
    lemma_le32_at_bytes(f, 10, PIXEL_DATA_OFFSET);
}

/// The fields of the info header of the stream of a grid.
proof fn lemma_info_header_part(width: int, height: int)
    requires
        encodable(width, height),
    ensures
        info_header_part(width, height).len() == INFO_HEADER_SIZE,
        le32_at(info_header_part(width, height), 4) == width as u32,
        le32_at(info_header_part(width, height), 8) == height as u32,
        le16_at(info_header_part(width, height), 14) == 24,
        le32_at(info_header_part(width, height), 16) == 0,
        le32_at(info_header_part(width, height), 20) == image_size(width, height),
{
    reveal(info_header_part);
    let f = info_header_part(width, height);
    let size = image_size(width, height) as u32;
    assert(f.subrange(4, 8) =~= le32_bytes(width as u32));
    assert(f.subrange(8, 12) =~= le32_bytes(height as u32));
    assert(f.subrange(16, 20) =~= le32_bytes(0));
    assert(f.subrange(20, 24) =~= le32_bytes(size));
    assert(f[14] == le16_bytes(24)[0] && f[15] == le16_bytes(24)[1]);
    lemma_le32_at_bytes(f, 4, width as u32);
    lemma_le32_at_bytes(f, 8, height as u32);
    lemma_le32_at_bytes(f, 16, 0);
    lemma_le32_at_bytes(f, 20, size);
}

/// The header of the stream of a grid occupies its first 54 bytes, and the
/// pixel data follows it.
proof fn lemma_encoded_layout(width: int, height: int, pixels: Seq<BMPixel>)
    requires
        encodable(width, height),
    ensures
        encoded(width, height, pixels).len() == PIXEL_DATA_OFFSET + image_size(width, height),
        encoded(width, height, pixels)[0] == 0x42u8,
        encoded(width, height, pixels)[1] == 0x4Du8,
        le32_at(encoded(width, height, pixels), 2) == PIXEL_DATA_OFFSET + image_size(width, height),
        le32_at(encoded(width, height, pixels), 10) == PIXEL_DATA_OFFSET,
        le32_at(encoded(width, height, pixels), 18) == width as u32,
        le32_at(encoded(width, height, pixels), 22) == height as u32,
        le16_at(encoded(width, height, pixels), 28) == 24,
        le32_at(encoded(width, height, pixels), 30) == 0,
        le32_at(encoded(width, height, pixels), 34) == image_size(width, height),
        forall|j: int|
            0 <= j < image_size(width, height) ==> #[trigger] encoded(width, height, pixels)[
            PIXEL_DATA_OFFSET + j] == pixel_data(width, height, pixels)[j],
{
    lemma_file_header_part(width, height);
    lemma_info_header_part(width, height);
}

/// The four bytes at `i` of `b` are those of `v`, so `v` reads back there.
proof fn lemma_le32_at_bytes(b: Seq<u8>, i: int, v: u32)
    requires
        0 <= i,
        i + 4 <= b.len(),
        b.subrange(i, i + 4) == le32_bytes(v),
    ensures
        le32_at(b, i) == v,
{
    assert(b[i] == b.subrange(i, i + 4)[0]);
    assert(b[i + 1] == b.subrange(i, i + 4)[1]);
    assert(b[i + 2] == b.subrange(i, i + 4)[2]);
    assert(b[i + 3] == b.subrange(i, i + 4)[3]);
}

/// Every encoded stream declares a file size of 54 bytes of headers plus the
/// pixel-data size, and a pixel-data offset of 54.
pub proof fn lemma_header_sizes(width: int, height: int, pixels: Seq<BMPixel>)
    requires
        0 <= width,
        0 <= height,
        PIXEL_DATA_OFFSET + image_size(width, height) <= u32::MAX,
    ensures
        le32_at(encoded(width, height, pixels), 2) == PIXEL_DATA_OFFSET + image_size(width, height),
        le32_at(encoded(width, height, pixels), 10) == PIXEL_DATA_OFFSET,
        encoded(width, height, pixels).len() == PIXEL_DATA_OFFSET + image_size(width, height),
{
    lemma_file_header_part(width, height);
    reveal(info_header_part);
}

/// Rows are stored bottom-up: channel `k` (blue, green, red) of the pixel at
/// column `x`, row `y` lies in stored row `height - 1 - y` of the pixel data.
pub proof fn lemma_bottom_up_storage(
    width: int,
    height: int,
    pixels: Seq<BMPixel>,
    x: int,
    y: int,
    k: int,
)
    requires
        encodable(width, height),
        pixels.len() == width * height,
        0 <= x < width,
        0 <= y < height,
        0 <= k < 3,
    ensures
        encoded(width, height, pixels)[PIXEL_DATA_OFFSET + (height - 1 - y) * row_stride(width) + 3
            * x + k] == channel(pixels[grid_index(width, x, y)].0, k),
{
    lemma_encoded_layout(width, height, pixels);
    lemma_row_offset(width, height, height - 1 - y, 3 * x + k);
    assert((3 * x + k) / 3 == x && (3 * x + k) % 3 == k);
}

/// Decoding the stream of a grid of 24-bit pixels gives the grid back: the
/// stream is accepted, declares the grid's width and height, and holds its
/// pixels in order.
pub proof fn lemma_round_trip(width: int, height: int, pixels: Seq<BMPixel>)
    requires
        width >= 1,
        height >= 1,
        pixels.len() == width * height,
        forall|i: int| 0 <= i < pixels.len() ==> #[trigger] pixels[i].is_24_bit(),
        encodable(width, height),
    ensures
        decode_error(encoded(width, height, pixels)) is None,
        declared_width(encoded(width, height, pixels)) == width,
        declared_height(encoded(width, height, pixels)) == height,
        decoded_pixels(
            encoded(width, height, pixels),
            declared_offset(encoded(width, height, pixels)),
            width,
            height,
        ) == pixels,
{
    let e = encoded(width, height, pixels);
    lemma_encoded_layout(width, height, pixels);
    assert(width <= u32::MAX);
    let d = decoded_pixels(e, PIXEL_DATA_OFFSET as int, width, height);
    assert forall|i: int| 0 <= i < pixels.len() implies d[i] == pixels[i] by {
        let x = i % width;
        let y = i / width;
        lemma_fundamental_div_mod(i, width);
        assert(0 <= y < height) by (nonlinear_arith)
            requires
                0 <= i < width * height,
                width >= 1,
                y == i / width,
                i == width * y + x,
                0 <= x < width;
        lemma_grid_index(width, x, y);
        lemma_bottom_up_storage(width, height, pixels, x, y, 0);
        lemma_bottom_up_storage(width, height, pixels, x, y, 1);
        lemma_bottom_up_storage(width, height, pixels, x, y, 2);
        assert(grid_index(width, x, y) == i) by (nonlinear_arith)
            requires i == width * y + x;
        assert(pixels[i].is_24_bit());
        lemma_pack_channels(pixels[i].0, 0, 0, 0);
        let at = PIXEL_DATA_OFFSET + (height - 1 - y) * row_stride(width) + 3 * x;
        assert(e[at] == channel(pixels[i].0, 0));
        assert(e[at + 1] == channel(pixels[i].0, 1));
        assert(e[at + 2] == channel(pixels[i].0, 2));
    }
    assert(d =~= pixels);
}

/// Decoding rejects a stream that lacks the signature, one that declares
/// another bit depth, and one whose pixel data ends early.
pub proof fn lemma_rejections(b: Seq<u8>)
    ensures
        b.len() >= FILE_HEADER_SIZE && (b[0] != 0x42u8 || b[1] != 0x4Du8) ==> decode_error(b)
            == Some(DecodeError::Format),
        b.len() >= PIXEL_DATA_OFFSET && b[0] == 0x42u8 && b[1] == 0x4Du8 && le16_at(b, 28) != 24
            ==> decode_error(b) == Some(DecodeError::UnsupportedFormat),
        b.len() >= PIXEL_DATA_OFFSET && b[0] == 0x42u8 && b[1] == 0x4Du8 && le16_at(b, 28) == 24
            && le32_at(b, 30) == 0 && declared_size(b) == image_size(
            declared_width(b),
            declared_height(b),
        ) && b.len() < declared_offset(b) + declared_size(b) ==> decode_error(b) == Some(
            DecodeError::TruncatedInput,
        ),
{
}

} // verus!
