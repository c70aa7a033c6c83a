//! The two fixed headers and the encoded form of an image.

use vstd::prelude::*;
use crate::geometry::{
    calculate_image_size, calculate_row_length, image_size, lemma_row_offset, row_stride,
};
use crate::models::{
    blue_of, green_of, grid_index, lemma_grid_index_bound, red_of, BMPixel, Bmp,
};

verus! {

/// Size in bytes of the file header.
pub const FILE_HEADER_SIZE: u32 = 14;

/// Size in bytes of the info header.
pub const INFO_HEADER_SIZE: u32 = 40;

/// Offset of the pixel data when it follows the two headers directly.
pub const PIXEL_DATA_OFFSET: u32 = 54;

/// Little-endian bytes of a 16-bit value.
pub open spec fn le16_bytes(v: u16) -> Seq<u8> {
    seq![(v % 0x100) as u8, (v / 0x100) as u8]
}

/// Little-endian bytes of a 32-bit value.
pub open spec fn le32_bytes(v: u32) -> Seq<u8> {
    seq![
        (v % 0x100) as u8,
        ((v / 0x100) % 0x100) as u8,
        ((v / 0x1_0000) % 0x100) as u8,
        (v / 0x100_0000) as u8,
    ]
}

/// The 16-bit value stored little-endian at offset `i` of `b`.
pub open spec fn le16_at(b: Seq<u8>, i: int) -> u16 {
    (b[i] as int + b[i + 1] as int * 0x100) as u16
}

/// The 32-bit value stored little-endian at offset `i` of `b`.
pub open spec fn le32_at(b: Seq<u8>, i: int) -> u32 {
    (b[i] as int + b[i + 1] as int * 0x100 + b[i + 2] as int * 0x1_0000 + b[i + 3] as int
        * 0x100_0000) as u32
}

fn push_le16(bytes: &mut Vec<u8>, v: u16)
    ensures
        final(bytes)@ == old(bytes)@ + le16_bytes(v),
{
    bytes.push((v % 0x100) as u8);
    bytes.push((v / 0x100) as u8);
    assert(final(bytes)@ =~= old(bytes)@ + le16_bytes(v));
}

fn push_le32(bytes: &mut Vec<u8>, v: u32)
    ensures
        final(bytes)@ == old(bytes)@ + le32_bytes(v),
{
    bytes.push((v % 0x100) as u8);
    bytes.push(((v / 0x100) % 0x100) as u8);
    bytes.push(((v / 0x1_0000) % 0x100) as u8);
    bytes.push((v / 0x100_0000) as u8);
    assert(final(bytes)@ =~= old(bytes)@ + le32_bytes(v));
}

fn read_le16(bytes: &[u8], i: usize) -> (r: u16)
    requires
        i + 2 <= bytes@.len(),
    ensures
        r == le16_at(bytes@, i as int),
{
    (bytes[i] as u16) + (bytes[i + 1] as u16) * 0x100
}

fn read_le32(bytes: &[u8], i: usize) -> (r: u32)
    requires
        i + 4 <= bytes@.len(),
    ensures
        r == le32_at(bytes@, i as int),
{
    (bytes[i] as u32) + (bytes[i + 1] as u32) * 0x100 + (bytes[i + 2] as u32) * 0x1_0000 + (
    bytes[i + 3] as u32) * 0x100_0000
}

/// The 14-byte header that opens the file: signature, file size, two reserved
/// fields and the offset of the pixel data.
#[derive(Debug)]
pub struct FileHeader {
    pub signature: [u8; 2],
    pub file_size: u32,
    pub reserved1: u16,
    pub reserved2: u16,
    pub data_offset: u32,
}

/// The bytes of a file header, fields in order, little-endian.
pub open spec fn file_header_bytes(h: FileHeader) -> Seq<u8> {
    h.signature@ + le32_bytes(h.file_size) + le16_bytes(h.reserved1) + le16_bytes(h.reserved2)
        + le32_bytes(h.data_offset)
}

impl FileHeader {
    /// A header with the signature "BM", zero reserved fields, pixel data
    /// right after the two headers, and the given file size.
    pub fn new(file_size: u32) -> (r: Self)
        ensures
            r.signature@ == seq![0x42u8, 0x4Du8],
            r.file_size == file_size,
            r.reserved1 == 0,
            r.reserved2 == 0,
            r.data_offset == PIXEL_DATA_OFFSET,
    {
        let r = Self {
            signature: [0x42, 0x4d],
            file_size,
            reserved1: 0,
            reserved2: 0,
            data_offset: PIXEL_DATA_OFFSET,
        };
        assert(r.signature@ =~= seq![0x42u8, 0x4Du8]);
        r
    }

    pub fn to_bytes(&self) -> (r: Vec<u8>)
        ensures
            r@ == file_header_bytes(*self),
            r@.len() == FILE_HEADER_SIZE,
    {
        let mut bytes: Vec<u8> = Vec::new();
        bytes.push(self.signature[0]);
        bytes.push(self.signature[1]);
        assert(bytes@ =~= self.signature@);
        push_le32(&mut bytes, self.file_size);
        push_le16(&mut bytes, self.reserved1);
        push_le16(&mut bytes, self.reserved2);
        push_le32(&mut bytes, self.data_offset);
        bytes
    }

    /// Reads a file header from the first 14 bytes of `bytes`.
    pub fn from_bytes(bytes: &[u8]) -> (r: Self)
        requires
            bytes@.len() >= FILE_HEADER_SIZE,
        ensures
            r.signature@ == bytes@.subrange(0, 2),
            r.file_size == le32_at(bytes@, 2),
            r.reserved1 == le16_at(bytes@, 6),
            r.reserved2 == le16_at(bytes@, 8),
            r.data_offset == le32_at(bytes@, 10),
    {
        let r = Self {
            signature: [bytes[0], bytes[1]],
            file_size: read_le32(bytes, 2),
            reserved1: read_le16(bytes, 6),
            reserved2: read_le16(bytes, 8),
            data_offset: read_le32(bytes, 10),
        };
        assert(r.signature@ =~= bytes@.subrange(0, 2));
        r
    }
}

/// The 40-byte header that describes the image's geometry and format.
#[derive(Debug)]
pub struct InfoHeader {
    pub header_size: u32,
    pub width: u32,
    pub height: u32,
    pub planes: u16,
    pub bit_count: u16,
    pub compression: u32,
    pub image_size: u32,
    pub x_pels_per_meter: u32,
    pub y_pels_per_meter: u32,
    pub colors_used: u32,
    pub colors_important: u32,
}

/// The bytes of an info header, fields in order, little-endian.
pub open spec fn info_header_bytes(h: InfoHeader) -> Seq<u8> {
    le32_bytes(h.header_size) + le32_bytes(h.width) + le32_bytes(h.height) + le16_bytes(h.planes)
        + le16_bytes(h.bit_count) + le32_bytes(h.compression) + le32_bytes(h.image_size)
        + le32_bytes(h.x_pels_per_meter) + le32_bytes(h.y_pels_per_meter) + le32_bytes(
        h.colors_used,
    ) + le32_bytes(h.colors_important)
}

impl Default for InfoHeader {
    /// An uncompressed 24-bit header of an image of no pixels.
    fn default() -> (r: Self)
        ensures
            r.header_size == INFO_HEADER_SIZE,
            r.width == 0,
            r.height == 0,
            r.planes == 1,
            r.bit_count == 24,
            r.compression == 0,
            r.image_size == 0,
            r.x_pels_per_meter == 0,
            r.y_pels_per_meter == 0,
            r.colors_used == 0,
            r.colors_important == 0,
    {
        Self {
            header_size: INFO_HEADER_SIZE,
            width: 0,
            height: 0,
            planes: 1,
            bit_count: 24,
            compression: 0,
            image_size: 0,
            x_pels_per_meter: 0,
            y_pels_per_meter: 0,
            colors_used: 0,
            colors_important: 0,
        }
    }
}

impl InfoHeader {
    pub fn to_bytes(&self) -> (r: Vec<u8>)
        ensures
            r@ == info_header_bytes(*self),
            r@.len() == INFO_HEADER_SIZE,
    {
        let mut bytes: Vec<u8> = Vec::new();
        push_le32(&mut bytes, self.header_size);
        push_le32(&mut bytes, self.width);
        push_le32(&mut bytes, self.height);
        push_le16(&mut bytes, self.planes);
        push_le16(&mut bytes, self.bit_count);
        push_le32(&mut bytes, self.compression);
        push_le32(&mut bytes, self.image_size);
        push_le32(&mut bytes, self.x_pels_per_meter);
        push_le32(&mut bytes, self.y_pels_per_meter);
        push_le32(&mut bytes, self.colors_used);
        push_le32(&mut bytes, self.colors_important);
        bytes
    }

    /// Reads an info header from the first 40 bytes of `bytes`.
    pub fn from_bytes(bytes: &[u8]) -> (r: Self)
        requires
            bytes@.len() >= INFO_HEADER_SIZE,
        ensures
            r.header_size == le32_at(bytes@, 0),
            r.width == le32_at(bytes@, 4),
            r.height == le32_at(bytes@, 8),
            r.planes == le16_at(bytes@, 12),
            r.bit_count == le16_at(bytes@, 14),
            r.compression == le32_at(bytes@, 16),
            r.image_size == le32_at(bytes@, 20),
            r.x_pels_per_meter == le32_at(bytes@, 24),
            r.y_pels_per_meter == le32_at(bytes@, 28),
            r.colors_used == le32_at(bytes@, 32),
            r.colors_important == le32_at(bytes@, 36),
    {
        Self {
            header_size: read_le32(bytes, 0),
            width: read_le32(bytes, 4),
            height: read_le32(bytes, 8),
            planes: read_le16(bytes, 12),
            bit_count: read_le16(bytes, 14),
            compression: read_le32(bytes, 16),
            image_size: read_le32(bytes, 20),
            x_pels_per_meter: read_le32(bytes, 24),
            y_pels_per_meter: read_le32(bytes, 28),
            colors_used: read_le32(bytes, 32),
            colors_important: read_le32(bytes, 36),
        }
    }
}

/// Channel `k` of a packed pixel in stored order: blue, green, red.
pub open spec fn channel(v: u32, k: int) -> u8 {
    if k == 0 {
        blue_of(v)
    } else if k == 1 {
        green_of(v)
    } else {
        red_of(v)
    }
}

/// Byte `col` of stored row `row` of a `width` by `height` grid. Rows are
/// stored bottom-up, so stored row `row` holds grid row `height - 1 - row`;
/// the bytes after three per pixel are zero padding.
pub open spec fn stored_byte(width: int, height: int, pixels: Seq<BMPixel>, row: int, col: int) -> u8 {
    if col < 3 * width {
        channel(pixels[grid_index(width, col / 3, height - 1 - row)].0, col % 3)
    } else {
        0
    }
}

/// The pixel-data block of a `width` by `height` grid.
pub open spec fn pixel_data(width: int, height: int, pixels: Seq<BMPixel>) -> Seq<u8> {
    Seq::new(
        image_size(width, height) as nat,
        |i: int| stored_byte(width, height, pixels, i / row_stride(width), i % row_stride(width)),
    )
}

/// The dimensions fit the format's 32-bit size and dimension fields.
pub open spec fn encodable(width: int, height: int) -> bool {
    &&& 0 <= width
    &&& 0 <= height <= u32::MAX
    &&& PIXEL_DATA_OFFSET + row_stride(width) <= u32::MAX
    &&& PIXEL_DATA_OFFSET + image_size(width, height) <= u32::MAX
}

impl FileHeader {
    /// The file header that this codec writes for a `width` by `height` image.
    pub open spec fn is_header_for(self, width: int, height: int) -> bool {
        &&& self.signature@ == seq![0x42u8, 0x4Du8]
        &&& self.file_size == PIXEL_DATA_OFFSET + image_size(width, height)
        &&& self.reserved1 == 0
        &&& self.reserved2 == 0
        &&& self.data_offset == PIXEL_DATA_OFFSET
    }
}

impl InfoHeader {
    /// The info header that this codec writes for a `width` by `height` image.
    pub open spec fn is_header_for(self, width: int, height: int) -> bool {
        &&& self.header_size == INFO_HEADER_SIZE
        &&& self.width == width
        &&& self.height == height
        &&& self.planes == 1
        &&& self.bit_count == 24
        &&& self.compression == 0
        &&& self.image_size == image_size(width, height)
        &&& self.x_pels_per_meter == 0
        &&& self.y_pels_per_meter == 0
        &&& self.colors_used == 0
        &&& self.colors_important == 0
    }
}

/// An image in its encoded form: the two headers and the pixel-data block.
#[derive(Debug)]
pub struct Ode5Bmp {
    pub file_header: FileHeader,
    pub info_header: InfoHeader,
    pub data: Vec<u8>,
}

impl Default for Ode5Bmp {
    /// The encoded form of an image of no pixels, before its size is set.
    fn default() -> (r: Self)
        ensures
            r.file_header.signature@ == seq![0x42u8, 0x4Du8],
            r.file_header.file_size == 0,
            r.file_header.reserved1 == 0,
            r.file_header.reserved2 == 0,
            r.file_header.data_offset == PIXEL_DATA_OFFSET,
            r.info_header.is_header_for(0, 0),
            r.data@.len() == 0,
    {
        let file_header = FileHeader::new(0);
        let info_header = InfoHeader::default();
        Self { file_header, info_header, data: Vec::new() }
    }
}

impl Ode5Bmp {
    /// The encoded form of `bmp`.
    pub fn new(bmp: &Bmp) -> (r: Self)
        requires
            bmp.wf(),
            encodable(bmp.width as int, bmp.height as int),
        ensures
            r.file_header.is_header_for(bmp.width as int, bmp.height as int),
            r.info_header.is_header_for(bmp.width as int, bmp.height as int),
            r.data@ == pixel_data(bmp.width as int, bmp.height as int, bmp.pixels@),
    {
        let mut ode5bmp = Self::default().with_dimensions(bmp.width, bmp.height);
        ode5bmp = ode5bmp.with_pixels(bmp.pixels.as_slice());
        assert(ode5bmp.file_header.signature@ =~= seq![0x42u8, 0x4Du8]);
        assert(ode5bmp.data@ =~= pixel_data(bmp.width as int, bmp.height as int, bmp.pixels@));
        ode5bmp
    }

    /// Sets the size fields of the headers for a `width` by `height` image
    /// and zero-fills the pixel data; every other header field is kept.
    fn with_dimensions(self, width: usize, height: usize) -> (r: Self)
        requires
            self.data@.len() == 0,
            encodable(width as int, height as int),
        ensures
            r.file_header.signature == self.file_header.signature,
            r.file_header.file_size == PIXEL_DATA_OFFSET + image_size(width as int, height as int),
            r.file_header.reserved1 == self.file_header.reserved1,
            r.file_header.reserved2 == self.file_header.reserved2,
            r.file_header.data_offset == self.file_header.data_offset,
            r.info_header.header_size == self.info_header.header_size,
            r.info_header.width == width,
            r.info_header.height == height,
            r.info_header.planes == self.info_header.planes,
            r.info_header.bit_count == self.info_header.bit_count,
            r.info_header.compression == self.info_header.compression,
            r.info_header.image_size == image_size(width as int, height as int),
            r.info_header.x_pels_per_meter == self.info_header.x_pels_per_meter,
            r.info_header.y_pels_per_meter == self.info_header.y_pels_per_meter,
            r.info_header.colors_used == self.info_header.colors_used,
            r.info_header.colors_important == self.info_header.colors_important,
            r.data@ == Seq::new(image_size(width as int, height as int) as nat, |i: int| 0u8),
    {
        let mut this = self;
        let bi_size_img: usize = calculate_image_size(width, height);
        let file_size: usize = PIXEL_DATA_OFFSET as usize + bi_size_img;
        this.file_header.file_size = file_size as u32;
        this.info_header.width = width as u32;
        this.info_header.height = height as u32;
        this.info_header.image_size = bi_size_img as u32;
        let mut data: Vec<u8> = Vec::with_capacity(bi_size_img);
        let mut i: usize = 0;
        while i < bi_size_img
            invariant
                i <= bi_size_img,
                data@ == Seq::new(i as nat, |j: int| 0u8),
            decreases bi_size_img - i,
        {
            data.push(0);
            i += 1;
            assert(data@ =~= Seq::new(i as nat, |j: int| 0u8));
        }
        this.data = data;
        this
    }

    /// Writes the pixels into the pixel data, bottom row first, each pixel as
    /// blue, green, red; the padding bytes at the end of each row are kept.
    fn with_pixels(self, pixels: &[BMPixel]) -> (r: Self)
        requires
            encodable(self.info_header.width as int, self.info_header.height as int),
            pixels@.len() == self.info_header.width * self.info_header.height,
            self.data@.len() == image_size(
                self.info_header.width as int,
                self.info_header.height as int,
            ),
        ensures
            r.file_header == self.file_header,
            r.info_header == self.info_header,
            r.data@.len() == self.data@.len(),
            forall|i: int|
                0 <= i < self.data@.len() ==> #[trigger] r.data@[i] == if i % row_stride(
                    self.info_header.width as int,
                ) < 3 * self.info_header.width {
                    pixel_data(
                        self.info_header.width as int,
                        self.info_header.height as int,
                        pixels@,
                    )[i]
                } else {
                    self.data@[i]
                },
    {
        let mut this = self;
        let width: usize = this.info_header.width as usize;
        let height: usize = this.info_header.height as usize;
        let ghost w = width as int;
        let ghost h = height as int;
        let ghost pd = pixel_data(w, h, pixels@);
        let ghost orig = self.data@;
        let row_length: usize = calculate_row_length(width);
        let ghost size = image_size(w, h);
        assert(w * h <= size) by (nonlinear_arith)
            requires size == row_stride(w) * h, row_stride(w) >= 3 * w, w >= 0, h >= 0;
        let mut row: usize = 0;
        while row < height
            invariant
                this.file_header == self.file_header,
                this.info_header == self.info_header,
                width == this.info_header.width,
                height == this.info_header.height,
                encodable(w, h),
                w == width,
                h == height,
                row_length == row_stride(w),
                pixels@.len() == w * h,
                w * h <= size,
                pd == pixel_data(w, h, pixels@),
                orig == self.data@,
                size == image_size(w, h),
                orig.len() == size,
                this.data@.len() == size,
                row <= height,
                forall|i: int|
                    0 <= i < size ==> #[trigger] this.data@[i] == if i < row * row_length && i
                        % (row_length as int) < 3 * w {
                        pd[i]
                    } else {
                        orig[i]
                    },
            decreases height - row,
        {
            let src_row: usize = height - 1 - row;
            let mut x: usize = 0;
            while x < width
                invariant
                    this.file_header == self.file_header,
                    this.info_header == self.info_header,
                    width == this.info_header.width,
                    height == this.info_header.height,
                    encodable(w, h),
                    w == width,
                    h == height,
                    row_length == row_stride(w),
                    pixels@.len() == w * h,
                    w * h <= size,
                    pd == pixel_data(w, h, pixels@),
                    orig == self.data@,
                    size == image_size(w, h),
                    orig.len() == size,
                    this.data@.len() == size,
                    row < height,
                    src_row == height - 1 - row,
                    x <= width,
                    forall|i: int|
                        0 <= i < size ==> #[trigger] this.data@[i] == if (i < row * row_length
                            || (row * row_length <= i < row * row_length + 3 * x)) && i
                            % (row_length as int) < 3 * w {
                            pd[i]
                        } else {
                            orig[i]
                        },
                decreases width - x,
            {
                proof {
                    lemma_row_offset(w, h, row as int, 3 * x as int);
                    lemma_row_offset(w, h, row as int, 3 * x + 1);
                    lemma_row_offset(w, h, row as int, 3 * x + 2);
                    lemma_grid_index_bound(w, h, x as int, src_row as int);
                    assert((3 * x as int) / 3 == x && (3 * x as int) % 3 == 0);
                    assert((3 * x as int + 1) / 3 == x && (3 * x as int + 1) % 3 == 1);
                    assert((3 * x as int + 2) / 3 == x && (3 * x as int + 2) % 3 == 2);
                }
                let pixel: BMPixel = pixels[src_row * width + x];
                let index: usize = row * row_length + x * 3;
                this.data.set(index, pixel.blue());
                this.data.set(index + 1, pixel.green());
                this.data.set(index + 2, pixel.red());
                x += 1;
            }
            proof {
                assert((row + 1) * row_length == row * row_length + row_length) by (nonlinear_arith);
                assert forall|i: int|
                    row * row_length + 3 * w <= i < (row + 1) * row_length implies #[trigger] (i % (row_length as int))
                        >= 3 * w by {
                    lemma_row_offset(w, h, row as int, i - row * row_length);
                }
            }
            row += 1;
        }
        proof {
            assert(height * row_length == size) by (nonlinear_arith)
                requires size == image_size(w, h), row_length == row_stride(w), height == h;
        }
        this
    }

    /// The encoded bytes: file header, info header, then the pixel data.
    pub fn to_bytes(&self) -> (r: Vec<u8>)
        ensures
            r@ == file_header_bytes(self.file_header) + info_header_bytes(self.info_header)
                + self.data@,
    {
        let mut bytes: Vec<u8> = self.file_header.to_bytes();
        let mut info: Vec<u8> = self.info_header.to_bytes();
        bytes.append(&mut info);
        let ghost prefix = bytes@;
        let mut i: usize = 0;
        while i < self.data.len()
            invariant
                i <= self.data@.len(),
                bytes@ == prefix + self.data@.subrange(0, i as int),
            decreases self.data@.len() - i,
        {
            bytes.push(self.data[i]);
            i += 1;
            assert(bytes@ =~= prefix + self.data@.subrange(0, i as int));
        }
        assert(self.data@.subrange(0, self.data@.len() as int) =~= self.data@);
        bytes
    }
}

} // verus!
