//! PNG decoding to 8-bit RGBA.
//!
//! Supported are 8- and 16-bit greyscale, RGB, palette, greyscale with alpha
//! and RGBA, all five filter types, and both interlaced and sequential layout.
//! Not supported, and rejected by name rather than decoded wrongly: sub-byte
//! depths and animation chunks. Chunk checksums are not verified.

use vstd::prelude::*;
use vstd::arithmetic::div_mod::lemma_fundamental_div_mod;
use vstd::arithmetic::div_mod::lemma_fundamental_div_mod_converse;
use crate::assets::fault::PngFault;
use crate::assets::inflate::inflate_zlib;
use crate::assets::inflate::zlib_inflated;
use crate::engine::error::EngineError;

verus! {

/// A decoded image: 8-bit RGBA, top row first.
#[derive(Clone, Debug, PartialEq, Eq)]
pub struct Image {
    pub width: u32,
    pub height: u32,
    /// `width * height * 4` bytes, RGBA.
    pub pixels: Vec<u8>,
}

impl Image {
    /// The pixel buffer has exactly one RGBA quadruple per pixel.
    pub open spec fn wf(&self) -> bool {
        self.pixels@.len() == self.width * self.height * 4
    }

    /// A solid-colour image, for tests and placeholders.
    pub fn solid(width: u32, height: u32, rgba: [u8; 4]) -> (r: Self)
        requires
            width * height <= u32::MAX,
        ensures
            r.width == width,
            r.height == height,
            r.pixels@ == Seq::new((width * height * 4) as nat, |k: int| rgba@[k % 4]),
    {
        let count: u32 = width * height;
        let mut pixels: Vec<u8> = Vec::new();
        let mut i: u32 = 0;
        while i < count
            invariant
                i <= count,
                pixels@ == Seq::new((i * 4) as nat, |k: int| rgba@[k % 4]),
            decreases count - i,
        {
            pixels.push(rgba[0]);
            pixels.push(rgba[1]);
            pixels.push(rgba[2]);
            pixels.push(rgba[3]);
            i = i + 1;
            assert(pixels@ =~= Seq::new((i * 4) as nat, |k: int| rgba@[k % 4]));
        }
        Image { width, height, pixels }
    }

    /// One pixel, or `None` outside the image.
    pub fn pixel(&self, x: u32, y: u32) -> (r: Option<[u8; 4]>)
        requires
            x < self.width && y < self.height ==> (y * self.width + x) * 4 <= u32::MAX,
        ensures
            match r {
                Some(p) => x < self.width && y < self.height && {
                    let at = (y * self.width + x) * 4;
                    at + 4 <= self.pixels@.len() && p@ == self.pixels@.subrange(at, at + 4)
                },
                None => x >= self.width || y >= self.height || (y * self.width + x) * 4 + 4
                    > self.pixels@.len(),
            },
    {
        if x >= self.width || y >= self.height {
            return None;
        }
        assert(0 <= y * self.width <= (y * self.width + x) * 4) by (nonlinear_arith);
        let index: usize = ((y * self.width + x) * 4) as usize;
        if index > self.pixels.len() || self.pixels.len() - index < 4 {
            return None;
        }
        let p = [
            self.pixels[index],
            self.pixels[index + 1],
            self.pixels[index + 2],
            self.pixels[index + 3],
        ];
        assert(p@ =~= self.pixels@.subrange(index as int, index + 4));
        Some(p)
    }

    /// Bytes the image occupies.
    pub fn byte_size(&self) -> (r: usize)
        ensures
            r == self.pixels@.len(),
    {
        self.pixels.len()
    }
}

/// PNG's fixed 8-byte signature.
pub const SIGNATURE: [u8; 8] = [0x89, 0x50, 0x4E, 0x47, 0x0D, 0x0A, 0x1A, 0x0A];

/// Largest accepted width or height, so a malformed header cannot ask for an
/// allocation that takes the process down.
pub const MAX_DIMENSION: u32 = 16_384;

/// Colour types from the header chunk.
#[derive(Clone, Copy, Debug, PartialEq, Eq, Structural)]
pub enum ColorType {
    Grey,
    Rgb,
    Palette,
    GreyAlpha,
    Rgba,
}

/// The colour type a header byte stands for.
pub open spec fn color_type_of(byte: u8) -> Option<ColorType> {
    if byte == 0 {
        Some(ColorType::Grey)
    } else if byte == 2 {
        Some(ColorType::Rgb)
    } else if byte == 3 {
        Some(ColorType::Palette)
    } else if byte == 4 {
        Some(ColorType::GreyAlpha)
    } else if byte == 6 {
        Some(ColorType::Rgba)
    } else {
        None
    }
}

impl ColorType {
    fn from_byte(byte: u8) -> (r: Option<Self>)
        ensures
            r == color_type_of(byte),
    {
        match byte {
            0 => Some(ColorType::Grey),
            2 => Some(ColorType::Rgb),
            3 => Some(ColorType::Palette),
            4 => Some(ColorType::GreyAlpha),
            6 => Some(ColorType::Rgba),
            _ => None,
        }
    }

    /// Channels per pixel in the source data. A palette index is one channel.
    pub open spec fn spec_channels(self) -> nat {
        match self {
            ColorType::Grey => 1,
            ColorType::Rgb => 3,
            ColorType::Palette => 1,
            ColorType::GreyAlpha => 2,
            ColorType::Rgba => 4,
        }
    }

    fn channels(self) -> (r: usize)
        ensures
            r == self.spec_channels(),
    {
        match self {
            ColorType::Grey => 1,
            ColorType::Rgb => 3,
            ColorType::Palette => 1,
            ColorType::GreyAlpha => 2,
            ColorType::Rgba => 4,
        }
    }
}

/// Header fields.
#[derive(Clone, Copy, Debug)]
pub struct Header {
    pub width: u32,
    pub height: u32,
    pub bit_depth: u8,
    pub color_type: ColorType,
    pub interlaced: bool,
}

impl Header {
    /// What every accepted header satisfies.
    pub open spec fn wf(&self) -> bool {
        &&& 1 <= self.width <= MAX_DIMENSION
        &&& 1 <= self.height <= MAX_DIMENSION
        &&& self.bit_depth == 8 || self.bit_depth == 16
        &&& self.color_type == ColorType::Palette ==> self.bit_depth == 8
    }

    /// Bytes of one sample.
    pub open spec fn sample_bytes(&self) -> nat {
        (self.bit_depth / 8) as nat
    }

    /// Bytes of one pixel in the filtered data.
    pub open spec fn pixel_bytes(&self) -> nat {
        self.color_type.spec_channels() * self.sample_bytes()
    }

    /// Bytes in one scanline of `width` pixels, excluding the filter byte.
    pub open spec fn line_bytes(&self, width: nat) -> nat {
        width * self.pixel_bytes()
    }

    fn bytes_per_pixel(&self) -> (r: usize)
        requires
            self.wf(),
        ensures
            r == self.pixel_bytes(),
            1 <= r <= 8,
    {
        let channels: usize = self.color_type.channels();
        if self.bit_depth == 16 {
            channels * 2
        } else {
            assert(channels * 1 == channels);
            channels
        }
    }

    fn row_bytes(&self, width: u32) -> (r: usize)
        requires
            self.wf(),
            width <= MAX_DIMENSION,
        ensures
            r == self.line_bytes(width as nat),
            width >= 1 ==> r >= 1,
            r <= 131072,
    {
        let bpp: usize = self.bytes_per_pixel();
        assert(width * bpp <= 16384 * 8) by (nonlinear_arith)
            requires
                width <= 16384,
                bpp <= 8,
        ;
        assert(width >= 1 ==> width * bpp >= 1) by (nonlinear_arith)
            requires
                bpp >= 1,
        ;
        width as usize * bpp
    }
}

/// The big-endian 32-bit integer at `at`.
pub open spec fn be32(s: Seq<u8>, at: int) -> nat {
    (s[at] as nat) * 0x100_0000 + (s[at + 1] as nat) * 0x1_0000 + (s[at + 2] as nat) * 0x100 + (
    s[at + 3] as nat)
}

fn read_be32(bytes: &[u8], at: usize) -> (r: u32)
    requires
        at + 4 <= bytes@.len(),
    ensures
        r == be32(bytes@, at as int),
{
    bytes[at] as u32 * 0x100_0000 + bytes[at + 1] as u32 * 0x1_0000 + bytes[at + 2] as u32 * 0x100
        + bytes[at + 3] as u32
}

/// The header a header chunk holds, or what is wrong with it.
pub open spec fn header_of(data: Seq<u8>) -> Result<Header, PngFault> {
    let width = be32(data, 0);
    let height = be32(data, 4);
    let depth = data[8];
    if data.len() < 13 {
        Err(PngFault::HeaderTooShort)
    } else {
        match color_type_of(data[9]) {
            None => Err(PngFault::ColorType(data[9])),
            Some(color_type) => if width == 0 || height == 0 {
                Err(PngFault::ZeroDimension)
            } else if width > MAX_DIMENSION || height > MAX_DIMENSION {
                Err(PngFault::TooBig { width: width as u32, height: height as u32 })
            } else if data[10] != 0 {
                Err(PngFault::Compression(data[10]))
            } else if data[11] != 0 {
                Err(PngFault::FilterMethod(data[11]))
            } else if data[12] > 1 {
                Err(PngFault::Interlace(data[12]))
            } else if depth == 1 || depth == 2 || depth == 4 {
                Err(PngFault::UnsupportedDepth(depth))
            } else if depth != 8 && depth != 16 {
                Err(PngFault::InvalidDepth(depth))
            } else if color_type == ColorType::Palette && depth != 8 {
                Err(PngFault::PaletteDepth)
            } else {
                Ok(
                    Header {
                        width: width as u32,
                        height: height as u32,
                        bit_depth: depth,
                        color_type,
                        interlaced: data[12] == 1,
                    },
                )
            },
        }
    }
}

/// Parse a header chunk.
fn parse_header(data: &[u8]) -> (r: Result<Header, PngFault>)
    ensures
        r == header_of(data@),
        r matches Ok(header) ==> header.wf(),
{
    if data.len() < 13 {
        return Err(PngFault::HeaderTooShort);
    }
    let width: u32 = read_be32(data, 0);
    let height: u32 = read_be32(data, 4);
    let bit_depth: u8 = data[8];
    let color_type = match ColorType::from_byte(data[9]) {
        Some(color_type) => color_type,
        None => {
            return Err(PngFault::ColorType(data[9]));
        },
    };
    let compression: u8 = data[10];
    let filter: u8 = data[11];
    let interlace: u8 = data[12];

    if width == 0 || height == 0 {
        return Err(PngFault::ZeroDimension);
    }
    if width > MAX_DIMENSION || height > MAX_DIMENSION {
        return Err(PngFault::TooBig { width, height });
    }
    if compression != 0 {
        return Err(PngFault::Compression(compression));
    }
    if filter != 0 {
        return Err(PngFault::FilterMethod(filter));
    }
    if interlace > 1 {
        return Err(PngFault::Interlace(interlace));
    }
    if bit_depth == 1 || bit_depth == 2 || bit_depth == 4 {
        return Err(PngFault::UnsupportedDepth(bit_depth));
    }
    if bit_depth != 8 && bit_depth != 16 {
        return Err(PngFault::InvalidDepth(bit_depth));
    }
    if color_type == ColorType::Palette && bit_depth != 8 {
        return Err(PngFault::PaletteDepth);
    }
    Ok(Header { width, height, bit_depth, color_type, interlaced: interlace == 1 })
}

// --- filters -----------------------------------------------------------------

/// Distance between two integers.
pub open spec fn distance(a: int, b: int) -> int {
    if a >= b {
        a - b
    } else {
        b - a
    }
}

/// The Paeth predictor: whichever of left, above and upper-left is closest to
/// `a + b - c`, ties going to the left byte, then to the one above.
pub open spec fn paeth_of(a: u8, b: u8, c: u8) -> u8 {
    let p = a + b - c;
    if distance(p, a as int) <= distance(p, b as int) && distance(p, a as int) <= distance(
        p,
        c as int,
    ) {
        a
    } else if distance(p, b as int) <= distance(p, c as int) {
        b
    } else {
        c
    }
}

/// The Paeth predictor.
pub fn paeth(a: u8, b: u8, c: u8) -> (r: u8)
    ensures
        r == paeth_of(a, b, c),
{
    let p: i32 = a as i32 + b as i32 - c as i32;
    let pa: i32 = if p >= a as i32 {
        p - a as i32
    } else {
        a as i32 - p
    };
    let pb: i32 = if p >= b as i32 {
        p - b as i32
    } else {
        b as i32 - p
    };
    let pc: i32 = if p >= c as i32 {
        p - c as i32
    } else {
        c as i32 - p
    };
    if pa <= pb && pa <= pc {
        a
    } else if pb <= pc {
        b
    } else {
        c
    }
}

/// What a filter adds to each byte, from the reconstructed bytes to the left,
/// above and upper-left.
pub open spec fn prediction(filter: u8, a: u8, b: u8, c: u8) -> u8 {
    if filter == 1 {
        a
    } else if filter == 2 {
        b
    } else if filter == 3 {
        ((a + b) / 2) as u8
    } else if filter == 4 {
        paeth_of(a, b, c)
    } else {
        0
    }
}

/// Byte `x` of line `y` with its filter undone. Neighbours are reconstructed
/// bytes, `bpp` bytes (one pixel) to the left and one line above; those outside
/// the image are zero.
#[verifier::opaque]
pub open spec fn reconstructed(raw: Seq<u8>, stride: int, bpp: int, y: int, x: int) -> u8
    decreases y, x,
    when y >= 0 && x >= 0 && bpp >= 1
{
    let line = y * (stride + 1);
    let a = if x >= bpp {
        reconstructed(raw, stride, bpp, y, x - bpp)
    } else {
        0
    };
    let b = if y > 0 {
        reconstructed(raw, stride, bpp, y - 1, x)
    } else {
        0
    };
    let c = if y > 0 && x >= bpp {
        reconstructed(raw, stride, bpp, y - 1, x - bpp)
    } else {
        0
    };
    ((raw[line + 1 + x] + prediction(raw[line], a, b, c)) % 256) as u8
}

/// The lines of a filtered image, reconstructed and concatenated.
pub open spec fn unfiltered(raw: Seq<u8>, height: nat, stride: nat, bpp: int) -> Seq<u8> {
    Seq::new(
        height * stride,
        |k: int| reconstructed(raw, stride as int, bpp, k / (stride as int), k % (stride as int)),
    )
}

/// The first thing wrong with the filtered lines from line `y` on.
pub open spec fn unfilter_fault(raw: Seq<u8>, height: nat, stride: nat, y: nat) -> Option<PngFault>
    decreases height - y,
{
    let line = y * (stride + 1);
    if y >= height {
        None
    } else if raw.len() <= line {
        Some(PngFault::MissingFilter(y as usize))
    } else if raw.len() - line - 1 < stride {
        Some(PngFault::TruncatedLine(y as usize))
    } else if stride > 0 && raw[line as int] > 4 {
        Some(PngFault::UnknownFilter { line: y as usize, filter: raw[line as int] })
    } else {
        unfilter_fault(raw, height, stride, y + 1)
    }
}

/// What a filter adds to a byte.
fn predict(filter: u8, a: u8, b: u8, c: u8) -> (r: u8)
    ensures
        r == prediction(filter, a, b, c),
{
    if filter == 1 {
        a
    } else if filter == 2 {
        b
    } else if filter == 3 {
        // The sum needs nine bits before it is halved.
        ((a as u16 + b as u16) / 2) as u8
    } else if filter == 4 {
        paeth(a, b, c)
    } else {
        0
    }
}

/// The bytes appended so far are the reconstructed ones, line after line.
spec fn lines_so_far(out: Seq<u8>, raw: Seq<u8>, stride: int, bpp: int) -> bool {
    forall|k: int|
        0 <= k < out.len() ==> #[trigger] out[k] == reconstructed(
            raw,
            stride,
            bpp,
            k / stride,
            k % stride,
        )
}

proof fn lemma_line_index(stride: int, y: int, x: int)
    requires
        0 <= x < stride,
        y >= 0,
    ensures
        (y * stride + x) / stride == y,
        (y * stride + x) % stride == x,
        y >= 1 ==> (y - 1) * stride == y * stride - stride && y * stride >= stride,
{
    lemma_fundamental_div_mod_converse(y * stride + x, stride, y, x);
    assert((y - 1) * stride == y * stride - stride) by (nonlinear_arith);
    assert(y >= 1 ==> y * stride >= stride) by (nonlinear_arith)
        requires
            stride >= 0,
    ;
}

/// Byte `x` of line `y`, from the bytes reconstructed before it.
fn reconstruct(
    out: &Vec<u8>,
    raw: &[u8],
    y: usize,
    x: usize,
    stride: usize,
    bpp: usize,
    offset: usize,
) -> (r: u8)
    requires
        bpp >= 1,
        x < stride,
        offset == y * (stride + 1),
        offset + 1 + stride <= raw@.len(),
        out@.len() == y * stride + x,
        lines_so_far(out@, raw@, stride as int, bpp as int),
    ensures
        r == reconstructed(raw@, stride as int, bpp as int, y as int, x as int),
{
    let at: usize = out.len();
    proof {
        lemma_line_index(stride as int, y as int, x as int);
        if x >= bpp {
            lemma_line_index(stride as int, y as int, x - bpp);
        }
        if y >= 1 {
            lemma_line_index(stride as int, y - 1, x as int);
            if x >= bpp {
                lemma_line_index(stride as int, y - 1, x - bpp);
            }
        }
    }
    // One pixel to the left, not one byte: one byte would smear the channels.
    let a: u8 = if x >= bpp {
        out[at - bpp]
    } else {
        0
    };
    let b: u8 = if y > 0 {
        out[at - stride]
    } else {
        0
    };
    let c: u8 = if y > 0 && x >= bpp {
        out[at - stride - bpp]
    } else {
        0
    };
    assert(offset + 1 + x < raw.len());
    let value: u8 = raw[offset + 1 + x].wrapping_add(predict(raw[offset], a, b, c));
    assert(value == reconstructed(raw@, stride as int, bpp as int, y as int, x as int)) by {
        reveal(reconstructed);
    }
    value
}

/// Undo the filter of one line, appending its bytes to the lines before it.
fn unfilter_line(out: &mut Vec<u8>, raw: &[u8], y: usize, stride: usize, bpp: usize, offset: usize)
    requires
        bpp >= 1,
        stride >= 1,
        offset == y * (stride + 1),
        offset + 1 + stride <= raw@.len(),
        old(out)@ == unfiltered(raw@, y as nat, stride as nat, bpp as int),
    ensures
        final(out)@ == unfiltered(raw@, (y + 1) as nat, stride as nat, bpp as int),
{
    let mut x: usize = 0;
    while x < stride
        invariant
            bpp >= 1,
            x <= stride,
            offset == y * (stride + 1),
            offset + 1 + stride <= raw@.len(),
            out@.len() == y * stride + x,
            lines_so_far(out@, raw@, stride as int, bpp as int),
        decreases stride - x,
    {
        let value: u8 = reconstruct(out, raw, y, x, stride, bpp, offset);
        proof {
            lemma_line_index(stride as int, y as int, x as int);
        }
        out.push(value);
        x = x + 1;
    }
    proof {
        assert((y + 1) * stride == y * stride + stride) by (nonlinear_arith);
        assert(out@ =~= unfiltered(raw@, (y + 1) as nat, stride as nat, bpp as int));
    }
}

/// Undo the per-scanline filters.
fn unfilter(raw: &[u8], height: usize, stride: usize, bpp: usize) -> (r: Result<Vec<u8>, PngFault>)
    requires
        bpp >= 1,
        stride >= 1,
    ensures
        match unfilter_fault(raw@, height as nat, stride as nat, 0) {
            None => r matches Ok(v) && v@ == unfiltered(
                raw@,
                height as nat,
                stride as nat,
                bpp as int,
            ),
            Some(fault) => r matches Err(f) && f == fault,
        },
{
    let mut out: Vec<u8> = Vec::new();
    let mut offset: usize = 0;
    let mut y: usize = 0;
    assert(0 * (stride + 1) == 0) by (nonlinear_arith);
    assert(0 * stride == 0) by (nonlinear_arith);
    assert(out@ =~= unfiltered(raw@, 0, stride as nat, bpp as int));
    while y < height
        invariant
            bpp >= 1,
            stride >= 1,
            y <= height,
            offset == y * (stride + 1),
            offset <= raw@.len(),
            out@ == unfiltered(raw@, y as nat, stride as nat, bpp as int),
            unfilter_fault(raw@, height as nat, stride as nat, 0) == unfilter_fault(
                raw@,
                height as nat,
                stride as nat,
                y as nat,
            ),
        decreases height - y,
    {
        if raw.len() <= offset {
            return Err(PngFault::MissingFilter(y));
        }
        if raw.len() - offset - 1 < stride {
            return Err(PngFault::TruncatedLine(y));
        }
        let filter: u8 = raw[offset];
        if filter > 4 {
            return Err(PngFault::UnknownFilter { line: y, filter });
        }
        unfilter_line(&mut out, raw, y, stride, bpp, offset);
        assert(offset + 1 + stride <= raw.len());
        assert((y + 1) * (stride + 1) == y * (stride + 1) + stride + 1) by (nonlinear_arith);
        offset = offset + 1 + stride;
        y = y + 1;
    }
    Ok(out)
}

// --- colour conversion -------------------------------------------------------

/// A source byte; bytes past the end read as zero.
pub open spec fn source_byte(data: Seq<u8>, i: int) -> u8 {
    if i < data.len() {
        data[i]
    } else {
        0
    }
}

/// The RGBA colour of pixel (`x`, `y`) of reconstructed lines. Sixteen-bit
/// samples keep their high byte. Palette entries that are missing are black,
/// and entries past the transparency table are opaque.
pub open spec fn pixel_color(
    header: Header,
    data: Seq<u8>,
    stride: int,
    palette: Seq<u8>,
    alpha: Seq<u8>,
    x: int,
    y: int,
) -> Seq<u8> {
    let step = header.sample_bytes() as int;
    let first = y * stride + x * (header.pixel_bytes() as int);
    let at = |channel: int| source_byte(data, first + channel * step);
    match header.color_type {
        ColorType::Grey => seq![at(0), at(0), at(0), 255u8],
        ColorType::Rgb => seq![at(0), at(1), at(2), 255u8],
        ColorType::Palette => {
            let entry = at(0) as int;
            let present = 3 * entry + 3 <= palette.len();
            seq![
                if present { palette[3 * entry] } else { 0u8 },
                if present { palette[3 * entry + 1] } else { 0u8 },
                if present { palette[3 * entry + 2] } else { 0u8 },
                if entry < alpha.len() { alpha[entry] } else { 255u8 },
            ]
        },
        ColorType::GreyAlpha => seq![at(0), at(0), at(0), at(1)],
        ColorType::Rgba => seq![at(0), at(1), at(2), at(3)],
    }
}

/// The RGBA bytes of an image of `width` by `height` reconstructed pixels.
pub open spec fn rgba_bytes(
    header: Header,
    data: Seq<u8>,
    stride: int,
    width: nat,
    height: nat,
    palette: Seq<u8>,
    alpha: Seq<u8>,
) -> Seq<u8> {
    Seq::new(
        width * height * 4,
        |k: int|
            pixel_color(
                header,
                data,
                stride,
                palette,
                alpha,
                (k / 4) % (width as int),
                (k / 4) / (width as int),
            )[k % 4],
    )
}

fn read_source(data: &[u8], i: usize) -> (r: u8)
    ensures
        r == source_byte(data@, i as int),
{
    if i < data.len() {
        data[i]
    } else {
        0
    }
}

/// The colour of the pixel whose samples start at `first`.
fn convert_pixel(header: &Header, data: &[u8], first: usize, palette: &[u8], alpha: &[u8]) -> (r: [u8;
    4])
    requires
        header.wf(),
        first + 8 <= usize::MAX,
    ensures
        forall|stride: int, x: int, y: int|
            first == y * stride + x * (header.pixel_bytes() as int) ==> r@ == #[trigger] pixel_color(
                *header,
                data@,
                stride,
                palette@,
                alpha@,
                x,
                y,
            ),
{
    let step: usize = if header.bit_depth == 16 {
        2
    } else {
        1
    };
    let c0: u8 = read_source(data, first);
    let rgba: [u8; 4] = match header.color_type {
        ColorType::Grey => [c0, c0, c0, 255],
        ColorType::Rgb => {
            [c0, read_source(data, first + step), read_source(data, first + 2 * step), 255]
        },
        ColorType::Palette => {
            let entry: usize = c0 as usize;
            let present: bool = 3 * entry + 3 <= palette.len();
            [
                if present { palette[3 * entry] } else { 0 },
                if present { palette[3 * entry + 1] } else { 0 },
                if present { palette[3 * entry + 2] } else { 0 },
                if entry < alpha.len() { alpha[entry] } else { 255 },
            ]
        },
        ColorType::GreyAlpha => [c0, c0, c0, read_source(data, first + step)],
        ColorType::Rgba => {
            [
                c0,
                read_source(data, first + step),
                read_source(data, first + 2 * step),
                read_source(data, first + 3 * step),
            ]
        },
    };
    assert forall|stride: int, x: int, y: int|
        first == y * stride + x * (header.pixel_bytes() as int) implies rgba@
        == #[trigger] pixel_color(*header, data@, stride, palette@, alpha@, x, y) by {
        let st = header.sample_bytes() as int;
        assert(st == step);
        assert(0 * st == 0);
        assert(1 * st == st);
        assert(2 * st == 2 * step);
        assert(3 * st == 3 * step);
        assert(rgba@ =~= pixel_color(*header, data@, stride, palette@, alpha@, x, y));
    }
    rgba
}

/// Convert reconstructed source bytes to RGBA.
fn to_rgba(
    header: &Header,
    data: &[u8],
    stride: usize,
    width: u32,
    height: u32,
    palette: &[u8],
    alpha: &[u8],
) -> (r: Vec<u8>)
    requires
        header.wf(),
        1 <= width <= MAX_DIMENSION,
        height <= MAX_DIMENSION,
        stride == header.line_bytes(width as nat),
        stride <= 131072,
    ensures
        r@ == rgba_bytes(
            *header,
            data@,
            stride as int,
            width as nat,
            height as nat,
            palette@,
            alpha@,
        ),
{
    let mut out: Vec<u8> = Vec::new();
    let bpp: usize = header.bytes_per_pixel();
    let ghost w = width as int;
    let ghost color = |k: int|
        pixel_color(*header, data@, stride as int, palette@, alpha@, (k / 4) % w, (k / 4) / w)[k
            % 4];
    let mut y: u32 = 0;
    assert(0 * width * 4 == 0) by (nonlinear_arith);
    while y < height
        invariant
            header.wf(),
            1 <= width <= MAX_DIMENSION,
            w == width,
            y <= height <= MAX_DIMENSION,
            1 <= bpp <= 8,
            bpp == header.pixel_bytes(),
            stride == header.line_bytes(width as nat),
            stride <= 131072,
            out@.len() == (y * width) * 4,
            color == (|k: int|
                pixel_color(
                    *header,
                    data@,
                    stride as int,
                    palette@,
                    alpha@,
                    (k / 4) % w,
                    (k / 4) / w,
                )[k % 4]),
            forall|k: int| 0 <= k < out@.len() ==> #[trigger] out@[k] == color(k),
        decreases height - y,
    {
        let mut x: u32 = 0;
        while x < width
            invariant
                header.wf(),
                1 <= width <= MAX_DIMENSION,
                w == width,
                x <= width,
                y < height <= MAX_DIMENSION,
                1 <= bpp <= 8,
                bpp == header.pixel_bytes(),
                stride == header.line_bytes(width as nat),
                stride <= 131072,
                out@.len() == (y * width + x) * 4,
                color == (|k: int|
                    pixel_color(
                        *header,
                        data@,
                        stride as int,
                        palette@,
                        alpha@,
                        (k / 4) % w,
                        (k / 4) / w,
                    )[k % 4]),
                forall|k: int| 0 <= k < out@.len() ==> #[trigger] out@[k] == color(k),
            decreases width - x,
        {
            assert(0 <= y * stride <= 16384 * 131072 && 0 <= x * bpp <= 16384 * 8)
                by (nonlinear_arith)
                requires
                    y <= 16384,
                    stride <= 131072,
                    x <= 16384,
                    bpp <= 8,
            ;
            let first: usize = y as usize * stride + x as usize * bpp;
            let rgba = convert_pixel(header, data, first, palette, alpha);
            let ghost i = (y * width + x) as int;
            proof {
                lemma_fundamental_div_mod_converse(i, w, y as int, x as int);
                let px = pixel_color(
                    *header,
                    data@,
                    stride as int,
                    palette@,
                    alpha@,
                    x as int,
                    y as int,
                );
                assert(rgba@ == px);
                assert(color(4 * i) == px[0] && color(4 * i + 1) == px[1] && color(4 * i + 2)
                    == px[2] && color(4 * i + 3) == px[3]);
            }
            out.push(rgba[0]);
            out.push(rgba[1]);
            out.push(rgba[2]);
            out.push(rgba[3]);
            x = x + 1;
        }
        assert((y + 1) * width == y * width + width) by (nonlinear_arith);
        y = y + 1;
    }
    assert(height * width == width * height) by (nonlinear_arith);
    assert(out@ =~= rgba_bytes(
        *header,
        data@,
        stride as int,
        width as nat,
        height as nat,
        palette@,
        alpha@,
    ));
    out
}

// --- interlacing -------------------------------------------------------------

/// First column of each interlace pass.
pub const PASS_X: [u32; 7] = [0, 4, 0, 2, 0, 1, 0];

/// First row of each interlace pass.
pub const PASS_Y: [u32; 7] = [0, 0, 4, 0, 2, 0, 1];

/// Column step of each interlace pass.
pub const PASS_DX: [u32; 7] = [8, 8, 4, 4, 2, 2, 1];

/// Row step of each interlace pass.
pub const PASS_DY: [u32; 7] = [8, 8, 8, 4, 4, 2, 2];

/// How many of the coordinates below `size` a pass visits, starting at `first`
/// and stepping by `step`.
pub open spec fn pass_extent(size: int, first: int, step: int) -> int {
    if size <= first {
        0
    } else {
        (size - first + step - 1) / step
    }
}

pub open spec fn pass_width(header: Header, p: int) -> int {
    pass_extent(header.width as int, PASS_X[p] as int, PASS_DX[p] as int)
}

pub open spec fn pass_height(header: Header, p: int) -> int {
    pass_extent(header.height as int, PASS_Y[p] as int, PASS_DY[p] as int)
}

/// A pass without pixels has no scanlines at all.
pub open spec fn pass_empty(header: Header, p: int) -> bool {
    pass_width(header, p) == 0 || pass_height(header, p) == 0
}

/// Bytes of one scanline of a pass.
pub open spec fn pass_stride(header: Header, p: int) -> int {
    header.line_bytes(pass_width(header, p) as nat) as int
}

/// Bytes a pass occupies in the filtered data.
pub open spec fn pass_bytes(header: Header, p: int) -> int {
    if pass_empty(header, p) {
        0
    } else {
        pass_height(header, p) * (pass_stride(header, p) + 1)
    }
}

/// Where a pass starts in the filtered data.
pub open spec fn pass_offset(header: Header, p: int) -> int
    decreases p,
{
    if p <= 0 {
        0
    } else {
        pass_offset(header, p - 1) + pass_bytes(header, p - 1)
    }
}

/// The filtered data of a pass.
pub open spec fn pass_data(header: Header, raw: Seq<u8>, p: int) -> Seq<u8> {
    raw.subrange(pass_offset(header, p), pass_offset(header, p) + pass_bytes(header, p))
}

/// Whether pass `p` visits pixel (`x`, `y`).
pub open spec fn pass_visits(p: int, x: int, y: int) -> bool {
    &&& x >= PASS_X[p]
    &&& (x - PASS_X[p]) % (PASS_DX[p] as int) == 0
    &&& y >= PASS_Y[p]
    &&& (y - PASS_Y[p]) % (PASS_DY[p] as int) == 0
}

/// The pass that carries pixel (`x`, `y`).
pub open spec fn pass_of(x: int, y: int) -> int {
    if y % 2 == 1 {
        6
    } else if x % 2 == 1 {
        5
    } else if y % 4 == 2 {
        4
    } else if x % 4 == 2 {
        3
    } else if y % 8 == 4 {
        2
    } else if x % 8 == 4 {
        1
    } else {
        0
    }
}

/// Stepping by `step` from `first` reaches exactly the coordinates with that
/// remainder.
proof fn lemma_steps_reach(v: int, first: int, step: int)
    requires
        0 <= first < step,
        v >= 0,
    ensures
        v >= first && (v - first) % step == 0 <==> v % step == first,
{
    lemma_fundamental_div_mod(v, step);
    if v % step == first {
        let q = v / step;
        assert(step * q >= 0) by (nonlinear_arith)
            requires
                step > 0,
                q >= 0,
        ;
        assert(step * q == q * step) by (nonlinear_arith);
        lemma_fundamental_div_mod_converse(v - first, step, q, 0);
    }
    if v >= first && (v - first) % step == 0 {
        let q = (v - first) / step;
        lemma_fundamental_div_mod(v - first, step);
        assert(step * q == q * step) by (nonlinear_arith);
        lemma_fundamental_div_mod_converse(v, step, q, first);
    }
}

/// The coordinates that a pass visits, by their remainders.
proof fn lemma_pass_visits(p: int, x: int, y: int)
    requires
        0 <= p < 7,
        x >= 0,
        y >= 0,
    ensures
        pass_visits(p, x, y) <==> x % (PASS_DX[p] as int) == PASS_X[p] && y % (PASS_DY[p] as int)
            == PASS_Y[p],
{
    lemma_steps_reach(x, PASS_X[p] as int, PASS_DX[p] as int);
    lemma_steps_reach(y, PASS_Y[p] as int, PASS_DY[p] as int);
}

/// The seven passes partition the image: each pixel is visited by exactly one.
pub proof fn law_passes_partition(p: int, x: int, y: int)
    requires
        0 <= p < 7,
        x >= 0,
        y >= 0,
    ensures
        pass_visits(p, x, y) <==> p == pass_of(x, y),
{
    lemma_pass_visits(p, x, y);
    let (a, b) = (x % 8, y % 8);
    assert(x % 4 == a % 4 && x % 2 == a % 2 && y % 4 == b % 4 && y % 2 == b % 2);
    assert(x % 1 == 0);
}

/// The colour of pixel (`x`, `y`) of an interlaced image.
pub open spec fn interlaced_color(
    header: Header,
    raw: Seq<u8>,
    palette: Seq<u8>,
    alpha: Seq<u8>,
    x: int,
    y: int,
) -> Seq<u8> {
    let p = pass_of(x, y);
    let stride = pass_stride(header, p);
    pixel_color(
        header,
        unfiltered(
            pass_data(header, raw, p),
            pass_height(header, p) as nat,
            stride as nat,
            header.pixel_bytes() as int,
        ),
        stride,
        palette,
        alpha,
        (x - PASS_X[p]) / (PASS_DX[p] as int),
        (y - PASS_Y[p]) / (PASS_DY[p] as int),
    )
}

/// The RGBA bytes of an interlaced image.
pub open spec fn interlaced_bytes(
    header: Header,
    raw: Seq<u8>,
    palette: Seq<u8>,
    alpha: Seq<u8>,
) -> Seq<u8> {
    Seq::new(
        (header.width * header.height * 4) as nat,
        |k: int|
            interlaced_color(
                header,
                raw,
                palette,
                alpha,
                (k / 4) % (header.width as int),
                (k / 4) / (header.width as int),
            )[k % 4],
    )
}

/// The first thing wrong with the passes from pass `p` on.
pub open spec fn interlace_fault(header: Header, raw: Seq<u8>, p: int) -> Option<PngFault>
    decreases 7 - p,
{
    if p >= 7 {
        None
    } else if pass_empty(header, p) {
        interlace_fault(header, raw, p + 1)
    } else if pass_offset(header, p) + pass_bytes(header, p) > raw.len() {
        Some(PngFault::InterlaceTruncated)
    } else {
        match unfilter_fault(
            pass_data(header, raw, p),
            pass_height(header, p) as nat,
            pass_stride(header, p) as nat,
            0,
        ) {
            Some(fault) => Some(fault),
            None => interlace_fault(header, raw, p + 1),
        }
    }
}

/// A pass stays inside the image and reaches every coordinate on its grid.
proof fn lemma_extent(size: int, first: int, step: int)
    requires
        0 <= size,
        0 <= first,
        1 <= step,
    ensures
        0 <= pass_extent(size, first, step) <= size,
        forall|i: int|
            #![trigger i * step]
            0 <= i < pass_extent(size, first, step) ==> 0 <= i * step && first + i * step < size,
        forall|c: int|
            first <= c < size ==> #[trigger] ((c - first) / step) < pass_extent(size, first, step),
{
    if first < size {
        let n = size - first + step - 1;
        let r = n / step;
        lemma_fundamental_div_mod(n, step);
        assert forall|i: int| #![trigger i * step] 0 <= i < r implies 0 <= i * step && first + i
            * step < size by {
            assert(0 <= i * step <= step * (r - 1)) by (nonlinear_arith)
                requires
                    0 <= i < r,
                    step >= 1,
            ;
            assert(step * (r - 1) == step * r - step) by (nonlinear_arith);
        }
        assert forall|c: int| first <= c < size implies #[trigger] ((c - first) / step) < r by {
            let q = (c - first) / step;
            lemma_fundamental_div_mod(c - first, step);
            if q >= r {
                assert(step * q >= step * r) by (nonlinear_arith)
                    requires
                        q >= r,
                        step >= 1,
                ;
            }
        }
        assert(0 <= r <= size) by (nonlinear_arith)
            requires
                n == step * r + n % step,
                0 <= n % step < step,
                n == size - first + step - 1,
                step >= 1,
                size >= first + 1,
                first >= 0,
        ;
    }
}

/// Count the coordinates a pass visits.
fn extent(size: u32, first: u32, step: u32) -> (r: u32)
    requires
        size <= MAX_DIMENSION,
        1 <= step <= 8,
    ensures
        r == pass_extent(size as int, first as int, step as int),
{
    if size <= first {
        0
    } else {
        (size - first + step - 1) / step
    }
}

/// Whether byte `k` of an image of width `w` belongs to pass `p`, in a row
/// before `sy` of the pass, or in row `sy` and a column before `sx`.
spec fn placed(w: int, p: int, sx: int, sy: int, k: int) -> bool {
    let x = (k / 4) % w;
    let y = (k / 4) / w;
    let row = (y - PASS_Y[p]) / (PASS_DY[p] as int);
    let column = (x - PASS_X[p]) / (PASS_DX[p] as int);
    pass_of(x, y) == p && (row < sy || (row == sy && column < sx))
}

/// The byte of a pass's own image that lands on byte `k` of the whole.
spec fn source_index(w: int, p: int, pw: int, k: int) -> int {
    let x = (k / 4) % w;
    let y = (k / 4) / w;
    let row = (y - PASS_Y[p]) / (PASS_DY[p] as int);
    let column = (x - PASS_X[p]) / (PASS_DX[p] as int);
    (row * pw + column) * 4 + k % 4
}

proof fn lemma_pass_steps(p: int)
    requires
        0 <= p < 7,
    ensures
        1 <= PASS_DX[p] <= 8,
        1 <= PASS_DY[p] <= 8,
        0 <= PASS_X[p] <= 4,
        0 <= PASS_Y[p] <= 4,
{
    assert(p == 0 || p == 1 || p == 2 || p == 3 || p == 4 || p == 5 || p == 6);
}

/// Byte `k` is one of the four of the pixel at column `sx`, row `sy` of pass
/// `p` exactly when it is placed by that step and not before.
proof fn lemma_place_step(w: int, p: int, sx: int, sy: int, k: int)
    requires
        0 <= p < 7,
        w >= 1,
        sx >= 0,
        sy >= 0,
        k >= 0,
        PASS_X[p] + sx * PASS_DX[p] < w,
    ensures
        placed(w, p, sx + 1, sy, k) <==> placed(w, p, sx, sy, k) || k / 4 == (PASS_Y[p] + sy
            * PASS_DY[p]) * w + PASS_X[p] + sx * PASS_DX[p],
        k / 4 == (PASS_Y[p] + sy * PASS_DY[p]) * w + PASS_X[p] + sx * PASS_DX[p] ==> (k / 4) % w
            == PASS_X[p] + sx * PASS_DX[p] && (k / 4) / w == PASS_Y[p] + sy * PASS_DY[p] && (((k
            / 4) % w) - PASS_X[p]) / (PASS_DX[p] as int) == sx && (((k / 4) / w) - PASS_Y[p]) / (
        PASS_DY[p] as int) == sy && !placed(w, p, sx, sy, k),
{
    lemma_pass_steps(p);
    let dx = PASS_DX[p] as int;
    let dy = PASS_DY[p] as int;
    let tx = PASS_X[p] + sx * dx;
    let ty = PASS_Y[p] + sy * dy;
    let x = (k / 4) % w;
    let y = (k / 4) / w;
    lemma_fundamental_div_mod(k / 4, w);
    assert(w * y == y * w) by (nonlinear_arith);
    assert(sx * dx >= 0 && sy * dy >= 0) by (nonlinear_arith)
        requires
            sx >= 0,
            sy >= 0,
            dx >= 0,
            dy >= 0,
    ;
    assert(y >= 0 && x >= 0) by {
        vstd::arithmetic::div_mod::lemma_div_pos_is_pos(k / 4, w);
    }
    law_passes_partition(p, x, y);
    law_passes_partition(p, tx, ty);
    assert(dx * sx == sx * dx && dy * sy == sy * dy) by (nonlinear_arith);
    lemma_fundamental_div_mod_converse(sx * dx, dx, sx, 0);
    lemma_fundamental_div_mod_converse(sy * dy, dy, sy, 0);
    if k / 4 == ty * w + tx {
        lemma_fundamental_div_mod_converse(k / 4, w, ty, tx);
    }
    if pass_of(x, y) == p {
        let row = (y - PASS_Y[p]) / dy;
        let column = (x - PASS_X[p]) / dx;
        lemma_fundamental_div_mod(y - PASS_Y[p], dy);
        lemma_fundamental_div_mod(x - PASS_X[p], dx);
        if row == sy && column == sx {
            assert(x == tx && y == ty);
        }
    }
}

/// Copy a pass's own image into the pixels it visits.
fn scatter(out: &mut Vec<u8>, header: &Header, p: usize, sub: &Vec<u8>, pw: u32, ph: u32)
    requires
        header.wf(),
        p < 7,
        pw == pass_width(*header, p as int),
        ph == pass_height(*header, p as int),
        pw <= MAX_DIMENSION,
        ph <= MAX_DIMENSION,
        old(out)@.len() == header.width * header.height * 4,
        sub@.len() == pw * ph * 4,
    ensures
        final(out)@.len() == old(out)@.len(),
        forall|k: int|
            0 <= k < final(out)@.len() ==> #[trigger] final(out)@[k] == if pass_of(
                (k / 4) % (header.width as int),
                (k / 4) / (header.width as int),
            ) == p {
                sub@[source_index(header.width as int, p as int, pw as int, k)]
            } else {
                old(out)@[k]
            },
{
    let ghost w = header.width as int;
    let ghost h = header.height as int;
    let ghost pi = p as int;
    proof {
        lemma_pass_steps(pi);
    }
    let width: usize = header.width as usize;
    let dx: u32 = PASS_DX[p];
    let dy: u32 = PASS_DY[p];
    let x_start: u32 = PASS_X[p];
    let y_start: u32 = PASS_Y[p];
    proof {
        lemma_extent(w, x_start as int, dx as int);
        lemma_extent(h, y_start as int, dy as int);
    }
    assert forall|k: int| 0 <= k < out@.len() implies !#[trigger] placed(w, pi, 0, 0, k) by {
        lemma_coordinates(w, h, k);
        lemma_not_before(w, pi, k);
    }
    let mut sy: u32 = 0;
    while sy < ph
        invariant
            header.wf(),
            p < 7,
            pi == p,
            w == header.width,
            w == width,
            h == header.height,
            dx == PASS_DX[pi],
            dy == PASS_DY[pi],
            x_start == PASS_X[pi],
            y_start == PASS_Y[pi],
            1 <= dx <= 8,
            1 <= dy <= 8,
            sy <= ph,
            pw <= MAX_DIMENSION,
            ph <= MAX_DIMENSION,
            out@.len() == w * h * 4,
            old(out)@.len() == out@.len(),
            sub@.len() == pw * ph * 4,
            forall|i: int|
                #![trigger i * (dx as int)]
                0 <= i < pw ==> 0 <= i * (dx as int) && x_start + i * (dx as int) < w,
            forall|i: int|
                #![trigger i * (dy as int)]
                0 <= i < ph ==> 0 <= i * (dy as int) && y_start + i * (dy as int) < h,
            forall|c: int| x_start <= c < w ==> #[trigger] ((c - x_start) / (dx as int)) < pw,
            forall|k: int|
                0 <= k < out@.len() ==> #[trigger] out@[k] == if placed(w, pi, 0, sy as int, k) {
                    sub@[source_index(w, pi, pw as int, k)]
                } else {
                    old(out)@[k]
                },
        decreases ph - sy,
    {
        let mut sx: u32 = 0;
        while sx < pw
            invariant
                header.wf(),
                p < 7,
                pi == p,
                w == header.width,
                w == width,
                h == header.height,
                dx == PASS_DX[pi],
                dy == PASS_DY[pi],
                x_start == PASS_X[pi],
                y_start == PASS_Y[pi],
                1 <= dx <= 8,
                1 <= dy <= 8,
                sy < ph,
                sx <= pw,
                pw <= MAX_DIMENSION,
                ph <= MAX_DIMENSION,
                out@.len() == w * h * 4,
                old(out)@.len() == out@.len(),
                sub@.len() == pw * ph * 4,
                forall|i: int|
                    #![trigger i * (dx as int)]
                    0 <= i < pw ==> 0 <= i * (dx as int) && x_start + i * (dx as int) < w,
                forall|i: int|
                    #![trigger i * (dy as int)]
                    0 <= i < ph ==> 0 <= i * (dy as int) && y_start + i * (dy as int) < h,
                forall|k: int|
                    0 <= k < out@.len() ==> #[trigger] out@[k] == if placed(
                        w,
                        pi,
                        sx as int,
                        sy as int,
                        k,
                    ) {
                        sub@[source_index(w, pi, pw as int, k)]
                    } else {
                        old(out)@[k]
                    },
            decreases pw - sx,
        {
            let ghost before = out@;
            proof {
                let i = sx as int;
                let j = sy as int;
                assert(0 <= i * (dx as int) && x_start + i * (dx as int) < w);
                assert(0 <= j * (dy as int) && y_start + j * (dy as int) < h);
                lemma_pass_steps(pi);
                let tx = x_start + i * (dx as int);
                let ty = y_start + j * (dy as int);
                assert(0 <= ty * w && (ty * w + tx) * 4 + 4 <= w * h * 4) by (nonlinear_arith)
                    requires
                        0 <= tx < w,
                        0 <= ty < h,
                ;
                assert(0 <= j * pw && (j * pw + i) * 4 + 4 <= pw * ph * 4) by (nonlinear_arith)
                    requires
                        0 <= i < pw,
                        0 <= j < ph,
                ;
            }
            assert(w * h * 4 <= 16384 * 16384 * 4 && pw * ph * 4 <= 16384 * 16384 * 4)
                by (nonlinear_arith)
                requires
                    1 <= w <= 16384,
                    1 <= h <= 16384,
                    0 <= pw <= 16384,
                    0 <= ph <= 16384,
            ;
            let target_x: usize = x_start as usize + sx as usize * dx as usize;
            let target_y: usize = y_start as usize + sy as usize * dy as usize;
            let from: usize = (sy as usize * pw as usize + sx as usize) * 4;
            let to: usize = (target_y * width + target_x) * 4;
            out.set(to, sub[from]);
            out.set(to + 1, sub[from + 1]);
            out.set(to + 2, sub[from + 2]);
            out.set(to + 3, sub[from + 3]);
            proof {
                assert forall|k: int| 0 <= k < out@.len() implies #[trigger] out@[k] == (if placed(
                    w,
                    pi,
                    sx + 1,
                    sy as int,
                    k,
                ) {
                    sub@[source_index(w, pi, pw as int, k)]
                } else {
                    old(out)@[k]
                }) by {
                    lemma_place_step(w, pi, sx as int, sy as int, k);
                    assert(before[k] == before[k]);
                    if k / 4 == target_y * width + target_x {
                        assert(k == to + k % 4);
                        assert(source_index(w, pi, pw as int, k) == from + k % 4);
                    } else {
                        assert(k < to || k >= to + 4);
                        assert(out@[k] == before[k]);
                    }
                }
            }
            sx = sx + 1;
        }
        proof {
            assert forall|k: int| 0 <= k < out@.len() implies (placed(w, pi, pw as int, sy as int, k)
                <==> #[trigger] placed(w, pi, 0, sy + 1, k)) by {
                lemma_coordinates(w, h, k);
                lemma_row_complete(w, pi, pw as int, sy as int, k);
            }
        }
        sy = sy + 1;
    }
    proof {
        assert forall|k: int| 0 <= k < out@.len() implies (#[trigger] placed(w, pi, 0, ph as int, k)
            <==> pass_of((k / 4) % w, (k / 4) / w) == p) by {
            lemma_coordinates(w, h, k);
            let y = (k / 4) / w;
            let x = (k / 4) % w;
            law_passes_partition(pi, x, y);
            if pass_of(x, y) == p {
                assert(((y - y_start) / (dy as int)) < ph);
            }
        }
    }
}

proof fn lemma_coordinates(w: int, h: int, k: int)
    requires
        w >= 1,
        h >= 1,
        0 <= k < w * h * 4,
    ensures
        0 <= (k / 4) % w < w,
        0 <= (k / 4) / w < h,
{
    let i = k / 4;
    lemma_fundamental_div_mod(i, w);
    let y = i / w;
    assert(0 <= y < h) by (nonlinear_arith)
        requires
            i == w * y + i % w,
            0 <= i % w < w,
            0 <= i,
            i < w * h,
            w >= 1,
    ;
}

proof fn lemma_not_before(w: int, p: int, k: int)
    requires
        0 <= p < 7,
        w >= 1,
        0 <= (k / 4) % w,
        0 <= (k / 4) / w,
    ensures
        !placed(w, p, 0, 0, k),
{
    let x = (k / 4) % w;
    let y = (k / 4) / w;
    lemma_pass_steps(p);
    law_passes_partition(p, x, y);
    if pass_of(x, y) == p {
        vstd::arithmetic::div_mod::lemma_div_pos_is_pos(y - PASS_Y[p], PASS_DY[p] as int);
        vstd::arithmetic::div_mod::lemma_div_pos_is_pos(x - PASS_X[p], PASS_DX[p] as int);
    }
}

/// Placing a whole row is the same as having reached the next row.
proof fn lemma_row_complete(w: int, p: int, pw: int, sy: int, k: int)
    requires
        0 <= p < 7,
        w >= 1,
        0 <= (k / 4) % w < w,
        0 <= (k / 4) / w,
        forall|c: int|
            PASS_X[p] <= c < w ==> #[trigger] ((c - PASS_X[p]) / (PASS_DX[p] as int)) < pw,
    ensures
        placed(w, p, pw, sy, k) <==> placed(w, p, 0, sy + 1, k),
{
    let x = (k / 4) % w;
    let y = (k / 4) / w;
    lemma_pass_steps(p);
    law_passes_partition(p, x, y);
    if pass_of(x, y) == p {
        assert(((x - PASS_X[p]) / (PASS_DX[p] as int)) < pw);
        vstd::arithmetic::div_mod::lemma_div_pos_is_pos(x - PASS_X[p], PASS_DX[p] as int);
    }
}

/// Decode interlaced data: each pass is a separately filtered image of its own.
fn deinterlace(header: &Header, raw: &[u8], palette: &[u8], alpha: &[u8]) -> (r: Result<
    Vec<u8>,
    PngFault,
>)
    requires
        header.wf(),
    ensures
        match interlace_fault(*header, raw@, 0) {
            None => r matches Ok(v) && v@ == interlaced_bytes(*header, raw@, palette@, alpha@),
            Some(fault) => r matches Err(f) && f == fault,
        },
{
    let ghost w = header.width as int;
    let ghost h = header.height as int;
    assert(0 <= w * h * 4 <= 16384 * 16384 * 4 && 0 <= w * h <= 16384 * 16384) by (nonlinear_arith)
        requires
            1 <= w <= 16384,
            1 <= h <= 16384,
    ;
    let mut out: Vec<u8> = vec![0; header.width as usize * header.height as usize * 4];
    let bpp: usize = header.bytes_per_pixel();
    let mut offset: usize = 0;
    let mut p: usize = 0;
    while p < 7
        invariant
            header.wf(),
            p <= 7,
            w == header.width,
            h == header.height,
            bpp == header.pixel_bytes(),
            1 <= bpp <= 8,
            out@.len() == w * h * 4,
            offset == pass_offset(*header, p as int),
            offset <= raw@.len(),
            interlace_fault(*header, raw@, 0) == interlace_fault(*header, raw@, p as int),
            forall|k: int|
                0 <= k < out@.len() && pass_of((k / 4) % w, (k / 4) / w) < p ==> #[trigger] out@[k]
                    == interlaced_color(
                    *header,
                    raw@,
                    palette@,
                    alpha@,
                    (k / 4) % w,
                    (k / 4) / w,
                )[k % 4],
        decreases 7 - p,
    {
        let ghost pi = p as int;
        proof {
            lemma_pass_steps(pi);
            lemma_extent(w, PASS_X[pi] as int, PASS_DX[pi] as int);
            lemma_extent(h, PASS_Y[pi] as int, PASS_DY[pi] as int);
        }
        let pw: u32 = extent(header.width, PASS_X[p], PASS_DX[p]);
        let ph: u32 = extent(header.height, PASS_Y[p], PASS_DY[p]);
        if pw > 0 && ph > 0 {
            let stride: usize = header.row_bytes(pw);
            assert(0 <= ph * (stride + 1) <= 16384 * 131073) by (nonlinear_arith)
                requires
                    0 <= ph <= 16384,
                    0 <= stride <= 131072,
            ;
            let consumed: usize = ph as usize * (stride + 1);
            if raw.len() - offset < consumed {
                return Err(PngFault::InterlaceTruncated);
            }
            let slice = vstd::slice::slice_subrange(raw, offset, offset + consumed);
            assert(slice@ == pass_data(*header, raw@, pi));
            offset = offset + consumed;
            let lines = match unfilter(slice, ph as usize, stride, bpp) {
                Ok(lines) => lines,
                Err(fault) => {
                    return Err(fault);
                },
            };
            let sub = to_rgba(header, lines.as_slice(), stride, pw, ph, palette, alpha);
            let ghost before = out@;
            scatter(&mut out, header, p, &sub, pw, ph);
            proof {
                assert forall|k: int|
                    0 <= k < out@.len() && pass_of((k / 4) % w, (k / 4) / w) < p + 1 implies #[trigger] out@[k]
                    == interlaced_color(
                    *header,
                    raw@,
                    palette@,
                    alpha@,
                    (k / 4) % w,
                    (k / 4) / w,
                )[k % 4] by {
                    assert(before[k] == before[k]);
                    if pass_of((k / 4) % w, (k / 4) / w) == p {
                        lemma_coordinates(w, h, k);
                        lemma_source_index(*header, pi, k);
                    }
                }
            }
        } else {
            proof {
                assert forall|k: int|
                    0 <= k < out@.len() && pass_of((k / 4) % w, (k / 4) / w) < p + 1 implies #[trigger] out@[k]
                    == interlaced_color(
                    *header,
                    raw@,
                    palette@,
                    alpha@,
                    (k / 4) % w,
                    (k / 4) / w,
                )[k % 4] by {
                    lemma_coordinates(w, h, k);
                    law_passes_partition(pi, (k / 4) % w, (k / 4) / w);
                }
            }
        }
        p = p + 1;
    }
    assert(out@ =~= interlaced_bytes(*header, raw@, palette@, alpha@));
    Ok(out)
}

/// A pixel of a pass lies in the pass's own image, at its column and row there.
proof fn lemma_source_index(header: Header, p: int, k: int)
    requires
        header.wf(),
        0 <= p < 7,
        0 <= k,
        0 <= (k / 4) % (header.width as int) < header.width,
        0 <= (k / 4) / (header.width as int) < header.height,
        pass_of((k / 4) % (header.width as int), (k / 4) / (header.width as int)) == p,
    ensures
        ({
            let w = header.width as int;
            let pw = pass_width(header, p);
            let ph = pass_height(header, p);
            let i = source_index(w, p, pw, k);
            &&& pw >= 1
            &&& 0 <= i < pw * ph * 4
            &&& i % 4 == k % 4
            &&& (i / 4) % pw == ((k / 4) % w - PASS_X[p]) / (PASS_DX[p] as int)
            &&& (i / 4) / pw == ((k / 4) / w - PASS_Y[p]) / (PASS_DY[p] as int)
        }),
{
    let w = header.width as int;
    let x = (k / 4) % w;
    let y = (k / 4) / w;
    let pw = pass_width(header, p);
    let ph = pass_height(header, p);
    lemma_pass_steps(p);
    law_passes_partition(p, x, y);
    lemma_extent(w, PASS_X[p] as int, PASS_DX[p] as int);
    lemma_extent(header.height as int, PASS_Y[p] as int, PASS_DY[p] as int);
    let row = (y - PASS_Y[p]) / (PASS_DY[p] as int);
    let column = (x - PASS_X[p]) / (PASS_DX[p] as int);
    vstd::arithmetic::div_mod::lemma_div_pos_is_pos(y - PASS_Y[p], PASS_DY[p] as int);
    vstd::arithmetic::div_mod::lemma_div_pos_is_pos(x - PASS_X[p], PASS_DX[p] as int);
    assert(row < ph && column < pw);
    assert(0 <= row * pw && (row * pw + column) * 4 + 4 <= pw * ph * 4) by (nonlinear_arith)
        requires
            0 <= row < ph,
            0 <= column < pw,
    ;
    let i = source_index(w, p, pw, k);
    assert(i / 4 == row * pw + column && i % 4 == k % 4);
    lemma_fundamental_div_mod_converse(i / 4, pw, row, column);
}

// --- chunks ------------------------------------------------------------------

/// The chunks a decoder acts on.
#[derive(Clone, Copy, Debug, PartialEq, Eq, Structural)]
pub enum ChunkKind {
    Header,
    Palette,
    Transparency,
    Data,
    End,
    /// A chunk of an animated image.
    Animation,
    Other,
}

/// The meaning of a four-byte chunk name.
pub open spec fn chunk_kind(name: Seq<u8>) -> ChunkKind {
    if name == seq![0x49u8, 0x48u8, 0x44u8, 0x52u8] {
        ChunkKind::Header
    } else if name == seq![0x50u8, 0x4Cu8, 0x54u8, 0x45u8] {
        ChunkKind::Palette
    } else if name == seq![0x74u8, 0x52u8, 0x4Eu8, 0x53u8] {
        ChunkKind::Transparency
    } else if name == seq![0x49u8, 0x44u8, 0x41u8, 0x54u8] {
        ChunkKind::Data
    } else if name == seq![0x49u8, 0x45u8, 0x4Eu8, 0x44u8] {
        ChunkKind::End
    } else if name == seq![0x61u8, 0x63u8, 0x54u8, 0x4Cu8] || name == seq![
        0x66u8,
        0x63u8,
        0x54u8,
        0x4Cu8,
    ] || name == seq![0x66u8, 0x64u8, 0x41u8, 0x54u8] {
        ChunkKind::Animation
    } else {
        ChunkKind::Other
    }
}

fn same_name(a: &[u8; 4], b: &[u8; 4]) -> (r: bool)
    ensures
        r == (a@ == b@),
{
    let r: bool = a[0] == b[0] && a[1] == b[1] && a[2] == b[2] && a[3] == b[3];
    if r {
        assert(a@ =~= b@);
    }
    r
}

fn classify_chunk(name: &[u8; 4]) -> (r: ChunkKind)
    ensures
        r == chunk_kind(name@),
{
    let ihdr: [u8; 4] = [0x49, 0x48, 0x44, 0x52];
    let plte: [u8; 4] = [0x50, 0x4C, 0x54, 0x45];
    let trns: [u8; 4] = [0x74, 0x52, 0x4E, 0x53];
    let idat: [u8; 4] = [0x49, 0x44, 0x41, 0x54];
    let iend: [u8; 4] = [0x49, 0x45, 0x4E, 0x44];
    assert(ihdr@ =~= seq![0x49u8, 0x48u8, 0x44u8, 0x52u8]);
    assert(plte@ =~= seq![0x50u8, 0x4Cu8, 0x54u8, 0x45u8]);
    assert(trns@ =~= seq![0x74u8, 0x52u8, 0x4Eu8, 0x53u8]);
    assert(idat@ =~= seq![0x49u8, 0x44u8, 0x41u8, 0x54u8]);
    let actl: [u8; 4] = [0x61, 0x63, 0x54, 0x4C];
    let fctl: [u8; 4] = [0x66, 0x63, 0x54, 0x4C];
    let fdat: [u8; 4] = [0x66, 0x64, 0x41, 0x54];
    assert(iend@ =~= seq![0x49u8, 0x45u8, 0x4Eu8, 0x44u8]);
    assert(actl@ =~= seq![0x61u8, 0x63u8, 0x54u8, 0x4Cu8]);
    assert(fctl@ =~= seq![0x66u8, 0x63u8, 0x54u8, 0x4Cu8]);
    assert(fdat@ =~= seq![0x66u8, 0x64u8, 0x41u8, 0x54u8]);
    if same_name(name, &ihdr) {
        ChunkKind::Header
    } else if same_name(name, &plte) {
        ChunkKind::Palette
    } else if same_name(name, &trns) {
        ChunkKind::Transparency
    } else if same_name(name, &idat) {
        ChunkKind::Data
    } else if same_name(name, &iend) {
        ChunkKind::End
    } else if same_name(name, &actl) || same_name(name, &fctl) || same_name(name, &fdat) {
        ChunkKind::Animation
    } else {
        ChunkKind::Other
    }
}

/// What the chunks of a file say.
pub struct Chunks {
    pub header: Option<Header>,
    pub palette: Seq<u8>,
    pub alpha: Seq<u8>,
    /// The compressed stream, which runs across data chunks.
    pub data: Seq<u8>,
}

/// A file in which no chunk has been read.
pub open spec fn no_chunks() -> Chunks {
    Chunks { header: None, palette: seq![], alpha: seq![], data: seq![] }
}

/// Read the chunks from `pos` on, adding to what was read before.
pub open spec fn chunks_from(s: Seq<u8>, pos: int, acc: Chunks) -> Result<Chunks, PngFault>
    decreases s.len() + 4 - pos,
{
    let length = be32(s, pos);
    let start = pos + 8;
    let end = start + length;
    let data = s.subrange(start, end);
    if pos + 8 > s.len() {
        Ok(acc)
    } else if end > usize::MAX {
        Err(PngFault::ChunkOverflow)
    } else if end > s.len() {
        Err(
            PngFault::ChunkTruncated {
                kind: [s[pos + 4], s[pos + 5], s[pos + 6], s[pos + 7]],
                length: length as usize,
                remaining: (s.len() - start) as usize,
            },
        )
    } else {
        match chunk_kind(s.subrange(pos + 4, pos + 8)) {
            ChunkKind::Header => match header_of(data) {
                Err(fault) => Err(fault),
                Ok(header) => chunks_from(s, end + 4, Chunks { header: Some(header), ..acc }),
            },
            ChunkKind::Palette => chunks_from(s, end + 4, Chunks { palette: data, ..acc }),
            ChunkKind::Transparency => chunks_from(s, end + 4, Chunks { alpha: data, ..acc }),
            ChunkKind::Data => chunks_from(s, end + 4, Chunks { data: acc.data + data, ..acc }),
            ChunkKind::End => Ok(acc),
            ChunkKind::Animation => Err(
                PngFault::Animation([s[pos + 4], s[pos + 5], s[pos + 6], s[pos + 7]]),
            ),
            ChunkKind::Other => chunks_from(s, end + 4, acc),
        }
    }
}

/// The chunks of a file, in executable form.
struct ChunkData {
    header: Option<Header>,
    palette: Vec<u8>,
    alpha: Vec<u8>,
    data: Vec<u8>,
}

impl ChunkData {
    spec fn model(&self) -> Chunks {
        Chunks {
            header: self.header,
            palette: self.palette@,
            alpha: self.alpha@,
            data: self.data@,
        }
    }
}

/// Whether a file starts with PNG's signature.
pub open spec fn has_signature(s: Seq<u8>) -> bool {
    s.len() >= 8 && s.subrange(0, 8) == SIGNATURE@
}

fn check_signature(bytes: &[u8]) -> (r: bool)
    ensures
        r == has_signature(bytes@),
{
    if bytes.len() < 8 {
        return false;
    }
    let mut i: usize = 0;
    while i < 8
        invariant
            i <= 8 <= bytes@.len(),
            forall|j: int| 0 <= j < i ==> bytes@[j] == #[trigger] SIGNATURE@[j],
        decreases 8 - i,
    {
        if bytes[i] != SIGNATURE[i] {
            assert(bytes@.subrange(0, 8)[i as int] != SIGNATURE@[i as int]);
            return false;
        }
        i = i + 1;
    }
    assert(bytes@.subrange(0, 8) =~= SIGNATURE@);
    true
}

/// Read the chunks that follow the signature.
fn read_chunks(bytes: &[u8]) -> (r: Result<ChunkData, PngFault>)
    requires
        bytes@.len() >= 8,
    ensures
        match chunks_from(bytes@, 8, no_chunks()) {
            Ok(chunks) => r matches Ok(c) && c.model() == chunks && (c.header matches Some(h)
                ==> h.wf()),
            Err(fault) => r matches Err(f) && f == fault,
        },
{
    let mut c = ChunkData {
        header: None,
        palette: Vec::new(),
        alpha: Vec::new(),
        data: Vec::new(),
    };
    let mut position: usize = 8;
    assert(c.model().palette =~= seq![]);
    assert(c.model().alpha =~= seq![]);
    assert(c.model().data =~= seq![]);
    while bytes.len() - position >= 8
        invariant
            position <= bytes@.len(),
            c.header matches Some(h) ==> h.wf(),
            chunks_from(bytes@, 8, no_chunks()) == chunks_from(bytes@, position as int, c.model()),
        decreases bytes.len() - position,
    {
        let length: usize = read_be32(bytes, position) as usize;
        let kind: [u8; 4] = [
            bytes[position + 4],
            bytes[position + 5],
            bytes[position + 6],
            bytes[position + 7],
        ];
        assert(kind@ =~= bytes@.subrange(position + 4, position + 8));
        let data_start: usize = position + 8;
        let data_end: usize = match data_start.checked_add(length) {
            Some(end) => end,
            None => {
                return Err(PngFault::ChunkOverflow);
            },
        };
        if data_end > bytes.len() {
            let fault = PngFault::ChunkTruncated {
                kind,
                length,
                remaining: bytes.len() - data_start,
            };
            assert(kind =~= [
                bytes@[position + 4],
                bytes@[position + 5],
                bytes@[position + 6],
                bytes@[position + 7],
            ]);
            return Err(fault);
        }
        let data = vstd::slice::slice_subrange(bytes, data_start, data_end);
        match classify_chunk(&kind) {
            ChunkKind::Header => {
                match parse_header(data) {
                    Ok(header) => {
                        c.header = Some(header);
                    },
                    Err(fault) => {
                        return Err(fault);
                    },
                }
            },
            ChunkKind::Palette => {
                c.palette = vstd::slice::slice_to_vec(data);
            },
            ChunkKind::Transparency => {
                c.alpha = vstd::slice::slice_to_vec(data);
            },
            ChunkKind::Data => {
                let ghost before = c.data@;
                c.data.extend_from_slice(data);
                assert(c.data@ =~= before + data@);
            },
            ChunkKind::End => {
                return Ok(c);
            },
            ChunkKind::Animation => {
                assert(kind =~= [
                    bytes@[position + 4],
                    bytes@[position + 5],
                    bytes@[position + 6],
                    bytes@[position + 7],
                ]);
                return Err(PngFault::Animation(kind));
            },
            ChunkKind::Other => {},
        }
        // Four more bytes for the checksum, which is not verified.
        if bytes.len() - data_end < 4 {
            assert(chunks_from(bytes@, data_end + 4, c.model()) == Ok::<Chunks, PngFault>(
                c.model(),
            ));
            return Ok(c);
        }
        position = data_end + 4;
    }
    Ok(c)
}

/// A decoded image as its width, height and RGBA bytes.
pub struct Pixels {
    pub width: nat,
    pub height: nat,
    pub bytes: Seq<u8>,
}

/// The image of a file whose chunks have been read.
pub open spec fn image_of(chunks: Chunks) -> Result<Pixels, PngFault> {
    match chunks.header {
        None => Err(PngFault::NoHeader),
        Some(header) => if chunks.data.len() == 0 {
            Err(PngFault::NoData)
        } else {
            match zlib_inflated(chunks.data) {
                Err(fault) => Err(fault),
                Ok(raw) => pixels_of(header, raw, chunks.palette, chunks.alpha),
            }
        },
    }
}

/// The image that filtered data holds under a header.
pub open spec fn pixels_of(
    header: Header,
    raw: Seq<u8>,
    palette: Seq<u8>,
    alpha: Seq<u8>,
) -> Result<Pixels, PngFault> {
    let width = header.width as nat;
    let height = header.height as nat;
    let stride = header.line_bytes(width);
    if header.interlaced {
        match interlace_fault(header, raw, 0) {
            Some(fault) => Err(fault),
            None => Ok(
                Pixels { width, height, bytes: interlaced_bytes(header, raw, palette, alpha) },
            ),
        }
    } else {
        match unfilter_fault(raw, height, stride, 0) {
            Some(fault) => Err(fault),
            None => Ok(
                Pixels {
                    width,
                    height,
                    bytes: rgba_bytes(
                        header,
                        unfiltered(raw, height, stride, header.pixel_bytes() as int),
                        stride as int,
                        width,
                        height,
                        palette,
                        alpha,
                    ),
                },
            ),
        }
    }
}

/// What a PNG file decodes to.
pub open spec fn decoded(s: Seq<u8>) -> Result<Pixels, PngFault> {
    if !has_signature(s) {
        Err(PngFault::BadSignature)
    } else {
        match chunks_from(s, 8, no_chunks()) {
            Err(fault) => Err(fault),
            Ok(chunks) => image_of(chunks),
        }
    }
}

/// Decode a PNG, naming the fault of one that cannot be decoded.
fn decode_image(bytes: &[u8]) -> (r: Result<Image, PngFault>)
    ensures
        match decoded(bytes@) {
            Ok(pixels) => r matches Ok(image) && image.width == pixels.width && image.height
                == pixels.height && image.pixels@ == pixels.bytes && image.wf() && 1 <= image.width
                <= MAX_DIMENSION && 1 <= image.height <= MAX_DIMENSION,
            Err(fault) => r matches Err(f) && f == fault,
        },
{
    if !check_signature(bytes) {
        return Err(PngFault::BadSignature);
    }
    let chunks = match read_chunks(bytes) {
        Ok(chunks) => chunks,
        Err(fault) => {
            return Err(fault);
        },
    };
    let header = match chunks.header {
        Some(header) => header,
        None => {
            return Err(PngFault::NoHeader);
        },
    };
    if chunks.data.len() == 0 {
        return Err(PngFault::NoData);
    }
    let raw = match inflate_zlib(chunks.data.as_slice()) {
        Ok(raw) => raw,
        Err(fault) => {
            return Err(fault);
        },
    };
    let pixels = if header.interlaced {
        match deinterlace(
            &header,
            raw.as_slice(),
            chunks.palette.as_slice(),
            chunks.alpha.as_slice(),
        ) {
            Ok(pixels) => pixels,
            Err(fault) => {
                return Err(fault);
            },
        }
    } else {
        let bpp: usize = header.bytes_per_pixel();
        let stride: usize = header.row_bytes(header.width);
        let lines = match unfilter(raw.as_slice(), header.height as usize, stride, bpp) {
            Ok(lines) => lines,
            Err(fault) => {
                return Err(fault);
            },
        };
        to_rgba(
            &header,
            lines.as_slice(),
            stride,
            header.width,
            header.height,
            chunks.palette.as_slice(),
            chunks.alpha.as_slice(),
        )
    };
    Ok(Image { width: header.width, height: header.height, pixels })
}

/// Decode a PNG from memory.
pub fn decode(bytes: &[u8]) -> (r: Result<Image, EngineError>)
    ensures
        match decoded(bytes@) {
            Ok(pixels) => r matches Ok(image) && image.width == pixels.width && image.height
                == pixels.height && image.pixels@ == pixels.bytes && image.wf() && 1 <= image.width
                <= MAX_DIMENSION && 1 <= image.height <= MAX_DIMENSION,
            Err(fault) => r matches Err(e) && e.is_invalid_state(fault.text()),
        },
{
    match decode_image(bytes) {
        Ok(image) => Ok(image),
        Err(fault) => Err(EngineError::InvalidState(fault.message())),
    }
}

/// A chunk of an unknown kind is skipped: reading goes on behind it with
/// nothing changed.
pub proof fn law_unknown_chunks_are_skipped(s: Seq<u8>, pos: int, acc: Chunks)
    requires
        0 <= pos,
        pos + 12 + be32(s, pos) <= s.len() <= usize::MAX,
        chunk_kind(s.subrange(pos + 4, pos + 8)) == ChunkKind::Other,
    ensures
        chunks_from(s, pos, acc) == chunks_from(s, pos + 12 + be32(s, pos), acc),
{
}

/// A file that says it is animated is refused, and the chunk that says so is
/// named: nothing behind it is read.
pub proof fn law_animation_chunks_are_refused(s: Seq<u8>, pos: int, acc: Chunks)
    requires
        0 <= pos,
        pos + 8 + be32(s, pos) <= s.len() <= usize::MAX,
        chunk_kind(s.subrange(pos + 4, pos + 8)) == ChunkKind::Animation,
    ensures
        chunks_from(s, pos, acc) matches Err(PngFault::Animation(kind)) && kind@ == s.subrange(
            pos + 4,
            pos + 8,
        ),
{
    let kind = [s[pos + 4], s[pos + 5], s[pos + 6], s[pos + 7]];
    assert(kind@ =~= s.subrange(pos + 4, pos + 8));
}

/// Data chunks are concatenated before anything is inflated, wherever the
/// stream was split.
pub proof fn law_data_chunks_are_concatenated(s: Seq<u8>, pos: int, acc: Chunks)
    requires
        0 <= pos,
        pos + 12 + be32(s, pos) <= s.len() <= usize::MAX,
        chunk_kind(s.subrange(pos + 4, pos + 8)) == ChunkKind::Data,
    ensures
        chunks_from(s, pos, acc) == chunks_from(
            s,
            pos + 12 + be32(s, pos),
            Chunks { data: acc.data + s.subrange(pos + 8, pos + 8 + be32(s, pos)), ..acc },
        ),
{
}

// --- laws on whole files -----------------------------------------------------

/// A chunk as it stands in a file: its length, name, data and checksum.
pub open spec fn chunk_bytes(name: Seq<u8>, data: Seq<u8>, checksum: Seq<u8>) -> Seq<u8> {
    let n = data.len() as int;
    seq![
        (n / 0x100_0000) as u8,
        (n / 0x1_0000 % 0x100) as u8,
        (n / 0x100 % 0x100) as u8,
        (n % 0x100) as u8,
    ] + name + data + checksum
}

/// The parts of a chunk have the sizes a file can hold.
pub open spec fn is_chunk(name: Seq<u8>, data: Seq<u8>, checksum: Seq<u8>) -> bool {
    name.len() == 4 && data.len() <= u32::MAX && checksum.len() == 4
}

/// A walk over whole chunks, whatever they are, leads from `from` to `pos`.
pub open spec fn walks_to(s: Seq<u8>, from: int, pos: int) -> bool
    decreases pos - from,
{
    from == pos || (0 <= from < pos && from + 12 + be32(s, from) <= pos && walks_to(
        s,
        from + 12 + be32(s, from),
        pos,
    ))
}

/// A chunk of the file starts at `pos`, or would if the file went on there.
pub open spec fn is_chunk_start(s: Seq<u8>, pos: int) -> bool {
    pos <= s.len() && walks_to(s, 8, pos)
}

/// A file with bytes put in at `pos`.
pub open spec fn inserted(s: Seq<u8>, pos: int, more: Seq<u8>) -> Seq<u8> {
    s.take(pos) + more + s.skip(pos)
}

proof fn lemma_chunk_in_file(
    s: Seq<u8>,
    pos: int,
    name: Seq<u8>,
    data: Seq<u8>,
    checksum: Seq<u8>,
)
    requires
        is_chunk(name, data, checksum),
        0 <= pos,
        pos + 12 + data.len() <= s.len(),
        s.subrange(pos, pos + 12 + data.len()) == chunk_bytes(name, data, checksum),
    ensures
        be32(s, pos) == data.len(),
        s.subrange(pos + 4, pos + 8) == name,
        s.subrange(pos + 8, pos + 8 + data.len()) == data,
{
    let c = chunk_bytes(name, data, checksum);
    let part = s.subrange(pos, pos + 12 + data.len());
    assert(c.len() == 12 + data.len());
    assert forall|i: int| 0 <= i < c.len() implies s[pos + i] == #[trigger] c[i] by {
        assert(part[i] == s[pos + i]);
    }
    let n = data.len() as int;
    assert(c[0] == (n / 0x100_0000) as u8 && c[1] == (n / 0x1_0000 % 0x100) as u8 && c[2] == (n
        / 0x100 % 0x100) as u8 && c[3] == (n % 0x100) as u8);
    assert(s[pos] == c[0] && s[pos + 1] == c[1] && s[pos + 2] == c[2] && s[pos + 3] == c[3]);
    assert forall|i: int| 0 <= i < 4 implies s[pos + 4 + i] == #[trigger] name[i] by {
        assert(c[4 + i] == name[i]);
    }
    assert forall|i: int| 0 <= i < data.len() implies s[pos + 8 + i] == #[trigger] data[i] by {
        assert(c[8 + i] == data[i]);
    }
    assert(s.subrange(pos + 4, pos + 8) =~= name);
    assert(s.subrange(pos + 8, pos + 8 + data.len()) =~= data);
}

/// The reading of chunks ended in a length that the machine cannot count to.
pub open spec fn overflows(r: Result<Chunks, PngFault>) -> bool {
    r matches Err(PngFault::ChunkOverflow)
}

/// What follows decides what is read, wherever it stands.
proof fn lemma_same_suffix(s: Seq<u8>, a: int, t: Seq<u8>, b: int, acc: Chunks)
    requires
        0 <= a <= b,
        a <= s.len(),
        b <= t.len() <= usize::MAX,
        s.skip(a) == t.skip(b),
        !overflows(chunks_from(t, b, acc)),
    ensures
        chunks_from(t, b, acc) == chunks_from(s, a, acc),
    decreases s.len() - a,
{
    assert(s.skip(a).len() == s.len() - a && t.skip(b).len() == t.len() - b);
    if a + 8 <= s.len() {
        assert forall|i: int| 0 <= i < s.len() - a implies #[trigger] s[a + i] == t[b + i] by {
            assert(s.skip(a)[i] == s[a + i]);
            assert(t.skip(b)[i] == t[b + i]);
        }
        assert(s[a + 0] == t[b + 0] && s[a + 1] == t[b + 1] && s[a + 2] == t[b + 2] && s[a + 3]
            == t[b + 3]);
        assert(s[a + 4] == t[b + 4] && s[a + 5] == t[b + 5] && s[a + 6] == t[b + 6] && s[a + 7]
            == t[b + 7]);
        let n = be32(s, a) as int;
        assert(n == be32(t, b));
        assert(s.subrange(a + 4, a + 8) =~= t.subrange(b + 4, b + 8));
        if a + 8 + n <= s.len() {
            let data = s.subrange(a + 8, a + 8 + n);
            assert(data =~= s.skip(a).subrange(8, 8 + n));
            assert(t.subrange(b + 8, b + 8 + n) =~= t.skip(b).subrange(8, 8 + n));
            let next = match chunk_kind(s.subrange(a + 4, a + 8)) {
                ChunkKind::Header => match header_of(data) {
                    Ok(header) => Chunks { header: Some(header), ..acc },
                    Err(_) => acc,
                },
                ChunkKind::Palette => Chunks { palette: data, ..acc },
                ChunkKind::Transparency => Chunks { alpha: data, ..acc },
                ChunkKind::Data => Chunks { data: acc.data + data, ..acc },
                _ => acc,
            };
            let (p, q) = (a + 12 + n, b + 12 + n);
            let stops = match chunk_kind(s.subrange(a + 4, a + 8)) {
                ChunkKind::Header => header_of(data) is Err,
                ChunkKind::End => true,
                ChunkKind::Animation => true,
                _ => false,
            };
            if !stops {
                if p <= s.len() {
                    assert(s.skip(p) =~= s.skip(a).skip(12 + n));
                    assert(t.skip(q) =~= t.skip(b).skip(12 + n));
                    assert(chunks_from(t, b, acc) == chunks_from(t, q, next));
                    lemma_same_suffix(s, p, t, q, next);
                } else {
                    assert(chunks_from(s, p, next) == Ok::<Chunks, PngFault>(next));
                    assert(chunks_from(t, q, next) == Ok::<Chunks, PngFault>(next));
                }
            }
        }
    }
}

/// Two files that agree up to `pos`, where a chunk starts, and give the same from
/// there on, give the same.
proof fn lemma_same_prefix(s: Seq<u8>, t: Seq<u8>, from: int, pos: int, acc: Chunks)
    requires
        0 <= from <= pos,
        pos <= s.len() <= usize::MAX,
        pos <= t.len() <= usize::MAX,
        s.take(pos) == t.take(pos),
        walks_to(s, from, pos),
        !overflows(chunks_from(t, from, acc)),
        forall|c: Chunks| !overflows(chunks_from(t, pos, c)) ==> #[trigger] chunks_from(t, pos, c)
            == chunks_from(s, pos, c),
    ensures
        chunks_from(t, from, acc) == chunks_from(s, from, acc),
    decreases pos - from,
{
    if from < pos {
        let n = be32(s, from);
        let next_pos = from + 12 + n;
        assert forall|i: int| 0 <= i < pos implies #[trigger] s[i] == t[i] by {
            assert(s.take(pos)[i] == s[i]);
            assert(t.take(pos)[i] == t[i]);
        }
        assert(n == be32(t, from));
        assert(s.subrange(from + 4, from + 8) =~= t.subrange(from + 4, from + 8));
        let data = s.subrange(from + 8, from + 8 + n);
        assert(data =~= t.subrange(from + 8, from + 8 + n));
        match chunk_kind(s.subrange(from + 4, from + 8)) {
            ChunkKind::Header => {
                if let Ok(header) = header_of(data) {
                    lemma_same_prefix(
                        s,
                        t,
                        next_pos,
                        pos,
                        Chunks { header: Some(header), ..acc },
                    );
                }
            },
            ChunkKind::Palette => {
                lemma_same_prefix(s, t, next_pos, pos, Chunks { palette: data, ..acc });
            },
            ChunkKind::Transparency => {
                lemma_same_prefix(s, t, next_pos, pos, Chunks { alpha: data, ..acc });
            },
            ChunkKind::Data => {
                lemma_same_prefix(s, t, next_pos, pos, Chunks { data: acc.data + data, ..acc });
            },
            ChunkKind::Other => {
                lemma_same_prefix(s, t, next_pos, pos, acc);
            },
            _ => {},
        }
    }
}

proof fn lemma_same_signature(s: Seq<u8>, t: Seq<u8>, pos: int)
    requires
        8 <= pos <= s.len(),
        pos <= t.len(),
        s.take(pos) == t.take(pos),
    ensures
        has_signature(s) == has_signature(t),
{
    assert(s.subrange(0, 8) =~= s.take(pos).subrange(0, 8));
    assert(t.subrange(0, 8) =~= t.take(pos).subrange(0, 8));
}

/// Two files that agree up to `pos`, where a chunk starts, and give the same from
/// there on, decode to the same.
proof fn lemma_same_decoded(s: Seq<u8>, t: Seq<u8>, pos: int)
    requires
        is_chunk_start(s, pos),
        s.len() <= usize::MAX,
        pos <= t.len() <= usize::MAX,
        s.take(pos) == t.take(pos),
        !(decoded(t) matches Err(PngFault::ChunkOverflow)),
        forall|c: Chunks| !overflows(chunks_from(t, pos, c)) ==> #[trigger] chunks_from(t, pos, c)
            == chunks_from(s, pos, c),
    ensures
        decoded(t) == decoded(s),
{
    lemma_walk_is_forward(s, 8, pos);
    lemma_same_signature(s, t, pos);
    if has_signature(s) {
        lemma_same_prefix(s, t, 8, pos, no_chunks());
    }
}

proof fn lemma_walk_is_forward(s: Seq<u8>, from: int, pos: int)
    requires
        walks_to(s, from, pos),
    ensures
        from <= pos,
    decreases pos - from,
{
}

proof fn lemma_inserted(
    s: Seq<u8>,
    pos: int,
    name: Seq<u8>,
    data: Seq<u8>,
    checksum: Seq<u8>,
)
    requires
        0 <= pos <= s.len(),
        is_chunk(name, data, checksum),
    ensures
        ({
            let t = inserted(s, pos, chunk_bytes(name, data, checksum));
            let behind = pos + 12 + data.len();
            &&& t.len() == s.len() + 12 + data.len()
            &&& t.take(pos) == s.take(pos)
            &&& t.skip(behind) == s.skip(pos)
            &&& be32(t, pos) == data.len()
            &&& t.subrange(pos + 4, pos + 8) == name
        }),
{
    let c = chunk_bytes(name, data, checksum);
    let t = inserted(s, pos, c);
    let behind = pos + 12 + data.len();
    assert(c.len() == 12 + data.len());
    assert(t.take(pos) =~= s.take(pos));
    assert(t.subrange(pos, behind) =~= c);
    assert(t.skip(behind) =~= s.skip(pos));
    lemma_chunk_in_file(t, pos, name, data, checksum);
}

/// A chunk of an unknown kind can be put before any chunk of a file, or behind
/// the last, and the file decodes as it did. Only where the file then runs past
/// what the machine can count to is that complained of first.
pub proof fn law_unknown_chunks_anywhere(
    s: Seq<u8>,
    pos: int,
    name: Seq<u8>,
    data: Seq<u8>,
    checksum: Seq<u8>,
)
    requires
        is_chunk_start(s, pos),
        is_chunk(name, data, checksum),
        chunk_kind(name) == ChunkKind::Other,
        s.len() + 12 + data.len() <= usize::MAX,
        !(decoded(inserted(s, pos, chunk_bytes(name, data, checksum))) matches Err(
            PngFault::ChunkOverflow,
        )),
    ensures
        decoded(inserted(s, pos, chunk_bytes(name, data, checksum))) == decoded(s),
{
    let t = inserted(s, pos, chunk_bytes(name, data, checksum));
    let behind = pos + 12 + data.len();
    lemma_walk_is_forward(s, 8, pos);
    lemma_inserted(s, pos, name, data, checksum);
    assert forall|acc: Chunks| !overflows(chunks_from(t, pos, acc)) implies #[trigger] chunks_from(
        t,
        pos,
        acc,
    ) == chunks_from(s, pos, acc) by {
        law_unknown_chunks_are_skipped(t, pos, acc);
        lemma_same_suffix(s, pos, t, behind, acc);
    }
    lemma_same_decoded(s, t, pos);
}

/// Where the data chunk at `pos` ends: behind its checksum, if that is there.
pub open spec fn chunk_end(s: Seq<u8>, pos: int) -> int {
    if pos + 12 + be32(s, pos) <= s.len() {
        pos + 12 + be32(s, pos)
    } else {
        s.len() as int
    }
}

/// A file in which the data chunk at `pos` is split in two behind its first `k`
/// bytes.
pub open spec fn data_split(
    s: Seq<u8>,
    pos: int,
    k: int,
    first_sum: Seq<u8>,
    second_sum: Seq<u8>,
) -> Seq<u8> {
    let name = s.subrange(pos + 4, pos + 8);
    let data = s.subrange(pos + 8, pos + 8 + be32(s, pos));
    s.take(pos) + chunk_bytes(name, data.take(k), first_sum) + chunk_bytes(
        name,
        data.skip(k),
        second_sum,
    ) + s.skip(chunk_end(s, pos))
}

proof fn lemma_data_split(
    s: Seq<u8>,
    pos: int,
    k: int,
    first_sum: Seq<u8>,
    second_sum: Seq<u8>,
)
    requires
        0 <= pos,
        pos + 8 + be32(s, pos) <= s.len(),
        0 <= k <= be32(s, pos),
        first_sum.len() == 4,
        second_sum.len() == 4,
    ensures
        ({
            let n = be32(s, pos) as int;
            let name = s.subrange(pos + 4, pos + 8);
            let data = s.subrange(pos + 8, pos + 8 + n);
            let t = data_split(s, pos, k, first_sum, second_sum);
            let middle = pos + 12 + k;
            &&& t.len() == pos + 24 + n + (s.len() - chunk_end(s, pos))
            &&& t.take(pos) == s.take(pos)
            &&& t.skip(pos + 24 + n) == s.skip(chunk_end(s, pos))
            &&& be32(t, pos) == k
            &&& t.subrange(pos + 4, pos + 8) == name
            &&& t.subrange(pos + 8, pos + 8 + k) == data.take(k)
            &&& be32(t, middle) == n - k
            &&& t.subrange(middle + 4, middle + 8) == name
            &&& t.subrange(middle + 8, middle + 8 + (n - k)) == data.skip(k)
        }),
{
    let n = be32(s, pos) as int;
    let name = s.subrange(pos + 4, pos + 8);
    let data = s.subrange(pos + 8, pos + 8 + n);
    let (head, tail) = (data.take(k), data.skip(k));
    let one = chunk_bytes(name, head, first_sum);
    let two = chunk_bytes(name, tail, second_sum);
    let t = data_split(s, pos, k, first_sum, second_sum);
    let (middle, behind) = (pos + 12 + k, pos + 24 + n);
    assert(one.len() == 12 + k && two.len() == 12 + (n - k));
    assert(t.take(pos) =~= s.take(pos));
    assert(t.subrange(pos, middle) =~= one);
    assert(t.subrange(middle, behind) =~= two);
    assert(t.skip(behind) =~= s.skip(chunk_end(s, pos)));
    lemma_chunk_in_file(t, pos, name, head, first_sum);
    lemma_chunk_in_file(t, middle, name, tail, second_sum);
}

/// From a split data chunk on, as much is read as from the whole one.
proof fn lemma_split_reads_the_same(
    s: Seq<u8>,
    pos: int,
    k: int,
    first_sum: Seq<u8>,
    second_sum: Seq<u8>,
    acc: Chunks,
)
    requires
        0 <= pos,
        pos + 8 + be32(s, pos) <= s.len(),
        chunk_kind(s.subrange(pos + 4, pos + 8)) == ChunkKind::Data,
        0 <= k <= be32(s, pos),
        first_sum.len() == 4,
        second_sum.len() == 4,
        s.len() + 16 <= usize::MAX,
        !overflows(chunks_from(data_split(s, pos, k, first_sum, second_sum), pos, acc)),
    ensures
        chunks_from(data_split(s, pos, k, first_sum, second_sum), pos, acc) == chunks_from(
            s,
            pos,
            acc,
        ),
{
    let n = be32(s, pos) as int;
    let data = s.subrange(pos + 8, pos + 8 + n);
    let t = data_split(s, pos, k, first_sum, second_sum);
    let (middle, behind) = (pos + 12 + k, pos + 24 + n);
    let half = Chunks { data: acc.data + data.take(k), ..acc };
    let full = Chunks { data: acc.data + data, ..acc };
    lemma_data_split(s, pos, k, first_sum, second_sum);
    law_data_chunks_are_concatenated(t, pos, acc);
    law_data_chunks_are_concatenated(t, middle, half);
    assert(acc.data + data.take(k) + data.skip(k) =~= acc.data + data);
    assert(chunks_from(t, pos, acc) == chunks_from(t, behind, full));
    assert(chunks_from(s, pos, acc) == chunks_from(s, pos + 12 + n, full));
    if pos + 12 + n <= s.len() {
        lemma_same_suffix(s, pos + 12 + n, t, behind, full);
    } else {
        assert(chunks_from(s, pos + 12 + n, full) == Ok::<Chunks, PngFault>(full));
        assert(chunks_from(t, behind, full) == Ok::<Chunks, PngFault>(full));
    }
}

/// The image data can be split anywhere, in any of its chunks, and the file
/// decodes as it did. Only where the file then runs past what the machine can
/// count to is that complained of first.
pub proof fn law_image_data_splits_anywhere(
    s: Seq<u8>,
    pos: int,
    k: int,
    first_sum: Seq<u8>,
    second_sum: Seq<u8>,
)
    requires
        is_chunk_start(s, pos),
        pos + 8 + be32(s, pos) <= s.len(),
        chunk_kind(s.subrange(pos + 4, pos + 8)) == ChunkKind::Data,
        0 <= k <= be32(s, pos),
        first_sum.len() == 4,
        second_sum.len() == 4,
        s.len() + 16 <= usize::MAX,
        !(decoded(data_split(s, pos, k, first_sum, second_sum)) matches Err(
            PngFault::ChunkOverflow,
        )),
    ensures
        decoded(data_split(s, pos, k, first_sum, second_sum)) == decoded(s),
{
    let t = data_split(s, pos, k, first_sum, second_sum);
    lemma_walk_is_forward(s, 8, pos);
    lemma_data_split(s, pos, k, first_sum, second_sum);
    assert forall|acc: Chunks| !overflows(chunks_from(t, pos, acc)) implies #[trigger] chunks_from(
        t,
        pos,
        acc,
    ) == chunks_from(s, pos, acc) by {
        lemma_split_reads_the_same(s, pos, k, first_sum, second_sum, acc);
    }
    lemma_same_decoded(s, t, pos);
}

/// The byte at `(x, y)` is stored as its difference from the prediction.
pub open spec fn stores_difference(
    raw: Seq<u8>,
    bytes: spec_fn(int, int) -> u8,
    filters: spec_fn(int) -> u8,
    stride: int,
    bpp: int,
    y: int,
    x: int,
) -> bool {
    raw[y * (stride + 1) + 1 + x] as int == (bytes(y, x) - prediction(
        filters(y),
        if x >= bpp { bytes(y, x - bpp) } else { 0 },
        if y > 0 { bytes(y - 1, x) } else { 0 },
        if y > 0 && x >= bpp { bytes(y - 1, x - bpp) } else { 0 },
    )) % 256
}

/// Bytes whose lines were filtered with `filters`: each line starts with its
/// filter type, and each byte is stored as its difference from the prediction.
pub open spec fn is_filtered(
    raw: Seq<u8>,
    bytes: spec_fn(int, int) -> u8,
    filters: spec_fn(int) -> u8,
    height: int,
    stride: int,
    bpp: int,
) -> bool {
    &&& forall|y: int| 0 <= y < height ==> raw[y * (stride + 1)] == #[trigger] filters(y)
    &&& forall|y: int, x: int|
        0 <= y < height && 0 <= x < stride ==> #[trigger] stores_difference(
            raw,
            bytes,
            filters,
            stride,
            bpp,
            y,
            x,
        )
}

/// Undoing the filters gives back the bytes that were filtered, whichever
/// filter each line uses: neighbours are the reconstructed bytes.
pub proof fn law_unfilter_inverts_filter(
    raw: Seq<u8>,
    bytes: spec_fn(int, int) -> u8,
    filters: spec_fn(int) -> u8,
    height: int,
    stride: int,
    bpp: int,
    y: int,
    x: int,
)
    requires
        bpp >= 1,
        0 <= y < height,
        0 <= x < stride,
        is_filtered(raw, bytes, filters, height, stride, bpp),
    ensures
        reconstructed(raw, stride, bpp, y, x) == bytes(y, x),
    decreases y, x,
{
    reveal(reconstructed);
    if x >= bpp {
        law_unfilter_inverts_filter(raw, bytes, filters, height, stride, bpp, y, x - bpp);
    }
    if y > 0 {
        law_unfilter_inverts_filter(raw, bytes, filters, height, stride, bpp, y - 1, x);
        if x >= bpp {
            law_unfilter_inverts_filter(raw, bytes, filters, height, stride, bpp, y - 1, x - bpp);
        }
    }
    assert(filters(y) == raw[y * (stride + 1)]);
    assert(stores_difference(raw, bytes, filters, stride, bpp, y, x));
}

} // verus!
