//! What PNG pictures show, said of samples, lines and pixels directly.

use vstd::prelude::*;
use vstd::arithmetic::div_mod::lemma_fundamental_div_mod_converse;
use crate::assets::png::{
    be32, header_of, interlace_fault, is_filtered, law_unfilter_inverts_filter, pass_data,
    pass_extent, pass_height, pass_of, pass_offset, pass_width, pixel_color, pixels_of, prediction,
    unfilter_fault, unfiltered, ColorType, Header, PASS_DX, PASS_DY, PASS_X, PASS_Y,
};

verus! {

// --- samples and colours -----------------------------------------------------

/// How many samples and bytes a pixel of each colour type takes.
pub proof fn law_pixel_sizes(header: Header)
    requires
        header.wf(),
    ensures
        header.sample_bytes() == (if header.bit_depth == 16 {
            2nat
        } else {
            1nat
        }),
        header.color_type == ColorType::Grey ==> header.pixel_bytes() == header.sample_bytes(),
        header.color_type == ColorType::Palette ==> header.pixel_bytes() == 1,
        header.color_type == ColorType::GreyAlpha ==> header.pixel_bytes() == 2
            * header.sample_bytes(),
        header.color_type == ColorType::Rgb ==> header.pixel_bytes() == 3 * header.sample_bytes(),
        header.color_type == ColorType::Rgba ==> header.pixel_bytes() == 4 * header.sample_bytes(),
{
    assert(header.bit_depth / 8 == 1 || header.bit_depth / 8 == 2);
}

/// Every channel of a pixel is the first byte of that channel's own sample, or
/// 0 past the end of the data: one sample of grey for all three colours, three
/// samples of colour, and an alpha of its own where the type has one and full
/// where it has none.
pub proof fn law_channels_show_their_samples(
    header: Header,
    data: Seq<u8>,
    stride: int,
    palette: Seq<u8>,
    alpha: Seq<u8>,
    x: int,
    y: int,
    c: int,
)
    requires
        header.wf(),
        0 <= c < 4,
    ensures
        ({
            let n = if header.bit_depth == 16 {
                2int
            } else {
                1int
            };
            let color = pixel_color(header, data, stride, palette, alpha, x, y);
            let shows = |sample: int|
                color[c] == (if y * stride + sample * n < data.len() {
                    data[y * stride + sample * n]
                } else {
                    0
                });
            &&& color.len() == 4
            &&& header.color_type == ColorType::Grey ==> if c < 3 {
                shows(x)
            } else {
                color[c] == 255
            }
            &&& header.color_type == ColorType::GreyAlpha ==> if c < 3 {
                shows(2 * x)
            } else {
                shows(2 * x + 1)
            }
            &&& header.color_type == ColorType::Rgb ==> if c < 3 {
                shows(3 * x + c)
            } else {
                color[c] == 255
            }
            &&& header.color_type == ColorType::Rgba ==> shows(4 * x + c)
        }),
{
    law_pixel_sizes(header);
    let b = header.pixel_bytes() as int;
    if header.bit_depth == 16 {
        assert(b == 2 || b == 4 || b == 6 || b == 8 || b == 1);
    } else {
        assert(b == 1 || b == 2 || b == 3 || b == 4);
    }
    if b == 1 {
        assert(x * b == x);
    } else if b == 2 {
        assert(x * b == 2 * x);
    } else if b == 3 {
        assert(x * b == 3 * x);
    } else if b == 4 {
        assert(x * b == 4 * x);
    } else if b == 6 {
        assert(x * b == 6 * x);
    } else {
        assert(x * b == 8 * x);
    }
    assert(c == 0 || c == 1 || c == 2 || c == 3);
}

/// A palette pixel shows the colour that its index names, three bytes to each
/// entry, and black where there is no such entry; its alpha is that entry's of
/// the transparency table, and full past its end.
pub proof fn law_palette_pixels_show_their_entry(
    header: Header,
    data: Seq<u8>,
    stride: int,
    palette: Seq<u8>,
    alpha: Seq<u8>,
    x: int,
    y: int,
    entry: int,
)
    requires
        header.wf(),
        header.color_type == ColorType::Palette,
        y * stride + x < data.len(),
        data[y * stride + x] == entry,
    ensures
        ({
            let color = pixel_color(header, data, stride, palette, alpha, x, y);
            &&& color.len() == 4
            &&& forall|c: int|
                0 <= c < 3 ==> #[trigger] color[c] == (if 3 * (entry + 1) <= palette.len() {
                    palette[3 * entry + c]
                } else {
                    0
                })
            &&& color[3] == (if entry < alpha.len() {
                alpha[entry]
            } else {
                255
            })
        }),
{
    law_pixel_sizes(header);
    assert(x * (header.pixel_bytes() as int) == x);
    let color = pixel_color(header, data, stride, palette, alpha, x, y);
    assert forall|c: int| 0 <= c < 3 implies #[trigger] color[c] == (if 3 * (entry + 1)
        <= palette.len() {
        palette[3 * entry + c]
    } else {
        0
    }) by {
        assert(c == 0 || c == 1 || c == 2);
    }
}

proof fn lemma_high_byte(wide_data: Seq<u8>, data: Seq<u8>, base: int, sample: int)
    requires
        wide_data.len() == 2 * data.len(),
        forall|i: int| 0 <= i < data.len() ==> wide_data[2 * i] == #[trigger] data[i],
        0 <= base && 0 <= sample,
    ensures
        2 * base + sample * 2 < wide_data.len() <==> base + sample < data.len(),
        base + sample < data.len() ==> wide_data[2 * base + sample * 2] == data[base + sample],
{
    if base + sample < data.len() {
        let i = base + sample;
        assert(wide_data[2 * i] == data[i]);
        assert(2 * i == 2 * base + sample * 2);
    }
}

/// An image of 16-bit samples looks like the image of their high bytes: the low
/// bytes, whatever they are, do not show.
pub proof fn law_sixteen_bits_show_their_high_byte(
    wide: Header,
    narrow: Header,
    wide_data: Seq<u8>,
    data: Seq<u8>,
    stride: int,
    x: int,
    y: int,
)
    requires
        wide.wf() && narrow.wf(),
        wide.bit_depth == 16 && narrow.bit_depth == 8,
        wide.color_type == narrow.color_type,
        wide_data.len() == 2 * data.len(),
        forall|i: int| 0 <= i < data.len() ==> wide_data[2 * i] == #[trigger] data[i],
        0 <= x && 0 <= y && 0 <= stride,
    ensures
        pixel_color(wide, wide_data, 2 * stride, seq![], seq![], x, y) == pixel_color(
            narrow,
            data,
            stride,
            seq![],
            seq![],
            x,
            y,
        ),
{
    let a = pixel_color(wide, wide_data, 2 * stride, seq![], seq![], x, y);
    let b = pixel_color(narrow, data, stride, seq![], seq![], x, y);
    assert(y * (2 * stride) == 2 * (y * stride)) by (nonlinear_arith);
    assert(0 <= y * stride) by (nonlinear_arith)
        requires
            0 <= y,
            0 <= stride,
    ;
    assert forall|c: int| 0 <= c < 4 implies #[trigger] a[c] == b[c] by {
        law_channels_show_their_samples(wide, wide_data, 2 * stride, seq![], seq![], x, y, c);
        law_channels_show_their_samples(narrow, data, stride, seq![], seq![], x, y, c);
        lemma_high_byte(wide_data, data, y * stride, x);
        lemma_high_byte(wide_data, data, y * stride, 2 * x);
        lemma_high_byte(wide_data, data, y * stride, 2 * x + 1);
        lemma_high_byte(wide_data, data, y * stride, 3 * x + c);
        lemma_high_byte(wide_data, data, y * stride, 4 * x + c);
    }
    law_channels_show_their_samples(wide, wide_data, 2 * stride, seq![], seq![], x, y, 0);
    law_channels_show_their_samples(narrow, data, stride, seq![], seq![], x, y, 0);
    assert(a =~= b);
}

// --- filters -----------------------------------------------------------------

/// What each filter predicts from the bytes to the left, above and upper left:
/// nothing, the left one, the one above, half their sum without its fraction,
/// and the one of the three that is nearest to left plus above minus upper left,
/// the left one winning ties and then the one above.
pub proof fn law_predictions(a: u8, b: u8, c: u8)
    ensures
        prediction(0, a, b, c) == 0,
        prediction(1, a, b, c) == a,
        prediction(2, a, b, c) == b,
        2 * prediction(3, a, b, c) <= a + b <= 2 * prediction(3, a, b, c) + 1,
        ({
            let p = prediction(4, a, b, c);
            let off = |v: int|
                if v <= a + b - c {
                    a + b - c - v
                } else {
                    v - (a + b - c)
                };
            &&& p == a || p == b || p == c
            &&& off(p as int) <= off(a as int) && off(p as int) <= off(b as int) && off(p as int)
                <= off(c as int)
            &&& off(a as int) == off(p as int) ==> p == a
            &&& off(b as int) == off(p as int) && p != a ==> p == b
        }),
{
}

/// The filtered lines of an image are all there, or the first that is not is
/// complained of: nothing is wrong with exactly the data that hold a filter byte
/// and a whole line for each line, with filters from 0 to 4.
pub proof fn law_whole_lines_have_no_fault(raw: Seq<u8>, height: nat, stride: nat)
    requires
        stride > 0,
    ensures
        unfilter_fault(raw, height, stride, 0) is None <==> raw.len() >= height * (stride + 1)
            && forall|y: int| 0 <= y < height ==> raw[#[trigger] (y * (stride + 1))] <= 4,
{
    lemma_lines_from(raw, height, stride, 0);
    assert(height * (stride + 1) >= 0) by (nonlinear_arith);
}

proof fn lemma_lines_from(raw: Seq<u8>, height: nat, stride: nat, first: nat)
    requires
        stride > 0,
        first <= height,
        raw.len() >= first * (stride + 1),
    ensures
        unfilter_fault(raw, height, stride, first) is None <==> raw.len() >= height * (stride + 1)
            && forall|y: int| first <= y < height ==> raw[#[trigger] (y * (stride + 1))] <= 4,
    decreases height - first,
{
    let line = first * (stride + 1);
    if first < height {
        assert((first + 1) * (stride + 1) == line + stride + 1) by (nonlinear_arith)
            requires
                line == first * (stride + 1),
        ;
        assert((first + 1) * (stride + 1) <= height * (stride + 1)) by (nonlinear_arith)
            requires
                first < height,
        ;
        if raw.len() >= line + stride + 1 {
            lemma_lines_from(raw, height, stride, first + 1);
            let here = first as int;
            assert(raw[here * (stride + 1)] == raw[line as int]);
            if raw[line as int] <= 4 {
                assert forall|y: int| first <= y < height && (forall|z: int|
                    first + 1 <= z < height ==> raw[#[trigger] (z * (stride + 1))]
                        <= 4) implies raw[#[trigger] (y * (stride + 1))] <= 4 by {
                    if y != first {
                        assert(first + 1 <= y < height);
                    }
                }
            }
        }
    }
}

// --- pictures ----------------------------------------------------------------

/// Where a channel of a pixel stands in the decoded bytes.
proof fn lemma_place(width: int, x: int, y: int, c: int)
    requires
        0 <= x < width,
        0 <= y,
        0 <= c < 4,
    ensures
        ({
            let k = (y * width + x) * 4 + c;
            &&& k / 4 == y * width + x
            &&& k % 4 == c
            &&& (k / 4) % width == x
            &&& (k / 4) / width == y
        }),
{
    lemma_fundamental_div_mod_converse((y * width + x) * 4 + c, 4, y * width + x, c);
    lemma_fundamental_div_mod_converse(y * width + x, width, y, x);
}

proof fn lemma_inside(width: int, height: int, x: int, y: int, c: int)
    requires
        0 <= x < width,
        0 <= y < height,
        0 <= c < 4,
    ensures
        0 <= (y * width + x) * 4 + c < width * height * 4,
{
    assert(y * width + width <= width * height) by (nonlinear_arith)
        requires
            0 <= y < height,
            0 < width,
    ;
    assert(0 <= y * width) by (nonlinear_arith)
        requires
            0 <= y,
            0 < width,
    ;
}

/// A picture that was filtered line by line, with any filters, decodes to what it
/// was: the pixels stand row by row from the top, four bytes each, and show the
/// bytes that were filtered.
pub proof fn law_filtered_pictures_decode(
    header: Header,
    raw: Seq<u8>,
    bytes: spec_fn(int, int) -> u8,
    filters: spec_fn(int) -> u8,
    lines: Seq<u8>,
    palette: Seq<u8>,
    alpha: Seq<u8>,
    x: int,
    y: int,
    c: int,
)
    requires
        header.wf(),
        !header.interlaced,
        ({
            let stride = header.width * header.pixel_bytes();
            &&& raw.len() >= header.height * (stride + 1)
            &&& is_filtered(
                raw,
                bytes,
                filters,
                header.height as int,
                stride as int,
                header.pixel_bytes() as int,
            )
            &&& lines.len() == header.height * stride
            &&& forall|i: int, j: int|
                0 <= i < header.height && 0 <= j < stride ==> lines[i * stride + j]
                    == #[trigger] bytes(i, j)
        }),
        forall|i: int| 0 <= i < header.height ==> #[trigger] filters(i) <= 4,
        0 <= x < header.width,
        0 <= y < header.height,
        0 <= c < 4,
    ensures
        pixels_of(header, raw, palette, alpha) matches Ok(p) && p.width == header.width && p.height
            == header.height && p.bytes.len() == 4 * (header.width * header.height) && p.bytes[4 * (
        y * header.width + x) + c] == pixel_color(
            header,
            lines,
            header.width * header.pixel_bytes(),
            palette,
            alpha,
            x,
            y,
        )[c],
{
    law_pixel_sizes(header);
    let bpp = header.pixel_bytes() as int;
    let stride = header.width * bpp;
    let height = header.height as nat;
    assert(stride >= 1) by (nonlinear_arith)
        requires
            stride == header.width * bpp,
            header.width >= 1,
            bpp >= 1,
    ;
    assert(header.line_bytes(header.width as nat) == stride);
    let restored = unfiltered(raw, height, stride as nat, bpp);
    assert(height * (stride as nat) >= 0) by (nonlinear_arith);
    assert(restored.len() == lines.len());
    assert forall|k: int| 0 <= k < lines.len() implies restored[k] == #[trigger] lines[k] by {
        let (i, j) = (k / stride, k % stride);
        vstd::arithmetic::div_mod::lemma_fundamental_div_mod(k, stride);
        assert(stride * i == i * stride) by (nonlinear_arith);
        assert(0 <= i < header.height) by (nonlinear_arith)
            requires
                k == i * stride + j,
                0 <= j < stride,
                0 <= k < header.height * stride,
        ;
        law_unfilter_inverts_filter(
            raw,
            bytes,
            filters,
            header.height as int,
            stride,
            bpp,
            i,
            j,
        );
        assert(lines[i * stride + j] == bytes(i, j));
    }
    assert(restored =~= lines);
    assert forall|i: int| 0 <= i < height implies raw[#[trigger] (i * (stride as nat + 1))] <= 4 by {
        assert(raw[i * (stride + 1)] == filters(i));
    }
    law_whole_lines_have_no_fault(raw, height, stride as nat);
    lemma_place(header.width as int, x, y, c);
    lemma_inside(header.width as int, header.height as int, x, y, c);
    assert((header.width as nat) * (header.height as nat) == header.width * header.height);
}

/// The passes of an interlaced picture: each carries one pixel of the blocks of
/// eight by eight, then one more, then two, and so on to every other line.
pub proof fn law_passes(x: int, y: int)
    requires
        x >= 0,
        y >= 0,
    ensures
        pass_of(x, y) == 0 <==> x % 8 == 0 && y % 8 == 0,
        pass_of(x, y) == 1 <==> x % 8 == 4 && y % 8 == 0,
        pass_of(x, y) == 2 <==> x % 4 == 0 && y % 8 == 4,
        pass_of(x, y) == 3 <==> x % 4 == 2 && y % 4 == 0,
        pass_of(x, y) == 4 <==> x % 2 == 0 && y % 4 == 2,
        pass_of(x, y) == 5 <==> x % 2 == 1 && y % 2 == 0,
        pass_of(x, y) == 6 <==> y % 2 == 1,
        0 <= pass_of(x, y) < 7,
{
    let (a, b) = (x % 8, y % 8);
    assert(x % 4 == a % 4 && x % 2 == a % 2 && y % 4 == b % 4 && y % 2 == b % 2);
}

/// Where each pass starts, and how it steps on.
pub proof fn law_pass_steps()
    ensures
        PASS_X@ =~= seq![0u32, 4, 0, 2, 0, 1, 0],
        PASS_Y@ =~= seq![0u32, 0, 4, 0, 2, 0, 1],
        PASS_DX@ =~= seq![8u32, 8, 4, 4, 2, 2, 1],
        PASS_DY@ =~= seq![8u32, 8, 8, 4, 4, 2, 2],
{
}

/// A pass visits as many of the coordinates below `size` as it takes steps to
/// reach the last of them: one step less falls short, and one more leads out.
pub proof fn law_pass_extents(size: int, first: int, step: int)
    requires
        0 <= size,
        0 <= first < step,
    ensures
        ({
            let n = pass_extent(size, first, step);
            &&& n >= 0
            &&& n > 0 ==> first + (n - 1) * step < size
            &&& first + n * step >= size
        }),
{
    let n = pass_extent(size, first, step);
    if size > first {
        let v = size - first + step - 1;
        vstd::arithmetic::div_mod::lemma_fundamental_div_mod(v, step);
        assert(v == step * n + v % step);
        assert(step * n == n * step && (n - 1) * step == n * step - step) by (nonlinear_arith);
        assert(n >= 0) by (nonlinear_arith)
            requires
                v == step * n + v % step,
                v >= step,
                0 <= v % step < step,
                step > 0,
        ;
    } else {
        assert(n * step == 0) by (nonlinear_arith)
            requires
                n == 0,
        ;
    }
}

/// The passes follow each other in the data, each with its own lines, and one
/// without pixels takes no room.
pub proof fn law_passes_follow_each_other(header: Header, p: int)
    requires
        0 <= p < 7,
    ensures
        pass_offset(header, 0) == 0,
        pass_offset(header, p + 1) - pass_offset(header, p) == (if pass_width(header, p) == 0
            || pass_height(header, p) == 0 {
            0
        } else {
            pass_height(header, p) * (1 + (pass_width(header, p) as nat) * header.pixel_bytes())
        }),
{
}

/// Pixel (`x`, `y`) of an interlaced picture is the pixel of its pass that stands
/// as many steps from the pass's corner as it does itself.
pub proof fn law_interlaced_pixels(
    header: Header,
    raw: Seq<u8>,
    palette: Seq<u8>,
    alpha: Seq<u8>,
    x: int,
    y: int,
    c: int,
    column: int,
    row: int,
)
    requires
        header.wf(),
        header.interlaced,
        interlace_fault(header, raw, 0) is None,
        0 <= x < header.width,
        0 <= y < header.height,
        0 <= c < 4,
        x == PASS_X[pass_of(x, y)] + column * PASS_DX[pass_of(x, y)],
        y == PASS_Y[pass_of(x, y)] + row * PASS_DY[pass_of(x, y)],
    ensures
        ({
            let p = pass_of(x, y);
            let stride = (pass_width(header, p) as nat) * header.pixel_bytes();
            &&& pixels_of(header, raw, palette, alpha) matches Ok(image) && image.width
                == header.width && image.height == header.height && image.bytes.len() == 4 * (
            header.width * header.height) && image.bytes[4 * (y * header.width + x) + c]
                == pixel_color(
                header,
                unfiltered(
                    pass_data(header, raw, p),
                    pass_height(header, p) as nat,
                    stride,
                    header.pixel_bytes() as int,
                ),
                stride as int,
                palette,
                alpha,
                column,
                row,
            )[c]
        }),
{
    law_passes(x, y);
    law_pass_steps();
    let p = pass_of(x, y);
    let (dx, dy) = (PASS_DX[p] as int, PASS_DY[p] as int);
    assert(dx > 0 && dy > 0) by {
        assert(p == 0 || p == 1 || p == 2 || p == 3 || p == 4 || p == 5 || p == 6);
    }
    lemma_fundamental_div_mod_converse(x - PASS_X[p], dx, column, 0);
    lemma_fundamental_div_mod_converse(y - PASS_Y[p], dy, row, 0);
    lemma_place(header.width as int, x, y, c);
    lemma_inside(header.width as int, header.height as int, x, y, c);
}

// --- headers -----------------------------------------------------------------

/// The bytes of a number in a file stand with the highest first.
pub proof fn law_numbers_are_big_endian(s: Seq<u8>, at: int)
    ensures
        be32(s, at) == 256 * (256 * (256 * s[at] + s[at + 1]) + s[at + 2]) + s[at + 3],
{
}

/// A header is accepted exactly if it is complete and every field of it is one
/// that can be decoded, and then says what its bytes say.
pub proof fn law_headers(data: Seq<u8>)
    ensures
        header_of(data) is Ok <==> data.len() >= 13 && 1 <= be32(data, 0) <= 16384 && 1 <= be32(
            data,
            4,
        ) <= 16384 && (data[8] == 8 || data[8] == 16) && (data[9] == 0 || data[9] == 2 || data[9]
            == 4 || data[9] == 6 || (data[9] == 3 && data[8] == 8)) && data[10] == 0 && data[11]
            == 0 && data[12] <= 1,
        header_of(data) matches Ok(h) ==> h.width == be32(data, 0) && h.height == be32(data, 4)
            && h.bit_depth == data[8] && h.interlaced == (data[12] != 0) && (h.color_type
            == ColorType::Grey <==> data[9] == 0) && (h.color_type == ColorType::Rgb <==> data[9]
            == 2) && (h.color_type == ColorType::Palette <==> data[9] == 3) && (h.color_type
            == ColorType::GreyAlpha <==> data[9] == 4) && (h.color_type == ColorType::Rgba
            <==> data[9] == 6),
{
}

} // verus!
