//! Font glyph rasterization: the tagged union of rasterization outcomes a
//! font can offer, the fixed first-success-wins priority over them, and
//! the pixel-exact conversions from embedded raster formats into the
//! atlas's packed RGBA pixels.
//!
//! Outline filling itself (vector paths, shear and supersampling) is the
//! host's work; it arrives here as an already-rendered supersampled
//! coverage buffer. Everything after that point — format expansion,
//! color-channel swizzling, nearest-neighbour scaling, and the transparent
//! fallback for a missing glyph — is verified.

use vstd::prelude::*;

verus! {

/// Largest supported source raster edge, in pixels.
pub const MAX_RASTER_DIM: u32 = 4000;

/// Bound on the magnitude of an embedded image's placement offset.
pub const MAX_PLACEMENT: i32 = 0x10_0000;

/// The embedded grayscale/monochrome bitmap formats a font can carry:
/// 1, 2, 4 or 8 bits per sample, with rows either padded to whole bytes
/// (unpacked) or bit-continuous (packed).
#[derive(Clone, Copy, PartialEq, Eq, Structural, Debug)]
pub enum GrayFormat {
    Mono,
    MonoPacked,
    Gray2,
    Gray2Packed,
    Gray4,
    Gray4Packed,
    Gray8,
}

/// An embedded pre-rasterized color image (BGRA bytes, premultiplied),
/// with the placement offset (in slot pixels) the font's raster metrics
/// assign to it.
#[derive(Debug)]
pub struct ColorImage {
    pub data: Vec<u8>,
    pub width: u32,
    pub height: u32,
    pub left: i32,
    pub top: i32,
}

/// An embedded grayscale image, with its placement offset.
#[derive(Debug)]
pub struct GrayImage {
    pub format: GrayFormat,
    pub data: Vec<u8>,
    pub width: u32,
    pub height: u32,
    pub left: i32,
    pub top: i32,
}

/// The rasterization outcome chosen for a glyph, in priority order:
/// color-layer artwork, an embedded color image, a filled outline (as a
/// supersampled buffer at twice the slot's linear dimensions), an embedded
/// grayscale image, or nothing.
#[derive(Debug)]
pub enum GlyphSource {
    ColorLayers { pixels: Vec<u32> },
    RasterColor { image: ColorImage },
    OutlineMask { pixels: Vec<u32> },
    Gray { bitmap: GrayImage },
    Missing,
}

/// Picks the rasterization source for a glyph: the four paths are tried in
/// a fixed order and the first available one wins. Synthetic bold and
/// italic apply only to the outline path, so color artwork is never
/// distorted.
pub fn select_source(
    color_layers: Option<Vec<u32>>,
    raster_color: Option<ColorImage>,
    outline_mask: Option<Vec<u32>>,
    gray: Option<GrayImage>,
) -> (r: GlyphSource)
    ensures
        color_layers is Some ==> r == (GlyphSource::ColorLayers { pixels: color_layers->0 }),
        color_layers is None && raster_color is Some ==> r == (GlyphSource::RasterColor {
            image: raster_color->0,
        }),
        color_layers is None && raster_color is None && outline_mask is Some ==> r == (
        GlyphSource::OutlineMask { pixels: outline_mask->0 }),
        color_layers is None && raster_color is None && outline_mask is None && gray is Some ==> r
            == (GlyphSource::Gray { bitmap: gray->0 }),
        color_layers is None && raster_color is None && outline_mask is None && gray is None ==> r
            == GlyphSource::Missing,
{
    match color_layers {
        Some(pixels) => GlyphSource::ColorLayers { pixels },
        None => match raster_color {
            Some(image) => GlyphSource::RasterColor { image },
            None => match outline_mask {
                Some(pixels) => GlyphSource::OutlineMask { pixels },
                None => match gray {
                    Some(bitmap) => GlyphSource::Gray { bitmap },
                    None => GlyphSource::Missing,
                },
            },
        },
    }
}

/// A byte of the stream, zero past its end.
pub open spec fn spec_byte(data: Seq<u8>, i: int) -> u32 {
    if 0 <= i < data.len() {
        data[i] as u32
    } else {
        0
    }
}

/// Bit `i` of the stream, least significant bit of each byte first.
pub open spec fn spec_bit(data: Seq<u8>, i: int) -> u32 {
    (spec_byte(data, i / 8) >> ((i % 8) as u32)) & 1
}

/// A `bits`-wide sample starting at bit `p`: read stream-order first, the
/// first bit becoming the sample's most significant bit.
pub open spec fn spec_sample(data: Seq<u8>, p: int, bits: nat) -> u32
    decreases bits,
{
    if bits == 0 {
        0u32
    } else {
        (spec_sample(data, p, (bits - 1) as nat) * 2 + spec_bit(data, p + bits - 1)) as u32
    }
}

pub open spec fn spec_gray_bits(f: GrayFormat) -> nat {
    match f {
        GrayFormat::Mono | GrayFormat::MonoPacked => 1,
        GrayFormat::Gray2 | GrayFormat::Gray2Packed => 2,
        GrayFormat::Gray4 | GrayFormat::Gray4Packed => 4,
        GrayFormat::Gray8 => 8,
    }
}

pub open spec fn spec_gray_packed(f: GrayFormat) -> bool {
    match f {
        GrayFormat::MonoPacked | GrayFormat::Gray2Packed | GrayFormat::Gray4Packed
        | GrayFormat::Gray8 => true,
        _ => false,
    }
}

/// The largest sample value of a format.
pub open spec fn spec_gray_maxv(f: GrayFormat) -> u32 {
    match f {
        GrayFormat::Mono | GrayFormat::MonoPacked => 1,
        GrayFormat::Gray2 | GrayFormat::Gray2Packed => 3,
        GrayFormat::Gray4 | GrayFormat::Gray4Packed => 15,
        GrayFormat::Gray8 => 255,
    }
}

/// Bits per row: packed rows are bit-continuous, unpacked rows are padded
/// to the next whole byte.
pub open spec fn spec_gray_row_bits(f: GrayFormat, rw: int) -> int {
    if spec_gray_packed(f) {
        rw * spec_gray_bits(f)
    } else {
        ((rw * spec_gray_bits(f)) / 8 + 1) * 8
    }
}

/// A sample expanded to a full 0..=255 alpha level.
pub open spec fn spec_gray_level(f: GrayFormat, v: u32) -> u32 {
    ((v * 255) as int / (spec_gray_maxv(f) as int)) as u32
}

/// The alpha level of pixel (`x`, `y`) of a grayscale image.
pub open spec fn spec_gray_value(f: GrayFormat, data: Seq<u8>, rw: int, x: int, y: int) -> u32 {
    if f == GrayFormat::Gray8 {
        spec_byte(data, y * rw + x)
    } else {
        spec_gray_level(f, spec_sample(data, y * spec_gray_row_bits(f, rw) + x * spec_gray_bits(f), spec_gray_bits(f)))
    }
}

/// White with the given alpha, in packed RGBA form.
pub open spec fn spec_white_alpha(level: u32) -> u32 {
    (level * 0x1000000 + 0xFFFFFF) as u32
}

/// The packed RGBA pixel of a BGRA byte quadruple.
pub open spec fn spec_bgra_pixel(data: Seq<u8>, rw: int, x: int, y: int) -> u32 {
    let i = (y * rw + x) * 4;
    (spec_byte(data, i + 2) + spec_byte(data, i + 1) * 0x100 + spec_byte(data, i) * 0x10000
        + spec_byte(data, i + 3) * 0x1000000) as u32
}

/// A sample is bounded by its width.
proof fn lemma_sample_bound(data: Seq<u8>, p: int, bits: nat)
    requires
        bits <= 8,
    ensures
        spec_sample(data, p, bits) < (1u32 << (bits as u32)),
    decreases bits,
{
    assert((1u32 << 0u32) == 1 && (1u32 << 1u32) == 2 && (1u32 << 2u32) == 4 && (1u32 << 3u32) == 8
        && (1u32 << 4u32) == 16 && (1u32 << 5u32) == 32 && (1u32 << 6u32) == 64 && (1u32 << 7u32)
        == 128 && (1u32 << 8u32) == 256) by (bit_vector);
    if bits == 0 {
    } else {
        lemma_sample_bound(data, p, (bits - 1) as nat);
        let b = spec_bit(data, p + bits - 1);
        assert(b <= 1) by {
            let by = spec_byte(data, (p + bits - 1) / 8);
            let sh = ((p + bits - 1) % 8) as u32;
            assert(by < 256);
            assert(sh < 8);
            assert((by >> sh) & 1 <= 1) by (bit_vector);
        }
    }
}

fn byte_at(data: &Vec<u8>, i: usize) -> (r: u32)
    ensures
        r == spec_byte(data@, i as int),
        r < 256,
{
    if i < data.len() {
        data[i] as u32
    } else {
        0
    }
}

fn bit_at(data: &Vec<u8>, i: usize) -> (r: u32)
    requires
        i < 0x1000_0000,
    ensures
        r == spec_bit(data@, i as int),
        r <= 1,
{
    let b = byte_at(data, i / 8);
    let sh = (i % 8) as u32;
    proof {
        assert(forall|b: u32, sh: u32| b < 256 && sh < 8 ==> #[trigger] ((b >> sh) & 1) <= 1)
            by (bit_vector);
    }
    (b >> sh) & 1
}

fn sample_at(data: &Vec<u8>, p: usize, bits: u32) -> (r: u32)
    requires
        p + bits < 0x1000_0000,
        bits <= 8,
    ensures
        r == spec_sample(data@, p as int, bits as nat),
        r < 256,
{
    let mut acc: u32 = 0;
    let mut t: usize = 0;
    while t < bits as usize
        invariant
            t <= bits,
            bits <= 8,
            p + bits < 0x1000_0000,
            acc == spec_sample(data@, p as int, t as nat),
            acc < 256,
        decreases bits - t,
    {
        proof {
            lemma_sample_bound(data@, p as int, t as nat);
            assert((1u32 << 0u32) == 1 && (1u32 << 1u32) == 2 && (1u32 << 2u32) == 4 && (1u32
                << 3u32) == 8 && (1u32 << 4u32) == 16 && (1u32 << 5u32) == 32 && (1u32 << 6u32)
                == 64 && (1u32 << 7u32) == 128) by (bit_vector);
        }
        acc = acc * 2 + bit_at(data, p + t);
        t = t + 1;
    }
    proof {
        lemma_sample_bound(data@, p as int, bits as nat);
        assert((1u32 << 8u32) == 256) by (bit_vector);
    }
    acc
}

/// Expands a grayscale image to packed RGBA pixels: white with the alpha
/// each sample encodes.
pub fn gray_expand(image: &GrayImage) -> (r: Vec<u32>)
    requires
        1 <= image.width <= MAX_RASTER_DIM,
        1 <= image.height <= MAX_RASTER_DIM,
    ensures
        r@.len() == image.width * image.height,
        forall|x: int, y: int|
            0 <= x < image.width && 0 <= y < image.height ==> #[trigger] r@[y * image.width + x]
                == spec_white_alpha(
                spec_gray_value(image.format, image.data@, image.width as int, x, y),
            ),
{
    let rw = image.width as usize;
    let rh = image.height as usize;
    let f = image.format;
    let bits: u32 = match f {
        GrayFormat::Mono | GrayFormat::MonoPacked => 1,
        GrayFormat::Gray2 | GrayFormat::Gray2Packed => 2,
        GrayFormat::Gray4 | GrayFormat::Gray4Packed => 4,
        GrayFormat::Gray8 => 8,
    };
    let maxv: u32 = match f {
        GrayFormat::Mono | GrayFormat::MonoPacked => 1,
        GrayFormat::Gray2 | GrayFormat::Gray2Packed => 3,
        GrayFormat::Gray4 | GrayFormat::Gray4Packed => 15,
        GrayFormat::Gray8 => 255,
    };
    let packed: bool = match f {
        GrayFormat::MonoPacked | GrayFormat::Gray2Packed | GrayFormat::Gray4Packed
        | GrayFormat::Gray8 => true,
        _ => false,
    };
    let row_bits: usize = if packed {
        rw * bits as usize
    } else {
        ((rw * bits as usize) / 8 + 1) * 8
    };
    proof {
        assert(rw * (bits as int) <= 32000 && row_bits == spec_gray_row_bits(f, rw as int)
            && row_bits <= 32008) by (nonlinear_arith)
            requires
                1 <= rw <= 4000,
                bits == spec_gray_bits(f),
                1 <= bits <= 8,
                row_bits == if spec_gray_packed(f) {
                    rw * (bits as int)
                } else {
                    ((rw * (bits as int)) / 8 + 1) * 8
                },
                packed == spec_gray_packed(f),
        ;
    }
    let mut r: Vec<u32> = Vec::new();
    let mut y: usize = 0;
    while y < rh
        invariant
            y <= rh,
            rw == image.width,
            rh == image.height,
            1 <= rw <= 4000,
            1 <= rh <= 4000,
            f == image.format,
            bits == spec_gray_bits(f),
            1 <= bits <= 8,
            maxv == spec_gray_maxv(f),
            packed == spec_gray_packed(f),
            row_bits == spec_gray_row_bits(f, rw as int),
            row_bits <= 32008,
            r@.len() == y * rw,
            forall|x0: int, y0: int|
                0 <= x0 < rw && 0 <= y0 < y ==> #[trigger] r@[y0 * rw + x0] == spec_white_alpha(
                    spec_gray_value(f, image.data@, rw as int, x0, y0),
                ),
        decreases rh - y,
    {
        let mut x: usize = 0;
        while x < rw
            invariant
                x <= rw,
                y < rh,
                rw == image.width,
                rh == image.height,
                1 <= rw <= 4000,
                1 <= rh <= 4000,
                f == image.format,
                bits == spec_gray_bits(f),
                1 <= bits <= 8,
                maxv == spec_gray_maxv(f),
                packed == spec_gray_packed(f),
                row_bits == spec_gray_row_bits(f, rw as int),
                row_bits <= 32008,
                r@.len() == y * rw + x,
                forall|x0: int, y0: int|
                    0 <= x0 < rw && 0 <= y0 < y ==> #[trigger] r@[y0 * rw + x0] == spec_white_alpha(
                        spec_gray_value(f, image.data@, rw as int, x0, y0),
                    ),
                forall|x0: int|
                    0 <= x0 < x ==> #[trigger] r@[y * rw + x0] == spec_white_alpha(
                        spec_gray_value(f, image.data@, rw as int, x0, y as int),
                    ),
            decreases rw - x,
        {
            proof {
                assert(y * row_bits + x * (bits as int) + bits < 0x1000_0000 && (y * (rw as int) + x)
                    * 4 + 4 < 0x1000_0000 && y * (rw as int) + x < 0x1000_0000)
                    by (nonlinear_arith)
                    requires
                        0 <= y < 4000,
                        0 <= x < rw <= 4000,
                        1 <= bits <= 8,
                        0 <= row_bits <= 32008,
                ;
            }
            let level: u32 = match f {
                GrayFormat::Gray8 => byte_at(&image.data, y * rw + x),
                _ => {
                    let p = y * row_bits + x * bits as usize;
                    let v = sample_at(&image.data, p, bits);
                    proof {
                        lemma_sample_bound(image.data@, p as int, bits as nat);
                        assert((1u32 << 1u32) == 2 && (1u32 << 2u32) == 4 && (1u32 << 4u32) == 16)
                            by (bit_vector);
                        assert(v <= maxv);
                    }
                    (v * 255) / maxv
                },
            };
            proof {
                assert(level <= 255);
            }
            let px: u32 = level * 0x1000000 + 0xFFFFFF;
            let ghost r_old = r@;
            r.push(px);
            proof {
                assert(level == spec_gray_value(f, image.data@, rw as int, x as int, y as int));
                assert(r@ == r_old.push(px));
                assert forall|x0: int, y0: int| 0 <= x0 < rw && 0 <= y0 < y implies #[trigger] r@[y0
                    * rw + x0] == spec_white_alpha(
                    spec_gray_value(f, image.data@, rw as int, x0, y0),
                ) by {
                    assert(0 <= y0 * rw + x0 < r_old.len()) by (nonlinear_arith)
                        requires
                            0 <= x0 < rw,
                            0 <= y0 < y,
                            r_old.len() == y * rw + x,
                            0 <= x,
                    ;
                    assert(r@[y0 * rw + x0] == r_old[y0 * rw + x0]);
                }
                assert forall|x0: int| 0 <= x0 < x + 1 implies #[trigger] r@[y * rw + x0]
                    == spec_white_alpha(
                    spec_gray_value(f, image.data@, rw as int, x0, y as int),
                ) by {
                    if x0 < x {
                        assert(r@[y * rw + x0] == r_old[y * rw + x0]);
                    } else {
                        assert(r_old.push(px)[r_old.len() as int] == px);
                        assert(r@[y * rw + x0] == px);
                    }
                }
            }
            x = x + 1;
        }
        proof {
            assert((y as int + 1) * (rw as int) == y as int * (rw as int) + rw as int)
                by (nonlinear_arith);
        }
        y = y + 1;
    }
    proof {
        assert(rh as int * (rw as int) == rw as int * (rh as int)) by (nonlinear_arith);
    }
    r
}

/// Converts a premultiplied BGRA byte image to packed RGBA pixels.
pub fn bgra_expand(image: &ColorImage) -> (r: Vec<u32>)
    requires
        1 <= image.width <= MAX_RASTER_DIM,
        1 <= image.height <= MAX_RASTER_DIM,
    ensures
        r@.len() == image.width * image.height,
        forall|x: int, y: int|
            0 <= x < image.width && 0 <= y < image.height ==> #[trigger] r@[y * image.width + x]
                == spec_bgra_pixel(image.data@, image.width as int, x, y),
{
    let rw = image.width as usize;
    let rh = image.height as usize;
    let mut r: Vec<u32> = Vec::new();
    let mut y: usize = 0;
    while y < rh
        invariant
            y <= rh,
            rw == image.width,
            rh == image.height,
            1 <= rw <= 4000,
            1 <= rh <= 4000,
            r@.len() == y * rw,
            forall|x0: int, y0: int|
                0 <= x0 < rw && 0 <= y0 < y ==> #[trigger] r@[y0 * rw + x0] == spec_bgra_pixel(
                    image.data@,
                    rw as int,
                    x0,
                    y0,
                ),
        decreases rh - y,
    {
        let mut x: usize = 0;
        while x < rw
            invariant
                x <= rw,
                y < rh,
                rw == image.width,
                rh == image.height,
                1 <= rw <= 4000,
                1 <= rh <= 4000,
                r@.len() == y * rw + x,
                forall|x0: int, y0: int|
                    0 <= x0 < rw && 0 <= y0 < y ==> #[trigger] r@[y0 * rw + x0] == spec_bgra_pixel(
                        image.data@,
                        rw as int,
                        x0,
                        y0,
                    ),
                forall|x0: int|
                    0 <= x0 < x ==> #[trigger] r@[y * rw + x0] == spec_bgra_pixel(
                        image.data@,
                        rw as int,
                        x0,
                        y as int,
                    ),
            decreases rw - x,
        {
            proof {
                assert((y * (rw as int) + x) * 4 + 4 < 0x1000_0000) by (nonlinear_arith)
                    requires
                        0 <= y < 4000,
                        0 <= x < rw <= 4000,
                ;
            }
            let i = (y * rw + x) * 4;
            let bb = byte_at(&image.data, i);
            let gg = byte_at(&image.data, i + 1);
            let rr = byte_at(&image.data, i + 2);
            let aa = byte_at(&image.data, i + 3);
            let px: u32 = rr + gg * 0x100 + bb * 0x10000 + aa * 0x1000000;
            let ghost r_old = r@;
            r.push(px);
            proof {
                assert(px == spec_bgra_pixel(image.data@, rw as int, x as int, y as int));
                assert forall|x0: int, y0: int| 0 <= x0 < rw && 0 <= y0 < y implies #[trigger] r@[y0
                    * rw + x0] == spec_bgra_pixel(image.data@, rw as int, x0, y0) by {
                    assert(0 <= y0 * rw + x0 < r_old.len()) by (nonlinear_arith)
                        requires
                            0 <= x0 < rw,
                            0 <= y0 < y,
                            r_old.len() == y * rw + x,
                            0 <= x,
                    ;
                    assert(r@[y0 * rw + x0] == r_old[y0 * rw + x0]);
                }
                assert forall|x0: int| 0 <= x0 < x + 1 implies #[trigger] r@[y * rw + x0]
                    == spec_bgra_pixel(image.data@, rw as int, x0, y as int) by {
                    if x0 < x {
                        assert(r@[y * rw + x0] == r_old[y * rw + x0]);
                    } else {
                        assert(r_old.push(px)[r_old.len() as int] == px);
                        assert(r@[y * rw + x0] == px);
                    }
                }
            }
            x = x + 1;
        }
        proof {
            assert((y as int + 1) * (rw as int) == y as int * (rw as int) + rw as int)
                by (nonlinear_arith);
        }
        y = y + 1;
    }
    proof {
        assert(rh as int * (rw as int) == rw as int * (rh as int)) by (nonlinear_arith);
    }
    r
}

/// The source pixel a destination pixel samples under nearest-neighbour
/// scaling.
pub open spec fn spec_scale_src_index(rw: int, rh: int, w: int, h: int, x: int, y: int) -> int {
    ((y * rh) / h) * rw + (x * rw) / w
}

/// Scales an image to the requested size by nearest-neighbour sampling
/// (which for a supersampled buffer at twice the target size picks every
/// second pixel, the source-replace downsample of the glyph pipeline).
pub fn scale_nearest(src: &Vec<u32>, rw: u32, rh: u32, w: u32, h: u32) -> (r: Vec<u32>)
    requires
        1 <= rw <= 8000,
        1 <= rh <= 8000,
        1 <= w <= MAX_RASTER_DIM,
        1 <= h <= MAX_RASTER_DIM,
        src@.len() == rw * rh,
    ensures
        r@.len() == w * h,
        forall|x: int, y: int|
            0 <= x < w && 0 <= y < h ==> #[trigger] r@[y * w + x] == src@[spec_scale_src_index(
                rw as int,
                rh as int,
                w as int,
                h as int,
                x,
                y,
            )],
{
    let wd = w as usize;
    let hd = h as usize;
    let mut r: Vec<u32> = Vec::new();
    let mut y: usize = 0;
    while y < hd
        invariant
            y <= hd,
            wd == w,
            hd == h,
            1 <= rw <= 8000,
            1 <= rh <= 8000,
            1 <= wd <= 4000,
            1 <= hd <= 4000,
            src@.len() == rw * rh,
            r@.len() == y * wd,
            forall|x0: int, y0: int|
                0 <= x0 < wd && 0 <= y0 < y ==> #[trigger] r@[y0 * wd + x0] == src@[
                    spec_scale_src_index(rw as int, rh as int, wd as int, hd as int, x0, y0)],
        decreases hd - y,
    {
        let mut x: usize = 0;
        while x < wd
            invariant
                x <= wd,
                y < hd,
                wd == w,
                hd == h,
                1 <= rw <= 8000,
                1 <= rh <= 8000,
                1 <= wd <= 4000,
                1 <= hd <= 4000,
                src@.len() == rw * rh,
                r@.len() == y * wd + x,
                forall|x0: int, y0: int|
                    0 <= x0 < wd && 0 <= y0 < y ==> #[trigger] r@[y0 * wd + x0] == src@[
                        spec_scale_src_index(rw as int, rh as int, wd as int, hd as int, x0, y0)],
                forall|x0: int|
                    0 <= x0 < x ==> #[trigger] r@[y * wd + x0] == src@[spec_scale_src_index(
                        rw as int,
                        rh as int,
                        wd as int,
                        hd as int,
                        x0,
                        y as int,
                    )],
            decreases wd - x,
        {
            proof {
                vstd::arithmetic::div_mod::lemma_div_pos_is_pos(
                    y as int * (rh as int),
                    hd as int,
                );
                vstd::arithmetic::div_mod::lemma_div_pos_is_pos(x as int * (rw as int), wd as int);
                assert(y as int * (rh as int) <= (hd as int - 1) * (rh as int) && x as int * (
                rw as int) <= (wd as int - 1) * (rw as int) && 0 <= y as int * (rh as int) && 0
                    <= x as int * (rw as int)) by (nonlinear_arith)
                    requires
                        0 <= y < hd,
                        0 <= x < wd,
                        1 <= rw,
                        1 <= rh,
                ;
                vstd::arithmetic::div_mod::lemma_div_is_ordered(
                    y as int * (rh as int),
                    (hd as int - 1) * (rh as int),
                    hd as int,
                );
                vstd::arithmetic::div_mod::lemma_div_is_ordered(
                    x as int * (rw as int),
                    (wd as int - 1) * (rw as int),
                    wd as int,
                );
                assert(((hd as int - 1) * (rh as int)) / (hd as int) <= rh as int - 1 && ((wd as int
                    - 1) * (rw as int)) / (wd as int) <= rw as int - 1) by (nonlinear_arith)
                    requires
                        1 <= hd,
                        1 <= wd,
                        1 <= rh,
                        1 <= rw,
                ;
                assert((y as int * (rh as int)) / (hd as int) * (rw as int) + (x as int * (
                rw as int)) / (wd as int) < rh as int * (rw as int) && 0 <= (y as int * (rh as int))
                    / (hd as int) * (rw as int)) by (nonlinear_arith)
                    requires
                        0 <= (y as int * (rh as int)) / (hd as int) <= rh as int - 1,
                        0 <= (x as int * (rw as int)) / (wd as int) <= rw as int - 1,
                        1 <= rw,
                        1 <= rh,
                ;
                assert(rh as int * (rw as int) == rw as int * (rh as int)) by (nonlinear_arith);
            }
            proof {
                crate::bitmap::lemma_mul_abs_bound(y as int, rh as int, 4000, 8000);
                crate::bitmap::lemma_mul_abs_bound(x as int, rw as int, 4000, 8000);
            }
            let sy = (y * rh as usize) / hd;
            let sx = (x * rw as usize) / wd;
            proof {
                assert(sy as int == (y as int * (rh as int)) / (hd as int));
                assert(sx as int == (x as int * (rw as int)) / (wd as int));
                assert(0 <= sy as int <= rh as int - 1);
                assert(0 <= sx as int <= rw as int - 1);
                crate::bitmap::lemma_mul_abs_bound(sy as int, rw as int, 8000, 8000);
                crate::bitmap::lemma_row_major_index(rw as int, rh as int, sx as int, sy as int);
            }
            let px = src[sy * rw as usize + sx];
            let ghost r_old = r@;
            r.push(px);
            proof {
                assert(px == src@[spec_scale_src_index(
                    rw as int,
                    rh as int,
                    wd as int,
                    hd as int,
                    x as int,
                    y as int,
                )]);
                assert forall|x0: int, y0: int| 0 <= x0 < wd && 0 <= y0 < y implies #[trigger] r@[y0
                    * wd + x0] == src@[spec_scale_src_index(
                    rw as int,
                    rh as int,
                    wd as int,
                    hd as int,
                    x0,
                    y0,
                )] by {
                    assert(0 <= y0 * wd + x0 < r_old.len()) by (nonlinear_arith)
                        requires
                            0 <= x0 < wd,
                            0 <= y0 < y,
                            r_old.len() == y * wd + x,
                            0 <= x,
                    ;
                    assert(r@[y0 * wd + x0] == r_old[y0 * wd + x0]);
                }
                assert forall|x0: int| 0 <= x0 < x + 1 implies #[trigger] r@[y * wd + x0] == src@[
                    spec_scale_src_index(
                    rw as int,
                    rh as int,
                    wd as int,
                    hd as int,
                    x0,
                    y as int,
                )] by {
                    if x0 < x {
                        assert(r@[y * wd + x0] == r_old[y * wd + x0]);
                    } else {
                        assert(r_old.push(px)[r_old.len() as int] == px);
                        assert(r@[y * wd + x0] == px);
                    }
                }
            }
            x = x + 1;
        }
        proof {
            assert((y as int + 1) * (wd as int) == y as int * (wd as int) + wd as int)
                by (nonlinear_arith);
        }
        y = y + 1;
    }
    proof {
        assert(hd as int * (wd as int) == wd as int * (hd as int)) by (nonlinear_arith);
    }
    r
}

/// Scales an image to the slot size and places it at the given offset:
/// destination pixels outside the placed rectangle stay transparent.
pub fn place_scaled(src: &Vec<u32>, rw: u32, rh: u32, w: u32, h: u32, left: i32, top: i32) -> (r:
    Vec<u32>)
    requires
        1 <= rw <= 8000,
        1 <= rh <= 8000,
        1 <= w <= MAX_RASTER_DIM,
        1 <= h <= MAX_RASTER_DIM,
        -MAX_PLACEMENT <= left <= MAX_PLACEMENT,
        -MAX_PLACEMENT <= top <= MAX_PLACEMENT,
        src@.len() == rw * rh,
    ensures
        r@.len() == w * h,
        forall|x: int, y: int|
            0 <= x < w && 0 <= y < h ==> #[trigger] r@[y * w + x] == (
            if 0 <= x - left < w && 0 <= y - top < h {
                src@[spec_scale_src_index(rw as int, rh as int, w as int, h as int, x - left, y - top)]
            } else {
                0u32
            }),
{
    let wd = w as usize;
    let hd = h as usize;
    let mut r: Vec<u32> = Vec::new();
    let mut y: usize = 0;
    while y < hd
        invariant
            y <= hd,
            wd == w,
            hd == h,
            1 <= rw <= 8000,
            1 <= rh <= 8000,
            1 <= wd <= 4000,
            1 <= hd <= 4000,
            -MAX_PLACEMENT <= left <= MAX_PLACEMENT,
            -MAX_PLACEMENT <= top <= MAX_PLACEMENT,
            src@.len() == rw * rh,
            r@.len() == y * wd,
            forall|x0: int, y0: int|
                0 <= x0 < wd && 0 <= y0 < y ==> #[trigger] r@[y0 * wd + x0] == (
                if 0 <= x0 - left < wd && 0 <= y0 - top < hd {
                    src@[spec_scale_src_index(
                        rw as int,
                        rh as int,
                        wd as int,
                        hd as int,
                        x0 - left,
                        y0 - top,
                    )]
                } else {
                    0u32
                }),
        decreases hd - y,
    {
        let mut x: usize = 0;
        while x < wd
            invariant
                x <= wd,
                y < hd,
                wd == w,
                hd == h,
                1 <= rw <= 8000,
                1 <= rh <= 8000,
                1 <= wd <= 4000,
                1 <= hd <= 4000,
                -MAX_PLACEMENT <= left <= MAX_PLACEMENT,
                -MAX_PLACEMENT <= top <= MAX_PLACEMENT,
                src@.len() == rw * rh,
                r@.len() == y * wd + x,
                forall|x0: int, y0: int|
                    0 <= x0 < wd && 0 <= y0 < y ==> #[trigger] r@[y0 * wd + x0] == (
                    if 0 <= x0 - left < wd && 0 <= y0 - top < hd {
                        src@[spec_scale_src_index(
                            rw as int,
                            rh as int,
                            wd as int,
                            hd as int,
                            x0 - left,
                            y0 - top,
                        )]
                    } else {
                        0u32
                    }),
                forall|x0: int|
                    0 <= x0 < x ==> #[trigger] r@[y * wd + x0] == (
                    if 0 <= x0 - left < wd && 0 <= y as int - top < hd {
                        src@[spec_scale_src_index(
                            rw as int,
                            rh as int,
                            wd as int,
                            hd as int,
                            x0 - left,
                            y as int - top,
                        )]
                    } else {
                        0u32
                    }),
            decreases wd - x,
        {
            let sxr = x as i64 - left as i64;
            let syr = y as i64 - top as i64;
            let px: u32 = if 0 <= sxr && sxr < wd as i64 && 0 <= syr && syr < hd as i64 {
                let sx0 = sxr as usize;
                let sy0 = syr as usize;
                proof {
                    crate::bitmap::lemma_mul_abs_bound(sy0 as int, rh as int, 4000, 8000);
                    crate::bitmap::lemma_mul_abs_bound(sx0 as int, rw as int, 4000, 8000);
                }
                let sy = (sy0 * rh as usize) / hd;
                let sx = (sx0 * rw as usize) / wd;
                proof {
                    lemma_scale_index_bounds(
                        rw as int,
                        rh as int,
                        wd as int,
                        hd as int,
                        sx0 as int,
                        sy0 as int,
                    );
                    assert(sy as int == (sy0 as int * (rh as int)) / (hd as int));
                    assert(sx as int == (sx0 as int * (rw as int)) / (wd as int));
                    assert(0 <= sy as int <= rh as int - 1);
                    assert(0 <= sx as int <= rw as int - 1);
                    crate::bitmap::lemma_mul_abs_bound(sy as int, rw as int, 8000, 8000);
                    crate::bitmap::lemma_row_major_index(rw as int, rh as int, sx as int, sy as int);
                }
                src[sy * rw as usize + sx]
            } else {
                0
            };
            let ghost r_old = r@;
            r.push(px);
            proof {
                assert forall|x0: int, y0: int| 0 <= x0 < wd && 0 <= y0 < y implies #[trigger] r@[y0
                    * wd + x0] == (if 0 <= x0 - left < wd && 0 <= y0 - top < hd {
                    src@[spec_scale_src_index(
                        rw as int,
                        rh as int,
                        wd as int,
                        hd as int,
                        x0 - left,
                        y0 - top,
                    )]
                } else {
                    0u32
                }) by {
                    assert(0 <= y0 * wd + x0 < r_old.len()) by (nonlinear_arith)
                        requires
                            0 <= x0 < wd,
                            0 <= y0 < y,
                            r_old.len() == y * wd + x,
                            0 <= x,
                    ;
                    assert(r@[y0 * wd + x0] == r_old[y0 * wd + x0]);
                }
                assert forall|x0: int| 0 <= x0 < x + 1 implies #[trigger] r@[y * wd + x0] == (
                if 0 <= x0 - left < wd && 0 <= y as int - top < hd {
                    src@[spec_scale_src_index(
                        rw as int,
                        rh as int,
                        wd as int,
                        hd as int,
                        x0 - left,
                        y as int - top,
                    )]
                } else {
                    0u32
                }) by {
                    if x0 < x {
                        assert(r@[y * wd + x0] == r_old[y * wd + x0]);
                    } else {
                        assert(r_old.push(px)[r_old.len() as int] == px);
                        assert(r@[y * wd + x0] == px);
                    }
                }
            }
            x = x + 1;
        }
        proof {
            assert((y as int + 1) * (wd as int) == y as int * (wd as int) + wd as int)
                by (nonlinear_arith);
        }
        y = y + 1;
    }
    proof {
        assert(hd as int * (wd as int) == wd as int * (hd as int)) by (nonlinear_arith);
    }
    r
}

/// A fully transparent buffer of the given size.
pub fn transparent_buffer(w: u32, h: u32) -> (r: Vec<u32>)
    requires
        1 <= w <= MAX_RASTER_DIM,
        1 <= h <= MAX_RASTER_DIM,
    ensures
        r@.len() == w * h,
        forall|i: int| 0 <= i < r@.len() ==> r@[i] == 0u32,
{
    proof {
        crate::bitmap::lemma_mul_abs_bound(w as int, h as int, 4000, 4000);
        assert(w as int * (h as int) >= 0) by (nonlinear_arith)
            requires
                w >= 1,
                h >= 1,
        ;
    }
    let n = w as usize * h as usize;
    let mut r: Vec<u32> = Vec::new();
    let mut i: usize = 0;
    while i < n
        invariant
            i <= n,
            r@.len() == i,
            forall|k: int| 0 <= k < i ==> r@[k] == 0u32,
        decreases n - i,
    {
        r.push(0u32);
        i = i + 1;
    }
    r
}

/// What `compose_glyph` produces for each source, pixel by pixel.
pub open spec fn spec_composed_pixel(source: GlyphSource, w: int, h: int, x: int, y: int) -> u32 {
    match source {
        GlyphSource::ColorLayers { pixels } => {
            if pixels@.len() == (2 * w) * (2 * h) {
                pixels@[spec_scale_src_index(2 * w, 2 * h, w, h, x, y)]
            } else {
                0u32
            }
        },
        GlyphSource::OutlineMask { pixels } => {
            if pixels@.len() == (2 * w) * (2 * h) {
                pixels@[spec_scale_src_index(2 * w, 2 * h, w, h, x, y)]
            } else {
                0u32
            }
        },
        GlyphSource::RasterColor { image } => {
            if 1 <= image.width <= MAX_RASTER_DIM && 1 <= image.height <= MAX_RASTER_DIM
                && -MAX_PLACEMENT <= image.left <= MAX_PLACEMENT && -MAX_PLACEMENT <= image.top
                <= MAX_PLACEMENT {
                let px = x - image.left;
                let py = y - image.top;
                if 0 <= px < w && 0 <= py < h {
                    let sidx = spec_scale_src_index(
                        image.width as int,
                        image.height as int,
                        w,
                        h,
                        px,
                        py,
                    );
                    let sy = sidx / (image.width as int);
                    let sx = sidx % (image.width as int);
                    spec_bgra_pixel(image.data@, image.width as int, sx, sy)
                } else {
                    0u32
                }
            } else {
                0u32
            }
        },
        GlyphSource::Gray { bitmap } => {
            if 1 <= bitmap.width <= MAX_RASTER_DIM && 1 <= bitmap.height <= MAX_RASTER_DIM
                && -MAX_PLACEMENT <= bitmap.left <= MAX_PLACEMENT && -MAX_PLACEMENT <= bitmap.top
                <= MAX_PLACEMENT {
                let px = x - bitmap.left;
                let py = y - bitmap.top;
                if 0 <= px < w && 0 <= py < h {
                    let sidx = spec_scale_src_index(
                        bitmap.width as int,
                        bitmap.height as int,
                        w,
                        h,
                        px,
                        py,
                    );
                    let sy = sidx / (bitmap.width as int);
                    let sx = sidx % (bitmap.width as int);
                    spec_white_alpha(
                        spec_gray_value(bitmap.format, bitmap.data@, bitmap.width as int, sx, sy),
                    )
                } else {
                    0u32
                }
            } else {
                0u32
            }
        },
        GlyphSource::Missing => 0u32,
    }
}

/// Produces the final `w` x `h` pixel buffer for a glyph from its chosen
/// rasterization source. A missing glyph, or a source whose buffer does
/// not match its declared size, yields a fully transparent buffer rather
/// than failing.
pub fn compose_glyph(source: &GlyphSource, w: u32, h: u32) -> (r: Vec<u32>)
    requires
        1 <= w <= 2000,
        1 <= h <= 2000,
    ensures
        r@.len() == w * h,
        forall|x: int, y: int|
            0 <= x < w && 0 <= y < h ==> #[trigger] r@[y * w + x] == spec_composed_pixel(
                *source,
                w as int,
                h as int,
                x,
                y,
            ),
{
    match source {
        GlyphSource::ColorLayers { pixels } => scale_supersampled(pixels, w, h),
        GlyphSource::OutlineMask { pixels } => scale_supersampled(pixels, w, h),
        GlyphSource::RasterColor { image } => {
            if 1 <= image.width && image.width <= MAX_RASTER_DIM && 1 <= image.height
                && image.height <= MAX_RASTER_DIM && -MAX_PLACEMENT <= image.left && image.left
                <= MAX_PLACEMENT && -MAX_PLACEMENT <= image.top && image.top <= MAX_PLACEMENT {
                let expanded = bgra_expand(image);
                let placed = place_scaled(
                    &expanded,
                    image.width,
                    image.height,
                    w,
                    h,
                    image.left,
                    image.top,
                );
                proof {
                    lemma_flat_index(image.width as int, image.height as int);
                    assert forall|x: int, y: int| 0 <= x < w && 0 <= y < h implies #[trigger] placed@[y
                        * w + x] == spec_composed_pixel(*source, w as int, h as int, x, y) by {
                        if 0 <= x - image.left < w && 0 <= y - image.top < h {
                            lemma_scale_index_bounds(
                                image.width as int,
                                image.height as int,
                                w as int,
                                h as int,
                                x - image.left,
                                y - image.top,
                            );
                        }
                    }
                }
                placed
            } else {
                let t = transparent_buffer(w, h);
                proof {
                    lemma_flat_index(w as int, h as int);
                }
                t
            }
        },
        GlyphSource::Gray { bitmap } => {
            if 1 <= bitmap.width && bitmap.width <= MAX_RASTER_DIM && 1 <= bitmap.height
                && bitmap.height <= MAX_RASTER_DIM && -MAX_PLACEMENT <= bitmap.left && bitmap.left
                <= MAX_PLACEMENT && -MAX_PLACEMENT <= bitmap.top && bitmap.top <= MAX_PLACEMENT {
                let expanded = gray_expand(bitmap);
                let placed = place_scaled(
                    &expanded,
                    bitmap.width,
                    bitmap.height,
                    w,
                    h,
                    bitmap.left,
                    bitmap.top,
                );
                proof {
                    lemma_flat_index(bitmap.width as int, bitmap.height as int);
                    assert forall|x: int, y: int| 0 <= x < w && 0 <= y < h implies #[trigger] placed@[y
                        * w + x] == spec_composed_pixel(*source, w as int, h as int, x, y) by {
                        if 0 <= x - bitmap.left < w && 0 <= y - bitmap.top < h {
                            lemma_scale_index_bounds(
                                bitmap.width as int,
                                bitmap.height as int,
                                w as int,
                                h as int,
                                x - bitmap.left,
                                y - bitmap.top,
                            );
                        }
                    }
                }
                placed
            } else {
                let t = transparent_buffer(w, h);
                proof {
                    lemma_flat_index(w as int, h as int);
                }
                t
            }
        },
        GlyphSource::Missing => {
            let t = transparent_buffer(w, h);
            proof {
                lemma_flat_index(w as int, h as int);
            }
            t
        },
    }
}

/// Downsamples a supersampled buffer at twice the target size; buffers of
/// any other size yield a transparent result.
fn scale_supersampled(pixels: &Vec<u32>, w: u32, h: u32) -> (r: Vec<u32>)
    requires
        1 <= w <= 2000,
        1 <= h <= 2000,
    ensures
        r@.len() == w * h,
        forall|x: int, y: int|
            0 <= x < w && 0 <= y < h ==> #[trigger] r@[y * w + x] == (if pixels@.len() == (2 * w)
                * (2 * h) {
                pixels@[spec_scale_src_index(2 * w as int, 2 * h as int, w as int, h as int, x, y)]
            } else {
                0u32
            }),
{
    proof {
        crate::bitmap::lemma_mul_abs_bound(2 * w as int, 2 * h as int, 4000, 4000);
        assert(2 * w as int * (2 * h as int) >= 0) by (nonlinear_arith)
            requires
                w >= 1,
                h >= 1,
        ;
    }
    let expect = (2 * w as usize) * (2 * h as usize);
    if pixels.len() == expect {
        scale_nearest(pixels, 2 * w, 2 * h, w, h)
    } else {
        let t = transparent_buffer(w, h);
        proof {
            lemma_flat_index(w as int, h as int);
        }
        t
    }
}

/// The flat source index splits back into its row and column.
proof fn lemma_scale_index_bounds(rw: int, rh: int, w: int, h: int, x: int, y: int)
    requires
        1 <= rw,
        1 <= rh,
        1 <= w,
        1 <= h,
        0 <= x < w,
        0 <= y < h,
    ensures
        ({
            let sidx = spec_scale_src_index(rw, rh, w, h, x, y);
            let sy = sidx / rw;
            let sx = sidx % rw;
            &&& 0 <= sidx < rw * rh
            &&& sy == (y * rh) / h
            &&& sx == (x * rw) / w
            &&& 0 <= sx < rw
            &&& 0 <= sy < rh
            &&& sidx == sy * rw + sx
        }),
{
    let qy = (y * rh) / h;
    let qx = (x * rw) / w;
    vstd::arithmetic::div_mod::lemma_div_pos_is_pos(y * rh, h);
    vstd::arithmetic::div_mod::lemma_div_pos_is_pos(x * rw, w);
    assert(0 <= y * rh && y * rh <= (h - 1) * rh && 0 <= x * rw && x * rw <= (w - 1) * rw)
        by (nonlinear_arith)
        requires
            0 <= y < h,
            0 <= x < w,
            1 <= rh,
            1 <= rw,
    ;
    vstd::arithmetic::div_mod::lemma_div_is_ordered(y * rh, (h - 1) * rh, h);
    vstd::arithmetic::div_mod::lemma_div_is_ordered(x * rw, (w - 1) * rw, w);
    assert(((h - 1) * rh) / h <= rh - 1 && ((w - 1) * rw) / w <= rw - 1) by (nonlinear_arith)
        requires
            1 <= h,
            1 <= w,
            1 <= rh,
            1 <= rw,
    ;
    vstd::arithmetic::div_mod::lemma_fundamental_div_mod(qy * rw + qx, rw);
    vstd::arithmetic::div_mod::lemma_fundamental_div_mod_converse(qy * rw + qx, rw, qy, qx);
    assert(0 <= qy * rw + qx < rw * rh) by (nonlinear_arith)
        requires
            0 <= qy <= rh - 1,
            0 <= qx <= rw - 1,
            1 <= rw,
            1 <= rh,
    ;
}

/// Row-major flat indices are in range.
proof fn lemma_flat_index(rw: int, rh: int)
    requires
        1 <= rw,
        1 <= rh,
    ensures
        forall|sy: int, sx: int|
            0 <= sy < rh && 0 <= sx < rw ==> 0 <= #[trigger] (sy * rw + sx) < rw * rh,
{
    assert forall|sy: int, sx: int| 0 <= sy < rh && 0 <= sx < rw implies 0 <= #[trigger] (sy * rw
        + sx) < rw * rh by {
        crate::bitmap::lemma_row_major_index(rw, rh, sx, sy);
    }
}

} // verus!
