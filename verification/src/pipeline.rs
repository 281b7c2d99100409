//! The fixed chain of processing stages and the exact parts of their work.
//!
//! The stages run in a fixed order: white balance, exposure, tone curve,
//! vibrance, saturation, crop. Their per-pixel colour arithmetic is
//! floating point and lives in the application layer; what is proved here
//! is the exact bookkeeping those stages rest on:
//!
//! * crop-rectangle clamping and the row-major copy of the selected
//!   sub-rectangle (`Crop::clamp_region`, `Crop::extract_region`);
//! * the tone curve's safety-net pass that forces its lookup table to be
//!   non-decreasing whatever the slider values built
//!   (`ToneCurve::enforce_monotone`);
//! * the alpha-channel interleave that readies a raster for display
//!   (`rgb_to_rgba_with`).

use vstd::arithmetic::div_mod::lemma_fundamental_div_mod;
use vstd::arithmetic::div_mod::lemma_fundamental_div_mod_converse;
use vstd::prelude::*;

verus! {

/// Number of entries in the tone curve's lookup table.
pub const TONE_LUT_SIZE: usize = 4096;

/// Chromatic-adaptation stage; its matrix arithmetic is floating point and
/// runs in the application layer.
pub struct WhiteBalance;

/// Exposure stage: scales every channel by a power of two.
pub struct Exposure;

/// Tone-curve stage: remaps luminance through a lookup table.
pub struct ToneCurve;

/// Selective-saturation stage.
pub struct Vibrance;

/// Uniform-saturation stage.
pub struct Saturation;

/// Cropping stage: copies a clamped sub-rectangle of the image.
pub struct Crop;

impl WhiteBalance {
    /// Stage name, as the pipeline logs it.
    pub fn name(&self) -> (r: &'static str)
        ensures
            r@ == "white_balance"@,
    {
        "white_balance"
    }
}

impl Exposure {
    /// Stage name, as the pipeline logs it.
    pub fn name(&self) -> (r: &'static str)
        ensures
            r@ == "exposure"@,
    {
        "exposure"
    }
}

impl Vibrance {
    /// Stage name, as the pipeline logs it.
    pub fn name(&self) -> (r: &'static str)
        ensures
            r@ == "vibrance"@,
    {
        "vibrance"
    }
}

impl Saturation {
    /// Stage name, as the pipeline logs it.
    pub fn name(&self) -> (r: &'static str)
        ensures
            r@ == "saturation"@,
    {
        "saturation"
    }
}

// --- Tone curve: monotonicity safety net ---

/// Largest value among `s[0..=i]`.
pub open spec fn prefix_max(s: Seq<u32>, i: int) -> int
    decreases i,
{
    if i <= 0 {
        s[0] as int
    } else if s[i] as int >= prefix_max(s, i - 1) {
        s[i] as int
    } else {
        prefix_max(s, i - 1)
    }
}

/// Never decreasing from one entry to a later one.
pub open spec fn non_decreasing(s: Seq<u32>) -> bool {
    forall|i: int, j: int| 0 <= i <= j < s.len() ==> s[i] <= s[j]
}

proof fn lemma_prefix_max_ge(s: Seq<u32>, i: int, j: int)
    requires
        0 <= j <= i < s.len(),
    ensures
        prefix_max(s, i) >= s[j],
    decreases i,
{
    if j < i {
        lemma_prefix_max_ge(s, i - 1, j);
    }
}

proof fn lemma_prefix_max_mono(s: Seq<u32>, i: int, j: int)
    requires
        0 <= i <= j < s.len(),
    ensures
        prefix_max(s, i) <= prefix_max(s, j),
    decreases j,
{
    if i < j {
        lemma_prefix_max_mono(s, i, j - 1);
    }
}

proof fn lemma_prefix_max_of_sorted(s: Seq<u32>, i: int)
    requires
        0 <= i < s.len(),
        non_decreasing(s),
    ensures
        prefix_max(s, i) == s[i],
    decreases i,
{
    if i > 0 {
        lemma_prefix_max_of_sorted(s, i - 1);
    }
}

impl ToneCurve {
    /// Stage name, as the pipeline logs it.
    pub fn name(&self) -> (r: &'static str)
        ensures
            r@ == "tone_curve"@,
    {
        "tone_curve"
    }

    /// The safety-net pass run after the lookup table is built: raises each
    /// entry to the largest value seen so far, so the table is
    /// non-decreasing for **any** combination of slider values, and a table
    /// that was already non-decreasing comes through unchanged.
    pub fn enforce_monotone(lut: &mut Vec<u32>)
        ensures
            final(lut)@.len() == old(lut)@.len(),
            forall|i: int|
                0 <= i < old(lut)@.len() ==> final(lut)@[i] == prefix_max(old(lut)@, i),
            non_decreasing(final(lut)@),
            forall|i: int| 0 <= i < old(lut)@.len() ==> final(lut)@[i] >= old(lut)@[i],
            non_decreasing(old(lut)@) ==> final(lut)@ == old(lut)@,
    {
        let n = lut.len();
        let mut i: usize = 1;
        while i < n
            invariant
                n == lut@.len(),
                n == old(lut)@.len(),
                1 <= i,
                forall|j: int| 0 <= j < i && j < n ==> lut@[j] == prefix_max(old(lut)@, j),
                forall|j: int| i <= j < n ==> lut@[j] == old(lut)@[j],
            decreases n - i,
        {
            let prev = lut[i - 1];
            let cur = lut[i];
            if cur < prev {
                lut[i] = prev;
            }
            i += 1;
        }
        proof {
            assert forall|a: int, b: int| 0 <= a <= b < final(lut)@.len() implies final(lut)@[a]
                <= final(lut)@[b] by {
                lemma_prefix_max_mono(old(lut)@, a, b);
            }
            assert forall|a: int| 0 <= a < old(lut)@.len() implies final(lut)@[a] >= old(
                lut,
            )@[a] by {
                lemma_prefix_max_ge(old(lut)@, a, a);
            }
            if non_decreasing(old(lut)@) {
                assert forall|a: int| 0 <= a < old(lut)@.len() implies final(lut)@[a] == old(
                    lut,
                )@[a] by {
                    lemma_prefix_max_of_sorted(old(lut)@, a);
                }
                assert(final(lut)@ =~= old(lut)@);
            }
        }
    }
}

// --- Crop: rectangle clamping and sub-rectangle extraction ---

/// A crop window in pixels, relative to the source image.
#[derive(Clone, Copy, Debug, PartialEq, Eq, Structural)]
pub struct CropRect {
    /// Left edge.
    pub x: u32,
    /// Top edge.
    pub y: u32,
    /// Width, at least 1.
    pub w: u32,
    /// Height, at least 1.
    pub h: u32,
}

/// A non-empty window that lies inside a `width` by `height` image.
pub open spec fn rect_within(r: CropRect, width: u32, height: u32) -> bool {
    &&& 1 <= r.w
    &&& 1 <= r.h
    &&& r.x + r.w <= width
    &&& r.y + r.h <= height
}

/// How a requested window is clamped: the origin is pulled inside the
/// image, then the extent is cut to what remains, but never below one
/// pixel.
pub open spec fn spec_clamp_region(width: u32, height: u32, x: u32, y: u32, w: u32, h: u32)
    -> CropRect {
    let cx: u32 = if x <= width - 1 {
        x
    } else {
        (width - 1) as u32
    };
    let cy: u32 = if y <= height - 1 {
        y
    } else {
        (height - 1) as u32
    };
    let rem_w: u32 = (width - cx) as u32;
    let rem_h: u32 = (height - cy) as u32;
    let cw: u32 = if w == 0 {
        1u32
    } else if w <= rem_w {
        w
    } else {
        rem_w
    };
    let ch: u32 = if h == 0 {
        1u32
    } else if h <= rem_h {
        h
    } else {
        rem_h
    };
    CropRect { x: cx, y: cy, w: cw, h: ch }
}

/// Index into the source data of element `i` of the extracted window:
/// `i` decomposes into a destination pixel and channel, which map back to
/// the corresponding source pixel.
pub open spec fn extract_src(r: CropRect, width: u32, i: int) -> int {
    let pix = i / 3;
    let c = i % 3;
    let dy = pix / (r.w as int);
    let dx = pix % (r.w as int);
    ((r.y + dy) * width + r.x + dx) * 3 + c
}

/// The contents of the window `r` of an interleaved-RGB raster of the
/// given width: element `i` of the result is the source element that
/// `extract_src` names.
pub open spec fn spec_extract<T>(data: Seq<T>, width: u32, r: CropRect) -> Seq<T> {
    Seq::new((r.h * r.w * 3) as nat, |i: int| data[extract_src(r, width, i)])
}

/// Position of channel `c` of destination pixel `(dx, dy)` in the
/// extracted window.
pub open spec fn dst_index(r: CropRect, dy: int, dx: int, c: int) -> int {
    (dy * r.w + dx) * 3 + c
}

/// Position of channel `c` of source pixel `(r.x + dx, r.y + dy)` in the
/// source data.
pub open spec fn src_index(r: CropRect, width: u32, dy: int, dx: int, c: int) -> int {
    ((r.y + dy) * width + r.x + dx) * 3 + c
}

/// `extract_src` really is the pixel-and-channel decomposition: at a
/// destination position built from `(dy, dx, c)` it names the matching
/// source position.
pub proof fn lemma_extract_src_decompose(r: CropRect, width: u32, dy: int, dx: int, c: int)
    requires
        0 <= dy,
        0 <= dx < r.w,
        0 <= c < 3,
    ensures
        extract_src(r, width, dst_index(r, dy, dx, c)) == src_index(r, width, dy, dx, c),
{
    let i = dst_index(r, dy, dx, c);
    let pix = dy * (r.w as int) + dx;
    lemma_fundamental_div_mod_converse(i, 3, pix, c);
    lemma_fundamental_div_mod_converse(pix, r.w as int, dy, dx);
}

impl Crop {
    /// Stage name, as the pipeline logs it.
    pub fn name(&self) -> (r: &'static str)
        ensures
            r@ == "crop"@,
    {
        "crop"
    }

    /// Clamps a requested window to one that lies inside a non-empty
    /// `width` by `height` image, never returning an empty window.
    pub fn clamp_region(width: u32, height: u32, x: u32, y: u32, w: u32, h: u32) -> (r: CropRect)
        requires
            width >= 1,
            height >= 1,
        ensures
            r == spec_clamp_region(width, height, x, y, w, h),
            rect_within(r, width, height),
    {
        let cx = if x <= width - 1 {
            x
        } else {
            width - 1
        };
        let cy = if y <= height - 1 {
            y
        } else {
            height - 1
        };
        let rem_w = width - cx;
        let rem_h = height - cy;
        let cw = if w == 0 {
            1
        } else if w <= rem_w {
            w
        } else {
            rem_w
        };
        let ch = if h == 0 {
            1
        } else if h <= rem_h {
            h
        } else {
            rem_h
        };
        CropRect { x: cx, y: cy, w: cw, h: ch }
    }

    /// Copies window `r` of an interleaved-RGB raster into a fresh buffer,
    /// row by row: element `dst_index(r, dy, dx, c)` of the result is
    /// element `src_index(r, width, dy, dx, c)` of the source.
    pub fn extract_region<T: Copy>(data: &Vec<T>, width: u32, height: u32, r: &CropRect) -> (out:
        Vec<T>)
        requires
            data@.len() == width * height * 3,
            rect_within(*r, width, height),
        ensures
            out@ == spec_extract(data@, width, *r),
            out@.len() == r.h * r.w * 3,
            forall|dy: int, dx: int, c: int|
                0 <= dy < r.h && 0 <= dx < r.w && 0 <= c < 3 ==> out@[#[trigger] dst_index(
                    *r,
                    dy,
                    dx,
                    c,
                )] == data@[src_index(*r, width, dy, dx, c)],
    {
        let ghost target = spec_extract(data@, width, *r);
        proof {
            assert(r.w * 3 <= width * height * 3 && 0 <= width * height) by (nonlinear_arith)
                requires
                    r.x + r.w <= width,
                    r.y + r.h <= height,
                    1 <= r.h,
                    0 <= r.x,
                    0 <= r.y,
                    0 <= r.w,
            ;
        }
        let len: usize = data.len();
        let w3: usize = (r.w as usize) * 3;
        let mut out: Vec<T> = Vec::new();
        let mut row: usize = 0;
        while row < r.h as usize
            invariant
                rect_within(*r, width, height),
                data@.len() == width * height * 3,
                len == data@.len(),
                target == spec_extract(data@, width, *r),
                w3 == r.w * 3,
                row <= r.h,
                out@.len() == row * (r.w * 3),
                forall|i: int| 0 <= i < out@.len() ==> #[trigger] out@[i] == target[i],
            decreases r.h - row,
        {
            proof {
                assert((r.y + row) * width + r.x + (r.w - 1) < width * height && 0 <= (r.y + row)
                    * width && width * height <= width * height * 3) by (nonlinear_arith)
                    requires
                        r.y + row < height,
                        r.x + r.w <= width,
                        1 <= r.w,
                        1 <= width,
                        0 <= r.y,
                        0 <= r.x,
                        0 <= row,
                        0 <= height,
                ;
            }
            let base: usize = ((r.y as usize + row) * (width as usize) + r.x as usize) * 3;
            let mut dx: usize = 0;
            while dx < r.w as usize
                invariant
                    rect_within(*r, width, height),
                    data@.len() == width * height * 3,
                    len == data@.len(),
                    target == spec_extract(data@, width, *r),
                    w3 == r.w * 3,
                    row < r.h,
                    dx <= r.w,
                    base == ((r.y + row) * width + r.x) * 3,
                    (r.y + row) * width + r.x + (r.w - 1) < width * height,
                    width * height <= width * height * 3,
                    out@.len() == row * (r.w * 3) + dx * 3,
                    forall|i: int| 0 <= i < out@.len() ==> #[trigger] out@[i] == target[i],
                decreases r.w - dx,
            {
                proof {
                    let dyi = row as int;
                    let dxi = dx as int;
                    assert(dyi * (r.w * 3) == (dyi * (r.w as int)) * 3) by (nonlinear_arith);
                    assert((dyi * (r.w as int) + dxi) * 3 + 2 < r.h * r.w * 3) by (nonlinear_arith)
                        requires
                            0 <= dxi < r.w as int,
                            0 <= dyi < r.h as int,
                    ;
                    lemma_extract_src_decompose(*r, width, dyi, dxi, 0);
                    lemma_extract_src_decompose(*r, width, dyi, dxi, 1);
                    lemma_extract_src_decompose(*r, width, dyi, dxi, 2);
                    assert(base + dx * 3 == ((r.y + row) * width + r.x + dx) * 3);
                    assert((r.y + row) * width + r.x + dx < width * height);
                    assert(base + dx * 3 + 2 < width * height * 3);
                }
                let v0 = data[base + dx * 3];
                let v1 = data[base + dx * 3 + 1];
                let v2 = data[base + dx * 3 + 2];
                out.push(v0);
                out.push(v1);
                out.push(v2);
                dx += 1;
            }
            proof {
                assert((row + 1) * (r.w * 3) == row * (r.w * 3) + r.w * 3) by (nonlinear_arith);
            }
            row += 1;
        }
        proof {
            assert(r.h as int * (r.w as int * 3) == (r.h * r.w * 3) as int) by (nonlinear_arith);
            assert(out@ =~= target);
            assert forall|dy: int, dx: int, c: int|
                0 <= dy < r.h && 0 <= dx < r.w && 0 <= c < 3 implies out@[#[trigger] dst_index(
                *r,
                dy,
                dx,
                c,
            )] == data@[src_index(*r, width, dy, dx, c)] by {
                lemma_extract_src_decompose(*r, width, dy, dx, c);
                assert((dy * r.w + dx) * 3 + c < (r.h * r.w * 3) as int) by (nonlinear_arith)
                    requires
                        0 <= dy < r.h as int,
                        0 <= dx < r.w as int,
                        0 <= c < 3,
                ;
            }
        }
        out
    }
}

/// The window that covers the whole image.
pub open spec fn full_rect(width: u32, height: u32) -> CropRect {
    CropRect { x: 0, y: 0, w: width, h: height }
}

/// Cropping to the full frame copies the data unchanged: with the
/// identity window, extraction returns the source raster as it was.
pub proof fn lemma_extract_full_frame<T>(data: Seq<T>, width: u32, height: u32)
    requires
        data.len() == width * height * 3,
        width >= 1,
        height >= 1,
    ensures
        spec_extract(data, width, full_rect(width, height)) == data,
{
    let r = full_rect(width, height);
    let ex = spec_extract(data, width, r);
    assert(height as int * (width as int) * 3 == (height * width * 3) as int) by (nonlinear_arith);
    assert(width * height * 3 == height * width * 3) by (nonlinear_arith);
    assert forall|i: int| 0 <= i < data.len() implies ex[i] == data[i] by {
        let pix = i / 3;
        let c = i % 3;
        lemma_fundamental_div_mod(i, 3);
        lemma_fundamental_div_mod(pix, width as int);
        let dy = pix / (width as int);
        let dx = pix % (width as int);
        assert(pix == (width as int) * dy + dx);
        assert(extract_src(r, width, i) == ((0 + dy) * width + 0 + dx) * 3 + c);
        assert((dy * width + dx) * 3 + c == ((width as int) * dy + dx) * 3 + c) by (
        nonlinear_arith);
    }
    assert(ex =~= data);
}

/// The full-frame window is exactly what clamping the identity request
/// produces: asking for the window at the origin with the image's own
/// extent gives the full frame back.
pub proof fn lemma_clamp_identity_request(width: u32, height: u32)
    requires
        width >= 1,
        height >= 1,
    ensures
        spec_clamp_region(width, height, 0, 0, width, height) == full_rect(width, height),
{
}


// --- Display conversion: interleaving an alpha channel ---

/// Position of channel `c` of pixel `p` in interleaved RGB data.
pub open spec fn rgb_index(p: int, c: int) -> int {
    p * 3 + c
}

/// Position of channel `c` of pixel `p` in interleaved RGBA data.
pub open spec fn rgba_index(p: int, c: int) -> int {
    p * 4 + c
}

/// Rebuilds interleaved RGB data as RGBA, placing `opaque` as every
/// pixel's alpha channel: the form a display or GPU upload expects. A
/// trailing fragment of fewer than 3 values is dropped.
pub fn rgb_to_rgba_with<T: Copy>(data: &Vec<T>, opaque: T) -> (out: Vec<T>)
    requires
        data@.len() / 3 <= usize::MAX / 4,
    ensures
        out@.len() == data@.len() / 3 * 4,
        forall|p: int, c: int|
            0 <= p < data@.len() / 3 && 0 <= c < 3 ==> out@[#[trigger] rgba_index(p, c)]
                == data@[rgb_index(p, c)],
        forall|p: int| 0 <= p < data@.len() / 3 ==> out@[#[trigger] rgba_index(p, 3)] == opaque,
{
    let len: usize = data.len();
    let n: usize = len / 3;
    proof {
        lemma_fundamental_div_mod(len as int, 3);
        assert(4 * (len as int / 3) <= 4 * (usize::MAX as int / 4)) by (nonlinear_arith)
            requires
                len as int / 3 <= usize::MAX as int / 4,
        ;
        lemma_fundamental_div_mod(usize::MAX as int, 4);
    }
    let mut out: Vec<T> = Vec::new();
    let mut p: usize = 0;
    while p < n
        invariant
            n == data@.len() / 3,
            len == data@.len(),
            3 * n <= len,
            4 * n <= usize::MAX,
            p <= n,
            out@.len() == p * 4,
            forall|q: int, c: int|
                0 <= q < p && 0 <= c < 3 ==> out@[#[trigger] rgba_index(q, c)] == data@[rgb_index(
                    q,
                    c,
                )],
            forall|q: int| 0 <= q < p ==> out@[#[trigger] rgba_index(q, 3)] == opaque,
        decreases n - p,
    {
        proof {
            assert(3 * p + 2 < len);
            assert(rgba_index(p as int, 0) == p * 4);
        }
        let v0 = data[3 * p];
        let v1 = data[3 * p + 1];
        let v2 = data[3 * p + 2];
        out.push(v0);
        out.push(v1);
        out.push(v2);
        out.push(opaque);
        p += 1;
    }
    proof {
        assert(out@.len() == data@.len() / 3 * 4);
    }
    out
}


/// Does a flat buffer of `len` values hold exactly `width` by `height`
/// interleaved RGB pixels? Construction of an image buffer rejects
/// anything else, rather than truncate or pad.
pub fn buffer_shape_ok(len: usize, width: u32, height: u32) -> (r: bool)
    ensures
        r == (len == width * height * 3),
{
    let w = width as u128;
    let h = height as u128;
    proof {
        assert(w * h <= 0xffff_ffff * 0xffff_ffff) by (nonlinear_arith)
            requires
                w <= 0xffff_ffff,
                h <= 0xffff_ffff,
        ;
    }
    (len as u128) == w * h * 3
}

} // verus!
