//! Per-channel display histograms over 8-bit RGBA pixel data.
//!
//! Each of the 256 bins of a channel counts the pixels whose channel value
//! equals the bin index; `max_count` is the largest bin over all three
//! channels, clamped to at least 1 so drawing code can divide by it.

use vstd::prelude::*;

verus! {

/// Number of bins per channel: one per 8-bit value.
pub const NUM_BINS: usize = 256;

/// How many of the first `n` pixels of `pixels` (RGBA, 4 bytes each) have
/// value `v` in channel `ch` (0 = red, 1 = green, 2 = blue).
pub open spec fn channel_count(pixels: Seq<u8>, ch: int, v: int, n: int) -> int
    decreases n,
{
    if n <= 0 {
        0
    } else {
        channel_count(pixels, ch, v, n - 1) + if pixels[4 * (n - 1) + ch] == v {
            1int
        } else {
            0int
        }
    }
}

/// Number of whole RGBA pixels in a byte sequence.
pub open spec fn pixel_count(pixels: Seq<u8>) -> int {
    pixels.len() as int / 4
}

/// Do the three bin vectors describe `pixels` exactly?
pub open spec fn histogram_matches(pixels: Seq<u8>, r: Seq<u32>, g: Seq<u32>, b: Seq<u32>) -> bool {
    &&& r.len() == 256
    &&& g.len() == 256
    &&& b.len() == 256
    &&& forall|v: int|
        0 <= v < 256 ==> #[trigger] r[v] == channel_count(pixels, 0, v, pixel_count(pixels))
    &&& forall|v: int|
        0 <= v < 256 ==> #[trigger] g[v] == channel_count(pixels, 1, v, pixel_count(pixels))
    &&& forall|v: int|
        0 <= v < 256 ==> #[trigger] b[v] == channel_count(pixels, 2, v, pixel_count(pixels))
}

proof fn lemma_channel_count_bound(pixels: Seq<u8>, ch: int, v: int, n: int)
    requires
        n >= 0,
    ensures
        0 <= channel_count(pixels, ch, v, n) <= n,
    decreases n,
{
    if n > 0 {
        lemma_channel_count_bound(pixels, ch, v, n - 1);
    }
}

/// One empty bin per 8-bit channel value.
fn zero_bins() -> (v: Vec<u32>)
    ensures
        v@.len() == 256,
        forall|j: int| 0 <= j < 256 ==> #[trigger] v@[j] == 0,
{
    let mut v: Vec<u32> = Vec::new();
    let mut t: usize = 0;
    while t < 256
        invariant
            v@.len() == t,
            t <= 256,
            forall|j: int| 0 <= j < t ==> #[trigger] v@[j] == 0,
        decreases 256 - t,
    {
        v.push(0);
        t += 1;
    }
    v
}

/// Per-channel histogram of an RGBA image, as the darkroom view displays it.
#[derive(Clone, Debug)]
pub struct HistogramData {
    /// Red-channel bins, one per 8-bit value.
    pub r: Vec<u32>,
    /// Green-channel bins.
    pub g: Vec<u32>,
    /// Blue-channel bins.
    pub b: Vec<u32>,
    /// Largest bin over all three channels, at least 1.
    pub max_count: u32,
}

impl HistogramData {
    /// Does this histogram describe `pixels`, with `max_count` the largest
    /// bin (or 1 where every bin is empty)?
    pub open spec fn describes(&self, pixels: Seq<u8>) -> bool {
        &&& histogram_matches(pixels, self.r@, self.g@, self.b@)
        &&& self.max_count >= 1
        &&& forall|v: int|
            #![trigger self.r@[v]]
            #![trigger self.g@[v]]
            #![trigger self.b@[v]]
            0 <= v < 256 ==> self.r@[v] <= self.max_count && self.g@[v] <= self.max_count
                && self.b@[v] <= self.max_count
        &&& (self.max_count == 1 || exists|v: int|
            #![trigger self.r@[v]]
            #![trigger self.g@[v]]
            #![trigger self.b@[v]]
            0 <= v < 256 && (self.r@[v] == self.max_count || self.g@[v] == self.max_count
                || self.b@[v] == self.max_count))
    }

    /// Builds the histogram of RGBA pixel data; a trailing fragment of
    /// fewer than 4 bytes is ignored.
    pub fn from_rgba_u8(pixels: &[u8]) -> (h: HistogramData)
        requires
            pixels@.len() <= u32::MAX,
        ensures
            h.describes(pixels@),
    {
        let mut r: Vec<u32> = zero_bins();
        let mut g: Vec<u32> = zero_bins();
        let mut b: Vec<u32> = zero_bins();
        let n = pixels.len() / 4;
        let mut i: usize = 0;
        while i < n
            invariant
                n == pixel_count(pixels@),
                4 * n <= pixels@.len() <= u32::MAX,
                i <= n,
                r@.len() == 256,
                g@.len() == 256,
                b@.len() == 256,
                forall|v: int|
                    0 <= v < 256 ==> #[trigger] r@[v] == channel_count(pixels@, 0, v, i as int),
                forall|v: int|
                    0 <= v < 256 ==> #[trigger] g@[v] == channel_count(pixels@, 1, v, i as int),
                forall|v: int|
                    0 <= v < 256 ==> #[trigger] b@[v] == channel_count(pixels@, 2, v, i as int),
            decreases n - i,
        {
            let rv = pixels[4 * i] as usize;
            let gv = pixels[4 * i + 1] as usize;
            let bv = pixels[4 * i + 2] as usize;
            proof {
                lemma_channel_count_bound(pixels@, 0, rv as int, i as int);
                lemma_channel_count_bound(pixels@, 1, gv as int, i as int);
                lemma_channel_count_bound(pixels@, 2, bv as int, i as int);
            }
            let cur_r = r[rv];
            r[rv] = cur_r + 1;
            let cur_g = g[gv];
            g[gv] = cur_g + 1;
            let cur_b = b[bv];
            b[bv] = cur_b + 1;
            i += 1;
        }
        let mut max_count: u32 = 1;
        let ghost mut wit: int = 0;
        let mut v: usize = 0;
        while v < 256
            invariant
                r@.len() == 256,
                g@.len() == 256,
                b@.len() == 256,
                v <= 256,
                max_count >= 1,
                forall|j: int|
                    #![trigger r@[j]]
                    #![trigger g@[j]]
                    #![trigger b@[j]]
                    0 <= j < v ==> r@[j] <= max_count && g@[j] <= max_count && b@[j] <= max_count,
                max_count == 1 || (0 <= wit < 256 && (r@[wit] == max_count || g@[wit] == max_count
                    || b@[wit] == max_count)),
            decreases 256 - v,
        {
            if r[v] > max_count {
                max_count = r[v];
                proof {
                    wit = v as int;
                }
            }
            if g[v] > max_count {
                max_count = g[v];
                proof {
                    wit = v as int;
                }
            }
            if b[v] > max_count {
                max_count = b[v];
                proof {
                    wit = v as int;
                }
            }
            v += 1;
        }
        proof {
            if max_count != 1 {
                assert(0 <= wit < 256 && (r@[wit] == max_count || g@[wit] == max_count || b@[wit]
                    == max_count));
            }
        }
        HistogramData { r, g, b, max_count }
    }
}

/// Builds the display histogram for raw RGBA pixel data.
pub fn compute_histogram(rgba_pixels: &[u8]) -> (h: HistogramData)
    requires
        rgba_pixels@.len() <= u32::MAX,
    ensures
        h.describes(rgba_pixels@),
{
    HistogramData::from_rgba_u8(rgba_pixels)
}

} // verus!
