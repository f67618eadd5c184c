//! Colour sampling from the target image.

use crate::types::RgbaFrame;
use vstd::prelude::*;

verus! {

/// `v` read as a two's-complement 32-bit integer (what `v as i32` gives).
pub open spec fn wrap_i32(v: u32) -> int {
    if v < 0x8000_0000 {
        v as int
    } else {
        v - 0x1_0000_0000
    }
}

/// The coordinate `c + d` clamped to `[0, size - 1]`.
pub open spec fn clamped(c: u32, d: int, size: nat) -> int {
    let v = wrap_i32(c) + d;
    if v < 0 {
        0
    } else if v > size - 1 {
        size - 1
    } else {
        v
    }
}

/// Channel `ch` of the neighbour of `(x, y)` at offset `(dx, dy)`, with the
/// neighbour's coordinates clamped to the image.
pub open spec fn neighbor_channel(f: RgbaFrame, x: u32, y: u32, dx: int, dy: int, ch: int) -> int {
    f.data()[(clamped(y, dy, f.h()) * f.w() + clamped(x, dx, f.w())) * 4 + ch] as int
}

/// Sum of channel `ch` over the 3×3 neighbourhood centred at `(x, y)`.
pub open spec fn neighborhood_sum(f: RgbaFrame, x: u32, y: u32, ch: int) -> int {
    neighbor_channel(f, x, y, -1, -1, ch) + neighbor_channel(f, x, y, 0, -1, ch) + neighbor_channel(
        f,
        x,
        y,
        1,
        -1,
        ch,
    ) + neighbor_channel(f, x, y, -1, 0, ch) + neighbor_channel(f, x, y, 0, 0, ch)
        + neighbor_channel(f, x, y, 1, 0, ch) + neighbor_channel(f, x, y, -1, 1, ch)
        + neighbor_channel(f, x, y, 0, 1, ch) + neighbor_channel(f, x, y, 1, 1, ch)
}

/// The inputs on which the sampling neither overflows nor indexes out of the
/// image: a non-empty image whose sides fit an `i32`, whose byte count fits
/// 32-bit index arithmetic, and coordinates whose ±1 neighbours fit an `i32`.
pub open spec fn sample_domain(f: RgbaFrame, x: u32, y: u32) -> bool {
    &&& 1 <= f.w() <= 0x7fff_ffff
    &&& 1 <= f.h() <= 0x7fff_ffff
    &&& f.w() * f.h() * 4 <= 0x1_0000_0000
    &&& x != 0x7fff_ffff && x != 0x8000_0000
    &&& y != 0x7fff_ffff && y != 0x8000_0000
}

/// `c + d` clamped to `[0, size - 1]`, computed as the sampler does.
fn clamp_axis(c: u32, d: i64, size: u32) -> (r: u32)
    requires
        -1 <= d <= 1,
        1 <= size <= 0x7fff_ffff,
    ensures
        r == clamped(c, d as int, size as nat),
        r < size,
{
    let ci: i64 = if c < 0x8000_0000 {
        c as i64
    } else {
        c as i64 - 0x1_0000_0000
    };
    let v: i64 = ci + d;
    let hi: i64 = size as i64 - 1;
    if v < 0 {
        0
    } else if v > hi {
        hi as u32
    } else {
        v as u32
    }
}

proof fn lemma_index_in_bounds(w: nat, h: nat, sx: nat, sy: nat)
    requires
        sx < w,
        sy < h,
    ensures
        (sy * w + sx) * 4 + 3 < w * h * 4,
        sy * w + sx < w * h,
{
    assert(sy * w + sx < w * h) by (nonlinear_arith)
        requires
            sx < w,
            sy < h,
    ;
}

impl RgbaFrame {
    /// Sum of channel `ch` at `(sx, sy)` and its channel index.
    fn channel(&self, sx: u32, sy: u32, ch: usize) -> (r: u32)
        requires
            sx < self.w(),
            sy < self.h(),
            self.w() * self.h() * 4 <= 0x1_0000_0000,
            ch < 3,
        ensures
            r == self.data()[(sy * self.w() + sx) * 4 + ch],
    {
        proof {
            use_type_invariant(self);
            lemma_index_in_bounds(self.w(), self.h(), sx as nat, sy as nat);
        }
        let w = self.width();
        let idx: u32 = (sy * w + sx) * 4;
        let px = self.pixels();
        px[idx as usize + ch] as u32
    }

    /// Sample the average RGB values from a 3×3 neighbourhood centred at
    /// `(x, y)`. Coordinates are clamped to the image; each channel is the
    /// neighbourhood sum divided by nine, rounded down.
    pub fn sample_3x3_average(&self, x: u32, y: u32) -> (r: (u8, u8, u8))
        requires
            sample_domain(*self, x, y),
        ensures
            r.0 as int == neighborhood_sum(*self, x, y, 0) / 9,
            r.1 as int == neighborhood_sum(*self, x, y, 1) / 9,
            r.2 as int == neighborhood_sum(*self, x, y, 2) / 9,
    {
        let mut sums: [u32; 3] = [0, 0, 0];
        let w = self.width();
        let h = self.height();
        let mut ch: usize = 0;
        while ch < 3
            invariant
                sample_domain(*self, x, y),
                w == self.w(),
                h == self.h(),
                ch <= 3,
                forall|k: int| 0 <= k < ch ==> sums@[k] as int == neighborhood_sum(*self, x, y, k),
            decreases 3 - ch,
        {
            let xm = clamp_axis(x, -1, w);
            let x0 = clamp_axis(x, 0, w);
            let xp = clamp_axis(x, 1, w);
            let ym = clamp_axis(y, -1, h);
            let y0 = clamp_axis(y, 0, h);
            let yp = clamp_axis(y, 1, h);
            let s: u32 = self.channel(xm, ym, ch) + self.channel(x0, ym, ch) + self.channel(
                xp,
                ym,
                ch,
            ) + self.channel(xm, y0, ch) + self.channel(x0, y0, ch) + self.channel(xp, y0, ch)
                + self.channel(xm, yp, ch) + self.channel(x0, yp, ch) + self.channel(xp, yp, ch);
            sums[ch] = s;
            ch = ch + 1;
        }
        assert(neighborhood_sum(*self, x, y, 0) <= 9 * 255);
        assert(neighborhood_sum(*self, x, y, 1) <= 9 * 255);
        assert(neighborhood_sum(*self, x, y, 2) <= 9 * 255);
        ((sums[0] / 9) as u8, (sums[1] / 9) as u8, (sums[2] / 9) as u8)
    }
}

/// Every pixel of `f` has colour `c` in its first three channels.
pub open spec fn uniform_color(f: RgbaFrame, c: (u8, u8, u8)) -> bool {
    forall|p: int|
        0 <= p < f.w() * f.h() ==> {
            &&& #[trigger] f.data()[p * 4] == c.0
            &&& f.data()[p * 4 + 1] == c.1
            &&& f.data()[p * 4 + 2] == c.2
        }
}

/// On an image of one solid colour the neighbourhood average is that colour,
/// wherever it is taken (clamping at the borders included).
pub proof fn lemma_uniform_average(f: RgbaFrame, c: (u8, u8, u8), x: u32, y: u32)
    requires
        sample_domain(f, x, y),
        uniform_color(f, c),
    ensures
        neighborhood_sum(f, x, y, 0) / 9 == c.0,
        neighborhood_sum(f, x, y, 1) / 9 == c.1,
        neighborhood_sum(f, x, y, 2) / 9 == c.2,
{
    assert forall|dx: int, dy: int, ch: int|
        -1 <= dx <= 1 && -1 <= dy <= 1 && 0 <= ch < 3 implies #[trigger] neighbor_channel(
        f,
        x,
        y,
        dx,
        dy,
        ch,
    ) == (if ch == 0 {
        c.0
    } else if ch == 1 {
        c.1
    } else {
        c.2
    }) by {
        let sx = clamped(x, dx, f.w());
        let sy = clamped(y, dy, f.h());
        lemma_index_in_bounds(f.w(), f.h(), sx as nat, sy as nat);
        let p = sy * f.w() + sx;
        assert((sy * f.w() + sx) * 4 + ch == p * 4 + ch);
        assert(f.data()[p * 4] == c.0);
    }
}

/// The neighbourhood read for a pixel inside the image is the 3×3 block of
/// pixels around it, rows `y - 1`, `y`, `y + 1` and columns `x - 1`, `x`,
/// `x + 1`, each coordinate clamped to the image: the nine bytes of channel
/// `ch` at those positions are what is summed (and the average is that sum
/// divided by nine, rounded down).
pub proof fn lemma_average_reads_the_clamped_block(f: RgbaFrame, x: u32, y: u32, ch: int)
    requires
        sample_domain(f, x, y),
        x < f.w(),
        y < f.h(),
        0 <= ch < 3,
    ensures
        ({
            let w = f.w() as int;
            let d = f.data();
            let left = if x == 0 { 0int } else { x - 1 };
            let right = if x + 1 < w { x + 1 } else { w - 1 };
            let top = if y == 0 { 0int } else { y - 1 };
            let bottom = if y + 1 < f.h() { y + 1 } else { f.h() - 1 };
            neighborhood_sum(f, x, y, ch) == d[(top * w + left) * 4 + ch] as int + d[(top * w + x)
                * 4 + ch] as int + d[(top * w + right) * 4 + ch] as int + d[(y * w + left) * 4
                + ch] as int + d[(y * w + x) * 4 + ch] as int + d[(y * w + right) * 4 + ch] as int
                + d[(bottom * w + left) * 4 + ch] as int + d[(bottom * w + x) * 4 + ch] as int
                + d[(bottom * w + right) * 4 + ch] as int
        }),
{
    assert(wrap_i32(x) == x);
    assert(wrap_i32(y) == y);
}

} // verus!
