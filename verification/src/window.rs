//! Sizing the generation window to the target media.

use vstd::prelude::*;

verus! {

/// The largest window extent allowed along a display axis: 90% of it, rounded down.
pub open spec fn max_extent(display: nat) -> nat {
    display * 9 / 10
}

/// At least one pixel.
pub open spec fn at_least_one(n: nat) -> nat {
    if n == 0 {
        1
    } else {
        n
    }
}

/// Whether the width is the side that limits the downscale: the factor
/// `max_w / tw` is no larger than `max_h / th` (an empty side never limits).
pub open spec fn width_limits(tw: nat, th: nat, max_w: nat, max_h: nat) -> bool {
    tw > 0 && (th == 0 || max_w * th <= max_h * tw)
}

/// The window size for a target of `tw × th` on a display of `dw × dh`:
/// the target itself when it fits within 90% of the display, otherwise the
/// target scaled down uniformly by the smaller of the two axis factors, each
/// side rounded down and kept at least one pixel.
pub open spec fn window_size(tw: nat, th: nat, dw: nat, dh: nat) -> (nat, nat) {
    let max_w = max_extent(dw);
    let max_h = max_extent(dh);
    if tw <= max_w && th <= max_h {
        (tw, th)
    } else if width_limits(tw, th, max_w, max_h) {
        (at_least_one(max_w), at_least_one(th * max_w / tw))
    } else {
        (at_least_one(tw * max_h / th), at_least_one(max_h))
    }
}

proof fn lemma_floor_div(a: nat, b: nat)
    requires
        b > 0,
    ensures
        (a / b) * b <= a,
        a < (a / b + 1) * b,
{
    vstd::arithmetic::div_mod::lemma_fundamental_div_mod(a as int, b as int);
    vstd::arithmetic::div_mod::lemma_mod_bound(a as int, b as int);
    assert((a / b) * b <= a && a < (a / b + 1) * b) by (nonlinear_arith)
        requires
            a == b * (a / b) + a % b,
            0 <= a % b < b,
    ;
}

proof fn lemma_scaled_below(x: nat, m: nat, t: nat)
    requires
        t > 0,
        m < t,
    ensures
        x * m / t <= x,
        x > 0 ==> x * m / t < x,
{
    lemma_floor_div(x * m, t);
    assert(x * m <= x * t) by (nonlinear_arith)
        requires
            m < t,
    ;
    if x > 0 {
        assert(x * m < x * t) by (nonlinear_arith)
            requires
                m < t,
                x > 0,
        ;
        assert((x * m / t) * t < x * t);
        assert(x * m / t < x) by (nonlinear_arith)
            requires
                (x * m / t) * t < x * t,
                t > 0,
        ;
    } else {
        assert(x * m == 0);
    }
}

/// Compute window dimensions that fit within 90% of the display while
/// preserving the target's aspect ratio.
///
/// A target that already fits is used as-is. Otherwise it is scaled down
/// uniformly so that neither side exceeds 90% of the display; each side is
/// rounded down and kept at least one pixel.
pub fn compute_window_size(target_size: (u32, u32), display_size: (u32, u32)) -> (r: (u32, u32))
    ensures
        (r.0 as nat, r.1 as nat) == window_size(
            target_size.0 as nat,
            target_size.1 as nat,
            display_size.0 as nat,
            display_size.1 as nat,
        ),
        // A target that fits is returned unchanged.
        target_size.0 <= max_extent(display_size.0 as nat) && target_size.1 <= max_extent(
            display_size.1 as nat,
        ) ==> r == target_size,
        // Otherwise the window is at least one pixel on each side ...
        !(target_size.0 <= max_extent(display_size.0 as nat) && target_size.1 <= max_extent(
            display_size.1 as nat,
        )) ==> r.0 >= 1 && r.1 >= 1,
        // ... never larger than 90% of the display (where that is at least a pixel) ...
        max_extent(display_size.0 as nat) >= 1 && max_extent(display_size.1 as nat) >= 1 ==> r.0
            <= max_extent(display_size.0 as nat) && r.1 <= max_extent(display_size.1 as nat),
        // ... and never larger than the target itself.
        target_size.0 >= 1 && target_size.1 >= 1 ==> r.0 <= target_size.0 && r.1
            <= target_size.1,
        // The aspect ratio is kept: one side is at its limit and the other is the
        // proportional size rounded down (but at least one pixel).
        target_size.0 >= 1 && target_size.1 >= 1 && !(target_size.0 <= max_extent(
            display_size.0 as nat,
        ) && target_size.1 <= max_extent(display_size.1 as nat)) ==> ({
            let (tw, th) = (target_size.0 as nat, target_size.1 as nat);
            let (w, h) = (r.0 as nat, r.1 as nat);
            let max_w = max_extent(display_size.0 as nat);
            let max_h = max_extent(display_size.1 as nat);
            ||| (w == at_least_one(max_w) && th * max_w < (h + 1) * tw && (h == 1 || h * tw
                <= th * max_w))
            ||| (h == at_least_one(max_h) && tw * max_h < (w + 1) * th && (w == 1 || w * th
                <= tw * max_h))
        }),
{
    let (tw, th) = target_size;
    let (dw, dh) = display_size;
    let max_w64: u64 = (dw as u64) * 9 / 10;
    let max_h64: u64 = (dh as u64) * 9 / 10;
    let max_w: u32 = max_w64 as u32;
    let max_h: u32 = max_h64 as u32;

    if tw <= max_w && th <= max_h {
        return (tw, th);
    }
    let tw64: u64 = tw as u64;
    let th64: u64 = th as u64;
    let ghost (tn, thn, mw, mh) = (tw as nat, th as nat, max_w as nat, max_h as nat);
    assert(mw * thn <= 0xffff_ffff * 0xffff_ffff && mh * tn <= 0xffff_ffff * 0xffff_ffff)
        by (nonlinear_arith)
        requires
            mw <= 0xffff_ffff,
            thn <= 0xffff_ffff,
            mh <= 0xffff_ffff,
            tn <= 0xffff_ffff,
    ;
    if tw > 0 && (th == 0 || max_w64 * th64 <= max_h64 * tw64) {
        // The width limits: tw > max_w here.
        assert(tn > mw) by (nonlinear_arith)
            requires
                !(tn <= mw && thn <= mh),
                tn > 0,
                thn == 0 || mw * thn <= mh * tn,
        ;
        proof {
            lemma_scaled_below(thn, mw, tn);
            lemma_floor_div(thn * mw, tn);
        }
        assert(thn * mw <= 0xffff_ffff * 0xffff_ffff) by (nonlinear_arith)
            requires
                mw <= 0xffff_ffff,
                thn <= 0xffff_ffff,
        ;
        let new_h64: u64 = th64 * max_w64 / tw64;
        let ghost q = thn * mw / tn;
        assert(q <= mh) by (nonlinear_arith)
            requires
                q * tn <= thn * mw,
                thn == 0 || mw * thn <= mh * tn,
                tn > 0,
                thn == 0 ==> q == 0,
        ;
        assert(thn * mw < (at_least_one(q) + 1) * tn && (at_least_one(q) == 1 || at_least_one(q)
            * tn <= thn * mw)) by (nonlinear_arith)
            requires
                q * tn <= thn * mw,
                thn * mw < (q + 1) * tn,
                tn > 0,
        ;
        let new_w: u32 = if max_w == 0 {
            1
        } else {
            max_w
        };
        let new_h: u32 = if new_h64 == 0 {
            1
        } else {
            new_h64 as u32
        };
        (new_w, new_h)
    } else {
        // The height limits: th > max_h here.
        assert(thn > mh && thn > 0) by (nonlinear_arith)
            requires
                !(tn <= mw && thn <= mh),
                !(tn > 0 && (thn == 0 || mw * thn <= mh * tn)),
        ;
        proof {
            lemma_scaled_below(tn, mh, thn);
            lemma_floor_div(tn * mh, thn);
        }
        assert(tn * mh <= 0xffff_ffff * 0xffff_ffff) by (nonlinear_arith)
            requires
                mh <= 0xffff_ffff,
                tn <= 0xffff_ffff,
        ;
        let new_w64: u64 = tw64 * max_h64 / th64;
        let ghost q = tn * mh / thn;
        assert(q <= mw) by (nonlinear_arith)
            requires
                q * thn <= tn * mh,
                tn == 0 || mw * thn > mh * tn,
                thn > 0,
                tn == 0 ==> q == 0,
        ;
        assert(tn * mh < (at_least_one(q) + 1) * thn && (at_least_one(q) == 1 || at_least_one(q)
            * thn <= tn * mh)) by (nonlinear_arith)
            requires
                q * thn <= tn * mh,
                tn * mh < (q + 1) * thn,
                thn > 0,
        ;
        let new_w: u32 = if new_w64 == 0 {
            1
        } else {
            new_w64 as u32
        };
        let new_h: u32 = if max_h == 0 {
            1
        } else {
            max_h
        };
        (new_w, new_h)
    }
}

} // verus!
