//! Pixel helpers on RGBA8 buffers and masks: cropping a render to a
//! rectangle, the elliptical mask of the red-eye retouch, the trimming
//! rectangle of the non-transparent pixels, colour histograms, the mask
//! coverage of the one-click cutout, and upscaling an image's pixels.

use vstd::prelude::*;
use vstd::arithmetic::div_mod::{lemma_fundamental_div_mod, lemma_fundamental_div_mod_converse};
use crate::document::MAX_IMAGE_SIDE;

verus! {

/// Index in the source buffer of byte `i` of a crop of row width `rwb`
/// bytes whose top-left pixel is `(x0, y0)` in a buffer `w` pixels wide.
pub open spec fn crop_source_index(w: int, x0: int, y0: int, rwb: int, i: int) -> int {
    ((y0 + i / rwb) * w + x0) * 4 + i % rwb
}

proof fn lemma_crop_index_in_bounds(w: int, h: int, x0: int, y0: int, x1: int, yy: int, k: int)
    requires
        0 <= x0 < x1 <= w,
        0 <= y0,
        0 <= yy,
        y0 + yy < h,
        0 <= k < (x1 - x0) * 4,
    ensures
        0 <= ((y0 + yy) * w + x0) * 4 + k < w * h * 4,
{
    assert(((y0 + yy) * w + x0) * 4 + k < w * h * 4) by (nonlinear_arith)
        requires
            0 <= x0 < x1 <= w,
            0 <= y0,
            0 <= yy,
            y0 + yy < h,
            0 <= k < (x1 - x0) * 4,
    ;
    assert(0 <= ((y0 + yy) * w + x0) * 4 + k) by (nonlinear_arith)
        requires
            0 <= x0,
            0 <= w,
            0 <= y0,
            0 <= yy,
            0 <= k,
    ;
}

/// Crops an RGBA8 buffer `w × h` to the pixel rectangle `[x0, x1) × [y0, y1)`
/// (already bounded to the buffer). When the rectangle is empty, the whole
/// buffer comes back unchanged.
pub fn crop_rgba_rect(w: u32, h: u32, rgba: &[u8], x0: u32, y0: u32, x1: u32, y1: u32) -> (r: (
    u32,
    u32,
    Vec<u8>,
))
    requires
        rgba@.len() == w * h * 4,
        w * h * 4 <= u32::MAX,
        x0 <= w,
        x1 <= w,
        y0 <= h,
        y1 <= h,
    ensures
        x1 <= x0 || y1 <= y0 ==> r.0 == w && r.1 == h && r.2@ == rgba@,
        x0 < x1 && y0 < y1 ==> {
            &&& r.0 == x1 - x0
            &&& r.1 == y1 - y0
            &&& r.2@.len() == (x1 - x0) * (y1 - y0) * 4
            &&& forall|i: int|
                0 <= i < r.2@.len() ==> #[trigger] r.2@[i] == rgba@[crop_source_index(
                    w as int,
                    x0 as int,
                    y0 as int,
                    (x1 - x0) * 4,
                    i,
                )]
        },
{
    if x1 <= x0 || y1 <= y0 {
        let mut all: Vec<u8> = Vec::new();
        let mut i: usize = 0;
        while i < rgba.len()
            invariant
                i <= rgba@.len(),
                all@ == rgba@.subrange(0, i as int),
            decreases rgba@.len() - i,
        {
            all.push(rgba[i]);
            i = i + 1;
            assert(all@ =~= rgba@.subrange(0, i as int));
        }
        assert(rgba@.subrange(0, rgba@.len() as int) =~= rgba@);
        return (w, h, all);
    }
    let rw = x1 - x0;
    let rh = y1 - y0;
    assert(w * 4 <= w * h * 4) by (nonlinear_arith)
        requires
            h >= 1,
    ;
    let rwb: usize = (rw as usize) * 4;
    let mut out: Vec<u8> = Vec::new();
    let mut y: usize = 0;
    while y < rh as usize
        invariant
            rgba@.len() == w * h * 4,
            w * h * 4 <= u32::MAX,
            x0 < x1 <= w,
            y0 < y1 <= h,
            rw == x1 - x0,
            rh == y1 - y0,
            rwb == rw * 4,
            y <= rh,
            out@.len() == y * rwb,
            forall|i: int|
                0 <= i < out@.len() ==> #[trigger] out@[i] == rgba@[crop_source_index(
                    w as int,
                    x0 as int,
                    y0 as int,
                    rwb as int,
                    i,
                )],
        decreases rh - y,
    {
        proof {
            lemma_crop_index_in_bounds(w as int, h as int, x0 as int, y0 as int, x1 as int, y as int, 0);
            assert((y0 + y) * w <= ((y0 + y) * w + x0) * 4) by (nonlinear_arith)
                requires
                    0 <= x0,
                    0 <= w,
                    0 <= y0 + y,
            ;
        }
        let base: usize = ((y0 as usize + y) * (w as usize) + x0 as usize) * 4;
        let mut k: usize = 0;
        while k < rwb
            invariant
                rgba@.len() == w * h * 4,
                w * h * 4 <= u32::MAX,
                x0 < x1 <= w,
                y0 < y1 <= h,
                rw == x1 - x0,
                rh == y1 - y0,
                rwb == rw * 4,
                y < rh,
                k <= rwb,
                base == ((y0 + y) * w + x0) * 4,
                out@.len() == y * rwb + k,
                forall|i: int|
                    0 <= i < out@.len() ==> #[trigger] out@[i] == rgba@[crop_source_index(
                        w as int,
                        x0 as int,
                        y0 as int,
                        rwb as int,
                        i,
                    )],
            decreases rwb - k,
        {
            proof {
                lemma_crop_index_in_bounds(
                    w as int,
                    h as int,
                    x0 as int,
                    y0 as int,
                    x1 as int,
                    y as int,
                    k as int,
                );
                lemma_fundamental_div_mod_converse(
                    (y * rwb + k) as int,
                    rwb as int,
                    y as int,
                    k as int,
                );
            }
            out.push(rgba[base + k]);
            k = k + 1;
        }
        assert((y + 1) * rwb == y * rwb + rwb) by (nonlinear_arith);
        y = y + 1;
    }
    assert(out@.len() == (x1 - x0) * (y1 - y0) * 4) by (nonlinear_arith)
        requires
            out@.len() == y * rwb,
            y == y1 - y0,
            rwb == (x1 - x0) * 4,
    ;
    (rw, rh, out)
}

/// Byte `i` of a crop `cw` pixels wide whose top-left pixel is `(x0, y0)`
/// in an RGBA8 buffer `w × h`: the source byte where the pixel lies inside
/// the buffer, 0 (transparent) past its right or bottom edge.
pub open spec fn padded_crop_byte(src: Seq<u8>, w: int, h: int, x0: int, y0: int, cw: int, i: int) -> u8 {
    let rwb = cw * 4;
    let px = x0 + (i % rwb) / 4;
    let py = y0 + i / rwb;
    if px < w && py < h {
        src[(py * w + px) * 4 + (i % rwb) % 4]
    } else {
        0
    }
}

/// Crops an RGBA8 buffer `w × h` to the `cw × ch` rectangle whose top-left
/// pixel is `(x0, y0)`; the part of the rectangle past the buffer's right
/// or bottom edge comes out transparent.
pub fn crop_rgba_padded(w: u32, h: u32, rgba: &[u8], x0: u32, y0: u32, cw: u32, ch: u32) -> (r: Vec<u8>)
    requires
        rgba@.len() == w * h * 4,
        w * h * 4 <= u32::MAX,
        1 <= cw <= w,
        1 <= ch <= h,
    ensures
        r@.len() == cw * ch * 4,
        forall|i: int|
            0 <= i < r@.len() ==> #[trigger] r@[i] == padded_crop_byte(
                rgba@,
                w as int,
                h as int,
                x0 as int,
                y0 as int,
                cw as int,
                i,
            ),
{
    assert(cw * ch * 4 <= w * h * 4) by (nonlinear_arith)
        requires
            1 <= cw <= w,
            1 <= ch <= h,
    ;
    assert(cw * 4 <= cw * ch * 4) by (nonlinear_arith)
        requires
            1 <= ch,
            0 <= cw,
    ;
    let rwb: usize = (cw as usize) * 4;
    let mut out: Vec<u8> = Vec::new();
    let mut y: usize = 0;
    while y < ch as usize
        invariant
            rgba@.len() == w * h * 4,
            w * h * 4 <= u32::MAX,
            1 <= cw <= w,
            1 <= ch <= h,
            cw * ch * 4 <= w * h * 4,
            rwb == cw * 4,
            y <= ch,
            out@.len() == y * rwb,
            forall|i: int|
                0 <= i < out@.len() ==> #[trigger] out@[i] == padded_crop_byte(
                    rgba@,
                    w as int,
                    h as int,
                    x0 as int,
                    y0 as int,
                    cw as int,
                    i,
                ),
        decreases ch - y,
    {
        let py: u64 = y0 as u64 + y as u64;
        let mut k: usize = 0;
        while k < rwb
            invariant
                rgba@.len() == w * h * 4,
                w * h * 4 <= u32::MAX,
                1 <= cw <= w,
                1 <= ch <= h,
                rwb == cw * 4,
                y < ch,
                py == y0 + y,
                k <= rwb,
                out@.len() == y * rwb + k,
                forall|i: int|
                    0 <= i < out@.len() ==> #[trigger] out@[i] == padded_crop_byte(
                        rgba@,
                        w as int,
                        h as int,
                        x0 as int,
                        y0 as int,
                        cw as int,
                        i,
                    ),
            decreases rwb - k,
        {
            proof {
                lemma_fundamental_div_mod_converse((y * rwb + k) as int, rwb as int, y as int, k as int);
            }
            let px: u64 = x0 as u64 + (k / 4) as u64;
            let b: u8 = if px < w as u64 && py < h as u64 {
                proof {
                    assert((py * w + px) * 4 + k % 4 < w * h * 4) by (nonlinear_arith)
                        requires
                            px < w,
                            py < h,
                            k % 4 < 4,
                    ;
                }
                rgba[((py * (w as u64) + px) * 4) as usize + k % 4]
            } else {
                0
            };
            out.push(b);
            k = k + 1;
        }
        assert((y + 1) * rwb == y * rwb + rwb) by (nonlinear_arith);
        y = y + 1;
    }
    assert(out@.len() == cw * ch * 4) by (nonlinear_arith)
        requires
            out@.len() == y * rwb,
            y == ch,
            rwb == cw * 4,
    ;
    out
}

/// Is the centre of pixel `(x, y)` inside (or on) the ellipse inscribed in
/// the rectangle `[px0, px1) × [py0, py1)`? Computed exactly: with the
/// doubled offsets `dx = 2x + 1 - (px0 + px1)`, `dy = 2y + 1 - (py0 + py1)`,
/// the centre is inside when `dx²·H² + dy²·W² ≤ W²·H²`.
pub open spec fn in_inscribed_ellipse(px0: int, py0: int, px1: int, py1: int, x: int, y: int) -> bool {
    let ww = px1 - px0;
    let hh = py1 - py0;
    let dx = 2 * x + 1 - (px0 + px1);
    let dy = 2 * y + 1 - (py0 + py1);
    dx * dx * (hh * hh) + dy * dy * (ww * ww) <= ww * ww * (hh * hh)
}

/// Is pixel `(x, y)` of a `w × h` mask selected by `ellipse_pixel_mask`?
pub open spec fn ellipse_mask_at(
    w: int,
    h: int,
    px0: int,
    py0: int,
    px1: int,
    py1: int,
    x: int,
    y: int,
) -> bool {
    &&& px0 <= x < px1
    &&& py0 <= y < py1
    &&& x < w
    &&& y < h
    &&& in_inscribed_ellipse(px0, py0, px1, py1, x, y)
}

/// Splits `a` into its high and low 64-bit halves.
fn halves(a: u128) -> (r: (u128, u128))
    ensures
        r.0 < 0x1_0000_0000_0000_0000,
        r.1 < 0x1_0000_0000_0000_0000,
        a == r.0 * 0x1_0000_0000_0000_0000 + r.1,
{
    let hi = a / 0x1_0000_0000_0000_0000u128;
    let lo = a % 0x1_0000_0000_0000_0000u128;
    proof {
        lemma_fundamental_div_mod(a as int, 0x1_0000_0000_0000_0000int);
    }
    (hi, lo)
}

/// The exact product of two 128-bit numbers as its high and low 128-bit
/// halves.
fn wide_mul(a: u128, b: u128) -> (r: (u128, u128))
    ensures
        r.0 * 0x1_0000_0000_0000_0000_0000_0000_0000_0000int + r.1 == a * b,
{
    let (ah, al) = halves(a);
    let (bh, bl) = halves(b);
    assert(al * bl < 0x1_0000_0000_0000_0000_0000_0000_0000_0000int) by (nonlinear_arith)
        requires al < 0x1_0000_0000_0000_0000, bl < 0x1_0000_0000_0000_0000, 0 <= al, 0 <= bl;
    assert(al * bh < 0x1_0000_0000_0000_0000_0000_0000_0000_0000int) by (nonlinear_arith)
        requires al < 0x1_0000_0000_0000_0000, bh < 0x1_0000_0000_0000_0000, 0 <= al, 0 <= bh;
    assert(ah * bl < 0x1_0000_0000_0000_0000_0000_0000_0000_0000int) by (nonlinear_arith)
        requires ah < 0x1_0000_0000_0000_0000, bl < 0x1_0000_0000_0000_0000, 0 <= ah, 0 <= bl;
    assert(ah * bh < 0x1_0000_0000_0000_0000_0000_0000_0000_0000int) by (nonlinear_arith)
        requires ah < 0x1_0000_0000_0000_0000, bh < 0x1_0000_0000_0000_0000, 0 <= ah, 0 <= bh;
    let p0 = al * bl;
    let p1 = al * bh;
    let p2 = ah * bl;
    let p3 = ah * bh;
    let (p1h, p1l) = halves(p1);
    let (p2h, p2l) = halves(p2);
    let (sh, sl) = halves(p1l + p2l);
    assert(sh <= 1) by (nonlinear_arith)
        requires
            p1l + p2l == sh * 0x1_0000_0000_0000_0000 + sl,
            p1l < 0x1_0000_0000_0000_0000,
            p2l < 0x1_0000_0000_0000_0000,
            0 <= sl,
            0 <= sh,
    ;
    let t = sl * 0x1_0000_0000_0000_0000u128;
    let carry: u128;
    let lo: u128;
    if p0 <= u128::MAX - t {
        lo = p0 + t;
        carry = 0;
    } else {
        lo = p0 - (u128::MAX - t) - 1;
        carry = 1;
    }
    let ghost big: int = 0x1_0000_0000_0000_0000_0000_0000_0000_0000int;
    assert(a * b == (p3 + p1h + p2h + sh + carry) * big + lo) by (nonlinear_arith)
        requires
            a == ah * 0x1_0000_0000_0000_0000 + al,
            b == bh * 0x1_0000_0000_0000_0000 + bl,
            p0 == al * bl,
            p1 == al * bh,
            p2 == ah * bl,
            p3 == ah * bh,
            p1 == p1h * 0x1_0000_0000_0000_0000 + p1l,
            p2 == p2h * 0x1_0000_0000_0000_0000 + p2l,
            p1l + p2l == sh * 0x1_0000_0000_0000_0000 + sl,
            t == sl * 0x1_0000_0000_0000_0000,
            p0 + t == carry * big + lo,
            big == 0x1_0000_0000_0000_0000_0000_0000_0000_0000int,
    ;
    assert(a * b < big * big) by (nonlinear_arith)
        requires a < big, b < big, 0 <= a, 0 <= b, big == 0x1_0000_0000_0000_0000_0000_0000_0000_0000int;
    assert(p3 + p1h + p2h + sh + carry < big) by (nonlinear_arith)
        requires
            a * b == (p3 + p1h + p2h + sh + carry) * big + lo,
            a * b < big * big,
            0 <= lo,
            0 <= p3, 0 <= p1h, 0 <= p2h, 0 <= sh, 0 <= carry,
            big > 0,
    ;
    (p3 + p1h + p2h + sh + carry, lo)
}

/// Is `a · b ≤ c · d`, computed exactly?
fn products_le(a: u128, b: u128, c: u128, d: u128) -> (r: bool)
    ensures
        r == (a * b <= c * d),
{
    let (h1, l1) = wide_mul(a, b);
    let (h2, l2) = wide_mul(c, d);
    let ghost big: int = 0x1_0000_0000_0000_0000_0000_0000_0000_0000int;
    if h1 < h2 {
        assert(a * b < c * d) by (nonlinear_arith)
            requires
                h1 * big + l1 == a * b,
                h2 * big + l2 == c * d,
                h1 + 1 <= h2,
                0 <= l1 < big,
                0 <= l2,
        ;
        true
    } else if h1 > h2 {
        assert(a * b > c * d) by (nonlinear_arith)
            requires
                h1 * big + l1 == a * b,
                h2 * big + l2 == c * d,
                h2 + 1 <= h1,
                0 <= l2 < big,
                0 <= l1,
        ;
        false
    } else {
        l1 <= l2
    }
}

/// Computes the ellipse test of one pixel exactly, whatever the size of the
/// rectangle.
fn ellipse_contains(px0: usize, py0: usize, px1: usize, py1: usize, x: usize, y: usize) -> (r: bool)
    requires
        px0 <= x < px1,
        py0 <= y < py1,
    ensures
        r == in_inscribed_ellipse(px0 as int, py0 as int, px1 as int, py1 as int, x as int, y as int),
{
    let ww = (px1 - px0) as u128;
    let hh = (py1 - py0) as u128;
    // |dx| = |2x + 1 - (px0 + px1)|, at most ww; likewise |dy| ≤ hh.
    let ax: u128 = if 2 * (x as u128) + 1 >= px0 as u128 + px1 as u128 {
        2 * (x as u128) + 1 - (px0 as u128 + px1 as u128)
    } else {
        px0 as u128 + px1 as u128 - (2 * (x as u128) + 1)
    };
    let ay: u128 = if 2 * (y as u128) + 1 >= py0 as u128 + py1 as u128 {
        2 * (y as u128) + 1 - (py0 as u128 + py1 as u128)
    } else {
        py0 as u128 + py1 as u128 - (2 * (y as u128) + 1)
    };
    let ghost dx: int = 2 * x + 1 - (px0 + px1);
    let ghost dy: int = 2 * y + 1 - (py0 + py1);
    assert(ax <= ww && ay <= hh);
    assert(ww < 0x1_0000_0000_0000_0000 && hh < 0x1_0000_0000_0000_0000);
    assert(ax * ax <= ww * ww < 0x1_0000_0000_0000_0000_0000_0000_0000_0000int) by (nonlinear_arith)
        requires 0 <= ax <= ww < 0x1_0000_0000_0000_0000;
    assert(ay * ay <= hh * hh < 0x1_0000_0000_0000_0000_0000_0000_0000_0000int) by (nonlinear_arith)
        requires 0 <= ay <= hh < 0x1_0000_0000_0000_0000;
    let dx2 = ax * ax;
    let dy2 = ay * ay;
    let w2 = ww * ww;
    let h2 = hh * hh;
    assert(dx2 == dx * dx && dy2 == dy * dy) by (nonlinear_arith)
        requires
            ax == dx || ax == -dx,
            ay == dy || ay == -dy,
            dx2 == ax * ax,
            dy2 == ay * ay,
    ;
    let r = products_le(dx2, h2, w2, h2 - dy2);
    assert((dx2 * h2 <= w2 * (h2 - dy2)) == (dx2 * h2 + dy2 * w2 <= w2 * h2)) by (nonlinear_arith)
        requires 0 <= dy2 <= h2;
    r
}

/// Boolean mask `w × h`, row-major, true for the pixels whose centre lies in
/// the ellipse inscribed in `[px0, px1) × [py0, py1)` (red-eye retouch).
pub fn ellipse_pixel_mask(w: usize, h: usize, px0: usize, py0: usize, px1: usize, py1: usize) -> (r:
    Vec<bool>)
    requires
        w * h <= usize::MAX,
    ensures
        r@.len() == w * h,
        forall|y: int, x: int|
            0 <= y < h && 0 <= x < w ==> #[trigger] r@[y * w + x] == ellipse_mask_at(
                w as int,
                h as int,
                px0 as int,
                py0 as int,
                px1 as int,
                py1 as int,
                x,
                y,
            ),
{
    let mut mask: Vec<bool> = Vec::new();
    let mut y: usize = 0;
    while y < h
        invariant
            w * h <= usize::MAX,
            y <= h,
            mask@.len() == y * w,
            forall|yy: int, x: int|
                0 <= yy < y && 0 <= x < w ==> #[trigger] mask@[yy * w + x] == ellipse_mask_at(
                    w as int,
                    h as int,
                    px0 as int,
                    py0 as int,
                    px1 as int,
                    py1 as int,
                    x,
                    yy,
                ),
        decreases h - y,
    {
        assert(y * w + w <= w * h) by (nonlinear_arith)
            requires
                y < h,
        ;
        let mut x: usize = 0;
        while x < w
            invariant
                w * h <= usize::MAX,
                y < h,
                x <= w,
                y * w + w <= w * h,
                mask@.len() == y * w + x,
                forall|yy: int, xx: int|
                    0 <= yy < y && 0 <= xx < w ==> #[trigger] mask@[yy * w + xx]
                        == ellipse_mask_at(
                        w as int,
                        h as int,
                        px0 as int,
                        py0 as int,
                        px1 as int,
                        py1 as int,
                        xx,
                        yy,
                    ),
                forall|xx: int|
                    0 <= xx < x ==> #[trigger] mask@[y * w + xx] == ellipse_mask_at(
                        w as int,
                        h as int,
                        px0 as int,
                        py0 as int,
                        px1 as int,
                        py1 as int,
                        xx,
                        y as int,
                    ),
            decreases w - x,
        {
            let inside = px0 <= x && x < px1 && py0 <= y && y < py1 && ellipse_contains(
                px0,
                py0,
                px1,
                py1,
                x,
                y,
            );
            let ghost old_mask = mask@;
            mask.push(inside);
            proof {
                assert forall|yy: int, xx: int|
                    0 <= yy < y && 0 <= xx < w implies #[trigger] mask@[yy * w + xx]
                    == ellipse_mask_at(
                    w as int,
                    h as int,
                    px0 as int,
                    py0 as int,
                    px1 as int,
                    py1 as int,
                    xx,
                    yy,
                ) by {
                    assert(yy * w + xx < y * w) by (nonlinear_arith)
                        requires
                            0 <= yy < y,
                            0 <= xx < w,
                    ;
                    assert(mask@[yy * w + xx] == old_mask[yy * w + xx]);
                }
            }
            x = x + 1;
        }
        proof {
            assert forall|yy: int, xx: int|
                0 <= yy < y + 1 && 0 <= xx < w implies #[trigger] mask@[yy * w + xx]
                == ellipse_mask_at(
                w as int,
                h as int,
                px0 as int,
                py0 as int,
                px1 as int,
                py1 as int,
                xx,
                yy,
            ) by {
                if yy == y {
                } else {
                }
            }
            assert((y + 1) * w == y * w + w) by (nonlinear_arith);
        }
        y = y + 1;
    }
    assert(h * w == w * h) by (nonlinear_arith);
    mask
}


/// Boolean mask `w × h`, row-major, true for the pixels of the rectangle
/// `[px0, px1) × [py0, py1)` (skin-smoothing retouch): pixel `k` is at
/// `(k % w, k / w)`.
pub fn box_pixel_mask(w: usize, h: usize, px0: usize, py0: usize, px1: usize, py1: usize) -> (r: Vec<bool>)
    requires
        w * h <= usize::MAX,
        px1 <= w,
        py1 <= h,
    ensures
        r@.len() == w * h,
        forall|k: int|
            0 <= k < w * h ==> #[trigger] r@[k] == (px0 <= k % (w as int) < px1 && py0 <= k / (w as int)
                < py1),
{
    let n = w * h;
    let mut mask: Vec<bool> = Vec::new();
    let mut k: usize = 0;
    while k < n
        invariant
            n == w * h,
            k <= n,
            w > 0 || n == 0,
            mask@.len() == k,
            forall|j: int|
                0 <= j < k ==> #[trigger] mask@[j] == (px0 <= j % (w as int) < px1 && py0 <= j
                    / (w as int) < py1),
        decreases n - k,
    {
        let x = k % w;
        let y = k / w;
        mask.push(px0 <= x && x < px1 && py0 <= y && y < py1);
        k = k + 1;
    }
    mask
}

/// Alpha of pixel `(x, y)` of an RGBA8 buffer `w` pixels wide is not zero.
pub open spec fn opaque_at(rgba: Seq<u8>, w: int, x: int, y: int) -> bool {
    rgba[(y * w + x) * 4 + 3] != 0
}

/// `(x, y, tw, th)` is the smallest rectangle holding every non-transparent
/// pixel of the `w × h` buffer.
pub open spec fn is_trim_box(rgba: Seq<u8>, w: int, h: int, b: (u32, u32, u32, u32)) -> bool {
    let (x0, y0, tw, th) = (b.0 as int, b.1 as int, b.2 as int, b.3 as int);
    &&& tw >= 1 && th >= 1
    &&& x0 + tw <= w && y0 + th <= h
    &&& forall|x: int, y: int|
        0 <= x < w && 0 <= y < h && #[trigger] opaque_at(rgba, w, x, y) ==> x0 <= x < x0 + tw && y0
            <= y < y0 + th
    &&& exists|y: int| 0 <= y < h && #[trigger] opaque_at(rgba, w, x0, y)
    &&& exists|y: int| 0 <= y < h && #[trigger] opaque_at(rgba, w, x0 + tw - 1, y)
    &&& exists|x: int| 0 <= x < w && #[trigger] opaque_at(rgba, w, x, y0)
    &&& exists|x: int| 0 <= x < w && #[trigger] opaque_at(rgba, w, x, y0 + th - 1)
}

/// The smallest rectangle holding every non-transparent pixel is unique.
pub proof fn law_trim_box_unique(rgba: Seq<u8>, w: int, h: int, b1: (u32, u32, u32, u32), b2: (
    u32,
    u32,
    u32,
    u32,
))
    requires
        is_trim_box(rgba, w, h, b1),
        is_trim_box(rgba, w, h, b2),
    ensures
        b1 == b2,
{
    let y1 = choose|y: int| 0 <= y < h && #[trigger] opaque_at(rgba, w, b1.0 as int, y);
    let y2 = choose|y: int| 0 <= y < h && #[trigger] opaque_at(rgba, w, b2.0 as int, y);
    assert(b1.0 >= b2.0 && b2.0 >= b1.0) by {
        assert(opaque_at(rgba, w, b1.0 as int, y1));
        assert(opaque_at(rgba, w, b2.0 as int, y2));
    }
    let y3 = choose|y: int| 0 <= y < h && #[trigger] opaque_at(rgba, w, b1.0 + b1.2 - 1, y);
    let y4 = choose|y: int| 0 <= y < h && #[trigger] opaque_at(rgba, w, b2.0 + b2.2 - 1, y);
    assert(opaque_at(rgba, w, b1.0 + b1.2 - 1, y3));
    assert(opaque_at(rgba, w, b2.0 + b2.2 - 1, y4));
    let x1 = choose|x: int| 0 <= x < w && #[trigger] opaque_at(rgba, w, x, b1.1 as int);
    let x2 = choose|x: int| 0 <= x < w && #[trigger] opaque_at(rgba, w, x, b2.1 as int);
    assert(opaque_at(rgba, w, x1, b1.1 as int));
    assert(opaque_at(rgba, w, x2, b2.1 as int));
    let x3 = choose|x: int| 0 <= x < w && #[trigger] opaque_at(rgba, w, x, b1.1 + b1.3 - 1);
    let x4 = choose|x: int| 0 <= x < w && #[trigger] opaque_at(rgba, w, x, b2.1 + b2.3 - 1);
    assert(opaque_at(rgba, w, x3, b1.1 + b1.3 - 1));
    assert(opaque_at(rgba, w, x4, b2.1 + b2.3 - 1));
}

/// The trimming rectangle of a `w × h` buffer, `None` when it is fully
/// transparent.
pub open spec fn trim_box(rgba: Seq<u8>, w: int, h: int) -> Option<(u32, u32, u32, u32)> {
    if exists|b: (u32, u32, u32, u32)| is_trim_box(rgba, w, h, b) {
        Some(choose|b: (u32, u32, u32, u32)| is_trim_box(rgba, w, h, b))
    } else {
        None
    }
}

proof fn lemma_pixel_index(w: int, h: int, x: int, y: int)
    requires
        0 <= x < w,
        0 <= y < h,
    ensures
        0 <= (y * w + x) * 4 + 3 < w * h * 4,
        (y * w + x) * 4 + 3 == y * w * 4 + x * 4 + 3,
        0 <= y * w <= y * w * 4,
{
    assert(0 <= y * w) by (nonlinear_arith)
        requires
            0 <= y,
            0 <= w,
    ;
    assert(y * w + x < w * h) by (nonlinear_arith)
        requires
            0 <= x < w,
            0 <= y < h,
    ;
}

/// Smallest rectangle `(x, y, width, height)` holding every pixel whose
/// alpha is not zero; `None` for a fully transparent buffer.
pub fn trim_bounds(rgba: &[u8], w: usize, h: usize) -> (r: Option<(u32, u32, u32, u32)>)
    requires
        rgba@.len() == w * h * 4,
        w <= u32::MAX,
        h <= u32::MAX,
    ensures
        r is None <==> forall|x: int, y: int|
            0 <= x < w && 0 <= y < h ==> !#[trigger] opaque_at(rgba@, w as int, x, y),
        r matches Some(b) ==> is_trim_box(rgba@, w as int, h as int, b),
        r == trim_box(rgba@, w as int, h as int),
{
    let ghost g = rgba@;
    let ghost wi = w as int;
    let total = rgba.len();
    let mut found = false;
    let mut minx: usize = 0;
    let mut maxx: usize = 0;
    let mut miny: usize = 0;
    let mut maxy: usize = 0;
    let ghost mut wminx: int = 0;
    let ghost mut wmaxx: int = 0;
    let ghost mut wminy: int = 0;
    let ghost mut wmaxy: int = 0;
    let mut y: usize = 0;
    while y < h
        invariant
            g == rgba@,
            wi == w,
            rgba@.len() == w * h * 4,
            total == rgba@.len(),
            y <= h,
            !found ==> forall|xx: int, yy: int|
                0 <= xx < w && 0 <= yy < y ==> !#[trigger] opaque_at(g, wi, xx, yy),
            found ==> {
                &&& minx <= maxx < w && miny <= maxy < y
                &&& forall|xx: int, yy: int|
                    0 <= xx < w && 0 <= yy < y && #[trigger] opaque_at(g, wi, xx, yy) ==> minx <= xx
                        <= maxx && miny <= yy <= maxy
                &&& 0 <= wminx < y && opaque_at(g, wi, minx as int, wminx)
                &&& 0 <= wmaxx < y && opaque_at(g, wi, maxx as int, wmaxx)
                &&& 0 <= wminy < w && opaque_at(g, wi, wminy, miny as int)
                &&& 0 <= wmaxy < w && opaque_at(g, wi, wmaxy, maxy as int)
            },
        decreases h - y,
    {
        let mut x: usize = 0;
        while x < w
            invariant
                g == rgba@,
                wi == w,
                rgba@.len() == w * h * 4,
                total == rgba@.len(),
                y < h,
                x <= w,
                !found ==> forall|xx: int, yy: int|
                    0 <= xx < w && 0 <= yy < y ==> !#[trigger] opaque_at(g, wi, xx, yy),
                !found ==> forall|xx: int| 0 <= xx < x ==> !#[trigger] opaque_at(g, wi, xx, y as int),
                found ==> {
                    &&& minx <= maxx < w && miny <= maxy <= y
                    &&& forall|xx: int, yy: int|
                        0 <= xx < w && 0 <= yy < y && #[trigger] opaque_at(g, wi, xx, yy) ==> minx
                            <= xx <= maxx && miny <= yy <= maxy
                    &&& forall|xx: int|
                        0 <= xx < x && #[trigger] opaque_at(g, wi, xx, y as int) ==> minx <= xx <= maxx
                            && miny <= y <= maxy
                    &&& 0 <= wminx <= y && opaque_at(g, wi, minx as int, wminx)
                    &&& 0 <= wmaxx <= y && opaque_at(g, wi, maxx as int, wmaxx)
                    &&& 0 <= wminy < w && opaque_at(g, wi, wminy, miny as int)
                    &&& 0 <= wmaxy < w && opaque_at(g, wi, wmaxy, maxy as int)
                },
            decreases w - x,
        {
            proof {
                lemma_pixel_index(w as int, h as int, x as int, y as int);
            }
            assert(y * w * 4 + x * 4 + 3 < total);
            let idx = y * w * 4 + x * 4 + 3;
            if rgba[idx] != 0 {
                assert(opaque_at(g, wi, x as int, y as int));
                if !found {
                    found = true;
                    minx = x;
                    maxx = x;
                    miny = y;
                    maxy = y;
                    proof {
                        wminx = y as int;
                        wmaxx = y as int;
                        wminy = x as int;
                        wmaxy = x as int;
                    }
                } else {
                    if x < minx {
                        minx = x;
                        proof {
                            wminx = y as int;
                        }
                    }
                    if x > maxx {
                        maxx = x;
                        proof {
                            wmaxx = y as int;
                        }
                    }
                    if y > maxy {
                        maxy = y;
                        proof {
                            wmaxy = x as int;
                        }
                    }
                }
            }
            x = x + 1;
        }
        y = y + 1;
    }
    if !found {
        proof {
            if exists|b: (u32, u32, u32, u32)| is_trim_box(g, wi, h as int, b) {
                let b = choose|b: (u32, u32, u32, u32)| is_trim_box(g, wi, h as int, b);
                let yy = choose|yy: int| 0 <= yy < h && #[trigger] opaque_at(g, wi, b.0 as int, yy);
                assert(opaque_at(g, wi, b.0 as int, yy));
            }
        }
        return None;
    }
    let r = (minx as u32, miny as u32, (maxx - minx + 1) as u32, (maxy - miny + 1) as u32);
    proof {
        assert(opaque_at(g, wi, minx as int, wminx));
        assert(opaque_at(g, wi, (minx + (maxx - minx + 1) - 1) as int, wmaxx));
        assert(opaque_at(g, wi, wminy, miny as int));
        assert(opaque_at(g, wi, wmaxy, (miny + (maxy - miny + 1) - 1) as int));
        assert(is_trim_box(g, wi, h as int, r));
        let c = choose|b: (u32, u32, u32, u32)| is_trim_box(g, wi, h as int, b);
        law_trim_box_unique(g, wi, h as int, r, c);
    }
    Some(r)
}

/// Number of pixels among the first `n` whose channel `c` equals `v`.
pub open spec fn channel_count(rgba: Seq<u8>, c: int, v: int, n: int) -> nat
    decreases n,
{
    if n <= 0 {
        0
    } else {
        channel_count(rgba, c, v, n - 1) + if rgba[(n - 1) * 4 + c] == v {
            1nat
        } else {
            0nat
        }
    }
}

/// Red, green and blue histograms of an RGBA8 buffer (256 bins each).
pub struct Histogram {
    pub r: Vec<u32>,
    pub g: Vec<u32>,
    pub b: Vec<u32>,
}

fn bump(v: &mut Vec<u32>, i: usize)
    requires
        i < old(v)@.len(),
        old(v)@[i as int] < u32::MAX,
    ensures
        final(v)@ == old(v)@.update(i as int, (old(v)@[i as int] + 1) as u32),
{
    let c = v[i];
    v.set(i, c + 1);
}

/// Red, green and blue histograms of every pixel of `rgba`.
pub fn histogram_rgb(rgba: &[u8]) -> (h: Histogram)
    requires
        rgba@.len() % 4 == 0,
        rgba@.len() / 4 <= u32::MAX,
    ensures
        h.r@.len() == 256 && h.g@.len() == 256 && h.b@.len() == 256,
        forall|v: int| 0 <= v < 256 ==> #[trigger] h.r@[v] == channel_count(rgba@, 0, v, (rgba@.len() / 4) as int),
        forall|v: int| 0 <= v < 256 ==> #[trigger] h.g@[v] == channel_count(rgba@, 1, v, (rgba@.len() / 4) as int),
        forall|v: int| 0 <= v < 256 ==> #[trigger] h.b@[v] == channel_count(rgba@, 2, v, (rgba@.len() / 4) as int),
{
    let total = rgba.len();
    let n = total / 4;
    let mut r: Vec<u32> = Vec::new();
    let mut g: Vec<u32> = Vec::new();
    let mut b: Vec<u32> = Vec::new();
    let mut k: usize = 0;
    while k < 256
        invariant
            k <= 256,
            r@.len() == k && g@.len() == k && b@.len() == k,
            forall|v: int| 0 <= v < k ==> #[trigger] r@[v] == 0,
            forall|v: int| 0 <= v < k ==> #[trigger] g@[v] == 0,
            forall|v: int| 0 <= v < k ==> #[trigger] b@[v] == 0,
        decreases 256 - k,
    {
        r.push(0);
        g.push(0);
        b.push(0);
        k = k + 1;
    }
    let mut i: usize = 0;
    while i < n
        invariant
            n == rgba@.len() / 4,
            total == rgba@.len(),
            rgba@.len() % 4 == 0,
            n <= u32::MAX,
            i <= n,
            r@.len() == 256 && g@.len() == 256 && b@.len() == 256,
            forall|v: int| 0 <= v < 256 ==> #[trigger] r@[v] == channel_count(rgba@, 0, v, i as int),
            forall|v: int| 0 <= v < 256 ==> #[trigger] g@[v] == channel_count(rgba@, 1, v, i as int),
            forall|v: int| 0 <= v < 256 ==> #[trigger] b@[v] == channel_count(rgba@, 2, v, i as int),
        decreases n - i,
    {
        assert(i * 4 + 3 < rgba@.len()) by (nonlinear_arith)
            requires
                i < n,
                n == rgba@.len() / 4,
                rgba@.len() % 4 == 0,
        ;
        proof {
            lemma_channel_count_bound(rgba@, 0, rgba@[(i * 4) as int] as int, i as int);
            lemma_channel_count_bound(rgba@, 1, rgba@[(i * 4 + 1) as int] as int, i as int);
            lemma_channel_count_bound(rgba@, 2, rgba@[(i * 4 + 2) as int] as int, i as int);
        }
        let cr = rgba[i * 4] as usize;
        let cg = rgba[i * 4 + 1] as usize;
        let cb = rgba[i * 4 + 2] as usize;
        bump(&mut r, cr);
        bump(&mut g, cg);
        bump(&mut b, cb);
        i = i + 1;
    }
    Histogram { r, g, b }
}

proof fn lemma_channel_count_bound(rgba: Seq<u8>, c: int, v: int, n: int)
    requires
        n >= 0,
    ensures
        channel_count(rgba, c, v, n) <= n,
    decreases n,
{
    if n > 0 {
        lemma_channel_count_bound(rgba, c, v, n - 1);
    }
}

/// Mask coverage (0 hidden, 255 visible) that a one-click cutout gives a
/// pixel whose background membership is `membership` (255 fully
/// background) and whose coverage is `existing`: removing lowers the
/// coverage to `255 - membership`, restoring raises it to `membership`,
/// and neither ever goes the other way. `None` when nothing changes.
pub open spec fn cutout_coverage_spec(membership: u8, existing: u8, restore: bool) -> Option<u8> {
    let new: int = if restore {
        if membership > existing { membership as int } else { existing as int }
    } else {
        if 255 - membership < existing { 255 - membership } else { existing as int }
    };
    if new == existing { None } else { Some(new as u8) }
}

/// Successive cutout clicks are cumulative and never step back: removing
/// only lowers a pixel's coverage, restoring only raises it, and the same
/// click again changes nothing.
pub proof fn law_cutout_is_cumulative(membership: u8, existing: u8, restore: bool)
    ensures
        cutout_coverage_spec(membership, existing, restore) matches Some(c) ==> {
            &&& restore ==> c > existing
            &&& !restore ==> c < existing
            &&& cutout_coverage_spec(membership, c, restore) is None
        },
{
}

/// What a cutout click leaves at a pixel, whatever coverage it had: a
/// removal brings it down to `255 - membership` when that is lower and
/// leaves it otherwise; a restore brings it up to `membership` when that is
/// higher and leaves it otherwise. A change is reported exactly when the
/// coverage moves.
pub proof fn law_cutout_coverage_exact(membership: u8, existing: u8, restore: bool)
    ensures
        ({
            let r = cutout_coverage_spec(membership, existing, restore);
            let after: int = match r {
                Some(c) => c as int,
                None => existing as int,
            };
            &&& !restore && 255 - membership < existing ==> after == 255 - membership
            &&& !restore && 255 - membership >= existing ==> after == existing
            &&& restore && membership > existing ==> after == membership
            &&& restore && membership <= existing ==> after == existing
            &&& r is Some <==> after != existing
        }),
{
}

/// New mask coverage of a pixel under a one-click cutout, `None` when it
/// stays as it is.
pub fn cutout_coverage(membership: u8, existing: u8, restore: bool) -> (r: Option<u8>)
    ensures
        r == cutout_coverage_spec(membership, existing, restore),
{
    let new: u8 = if restore {
        if membership > existing { membership } else { existing }
    } else {
        let visible: u8 = 255 - membership;
        if visible < existing { visible } else { existing }
    };
    if new == existing { None } else { Some(new) }
}

/// One side of an image upscaled `factor` times: the product (saturating at
/// `u32::MAX`), and never below 1.
pub open spec fn upscaled_side(side: u32, factor: u32) -> u32 {
    let p = side * factor;
    if p > u32::MAX {
        u32::MAX
    } else if p < 1 {
        1
    } else {
        p as u32
    }
}

/// Calls `image::imageops::resize` with `FilterType::Lanczos3` on the
/// `RgbaImage` that `ImageBuffer::from_raw` builds from `rgba`, and hands
/// back the raw pixels. Claimed of it: the result holds `nw × nh` pixels,
/// and resizing to the same size copies the pixels unchanged (the crate
/// copies instead of resampling). The resampled values themselves are left
/// unsaid: the Lanczos3 kernel goes through `f32::sin`, whose precision std
/// does not fix, so they may differ between platforms and runs.
#[verifier::external_body]
fn resize_rgba_lanczos3(w: u32, h: u32, rgba: Vec<u8>, nw: u32, nh: u32) -> (r: Vec<u8>)
    requires
        rgba@.len() == w * h * 4,
        1 <= nw,
        1 <= nh,
        nw * nh * 4 <= usize::MAX,
        w * nh * 4 <= usize::MAX,
    ensures
        r@.len() == nw * nh * 4,
        nw == w && nh == h ==> r@ == rgba@,
{
    match image::RgbaImage::from_raw(w, h, rgba) {
        Some(src) => image::imageops::resize(&src, nw, nh, image::imageops::FilterType::Lanczos3).into_raw(),
        None => Vec::new(),
    }
}

/// Why an image could not be upscaled.
#[derive(Clone, Copy, Debug, PartialEq, Eq, Structural)]
pub enum UpscaleError {
    /// A side of the result would exceed `MAX_IMAGE_SIDE`.
    TooLarge,
}

fn upscale_side(side: u32, factor: u32) -> (r: u32)
    ensures
        r == upscaled_side(side, factor),
{
    let p = match side.checked_mul(factor) {
        Some(p) => p,
        None => u32::MAX,
    };
    if p < 1 {
        1
    } else {
        p
    }
}

/// High-quality upscale of an image's native pixels (Lanczos3): each side
/// is multiplied by `factor` (at least 1 pixel), and the result is refused
/// when a side would exceed `MAX_IMAGE_SIDE`. The resampled pixel values
/// are the `image` crate's; only their count is promised.
pub fn upscale_rgba(w: u32, h: u32, rgba: Vec<u8>, factor: u32) -> (r: Result<
    (u32, u32, Vec<u8>),
    UpscaleError,
>)
    requires
        1 <= w,
        1 <= h,
        rgba@.len() == w * h * 4,
    ensures
        ({
            let nw = upscaled_side(w, factor);
            let nh = upscaled_side(h, factor);
            &&& r is Err <==> (nw > MAX_IMAGE_SIDE || nh > MAX_IMAGE_SIDE)
            &&& r matches Ok(t) ==> {
                &&& t.0 == nw
                &&& t.1 == nh
                &&& t.2@.len() == nw * nh * 4
                &&& nw == w && nh == h ==> t.2@ == rgba@
            }
        }),
{
    let total = rgba.len();
    let nw = upscale_side(w, factor);
    let nh = upscale_side(h, factor);
    if nw > MAX_IMAGE_SIDE || nh > MAX_IMAGE_SIDE {
        return Err(UpscaleError::TooLarge);
    }
    proof {
        assert(nw * nh <= MAX_IMAGE_SIDE * MAX_IMAGE_SIDE) by (nonlinear_arith)
            requires
                nw <= MAX_IMAGE_SIDE,
                nh <= MAX_IMAGE_SIDE,
        ;
        if factor == 0 {
            assert(h * factor == 0) by (nonlinear_arith)
                requires
                    factor == 0,
            ;
            assert(nh == 1);
            assert(w * nh * 4 <= w * h * 4) by (nonlinear_arith)
                requires
                    nh == 1,
                    1 <= h,
            ;
        } else {
            assert(w <= w * factor) by (nonlinear_arith)
                requires
                    1 <= factor,
                    1 <= w,
            ;
            assert(w <= nw);
            assert(w * nh <= nw * nh) by (nonlinear_arith)
                requires
                    w <= nw,
            ;
        }
        assert(nw * nh * 4 <= usize::MAX);
        assert(w * nh * 4 <= usize::MAX);
    }
    let px = resize_rgba_lanczos3(w, h, rgba, nw, nh);
    Ok((nw, nh, px))
}

} // verus!
