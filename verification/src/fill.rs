//! Flood fill: the connected region of a captured RGBA8 image whose colour
//! is close to the clicked pixel, and the paint bucket that paints the
//! document pixels falling in that region on the active layer, as one
//! undoable step; and the one-click cutout, which writes the coverage of
//! the active layer's painted mask from the same kind of capture.

use vstd::prelude::*;
use crate::document::{copy_coverage, copy_layers, layers_view, mask_coverage, coverage_in, DocView, LayerView};
use crate::raster::{cutout_coverage, cutout_coverage_spec};
use crate::editor::{records_edit, records_label, PaintApp};
use crate::history::Command;
use crate::i18n::{t, t_spec};
use crate::text::{decimal_spec, decimal_string};

verus! {

/// Absolute difference of two channel values.
pub open spec fn channel_diff(a: u8, b: u8) -> int {
    if a >= b {
        a - b
    } else {
        b - a
    }
}

/// Pixel `i` of `region` is within `tol` of pixel `s` on each of the four
/// channels.
pub open spec fn close_to(region: Seq<u8>, s: int, i: int, tol: u8) -> bool {
    &&& channel_diff(region[4 * i], region[4 * s]) <= tol
    &&& channel_diff(region[4 * i + 1], region[4 * s + 1]) <= tol
    &&& channel_diff(region[4 * i + 2], region[4 * s + 2]) <= tol
    &&& channel_diff(region[4 * i + 3], region[4 * s + 3]) <= tol
}

/// Pixels `a` and `b` of an image `rw` pixels wide holding `n` pixels (row
/// by row) are side by side or one above the other.
pub open spec fn adjacent(rw: int, n: int, a: int, b: int) -> bool {
    ||| a > 0 && a % rw != 0 && b == a - 1
    ||| a + 1 < n && (a + 1) % rw != 0 && b == a + 1
    ||| a >= rw && b == a - rw
    ||| a + rw < n && b == a + rw
}

/// `p` is a path of neighbouring pixels from the seed `s`, each close in
/// colour to the seed.
pub open spec fn is_flood_path(region: Seq<u8>, rw: int, n: int, s: int, tol: u8, p: Seq<int>) -> bool {
    &&& p.len() >= 1
    &&& p[0] == s
    &&& forall|k: int| 0 <= k < p.len() ==> 0 <= #[trigger] p[k] < n && close_to(region, s, p[k], tol)
    &&& forall|k: int| 0 <= k < p.len() - 1 ==> #[trigger] adjacent(rw, n, p[k], p[k + 1])
}

/// Pixel `i` is reached from the seed `s` by such a path.
pub open spec fn flood_reaches(region: Seq<u8>, rw: int, n: int, s: int, tol: u8, i: int) -> bool {
    exists|p: Seq<int>| #[trigger] is_flood_path(region, rw, n, s, tol, p) && p.last() == i
}

/// Flood mask of a `rw × rh` RGBA8 image from the pixel `(cx, cy)`: true
/// for the pixels connected to it (side by side or one above the other)
/// through pixels whose colour is within `tol` of its colour on every
/// channel.
pub open spec fn flood_spec(region: Seq<u8>, rw: int, rh: int, cx: int, cy: int, tol: u8) -> Seq<bool> {
    Seq::new(
        (rw * rh) as nat,
        |i: int| flood_reaches(region, rw, rw * rh, cy * rw + cx, tol, i),
    )
}

/// Number of `true` in `m`.
pub open spec fn count_true(m: Seq<bool>) -> nat
    decreases m.len(),
{
    if m.len() == 0 {
        0
    } else {
        count_true(m.drop_last()) + if m.last() {
            1nat
        } else {
            0nat
        }
    }
}

proof fn lemma_count_true_bound(m: Seq<bool>)
    ensures
        count_true(m) <= m.len(),
    decreases m.len(),
{
    if m.len() > 0 {
        lemma_count_true_bound(m.drop_last());
    }
}

proof fn lemma_count_true_set(m: Seq<bool>, i: int)
    requires
        0 <= i < m.len(),
        !m[i],
    ensures
        count_true(m.update(i, true)) == count_true(m) + 1,
    decreases m.len(),
{
    let u = m.update(i, true);
    if i == m.len() - 1 {
        assert(u.drop_last() =~= m.drop_last());
    } else {
        assert(u.drop_last() =~= m.drop_last().update(i, true));
        lemma_count_true_set(m.drop_last(), i);
    }
}

/// Every close neighbour of pixel `i` is marked.
pub open spec fn closed_at(region: Seq<u8>, rw: int, n: int, s: int, tol: u8, m: Seq<bool>, i: int) -> bool {
    &&& (i > 0 && i % rw != 0 && close_to(region, s, i - 1, tol)) ==> m[i - 1]
    &&& (i + 1 < n && (i + 1) % rw != 0 && close_to(region, s, i + 1, tol)) ==> m[i + 1]
    &&& (i >= rw && close_to(region, s, i - rw, tol)) ==> m[i - rw]
    &&& (i + rw < n && close_to(region, s, i + rw, tol)) ==> m[i + rw]
}

proof fn lemma_path_extends(region: Seq<u8>, rw: int, n: int, s: int, tol: u8, p: Seq<int>, q: int)
    requires
        is_flood_path(region, rw, n, s, tol, p),
        adjacent(rw, n, p.last(), q),
        0 <= q < n,
        close_to(region, s, q, tol),
    ensures
        is_flood_path(region, rw, n, s, tol, p.push(q)),
{
    let r = p.push(q);
    assert forall|k: int| 0 <= k < r.len() implies 0 <= #[trigger] r[k] < n && close_to(region, s, r[k], tol) by {
        if k < p.len() {
            assert(r[k] == p[k]);
        }
    }
    assert forall|k: int| 0 <= k < r.len() - 1 implies #[trigger] adjacent(rw, n, r[k], r[k + 1]) by {
        if k < p.len() - 1 {
            assert(r[k] == p[k] && r[k + 1] == p[k + 1]);
        }
    }
}

proof fn lemma_closed_mask_covers_paths(
    region: Seq<u8>,
    rw: int,
    n: int,
    s: int,
    tol: u8,
    m: Seq<bool>,
    p: Seq<int>,
    k: int,
)
    requires
        m.len() == n,
        m[s],
        is_flood_path(region, rw, n, s, tol, p),
        forall|i: int| 0 <= i < n && #[trigger] m[i] ==> closed_at(region, rw, n, s, tol, m, i),
        0 <= k < p.len(),
    ensures
        m[p[k]],
    decreases k,
{
    if k > 0 {
        lemma_closed_mask_covers_paths(region, rw, n, s, tol, m, p, k - 1);
        assert(adjacent(rw, n, p[k - 1], p[k - 1 + 1]));
        assert(0 <= p[k - 1] < n);
        assert(closed_at(region, rw, n, s, tol, m, p[k - 1]));
        assert(0 <= p[k] < n && close_to(region, s, p[k], tol));
    }
}

fn channel_close(a: u8, b: u8, tol: u8) -> (r: bool)
    ensures
        r == (channel_diff(a, b) <= tol),
{
    if a >= b {
        a - b <= tol
    } else {
        b - a <= tol
    }
}

fn is_close(region: &[u8], s: usize, i: usize, tol: u8) -> (r: bool)
    requires
        4 * s + 3 < region@.len(),
        4 * i + 3 < region@.len(),
    ensures
        r == close_to(region@, s as int, i as int, tol),
{
    let _len = region.len();
    channel_close(region[4 * i], region[4 * s], tol) && channel_close(region[4 * i + 1], region[4 * s + 1], tol)
        && channel_close(region[4 * i + 2], region[4 * s + 2], tol) && channel_close(
        region[4 * i + 3],
        region[4 * s + 3],
        tol,
    )
}

/// Flood mask of a `rw × rh` RGBA8 image from the pixel `(cx, cy)`, with
/// per-channel tolerance `tol` (see `flood_spec`).
pub fn flood(region: &[u8], rw: usize, rh: usize, cx: usize, cy: usize, tol: u8) -> (r: Vec<bool>)
    requires
        region@.len() == rw * rh * 4,
        cx < rw,
        cy < rh,
    ensures
        r@ == flood_spec(region@, rw as int, rh as int, cx as int, cy as int, tol),
{
    let ghost g = region@;
    let total = region.len();
    let n = total / 4;
    proof {
        assert(n == rw * rh);
        assert(rw <= rw * rh) by (nonlinear_arith)
            requires
                cy < rh,
                0 <= cy,
                0 <= rw,
        ;
        assert(cy * rw + cx < rw * rh) by (nonlinear_arith)
            requires
                cx < rw,
                cy < rh,
        ;
        assert(0 <= cy * rw) by (nonlinear_arith)
            requires
                0 <= cy,
                0 <= rw,
        ;
    }
    let s = cy * rw + cx;
    let ghost ni = n as int;
    let ghost si = s as int;
    let ghost rwi = rw as int;
    let mut mask: Vec<bool> = Vec::new();
    let mut k: usize = 0;
    while k < n
        invariant
            k <= n,
            mask@.len() == k,
            forall|j: int| 0 <= j < k ==> !#[trigger] mask@[j],
        decreases n - k,
    {
        mask.push(false);
        k = k + 1;
    }
    proof {
        lemma_count_true_set(mask@, si);
        let p0 = seq![si];
        assert(is_flood_path(g, rwi, ni, si, tol, p0));
    }
    mask.set(s, true);
    let mut stack: Vec<usize> = Vec::new();
    stack.push(s);
    proof {
        lemma_count_true_bound(mask@);
        assert(stack@[0] == s);
        assert forall|i: int| 0 <= i < ni && #[trigger] mask@[i] implies stack@.contains(i as usize) by {
            assert(i == si);
        }
        assert forall|i: int| 0 <= i < ni && #[trigger] mask@[i] implies flood_reaches(g, rwi, ni, si, tol, i) by {
            assert(i == si);
            assert(is_flood_path(g, rwi, ni, si, tol, seq![si]));
        }
    }
    while stack.len() > 0
        invariant
            g == region@,
            total == region@.len(),
            ni == n,
            n == rw * rh,
            total == 4 * n,
            si == s,
            rwi == rw,
            s < n,
            rw > 0,
            rw <= n,
            mask@.len() == n,
            mask@[si],
            count_true(mask@) <= n,
            forall|i: int| 0 <= i < ni && #[trigger] mask@[i] ==> flood_reaches(g, rwi, ni, si, tol, i),
            forall|j: int| 0 <= j < stack@.len() ==> #[trigger] stack@[j] < n && mask@[stack@[j] as int],
            forall|j1: int, j2: int|
                0 <= j1 < j2 < stack@.len() ==> #[trigger] stack@[j1] != #[trigger] stack@[j2],
            forall|i: int|
                0 <= i < ni && #[trigger] mask@[i] && !stack@.contains(i as usize) ==> closed_at(
                    g,
                    rwi,
                    ni,
                    si,
                    tol,
                    mask@,
                    i,
                ),
        decreases 2 * (n - count_true(mask@)) + stack@.len(),
    {
        let ghost m0 = 2 * (n - count_true(mask@)) + stack@.len();
        let ghost old_stack = stack@;
        let p = stack.pop().unwrap();
        let ghost pi = p as int;
        proof {
            assert(old_stack == stack@.push(p));
            assert(!stack@.contains(p)) by {
                if stack@.contains(p) {
                    let j = choose|j: int| 0 <= j < stack@.len() && stack@[j] == p;
                    assert(old_stack[j] == old_stack[old_stack.len() - 1]);
                }
            }
            assert forall|i: int| 0 <= i < ni && #[trigger] mask@[i] && !stack@.contains(i as usize) && i != pi implies closed_at(g, rwi, ni, si, tol, mask@, i) by {
                if old_stack.contains(i as usize) {
                    let j = choose|j: int| 0 <= j < old_stack.len() && old_stack[j] == i as usize;
                    if j < stack@.len() {
                        assert(stack@[j] == i as usize);
                    }
                }
            }
        }
        let ghost path_p = choose|q: Seq<int>| #[trigger] is_flood_path(g, rwi, ni, si, tol, q) && q.last() == pi;
        proof {
            assert(mask@[pi]);
            assert(flood_reaches(g, rwi, ni, si, tol, pi));
        }
        // The four neighbours: left, right, up, down.
        let mut dir: usize = 0;
        while dir < 4
            invariant
                g == region@,
                total == region@.len(),
                ni == n,
                n == rw * rh,
                total == 4 * n,
                si == s,
                rwi == rw,
                s < n,
                rw > 0,
                rw <= n,
                p < n,
                pi == p,
                dir <= 4,
                is_flood_path(g, rwi, ni, si, tol, path_p) && path_p.last() == pi,
                mask@.len() == n,
                mask@[si],
                mask@[pi],
                count_true(mask@) <= n,
                2 * (n - count_true(mask@)) + stack@.len() + 1 <= m0,
                forall|i: int| 0 <= i < ni && #[trigger] mask@[i] ==> flood_reaches(g, rwi, ni, si, tol, i),
                forall|j: int| 0 <= j < stack@.len() ==> #[trigger] stack@[j] < n && mask@[stack@[j] as int],
                forall|j1: int, j2: int|
                    0 <= j1 < j2 < stack@.len() ==> #[trigger] stack@[j1] != #[trigger] stack@[j2],
                !stack@.contains(p),
                forall|i: int|
                    0 <= i < ni && #[trigger] mask@[i] && !stack@.contains(i as usize) && i != pi
                        ==> closed_at(g, rwi, ni, si, tol, mask@, i),
                dir >= 1 ==> ((pi > 0 && pi % rwi != 0 && close_to(g, si, pi - 1, tol)) ==> mask@[pi - 1]),
                dir >= 2 ==> ((pi + 1 < ni && (pi + 1) % rwi != 0 && close_to(g, si, pi + 1, tol)) ==> mask@[pi + 1]),
                dir >= 3 ==> ((pi >= rwi && close_to(g, si, pi - rwi, tol)) ==> mask@[pi - rwi]),
                dir >= 4 ==> ((pi + rwi < ni && close_to(g, si, pi + rwi, tol)) ==> mask@[pi + rwi]),
            decreases 4 - dir,
        {
            let has: bool;
            let q: usize;
            if dir == 0 {
                has = p > 0 && p % rw != 0;
                q = if has { p - 1 } else { 0 };
            } else if dir == 1 {
                has = p + 1 < n && (p + 1) % rw != 0;
                q = if has { p + 1 } else { 0 };
            } else if dir == 2 {
                has = p >= rw;
                q = if has { p - rw } else { 0 };
            } else {
                has = p < n - rw;
                q = if has { p + rw } else { 0 };
            }
            if has {
                proof {
                    assert(adjacent(rwi, ni, pi, q as int));
                }
                if !mask[q] && is_close(region, s, q, tol) {
                    proof {
                        lemma_path_extends(g, rwi, ni, si, tol, path_p, q as int);
                        assert(path_p.push(q as int).last() == q as int);
                        lemma_count_true_set(mask@, q as int);
                        lemma_count_true_bound(mask@.update(q as int, true));
                        assert(!stack@.contains(q)) by {
                            if stack@.contains(q) {
                                let j = choose|j: int| 0 <= j < stack@.len() && stack@[j] == q;
                                assert(mask@[stack@[j] as int]);
                            }
                        }
                    }
                    let ghost mask_before = mask@;
                    let ghost stack_before = stack@;
                    mask.set(q, true);
                    stack.push(q);
                    proof {
                        assert(stack@ == stack_before.push(q));
                        assert(stack@[stack@.len() - 1] == q);
                        assert forall|i: int|
                            0 <= i < ni && #[trigger] mask@[i] && !stack@.contains(i as usize) && i != pi
                                implies closed_at(g, rwi, ni, si, tol, mask@, i) by {
                            assert(i != q as int);
                            assert(mask_before[i]);
                            assert(!stack_before.contains(i as usize)) by {
                                if stack_before.contains(i as usize) {
                                    let j = choose|j: int| 0 <= j < stack_before.len() && stack_before[j] == i as usize;
                                    assert(stack@[j] == i as usize);
                                }
                            }
                            assert(closed_at(g, rwi, ni, si, tol, mask_before, i));
                        }
                        assert forall|j1: int, j2: int|
                            0 <= j1 < j2 < stack@.len() implies #[trigger] stack@[j1] != #[trigger] stack@[j2] by {
                            if j2 == stack@.len() - 1 && stack@[j1] == stack@[j2] {
                                assert(stack@.drop_last().contains(q));
                                assert(stack@.drop_last()[j1] == q);
                            }
                        }
                    }
                }
            }
            dir = dir + 1;
        }
        proof {
            assert(closed_at(g, rwi, ni, si, tol, mask@, pi));
        }
    }
    proof {
        let spec_mask = flood_spec(g, rwi, rh as int, cx as int, cy as int, tol);
        assert(si == cy * rw + cx);
        assert forall|i: int| 0 <= i < ni && #[trigger] mask@[i] implies closed_at(g, rwi, ni, si, tol, mask@, i) by {
            assert(!stack@.contains(i as usize));
        }
        assert forall|i: int| 0 <= i < ni implies mask@[i] == spec_mask[i] by {
            if flood_reaches(g, rwi, ni, si, tol, i) {
                let p = choose|p: Seq<int>| #[trigger] is_flood_path(g, rwi, ni, si, tol, p) && p.last() == i;
                lemma_closed_mask_covers_paths(g, rwi, ni, si, tol, mask@, p, p.len() - 1);
            }
        }
        assert(mask@ =~= spec_mask);
    }
    mask
}

/// Document pixels `(x, y)` of the samples whose captured pixel (third
/// component, an index in the captured image) is in `mask`, in order.
pub open spec fn hits(mask: Seq<bool>, samples: Seq<(u32, u32, usize)>) -> Seq<(u32, u32)>
    decreases samples.len(),
{
    if samples.len() == 0 {
        Seq::empty()
    } else {
        let rest = hits(mask, samples.drop_last());
        let t = samples.last();
        if mask[t.2 as int] {
            rest.push((t.0, t.1))
        } else {
            rest
        }
    }
}

/// Pixel writes painting each of `pts` with `color`.
pub open spec fn pixel_writes(pts: Seq<(u32, u32)>, color: [u8; 4]) -> Seq<(u32, u32, [u8; 4])> {
    pts.map_values(|p: (u32, u32)| (p.0, p.1, color))
}

/// `d` with the pixels `pts` of its active layer painted `color`.
pub open spec fn with_pixels(d: DocView, pts: Seq<(u32, u32)>, color: [u8; 4]) -> DocView {
    let a = d.active_layer;
    let l = d.layers[a];
    DocView {
        layers: d.layers.update(a, LayerView { raster: l.raster + pixel_writes(pts, color), ..l }),
        ..d
    }
}

/// Tolerance of the paint bucket, per channel.
pub const BUCKET_TOLERANCE: u8 = 36;

impl PaintApp {
    /// Paint bucket: floods the captured image `region` (`rw × rh` pixels,
    /// RGBA8, what is shown on screen) from the clicked pixel `(cx, cy)`,
    /// then paints with `fill` (opaque) every document pixel whose sample
    /// falls in the flooded area. `samples` gives, for each document pixel
    /// `(x, y)` in view, the index of the captured pixel under its centre.
    /// The painting is one undoable step; nothing happens when no sample is
    /// hit. Returns the number of pixels painted.
    pub fn bucket_fill(
        &mut self,
        region: &[u8],
        rw: usize,
        rh: usize,
        cx: usize,
        cy: usize,
        samples: &[(u32, u32, usize)],
        fill: [u8; 3],
    ) -> (count: usize)
        requires
            old(self).wf(),
            region@.len() == rw * rh * 4,
            cx < rw,
            cy < rh,
            forall|i: int|
                0 <= i < samples@.len() ==> (#[trigger] samples@[i]).2 < rw * rh && samples@[i].0
                    < old(self).doc.size.0 && samples@[i].1 < old(self).doc.size.1,
        ensures
            count > 0 ==> records_label(old(self).history, final(self).history, t_spec(old(self).lang, "Pot de peinture", "Paint bucket")),
            final(self).wf(),
            final(self).same_settings_and_ids(old(self)),
            final(self).selection == old(self).selection,
            ({
                let pts = hits(
                    flood_spec(region@, rw as int, rh as int, cx as int, cy as int, BUCKET_TOLERANCE),
                    samples@,
                );
                &&& count == pts.len()
                &&& count == 0 ==> {
                    &&& final(self).doc@ == old(self).doc@
                    &&& final(self).history@ == old(self).history@
                    &&& final(self).same_status(old(self))
                }
                &&& count > 0 ==> {
                    &&& final(self).doc@ == with_pixels(
                        old(self).doc@,
                        pts,
                        [fill[0], fill[1], fill[2], 255],
                    )
                    &&& records_edit(
                        old(self).history@,
                        final(self).history@,
                        old(self).doc@,
                        final(self).doc@,
                    )
                    &&& !final(self).status_error
                    &&& final(self).status matches Some(m) && m@ == t_spec(
                        old(self).lang,
                        "Zone remplie",
                        "Area filled",
                    )@ + seq![' ', '('] + decimal_spec(count as nat) + seq![' ', 'p', 'x', ')', '.']
                }
            }),
    {
        let mask = flood(region, rw, rh, cx, cy, BUCKET_TOLERANCE);
        let ghost fm = mask@;
        let mut pts: Vec<(u32, u32)> = Vec::new();
        let mut i: usize = 0;
        while i < samples.len()
            invariant
                mask@ == fm,
                fm.len() == rw * rh,
                i <= samples@.len(),
                pts@ == hits(fm, samples@.subrange(0, i as int)),
                forall|j: int| 0 <= j < samples@.len() ==> (#[trigger] samples@[j]).2 < rw * rh,
            decreases samples@.len() - i,
        {
            let t = samples[i];
            proof {
                let nxt = samples@.subrange(0, i + 1);
                assert(nxt.drop_last() =~= samples@.subrange(0, i as int));
                assert(nxt.last() == t);
            }
            if mask[t.2] {
                pts.push((t.0, t.1));
            }
            i = i + 1;
        }
        assert(samples@.subrange(0, samples@.len() as int) =~= samples@);
        let count = pts.len();
        if count == 0 {
            return 0;
        }
        let color: [u8; 4] = [fill[0], fill[1], fill[2], 255];
        let a = self.doc.active_layer;
        let ghost d = self.doc@;
        let ghost l = d.layers[a as int];
        let before = copy_layers(&self.doc.layers);
        let mut after = copy_layers(&self.doc.layers);
        assert(layers_view(after@)[a as int] == after@[a as int]@);
        let mut layer = after[a].copy();
        let mut j: usize = 0;
        while j < pts.len()
            invariant
                j <= pts@.len(),
                layer.raster@ == l.raster + pixel_writes(pts@.subrange(0, j as int), color),
                layer@ == (LayerView { raster: layer.raster@, ..l }),
            decreases pts@.len() - j,
        {
            let p = pts[j];
            layer.raster.push((p.0, p.1, color));
            j = j + 1;
            assert(pixel_writes(pts@.subrange(0, j as int), color) =~= pixel_writes(
                pts@.subrange(0, j - 1),
                color,
            ).push((p.0, p.1, color)));
            assert(layer.raster@ =~= l.raster + pixel_writes(pts@.subrange(0, j as int), color));
        }
        assert(pts@.subrange(0, pts@.len() as int) =~= pts@);
        let ghost lv = layer@;
        let ghost cur = layers_view(after@);
        after.set(a, layer);
        assert(layers_view(after@) =~= cur.update(a as int, lv));
        let cmd = Command::SetLayers { before, before_active: a, after, after_active: a, label: t(self.lang, "Pot de peinture", "Paint bucket") };
        self.record(cmd);
        assert(self.doc@.layers =~= with_pixels(d, pts@, color).layers);
        proof {
            reveal_strlit(" (");
            reveal_strlit(" px).");
            assert(" ("@ =~= seq![' ', '(']);
            assert(" px)."@ =~= seq![' ', 'p', 'x', ')', '.']);
        }
        let mut msg = String::from_str(t(self.lang, "Zone remplie", "Area filled"));
        msg.append(" (");
        let num = decimal_string(count as u64);
        msg.append(num.as_str());
        msg.append(" px).");
        self.info(msg);
        count
    }
}

/// Mask writes of a one-click cutout: for each sample in order, the new
/// coverage of its document pixel where the cutout rule changes it, judged
/// against `mask` as it was before the click. `membership` gives, for each
/// captured pixel, how much it belongs to the background (255 fully).
pub open spec fn cutout_writes(
    membership: Seq<u8>,
    samples: Seq<(u32, u32, usize)>,
    mask: Option<Seq<(u32, u32, u8)>>,
    restore: bool,
) -> Seq<(u32, u32, u8)>
    decreases samples.len(),
{
    if samples.len() == 0 {
        Seq::empty()
    } else {
        let rest = cutout_writes(membership, samples.drop_last(), mask, restore);
        let t = samples.last();
        match cutout_coverage_spec(membership[t.2 as int], mask_coverage(mask, t.0, t.1), restore) {
            Some(c) => rest.push((t.0, t.1, c)),
            None => rest,
        }
    }
}

/// `d` with `writes` added to the mask of its active layer, which gets an
/// empty (fully visible) mask first when it has none.
pub open spec fn with_mask_writes(d: DocView, writes: Seq<(u32, u32, u8)>) -> DocView {
    let a = d.active_layer;
    let l = d.layers[a];
    let base = match l.mask {
        Some(m) => m,
        None => Seq::empty(),
    };
    DocView { layers: d.layers.update(a, LayerView { mask: Some(base + writes), ..l }), ..d }
}

/// Each write of a cutout moves its pixel the one way: below its coverage
/// before the click when removing, above it when restoring.
proof fn lemma_cutout_writes_one_way(
    membership: Seq<u8>,
    samples: Seq<(u32, u32, usize)>,
    mask: Option<Seq<(u32, u32, u8)>>,
    restore: bool,
)
    ensures
        ({
            let w = cutout_writes(membership, samples, mask, restore);
            forall|i: int| 0 <= i < w.len() ==> {
                let e = #[trigger] w[i];
                &&& restore ==> e.2 > mask_coverage(mask, e.0, e.1)
                &&& !restore ==> e.2 < mask_coverage(mask, e.0, e.1)
            }
        }),
    decreases samples.len(),
{
    if samples.len() > 0 {
        lemma_cutout_writes_one_way(membership, samples.drop_last(), mask, restore);
        let t = samples.last();
        crate::raster::law_cutout_is_cumulative(membership[t.2 as int], mask_coverage(mask, t.0, t.1), restore);
        let rest = cutout_writes(membership, samples.drop_last(), mask, restore);
        let w = cutout_writes(membership, samples, mask, restore);
        assert forall|i: int| 0 <= i < w.len() implies {
            let e = #[trigger] w[i];
            &&& restore ==> e.2 > mask_coverage(mask, e.0, e.1)
            &&& !restore ==> e.2 < mask_coverage(mask, e.0, e.1)
        } by {
            if i < rest.len() {
                assert(w[i] == rest[i]);
            }
        }
    }
}

/// Writes that all move pixel `(x, y)` the one way from `c0`, appended to
/// a mask where it has coverage `c0`, leave it on that side of `c0`.
proof fn lemma_coverage_after_writes(
    base: Seq<(u32, u32, u8)>,
    w: Seq<(u32, u32, u8)>,
    x: u32,
    y: u32,
    restore: bool,
    c0: u8,
)
    requires
        coverage_in(base, x, y) == c0,
        forall|i: int| 0 <= i < w.len() && (#[trigger] w[i]).0 == x && w[i].1 == y ==> {
            &&& restore ==> w[i].2 >= c0
            &&& !restore ==> w[i].2 <= c0
        },
    ensures
        restore ==> coverage_in(base + w, x, y) >= c0,
        !restore ==> coverage_in(base + w, x, y) <= c0,
    decreases w.len(),
{
    if w.len() == 0 {
        assert(base + w =~= base);
    } else {
        let s = base + w;
        assert(s.drop_last() =~= base + w.drop_last());
        assert(s.last() == w[w.len() - 1]);
        assert forall|i: int| 0 <= i < w.drop_last().len() && (#[trigger] w.drop_last()[i]).0 == x && w.drop_last()[i].1 == y implies {
            &&& restore ==> w.drop_last()[i].2 >= c0
            &&& !restore ==> w.drop_last()[i].2 <= c0
        } by {
            assert(w.drop_last()[i] == w[i]);
        }
        lemma_coverage_after_writes(base, w.drop_last(), x, y, restore, c0);
    }
}

/// A cutout click moves every pixel of the active layer's mask the one way
/// (removing never raises coverage, restoring never lowers it), and changes
/// nothing but that mask: the layer's pixels and elements and every other
/// layer stay as they were.
pub proof fn law_cutout_one_way(
    d: DocView,
    membership: Seq<u8>,
    samples: Seq<(u32, u32, usize)>,
    restore: bool,
    x: u32,
    y: u32,
)
    requires
        0 <= d.active_layer < d.layers.len(),
    ensures
        ({
            let a = d.active_layer;
            let l = d.layers[a];
            let d1 = with_mask_writes(d, cutout_writes(membership, samples, l.mask, restore));
            let c0 = mask_coverage(l.mask, x, y);
            let c1 = mask_coverage(d1.layers[a].mask, x, y);
            &&& restore ==> c1 >= c0
            &&& !restore ==> c1 <= c0
            &&& d1.layers.len() == d.layers.len()
            &&& forall|j: int| 0 <= j < d.layers.len() && j != a ==> d1.layers[j] == d.layers[j]
            &&& d1.layers[a] == (LayerView { mask: d1.layers[a].mask, ..l })
        }),
{
    let a = d.active_layer;
    let l = d.layers[a];
    let w = cutout_writes(membership, samples, l.mask, restore);
    let c0 = mask_coverage(l.mask, x, y);
    lemma_cutout_writes_one_way(membership, samples, l.mask, restore);
    let base = match l.mask {
        Some(m) => m,
        None => Seq::<(u32, u32, u8)>::empty(),
    };
    assert(coverage_in(base, x, y) == c0);
    assert forall|i: int| 0 <= i < w.len() && (#[trigger] w[i]).0 == x && w[i].1 == y implies {
        &&& restore ==> w[i].2 >= c0
        &&& !restore ==> w[i].2 <= c0
    } by {
        let e = w[i];
    }
    lemma_coverage_after_writes(base, w, x, y, restore, c0);
}

/// Coverage of pixel `(x, y)` under `mask` (255 where nothing was written
/// or there is no mask).
pub fn mask_coverage_of(mask: &Option<Vec<(u32, u32, u8)>>, x: u32, y: u32) -> (r: u8)
    ensures
        r == mask_coverage(crate::document::opt_mask_view(*mask), x, y),
{
    match mask {
        None => 255,
        Some(m) => {
            assert(mask_coverage(crate::document::opt_mask_view(*mask), x, y) == coverage_in(m@, x, y));
            let mut i: usize = m.len();
            assert(m@.subrange(0, i as int) =~= m@);
            while i > 0
                invariant
                    i <= m@.len(),
                    mask_coverage(crate::document::opt_mask_view(*mask), x, y) == coverage_in(m@, x, y),
                    coverage_in(m@, x, y) == coverage_in(m@.subrange(0, i as int), x, y),
                decreases i,
            {
                let ghost pre = m@.subrange(0, i as int);
                assert(pre.drop_last() =~= m@.subrange(0, i - 1));
                let (px, py, c) = m[i - 1];
                assert(pre.last() == (px, py, c));
                if px == x && py == y {
                    assert(coverage_in(pre, x, y) == c);
                    return c;
                }
                i = i - 1;
            }
            255
        }
    }
}

impl PaintApp {
    /// One-click cutout of the active layer: `flooded` is the region of the
    /// captured image (`rw × rh` pixels) flooded from the clicked pixel, and
    /// `membership` how much each captured pixel belongs to the background
    /// (255 fully), its soft edge. Each sampled document pixel (see
    /// `bucket_fill` for `samples`) gets the mask coverage that
    /// `cutout_coverage` gives it against the mask as it was before the
    /// click: removing only lowers coverage, restoring (`restore`, the
    /// Alt-click) only raises it, so successive clicks are cumulative. The
    /// writes go to the active layer's mask, created empty when it has none,
    /// as one undoable step. Restoring without a mask, or an empty flood,
    /// only leaves an information message. Returns the number of pixels
    /// written.
    pub fn cutout(
        &mut self,
        flooded: &[bool],
        membership: &[u8],
        rw: usize,
        rh: usize,
        samples: &[(u32, u32, usize)],
        restore: bool,
    ) -> (count: usize)
        requires
            old(self).wf(),
            flooded@.len() == rw * rh,
            membership@.len() == rw * rh,
            forall|i: int|
                0 <= i < samples@.len() ==> (#[trigger] samples@[i]).2 < rw * rh && samples@[i].0
                    < old(self).doc.size.0 && samples@[i].1 < old(self).doc.size.1,
        ensures
            final(self).wf(),
            final(self).same_settings_and_ids(old(self)),
            final(self).selection == old(self).selection,
            ({
                let d = old(self).doc@;
                let mask = d.layers[d.active_layer].mask;
                let no_restore = restore && mask is None;
                let nothing = !no_restore && (forall|i: int| 0 <= i < flooded@.len() ==> !flooded@[i]);
                let writes = cutout_writes(membership@, samples@, mask, restore);
                &&& count == (if no_restore || nothing { 0 } else { writes.len() })
                &&& count == 0 ==> {
                    &&& final(self).doc@ == d
                    &&& final(self).history@ == old(self).history@
                }
                &&& no_restore ==> !final(self).status_error && (final(self).status matches Some(m)
                    && m@ == t_spec(
                    old(self).lang,
                    "Détourage : rien à restaurer (pas de masque).",
                    "Cutout: nothing to restore (no mask yet).",
                )@)
                &&& nothing ==> !final(self).status_error && (final(self).status matches Some(m)
                    && m@ == t_spec(
                    old(self).lang,
                    "Détourage : rien à retirer ici.",
                    "Cutout: nothing to remove here.",
                )@)
                &&& !no_restore && !nothing && count == 0 ==> final(self).same_status(old(self))
                &&& count > 0 ==> {
                    &&& final(self).doc@ == with_mask_writes(d, writes)
                    &&& records_edit(old(self).history@, final(self).history@, d, final(self).doc@)
                    &&& records_label(old(self).history, final(self).history, t_spec(old(self).lang, "Détourage", "Cutout"))
                    &&& !final(self).status_error
                    &&& final(self).status matches Some(m) && m@ == t_spec(
                        old(self).lang,
                        "Détourage appliqué",
                        "Cutout applied",
                    )@ + seq![' ', '('] + decimal_spec(count as nat) + seq![' ', 'p', 'x', ')', '.']
                }
            }),
    {
        let a = self.doc.active_layer;
        let ghost d = self.doc@;
        let ghost l = d.layers[a as int];
        assert(layers_view(self.doc.layers@)[a as int] == self.doc.layers@[a as int]@);
        if restore && self.doc.layers[a].mask.is_none() {
            self.info(String::from_str(t(
                self.lang,
                "Détourage : rien à restaurer (pas de masque).",
                "Cutout: nothing to restore (no mask yet).",
            )));
            return 0;
        }
        let mut any = false;
        let mut k: usize = 0;
        while k < flooded.len()
            invariant
                k <= flooded@.len(),
                any == (exists|i: int| 0 <= i < k && flooded@[i]),
            decreases flooded@.len() - k,
        {
            if flooded[k] {
                any = true;
            }
            k = k + 1;
        }
        if !any {
            self.info(String::from_str(t(
                self.lang,
                "Détourage : rien à retirer ici.",
                "Cutout: nothing to remove here.",
            )));
            return 0;
        }
        let ghost mv = l.mask;
        let mut writes: Vec<(u32, u32, u8)> = Vec::new();
        let mut i: usize = 0;
        while i < samples.len()
            invariant
                a == self.doc.active_layer,
                a < self.doc.layers@.len(),
                self.doc.layers@[a as int]@.mask == mv,
                membership@.len() == rw * rh,
                i <= samples@.len(),
                writes@ == cutout_writes(membership@, samples@.subrange(0, i as int), mv, restore),
                forall|j: int| 0 <= j < samples@.len() ==> (#[trigger] samples@[j]).2 < rw * rh,
            decreases samples@.len() - i,
        {
            let t = samples[i];
            proof {
                let nxt = samples@.subrange(0, i + 1);
                assert(nxt.drop_last() =~= samples@.subrange(0, i as int));
                assert(nxt.last() == t);
            }
            let existing = mask_coverage_of(&self.doc.layers[a].mask, t.0, t.1);
            match cutout_coverage(membership[t.2], existing, restore) {
                Some(c) => writes.push((t.0, t.1, c)),
                None => {},
            }
            i = i + 1;
        }
        assert(samples@.subrange(0, samples@.len() as int) =~= samples@);
        let count = writes.len();
        if count == 0 {
            return 0;
        }
        let before = copy_layers(&self.doc.layers);
        let mut after = copy_layers(&self.doc.layers);
        assert(layers_view(after@)[a as int] == after@[a as int]@);
        let mut layer = after[a].copy();
        let mut nm: Vec<(u32, u32, u8)> = match &layer.mask {
            Some(m) => copy_coverage(m),
            None => Vec::new(),
        };
        let ghost base = nm@;
        assert(base == (match l.mask {
            Some(m) => m,
            None => Seq::<(u32, u32, u8)>::empty(),
        }));
        let mut j: usize = 0;
        while j < writes.len()
            invariant
                j <= writes@.len(),
                nm@ == base + writes@.subrange(0, j as int),
            decreases writes@.len() - j,
        {
            nm.push(writes[j]);
            j = j + 1;
            assert(nm@ =~= base + writes@.subrange(0, j as int));
        }
        assert(writes@.subrange(0, writes@.len() as int) =~= writes@);
        layer.mask = Some(nm);
        let ghost lv = layer@;
        assert(lv == (LayerView { mask: Some(base + writes@), ..l }));
        let ghost cur = layers_view(after@);
        after.set(a, layer);
        assert(layers_view(after@) =~= cur.update(a as int, lv));
        let cmd = Command::SetLayers { before, before_active: a, after, after_active: a, label: t(self.lang, "Détourage", "Cutout") };
        self.record(cmd);
        assert(self.doc@.layers =~= with_mask_writes(d, writes@).layers);
        proof {
            reveal_strlit(" (");
            reveal_strlit(" px).");
            assert(" ("@ =~= seq![' ', '(']);
            assert(" px)."@ =~= seq![' ', 'p', 'x', ')', '.']);
        }
        let mut msg = String::from_str(t(self.lang, "Détourage appliqué", "Cutout applied"));
        msg.append(" (");
        let num = decimal_string(count as u64);
        msg.append(num.as_str());
        msg.append(" px).");
        self.info(msg);
        count
    }
}

} // verus!
