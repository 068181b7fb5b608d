//! Whole-image moves of the painted content: mirroring it, or shifting it
//! by whole pixels, applied to every painted pixel and every mask write of
//! every layer, in the live stack and in each stored animation frame.
//! Pixel coordinates are unsigned, so a write that a move would place left
//! of or above the canvas (or past the coordinate range) leaves the layer.

use vstd::prelude::*;
use crate::document::{
    layers_view, frames_view, AnimationFrame, DocView, Document, FrameView, Layer, LayerView,
};

verus! {

/// A move of every painted pixel of the document.
#[derive(Clone, Copy, Debug, PartialEq, Eq, Structural)]
pub enum PixelMove {
    /// Mirror in a `w × h` canvas: left-right when `horizontal`, else
    /// top-bottom.
    Mirror { horizontal: bool, w: u32, h: u32 },
    /// Shift by `(dx, dy)` pixels.
    Shift { dx: i64, dy: i64 },
}

/// Where `m` takes pixel `(x, y)`, if it stays at unsigned coordinates.
pub open spec fn moved_point(m: PixelMove, x: u32, y: u32) -> Option<(u32, u32)> {
    match m {
        PixelMove::Mirror { horizontal, w, h } => {
            if horizontal {
                if x < w { Some(((w - 1 - x) as u32, y)) } else { None }
            } else {
                if y < h { Some((x, (h - 1 - y) as u32)) } else { None }
            }
        },
        PixelMove::Shift { dx, dy } => {
            let nx = x + dx;
            let ny = y + dy;
            if 0 <= nx <= u32::MAX && 0 <= ny <= u32::MAX {
                Some((nx as u32, ny as u32))
            } else {
                None
            }
        },
    }
}

/// The writes of `s` moved by `m`, in order; those it takes off the
/// coordinate range leave.
pub open spec fn moved_writes<C>(s: Seq<(u32, u32, C)>, m: PixelMove) -> Seq<(u32, u32, C)>
    decreases s.len(),
{
    if s.len() == 0 {
        Seq::empty()
    } else {
        let rest = moved_writes(s.drop_last(), m);
        let e = s.last();
        match moved_point(m, e.0, e.1) {
            Some(p) => rest.push((p.0, p.1, e.2)),
            None => rest,
        }
    }
}

/// `l` with its painted pixels and its mask moved by `m`.
pub open spec fn moved_layer(l: LayerView, m: PixelMove) -> LayerView {
    LayerView {
        raster: moved_writes(l.raster, m),
        mask: match l.mask {
            Some(k) => Some(moved_writes(k, m)),
            None => None,
        },
        ..l
    }
}

/// Every layer of `ls` moved by `m`.
pub open spec fn moved_layers(ls: Seq<LayerView>, m: PixelMove) -> Seq<LayerView> {
    ls.map_values(|l: LayerView| moved_layer(l, m))
}

/// Every frame of `fs` with its layers moved by `m`.
pub open spec fn moved_frames(fs: Seq<FrameView>, m: PixelMove) -> Seq<FrameView> {
    fs.map_values(|f: FrameView| FrameView { layers: moved_layers(f.layers, m), ..f })
}

/// `d` with all its painted content moved by `m`: the live layers and the
/// stored frames.
pub open spec fn moved_doc(d: DocView, m: PixelMove) -> DocView {
    DocView { layers: moved_layers(d.layers, m), frames: moved_frames(d.frames, m), ..d }
}

/// Where `m` takes `(x, y)`, computed.
pub fn move_point(m: PixelMove, x: u32, y: u32) -> (r: Option<(u32, u32)>)
    requires
        move_ok(m),
    ensures
        r == moved_point(m, x, y),
{
    match m {
        PixelMove::Mirror { horizontal, w, h } => {
            if horizontal {
                if x < w { Some((w - 1 - x, y)) } else { None }
            } else {
                if y < h { Some((x, h - 1 - y)) } else { None }
            }
        },
        PixelMove::Shift { dx, dy } => {
            let nx: i64 = x as i64 + dx;
            let ny: i64 = y as i64 + dy;
            if 0 <= nx && nx <= u32::MAX as i64 && 0 <= ny && ny <= u32::MAX as i64 {
                Some((nx as u32, ny as u32))
            } else {
                None
            }
        },
    }
}

/// The writes of `v` moved by `m`.
pub fn move_writes<C: Copy>(v: &Vec<(u32, u32, C)>, m: PixelMove) -> (r: Vec<(u32, u32, C)>)
    requires
        move_ok(m),
    ensures
        r@ == moved_writes(v@, m),
{
    let mut r: Vec<(u32, u32, C)> = Vec::new();
    let mut i: usize = 0;
    while i < v.len()
        invariant
            i <= v@.len(),
            r@ == moved_writes(v@.subrange(0, i as int), m),
            move_ok(m),
        decreases v@.len() - i,
    {
        let e = v[i];
        proof {
            let nxt = v@.subrange(0, i + 1);
            assert(nxt.drop_last() =~= v@.subrange(0, i as int));
            assert(nxt.last() == e);
        }
        match move_point(m, e.0, e.1) {
            Some(p) => r.push((p.0, p.1, e.2)),
            None => {},
        }
        i = i + 1;
    }
    assert(v@.subrange(0, v@.len() as int) =~= v@);
    r
}

/// Does `m` keep its shift within the bounds `move_writes` accepts?
pub open spec fn move_ok(m: PixelMove) -> bool {
    m matches PixelMove::Shift { dx, dy } ==> -0x1_0000_0000 <= dx <= 0x1_0000_0000
        && -0x1_0000_0000 <= dy <= 0x1_0000_0000
}

impl Layer {
    /// A copy of the layer with its painted pixels and mask moved by `m`.
    pub fn moved(&self, m: PixelMove) -> (r: Layer)
        requires
            move_ok(m),
        ensures
            r@ == moved_layer(self@, m),
    {
        let mut r = self.copy();
        r.raster = move_writes(&self.raster, m);
        r.mask = match &self.mask {
            Some(k) => Some(move_writes(k, m)),
            None => None,
        };
        r
    }
}

/// Copies of `v` with their painted content moved by `m`.
pub fn move_layers(v: &Vec<Layer>, m: PixelMove) -> (r: Vec<Layer>)
    requires
        move_ok(m),
    ensures
        layers_view(r@) == moved_layers(layers_view(v@), m),
{
    let mut r: Vec<Layer> = Vec::new();
    let mut i: usize = 0;
    while i < v.len()
        invariant
            i <= v@.len(),
            move_ok(m),
            r@.len() == i,
            forall|k: int| 0 <= k < i ==> #[trigger] r@[k]@ == moved_layer(v@[k]@, m),
        decreases v@.len() - i,
    {
        r.push(v[i].moved(m));
        i = i + 1;
    }
    assert(layers_view(r@) =~= moved_layers(layers_view(v@), m));
    r
}

/// Copies of `v` with the painted content of their layers moved by `m`.
pub fn move_frames(v: &Vec<AnimationFrame>, m: PixelMove) -> (r: Vec<AnimationFrame>)
    requires
        move_ok(m),
    ensures
        frames_view(r@) == moved_frames(frames_view(v@), m),
{
    let mut r: Vec<AnimationFrame> = Vec::new();
    let mut i: usize = 0;
    while i < v.len()
        invariant
            i <= v@.len(),
            move_ok(m),
            r@.len() == i,
            forall|k: int| 0 <= k < i ==> #[trigger] r@[k]@ == (FrameView { layers: moved_layers(v@[k]@.layers, m), ..v@[k]@ }),
        decreases v@.len() - i,
    {
        let f = AnimationFrame { layers: move_layers(&v[i].layers, m), delay_ms: v[i].delay_ms };
        r.push(f);
        i = i + 1;
    }
    assert(frames_view(r@) =~= moved_frames(frames_view(v@), m));
    r
}

impl Document {
    /// A copy of the document with all its painted content moved by `m`.
    pub fn moved(&self, m: PixelMove) -> (r: Document)
        requires
            move_ok(m),
        ensures
            r@ == moved_doc(self@, m),
    {
        Document {
            size: self.size,
            layers: move_layers(&self.layers, m),
            active_layer: self.active_layer,
            next_layer_id: self.next_layer_id,
            frames: move_frames(&self.frames, m),
            active_frame: self.active_frame,
        }
    }
}

/// Mirroring twice the same way gives back every write that lay inside the
/// canvas.
pub proof fn law_mirror_twice<C>(s: Seq<(u32, u32, C)>, horizontal: bool, w: u32, h: u32)
    requires
        forall|i: int| 0 <= i < s.len() ==> (#[trigger] s[i]).0 < w && s[i].1 < h,
    ensures
        moved_writes(
            moved_writes(s, PixelMove::Mirror { horizontal, w, h }),
            PixelMove::Mirror { horizontal, w, h },
        ) == s,
    decreases s.len(),
{
    let m = PixelMove::Mirror { horizontal, w, h };
    if s.len() > 0 {
        let t = s.drop_last();
        assert forall|i: int| 0 <= i < t.len() implies (#[trigger] t[i]).0 < w && t[i].1 < h by {
            assert(t[i] == s[i]);
        }
        law_mirror_twice(t, horizontal, w, h);
        let once = moved_writes(s, m);
        let e = s.last();
        assert(s[s.len() - 1] == e);
        assert(once == moved_writes(t, m).push(match moved_point(m, e.0, e.1) {
            Some(p) => (p.0, p.1, e.2),
            None => e,
        }));
        assert(once.drop_last() =~= moved_writes(t, m));
        assert(s =~= t.push(e));
    }
}

} // verus!
