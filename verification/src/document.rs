//! The document model: a stack of layers (each holding the ids of its vector
//! elements in z order), an active layer, optional animation frames, and the
//! canvas size. Each type has a mathematical view on which the contracts
//! are written.

use vstd::prelude::*;
use crate::i18n::{t, Lang};
use crate::text::{decimal_string, decimal_spec};

verus! {

/// Largest accepted side of a document, in pixels.
pub const MAX_IMAGE_SIDE: u32 = 16384;

/// Bounds both dimensions of a document to `1..=MAX_IMAGE_SIDE`, so that no
/// user input can request an unbounded allocation.
pub fn clamp_doc_dims(w: u32, h: u32) -> (r: (u32, u32))
    ensures
        r.0 == clamp_side(w),
        r.1 == clamp_side(h),
{
    (clamp_one(w), clamp_one(h))
}

/// `v` clamped to `1..=MAX_IMAGE_SIDE`.
pub open spec fn clamp_side(v: u32) -> u32 {
    if v < 1 {
        1
    } else if v > MAX_IMAGE_SIDE {
        MAX_IMAGE_SIDE
    } else {
        v
    }
}

fn clamp_one(v: u32) -> (r: u32)
    ensures
        r == clamp_side(v),
{
    if v < 1 {
        1
    } else if v > MAX_IMAGE_SIDE {
        MAX_IMAGE_SIDE
    } else {
        v
    }
}

/// Mathematical value of an optional string.
pub open spec fn opt_str_view(o: Option<String>) -> Option<Seq<char>> {
    match o {
        Some(s) => Some(s@),
        None => None,
    }
}

/// One layer of the stack.
pub struct Layer {
    pub id: u64,
    pub name: String,
    pub visible: bool,
    /// Name of the folder this layer belongs to, if any.
    pub group: Option<String>,
    /// Ids of the strokes and shapes, bottom to top.
    pub strokes: Vec<u64>,
    /// Ids of the text blocks.
    pub texts: Vec<u64>,
    /// Ids of the placed images.
    pub images: Vec<u64>,
    /// Painted pixels `(x, y, rgba)`, in painting order: a later write to a
    /// pixel covers an earlier one.
    pub raster: Vec<(u32, u32, [u8; 4])>,
    /// Painted layer mask, if the layer has one: coverage writes `(x, y, c)`
    /// in painting order (0 hidden, 255 visible; a later write to a pixel
    /// covers an earlier one, and a pixel never written is fully visible).
    pub mask: Option<Vec<(u32, u32, u8)>>,
    /// A locked layer refuses the gestures that would change its content.
    pub locked: bool,
}

/// Value of a layer.
pub struct LayerView {
    pub id: u64,
    pub name: Seq<char>,
    pub visible: bool,
    pub group: Option<Seq<char>>,
    pub strokes: Seq<u64>,
    pub texts: Seq<u64>,
    pub images: Seq<u64>,
    pub raster: Seq<(u32, u32, [u8; 4])>,
    pub mask: Option<Seq<(u32, u32, u8)>>,
    pub locked: bool,
}

/// Value of an optional mask.
pub open spec fn opt_mask_view(o: Option<Vec<(u32, u32, u8)>>) -> Option<Seq<(u32, u32, u8)>> {
    match o {
        Some(m) => Some(m@),
        None => None,
    }
}

/// Coverage of pixel `(x, y)` under `mask`: the last write to it; fully
/// visible (255) where nothing was written or there is no mask.
pub open spec fn mask_coverage(mask: Option<Seq<(u32, u32, u8)>>, x: u32, y: u32) -> u8 {
    match mask {
        None => 255,
        Some(m) => coverage_in(m, x, y),
    }
}

/// Last coverage written to `(x, y)` in `m`, 255 when none.
pub open spec fn coverage_in(m: Seq<(u32, u32, u8)>, x: u32, y: u32) -> u8
    decreases m.len(),
{
    if m.len() == 0 {
        255
    } else if m.last().0 == x && m.last().1 == y {
        m.last().2
    } else {
        coverage_in(m.drop_last(), x, y)
    }
}

impl View for Layer {
    type V = LayerView;

    open spec fn view(&self) -> LayerView {
        LayerView {
            id: self.id,
            name: self.name@,
            visible: self.visible,
            group: opt_str_view(self.group),
            strokes: self.strokes@,
            texts: self.texts@,
            images: self.images@,
            raster: self.raster@,
            mask: opt_mask_view(self.mask),
            locked: self.locked,
        }
    }
}

/// A fresh, empty, visible layer.
pub open spec fn new_layer_view(id: u64, name: Seq<char>) -> LayerView {
    LayerView {
        id,
        name,
        visible: true,
        group: None,
        strokes: Seq::empty(),
        texts: Seq::empty(),
        images: Seq::empty(),
        raster: Seq::empty(),
        mask: None,
        locked: false,
    }
}

/// Colour of pixel `(x, y)` painted in `raster`: the last write to it, if
/// any.
pub open spec fn pixel_at(raster: Seq<(u32, u32, [u8; 4])>, x: u32, y: u32) -> Option<[u8; 4]>
    decreases raster.len(),
{
    if raster.len() == 0 {
        None
    } else if raster.last().0 == x && raster.last().1 == y {
        Some(raster.last().2)
    } else {
        pixel_at(raster.drop_last(), x, y)
    }
}

impl LayerView {
    /// Every element id of the layer: strokes, then texts, then images.
    pub open spec fn element_ids(self) -> Seq<u64> {
        self.strokes + self.texts + self.images
    }
}

/// Values of a sequence of layers.
pub open spec fn layers_view(v: Seq<Layer>) -> Seq<LayerView> {
    v.map_values(|l: Layer| l@)
}

pub fn copy_ids(v: &Vec<u64>) -> (r: Vec<u64>)
    ensures
        r@ == v@,
{
    let mut r: Vec<u64> = Vec::new();
    let mut i: usize = 0;
    while i < v.len()
        invariant
            i <= v@.len(),
            r@ == v@.subrange(0, i as int),
        decreases v@.len() - i,
    {
        r.push(v[i]);
        i = i + 1;
        assert(r@ =~= v@.subrange(0, i as int));
    }
    assert(v@.subrange(0, v@.len() as int) =~= v@);
    r
}

/// An independent copy of painted pixels.
pub fn copy_pixels(v: &Vec<(u32, u32, [u8; 4])>) -> (r: Vec<(u32, u32, [u8; 4])>)
    ensures
        r@ == v@,
{
    let mut r: Vec<(u32, u32, [u8; 4])> = Vec::new();
    let mut i: usize = 0;
    while i < v.len()
        invariant
            i <= v@.len(),
            r@ == v@.subrange(0, i as int),
        decreases v@.len() - i,
    {
        r.push(v[i]);
        i = i + 1;
        assert(r@ =~= v@.subrange(0, i as int));
    }
    assert(v@.subrange(0, v@.len() as int) =~= v@);
    r
}

/// An independent copy of mask writes.
pub fn copy_coverage(v: &Vec<(u32, u32, u8)>) -> (r: Vec<(u32, u32, u8)>)
    ensures
        r@ == v@,
{
    let mut r: Vec<(u32, u32, u8)> = Vec::new();
    let mut i: usize = 0;
    while i < v.len()
        invariant
            i <= v@.len(),
            r@ == v@.subrange(0, i as int),
        decreases v@.len() - i,
    {
        r.push(v[i]);
        i = i + 1;
        assert(r@ =~= v@.subrange(0, i as int));
    }
    assert(v@.subrange(0, v@.len() as int) =~= v@);
    r
}

fn copy_mask(o: &Option<Vec<(u32, u32, u8)>>) -> (r: Option<Vec<(u32, u32, u8)>>)
    ensures
        opt_mask_view(r) == opt_mask_view(*o),
{
    match o {
        Some(m) => Some(copy_coverage(m)),
        None => None,
    }
}

fn copy_opt_string(o: &Option<String>) -> (r: Option<String>)
    ensures
        opt_str_view(r) == opt_str_view(*o),
{
    match o {
        Some(s) => Some(s.clone()),
        None => None,
    }
}

impl Layer {
    /// A fresh, empty, visible layer.
    pub fn new(id: u64, name: String) -> (r: Layer)
        ensures
            r@ == new_layer_view(id, name@),
    {
        let r = Layer {
            id,
            name,
            visible: true,
            group: None,
            strokes: Vec::new(),
            texts: Vec::new(),
            images: Vec::new(),
            raster: Vec::new(),
            mask: None,
            locked: false,
        };
        assert(r@.strokes =~= Seq::<u64>::empty());
        assert(r@.raster =~= Seq::<(u32, u32, [u8; 4])>::empty());
        r
    }

    /// Paints pixel `(x, y)` with `rgba`, covering what was painted there.
    pub fn set_pixel(&mut self, x: u32, y: u32, rgba: [u8; 4])
        ensures
            final(self)@ == (LayerView { raster: old(self)@.raster.push((x, y, rgba)), ..old(self)@ }),
    {
        self.raster.push((x, y, rgba));
    }

    /// Colour painted at pixel `(x, y)`, transparent black where nothing
    /// was painted.
    pub fn get_pixel(&self, x: u32, y: u32) -> (r: [u8; 4])
        ensures
            r == (match pixel_at(self@.raster, x, y) {
                Some(c) => c,
                None => [0u8, 0u8, 0u8, 0u8],
            }),
    {
        let mut i: usize = self.raster.len();
        assert(self.raster@.subrange(0, i as int) =~= self.raster@);
        while i > 0
            invariant
                i <= self.raster@.len(),
                pixel_at(self.raster@, x, y) == pixel_at(self.raster@.subrange(0, i as int), x, y),
            decreases i,
        {
            let ghost pre = self.raster@.subrange(0, i as int);
            assert(pre.drop_last() =~= self.raster@.subrange(0, i - 1));
            let (px, py, c) = self.raster[i - 1];
            if px == x && py == y {
                return c;
            }
            i = i - 1;
        }
        [0u8, 0u8, 0u8, 0u8]
    }

    /// An independent copy of the layer.
    pub fn copy(&self) -> (r: Layer)
        ensures
            r@ == self@,
    {
        Layer {
            id: self.id,
            name: self.name.clone(),
            visible: self.visible,
            group: copy_opt_string(&self.group),
            strokes: copy_ids(&self.strokes),
            texts: copy_ids(&self.texts),
            images: copy_ids(&self.images),
            raster: copy_pixels(&self.raster),
            mask: copy_mask(&self.mask),
            locked: self.locked,
        }
    }
}

/// An independent copy of a stack of layers.
pub fn copy_layers(v: &Vec<Layer>) -> (r: Vec<Layer>)
    ensures
        layers_view(r@) == layers_view(v@),
        r@.len() == v@.len(),
{
    let mut r: Vec<Layer> = Vec::new();
    let mut i: usize = 0;
    while i < v.len()
        invariant
            i <= v@.len(),
            r@.len() == i,
            forall|k: int| 0 <= k < i ==> #[trigger] r@[k]@ == v@[k]@,
        decreases v@.len() - i,
    {
        r.push(v[i].copy());
        i = i + 1;
    }
    assert(layers_view(r@) =~= layers_view(v@));
    r
}

/// One frame of an animation: a full snapshot of the layer stack.
pub struct AnimationFrame {
    pub layers: Vec<Layer>,
    /// Display time of the frame, in milliseconds.
    pub delay_ms: u32,
}

/// Value of an animation frame.
pub struct FrameView {
    pub layers: Seq<LayerView>,
    pub delay_ms: u32,
}

impl View for AnimationFrame {
    type V = FrameView;

    open spec fn view(&self) -> FrameView {
        FrameView { layers: layers_view(self.layers@), delay_ms: self.delay_ms }
    }
}

/// Default display time of a new frame, in milliseconds.
pub const DEFAULT_FRAME_DELAY_MS: u32 = 100;

/// Shortest accepted display time of a frame, in milliseconds.
pub const MIN_FRAME_DELAY_MS: u32 = 20;

impl AnimationFrame {
    /// A frame showing `layers`, with the default delay.
    pub fn new(layers: Vec<Layer>) -> (r: AnimationFrame)
        ensures
            r@ == (FrameView { layers: layers_view(layers@), delay_ms: DEFAULT_FRAME_DELAY_MS }),
    {
        AnimationFrame { layers, delay_ms: DEFAULT_FRAME_DELAY_MS }
    }

    /// An independent copy of the frame.
    pub fn copy(&self) -> (r: AnimationFrame)
        ensures
            r@ == self@,
    {
        AnimationFrame { layers: copy_layers(&self.layers), delay_ms: self.delay_ms }
    }
}

/// Values of a sequence of frames.
pub open spec fn frames_view(v: Seq<AnimationFrame>) -> Seq<FrameView> {
    v.map_values(|f: AnimationFrame| f@)
}

/// An independent copy of a sequence of frames.
pub fn copy_frames(v: &Vec<AnimationFrame>) -> (r: Vec<AnimationFrame>)
    ensures
        frames_view(r@) == frames_view(v@),
        r@.len() == v@.len(),
{
    let mut r: Vec<AnimationFrame> = Vec::new();
    let mut i: usize = 0;
    while i < v.len()
        invariant
            i <= v@.len(),
            r@.len() == i,
            forall|k: int| 0 <= k < i ==> #[trigger] r@[k]@ == v@[k]@,
        decreases v@.len() - i,
    {
        r.push(v[i].copy());
        i = i + 1;
    }
    assert(frames_view(r@) =~= frames_view(v@));
    r
}

/// The whole document.
pub struct Document {
    /// Canvas size in pixels.
    pub size: (u32, u32),
    /// Layer stack, bottom to top; for an animation, the active frame.
    pub layers: Vec<Layer>,
    pub active_layer: usize,
    /// Id given to the next new layer.
    pub next_layer_id: u64,
    /// Animation frames; empty for a still document.
    pub frames: Vec<AnimationFrame>,
    pub active_frame: usize,
}

/// Value of a document.
pub struct DocView {
    pub size: (u32, u32),
    pub layers: Seq<LayerView>,
    pub active_layer: int,
    pub next_layer_id: u64,
    pub frames: Seq<FrameView>,
    pub active_frame: int,
}

impl View for Document {
    type V = DocView;

    open spec fn view(&self) -> DocView {
        DocView {
            size: self.size,
            layers: layers_view(self.layers@),
            active_layer: self.active_layer as int,
            next_layer_id: self.next_layer_id,
            frames: frames_view(self.frames@),
            active_frame: self.active_frame as int,
        }
    }
}

/// A layer stack is usable: at least one layer, and the active index points
/// into it.
pub open spec fn stack_ok(layers: Seq<LayerView>, active: int) -> bool {
    layers.len() >= 1 && 0 <= active < layers.len()
}

impl DocView {
    /// Well-formedness: a bounded canvas, a usable layer stack, and, for an
    /// animation, an active frame in range and no empty frame.
    pub open spec fn wf(self) -> bool {
        &&& 1 <= self.size.0 <= MAX_IMAGE_SIDE
        &&& 1 <= self.size.1 <= MAX_IMAGE_SIDE
        &&& stack_ok(self.layers, self.active_layer)
        &&& self.frames.len() == 0 || 0 <= self.active_frame < self.frames.len()
        &&& forall|i: int| 0 <= i < self.frames.len() ==> #[trigger] self.frames[i].layers.len() >= 1
    }

    /// Id of the active layer.
    pub open spec fn active_id(self) -> u64 {
        self.layers[self.active_layer].id
    }
}

/// Name of the `n`-th default layer, "Calque n" / "Layer n".
pub open spec fn default_layer_name(lang: Lang, n: nat) -> Seq<char> {
    match lang {
        Lang::Fr => seq!['C', 'a', 'l', 'q', 'u', 'e', ' '] + decimal_spec(n),
        Lang::En => seq!['L', 'a', 'y', 'e', 'r', ' '] + decimal_spec(n),
    }
}

/// "Calque n" / "Layer n".
pub fn default_layer_name_string(lang: Lang, n: u64) -> (r: String)
    ensures
        r@ == default_layer_name(lang, n as nat),
{
    proof {
        reveal_strlit("Calque ");
        reveal_strlit("Layer ");
    }
    let mut s = String::from_str(t(lang, "Calque ", "Layer "));
    let d = decimal_string(n);
    s.append(d.as_str());
    proof {
        match lang {
            Lang::Fr => assert("Calque "@ =~= seq!['C', 'a', 'l', 'q', 'u', 'e', ' ']),
            Lang::En => assert("Layer "@ =~= seq!['L', 'a', 'y', 'e', 'r', ' ']),
        }
    }
    s
}

/// A new still document of the given size: a single empty layer, id 1,
/// named "Layer 1".
pub open spec fn new_doc_view(size: (u32, u32), lang: Lang) -> DocView {
    DocView {
        size,
        layers: seq![new_layer_view(1, default_layer_name(lang, 1))],
        active_layer: 0,
        next_layer_id: 2,
        frames: Seq::empty(),
        active_frame: 0,
    }
}

impl Document {
    /// A new still document of the given size.
    pub fn new(size: (u32, u32), lang: Lang) -> (r: Document)
        ensures
            r@ == new_doc_view(size, lang),
    {
        let name = default_layer_name_string(lang, 1);
        let mut layers: Vec<Layer> = Vec::new();
        layers.push(Layer::new(1, name));
        let r = Document {
            size,
            layers,
            active_layer: 0,
            next_layer_id: 2,
            frames: Vec::new(),
            active_frame: 0,
        };
        assert(r@.layers =~= new_doc_view(size, lang).layers);
        assert(r@.frames =~= Seq::<FrameView>::empty());
        r
    }

    /// An independent copy of the document.
    pub fn copy(&self) -> (r: Document)
        ensures
            r@ == self@,
    {
        Document {
            size: self.size,
            layers: copy_layers(&self.layers),
            active_layer: self.active_layer,
            next_layer_id: self.next_layer_id,
            frames: copy_frames(&self.frames),
            active_frame: self.active_frame,
        }
    }

    /// Id of the active layer.
    pub fn active_id(&self) -> (r: u64)
        requires
            self@.wf(),
        ensures
            r == self@.active_id(),
    {
        self.layers[self.active_layer].id
    }

    /// Is this an animation worth exporting (at least two frames)?
    pub fn is_animated(&self) -> (r: bool)
        ensures
            r == (self@.frames.len() >= 2),
    {
        self.frames.len() >= 2
    }
}

} // verus!
