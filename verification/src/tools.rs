//! Tools of the tool bar, and the small mode enums that the editing actions
//! take (z-order moves, alignment, rich templates, pixel-mask actions).

use vstd::prelude::*;

verus! {

/// Tool currently driving the canvas gestures.
#[derive(Clone, Copy, Debug, PartialEq, Eq, Structural)]
pub enum ActiveTool {
    Pan,
    Eyedropper,
    Measure,
    Select,
    Brush,
    Pencil,
    Eraser,
    PixelBrush,
    PixelEraser,
    Airbrush,
    CloneStamp,
    Healing,
    Smudge,
    Blur,
    Sharpen,
    Dodge,
    Burn,
    Saturate,
    Desaturate,
    Bucket,
    Cutout,
    Gradient,
    Line,
    Rectangle,
    Ellipse,
    Pen,
    Symmetry,
    Text,
}

/// Tools that never change the content of the active layer.
pub open spec fn is_non_destructive(tool: ActiveTool) -> bool {
    tool == ActiveTool::Pan || tool == ActiveTool::Eyedropper || tool == ActiveTool::Measure
}

/// A locked layer lets through the hand, the eyedropper and the ruler, and
/// refuses every other tool: all the others (brushes, erasers, retouch
/// tools such as smudge, fills, shapes, text, selection moves) change
/// content.
pub proof fn law_lock_allows_only_viewing_tools(tool: ActiveTool)
    ensures
        tool == ActiveTool::Pan ==> is_non_destructive(tool),
        tool == ActiveTool::Eyedropper ==> is_non_destructive(tool),
        tool == ActiveTool::Measure ==> is_non_destructive(tool),
        tool != ActiveTool::Pan && tool != ActiveTool::Eyedropper && tool != ActiveTool::Measure
            ==> !is_non_destructive(tool),
        tool == ActiveTool::Smudge ==> !is_non_destructive(tool),
{
}

/// Does a locked layer block a gesture of `tool`? Only the tools that never
/// modify content (hand, eyedropper, ruler) stay allowed.
pub fn layer_lock_blocks_tool(tool: ActiveTool) -> (r: bool)
    ensures
        r == !is_non_destructive(tool),
{
    !matches!(tool, ActiveTool::Pan | ActiveTool::Eyedropper | ActiveTool::Measure)
}

/// Depth (z-order) moves of the selection.
#[derive(Clone, Copy, Debug, PartialEq, Eq, Structural)]
pub enum ZMove {
    Front,
    Forward,
    Backward,
    Back,
}

/// Alignment / distribution modes of the selection.
#[derive(Clone, Copy, Debug, PartialEq, Eq, Structural)]
pub enum AlignMode {
    Left,
    CenterH,
    Right,
    Top,
    MiddleV,
    Bottom,
    DistributeH,
    DistributeV,
}

impl AlignMode {
    /// Distribution modes need several items; they do nothing on a single
    /// layer.
    pub fn is_distribute(self) -> (r: bool)
        ensures
            r == (self == AlignMode::DistributeH || self == AlignMode::DistributeV),
    {
        matches!(self, AlignMode::DistributeH | AlignMode::DistributeV)
    }
}

/// Rich templates with pre-filled content.
#[derive(Clone, Copy, Debug, PartialEq, Eq, Structural)]
pub enum TemplateContent {
    InstagramPromo,
    FacebookBanner,
}

/// Pending action on the pixel selection mask; one shared dialog whose
/// radius parameter changes meaning with the action.
#[derive(Clone, Copy, Debug, PartialEq, Eq, Structural)]
pub enum SelectionMaskAction {
    Feather,
    Dilate,
    Contract,
    RefineEdges,
}

} // verus!
