//! Editor state that the verified actions work on: the document, its undo
//! history, the element selection, palettes, presets and the status line.

use vstd::prelude::*;
use std::collections::HashSet;
use crate::document::{clamp_doc_dims, clamp_side, Document, DocView, new_doc_view, MAX_IMAGE_SIDE};
use crate::history::{Command, CommandView, History, HistoryView};
use crate::i18n::{t, t_spec, Lang};
use crate::presets::{BatchExportState, BrandKit, ExportFormat, ExportProfile};
use crate::theme::UiTheme;
use crate::tools::ActiveTool;
use crate::clipboard::ClipBoard;
use crate::raster::{channel_count, histogram_rgb, trim_bounds, trim_box, Histogram};
use crate::text::{decimal_spec, decimal_string};
use crate::transform::{moved_doc, PixelMove};

verus! {

broadcast use vstd::std_specs::hash::group_hash_axioms;

/// "Resize image" / "Canvas size" dialog, pre-filled with the current size.
pub struct ResizeDialog {
    /// `false`: scale the content with the image; `true`: change the canvas
    /// and shift the content by the anchor.
    pub canvas_mode: bool,
    pub w: u32,
    pub h: u32,
    /// Keep the proportions (image mode).
    pub keep_ratio: bool,
    /// 9-position anchor (canvas mode): column and row, each `0..=2`.
    pub anchor: (u8, u8),
}

/// `v · num / den` rounded to the nearest integer (halves away from zero),
/// and at least 1.
pub open spec fn linked_side(v: u32, num: u32, den: u32) -> int {
    let q = (2 * v * num + den) / (2 * den);
    if q < 1 { 1 } else { q }
}

/// `side · pct / 100` (the product saturating at `u32::MAX`), at least 1.
pub open spec fn scaled_side(side: u32, pct: u32) -> int {
    let p = if side * pct > u32::MAX { u32::MAX as int } else { side * pct };
    if p / 100 < 1 { 1 } else { p / 100 }
}

fn linked_side_exec(v: u32, num: u32, den: u32) -> (r: u32)
    requires
        v <= MAX_IMAGE_SIDE,
        num <= MAX_IMAGE_SIDE,
        den >= 1,
    ensures
        r == linked_side(v, num, den),
{
    assert(2 * v * num + den <= 2 * MAX_IMAGE_SIDE * MAX_IMAGE_SIDE + u32::MAX) by (nonlinear_arith)
        requires
            v <= MAX_IMAGE_SIDE,
            num <= MAX_IMAGE_SIDE,
            den <= u32::MAX,
    ;
    let q: u64 = (2 * (v as u64) * (num as u64) + den as u64) / (2 * den as u64);
    assert(q <= 2 * MAX_IMAGE_SIDE * MAX_IMAGE_SIDE + u32::MAX) by (nonlinear_arith)
        requires
            q == (2 * v * num + den) / (2 * den),
            2 * v * num + den <= 2 * MAX_IMAGE_SIDE * MAX_IMAGE_SIDE + u32::MAX,
            den >= 1,
    ;
    assert(q <= u32::MAX) by (nonlinear_arith)
        requires
            q == (2 * v * num + den) / (2 * den),
            v <= MAX_IMAGE_SIDE,
            num <= MAX_IMAGE_SIDE,
            den >= 1,
    ;
    if q < 1 { 1 } else { q as u32 }
}

impl ResizeDialog {
    /// The width is typed (`1..=MAX_IMAGE_SIDE`, as the field allows): in
    /// image mode with proportions kept, the height follows the document's
    /// `doc_w × doc_h` proportions.
    pub fn set_width(&mut self, w: u32, doc_w: u32, doc_h: u32)
        requires
            1 <= w <= MAX_IMAGE_SIDE,
            doc_h <= MAX_IMAGE_SIDE,
        ensures
            final(self).w == w,
            final(self).h == (if !old(self).canvas_mode && old(self).keep_ratio && doc_w > 0 && doc_h > 0 {
                linked_side(w, doc_h, doc_w)
            } else {
                old(self).h as int
            }),
            final(self).canvas_mode == old(self).canvas_mode,
            final(self).keep_ratio == old(self).keep_ratio,
            final(self).anchor == old(self).anchor,
    {
        self.w = w;
        if !self.canvas_mode && self.keep_ratio && doc_w > 0 && doc_h > 0 {
            self.h = linked_side_exec(w, doc_h, doc_w);
        }
    }

    /// The height is typed; in image mode with proportions kept, the width
    /// follows.
    pub fn set_height(&mut self, h: u32, doc_w: u32, doc_h: u32)
        requires
            1 <= h <= MAX_IMAGE_SIDE,
            doc_w <= MAX_IMAGE_SIDE,
        ensures
            final(self).h == h,
            final(self).w == (if !old(self).canvas_mode && old(self).keep_ratio && doc_w > 0 && doc_h > 0 {
                linked_side(h, doc_w, doc_h)
            } else {
                old(self).w as int
            }),
            final(self).canvas_mode == old(self).canvas_mode,
            final(self).keep_ratio == old(self).keep_ratio,
            final(self).anchor == old(self).anchor,
    {
        self.h = h;
        if !self.canvas_mode && self.keep_ratio && doc_w > 0 && doc_h > 0 {
            self.w = linked_side_exec(h, doc_w, doc_h);
        }
    }

    /// One of the scale buttons (25 %, 50 %, 200 %...): both sides become
    /// the document's sides scaled by `pct` percent, at least 1.
    pub fn apply_scale(&mut self, doc_w: u32, doc_h: u32, pct: u32)
        ensures
            final(self).w == scaled_side(doc_w, pct),
            final(self).h == scaled_side(doc_h, pct),
            final(self).canvas_mode == old(self).canvas_mode,
            final(self).keep_ratio == old(self).keep_ratio,
            final(self).anchor == old(self).anchor,
    {
        assert(doc_w * pct <= u32::MAX * u32::MAX && doc_h * pct <= u32::MAX * u32::MAX) by (nonlinear_arith)
            requires
                doc_w <= u32::MAX,
                doc_h <= u32::MAX,
                pct <= u32::MAX,
        ;
        let pa: u64 = doc_w as u64 * pct as u64;
        let pb: u64 = doc_h as u64 * pct as u64;
        let a: u64 = (if pa > u32::MAX as u64 { u32::MAX as u64 } else { pa }) / 100;
        let b: u64 = (if pb > u32::MAX as u64 { u32::MAX as u64 } else { pb }) / 100;
        self.w = if a < 1 { 1 } else { a as u32 };
        self.h = if b < 1 { 1 } else { b as u32 };
    }
}

/// The editing state.
pub struct PaintApp {
    pub lang: Lang,
    pub doc: Document,
    pub history: History,
    /// Id given to the next new element (stroke, text or image).
    pub next_id: u64,
    /// Selected element ids of the active layer.
    pub selection: HashSet<u64>,
    /// Most recently used colours, newest first.
    pub recent_colors: Vec<[u8; 3]>,
    /// User palette.
    pub custom_palette: Vec<[u8; 3]>,
    pub export_profiles: Vec<ExportProfile>,
    pub brand_kits: Vec<BrandKit>,
    pub batch_export: BatchExportState,
    /// JPEG quality used at export, `1..=100`.
    pub jpeg_quality: u8,
    /// System font chosen for text, if any.
    pub text_font_family: Option<String>,
    /// Transient message of the footer.
    pub status: Option<String>,
    /// Whether `status` reports a failure.
    pub status_error: bool,
    /// The last action is temporarily undone to show the "before" state.
    pub comparing_before: bool,
    pub resize_dialog: Option<ResizeDialog>,
    pub ui_theme: UiTheme,
    pub active_tool: ActiveTool,
    /// Internal clipboard of copied elements.
    pub clip: ClipBoard,
    /// Per-channel colour tolerance of the magic wand.
    pub wand_tol: i32,
    /// Text block being edited in place, if any.
    pub editing_text: Option<u64>,
    /// Painting goes to the active layer's mask rather than its content.
    pub editing_mask: bool,
}

/// `h1` is `h0` with one more command recorded at its cursor, which was
/// built from `before` and turns it into `after`.
pub open spec fn records_edit(h0: HistoryView, h1: HistoryView, before: DocView, after: DocView) -> bool {
    &&& 0 <= h0.cursor < h1.commands.len()
    &&& h1 == h0.record(h1.commands[h0.cursor])
    &&& h1.commands[h0.cursor].fits(before)
    &&& h1.commands[h0.cursor].apply(before) == after
}

/// `h1`'s panel labels are `h0`'s up to its cursor, then `label`: the label
/// of the one edit recorded between them.
pub open spec fn records_label(h0: History, h1: History, label: &'static str) -> bool {
    h1.labels() == h0.labels().take(h0@.cursor).push(label)
}

/// The document is the state that command `c` installs.
pub open spec fn installed(c: CommandView, d: DocView) -> bool {
    match c {
        CommandView::SetLayers { before, before_active, after, after_active } => {
            d.layers == after && d.active_layer == after_active
        },
        CommandView::SetDoc { before, after } => d == after,
    }
}

/// After an edit is recorded, undoing gives back the document it was made
/// on, and the edited document is what the recorded command installs.
pub proof fn law_undo_reverts_recorded_edit(
    h0: HistoryView,
    h1: HistoryView,
    before: DocView,
    after: DocView,
)
    requires
        records_edit(h0, h1, before, after),
    ensures
        h1.cursor > 0,
        h1.commands[h1.cursor - 1].revert(after) == before,
        installed(h1.commands[h1.cursor - 1], after),
{
    assert(h1.commands[h1.cursor - 1] == h1.commands[h0.cursor]);
}

/// Redoing right after undoing the command that installed the document
/// gives the document back.
pub proof fn law_redo_after_undo(c: CommandView, d: DocView)
    requires
        installed(c, d),
    ensures
        c.apply(c.revert(d)) == d,
{
}

/// Going back in the history from `from` to `to` passes through states
/// that the commands installed: each command between them is the one that
/// produced the state it is taken back from.
pub open spec fn replayable(h: HistoryView, d: DocView, from: int, to: int) -> bool
    decreases from - to,
{
    if from <= to {
        true
    } else {
        installed(h.commands[from - 1], d) && replayable(h, h.commands[from - 1].revert(d), from - 1, to)
    }
}

proof fn lemma_redo_span_last(h: HistoryView, d: DocView, from: int, to: int)
    requires
        from < to,
    ensures
        h.redo_span(d, from, to) == h.commands[to - 1].apply(h.redo_span(d, from, to - 1)),
    decreases to - from,
{
    let d1 = h.commands[from].apply(d);
    assert(h.redo_span(d, from, to) == h.redo_span(d1, from + 1, to));
    if from + 1 < to {
        lemma_redo_span_last(h, d1, from + 1, to);
        assert(h.redo_span(d, from, to - 1) == h.redo_span(d1, from + 1, to - 1));
    } else {
        assert(h.redo_span(d1, from + 1, to) == d1);
        assert(h.redo_span(d, from, to - 1) == d);
    }
}

/// Jumping back to an earlier state of the history panel and then forward
/// again to where one was gives back the same document, as long as the
/// states passed through are the ones the commands installed.
pub proof fn law_goto_back_and_forth(h: HistoryView, d: DocView, from: int, to: int)
    requires
        to <= from,
        replayable(h, d, from, to),
    ensures
        h.redo_span(h.undo_span(d, from, to), to, from) == d,
    decreases from - to,
{
    if to < from {
        let c = h.commands[from - 1];
        law_goto_back_and_forth(h, c.revert(d), from - 1, to);
        lemma_redo_span_last(h, h.undo_span(d, from, to), to, from);
    }
}

impl PaintApp {
    /// The document and the history are well-formed.
    pub open spec fn wf(&self) -> bool {
        self.doc@.wf() && self.history@.wf()
    }

    /// A new editor on an empty document of 1280 × 800 pixels.
    pub fn new(lang: Lang) -> (r: PaintApp)
        ensures
            r.wand_tol == 32,
            r.editing_text is None,
            !r.editing_mask,
            r.recent_colors@.len() == 0,
            r.custom_palette@.len() == 0,
            r.export_profiles@.len() == 0,
            r.brand_kits@.len() == 0,
            r.batch_export.format == ExportFormat::Png && !r.batch_export.scale_half && r.batch_export.scale_1 && r.batch_export.scale_2 && !r.batch_export.scale_3 && !r.batch_export.custom_enabled && r.batch_export.custom_width@.len() == 0,
            r.jpeg_quality == 90,
            r.text_font_family is None,
            !r.status_error,
            r.resize_dialog is None,
            r.ui_theme == UiTheme::System,
            r.active_tool == ActiveTool::Brush,
            r.clip.spec_is_empty(),
            r.lang == lang,
            r.wf(),
            r.doc@ == new_doc_view((1280, 800), lang),
            r.history@.commands.len() == 0,
            r.selection@ == Set::<u64>::empty(),
            r.next_id == 1,
            r.status.is_none(),
            !r.comparing_before,
    {
        PaintApp {
            lang,
            doc: Document::new((1280, 800), lang),
            history: History::new(),
            next_id: 1,
            selection: HashSet::new(),
            recent_colors: Vec::new(),
            custom_palette: Vec::new(),
            export_profiles: Vec::new(),
            brand_kits: Vec::new(),
            batch_export: BatchExportState::default(),
            jpeg_quality: 90,
            text_font_family: None,
            status: None,
            status_error: false,
            comparing_before: false,
            resize_dialog: None,
            ui_theme: UiTheme::System,
            active_tool: ActiveTool::Brush,
            clip: ClipBoard::new(),
            wand_tol: 32,
            editing_text: None,
            editing_mask: false,
        }
    }

    /// The settings of the editor (language, palettes, presets, export
    /// options, theme, tool, clipboard, open dialog) are the same in `self`
    /// and `other`.
    pub open spec fn same_settings(&self, other: &PaintApp) -> bool {
        &&& self.lang == other.lang
        &&& self.recent_colors == other.recent_colors
        &&& self.custom_palette == other.custom_palette
        &&& self.export_profiles == other.export_profiles
        &&& self.brand_kits == other.brand_kits
        &&& self.batch_export == other.batch_export
        &&& self.jpeg_quality == other.jpeg_quality
        &&& self.text_font_family == other.text_font_family
        &&& self.resize_dialog == other.resize_dialog
        &&& self.ui_theme == other.ui_theme
        &&& self.active_tool == other.active_tool
        &&& self.clip == other.clip
        &&& self.wand_tol == other.wand_tol
    }

    /// The editing state (document, history, element ids, selection,
    /// comparison mode) is the same in `self` and `other`.
    pub open spec fn same_edit_state(&self, other: &PaintApp) -> bool {
        &&& self.doc == other.doc
        &&& self.history == other.history
        &&& self.next_id == other.next_id
        &&& self.selection == other.selection
        &&& self.comparing_before == other.comparing_before
        &&& self.editing_text == other.editing_text
        &&& self.editing_mask == other.editing_mask
    }

    /// The settings, the element id counter and the comparison mode are the
    /// same in `self` and `other`.
    pub open spec fn same_settings_and_ids(&self, other: &PaintApp) -> bool {
        &&& self.same_settings(other)
        &&& self.next_id == other.next_id
        &&& self.comparing_before == other.comparing_before
        &&& self.editing_text == other.editing_text
        &&& self.editing_mask == other.editing_mask
    }

    /// The status line is the same in `self` and `other`.
    pub open spec fn same_status(&self, other: &PaintApp) -> bool {
        self.status == other.status && self.status_error == other.status_error
    }

    /// Every field but the status line is the same in `self` and `other`.
    pub open spec fn same_but_status(&self, other: &PaintApp) -> bool {
        self.same_settings(other) && self.same_edit_state(other)
    }

    /// Every field but the document and the history is the same in `self`
    /// and `other`.
    pub open spec fn same_but_doc(&self, other: &PaintApp) -> bool {
        &&& self.same_settings(other)
        &&& self.next_id == other.next_id
        &&& self.selection == other.selection
        &&& self.comparing_before == other.comparing_before
        &&& self.editing_text == other.editing_text
        &&& self.editing_mask == other.editing_mask
        &&& self.status == other.status
        &&& self.status_error == other.status_error
    }

    /// Neutral or success message.
    pub fn info(&mut self, msg: String)
        ensures
            final(self).status == Some(msg),
            !final(self).status_error,
            final(self).same_but_status(old(self)),
    {
        self.status = Some(msg);
        self.status_error = false;
    }

    /// Failure message.
    pub fn fail(&mut self, msg: String)
        ensures
            final(self).status == Some(msg),
            final(self).status_error,
            final(self).same_but_status(old(self)),
    {
        self.status = Some(msg);
        self.status_error = true;
    }

    /// Undoes the last applied command and clears the selection.
    pub fn undo(&mut self)
        requires
            old(self).wf(),
        ensures
            final(self).same_settings_and_ids(old(self)),
            final(self).same_status(old(self)),
            final(self).wf(),
            final(self).history@.commands == old(self).history@.commands,
            old(self).history@.cursor > 0 ==> final(self).history@.cursor == old(self).history@.cursor
                - 1 && final(self).doc@ == old(self).history@.commands[old(self).history@.cursor
                - 1].revert(old(self).doc@),
            old(self).history@.cursor == 0 ==> final(self).history@.cursor == 0
                && final(self).doc@ == old(self).doc@,
            final(self).selection@ == Set::<u64>::empty(),
    {
        let ghost h = self.history@;
        self.history.undo(&mut self.doc);
        proof {
            if h.cursor > 0 {
                assert(h.commands[h.cursor - 1].wf());
            }
        }
        self.selection.clear();
    }

    /// Redoes the next undone command and clears the selection.
    pub fn redo(&mut self)
        requires
            old(self).wf(),
        ensures
            final(self).same_settings_and_ids(old(self)),
            final(self).same_status(old(self)),
            final(self).wf(),
            final(self).history@.commands == old(self).history@.commands,
            old(self).history@.cursor < old(self).history@.commands.len() ==> final(self).history@.cursor == old(self).history@.cursor + 1 && final(self).doc@
                == old(self).history@.commands[old(self).history@.cursor].apply(old(self).doc@),
            old(self).history@.cursor >= old(self).history@.commands.len() ==> final(self).history@.cursor == old(self).history@.cursor && final(self).doc@ == old(self).doc@,
            final(self).selection@ == Set::<u64>::empty(),
    {
        let ghost h = self.history@;
        self.history.redo(&mut self.doc);
        proof {
            if h.cursor < h.commands.len() {
                assert(h.commands[h.cursor].wf());
            }
        }
        self.selection.clear();
    }

    /// Jumps straight to a state of the history panel (after the first
    /// `target` commands), and keeps the active layer in range.
    pub fn history_goto(&mut self, target: usize)
        requires
            old(self).wf(),
        ensures
            final(self).same_settings_and_ids(old(self)),
            final(self).same_status(old(self)),
            final(self).wf(),
            final(self).history@.commands == old(self).history@.commands,
            final(self).history@.cursor == (if target < old(self).history@.commands.len() {
                target as int
            } else {
                old(self).history@.commands.len() as int
            }),
            final(self).history@.cursor <= old(self).history@.cursor ==> final(self).doc@
                == old(self).history@.undo_span(
                old(self).doc@,
                old(self).history@.cursor,
                final(self).history@.cursor,
            ),
            final(self).history@.cursor >= old(self).history@.cursor ==> final(self).doc@
                == old(self).history@.redo_span(
                old(self).doc@,
                old(self).history@.cursor,
                final(self).history@.cursor,
            ),
            final(self).selection@ == Set::<u64>::empty(),
    {
        let ghost h = self.history@;
        let ghost d = self.doc@;
        self.history.goto(&mut self.doc, target);
        proof {
            crate::history::law_history_spans_keep_wf(h, d, h.cursor, self.history@.cursor);
        }
        self.selection.clear();
        if self.doc.active_layer >= self.doc.layers.len() {
            self.doc.active_layer = self.doc.layers.len() - 1;
        }
    }

    /// Temporarily undoes the last action to show the previous state. Does
    /// nothing while already comparing or when there is nothing to undo.
    pub fn begin_compare_before(&mut self)
        requires
            old(self).wf(),
        ensures
            final(self).same_settings(old(self)),
            final(self).next_id == old(self).next_id,
            final(self).selection == old(self).selection,
            final(self).same_status(old(self)),
            final(self).wf(),
            final(self).history@.commands == old(self).history@.commands,
            old(self).comparing_before || old(self).history@.cursor == 0 ==> {
                &&& final(self).doc@ == old(self).doc@
                &&& final(self).history@ == old(self).history@
                &&& final(self).comparing_before == old(self).comparing_before
            },
            !old(self).comparing_before && old(self).history@.cursor > 0 ==> {
                &&& final(self).comparing_before
                &&& final(self).history@.cursor == old(self).history@.cursor - 1
                &&& final(self).doc@ == old(self).history@.commands[old(self).history@.cursor
                    - 1].revert(old(self).doc@)
            },
    {
        if self.comparing_before || !self.history.can_undo() {
            return;
        }
        let ghost h = self.history@;
        self.history.undo(&mut self.doc);
        proof {
            assert(h.commands[h.cursor - 1].wf());
        }
        self.comparing_before = true;
    }

    /// Re-applies the action set aside by `begin_compare_before`.
    pub fn end_compare_before(&mut self)
        requires
            old(self).wf(),
        ensures
            final(self).same_settings(old(self)),
            final(self).next_id == old(self).next_id,
            final(self).selection == old(self).selection,
            final(self).same_status(old(self)),
            final(self).wf(),
            !final(self).comparing_before,
            final(self).history@.commands == old(self).history@.commands,
            !old(self).comparing_before ==> final(self).doc@ == old(self).doc@ && final(self).history@ == old(self).history@,
            old(self).comparing_before && old(self).history@.cursor < old(self).history@.commands.len() ==> {
                &&& final(self).history@.cursor == old(self).history@.cursor + 1
                &&& final(self).doc@ == old(self).history@.commands[old(self).history@.cursor].apply(old(self).doc@)
            },
    {
        if !self.comparing_before {
            return;
        }
        let ghost h = self.history@;
        self.history.redo(&mut self.doc);
        proof {
            if h.cursor < h.commands.len() {
                assert(h.commands[h.cursor].wf());
            }
        }
        self.comparing_before = false;
    }

    /// Records a full replacement of the document (undoable as one step)
    /// and clears the selection.
    pub fn push_doc_snapshot(&mut self, after: Document, label: &'static str)
        requires
            old(self).wf(),
            after@.wf(),
        ensures
            records_label(old(self).history, final(self).history, label),
            final(self).same_settings_and_ids(old(self)),
            final(self).same_status(old(self)),
            final(self).wf(),
            final(self).doc@ == after@,
            records_edit(old(self).history@, final(self).history@, old(self).doc@, after@),
            final(self).selection@ == Set::<u64>::empty(),
            final(self).next_id == old(self).next_id,
            final(self).lang == old(self).lang,
    {
        let before = self.doc.copy();
        let cmd = Command::SetDoc { before, after, label };
        let ghost c = cmd@;
        let ghost h0 = self.history@;
        self.history.push(&mut self.doc, cmd);
        proof {
            assert(self.history@.commands[h0.cursor] == c);
        }
        self.selection.clear();
    }

    /// Replaces the document by a new, empty one of the given size (each
    /// side bounded to `1..=MAX_IMAGE_SIDE`), with a fresh history.
    pub fn new_document_sized(&mut self, w: u32, h: u32)
        requires
            old(self).wf(),
        ensures
            final(self).same_settings(old(self)),
            final(self).comparing_before == old(self).comparing_before,
            final(self).wf(),
            final(self).doc@ == new_doc_view((clamp_side(w), clamp_side(h)), old(self).lang),
            final(self).history@.commands.len() == 0,
            final(self).selection@ == Set::<u64>::empty(),
            final(self).next_id == 1,
            !final(self).status_error,
            final(self).status matches Some(m) && m@ == size_message(
                t_spec(old(self).lang, "Nouveau document", "New document")@,
                " "@,
                clamp_side(w) as nat,
                clamp_side(h) as nat,
                "."@,
            ),
    {
        let (w, h) = clamp_doc_dims(w, h);
        let doc = Document::new((w, h), self.lang);
        proof {
            let ls = doc@.layers;
            assert(ls.drop_last() =~= Seq::<crate::document::LayerView>::empty());
            assert(ls.last().element_ids() =~= Seq::<u64>::empty());
            assert(crate::layers_ops::max_element_id(ls.drop_last()) == 0);
            assert(crate::layers_ops::max_of(ls.last().element_ids()) == 0);
        }
        self.apply_loaded(doc);
        let msg = size_message_string(t(self.lang, "Nouveau document", "New document"), " ", w, h, ".");
        self.info(msg);
    }

    /// Replaces the document by a new, empty one of the current size, with a
    /// fresh history.
    pub fn new_document(&mut self)
        requires
            old(self).wf(),
        ensures
            final(self).same_settings(old(self)),
            final(self).comparing_before == old(self).comparing_before,
            final(self).wf(),
            final(self).doc@ == new_doc_view(old(self).doc.size, old(self).lang),
            final(self).history@.commands.len() == 0,
            final(self).selection@ == Set::<u64>::empty(),
            final(self).next_id == 1,
            !final(self).status_error,
            final(self).status matches Some(m) && m@ == t_spec(old(self).lang, "Nouveau document.", "New document.")@,
    {
        let doc = Document::new(self.doc.size, self.lang);
        proof {
            let ls = doc@.layers;
            assert(ls.drop_last() =~= Seq::<crate::document::LayerView>::empty());
            assert(ls.last().element_ids() =~= Seq::<u64>::empty());
            assert(crate::layers_ops::max_element_id(ls.drop_last()) == 0);
            assert(crate::layers_ops::max_of(ls.last().element_ids()) == 0);
        }
        self.apply_loaded(doc);
        self.info(String::from_str(t(self.lang, "Nouveau document.", "New document.")));
    }

    /// Installs a loaded or new document: fresh history, empty selection,
    /// and element ids continuing after the largest id in use.
    pub fn apply_loaded(&mut self, doc: Document)
        requires
            doc@.wf(),
            crate::layers_ops::max_element_id(doc@.layers) < u64::MAX,
        ensures
            final(self).same_settings(old(self)),
            final(self).comparing_before == old(self).comparing_before,
            final(self).same_status(old(self)),
            final(self).wf(),
            final(self).doc@ == doc@,
            final(self).history@.commands.len() == 0,
            final(self).history@.cursor == 0,
            final(self).selection@ == Set::<u64>::empty(),
            final(self).lang == old(self).lang,
            final(self).next_id == crate::layers_ops::max_element_id(doc@.layers) + 1,
            final(self).editing_text is None,
    {
        self.doc = doc;
        self.history = History::new();
        self.selection.clear();
        self.editing_text = None;
        self.next_id = crate::layers_ops::max_element_id_of(&self.doc.layers) + 1;
    }

    /// Opens the resize dialog pre-filled with the current size, proportions
    /// kept and centred anchor.
    pub fn open_resize_dialog(&mut self, canvas_mode: bool)
        ensures
            final(self).same_settings(&(PaintApp { resize_dialog: final(self).resize_dialog, ..*old(self) })),
            final(self).same_edit_state(old(self)),
            final(self).same_status(old(self)),
            final(self).resize_dialog == Some(
                ResizeDialog {
                    canvas_mode,
                    w: old(self).doc.size.0,
                    h: old(self).doc.size.1,
                    keep_ratio: true,
                    anchor: (1, 1),
                },
            ),
            final(self).doc@ == old(self).doc@,
            final(self).history@ == old(self).history@,
    {
        self.resize_dialog = Some(
            ResizeDialog {
                canvas_mode,
                w: self.doc.size.0,
                h: self.doc.size.1,
                keep_ratio: true,
                anchor: (1, 1),
            },
        );
    }

    /// New size of a resize: each side bounded, and `None` when it equals
    /// the current size (nothing to do).
    pub fn resize_target(&self, w: u32, h: u32) -> (r: Option<(u32, u32)>)
        ensures
            r == (if (clamp_side(w), clamp_side(h)) == self.doc.size {
                None
            } else {
                Some((clamp_side(w), clamp_side(h)))
            }),
    {
        let (w, h) = clamp_doc_dims(w, h);
        if w == self.doc.size.0 && h == self.doc.size.1 {
            None
        } else {
            Some((w, h))
        }
    }

    /// Resizes the document to `w × h` (each side bounded) as one undoable
    /// step; does nothing when the size does not change. Element positions
    /// are floating point and are not held by this library, so scaling them
    /// is not part of this operation; painted pixels and masks are left as
    /// they are.
    pub fn resize_document(&mut self, w: u32, h: u32)
        requires
            old(self).wf(),
        ensures
            (clamp_side(w), clamp_side(h)) != old(self).doc.size ==> records_label(old(self).history, final(self).history, t_spec(old(self).lang, "Redimensionner l'image", "Resize image")),
            (clamp_side(w), clamp_side(h)) != old(self).doc.size ==> (final(self).status matches Some(m) && m@ == size_message(t_spec(old(self).lang, "Image redimensionnée", "Image resized")@, " : "@, clamp_side(w) as nat, clamp_side(h) as nat, ""@)),
            final(self).same_settings_and_ids(old(self)),
            (clamp_side(w), clamp_side(h)) == old(self).doc.size ==> final(self).selection == old(self).selection && final(self).same_status(old(self)),
            (clamp_side(w), clamp_side(h)) != old(self).doc.size ==> final(self).selection@ == Set::<u64>::empty(),
            final(self).wf(),
            (clamp_side(w), clamp_side(h)) == old(self).doc.size ==> final(self).doc@ == old(self).doc@ && final(self).history@ == old(self).history@,
            (clamp_side(w), clamp_side(h)) != old(self).doc.size ==> {
                &&& final(self).doc@ == (DocView {
                    size: (clamp_side(w), clamp_side(h)),
                    ..old(self).doc@
                })
                &&& records_edit(
                    old(self).history@,
                    final(self).history@,
                    old(self).doc@,
                    final(self).doc@,
                )
                &&& !final(self).status_error
            },
    {
        let target = self.resize_target(w, h);
        match target {
            None => {},
            Some((nw, nh)) => {
                let mut after = self.doc.copy();
                after.size = (nw, nh);
                self.push_doc_snapshot(after, t(self.lang, "Redimensionner l'image", "Resize image"));
                let msg = size_message_string(t(self.lang, "Image redimensionnée", "Image resized"), " : ", nw, nh, "");
                self.info(msg);
            },
        }
    }

    /// Changes the canvas size (each side bounded) without scaling the
    /// content, as one undoable step; does nothing when the size does not
    /// change. The anchor (column, row, each `0..=2`; larger values count as
    /// 2) keeps that side of the content in place: painted pixels and mask
    /// writes, live and in the stored frames, shift by `anchor_shift(..)`
    /// whole pixels on each axis (a half-pixel shift rounds toward zero), and
    /// those that would leave the coordinate range above or left leave.
    /// Element positions are floating point and are not held by this
    /// library, so shifting them is not part of this operation.
    pub fn resize_canvas(&mut self, w: u32, h: u32, anchor: (u8, u8))
        requires
            old(self).wf(),
        ensures
            (clamp_side(w), clamp_side(h)) != old(self).doc.size ==> records_label(old(self).history, final(self).history, t_spec(old(self).lang, "Taille du canevas", "Canvas size")),
            (clamp_side(w), clamp_side(h)) != old(self).doc.size ==> (final(self).status matches Some(m) && m@ == size_message(t_spec(old(self).lang, "Canevas", "Canvas")@, " : "@, clamp_side(w) as nat, clamp_side(h) as nat, ""@)),
            final(self).same_settings_and_ids(old(self)),
            (clamp_side(w), clamp_side(h)) == old(self).doc.size ==> final(self).selection == old(self).selection && final(self).same_status(old(self)),
            (clamp_side(w), clamp_side(h)) != old(self).doc.size ==> final(self).selection@ == Set::<u64>::empty(),
            final(self).wf(),
            (clamp_side(w), clamp_side(h)) == old(self).doc.size ==> final(self).doc@ == old(self).doc@ && final(self).history@ == old(self).history@,
            (clamp_side(w), clamp_side(h)) != old(self).doc.size ==> {
                &&& final(self).doc@ == (DocView {
                    size: (clamp_side(w), clamp_side(h)),
                    ..moved_doc(old(self).doc@, PixelMove::Shift {
                        dx: anchor_shift(old(self).doc.size.0, clamp_side(w), anchor.0) as i64,
                        dy: anchor_shift(old(self).doc.size.1, clamp_side(h), anchor.1) as i64,
                    })
                })
                &&& records_edit(
                    old(self).history@,
                    final(self).history@,
                    old(self).doc@,
                    final(self).doc@,
                )
                &&& !final(self).status_error
            },
    {
        let target = self.resize_target(w, h);
        match target {
            None => {},
            Some((nw, nh)) => {
                let dx = half_toward_zero(anchor_shift_halves(self.doc.size.0, nw, anchor.0));
                let dy = half_toward_zero(anchor_shift_halves(self.doc.size.1, nh, anchor.1));
                let mut after = self.doc.moved(PixelMove::Shift { dx, dy });
                after.size = (nw, nh);
                self.push_doc_snapshot(after, t(self.lang, "Taille du canevas", "Canvas size"));
                let msg = size_message_string(t(self.lang, "Canevas", "Canvas"), " : ", nw, nh, "");
                self.info(msg);
            },
        }
    }

    /// Crops the canvas to the smallest rectangle holding the non-transparent
    /// pixels of `rendered`, the composite render of the document at its own
    /// size (`None` when rendering failed), as one undoable step. A fully
    /// transparent render, or one with no empty border, leaves the document
    /// as it is with an information message. Painted pixels and mask
    /// writes, live and in the stored frames, shift by minus the rectangle's
    /// corner (those left of or above it leave). Element positions are not
    /// held by this library, so shifting them is not part of this
    /// operation.
    pub fn trim_transparent_borders(&mut self, rendered: Option<Vec<u8>>)
        requires
            old(self).wf(),
            rendered matches Some(p) ==> p@.len() == old(self).doc.size.0 * old(self).doc.size.1
                * 4,
        ensures
            final(self).history@ != old(self).history@ ==> records_label(old(self).history, final(self).history, t_spec(old(self).lang, "Rogner les bords vides", "Trim empty borders")),
            final(self).doc@ == old(self).doc@ ==> final(self).selection == old(self).selection,
            final(self).doc@ != old(self).doc@ ==> final(self).selection@ == Set::<u64>::empty(),
            final(self).same_settings_and_ids(old(self)),
            final(self).wf(),
            final(self).lang == old(self).lang,
            final(self).next_id == old(self).next_id,
            rendered is None ==> {
                &&& final(self).doc@ == old(self).doc@
                &&& final(self).history@ == old(self).history@
                &&& final(self).status_error
                &&& final(self).status matches Some(m) && m@ == t_spec(
                    old(self).lang,
                    "Échec du rendu du canevas.",
                    "Canvas render failed.",
                )@
            },
            rendered matches Some(p) ==> {
                let w = old(self).doc.size.0;
                let h = old(self).doc.size.1;
                match trim_box(p@, w as int, h as int) {
                    None => {
                        &&& final(self).doc@ == old(self).doc@
                        &&& final(self).history@ == old(self).history@
                        &&& !final(self).status_error
                        &&& final(self).status matches Some(m) && m@ == t_spec(
                            old(self).lang,
                            "Document entièrement transparent : rien à rogner.",
                            "Document is fully transparent: nothing to trim.",
                        )@
                    },
                    Some(b) => if b == (0u32, 0u32, w, h) {
                        &&& final(self).doc@ == old(self).doc@
                        &&& final(self).history@ == old(self).history@
                        &&& !final(self).status_error
                        &&& final(self).status matches Some(m) && m@ == t_spec(
                            old(self).lang,
                            "Aucun bord vide à rogner.",
                            "No empty border to trim.",
                        )@
                    } else {
                        &&& final(self).doc@ == (DocView {
                            size: (b.2, b.3),
                            ..moved_doc(old(self).doc@, PixelMove::Shift { dx: -b.0 as i64, dy: -b.1 as i64 })
                        })
                        &&& records_edit(
                            old(self).history@,
                            final(self).history@,
                            old(self).doc@,
                            final(self).doc@,
                        )
                        &&& !final(self).status_error
                        &&& final(self).status matches Some(m) && m@ == size_message(
                            t_spec(old(self).lang, "Canevas rogné", "Canvas trimmed")@,
                            " : "@,
                            b.2 as nat,
                            b.3 as nat,
                            ""@,
                        )
                    },
                }
            },
    {
        let rgba = match rendered {
            None => {
                self.fail(String::from_str(t(self.lang, "Échec du rendu du canevas.", "Canvas render failed.")));
                return;
            },
            Some(p) => p,
        };
        let w = self.doc.size.0;
        let h = self.doc.size.1;
        let bounds = trim_bounds(rgba.as_slice(), w as usize, h as usize);
        match bounds {
            None => {
                self.info(
                    String::from_str(
                        t(
                            self.lang,
                            "Document entièrement transparent : rien à rogner.",
                            "Document is fully transparent: nothing to trim.",
                        ),
                    ),
                );
            },
            Some((x, y, tw, th)) => {
                if x == 0 && y == 0 && tw == w && th == h {
                    self.info(String::from_str(t(self.lang, "Aucun bord vide à rogner.", "No empty border to trim.")));
                } else {
                    let mut after = self.doc.moved(PixelMove::Shift { dx: -(x as i64), dy: -(y as i64) });
                    after.size = (tw, th);
                    self.push_doc_snapshot(after, t(self.lang, "Rogner les bords vides", "Trim empty borders"));
                    let msg = size_message_string(t(self.lang, "Canevas rogné", "Canvas trimmed"), " : ", tw, th, "");
                    self.info(msg);
                }
            },
        }
    }

    /// Mirrors the whole image horizontally or vertically as one undoable
    /// step: every painted pixel and mask write of every layer, live and in
    /// the stored frames, goes to its mirror image in the canvas (writes
    /// lying outside the canvas, whose mirror images would be at negative
    /// coordinates, leave). The layer stack and the size stay as they are.
    /// Element positions are floating point and are not held by this
    /// library, so mirroring them is not part of this operation.
    pub fn flip_document(&mut self, horizontal: bool)
        requires
            old(self).wf(),
        ensures
            records_label(old(self).history, final(self).history, if horizontal { t_spec(old(self).lang, "Retourner horizontalement", "Flip horizontal") } else { t_spec(old(self).lang, "Retourner verticalement", "Flip vertical") }),
            final(self).wf(),
            final(self).doc@ == moved_doc(
                old(self).doc@,
                PixelMove::Mirror { horizontal, w: old(self).doc.size.0, h: old(self).doc.size.1 },
            ),
            records_edit(old(self).history@, final(self).history@, old(self).doc@, final(self).doc@),
            final(self).selection@ == Set::<u64>::empty(),
            final(self).same_settings_and_ids(old(self)),
            !final(self).status_error,
            final(self).status matches Some(m) && m@ == (if horizontal {
                t_spec(old(self).lang, "Retourner horizontalement", "Flip horizontal")
            } else {
                t_spec(old(self).lang, "Retourner verticalement", "Flip vertical")
            })@,
    {
        let label = if horizontal {
            t(self.lang, "Retourner horizontalement", "Flip horizontal")
        } else {
            t(self.lang, "Retourner verticalement", "Flip vertical")
        };
        let m = PixelMove::Mirror { horizontal, w: self.doc.size.0, h: self.doc.size.1 };
        let after = self.doc.moved(m);
        self.push_doc_snapshot(after, label);
        self.info(String::from_str(label));
    }

    /// Red, green and blue histograms of `rendered`, the composite render of
    /// the document at its own size; `None` when rendering failed.
    pub fn canvas_histogram(&self, rendered: Option<Vec<u8>>) -> (r: Option<Histogram>)
        requires
            self.wf(),
            rendered matches Some(p) ==> p@.len() == self.doc.size.0 * self.doc.size.1 * 4,
        ensures
            rendered is None ==> r is None,
            rendered matches Some(p) ==> r matches Some(hist) && {
                let n = (p@.len() / 4) as int;
                &&& hist.r@.len() == 256 && hist.g@.len() == 256 && hist.b@.len() == 256
                &&& forall|v: int| 0 <= v < 256 ==> #[trigger] hist.r@[v] == channel_count(p@, 0, v, n)
                &&& forall|v: int| 0 <= v < 256 ==> #[trigger] hist.g@[v] == channel_count(p@, 1, v, n)
                &&& forall|v: int| 0 <= v < 256 ==> #[trigger] hist.b@[v] == channel_count(p@, 2, v, n)
            },
    {
        match rendered {
            None => None,
            Some(p) => {
                proof {
                    let w = self.doc.size.0 as int;
                    let h = self.doc.size.1 as int;
                    assert(w * h <= MAX_IMAGE_SIDE * MAX_IMAGE_SIDE) by (nonlinear_arith)
                        requires
                            0 <= w <= MAX_IMAGE_SIDE,
                            0 <= h <= MAX_IMAGE_SIDE,
                    ;
                    assert((w * h * 4) % 4 == 0);
                    assert((w * h * 4) / 4 == w * h);
                }
                Some(histogram_rgb(p.as_slice()))
            },
        }
    }

    /// Changes the document size with the content centred.
    pub fn set_canvas_size(&mut self, w: u32, h: u32)
        requires
            old(self).wf(),
        ensures
            final(self).same_settings_and_ids(old(self)),
            (clamp_side(w), clamp_side(h)) == old(self).doc.size ==> final(self).history@ == old(self).history@ && final(self).selection == old(self).selection && final(self).same_status(old(self)),
            (clamp_side(w), clamp_side(h)) != old(self).doc.size ==> records_edit(old(self).history@, final(self).history@, old(self).doc@, final(self).doc@) && final(self).selection@ == Set::<u64>::empty() && !final(self).status_error,
            final(self).wf(),
            (clamp_side(w), clamp_side(h)) == old(self).doc.size ==> final(self).doc@ == old(self).doc@,
            (clamp_side(w), clamp_side(h)) != old(self).doc.size ==> final(self).doc@ == (DocView {
                size: (clamp_side(w), clamp_side(h)),
                ..moved_doc(old(self).doc@, PixelMove::Shift {
                    dx: anchor_shift(old(self).doc.size.0, clamp_side(w), 1) as i64,
                    dy: anchor_shift(old(self).doc.size.1, clamp_side(h), 1) as i64,
                })
            }),
    {
        self.resize_canvas(w, h, (1, 1));
    }
}

/// A message made of `head`, `sep`, the size "w×h" and `tail`.
pub open spec fn size_message(head: Seq<char>, sep: Seq<char>, w: nat, h: nat, tail: Seq<char>) -> Seq<char> {
    head + sep + decimal_spec(w) + seq!['×'] + decimal_spec(h) + tail
}

fn size_message_string(head: &str, sep: &str, w: u32, h: u32, tail: &str) -> (r: String)
    ensures
        r@ == size_message(head@, sep@, w as nat, h as nat, tail@),
{
    proof {
        reveal_strlit("×");
        assert("×"@ =~= seq!['×']);
    }
    let mut s = String::from_str(head);
    s.append(sep);
    let dw = decimal_string(w as u64);
    s.append(dw.as_str());
    s.append("×");
    let dh = decimal_string(h as u64);
    s.append(dh.as_str());
    s.append(tail);
    s
}

/// Twice the shift of the content along one axis (see `anchor_shift_halves`).
pub open spec fn anchor_halves(old_side: u32, new_side: u32, a: u8) -> int {
    if a == 0 {
        0
    } else if a == 1 {
        new_side - old_side
    } else {
        2 * (new_side - old_side)
    }
}

/// Half of `v`, rounded toward zero.
pub open spec fn half_toward_zero_spec(v: int) -> int {
    if v >= 0 { v / 2 } else { -((-v) / 2) }
}

/// The whole-pixel shift of the content along one axis when the canvas goes
/// from `old_side` to `new_side` with anchor `a`.
pub open spec fn anchor_shift(old_side: u32, new_side: u32, a: u8) -> int {
    half_toward_zero_spec(anchor_halves(old_side, new_side, a))
}

/// Half of `v`, rounded toward zero.
pub fn half_toward_zero(v: i64) -> (r: i64)
    requires
        v > i64::MIN,
    ensures
        r == half_toward_zero_spec(v as int),
{
    if v >= 0 { v / 2 } else { -((-v) / 2) }
}

/// Twice the shift of the content along one axis when the canvas goes from
/// `old_side` to `new_side` with anchor `a` (0 = start, 1 = centre, 2 = end;
/// larger values count as 2): `(new - old) · min(a, 2)`.
pub fn anchor_shift_halves(old_side: u32, new_side: u32, a: u8) -> (r: i64)
    ensures
        r == anchor_halves(old_side, new_side, a),
{
    let d: i64 = new_side as i64 - old_side as i64;
    if a == 0 {
        0
    } else if a == 1 {
        d
    } else {
        d + d
    }
}

} // verus!
