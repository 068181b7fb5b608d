//! Animation: every frame is a full snapshot of the layer stack. An empty
//! frame list is a still document; otherwise `layers` shows the active frame,
//! which is written back into the frame list when leaving it. Each frame
//! operation is one undoable document replacement.

use vstd::prelude::*;
use crate::document::{
    copy_frames, copy_layers, frames_view, layers_view, AnimationFrame, DocView, Document, FrameView,
    DEFAULT_FRAME_DELAY_MS, MIN_FRAME_DELAY_MS,
};
use crate::editor::{records_edit, records_label, PaintApp};
use crate::i18n::{t, t_spec};

verus! {

/// Frames with the active one holding the current layers (the active frame
/// is only written back when switching or exporting).
pub open spec fn synced(d: DocView) -> Seq<FrameView> {
    if 0 <= d.active_frame < d.frames.len() {
        d.frames.update(d.active_frame, FrameView { layers: d.layers, ..d.frames[d.active_frame] })
    } else {
        d.frames
    }
}

/// `a` kept inside a stack of `n >= 1` layers.
pub open spec fn clamp_active(a: int, n: int) -> int {
    if a < n {
        a
    } else {
        n - 1
    }
}

/// Document after adding a frame: the current content is duplicated into a
/// new frame right after the active one, which becomes active; a still
/// document becomes a two-frame animation.
pub open spec fn add_frame_spec(d: DocView) -> DocView {
    let base = if d.frames.len() == 0 {
        seq![FrameView { layers: d.layers, delay_ms: DEFAULT_FRAME_DELAY_MS }]
    } else {
        synced(d)
    };
    let a = if d.frames.len() == 0 { 0 } else { d.active_frame };
    DocView {
        frames: base.insert(a + 1, FrameView { layers: d.layers, delay_ms: DEFAULT_FRAME_DELAY_MS }),
        active_frame: a + 1,
        ..d
    }
}

/// Document after switching the edition to frame `i` (a valid, other frame).
pub open spec fn switch_frame_spec(d: DocView, i: int) -> DocView {
    let fs = synced(d);
    DocView {
        frames: fs,
        layers: fs[i].layers,
        active_layer: clamp_active(d.active_layer, fs[i].layers.len() as int),
        active_frame: i,
        ..d
    }
}

/// Active frame after removing frame `i` from `n` frames.
pub open spec fn active_after_remove(af: int, i: int, n: int) -> int {
    if af >= n - 1 {
        n - 2
    } else if i < af {
        af - 1
    } else {
        af
    }
}

/// Document after removing frame `i` (when more than one frame remains).
pub open spec fn remove_frame_spec(d: DocView, i: int) -> DocView {
    let fs = synced(d).remove(i);
    let af = active_after_remove(d.active_frame, i, d.frames.len() as int);
    DocView {
        frames: fs,
        layers: fs[af].layers,
        active_layer: clamp_active(d.active_layer, fs[af].layers.len() as int),
        active_frame: af,
        ..d
    }
}

/// Document after swapping frame `i` with frame `j`; the active frame
/// follows its content.
pub open spec fn move_frame_spec(d: DocView, i: int, j: int) -> DocView {
    let fs = synced(d);
    DocView {
        frames: fs.update(i, fs[j]).update(j, fs[i]),
        active_frame: if d.active_frame == i {
            j
        } else if d.active_frame == j {
            i
        } else {
            d.active_frame
        },
        ..d
    }
}

/// Switching away from a frame and back gives back the layers it had when
/// it was left: edits made on each frame are kept.
pub proof fn law_switch_round_trip(d: DocView, i: int)
    requires
        d.wf(),
        d.frames.len() > 0,
        0 <= i < d.frames.len(),
        i != d.active_frame,
    ensures
        switch_frame_spec(switch_frame_spec(d, i), d.active_frame).layers == d.layers,
        switch_frame_spec(switch_frame_spec(d, i), d.active_frame).active_frame == d.active_frame,
{
    let d1 = switch_frame_spec(d, i);
    assert(synced(d1)[d.active_frame] == synced(d)[d.active_frame]);
}

/// Removing a frame never leaves an animation without frames, and keeps
/// the active frame in range.
pub proof fn law_remove_keeps_a_frame(d: DocView, i: int)
    requires
        d.wf(),
        d.frames.len() > 1,
        0 <= i < d.frames.len(),
    ensures
        remove_frame_spec(d, i).frames.len() == d.frames.len() - 1,
        remove_frame_spec(d, i).frames.len() >= 1,
        0 <= remove_frame_spec(d, i).active_frame < remove_frame_spec(d, i).frames.len(),
{
}

/// Removing a frame other than the one being edited keeps the edition on
/// the same frame: the active frame is still that frame's content (its
/// index drops by one when a frame before it goes), and the layers shown
/// are the ones being edited. Removing the frame being edited moves the
/// edition to the frame that followed it, or to the one before it when it
/// was the last.
pub proof fn law_remove_keeps_the_edited_frame(d: DocView, i: int)
    requires
        d.wf(),
        d.frames.len() > 1,
        0 <= i < d.frames.len(),
    ensures
        ({
            let r = remove_frame_spec(d, i);
            let af = d.active_frame;
            &&& i != af ==> r.frames[r.active_frame] == synced(d)[af]
            &&& i != af ==> r.layers == d.layers
            &&& i < af ==> r.active_frame == af - 1
            &&& i > af ==> r.active_frame == af
            &&& i == af && af + 1 < d.frames.len() ==> r.frames[r.active_frame] == synced(d)[af + 1]
            &&& i == af && af + 1 == d.frames.len() ==> r.frames[r.active_frame] == synced(d)[af - 1]
        }),
{
    let fs = synced(d);
    let af = d.active_frame;
    assert(fs.len() == d.frames.len());
    assert(fs[af] == FrameView { layers: d.layers, ..d.frames[af] });
}

/// After moving frames, the active frame still shows the same content.
pub proof fn law_move_tracks_active(d: DocView, i: int, j: int)
    requires
        d.wf(),
        0 <= i < d.frames.len(),
        0 <= j < d.frames.len(),
    ensures
        move_frame_spec(d, i, j).frames[move_frame_spec(d, i, j).active_frame] == synced(d)[d.active_frame],
{
}

proof fn lemma_synced_frames_ok(d: DocView)
    requires
        d.wf(),
    ensures
        synced(d).len() == d.frames.len(),
        forall|k: int| 0 <= k < synced(d).len() ==> #[trigger] synced(d)[k].layers.len() >= 1,
{
}

/// Copy of the frames with the active one resynchronised from the current
/// layers.
fn synced_frames_of(doc: &Document) -> (r: Vec<AnimationFrame>)
    ensures
        frames_view(r@) == synced(doc@),
{
    let mut frames = copy_frames(&doc.frames);
    if doc.active_frame < frames.len() {
        let af = doc.active_frame;
        let f = AnimationFrame { layers: copy_layers(&doc.layers), delay_ms: frames[af].delay_ms };
        let ghost fv = f@;
        frames.set(af, f);
        proof {
            assert(frames_view(frames@) =~= synced(doc@));
        }
    }
    frames
}

impl PaintApp {
    /// Frames for export, with the frame being edited up to date.
    pub fn synced_frames(&self) -> (r: Vec<AnimationFrame>)
        ensures
            frames_view(r@) == synced(self.doc@),
    {
        synced_frames_of(&self.doc)
    }

    /// Adds a frame right after the active one, duplicating the current
    /// content, and makes it active; the first call turns a still document
    /// into a two-frame animation.
    pub fn add_animation_frame(&mut self)
        requires
            old(self).wf(),
            old(self).doc@.frames.len() < usize::MAX - 1,
        ensures
            records_label(old(self).history, final(self).history, t_spec(old(self).lang, "Ajouter une frame", "Add frame")),
            final(self).same_settings_and_ids(old(self)),
            final(self).same_status(old(self)),
            final(self).selection@ == Set::<u64>::empty(),
            final(self).wf(),
            final(self).doc@ == add_frame_spec(old(self).doc@),
            records_edit(old(self).history@, final(self).history@, old(self).doc@, final(self).doc@),
    {
        let mut after = self.doc.copy();
        let ghost d = self.doc@;
        if after.frames.len() == 0 {
            let f = AnimationFrame::new(copy_layers(&after.layers));
            after.frames.push(f);
            assert(frames_view(after.frames@) =~= seq![
                FrameView { layers: d.layers, delay_ms: DEFAULT_FRAME_DELAY_MS },
            ]);
        } else {
            after.frames = synced_frames_of(&self.doc);
        }
        let a: usize = if self.doc.frames.len() == 0 { 0 } else { self.doc.active_frame };
        let f = AnimationFrame::new(copy_layers(&after.layers));
        let ghost fv = f@;
        let ghost before_ins = frames_view(after.frames@);
        assert(before_ins.len() == after.frames@.len());
        assert(d.frames.len() > 0 ==> synced(d).len() == d.frames.len());
        after.frames.insert(a + 1, f);
        after.active_frame = a + 1;
        proof {
            assert(frames_view(after.frames@) =~= before_ins.insert(a + 1, fv));
            assert(frames_view(after.frames@) =~= add_frame_spec(d).frames);
            lemma_synced_frames_ok(d);
            assert(after@ == add_frame_spec(d));
        }
        self.push_doc_snapshot(after, t(self.lang, "Ajouter une frame", "Add frame"));
    }

    /// Moves the edition to frame `index`, saving the frame being left.
    /// Nothing happens for an unknown index or the active frame. The active
    /// layer index stays as it is when the new frame has that many layers;
    /// otherwise it goes to the new frame's top layer, so that it always
    /// names a layer.
    pub fn switch_animation_frame(&mut self, index: usize)
        requires
            old(self).wf(),
        ensures
            (index < old(self).doc@.frames.len() && index != old(self).doc@.active_frame) ==> records_label(old(self).history, final(self).history, t_spec(old(self).lang, "Changer de frame", "Switch frame")),
            final(self).same_settings_and_ids(old(self)),
            final(self).same_status(old(self)),
            final(self).doc@ == old(self).doc@ ==> final(self).selection == old(self).selection,
            final(self).history@ != old(self).history@ ==> final(self).selection@ == Set::<u64>::empty(),
            final(self).wf(),
            (index >= old(self).doc@.frames.len() || index == old(self).doc@.active_frame) ==> final(self).doc@ == old(self).doc@ && final(self).history@ == old(self).history@,
            (index < old(self).doc@.frames.len() && index != old(self).doc@.active_frame) ==> {
                &&& final(self).doc@ == switch_frame_spec(old(self).doc@, index as int)
                &&& records_edit(old(self).history@, final(self).history@, old(self).doc@, final(self).doc@)
            },
    {
        if index >= self.doc.frames.len() || index == self.doc.active_frame {
            return;
        }
        let ghost d = self.doc@;
        proof {
            lemma_synced_frames_ok(d);
        }
        let mut after = self.doc.copy();
        after.frames = synced_frames_of(&self.doc);
        assert(frames_view(after.frames@)[index as int] == after.frames@[index as int]@);
        assert(synced(d)[index as int].layers.len() >= 1);
        assert(layers_view(after.frames@[index as int].layers@).len() >= 1);
        after.layers = copy_layers(&after.frames[index].layers);
        if after.active_layer >= after.layers.len() {
            after.active_layer = after.layers.len() - 1;
        }
        after.active_frame = index;
        proof {
            assert(after@ == switch_frame_spec(d, index as int));
        }
        self.push_doc_snapshot(after, t(self.lang, "Changer de frame", "Switch frame"));
    }

    /// Deletes frame `index`. Refuses to remove the last remaining frame
    /// (or an unknown index). The active frame stays on its content when
    /// possible, otherwise moves to the new last frame. The active layer
    /// index stays as it is when that frame has that many layers; otherwise
    /// it goes to its top layer.
    pub fn remove_animation_frame(&mut self, index: usize)
        requires
            old(self).wf(),
        ensures
            (old(self).doc@.frames.len() > 1 && index < old(self).doc@.frames.len()) ==> records_label(old(self).history, final(self).history, t_spec(old(self).lang, "Supprimer la frame", "Delete frame")),
            final(self).same_settings_and_ids(old(self)),
            final(self).same_status(old(self)),
            final(self).history@ == old(self).history@ ==> final(self).selection == old(self).selection,
            final(self).history@ != old(self).history@ ==> final(self).selection@ == Set::<u64>::empty(),
            final(self).wf(),
            (old(self).doc@.frames.len() <= 1 || index >= old(self).doc@.frames.len()) ==> final(self).doc@ == old(self).doc@ && final(self).history@ == old(self).history@,
            (old(self).doc@.frames.len() > 1 && index < old(self).doc@.frames.len()) ==> {
                &&& final(self).doc@ == remove_frame_spec(old(self).doc@, index as int)
                &&& records_edit(old(self).history@, final(self).history@, old(self).doc@, final(self).doc@)
            },
    {
        if self.doc.frames.len() <= 1 || index >= self.doc.frames.len() {
            return;
        }
        let ghost d = self.doc@;
        proof {
            lemma_synced_frames_ok(d);
        }
        let n = self.doc.frames.len();
        let mut after = self.doc.copy();
        after.frames = synced_frames_of(&self.doc);
        let ghost fv = frames_view(after.frames@);
        after.frames.remove(index);
        proof {
            assert(frames_view(after.frames@) =~= fv.remove(index as int));
        }
        let af = after.active_frame;
        let naf = if af >= after.frames.len() {
            after.frames.len() - 1
        } else if index < af {
            af - 1
        } else {
            af
        };
        after.active_frame = naf;
        assert(frames_view(after.frames@)[naf as int] == after.frames@[naf as int]@);
        assert(fv.remove(index as int)[naf as int].layers.len() >= 1);
        assert(layers_view(after.frames@[naf as int].layers@).len() >= 1);
        after.layers = copy_layers(&after.frames[naf].layers);
        if after.active_layer >= after.layers.len() {
            after.active_layer = after.layers.len() - 1;
        }
        proof {
            assert(after@ == remove_frame_spec(d, index as int));
        }
        self.push_doc_snapshot(after, t(self.lang, "Supprimer la frame", "Delete frame"));
    }

    /// Swaps frame `index` with its neighbour `index + delta`; the active
    /// frame follows its content. Nothing happens when either place is
    /// outside the frame list.
    pub fn move_animation_frame(&mut self, index: usize, delta: i32)
        requires
            old(self).wf(),
        ensures
            (0 <= index + delta < old(self).doc@.frames.len() && index < old(self).doc@.frames.len()) ==> records_label(old(self).history, final(self).history, t_spec(old(self).lang, "Réordonner les frames", "Reorder frames")),
            final(self).same_settings_and_ids(old(self)),
            final(self).same_status(old(self)),
            final(self).history@ == old(self).history@ ==> final(self).selection == old(self).selection,
            final(self).history@ != old(self).history@ ==> final(self).selection@ == Set::<u64>::empty(),
            final(self).wf(),
            ({
                let n = old(self).doc@.frames.len();
                let j = index + delta;
                &&& (j < 0 || j >= n || index >= n) ==> final(self).doc@ == old(self).doc@ && final(self).history@ == old(self).history@
                &&& (0 <= j < n && index < n) ==> {
                    &&& final(self).doc@ == move_frame_spec(old(self).doc@, index as int, j)
                    &&& records_edit(
                        old(self).history@,
                        final(self).history@,
                        old(self).doc@,
                        final(self).doc@,
                    )
                }
            }),
    {
        let j: i128 = index as i128 + delta as i128;
        if j < 0 || j >= self.doc.frames.len() as i128 || index >= self.doc.frames.len() {
            return;
        }
        let j = j as usize;
        let ghost d = self.doc@;
        proof {
            lemma_synced_frames_ok(d);
        }
        let mut after = self.doc.copy();
        let mut frames = synced_frames_of(&self.doc);
        let ghost fv = frames_view(frames@);
        let fi = frames[index].copy();
        let fj = frames[j].copy();
        frames.set(index, fj);
        frames.set(j, fi);
        proof {
            assert(frames_view(frames@) =~= fv.update(index as int, fv[j as int]).update(
                j as int,
                fv[index as int],
            ));
        }
        after.frames = frames;
        let af = after.active_frame;
        after.active_frame = if af == index {
            j
        } else if af == j {
            index
        } else {
            af
        };
        proof {
            assert(after@ == move_frame_spec(d, index as int, j as int));
        }
        self.push_doc_snapshot(after, t(self.lang, "Réordonner les frames", "Reorder frames"));
    }

    /// Sets the display time of frame `index`, never below 20 ms. Not an
    /// undo step (continuous slider edit).
    pub fn set_frame_delay(&mut self, index: usize, delay_ms: u32)
        requires
            old(self).wf(),
        ensures
            final(self).same_settings_and_ids(old(self)),
            final(self).selection == old(self).selection,
            final(self).same_status(old(self)),
            final(self).wf(),
            final(self).history@ == old(self).history@,
            index >= old(self).doc@.frames.len() ==> final(self).doc@ == old(self).doc@,
            index < old(self).doc@.frames.len() ==> final(self).doc@ == (DocView {
                frames: old(self).doc@.frames.update(
                    index as int,
                    FrameView {
                        delay_ms: if delay_ms < MIN_FRAME_DELAY_MS {
                            MIN_FRAME_DELAY_MS
                        } else {
                            delay_ms
                        },
                        ..old(self).doc@.frames[index as int]
                    },
                ),
                ..old(self).doc@
            }),
    {
        if index < self.doc.frames.len() {
            let ghost fv = frames_view(self.doc.frames@);
            let mut f = self.doc.frames[index].copy();
            f.delay_ms = if delay_ms < MIN_FRAME_DELAY_MS {
                MIN_FRAME_DELAY_MS
            } else {
                delay_ms
            };
            let ghost nf = f@;
            self.doc.frames.set(index, f);
            proof {
                assert(frames_view(self.doc.frames@) =~= fv.update(index as int, nf));
            }
        }
    }
}

} // verus!
