//! Internal clipboard and selection: copy, cut, paste and duplicate the
//! selected elements of the active layer (copies get fresh ids and become
//! the selection), find the one selected image or text block, and report
//! the size of the selection.

use vstd::prelude::*;
use std::collections::HashSet;
use crate::document::{copy_layers, layers_view, DocView, LayerView, MAX_IMAGE_SIDE};
use crate::editor::{records_edit, records_label, PaintApp};
use crate::history::Command;
use crate::i18n::{t, t_spec, Lang};
use crate::text::{decimal_spec, decimal_string};
use crate::layers_ops::{fresh_ids, selected, unselected, without_selected};
use crate::raster::{crop_rgba_padded, padded_crop_byte};
use crate::tools::ActiveTool;

verus! {

broadcast use vstd::std_specs::hash::group_hash_axioms;

/// Elements copied from the document, by kind.
pub struct ClipBoard {
    pub strokes: Vec<u64>,
    pub texts: Vec<u64>,
    pub images: Vec<u64>,
}

impl ClipBoard {
    /// An empty clipboard.
    pub fn new() -> (r: ClipBoard)
        ensures
            r.strokes@.len() == 0,
            r.texts@.len() == 0,
            r.images@.len() == 0,
    {
        ClipBoard { strokes: Vec::new(), texts: Vec::new(), images: Vec::new() }
    }

    /// Holds nothing.
    pub open spec fn spec_is_empty(&self) -> bool {
        self.strokes@.len() == 0 && self.texts@.len() == 0 && self.images@.len() == 0
    }

    /// Whether the clipboard holds nothing.
    pub fn is_empty(&self) -> (r: bool)
        ensures
            r == self.spec_is_empty(),
    {
        self.strokes.len() == 0 && self.texts.len() == 0 && self.images.len() == 0
    }
}

fn selected_of(v: &Vec<u64>, sel: &HashSet<u64>) -> (r: Vec<u64>)
    ensures
        r@ == selected(v@, sel@),
{
    let mut take: Vec<u64> = Vec::new();
    let mut i: usize = 0;
    while i < v.len()
        invariant
            i <= v@.len(),
            take@ == selected(v@.subrange(0, i as int), sel@),
        decreases v@.len() - i,
    {
        let x = v[i];
        proof {
            assert(v@.subrange(0, i + 1).drop_last() =~= v@.subrange(0, i as int));
            assert(v@.subrange(0, i + 1).last() == x);
            reveal_with_fuel(Seq::filter, 1);
        }
        if sel.contains(&x) {
            take.push(x);
        }
        i = i + 1;
    }
    assert(v@.subrange(0, v@.len() as int) =~= v@);
    take
}

/// Ids `start .. end` as a set.
pub open spec fn id_range(start: int, end: int) -> Set<u64> {
    Set::new(|x: u64| start <= x < end)
}

proof fn lemma_id_range_grow(start: int, end: int)
    requires
        0 <= start <= end <= u64::MAX,
    ensures
        id_range(start, end).insert(end as u64) == id_range(start, end + 1),
{
    assert forall|x: u64| #[trigger] id_range(start, end).insert(end as u64).contains(x) == id_range(start, end + 1).contains(x) by {
    }
    assert(id_range(start, end).insert(end as u64) =~= id_range(start, end + 1));
}

/// The active layer of `d` with `strokes`, `texts` and `images` appended.
pub open spec fn with_pasted(
    d: DocView,
    strokes: Seq<u64>,
    texts: Seq<u64>,
    images: Seq<u64>,
) -> DocView {
    let a = d.active_layer;
    let l = d.layers[a];
    DocView {
        layers: d.layers.update(
            a,
            LayerView { strokes: l.strokes + strokes, texts: l.texts + texts, images: l.images + images, ..l },
        ),
        ..d
    }
}

impl PaintApp {
    /// Copies the selected elements of the active layer to the clipboard;
    /// the clipboard is left as it was when nothing is selected there.
    pub fn copy_selection(&mut self)
        requires
            old(self).wf(),
        ensures
            !({
                let l = old(self).doc@.layers[old(self).doc@.active_layer];
                let sel = old(self).selection@;
                selected(l.strokes, sel).len() == 0 && selected(l.texts, sel).len() == 0
                    && selected(l.images, sel).len() == 0
            }) ==> (final(self).status matches Some(m) && m@ == t_spec(old(self).lang, "Copié.", "Copied.")@),
            final(self).same_settings(&(PaintApp { clip: final(self).clip, ..*old(self) })),
            final(self).comparing_before == old(self).comparing_before,
            ({
                let l = old(self).doc@.layers[old(self).doc@.active_layer];
                let sel = old(self).selection@;
                selected(l.strokes, sel).len() == 0 && selected(l.texts, sel).len() == 0
                    && selected(l.images, sel).len() == 0
            }) ==> final(self).same_status(old(self)),
            final(self).wf(),
            ({
                let l = old(self).doc@.layers[old(self).doc@.active_layer];
                let sel = old(self).selection@;
                let empty = selected(l.strokes, sel).len() == 0 && selected(l.texts, sel).len() == 0
                    && selected(l.images, sel).len() == 0;
                &&& empty ==> final(self).clip == old(self).clip
                &&& !empty ==> {
                    &&& final(self).clip.strokes@ == selected(l.strokes, sel)
                    &&& final(self).clip.texts@ == selected(l.texts, sel)
                    &&& final(self).clip.images@ == selected(l.images, sel)
                    &&& !final(self).status_error
                }
            }),
            final(self).doc@ == old(self).doc@,
            final(self).history@ == old(self).history@,
            final(self).selection@ == old(self).selection@,
            final(self).next_id == old(self).next_id,
    {
        let a = self.doc.active_layer;
        let c = ClipBoard {
            strokes: selected_of(&self.doc.layers[a].strokes, &self.selection),
            texts: selected_of(&self.doc.layers[a].texts, &self.selection),
            images: selected_of(&self.doc.layers[a].images, &self.selection),
        };
        if !c.is_empty() {
            self.clip = c;
            self.info(String::from_str(t(self.lang, "Copié.", "Copied.")));
        }
    }

    /// Copies, then deletes, the selected elements.
    pub fn cut_selection(&mut self)
        requires
            old(self).wf(),
        ensures
            final(self).same_settings(&(PaintApp { clip: final(self).clip, ..*old(self) })),
            final(self).comparing_before == old(self).comparing_before,
            final(self).next_id == old(self).next_id,
            old(self).selection@.is_empty() ==> final(self).history@ == old(self).history@ && final(self).selection@ == old(self).selection@ && final(self).same_status(old(self)),
            final(self).wf(),
            ({
                let d = old(self).doc@;
                let a = d.active_layer;
                let sel = old(self).selection@;
                &&& !sel.is_empty() ==> final(self).doc@ == (DocView {
                    layers: d.layers.update(a, without_selected(d.layers[a], sel)),
                    ..d
                })
                &&& sel.is_empty() ==> final(self).doc@ == d
            }),
            !old(self).selection@.is_empty() ==> final(self).selection@ == Set::<u64>::empty(),
    {
        proof {
            let l = self.doc@.layers[self.doc@.active_layer];
            if self.selection@.is_empty() {
                lemma_empty_selection_selects_nothing(l.strokes, self.selection@);
                lemma_empty_selection_selects_nothing(l.texts, self.selection@);
                lemma_empty_selection_selects_nothing(l.images, self.selection@);
            }
        }
        self.copy_selection();
        self.delete_selection();
    }

    /// Pastes the clipboard into the active layer with fresh ids, in one
    /// undoable step for the strokes and one per text and per image; the
    /// pasted elements become the selection and the selection tool becomes
    /// active. `false` (and no change) for an empty clipboard.
    pub fn paste_clipboard(&mut self) -> (r: bool)
        requires
            old(self).wf(),
            old(self).next_id + old(self).clip.strokes@.len() + old(self).clip.texts@.len() + old(
                self,
            ).clip.images@.len() <= u64::MAX,
        ensures
            r ==> (final(self).status matches Some(m) && m@ == t_spec(old(self).lang, "Collé.", "Pasted.")@),
            final(self).same_settings(&(PaintApp { active_tool: final(self).active_tool, ..*old(self) })),
            final(self).comparing_before == old(self).comparing_before,
            !r ==> final(self).active_tool == old(self).active_tool && final(self).selection == old(self).selection && final(self).same_status(old(self)),
            final(self).wf(),
            r == !old(self).clip.spec_is_empty(),
            !r ==> final(self).doc@ == old(self).doc@ && final(self).history@ == old(self).history@
                && final(self).next_id == old(self).next_id,
            r ==> {
                let n0 = old(self).next_id as int;
                let ns = old(self).clip.strokes@.len() as int;
                let nt = old(self).clip.texts@.len() as int;
                let ni = old(self).clip.images@.len() as int;
                &&& final(self).doc@ == with_pasted(
                    old(self).doc@,
                    fresh_ids(n0, ns),
                    fresh_ids(n0 + ns, nt),
                    fresh_ids(n0 + ns + nt, ni),
                )
                &&& final(self).next_id == n0 + ns + nt + ni
                &&& final(self).selection@ == id_range(n0, n0 + ns + nt + ni)
                &&& final(self).history@.cursor == old(self).history@.cursor + (if ns > 0 {
                    1int
                } else {
                    0int
                }) + nt + ni
                &&& final(self).active_tool == ActiveTool::Select
                &&& !final(self).status_error
            },
    {
        if self.clip.is_empty() {
            return false;
        }
        let a = self.doc.active_layer;
        let ghost d = self.doc@;
        let ghost l = d.layers[a as int];
        let ghost h0 = self.history@;
        let ghost n0 = self.next_id as int;
        let ns = self.clip.strokes.len();
        let nt = self.clip.texts.len();
        let ni = self.clip.images.len();
        let mut newsel: HashSet<u64> = HashSet::new();
        // Strokes: one step for all of them.
        if ns > 0 {
            let ids = crate::layers_ops::take_fresh_ids(&mut self.next_id, ns);
            let mut k: usize = 0;
            while k < ids.len()
                invariant
                    k <= ids@.len(),
                    ids@.len() == ns,
                    0 <= n0,
                    n0 + ns <= u64::MAX,
                    ids@ == fresh_ids(n0, ns as int),
                    newsel@ == id_range(n0, n0 + k),
                decreases ids@.len() - k,
            {
                assert(ids@[k as int] == (n0 + k) as u64);
                let ghost before_ins = newsel@;
                newsel.insert(ids[k]);
                proof {
                    lemma_id_range_grow(n0, n0 + k);
                }
                k = k + 1;
            }
            let before = copy_layers(&self.doc.layers);
            let mut after = copy_layers(&self.doc.layers);
            let mut layer = after[a].copy();
            let mut j: usize = 0;
            while j < ids.len()
                invariant
                    j <= ids@.len(),
                    layer.strokes@ == l.strokes + ids@.subrange(0, j as int),
                    layer@ == (LayerView { strokes: layer.strokes@, ..l }),
                decreases ids@.len() - j,
            {
                layer.strokes.push(ids[j]);
                j = j + 1;
                assert(layer.strokes@ =~= l.strokes + ids@.subrange(0, j as int));
            }
            assert(ids@.subrange(0, ids@.len() as int) =~= ids@);
            assert(layers_view(after@)[a as int] == after@[a as int]@);
            let ghost lv = layer@;
            after.set(a, layer);
            assert(layers_view(after@) =~= d.layers.update(a as int, lv));
            let cmd = Command::SetLayers { before, before_active: a, after, after_active: a, label: t(self.lang, "Coller", "Paste") };
            self.record(cmd);
            assert(lv == (LayerView { strokes: l.strokes + fresh_ids(n0, ns as int), ..l }));
            assert(l.texts + Seq::<u64>::empty() =~= l.texts);
            assert(l.images + Seq::<u64>::empty() =~= l.images);
            assert(self.doc@.layers =~= with_pasted(d, fresh_ids(n0, ns as int), Seq::empty(), Seq::empty()).layers);
        } else {
            assert(newsel@ =~= id_range(n0, n0));
            assert(fresh_ids(n0, 0) =~= Seq::<u64>::empty());
            assert(l.strokes + Seq::<u64>::empty() =~= l.strokes);
            assert(l.texts + Seq::<u64>::empty() =~= l.texts);
            assert(l.images + Seq::<u64>::empty() =~= l.images);
            assert(self.doc@.layers =~= with_pasted(d, fresh_ids(n0, ns as int), Seq::empty(), Seq::empty()).layers);
        }
        assert(self.doc@ == with_pasted(d, fresh_ids(n0, ns as int), Seq::empty(), Seq::empty()));
        assert(self.next_id == n0 + ns);
        // Texts: one step each.
        let mut k: usize = 0;
        while k < nt
            invariant
                self.wf(),
                nt == self.clip.texts@.len(),
                ni == self.clip.images@.len(),
                k <= nt,
                n0 + ns + nt + ni <= u64::MAX,
                0 <= n0,
                self.next_id == n0 + ns + k,
                newsel@ == id_range(n0, n0 + ns + k),
                self.doc@ == with_pasted(d, fresh_ids(n0, ns as int), fresh_ids(n0 + ns, k as int), Seq::empty()),
                self.history@.cursor == h0.cursor + (if ns > 0 { 1int } else { 0int }) + k,
                self.same_settings(old(self)),
                self.comparing_before == old(self).comparing_before,
                d.active_layer == a,
                a < d.layers.len(),
            decreases nt - k,
        {
            let id = self.next_id;
            self.next_id = self.next_id + 1;
            proof {
                lemma_id_range_grow(n0, n0 + ns + k);
            }
            newsel.insert(id);
            let before = copy_layers(&self.doc.layers);
            let mut after = copy_layers(&self.doc.layers);
            assert(layers_view(after@)[a as int] == after@[a as int]@);
            let mut layer = after[a].copy();
            layer.texts.push(id);
            let ghost lv = layer@;
            let ghost cur = layers_view(after@);
            after.set(a, layer);
            assert(layers_view(after@) =~= cur.update(a as int, lv));
            let cmd = Command::SetLayers { before, before_active: a, after, after_active: a, label: t(self.lang, "Coller", "Paste") };
            self.record(cmd);
            k = k + 1;
            assert(fresh_ids(n0 + ns, k as int) =~= fresh_ids(n0 + ns, k - 1).push(id));
            assert(self.doc@.layers =~= with_pasted(
                d,
                fresh_ids(n0, ns as int),
                fresh_ids(n0 + ns, k as int),
                Seq::empty(),
            ).layers);
        }
        // Images: one step each.
        let mut k: usize = 0;
        while k < ni
            invariant
                self.wf(),
                ni == self.clip.images@.len(),
                k <= ni,
                n0 + ns + nt + ni <= u64::MAX,
                0 <= n0,
                self.next_id == n0 + ns + nt + k,
                newsel@ == id_range(n0, n0 + ns + nt + k),
                self.doc@ == with_pasted(
                    d,
                    fresh_ids(n0, ns as int),
                    fresh_ids(n0 + ns, nt as int),
                    fresh_ids(n0 + ns + nt, k as int),
                ),
                self.history@.cursor == h0.cursor + (if ns > 0 { 1int } else { 0int }) + nt + k,
                self.same_settings(old(self)),
                self.comparing_before == old(self).comparing_before,
                d.active_layer == a,
                a < d.layers.len(),
            decreases ni - k,
        {
            let id = self.next_id;
            self.next_id = self.next_id + 1;
            proof {
                lemma_id_range_grow(n0, n0 + ns + nt + k);
            }
            newsel.insert(id);
            let before = copy_layers(&self.doc.layers);
            let mut after = copy_layers(&self.doc.layers);
            assert(layers_view(after@)[a as int] == after@[a as int]@);
            let mut layer = after[a].copy();
            layer.images.push(id);
            let ghost lv = layer@;
            let ghost cur = layers_view(after@);
            after.set(a, layer);
            assert(layers_view(after@) =~= cur.update(a as int, lv));
            let cmd = Command::SetLayers { before, before_active: a, after, after_active: a, label: t(self.lang, "Coller", "Paste") };
            self.record(cmd);
            k = k + 1;
            assert(fresh_ids(n0 + ns + nt, k as int) =~= fresh_ids(n0 + ns + nt, k - 1).push(id));
            assert(self.doc@.layers =~= with_pasted(
                d,
                fresh_ids(n0, ns as int),
                fresh_ids(n0 + ns, nt as int),
                fresh_ids(n0 + ns + nt, k as int),
            ).layers);
        }
        self.selection = newsel;
        self.active_tool = ActiveTool::Select;
        self.info(String::from_str(t(self.lang, "Collé.", "Pasted.")));
        true
    }
}

/// Position of the first id of `s` that `sel` holds.
pub open spec fn first_selected(s: Seq<u64>, sel: Set<u64>) -> Option<int>
    decreases s.len(),
{
    if s.len() == 0 {
        None
    } else if sel.contains(s[0]) {
        Some(0)
    } else {
        match first_selected(s.drop_first(), sel) {
            Some(i) => Some(i + 1),
            None => None,
        }
    }
}

fn first_selected_of(v: &Vec<u64>, sel: &HashSet<u64>) -> (r: Option<usize>)
    ensures
        r matches Some(i) ==> first_selected(v@, sel@) == Some(i as int),
        r is None ==> first_selected(v@, sel@) is None,
{
    let mut i: usize = v.len();
    let mut found: Option<usize> = None;
    while i > 0
        invariant
            i <= v@.len(),
            found matches Some(j) ==> first_selected(v@.subrange(i as int, v@.len() as int), sel@)
                == Some(j - i),
            found matches Some(j) ==> i <= j < v@.len(),
            found is None ==> first_selected(v@.subrange(i as int, v@.len() as int), sel@) is None,
        decreases i,
    {
        i = i - 1;
        let ghost tail = v@.subrange(i as int, v@.len() as int);
        assert(tail.drop_first() =~= v@.subrange(i + 1, v@.len() as int));
        assert(tail[0] == v@[i as int]);
        if sel.contains(&v[i]) {
            found = Some(i);
        }
    }
    assert(v@.subrange(0, v@.len() as int) =~= v@);
    found
}

impl PaintApp {
    /// Position in the active layer's images of the image that is the one
    /// selected element, if exactly one element is selected and it is an
    /// image.
    pub fn single_image_idx(&self) -> (r: Option<usize>)
        requires
            self.wf(),
        ensures
            r matches Some(i) ==> self.selection@.len() == 1 && first_selected(
                self.doc@.layers[self.doc@.active_layer].images,
                self.selection@,
            ) == Some(i as int),
            r is None ==> self.selection@.len() != 1 || first_selected(
                self.doc@.layers[self.doc@.active_layer].images,
                self.selection@,
            ) is None,
    {
        if self.selection.len() != 1 {
            return None;
        }
        let a = self.doc.active_layer;
        assert(layers_view(self.doc.layers@)[a as int] == self.doc.layers@[a as int]@);
        first_selected_of(&self.doc.layers[a].images, &self.selection)
    }

    /// Position in the active layer's texts of the text block that is the
    /// one selected element, if exactly one element is selected and it is a
    /// text block.
    pub fn single_text_idx(&self) -> (r: Option<usize>)
        requires
            self.wf(),
        ensures
            r matches Some(i) ==> self.selection@.len() == 1 && first_selected(
                self.doc@.layers[self.doc@.active_layer].texts,
                self.selection@,
            ) == Some(i as int),
            r is None ==> self.selection@.len() != 1 || first_selected(
                self.doc@.layers[self.doc@.active_layer].texts,
                self.selection@,
            ) is None,
    {
        if self.selection.len() != 1 {
            return None;
        }
        let a = self.doc.active_layer;
        assert(layers_view(self.doc.layers@)[a as int] == self.doc.layers@[a as int]@);
        first_selected_of(&self.doc.layers[a].texts, &self.selection)
    }

    /// Duplicates the selection (⌘D): the selected strokes, text blocks and
    /// images of the active layer get copies with fresh ids (strokes first,
    /// then texts, then images) added on top of the layer in one undoable
    /// step, and the copies become the selection. Nothing happens when no
    /// element of the active layer is selected. Element positions are not
    /// held by this library, so the small offset of the copies is not part
    /// of this operation.
    pub fn duplicate_selection(&mut self)
        requires
            old(self).wf(),
            old(self).next_id + old(self).doc@.layers[old(self).doc@.active_layer].element_ids().len()
                <= u64::MAX,
            old(self).doc@.layers[old(self).doc@.active_layer].element_ids().len() <= usize::MAX,
        ensures
            final(self).history@ != old(self).history@ ==> records_label(old(self).history, final(self).history, t_spec(old(self).lang, "Dupliquer", "Duplicate")),
            final(self).same_settings(old(self)),
            final(self).comparing_before == old(self).comparing_before,
            final(self).same_status(old(self)),
            final(self).wf(),
            ({
                let d = old(self).doc@;
                let l = d.layers[d.active_layer];
                let sel = old(self).selection@;
                let ks = selected(l.strokes, sel).len() as int;
                let kt = selected(l.texts, sel).len() as int;
                let ki = selected(l.images, sel).len() as int;
                let n0 = old(self).next_id as int;
                &&& ks + kt + ki == 0 ==> {
                    &&& final(self).doc@ == d
                    &&& final(self).history@ == old(self).history@
                    &&& final(self).next_id == old(self).next_id
                    &&& final(self).selection@ == old(self).selection@
                }
                &&& ks + kt + ki > 0 ==> {
                    &&& final(self).doc@ == with_pasted(
                        d,
                        fresh_ids(n0, ks),
                        fresh_ids(n0 + ks, kt),
                        fresh_ids(n0 + ks + kt, ki),
                    )
                    &&& records_edit(old(self).history@, final(self).history@, d, final(self).doc@)
                    &&& final(self).next_id == n0 + ks + kt + ki
                    &&& final(self).selection@ == id_range(n0, n0 + ks + kt + ki)
                }
            }),
            final(self).lang == old(self).lang,
    {
        let a = self.doc.active_layer;
        let ghost d = self.doc@;
        let ghost l = d.layers[a as int];
        let ghost n0 = self.next_id as int;
        assert(layers_view(self.doc.layers@)[a as int] == self.doc.layers@[a as int]@);
        let ps = selected_of(&self.doc.layers[a].strokes, &self.selection);
        let pt = selected_of(&self.doc.layers[a].texts, &self.selection);
        let pi = selected_of(&self.doc.layers[a].images, &self.selection);
        let ks = ps.len();
        let kt = pt.len();
        let ki = pi.len();
        if ks == 0 && kt == 0 && ki == 0 {
            return;
        }
        proof {
            lemma_selected_len(l.strokes, self.selection@);
            lemma_selected_len(l.texts, self.selection@);
            lemma_selected_len(l.images, self.selection@);
        }
        let total = ks + kt + ki;
        let ids = crate::layers_ops::take_fresh_ids(&mut self.next_id, total);
        let mut newsel: HashSet<u64> = HashSet::new();
        let mut j: usize = 0;
        while j < ids.len()
            invariant
                j <= ids@.len(),
                ids@.len() == total,
                0 <= n0,
                n0 + total <= u64::MAX,
                ids@ == fresh_ids(n0, total as int),
                newsel@ == id_range(n0, n0 + j),
            decreases ids@.len() - j,
        {
            assert(ids@[j as int] == (n0 + j) as u64);
            newsel.insert(ids[j]);
            proof {
                lemma_id_range_grow(n0, n0 + j);
            }
            j = j + 1;
        }
        let before = copy_layers(&self.doc.layers);
        let mut after = copy_layers(&self.doc.layers);
        assert(layers_view(after@)[a as int] == after@[a as int]@);
        let mut layer = after[a].copy();
        append_range(&mut layer.strokes, &ids, 0, ks);
        append_range(&mut layer.texts, &ids, ks, ks + kt);
        append_range(&mut layer.images, &ids, ks + kt, total);
        proof {
            assert(ids@.subrange(0, ks as int) =~= fresh_ids(n0, ks as int));
            assert(ids@.subrange(ks as int, ks + kt) =~= fresh_ids(n0 + ks, kt as int));
            assert(ids@.subrange(ks + kt, total as int) =~= fresh_ids(n0 + ks + kt, ki as int));
        }
        let ghost lv = layer@;
        let ghost cur = layers_view(after@);
        after.set(a, layer);
        assert(layers_view(after@) =~= cur.update(a as int, lv));
        let cmd = Command::SetLayers { before, before_active: a, after, after_active: a, label: t(self.lang, "Dupliquer", "Duplicate") };
        self.record(cmd);
        assert(self.doc@.layers =~= with_pasted(
            d,
            fresh_ids(n0, ks as int),
            fresh_ids(n0 + ks, kt as int),
            fresh_ids(n0 + ks + kt, ki as int),
        ).layers);
        self.selection = newsel;
    }
}

/// Appends `src[from..to]` to `dst`.
fn append_range(dst: &mut Vec<u64>, src: &Vec<u64>, from: usize, to: usize)
    requires
        from <= to <= src@.len(),
    ensures
        final(dst)@ == old(dst)@ + src@.subrange(from as int, to as int),
{
    let mut i: usize = from;
    while i < to
        invariant
            from <= i <= to <= src@.len(),
            dst@ == old(dst)@ + src@.subrange(from as int, i as int),
        decreases to - i,
    {
        dst.push(src[i]);
        i = i + 1;
        assert(dst@ =~= old(dst)@ + src@.subrange(from as int, i as int));
    }
}

proof fn lemma_empty_selection_selects_nothing(s: Seq<u64>, sel: Set<u64>)
    requires
        sel.is_empty(),
    ensures
        selected(s, sel).len() == 0,
    decreases s.len(),
{
    reveal_with_fuel(Seq::filter, 1);
    if s.len() > 0 {
        lemma_empty_selection_selects_nothing(s.drop_last(), sel);
        assert(!sel.contains(s.last()));
    }
}

proof fn lemma_selected_len(s: Seq<u64>, sel: Set<u64>)
    ensures
        selected(s, sel).len() <= s.len(),
{
    s.lemma_filter_len(|x: u64| sel.contains(x));
}

/// Footer message after a selection by region: "No element selected.",
/// "1 element selected." or "n elements selected.".
pub open spec fn selection_report(lang: Lang, n: nat) -> Seq<char> {
    if n == 0 {
        t_spec(lang, "Aucun élément sélectionné.", "No element selected.")@
    } else if n == 1 {
        t_spec(lang, "1 élément sélectionné.", "1 element selected.")@
    } else {
        decimal_spec(n) + seq![' '] + t_spec(lang, "éléments sélectionnés.", "elements selected.")@
    }
}

impl PaintApp {
    /// Selected ids of the active layer, by kind (strokes, texts, images),
    /// in layer order.
    pub fn selection_ids(&self) -> (r: (Vec<u64>, Vec<u64>, Vec<u64>))
        requires
            self.wf(),
        ensures
            ({
                let l = self.doc@.layers[self.doc@.active_layer];
                &&& r.0@ == selected(l.strokes, self.selection@)
                &&& r.1@ == selected(l.texts, self.selection@)
                &&& r.2@ == selected(l.images, self.selection@)
            }),
    {
        let a = self.doc.active_layer;
        assert(layers_view(self.doc.layers@)[a as int] == self.doc.layers@[a as int]@);
        (
            selected_of(&self.doc.layers[a].strokes, &self.selection),
            selected_of(&self.doc.layers[a].texts, &self.selection),
            selected_of(&self.doc.layers[a].images, &self.selection),
        )
    }

    /// Reports the size of the selection in the footer.
    pub fn report_selection(&mut self)
        ensures
            final(self).status matches Some(m) && m@ == selection_report(
                old(self).lang,
                old(self).selection@.len(),
            ),
            !final(self).status_error,
            final(self).same_but_status(old(self)),
    {
        let n = self.selection.len();
        let msg = if n == 0 {
            String::from_str(t(self.lang, "Aucun élément sélectionné.", "No element selected."))
        } else if n == 1 {
            String::from_str(t(self.lang, "1 élément sélectionné.", "1 element selected."))
        } else {
            let mut m = decimal_string(n as u64);
            m.append(" ");
            m.append(t(self.lang, "éléments sélectionnés.", "elements selected."));
            proof {
                reveal_strlit(" ");
                assert(" "@ =~= seq![' ']);
            }
            m
        };
        self.info(msg);
    }
}

/// `l` with its selected elements replaced by one new image `id`, placed
/// on top of the images.
pub open spec fn merged_to_image(l: LayerView, sel: Set<u64>, id: u64) -> LayerView {
    LayerView {
        strokes: unselected(l.strokes, sel),
        texts: unselected(l.texts, sel),
        images: unselected(l.images, sel).push(id),
        ..l
    }
}

/// Does the selection hold an element of `l`?
pub open spec fn touches_selection(l: LayerView, sel: Set<u64>) -> bool {
    exists|i: int| 0 <= i < l.element_ids().len() && sel.contains(#[trigger] l.element_ids()[i])
}

/// Is one of `ids` selected?
fn any_selected(ids: &Vec<u64>, sel: &HashSet<u64>) -> (r: bool)
    ensures
        r == exists|i: int| 0 <= i < ids@.len() && sel@.contains(#[trigger] ids@[i]),
{
    let mut i: usize = 0;
    while i < ids.len()
        invariant
            i <= ids@.len(),
            forall|j: int| 0 <= j < i ==> !sel@.contains(#[trigger] ids@[j]),
        decreases ids@.len() - i,
    {
        if sel.contains(&ids[i]) {
            return true;
        }
        i = i + 1;
    }
    false
}

impl PaintApp {
    /// Does the selection hold an element of the active layer?
    pub fn selection_touches_active_layer(&self) -> (r: bool)
        requires
            self.wf(),
        ensures
            r == touches_selection(self.doc@.layers[self.doc@.active_layer], self.selection@),
    {
        let a = self.doc.active_layer;
        assert(layers_view(self.doc.layers@)[a as int] == self.doc.layers@[a as int]@);
        let l = &self.doc.layers[a];
        let ghost lv = l@;
        let ghost ids = lv.element_ids();
        let ghost sel = self.selection@;
        let r1 = any_selected(&l.strokes, &self.selection);
        let r2 = any_selected(&l.texts, &self.selection);
        let r3 = any_selected(&l.images, &self.selection);
        proof {
            let ns = lv.strokes.len();
            let nt = lv.texts.len();
            if r1 {
                let j = choose|j: int| 0 <= j < lv.strokes.len() && sel.contains(#[trigger] lv.strokes[j]);
                assert(ids[j] == lv.strokes[j]);
            } else if r2 {
                let j = choose|j: int| 0 <= j < lv.texts.len() && sel.contains(#[trigger] lv.texts[j]);
                assert(ids[ns + j] == lv.texts[j]);
            } else if r3 {
                let j = choose|j: int| 0 <= j < lv.images.len() && sel.contains(#[trigger] lv.images[j]);
                assert(ids[ns + nt + j] == lv.images[j]);
            } else {
                assert forall|i: int| 0 <= i < ids.len() implies !sel.contains(#[trigger] ids[i]) by {
                    if i < ns {
                        assert(ids[i] == lv.strokes[i]);
                    } else if i < ns + nt {
                        assert(ids[i] == lv.texts[i - ns]);
                    } else {
                        assert(ids[i] == lv.images[i - ns - nt]);
                    }
                }
            }
        }
        r1 || r2 || r3
    }

    /// Merges the selected elements (at least two) of the active layer into
    /// one image at their place: `rendered` is the render of the selection
    /// alone at the document's size (`None` when rendering failed), and
    /// `[x0, x1) × [y0, y1)` the rectangle around the selection, which may
    /// reach past the canvas's right or bottom edge (that part of the image
    /// is transparent). The image gets the next element id and the pixels
    /// of that rectangle, which are returned with its id and size; the
    /// selected elements leave the layer, the image becomes the selection,
    /// all in one undoable step. Nothing happens when fewer than two
    /// elements are selected, when none of them is on the active layer, or
    /// when rendering failed.
    pub fn merge_selection_to_image(
        &mut self,
        rendered: Option<Vec<u8>>,
        x0: u32,
        y0: u32,
        x1: u32,
        y1: u32,
    ) -> (r: Option<(u64, u32, u32, Vec<u8>)>)
        requires
            old(self).wf(),
            old(self).next_id < u64::MAX,
            rendered matches Some(p) ==> p@.len() == old(self).doc.size.0 * old(self).doc.size.1
                * 4,
            x0 < x1,
            y0 < y1,
            x1 - x0 <= old(self).doc.size.0,
            y1 - y0 <= old(self).doc.size.1,
        ensures
            (old(self).selection@.len() >= 2 && touches_selection(old(self).doc@.layers[old(self).doc@.active_layer], old(self).selection@) && rendered is Some) ==> records_label(old(self).history, final(self).history, t_spec(old(self).lang, "Fusionner en image", "Merge into image")),
            final(self).wf(),
            final(self).same_settings(old(self)),
            final(self).comparing_before == old(self).comparing_before,
            (old(self).selection@.len() < 2 || !touches_selection(old(self).doc@.layers[old(self).doc@.active_layer], old(self).selection@) || rendered is None) ==> {
                &&& r is None
                &&& final(self).doc@ == old(self).doc@
                &&& final(self).history@ == old(self).history@
                &&& final(self).next_id == old(self).next_id
                &&& final(self).selection == old(self).selection
                &&& final(self).same_status(old(self))
            },
            (old(self).selection@.len() >= 2 && touches_selection(old(self).doc@.layers[old(self).doc@.active_layer], old(self).selection@) && rendered is Some) ==> {
                let d = old(self).doc@;
                let a = d.active_layer;
                let id = old(self).next_id;
                let w = old(self).doc.size.0;
                &&& r matches Some(res) && {
                    &&& res.0 == id
                    &&& res.1 == x1 - x0
                    &&& res.2 == y1 - y0
                    &&& res.3@.len() == (x1 - x0) * (y1 - y0) * 4
                    &&& forall|i: int|
                        0 <= i < res.3@.len() ==> #[trigger] res.3@[i] == padded_crop_byte(
                            rendered->0@,
                            w as int,
                            old(self).doc.size.1 as int,
                            x0 as int,
                            y0 as int,
                            (x1 - x0) as int,
                            i,
                        )
                }
                &&& final(self).doc@ == (DocView {
                    layers: d.layers.update(a, merged_to_image(d.layers[a], old(self).selection@, id)),
                    ..d
                })
                &&& records_edit(old(self).history@, final(self).history@, d, final(self).doc@)
                &&& final(self).next_id == id + 1
                &&& final(self).selection@ == set![id]
                &&& !final(self).status_error
                &&& final(self).status matches Some(m) && m@ == t_spec(
                    old(self).lang,
                    "Éléments fusionnés en une image.",
                    "Elements merged into an image.",
                )@
            },
    {
        if self.selection.len() < 2 {
            return None;
        }
        if !self.selection_touches_active_layer() {
            return None;
        }
        let rgba = match rendered {
            None => {
                return None;
            },
            Some(p) => p,
        };
        let w = self.doc.size.0;
        let h = self.doc.size.1;
        proof {
            assert(w * h <= MAX_IMAGE_SIDE * MAX_IMAGE_SIDE) by (nonlinear_arith)
                requires
                    w <= MAX_IMAGE_SIDE,
                    h <= MAX_IMAGE_SIDE,
            ;
        }
        let cw = x1 - x0;
        let ch = y1 - y0;
        let px = crop_rgba_padded(w, h, rgba.as_slice(), x0, y0, cw, ch);
        let id = self.next_id;
        self.next_id = id + 1;
        let a = self.doc.active_layer;
        let ghost d = self.doc@;
        let ghost sel = self.selection@;
        assert(layers_view(self.doc.layers@)[a as int] == self.doc.layers@[a as int]@);
        let (ks, _ts) = crate::layers_ops::split_by_selection(&self.doc.layers[a].strokes, &self.selection);
        let (kt, _tt) = crate::layers_ops::split_by_selection(&self.doc.layers[a].texts, &self.selection);
        let (mut ki, _ti) = crate::layers_ops::split_by_selection(&self.doc.layers[a].images, &self.selection);
        ki.push(id);
        let before = copy_layers(&self.doc.layers);
        let mut after = copy_layers(&self.doc.layers);
        assert(layers_view(after@)[a as int] == after@[a as int]@);
        let mut layer = after[a].copy();
        layer.strokes = ks;
        layer.texts = kt;
        layer.images = ki;
        let ghost lv = layer@;
        let ghost cur = layers_view(after@);
        after.set(a, layer);
        assert(layers_view(after@) =~= cur.update(a as int, lv));
        let cmd = Command::SetLayers { before, before_active: a, after, after_active: a, label: t(self.lang, "Fusionner en image", "Merge into image") };
        self.record(cmd);
        assert(self.doc@.layers =~= d.layers.update(a as int, merged_to_image(d.layers[a as int], sel, id)));
        let mut newsel: HashSet<u64> = HashSet::new();
        newsel.insert(id);
        assert(newsel@ =~= set![id]);
        self.selection = newsel;
        self.info(String::from_str(t(self.lang, "Éléments fusionnés en une image.", "Elements merged into an image.")));
        Some((id, cw, ch, px))
    }
}

impl PaintApp {
    /// A click of the selection tool on the canvas, `hit` being the topmost
    /// element under it: a plain click selects that element alone (or
    /// nothing, on empty canvas); with Shift held it adds the element, or
    /// removes it when it was already selected, and a Shift-click on empty
    /// canvas keeps the selection.
    pub fn click_select(&mut self, hit: Option<u64>, shift: bool)
        ensures
            final(self).same_settings(old(self)),
            final(self).doc == old(self).doc,
            final(self).history == old(self).history,
            final(self).next_id == old(self).next_id,
            final(self).comparing_before == old(self).comparing_before,
            final(self).editing_text == old(self).editing_text,
            final(self).editing_mask == old(self).editing_mask,
            final(self).same_status(old(self)),
            final(self).selection@ == (match hit {
                Some(id) => if shift && old(self).selection@.contains(id) {
                    old(self).selection@.remove(id)
                } else if shift {
                    old(self).selection@.insert(id)
                } else {
                    set![id]
                },
                None => if shift {
                    old(self).selection@
                } else {
                    Set::<u64>::empty()
                },
            }),
    {
        match hit {
            Some(id) => {
                if shift && self.selection.contains(&id) {
                    self.selection.remove(&id);
                } else {
                    if !shift {
                        self.selection.clear();
                    }
                    self.selection.insert(id);
                }
            },
            None => {
                if !shift {
                    self.selection.clear();
                }
            },
        }
        proof {
            if !shift {
                if let Some(id) = hit {
                    assert(self.selection@ =~= set![id]);
                }
            }
        }
    }

    /// A press of the selection tool on element `id` that starts a move: an
    /// element already selected keeps the selection; another one is added
    /// to it with Shift held, or selected alone otherwise.
    pub fn press_select(&mut self, id: u64, shift: bool)
        ensures
            final(self).same_settings(old(self)),
            final(self).doc == old(self).doc,
            final(self).history == old(self).history,
            final(self).next_id == old(self).next_id,
            final(self).comparing_before == old(self).comparing_before,
            final(self).editing_text == old(self).editing_text,
            final(self).editing_mask == old(self).editing_mask,
            final(self).same_status(old(self)),
            final(self).selection@ == (if old(self).selection@.contains(id) {
                old(self).selection@
            } else if shift {
                old(self).selection@.insert(id)
            } else {
                set![id]
            }),
    {
        if !self.selection.contains(&id) {
            if !shift {
                self.selection.clear();
            }
            self.selection.insert(id);
            proof {
                if !shift {
                    assert(self.selection@ =~= set![id]);
                }
            }
        }
    }
}

} // verus!
