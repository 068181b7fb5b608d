//! Starting content of the rich templates: a background shape and text
//! blocks to customise, each added to the active layer as an ordinary
//! element with a fresh id and its own undo step.

use vstd::prelude::*;
use crate::document::{copy_layers, layers_view, DocView, LayerView};
use crate::editor::{records_edit, records_label, PaintApp};
use crate::history::{law_record_then_undo, Command};
use crate::i18n::{t, t_spec};
use crate::clipboard::with_pasted;
use crate::tools::TemplateContent;

verus! {

/// Kinds of the elements a template adds, in order: `true` for a shape
/// (background, banner), `false` for a text block.
pub open spec fn template_elements(content: TemplateContent) -> Seq<bool> {
    match content {
        TemplateContent::InstagramPromo => seq![true, false, false, true, false],
        TemplateContent::FacebookBanner => seq![true, false, false],
    }
}

/// Ids given, counting from `n0`, to the elements of `kinds` whose kind is
/// `shape`, in order.
pub open spec fn ids_of_kind(kinds: Seq<bool>, n0: int, shape: bool) -> Seq<u64>
    decreases kinds.len(),
{
    if kinds.len() == 0 {
        Seq::empty()
    } else {
        let rest = ids_of_kind(kinds.drop_last(), n0, shape);
        if kinds.last() == shape {
            rest.push((n0 + kinds.len() - 1) as u64)
        } else {
            rest
        }
    }
}

proof fn lemma_ids_of_kind(kinds: Seq<bool>, n0: int, shape: bool)
    requires
        0 <= n0,
        n0 + kinds.len() <= u64::MAX + 1,
    ensures
        forall|i: int| 0 <= i < ids_of_kind(kinds, n0, shape).len() ==> {
            let x = #[trigger] ids_of_kind(kinds, n0, shape)[i];
            &&& n0 <= x < n0 + kinds.len()
            &&& kinds[x - n0] == shape
        },
        forall|i: int, j: int|
            0 <= i < j < ids_of_kind(kinds, n0, shape).len() ==> ids_of_kind(kinds, n0, shape)[i]
                < ids_of_kind(kinds, n0, shape)[j],
    decreases kinds.len(),
{
    if kinds.len() > 0 {
        let p = kinds.drop_last();
        lemma_ids_of_kind(p, n0, shape);
        assert forall|i: int| 0 <= i < ids_of_kind(p, n0, shape).len() implies #[trigger] kinds[
            ids_of_kind(p, n0, shape)[i] - n0] == shape by {
            assert(kinds[ids_of_kind(p, n0, shape)[i] - n0] == p[ids_of_kind(p, n0, shape)[i] - n0]);
        }
    }
}

/// The elements a template adds get ids counted up from `n0`: the shapes'
/// ids and the text blocks' ids each increase, none is below `n0` or past
/// the last one handed out, and no id is both a shape's and a text's, so
/// that with every id in use below `n0` the new ones clash with nothing.
pub proof fn law_seeded_ids_are_fresh(content: TemplateContent, n0: int)
    requires
        0 <= n0,
        n0 + 5 <= u64::MAX,
    ensures
        ({
            let kinds = template_elements(content);
            let shapes = ids_of_kind(kinds, n0, true);
            let texts = ids_of_kind(kinds, n0, false);
            &&& forall|i: int| 0 <= i < shapes.len() ==> n0 <= #[trigger] shapes[i] < n0 + kinds.len()
            &&& forall|i: int| 0 <= i < texts.len() ==> n0 <= #[trigger] texts[i] < n0 + kinds.len()
            &&& forall|i: int, j: int| 0 <= i < j < shapes.len() ==> shapes[i] < shapes[j]
            &&& forall|i: int, j: int| 0 <= i < j < texts.len() ==> texts[i] < texts[j]
            &&& forall|i: int, j: int|
                0 <= i < shapes.len() && 0 <= j < texts.len() ==> #[trigger] shapes[i] != #[trigger] texts[j]
        }),
{
    let kinds = template_elements(content);
    lemma_ids_of_kind(kinds, n0, true);
    lemma_ids_of_kind(kinds, n0, false);
    let shapes = ids_of_kind(kinds, n0, true);
    let texts = ids_of_kind(kinds, n0, false);
    assert forall|i: int, j: int|
        0 <= i < shapes.len() && 0 <= j < texts.len() implies #[trigger] shapes[i] != #[trigger] texts[j] by {
        assert(kinds[shapes[i] - n0] == true);
        assert(kinds[texts[j] - n0] == false);
    }
}

fn template_element_kinds(content: TemplateContent) -> (r: Vec<bool>)
    ensures
        r@ == template_elements(content),
{
    match content {
        TemplateContent::InstagramPromo => vec![true, false, false, true, false],
        TemplateContent::FacebookBanner => vec![true, false, false],
    }
}

proof fn lemma_pasted_twice(d: DocView, s1: Seq<u64>, t1: Seq<u64>, s2: Seq<u64>, t2: Seq<u64>)
    requires
        0 <= d.active_layer < d.layers.len(),
    ensures
        with_pasted(with_pasted(d, s1, t1, Seq::empty()), s2, t2, Seq::empty()) == with_pasted(
            d,
            s1 + s2,
            t1 + t2,
            Seq::empty(),
        ),
{
    let l = d.layers[d.active_layer];
    assert(l.strokes + s1 + s2 =~= l.strokes + (s1 + s2));
    assert(l.texts + t1 + t2 =~= l.texts + (t1 + t2));
    assert(l.images + Seq::<u64>::empty() + Seq::<u64>::empty() =~= l.images + (Seq::<u64>::empty() + Seq::<u64>::empty()));
    assert(Seq::<u64>::empty() + Seq::<u64>::empty() =~= Seq::<u64>::empty());
    let d1 = with_pasted(d, s1, t1, Seq::empty());
    assert(d1.layers[d.active_layer] == (LayerView {
        strokes: l.strokes + s1,
        texts: l.texts + t1,
        images: l.images + Seq::empty(),
        ..l
    }));
    assert(with_pasted(d1, s2, t2, Seq::empty()).layers =~= with_pasted(
        d,
        s1 + s2,
        t1 + t2,
        Seq::empty(),
    ).layers);
}

impl PaintApp {
    /// Appends one new element with a fresh id to the active layer, a shape
    /// when `shape` and a text block otherwise, as one undoable step.
    fn add_fresh_element(&mut self, shape: bool) -> (id: u64)
        requires
            old(self).wf(),
            old(self).next_id < u64::MAX,
        ensures
            final(self).same_settings(old(self)),
            final(self).comparing_before == old(self).comparing_before,
            final(self).selection == old(self).selection,
            final(self).same_status(old(self)),
            final(self).wf(),
            id == old(self).next_id,
            final(self).next_id == old(self).next_id + 1,
            final(self).doc@ == with_pasted(
                old(self).doc@,
                if shape { seq![id] } else { Seq::empty() },
                if shape { Seq::empty() } else { seq![id] },
                Seq::empty(),
            ),
            records_edit(old(self).history@, final(self).history@, old(self).doc@, final(self).doc@),
            final(self).lang == old(self).lang,
    {
        let id = self.next_id;
        self.next_id = id + 1;
        let a = self.doc.active_layer;
        let ghost d = self.doc@;
        let before = copy_layers(&self.doc.layers);
        let mut after = copy_layers(&self.doc.layers);
        assert(layers_view(after@)[a as int] == after@[a as int]@);
        let mut layer = after[a].copy();
        if shape {
            layer.strokes.push(id);
        } else {
            layer.texts.push(id);
        }
        let ghost lv = layer@;
        let ghost cur = layers_view(after@);
        after.set(a, layer);
        assert(layers_view(after@) =~= cur.update(a as int, lv));
        let cmd = Command::SetLayers { before, before_active: a, after, after_active: a, label: t(self.lang, "Ajouter un élément", "Add element") };
        self.record(cmd);
        let ghost l = d.layers[a as int];
        assert(l.images + Seq::<u64>::empty() =~= l.images);
        if shape {
            assert(l.texts + Seq::<u64>::empty() =~= l.texts);
            assert(l.strokes.push(id) =~= l.strokes + seq![id]);
        } else {
            assert(l.strokes + Seq::<u64>::empty() =~= l.strokes);
            assert(l.texts.push(id) =~= l.texts + seq![id]);
        }
        assert(self.doc@.layers =~= with_pasted(
            d,
            if shape { seq![id] } else { Seq::empty() },
            if shape { Seq::empty() } else { seq![id] },
            Seq::empty(),
        ).layers);
        id
    }

    /// Fills a freshly created document with the starting content of a
    /// template: a background shape and text blocks (and, for the promo
    /// template, a banner shape), each an ordinary element of the active
    /// layer with a fresh id, and each its own undo step, so that undoing
    /// as many steps gives back the document as it was.
    pub fn seed_template_content(&mut self, content: TemplateContent)
        requires
            old(self).wf(),
            old(self).next_id + 5 <= u64::MAX,
        ensures
            final(self).status matches Some(m) && m@ == t_spec(old(self).lang, "Modèle chargé avec du contenu à personnaliser.", "Template loaded with content to customize.")@,
            final(self).same_settings(old(self)),
            final(self).comparing_before == old(self).comparing_before,
            final(self).selection == old(self).selection,
            final(self).wf(),
            ({
                let n0 = old(self).next_id as int;
                let kinds = template_elements(content);
                &&& final(self).doc@ == with_pasted(
                    old(self).doc@,
                    ids_of_kind(kinds, n0, true),
                    ids_of_kind(kinds, n0, false),
                    Seq::empty(),
                )
                &&& final(self).next_id == n0 + kinds.len()
                &&& final(self).history@.cursor == old(self).history@.cursor + kinds.len()
                &&& final(self).history@.undo_span(
                    final(self).doc@,
                    final(self).history@.cursor,
                    old(self).history@.cursor,
                ) == old(self).doc@
            }),
            final(self).lang == old(self).lang,
            !final(self).status_error,
    {
        let kinds = template_element_kinds(content);
        let ghost n0 = self.next_id as int;
        let ghost d0 = self.doc@;
        let ghost h0 = self.history@;
        proof {
            let l = d0.layers[d0.active_layer];
            assert(kinds@.take(0) =~= Seq::<bool>::empty());
            assert(l.strokes + Seq::<u64>::empty() =~= l.strokes);
            assert(l.texts + Seq::<u64>::empty() =~= l.texts);
            assert(l.images + Seq::<u64>::empty() =~= l.images);
            assert(with_pasted(d0, Seq::empty(), Seq::empty(), Seq::empty()).layers =~= d0.layers);
        }
        let mut k: usize = 0;
        while k < kinds.len()
            invariant
                self.wf(),
                kinds@ == template_elements(content),
                k <= kinds@.len(),
                n0 + 5 <= u64::MAX,
                self.next_id == n0 + k,
                self.doc@ == with_pasted(
                    d0,
                    ids_of_kind(kinds@.take(k as int), n0, true),
                    ids_of_kind(kinds@.take(k as int), n0, false),
                    Seq::empty(),
                ),
                self.history@.cursor == h0.cursor + k,
                self.history@.undo_span(self.doc@, self.history@.cursor, h0.cursor) == d0,
                0 <= d0.active_layer < d0.layers.len(),
                0 <= h0.cursor,
                self.same_settings(old(self)),
                self.comparing_before == old(self).comparing_before,
                self.selection == old(self).selection,
            decreases kinds@.len() - k,
        {
            let ghost d = self.doc@;
            let ghost h = self.history@;
            let ghost pre = kinds@.take(k as int);
            let shape = kinds[k];
            let id = self.add_fresh_element(shape);
            proof {
                let c = self.history@.commands[h.cursor];
                assert(self.history@ == h.record(c));
                law_record_then_undo(h, c, d, h0.cursor);
                let post = kinds@.take(k + 1);
                assert(post.drop_last() =~= pre);
                assert(post.last() == shape);
                assert(post.len() == k + 1);
                lemma_pasted_twice(
                    d0,
                    ids_of_kind(pre, n0, true),
                    ids_of_kind(pre, n0, false),
                    if shape { seq![id] } else { Seq::empty() },
                    if shape { Seq::empty() } else { seq![id] },
                );
                if shape {
                    assert(ids_of_kind(post, n0, true) =~= ids_of_kind(pre, n0, true) + seq![id]);
                    assert(ids_of_kind(post, n0, false) =~= ids_of_kind(pre, n0, false) + Seq::empty());
                } else {
                    assert(ids_of_kind(post, n0, true) =~= ids_of_kind(pre, n0, true) + Seq::empty());
                    assert(ids_of_kind(post, n0, false) =~= ids_of_kind(pre, n0, false) + seq![id]);
                }
            }
            k = k + 1;
        }
        assert(kinds@.take(kinds@.len() as int) =~= kinds@);
        self.info(
            String::from_str(
                t(
                    self.lang,
                    "Modèle chargé avec du contenu à personnaliser.",
                    "Template loaded with content to customize.",
                ),
            ),
        );
    }
}

} // verus!
