//! Operations on the layer stack: add, delete, duplicate, merge down,
//! flatten, folders, moving and drag-and-drop reordering, gathering the
//! selection into its own layer and deleting the selection. Every change to
//! the stack is one undoable command.

use vstd::prelude::*;
use std::collections::HashSet;
use crate::document::{
    copy_layers, default_layer_name, default_layer_name_string, layers_view, new_layer_view, DocView,
    Layer, LayerView,
};
use crate::editor::{records_edit, records_label, PaintApp};
use crate::history::Command;
use crate::i18n::{t, t_spec, Lang};
use crate::text::{decimal_spec, decimal_string, str_equal};

verus! {

broadcast use vstd::std_specs::hash::group_hash_axioms;

// ---------------------------------------------------------------------------
// Views of the usual vector edits.

proof fn lemma_view_push(v: Seq<Layer>, x: Layer)
    ensures
        layers_view(v.push(x)) == layers_view(v).push(x@),
{
    assert(layers_view(v.push(x)) =~= layers_view(v).push(x@));
}

proof fn lemma_view_remove(v: Seq<Layer>, i: int)
    requires
        0 <= i < v.len(),
    ensures
        layers_view(v.remove(i)) == layers_view(v).remove(i),
{
    assert(layers_view(v.remove(i)) =~= layers_view(v).remove(i));
}

proof fn lemma_view_insert(v: Seq<Layer>, i: int, x: Layer)
    requires
        0 <= i <= v.len(),
    ensures
        layers_view(v.insert(i, x)) == layers_view(v).insert(i, x@),
{
    assert(layers_view(v.insert(i, x)) =~= layers_view(v).insert(i, x@));
}

proof fn lemma_view_update(v: Seq<Layer>, i: int, x: Layer)
    requires
        0 <= i < v.len(),
    ensures
        layers_view(v.update(i, x)) == layers_view(v).update(i, x@),
{
    assert(layers_view(v.update(i, x)) =~= layers_view(v).update(i, x@));
}

/// A copy of the layer at `i`.
fn layer_at(v: &Vec<Layer>, i: usize) -> (r: Layer)
    requires
        i < v@.len(),
    ensures
        r@ == layers_view(v@)[i as int],
{
    v[i].copy()
}

/// Replaces the layer at `i` of an owned stack.
fn replace_layer(v: &mut Vec<Layer>, i: usize, x: Layer)
    requires
        i < old(v)@.len(),
    ensures
        layers_view(final(v)@) == layers_view(old(v)@).update(i as int, x@),
        final(v)@.len() == old(v)@.len(),
{
    let ghost xv = x@;
    proof {
        lemma_view_update(v@, i as int, x);
    }
    v.set(i, x);
}

// ---------------------------------------------------------------------------
// Element ids.

/// Largest value of `s`, 0 when empty.
pub open spec fn max_of(s: Seq<u64>) -> nat
    decreases s.len(),
{
    if s.len() == 0 {
        0
    } else {
        let m = max_of(s.drop_last());
        if s.last() > m {
            s.last() as nat
        } else {
            m
        }
    }
}

/// Largest element id of a stack of layers, 0 when there is none.
pub open spec fn max_element_id(layers: Seq<LayerView>) -> nat
    decreases layers.len(),
{
    if layers.len() == 0 {
        0
    } else {
        let m = max_element_id(layers.drop_last());
        let k = max_of(layers.last().element_ids());
        if k > m {
            k
        } else {
            m
        }
    }
}

fn max_ids(v: &Vec<u64>, start: u64) -> (r: u64)
    ensures
        r as nat == if max_of(v@) > start {
            max_of(v@)
        } else {
            start as nat
        },
{
    let mut m = start;
    let mut i: usize = 0;
    while i < v.len()
        invariant
            i <= v@.len(),
            m as nat == if max_of(v@.subrange(0, i as int)) > start {
                max_of(v@.subrange(0, i as int))
            } else {
                start as nat
            },
        decreases v@.len() - i,
    {
        assert(v@.subrange(0, i + 1).drop_last() =~= v@.subrange(0, i as int));
        if v[i] > m {
            m = v[i];
        }
        i = i + 1;
    }
    assert(v@.subrange(0, v@.len() as int) =~= v@);
    m
}

proof fn lemma_max_of_concat(a: Seq<u64>, b: Seq<u64>)
    ensures
        max_of(a + b) == if max_of(b) > max_of(a) {
            max_of(b)
        } else {
            max_of(a)
        },
    decreases b.len(),
{
    if b.len() == 0 {
        assert(a + b =~= a);
    } else {
        assert((a + b).drop_last() =~= a + b.drop_last());
        lemma_max_of_concat(a, b.drop_last());
    }
}

proof fn lemma_max_of_bounds(s: Seq<u64>)
    ensures
        forall|k: int| 0 <= k < s.len() ==> #[trigger] s[k] <= max_of(s),
    decreases s.len(),
{
    if s.len() > 0 {
        lemma_max_of_bounds(s.drop_last());
        assert forall|k: int| 0 <= k < s.len() implies #[trigger] s[k] <= max_of(s) by {
            if k < s.len() - 1 {
                assert(s[k] == s.drop_last()[k]);
            }
        }
    }
}

/// Every element id of a layer stack is at most its largest element id, so
/// ids handed out after it (as a loaded document's are) clash with none.
pub proof fn law_ids_below_max_element_id(layers: Seq<LayerView>)
    ensures
        forall|i: int, k: int|
            0 <= i < layers.len() && 0 <= k < layers[i].element_ids().len() ==> #[trigger] layers[i].element_ids()[k]
                <= max_element_id(layers),
    decreases layers.len(),
{
    if layers.len() > 0 {
        let p = layers.drop_last();
        law_ids_below_max_element_id(p);
        lemma_max_of_bounds(layers.last().element_ids());
        assert forall|i: int, k: int|
            0 <= i < layers.len() && 0 <= k < layers[i].element_ids().len() implies #[trigger] layers[i].element_ids()[k]
                <= max_element_id(layers) by {
            if i < layers.len() - 1 {
                assert(layers[i] == p[i]);
                assert(p[i].element_ids()[k] <= max_element_id(p));
            }
        }
    }
}

/// Largest element id of a stack of layers, 0 when there is none.
pub fn max_element_id_of(layers: &Vec<Layer>) -> (r: u64)
    ensures
        r as nat == max_element_id(layers_view(layers@)),
{
    let mut m: u64 = 0;
    let mut i: usize = 0;
    while i < layers.len()
        invariant
            i <= layers@.len(),
            m as nat == max_element_id(layers_view(layers@).subrange(0, i as int)),
        decreases layers@.len() - i,
    {
        let l = &layers[i];
        let ghost lv = l@;
        let a = max_ids(&l.strokes, m);
        let b = max_ids(&l.texts, a);
        let c = max_ids(&l.images, b);
        proof {
            let pre = layers_view(layers@).subrange(0, i as int);
            let nxt = layers_view(layers@).subrange(0, i + 1);
            assert(nxt.drop_last() =~= pre);
            assert(nxt.last() == lv);
            lemma_max_of_concat(lv.strokes, lv.texts);
            lemma_max_of_concat(lv.strokes + lv.texts, lv.images);
        }
        m = c;
        i = i + 1;
    }
    assert(layers_view(layers@).subrange(0, layers@.len() as int) =~= layers_view(layers@));
    m
}

// ---------------------------------------------------------------------------
// Specification helpers.

/// First position of the layer with id `id`, if any.
pub open spec fn position_of(layers: Seq<LayerView>, id: u64) -> Option<int>
    decreases layers.len(),
{
    if layers.len() == 0 {
        None
    } else {
        match position_of(layers.drop_last(), id) {
            Some(p) => Some(p),
            None => if layers.last().id == id {
                Some(layers.len() - 1)
            } else {
                None
            },
        }
    }
}

/// Index of the active layer after the layer at `from` has been moved to
/// `to`: the active layer follows its own content.
pub open spec fn active_after_move(active: int, from: int, to: int) -> int {
    if active == from {
        to
    } else if from < active && active <= to {
        active - 1
    } else if to <= active && active < from {
        active + 1
    } else {
        active
    }
}

/// `l` with `group` as its folder.
pub open spec fn with_group(l: LayerView, group: Option<Seq<char>>) -> LayerView {
    LayerView { group, ..l }
}

/// Name of a new folder, "Groupe n" / "Group n".
pub open spec fn group_name(lang: Lang, n: nat) -> Seq<char> {
    match lang {
        Lang::Fr => seq!['G', 'r', 'o', 'u', 'p', 'e', ' '] + decimal_spec(n),
        Lang::En => seq!['G', 'r', 'o', 'u', 'p', ' '] + decimal_spec(n),
    }
}

/// Name of the folder given by `group_with_below`: the folder of the layer
/// below, or a new one named after `n`.
pub open spec fn folder_for(below: LayerView, lang: Lang, n: nat) -> Seq<char> {
    match below.group {
        Some(g) => g,
        None => group_name(lang, n),
    }
}

/// Grouping with the layer below joins that layer's folder when it has one:
/// the lower layer is left as it was and the active layer gets the same
/// folder. Only when the layer below is in no folder are both put in a new
/// folder named after `n`.
pub proof fn law_grouping_joins_the_folder_below(below: LayerView, active: LayerView, lang: Lang, n: nat)
    ensures
        below.group is Some ==> with_group(below, Some(folder_for(below, lang, n))) == below,
        below.group is Some ==> with_group(active, Some(folder_for(below, lang, n))).group == below.group,
        below.group is None ==> folder_for(below, lang, n) == group_name(lang, n),
{
}

/// The lower layer after `upper` is merged into it: the upper elements
/// come on top, and the upper painted pixels cover the lower ones. The
/// pixel writes are kept as written: a partly transparent upper pixel
/// replaces the lower one rather than being blended with it, and the upper
/// layer's opacity (floating point, not held) and mask are not applied. The
/// lower layer keeps its own mask and lock.
pub open spec fn merged(lower: LayerView, upper: LayerView) -> LayerView {
    LayerView {
        strokes: lower.strokes + upper.strokes,
        texts: lower.texts + upper.texts,
        images: lower.images + upper.images,
        raster: lower.raster + upper.raster,
        ..lower
    }
}

/// All strokes of the stack, bottom layer first.
pub open spec fn all_strokes(layers: Seq<LayerView>) -> Seq<u64>
    decreases layers.len(),
{
    if layers.len() == 0 {
        Seq::empty()
    } else {
        all_strokes(layers.drop_last()) + layers.last().strokes
    }
}

/// All texts of the stack, bottom layer first.
pub open spec fn all_texts(layers: Seq<LayerView>) -> Seq<u64>
    decreases layers.len(),
{
    if layers.len() == 0 {
        Seq::empty()
    } else {
        all_texts(layers.drop_last()) + layers.last().texts
    }
}

/// All images of the stack, bottom layer first.
pub open spec fn all_images(layers: Seq<LayerView>) -> Seq<u64>
    decreases layers.len(),
{
    if layers.len() == 0 {
        Seq::empty()
    } else {
        all_images(layers.drop_last()) + layers.last().images
    }
}

/// All painted pixels of the stack, bottom layer first, so that upper
/// layers cover lower ones.
pub open spec fn all_pixels(layers: Seq<LayerView>) -> Seq<(u32, u32, [u8; 4])>
    decreases layers.len(),
{
    if layers.len() == 0 {
        Seq::empty()
    } else {
        all_pixels(layers.drop_last()) + layers.last().raster
    }
}

/// The single layer that flattening produces: every element, and every
/// painted pixel with upper layers covering lower ones, kept as written (no
/// blending of partly transparent pixels, no opacity or mask applied); it
/// has no mask and is not locked.
pub open spec fn flattened(layers: Seq<LayerView>, lang: Lang) -> LayerView {
    LayerView {
        strokes: all_strokes(layers),
        texts: all_texts(layers),
        images: all_images(layers),
        raster: all_pixels(layers),
        ..new_layer_view(1, default_layer_name(lang, 1))
    }
}

/// Ids `start, start + 1, …, start + n - 1`.
pub open spec fn fresh_ids(start: int, n: int) -> Seq<u64> {
    Seq::new(n as nat, |i: int| (start + i) as u64)
}

/// " copie" / " copy".
pub open spec fn copy_suffix(lang: Lang) -> Seq<char> {
    match lang {
        Lang::Fr => seq![' ', 'c', 'o', 'p', 'i', 'e'],
        Lang::En => seq![' ', 'c', 'o', 'p', 'y'],
    }
}

/// The copy of `l` made by `duplicate_layer`: new layer id, name suffixed,
/// and every element renumbered from `next`, strokes then texts then images.
pub open spec fn duplicated(l: LayerView, id: u64, next: int, lang: Lang) -> LayerView {
    LayerView {
        id,
        name: l.name + copy_suffix(lang),
        strokes: fresh_ids(next, l.strokes.len() as int),
        texts: fresh_ids(next + l.strokes.len(), l.texts.len() as int),
        images: fresh_ids(next + l.strokes.len() + l.texts.len(), l.images.len() as int),
        ..l
    }
}

/// "Groupe" / "Group".
pub open spec fn plain_group_name(lang: Lang) -> Seq<char> {
    match lang {
        Lang::Fr => seq!['G', 'r', 'o', 'u', 'p', 'e'],
        Lang::En => seq!['G', 'r', 'o', 'u', 'p'],
    }
}

/// Ids of `s` that are not selected, in order.
pub open spec fn unselected(s: Seq<u64>, sel: Set<u64>) -> Seq<u64> {
    s.filter(|x: u64| !sel.contains(x))
}

/// Ids of `s` that are selected, in order.
pub open spec fn selected(s: Seq<u64>, sel: Set<u64>) -> Seq<u64> {
    s.filter(|x: u64| sel.contains(x))
}

/// `l` without its selected elements.
pub open spec fn without_selected(l: LayerView, sel: Set<u64>) -> LayerView {
    LayerView {
        strokes: unselected(l.strokes, sel),
        texts: unselected(l.texts, sel),
        images: unselected(l.images, sel),
        ..l
    }
}

/// The new layer that gathers the selected elements of `l`.
pub open spec fn gathered(l: LayerView, sel: Set<u64>, id: u64, lang: Lang) -> LayerView {
    LayerView {
        strokes: selected(l.strokes, sel),
        texts: selected(l.texts, sel),
        images: selected(l.images, sel),
        ..new_layer_view(id, plain_group_name(lang))
    }
}

// ---------------------------------------------------------------------------
// Laws of the layer operations.

/// Moving a layer by drag-and-drop keeps the active layer on its own
/// content: the layer at the new active index is the one that was active.
pub proof fn law_reorder_follows_active(layers: Seq<LayerView>, active: int, from: int, to: int)
    requires
        0 <= active < layers.len(),
        0 <= from < layers.len(),
        0 <= to < layers.len(),
    ensures
        layers.remove(from).insert(to, layers[from])[active_after_move(active, from, to)]
            == layers[active],
{
    let r = layers.remove(from);
    let n = active_after_move(active, from, to);
    assert(0 <= n < layers.len());
    if active != from {
        let k = if active < from { active } else { active - 1 };
        assert(r[k] == layers[active]);
        assert(r.insert(to, layers[from])[n] == r[k]);
    }
}

proof fn lemma_all_append(s1: Seq<LayerView>, s2: Seq<LayerView>)
    ensures
        all_strokes(s1 + s2) == all_strokes(s1) + all_strokes(s2),
        all_texts(s1 + s2) == all_texts(s1) + all_texts(s2),
        all_images(s1 + s2) == all_images(s1) + all_images(s2),
        all_pixels(s1 + s2) == all_pixels(s1) + all_pixels(s2),
    decreases s2.len(),
{
    if s2.len() == 0 {
        assert(s1 + s2 =~= s1);
        assert(all_strokes(s1) + all_strokes(s2) =~= all_strokes(s1));
        assert(all_texts(s1) + all_texts(s2) =~= all_texts(s1));
        assert(all_images(s1) + all_images(s2) =~= all_images(s1));
        assert(all_pixels(s1) + all_pixels(s2) =~= all_pixels(s1));
    } else {
        lemma_all_append(s1, s2.drop_last());
        assert((s1 + s2).drop_last() =~= s1 + s2.drop_last());
        assert((s1 + s2).last() == s2.last());
        assert(all_strokes(s1 + s2) =~= all_strokes(s1) + all_strokes(s2));
        assert(all_texts(s1 + s2) =~= all_texts(s1) + all_texts(s2));
        assert(all_images(s1 + s2) =~= all_images(s1) + all_images(s2));
        assert(all_pixels(s1 + s2) =~= all_pixels(s1) + all_pixels(s2));
    }
}

proof fn lemma_all_single(l: LayerView)
    ensures
        all_strokes(seq![l]) == l.strokes,
        all_texts(seq![l]) == l.texts,
        all_images(seq![l]) == l.images,
        all_pixels(seq![l]) == l.raster,
{
    let one = seq![l];
    assert(one.drop_last() =~= Seq::<LayerView>::empty());
    assert(one.last() == l);
    assert(all_strokes(one.drop_last()) == Seq::<u64>::empty());
    assert(all_texts(one.drop_last()) == Seq::<u64>::empty());
    assert(all_images(one.drop_last()) == Seq::<u64>::empty());
    assert(all_pixels(one.drop_last()) == Seq::<(u32, u32, [u8; 4])>::empty());
    assert(Seq::<(u32, u32, [u8; 4])>::empty() + l.raster =~= l.raster);
    assert(Seq::<u64>::empty() + l.strokes =~= l.strokes);
    assert(Seq::<u64>::empty() + l.texts =~= l.texts);
    assert(Seq::<u64>::empty() + l.images =~= l.images);
}

/// Merging a layer into the one below loses no element or painted pixel
/// and keeps their order: the stack holds the same strokes, texts, images
/// and pixel writes, bottom first.
pub proof fn law_merge_down_keeps_elements(layers: Seq<LayerView>, a: int)
    requires
        0 < a < layers.len(),
    ensures
        ({
            let after = layers.remove(a).update(a - 1, merged(layers[a - 1], layers[a]));
            &&& all_strokes(after) == all_strokes(layers)
            &&& all_texts(after) == all_texts(layers)
            &&& all_images(after) == all_images(layers)
            &&& all_pixels(after) == all_pixels(layers)
        }),
{
    let after = layers.remove(a).update(a - 1, merged(layers[a - 1], layers[a]));
    let pre = layers.subrange(0, a - 1);
    let post = layers.subrange(a + 1, layers.len() as int);
    let m = merged(layers[a - 1], layers[a]);
    assert(layers =~= pre + seq![layers[a - 1]] + seq![layers[a]] + post);
    assert(after =~= pre + seq![m] + post);
    lemma_all_append(pre + seq![layers[a - 1]] + seq![layers[a]], post);
    lemma_all_append(pre + seq![layers[a - 1]], seq![layers[a]]);
    lemma_all_append(pre, seq![layers[a - 1]]);
    lemma_all_append(pre + seq![m], post);
    lemma_all_append(pre, seq![m]);
    lemma_all_single(layers[a - 1]);
    lemma_all_single(layers[a]);
    lemma_all_single(m);
    assert(all_strokes(after) =~= all_strokes(layers));
    assert(all_texts(after) =~= all_texts(layers));
    assert(all_images(after) =~= all_images(layers));
    assert(all_pixels(after) =~= all_pixels(layers));
}

/// Gathering the selection into its own layer splits each list of ids in
/// two without losing or duplicating any: what stays and what moves make up
/// the list they came from.
pub proof fn law_grouping_partitions_ids(s: Seq<u64>, sel: Set<u64>)
    ensures
        unselected(s, sel).to_multiset().add(selected(s, sel).to_multiset()) == s.to_multiset(),
    decreases s.len(),
{
    broadcast use vstd::seq_lib::group_to_multiset_ensures;

    if s.len() == 0 {
        assert(unselected(s, sel) =~= Seq::<u64>::empty());
        assert(selected(s, sel) =~= Seq::<u64>::empty());
        assert(unselected(s, sel).to_multiset().add(selected(s, sel).to_multiset()) =~= s.to_multiset());
    } else {
        let p = s.drop_last();
        let x = s.last();
        law_grouping_partitions_ids(p, sel);
        assert(s =~= p.push(x));
        reveal_with_fuel(Seq::filter, 1);
        if sel.contains(x) {
            assert(selected(s, sel) =~= selected(p, sel).push(x));
            assert(unselected(s, sel) =~= unselected(p, sel));
        } else {
            assert(selected(s, sel) =~= selected(p, sel));
            assert(unselected(s, sel) =~= unselected(p, sel).push(x));
        }
        assert(unselected(s, sel).to_multiset().add(selected(s, sel).to_multiset()) =~= s.to_multiset());
    }
}

// ---------------------------------------------------------------------------
// Executable helpers.

/// Splits `v` into its unselected and its selected ids, keeping the order.
pub(crate) fn split_by_selection(v: &Vec<u64>, sel: &HashSet<u64>) -> (r: (Vec<u64>, Vec<u64>))
    ensures
        r.0@ == unselected(v@, sel@),
        r.1@ == selected(v@, sel@),
{
    let mut keep: Vec<u64> = Vec::new();
    let mut take: Vec<u64> = Vec::new();
    let mut i: usize = 0;
    while i < v.len()
        invariant
            i <= v@.len(),
            keep@ == unselected(v@.subrange(0, i as int), sel@),
            take@ == selected(v@.subrange(0, i as int), sel@),
        decreases v@.len() - i,
    {
        let x = v[i];
        let ghost pre = v@.subrange(0, i as int);
        let ghost nxt = v@.subrange(0, i + 1);
        proof {
            assert(nxt.drop_last() =~= pre);
            assert(nxt.last() == x);
            reveal_with_fuel(Seq::filter, 1);
        }
        if sel.contains(&x) {
            take.push(x);
        } else {
            keep.push(x);
        }
        i = i + 1;
    }
    assert(v@.subrange(0, v@.len() as int) =~= v@);
    (keep, take)
}

/// Appends a copy of `src` to `dst`.
fn extend_ids(dst: &mut Vec<u64>, src: &Vec<u64>)
    ensures
        final(dst)@ == old(dst)@ + src@,
{
    let mut i: usize = 0;
    while i < src.len()
        invariant
            i <= src@.len(),
            dst@ == old(dst)@ + src@.subrange(0, i as int),
        decreases src@.len() - i,
    {
        dst.push(src[i]);
        i = i + 1;
        assert(dst@ =~= old(dst)@ + src@.subrange(0, i as int));
    }
    assert(src@.subrange(0, src@.len() as int) =~= src@);
}

/// Appends a copy of the painted pixels `src` to `dst`.
fn extend_pixels(dst: &mut Vec<(u32, u32, [u8; 4])>, src: &Vec<(u32, u32, [u8; 4])>)
    ensures
        final(dst)@ == old(dst)@ + src@,
{
    let mut i: usize = 0;
    while i < src.len()
        invariant
            i <= src@.len(),
            dst@ == old(dst)@ + src@.subrange(0, i as int),
        decreases src@.len() - i,
    {
        dst.push(src[i]);
        i = i + 1;
        assert(dst@ =~= old(dst)@ + src@.subrange(0, i as int));
    }
    assert(src@.subrange(0, src@.len() as int) =~= src@);
}

/// `n` fresh ids starting at `*next`, which moves past them.
pub(crate) fn take_fresh_ids(next: &mut u64, n: usize) -> (r: Vec<u64>)
    requires
        *old(next) + n <= u64::MAX,
    ensures
        r@ == fresh_ids(*old(next) as int, n as int),
        *final(next) == *old(next) + n,
{
    let mut r: Vec<u64> = Vec::new();
    let mut k: usize = 0;
    while k < n
        invariant
            k <= n,
            *old(next) + n <= u64::MAX,
            *next == *old(next) + k,
            r@ == fresh_ids(*old(next) as int, k as int),
        decreases n - k,
    {
        r.push(*next);
        *next = *next + 1;
        k = k + 1;
        assert(r@ =~= fresh_ids(*old(next) as int, k as int));
    }
    r
}

/// First position of the layer with id `id`, if any.
fn find_layer(layers: &Vec<Layer>, id: u64) -> (r: Option<usize>)
    ensures
        r matches Some(p) ==> position_of(layers_view(layers@), id) == Some(p as int),
        r is None ==> position_of(layers_view(layers@), id) is None,
{
    let mut i: usize = 0;
    while i < layers.len()
        invariant
            i <= layers@.len(),
            position_of(layers_view(layers@).subrange(0, i as int), id) is None,
        decreases layers@.len() - i,
    {
        let ghost pre = layers_view(layers@).subrange(0, i as int);
        let ghost nxt = layers_view(layers@).subrange(0, i + 1);
        assert(nxt.drop_last() =~= pre);
        if layers[i].id == id {
            proof {
                lemma_position_prefix(layers_view(layers@), i + 1, id);
            }
            return Some(i);
        }
        i = i + 1;
    }
    assert(layers_view(layers@).subrange(0, layers@.len() as int) =~= layers_view(layers@));
    None
}

proof fn lemma_position_prefix(s: Seq<LayerView>, k: int, id: u64)
    requires
        0 <= k <= s.len(),
        position_of(s.subrange(0, k), id) is Some,
    ensures
        position_of(s, id) == position_of(s.subrange(0, k), id),
    decreases s.len() - k,
{
    if k < s.len() {
        assert(s.drop_last().subrange(0, k) =~= s.subrange(0, k));
        lemma_position_prefix(s.drop_last(), k, id);
    } else {
        assert(s.subrange(0, k) =~= s);
    }
}

impl PaintApp {
    /// Adds a new empty layer "Layer n" on top of the stack, with the next
    /// layer id, and makes it active.
    pub fn add_layer(&mut self)
        requires
            old(self).wf(),
            old(self).doc.next_layer_id < u64::MAX,
            old(self).doc@.layers.len() < u64::MAX,
        ensures
            records_label(old(self).history, final(self).history, t_spec(old(self).lang, "Ajouter un calque", "Add layer")),
            final(self).same_settings_and_ids(old(self)),
            final(self).selection == old(self).selection,
            final(self).same_status(old(self)),
            final(self).wf(),
            ({
                let d = old(self).doc@;
                let mid = DocView { next_layer_id: (d.next_layer_id + 1) as u64, ..d };
                &&& final(self).doc@ == (DocView {
                    layers: d.layers.push(
                        new_layer_view(
                            d.next_layer_id,
                            default_layer_name(old(self).lang, d.layers.len() + 1),
                        ),
                    ),
                    active_layer: d.layers.len() as int,
                    ..mid
                })
                &&& records_edit(old(self).history@, final(self).history@, mid, final(self).doc@)
            }),
            final(self).lang == old(self).lang,
            final(self).next_id == old(self).next_id,
    {
        let id = self.doc.next_layer_id;
        self.doc.next_layer_id = id + 1;
        let n = self.doc.layers.len() as u64 + 1;
        let name = default_layer_name_string(self.lang, n);
        let layer = Layer::new(id, name);
        let before = copy_layers(&self.doc.layers);
        let mut after = copy_layers(&self.doc.layers);
        let index = after.len();
        proof {
            lemma_view_push(after@, layer);
        }
        after.push(layer);
        let cmd = Command::SetLayers {
            before,
            before_active: self.doc.active_layer,
            after,
            after_active: index,
            label: t(self.lang, "Ajouter un calque", "Add layer"),
        };
        self.record(cmd);
    }

    /// Performs and records a layer-stack command built from the current
    /// document.
    pub(crate) fn record(&mut self, cmd: Command)
        requires
            old(self).wf(),
            cmd@.wf(),
            cmd@.fits(old(self).doc@),
        ensures
            records_label(old(self).history, final(self).history, cmd.label_of()),
            final(self).wf(),
            final(self).doc@ == cmd@.apply(old(self).doc@),
            records_edit(old(self).history@, final(self).history@, old(self).doc@, final(self).doc@),
            final(self).same_but_doc(old(self)),
    {
        let ghost c = cmd@;
        let ghost h0 = self.history@;
        self.history.push(&mut self.doc, cmd);
        proof {
            assert(self.history@.commands[h0.cursor] == c);
        }
    }

    /// Deletes the active layer (never the last one); the layer now at its
    /// place, or the new top one, becomes active.
    pub fn delete_active_layer(&mut self)
        requires
            old(self).wf(),
        ensures
            old(self).doc@.layers.len() > 1 ==> records_label(old(self).history, final(self).history, t_spec(old(self).lang, "Supprimer le calque", "Delete layer")),
            final(self).same_settings_and_ids(old(self)),
            final(self).same_status(old(self)),
            old(self).doc@.layers.len() <= 1 ==> final(self).selection == old(self).selection,
            final(self).wf(),
            ({
                let d = old(self).doc@;
                let a = d.active_layer;
                &&& d.layers.len() <= 1 ==> final(self).doc@ == d && final(self).history@ == old(self).history@
                &&& d.layers.len() > 1 ==> {
                    &&& final(self).doc@ == (DocView {
                        layers: d.layers.remove(a),
                        active_layer: if a < d.layers.len() - 1 {
                            a
                        } else {
                            a - 1
                        },
                        ..d
                    })
                    &&& records_edit(old(self).history@, final(self).history@, d, final(self).doc@)
                    &&& final(self).selection@ == Set::<u64>::empty()
                }
            }),
    {
        if self.doc.layers.len() <= 1 {
            return;
        }
        let i = self.doc.active_layer;
        let before = copy_layers(&self.doc.layers);
        let mut after = copy_layers(&self.doc.layers);
        proof {
            lemma_view_remove(after@, i as int);
        }
        after.remove(i);
        let after_active = if i < after.len() {
            i
        } else {
            i - 1
        };
        self.selection.clear();
        let cmd = Command::SetLayers { before, before_active: i, after, after_active, label: t(self.lang, "Supprimer le calque", "Delete layer") };
        self.record(cmd);
    }

    /// Puts the active layer in the same folder as the layer below: the
    /// folder of the layer below, or a new folder "Group n" (with n the next
    /// layer id, which is then used up).
    pub fn group_with_below(&mut self)
        requires
            old(self).wf(),
            old(self).doc.next_layer_id < u64::MAX,
        ensures
            old(self).doc@.active_layer > 0 ==> records_label(old(self).history, final(self).history, t_spec(old(self).lang, "Grouper les calques", "Group layers")),
            old(self).doc@.active_layer > 0 ==> (final(self).status matches Some(m) && m@ == t_spec(old(self).lang, "Calques groupés.", "Layers grouped.")@),
            final(self).same_settings_and_ids(old(self)),
            final(self).selection == old(self).selection,
            old(self).doc@.active_layer == 0 ==> final(self).same_status(old(self)),
            final(self).wf(),
            ({
                let d = old(self).doc@;
                let a = d.active_layer;
                let mid = DocView { next_layer_id: (d.next_layer_id + 1) as u64, ..d };
                let g = folder_for(d.layers[a - 1], old(self).lang, d.next_layer_id as nat);
                &&& a == 0 ==> final(self).doc@ == d && final(self).history@ == old(self).history@
                &&& a > 0 ==> {
                    &&& final(self).doc@ == (DocView {
                        layers: d.layers.update(a, with_group(d.layers[a], Some(g))).update(
                            a - 1,
                            with_group(d.layers[a - 1], Some(g)),
                        ),
                        ..mid
                    })
                    &&& records_edit(old(self).history@, final(self).history@, mid, final(self).doc@)
                    &&& !final(self).status_error
                }
            }),
    {
        let i = self.doc.active_layer;
        if i == 0 {
            return;
        }
        let name: String = match &self.doc.layers[i - 1].group {
            Some(g) => g.clone(),
            None => {
                proof {
                    reveal_strlit("Groupe ");
                    reveal_strlit("Group ");
                }
                let mut s = String::from_str(t(self.lang, "Groupe ", "Group "));
                let num = decimal_string(self.doc.next_layer_id);
                s.append(num.as_str());
                proof {
                    match self.lang {
                        Lang::Fr => assert("Groupe "@ =~= seq!['G', 'r', 'o', 'u', 'p', 'e', ' ']),
                        Lang::En => assert("Group "@ =~= seq!['G', 'r', 'o', 'u', 'p', ' ']),
                    }
                }
                s
            },
        };
        let ghost name_v = name@;
        self.doc.next_layer_id = self.doc.next_layer_id + 1;
        let before = copy_layers(&self.doc.layers);
        let mut after = copy_layers(&self.doc.layers);
        let mut upper = layer_at(&after, i);
        upper.group = Some(name.clone());
        replace_layer(&mut after, i, upper);
        let mut lower = layer_at(&after, i - 1);
        lower.group = Some(name);
        replace_layer(&mut after, i - 1, lower);
        let ghost g = folder_for(old(self).doc@.layers[i - 1], self.lang, old(self).doc@.next_layer_id as nat);
        assert(name_v == g);
        assert(layers_view(after@) =~= old(self).doc@.layers.update(i as int, with_group(old(self).doc@.layers[i as int], Some(g))).update(
            i - 1,
            with_group(old(self).doc@.layers[i - 1], Some(g)),
        ));
        let cmd = Command::SetLayers { before, before_active: i, after, after_active: i, label: t(self.lang, "Grouper les calques", "Group layers") };
        self.record(cmd);
        self.info(String::from_str(t(self.lang, "Calques groupés.", "Layers grouped.")));
    }

    /// Takes the active layer out of its folder.
    pub fn ungroup_active(&mut self)
        requires
            old(self).wf(),
        ensures
            old(self).doc@.layers[old(self).doc@.active_layer].group is Some ==> records_label(old(self).history, final(self).history, t_spec(old(self).lang, "Dégrouper le calque", "Ungroup layer")),
            final(self).same_settings_and_ids(old(self)),
            final(self).selection == old(self).selection,
            final(self).same_status(old(self)),
            final(self).wf(),
            ({
                let d = old(self).doc@;
                let a = d.active_layer;
                &&& d.layers[a].group is None ==> final(self).doc@ == d && final(self).history@
                    == old(self).history@
                &&& d.layers[a].group is Some ==> {
                    &&& final(self).doc@ == (DocView {
                        layers: d.layers.update(a, with_group(d.layers[a], None)),
                        ..d
                    })
                    &&& records_edit(old(self).history@, final(self).history@, d, final(self).doc@)
                }
            }),
    {
        let i = self.doc.active_layer;
        if self.doc.layers[i].group.is_none() {
            return;
        }
        let before = copy_layers(&self.doc.layers);
        let mut after = copy_layers(&self.doc.layers);
        let mut l = layer_at(&after, i);
        l.group = None;
        replace_layer(&mut after, i, l);
        let cmd = Command::SetLayers { before, before_active: i, after, after_active: i, label: t(self.lang, "Dégrouper le calque", "Ungroup layer") };
        self.record(cmd);
    }

    /// Shows or hides every layer of the folder `name`: if any of them is
    /// visible they are all hidden, otherwise they are all shown.
    pub fn toggle_group(&mut self, name: &str)
        requires
            old(self).wf(),
        ensures
            final(self).same_settings_and_ids(old(self)),
            final(self).selection == old(self).selection,
            final(self).same_status(old(self)),
            final(self).wf(),
            ({
                let d = old(self).doc@;
                let any_visible = exists|i: int|
                    0 <= i < d.layers.len() && #[trigger] d.layers[i].group == Some(name@)
                        && d.layers[i].visible;
                &&& final(self).doc@.layers.len() == d.layers.len()
                &&& forall|i: int|
                    0 <= i < d.layers.len() ==> #[trigger] final(self).doc@.layers[i] == if d.layers[i].group
                        == Some(name@) {
                        LayerView { visible: !any_visible, ..d.layers[i] }
                    } else {
                        d.layers[i]
                    }
                &&& final(self).doc@ == (DocView { layers: final(self).doc@.layers, ..d })
            }),
            final(self).history@ == old(self).history@,
    {
        let ghost d = self.doc@;
        let n = self.doc.layers.len();
        let mut any_visible = false;
        let mut i: usize = 0;
        while i < n
            invariant
                n == self.doc@.layers.len(),
                self.doc@ == d,
                i <= n,
                any_visible == exists|k: int|
                    0 <= k < i && #[trigger] d.layers[k].group == Some(name@) && d.layers[k].visible,
            decreases n - i,
        {
            let hit = match &self.doc.layers[i].group {
                Some(g) => str_equal(g.as_str(), name),
                None => false,
            };
            proof {
                assert(d.layers[i as int] == self.doc.layers@[i as int]@);
                assert(hit == (d.layers[i as int].group == Some(name@)));
            }
            if hit && self.doc.layers[i].visible {
                any_visible = true;
            }
            i = i + 1;
        }
        let mut j: usize = 0;
        while j < n
            invariant
                n == d.layers.len(),
                self.doc@.layers.len() == n,
                self.doc@ == (DocView { layers: self.doc@.layers, ..d }),
                self.history@ == old(self).history@,
                self.history@.wf(),
                self.same_settings_and_ids(old(self)),
                self.selection == old(self).selection,
                self.same_status(old(self)),
                d.wf(),
                j <= n,
                forall|k: int|
                    0 <= k < j ==> #[trigger] self.doc@.layers[k] == if d.layers[k].group == Some(
                        name@,
                    ) {
                        LayerView { visible: !any_visible, ..d.layers[k] }
                    } else {
                        d.layers[k]
                    },
                forall|k: int| j <= k < n ==> #[trigger] self.doc@.layers[k] == d.layers[k],
            decreases n - j,
        {
            let hit = match &self.doc.layers[j].group {
                Some(g) => str_equal(g.as_str(), name),
                None => false,
            };
            proof {
                assert(self.doc@.layers[j as int] == self.doc.layers@[j as int]@);
                assert(hit == (d.layers[j as int].group == Some(name@)));
            }
            if hit {
                let mut l = self.doc.layers[j].copy();
                l.visible = !any_visible;
                replace_layer(&mut self.doc.layers, j, l);
            }
            j = j + 1;
        }
    }

    /// Moves the active layer one step up (`dir = 1`) or down (`dir = -1`)
    /// the stack (any `dir` moves by that many places); nothing happens when
    /// the target place is outside the stack.
    pub fn move_active_layer(&mut self, dir: i32)
        requires
            old(self).wf(),
        ensures
            0 <= old(self).doc@.active_layer + dir < old(self).doc@.layers.len() ==> records_label(old(self).history, final(self).history, t_spec(old(self).lang, "Déplacer le calque", "Move layer")),
            final(self).same_settings_and_ids(old(self)),
            final(self).selection == old(self).selection,
            final(self).same_status(old(self)),
            final(self).wf(),
            ({
                let d = old(self).doc@;
                let a = d.active_layer;
                let j = a + dir;
                &&& (j < 0 || j >= d.layers.len()) ==> final(self).doc@ == d && final(self).history@
                    == old(self).history@
                &&& (0 <= j < d.layers.len()) ==> {
                    &&& final(self).doc@ == (DocView {
                        layers: d.layers.update(a, d.layers[j]).update(j, d.layers[a]),
                        active_layer: j,
                        ..d
                    })
                    &&& records_edit(old(self).history@, final(self).history@, d, final(self).doc@)
                }
            }),
    {
        let i = self.doc.active_layer;
        let j: i128 = i as i128 + dir as i128;
        if j < 0 || j >= self.doc.layers.len() as i128 {
            return;
        }
        let j = j as usize;
        let before = copy_layers(&self.doc.layers);
        let mut after = copy_layers(&self.doc.layers);
        let li = layer_at(&after, i);
        let lj = layer_at(&after, j);
        replace_layer(&mut after, i, lj);
        replace_layer(&mut after, j, li);
        let cmd = Command::SetLayers { before, before_active: i, after, after_active: j, label: t(self.lang, "Déplacer le calque", "Move layer") };
        self.record(cmd);
    }

    /// Moves the layer `from_id` to the place of the layer `to_id`
    /// (drag-and-drop in the layer panel); the active layer follows its own
    /// content. Nothing happens for equal or unknown ids.
    pub fn reorder_layer(&mut self, from_id: u64, to_id: u64)
        requires
            old(self).wf(),
        ensures
            (from_id != to_id && position_of(old(self).doc@.layers, from_id) is Some && position_of(old(self).doc@.layers, to_id) is Some) ==> records_label(old(self).history, final(self).history, t_spec(old(self).lang, "Réordonner les calques", "Reorder layers")),
            final(self).same_settings_and_ids(old(self)),
            final(self).selection == old(self).selection,
            final(self).same_status(old(self)),
            final(self).wf(),
            ({
                let d = old(self).doc@;
                let pf = position_of(d.layers, from_id);
                let pt = position_of(d.layers, to_id);
                &&& (from_id == to_id || pf is None || pt is None) ==> final(self).doc@ == d
                    && final(self).history@ == old(self).history@
                &&& (from_id != to_id && pf is Some && pt is Some) ==> {
                    let from = pf->0;
                    let to = pt->0;
                    &&& final(self).doc@ == (DocView {
                        layers: d.layers.remove(from).insert(to, d.layers[from]),
                        active_layer: active_after_move(d.active_layer, from, to),
                        ..d
                    })
                    &&& records_edit(old(self).history@, final(self).history@, d, final(self).doc@)
                }
            }),
    {
        if from_id == to_id {
            return;
        }
        let from = match find_layer(&self.doc.layers, from_id) {
            Some(p) => p,
            None => {
                return;
            },
        };
        let to = match find_layer(&self.doc.layers, to_id) {
            Some(p) => p,
            None => {
                return;
            },
        };
        proof {
            lemma_position_in_range(self.doc@.layers, from_id);
            lemma_position_in_range(self.doc@.layers, to_id);
        }
        let before = copy_layers(&self.doc.layers);
        let mut after = copy_layers(&self.doc.layers);
        let ghost av = after@;
        proof {
            lemma_view_remove(av, from as int);
        }
        let moved = after.remove(from);
        proof {
            lemma_view_insert(after@, to as int, moved);
        }
        after.insert(to, moved);
        let before_active = self.doc.active_layer;
        let after_active = if before_active == from {
            to
        } else if from < before_active && before_active <= to {
            before_active - 1
        } else if to <= before_active && before_active < from {
            before_active + 1
        } else {
            before_active
        };
        let cmd = Command::SetLayers { before, before_active, after, after_active, label: t(self.lang, "Réordonner les calques", "Reorder layers") };
        self.record(cmd);
    }

    /// Merges the active layer into the one below: its elements go on top of
    /// the lower layer's, the lower layer becomes active. Nothing happens on
    /// the bottom layer.
    pub fn merge_down(&mut self)
        requires
            old(self).wf(),
        ensures
            old(self).doc@.active_layer > 0 ==> records_label(old(self).history, final(self).history, t_spec(old(self).lang, "Fusionner vers le bas", "Merge down")),
            old(self).doc@.active_layer > 0 ==> (final(self).status matches Some(m) && m@ == t_spec(old(self).lang, "Calque fusionné vers le bas.", "Layer merged down.")@),
            final(self).same_settings_and_ids(old(self)),
            old(self).doc@.active_layer == 0 ==> final(self).selection == old(self).selection && final(self).same_status(old(self)),
            final(self).wf(),
            ({
                let d = old(self).doc@;
                let a = d.active_layer;
                &&& a == 0 ==> final(self).doc@ == d && final(self).history@ == old(self).history@
                &&& a > 0 ==> {
                    &&& final(self).doc@ == (DocView {
                        layers: d.layers.remove(a).update(a - 1, merged(d.layers[a - 1], d.layers[a])),
                        active_layer: a - 1,
                        ..d
                    })
                    &&& records_edit(old(self).history@, final(self).history@, d, final(self).doc@)
                    &&& final(self).selection@ == Set::<u64>::empty()
                    &&& !final(self).status_error
                }
            }),
    {
        let i = self.doc.active_layer;
        if i == 0 {
            return;
        }
        let before = copy_layers(&self.doc.layers);
        let mut after = copy_layers(&self.doc.layers);
        proof {
            lemma_view_remove(after@, i as int);
        }
        let upper = after.remove(i);
        let mut lower = layer_at(&after, i - 1);
        extend_ids(&mut lower.strokes, &upper.strokes);
        extend_ids(&mut lower.texts, &upper.texts);
        extend_ids(&mut lower.images, &upper.images);
        extend_pixels(&mut lower.raster, &upper.raster);
        replace_layer(&mut after, i - 1, lower);
        self.selection.clear();
        let cmd = Command::SetLayers { before, before_active: i, after, after_active: i - 1, label: t(self.lang, "Fusionner vers le bas", "Merge down") };
        self.record(cmd);
        self.info(String::from_str(t(self.lang, "Calque fusionné vers le bas.", "Layer merged down.")));
    }

    /// Duplicates the active layer above itself, as the active layer: new
    /// layer id, name suffixed with " copy", every element renumbered.
    pub fn duplicate_layer(&mut self)
        requires
            old(self).wf(),
            old(self).doc.next_layer_id < u64::MAX,
            old(self).next_id + old(self).doc@.layers[old(self).doc@.active_layer].element_ids().len()
                <= u64::MAX,
        ensures
            records_label(old(self).history, final(self).history, t_spec(old(self).lang, "Dupliquer le calque", "Duplicate layer")),
            final(self).status matches Some(m) && m@ == t_spec(old(self).lang, "Calque dupliqué.", "Layer duplicated.")@,
            !final(self).status_error,
            final(self).same_settings(old(self)),
            final(self).comparing_before == old(self).comparing_before,
            final(self).wf(),
            ({
                let d = old(self).doc@;
                let a = d.active_layer;
                let mid = DocView { next_layer_id: (d.next_layer_id + 1) as u64, ..d };
                &&& final(self).doc@ == (DocView {
                    layers: d.layers.insert(
                        a + 1,
                        duplicated(d.layers[a], d.next_layer_id, old(self).next_id as int, old(self).lang),
                    ),
                    active_layer: a + 1,
                    ..mid
                })
                &&& records_edit(old(self).history@, final(self).history@, mid, final(self).doc@)
                &&& final(self).next_id == old(self).next_id + d.layers[a].element_ids().len()
                &&& final(self).selection@ == Set::<u64>::empty()
            }),
    {
        let i = self.doc.active_layer;
        let n = self.doc.layers.len();
        assert(i < n);
        let mut dup = self.doc.layers[i].copy();
        dup.id = self.doc.next_layer_id;
        self.doc.next_layer_id = self.doc.next_layer_id + 1;
        proof {
            reveal_strlit(" copie");
            reveal_strlit(" copy");
        }
        dup.name.append(t(self.lang, " copie", " copy"));
        proof {
            match self.lang {
                Lang::Fr => assert(" copie"@ =~= copy_suffix(Lang::Fr)),
                Lang::En => assert(" copy"@ =~= copy_suffix(Lang::En)),
            }
        }
        let ns = dup.strokes.len();
        let nt = dup.texts.len();
        let ni = dup.images.len();
        dup.strokes = take_fresh_ids(&mut self.next_id, ns);
        dup.texts = take_fresh_ids(&mut self.next_id, nt);
        dup.images = take_fresh_ids(&mut self.next_id, ni);
        self.selection.clear();
        let before = copy_layers(&self.doc.layers);
        let mut after = copy_layers(&self.doc.layers);
        proof {
            lemma_view_insert(after@, i + 1, dup);
        }
        after.insert(i + 1, dup);
        let cmd = Command::SetLayers { before, before_active: i, after, after_active: i + 1, label: t(self.lang, "Dupliquer le calque", "Duplicate layer") };
        self.record(cmd);
        self.info(String::from_str(t(self.lang, "Calque dupliqué.", "Layer duplicated.")));
    }

    /// Flattens the stack into a single layer "Layer 1" (id 1) holding every
    /// element, bottom layer first. Nothing happens with a single layer.
    pub fn flatten(&mut self)
        requires
            old(self).wf(),
        ensures
            old(self).doc@.layers.len() > 1 ==> records_label(old(self).history, final(self).history, t_spec(old(self).lang, "Aplatir l'image", "Flatten image")),
            old(self).doc@.layers.len() > 1 ==> (final(self).status matches Some(m) && m@ == t_spec(old(self).lang, "Calques aplatis.", "Layers flattened.")@),
            final(self).same_settings_and_ids(old(self)),
            old(self).doc@.layers.len() <= 1 ==> final(self).selection == old(self).selection && final(self).same_status(old(self)),
            final(self).wf(),
            ({
                let d = old(self).doc@;
                &&& d.layers.len() <= 1 ==> final(self).doc@ == d && final(self).history@ == old(self).history@
                &&& d.layers.len() > 1 ==> {
                    &&& final(self).doc@ == (DocView {
                        layers: seq![flattened(d.layers, old(self).lang)],
                        active_layer: 0,
                        ..d
                    })
                    &&& records_edit(old(self).history@, final(self).history@, d, final(self).doc@)
                    &&& final(self).selection@ == Set::<u64>::empty()
                    &&& !final(self).status_error
                }
            }),
    {
        if self.doc.layers.len() <= 1 {
            return;
        }
        let name = default_layer_name_string(self.lang, 1);
        let mut base = Layer::new(1, name);
        let ghost lv = layers_view(self.doc.layers@);
        let mut i: usize = 0;
        while i < self.doc.layers.len()
            invariant
                lv == layers_view(self.doc.layers@),
                i <= lv.len(),
                base@ == (LayerView {
                    strokes: all_strokes(lv.subrange(0, i as int)),
                    texts: all_texts(lv.subrange(0, i as int)),
                    images: all_images(lv.subrange(0, i as int)),
                    raster: all_pixels(lv.subrange(0, i as int)),
                    ..new_layer_view(1, default_layer_name(self.lang, 1))
                }),
            decreases lv.len() - i,
        {
            proof {
                let pre = lv.subrange(0, i as int);
                let nxt = lv.subrange(0, i + 1);
                assert(nxt.drop_last() =~= pre);
                assert(nxt.last() == lv[i as int]);
            }
            extend_ids(&mut base.strokes, &self.doc.layers[i].strokes);
            extend_ids(&mut base.texts, &self.doc.layers[i].texts);
            extend_ids(&mut base.images, &self.doc.layers[i].images);
            extend_pixels(&mut base.raster, &self.doc.layers[i].raster);
            i = i + 1;
        }
        assert(lv.subrange(0, lv.len() as int) =~= lv);
        self.selection.clear();
        let before = copy_layers(&self.doc.layers);
        let mut after: Vec<Layer> = Vec::new();
        after.push(base);
        assert(layers_view(after@) =~= seq![flattened(lv, self.lang)]);
        let cmd = Command::SetLayers {
            before,
            before_active: self.doc.active_layer,
            after,
            after_active: 0,
            label: t(self.lang, "Aplatir l'image", "Flatten image"),
        };
        self.record(cmd);
        self.info(String::from_str(t(self.lang, "Calques aplatis.", "Layers flattened.")));
    }

    /// Gathers the selected elements of the active layer into a new layer
    /// "Group" inserted just above it, which becomes active. Needs at least
    /// two selected elements.
    pub fn group_selection_into_layer(&mut self)
        requires
            old(self).wf(),
            old(self).doc.next_layer_id < u64::MAX,
        ensures
            old(self).selection@.len() >= 2 ==> records_label(old(self).history, final(self).history, t_spec(old(self).lang, "Grouper dans un calque", "Group into layer")),
            old(self).selection@.len() >= 2 ==> (final(self).status matches Some(m) && m@ == t_spec(old(self).lang, "Éléments réunis dans un nouveau calque.", "Elements grouped into a new layer.")@),
            final(self).same_settings_and_ids(old(self)),
            final(self).selection == old(self).selection,
            old(self).selection@.len() < 2 ==> final(self).same_status(old(self)),
            final(self).wf(),
            ({
                let d = old(self).doc@;
                let a = d.active_layer;
                let sel = old(self).selection@;
                let mid = DocView { next_layer_id: (d.next_layer_id + 1) as u64, ..d };
                &&& sel.len() < 2 ==> final(self).doc@ == d && final(self).history@ == old(self).history@
                &&& sel.len() >= 2 ==> {
                    &&& final(self).doc@ == (DocView {
                        layers: d.layers.update(a, without_selected(d.layers[a], sel)).insert(
                            a + 1,
                            gathered(d.layers[a], sel, d.next_layer_id, old(self).lang),
                        ),
                        active_layer: a + 1,
                        ..mid
                    })
                    &&& records_edit(old(self).history@, final(self).history@, mid, final(self).doc@)
                    &&& !final(self).status_error
                }
            }),
    {
        if self.selection.len() < 2 {
            return;
        }
        let idx = self.doc.active_layer;
        let n = self.doc.layers.len();
        assert(idx < n);
        proof {
            reveal_strlit("Groupe");
            reveal_strlit("Group");
        }
        let gname = String::from_str(t(self.lang, "Groupe", "Group"));
        proof {
            match self.lang {
                Lang::Fr => assert("Groupe"@ =~= plain_group_name(Lang::Fr)),
                Lang::En => assert("Group"@ =~= plain_group_name(Lang::En)),
            }
        }
        let mut group = Layer::new(self.doc.next_layer_id, gname);
        let mut rest = self.doc.layers[idx].copy();
        let (ks, ts) = split_by_selection(&self.doc.layers[idx].strokes, &self.selection);
        let (kt, tt) = split_by_selection(&self.doc.layers[idx].texts, &self.selection);
        let (ki, ti) = split_by_selection(&self.doc.layers[idx].images, &self.selection);
        rest.strokes = ks;
        rest.texts = kt;
        rest.images = ki;
        group.strokes = ts;
        group.texts = tt;
        group.images = ti;
        let before = copy_layers(&self.doc.layers);
        let mut after = copy_layers(&self.doc.layers);
        replace_layer(&mut after, idx, rest);
        proof {
            lemma_view_insert(after@, idx + 1, group);
        }
        after.insert(idx + 1, group);
        self.doc.next_layer_id = self.doc.next_layer_id + 1;
        let cmd = Command::SetLayers { before, before_active: idx, after, after_active: idx + 1, label: t(self.lang, "Grouper dans un calque", "Group into layer") };
        self.record(cmd);
        self.info(
            String::from_str(
                t(self.lang, "Éléments réunis dans un nouveau calque.", "Elements grouped into a new layer."),
            ),
        );
    }

    /// Deletes the selected strokes, texts and images of the active layer:
    /// one undoable step per kind of element that had selected ones, then
    /// clears the selection.
    #[verifier::rlimit(40)]
    pub fn delete_selection(&mut self)
        requires
            old(self).wf(),
        ensures
            final(self).same_settings_and_ids(old(self)),
            final(self).same_status(old(self)),
            final(self).wf(),
            ({
                let d = old(self).doc@;
                let a = d.active_layer;
                let sel = old(self).selection@;
                let l = d.layers[a];
                let steps = (if selected(l.strokes, sel).len() > 0 { 1int } else { 0int })
                    + (if selected(l.texts, sel).len() > 0 { 1int } else { 0int })
                    + (if selected(l.images, sel).len() > 0 { 1int } else { 0int });
                &&& sel.is_empty() ==> final(self).doc@ == d && final(self).history@ == old(self).history@
                    && final(self).selection@ == sel
                &&& !sel.is_empty() ==> {
                    &&& final(self).doc@ == (DocView {
                        layers: d.layers.update(a, without_selected(l, sel)),
                        ..d
                    })
                    &&& final(self).history@.cursor == old(self).history@.cursor + steps
                    &&& final(self).history@.commands.take(old(self).history@.cursor)
                        == old(self).history@.commands.take(old(self).history@.cursor)
                    &&& final(self).selection@ == Set::<u64>::empty()
                }
            }),
    {
        if self.selection.is_empty() {
            return;
        }
        let idx = self.doc.active_layer;
        let ghost d = self.doc@;
        let ghost l = d.layers[idx as int];
        let ghost sel = self.selection@;
        let ghost h0 = self.history@;
        let (ks, ts) = split_by_selection(&self.doc.layers[idx].strokes, &self.selection);
        let (kt, tt) = split_by_selection(&self.doc.layers[idx].texts, &self.selection);
        let (ki, ti) = split_by_selection(&self.doc.layers[idx].images, &self.selection);
        if ts.len() > 0 {
            let before = copy_layers(&self.doc.layers);
            let mut after = copy_layers(&self.doc.layers);
            let mut layer = layer_at(&after, idx);
            layer.strokes = ks;
            replace_layer(&mut after, idx, layer);
            let cmd = Command::SetLayers { before, before_active: idx, after, after_active: idx, label: t(self.lang, "Supprimer la sélection", "Delete selection") };
            self.record(cmd);
        } else {
            proof {
                lemma_nothing_selected(l.strokes, sel);
                assert(d.layers.update(idx as int, LayerView { strokes: unselected(l.strokes, sel), ..l }) =~= d.layers);
            }
        }
        assert(self.doc@.layers =~= d.layers.update(idx as int, LayerView {
            strokes: unselected(l.strokes, sel),
            ..l
        }));
        assert(self.doc@ == (DocView {
            layers: d.layers.update(idx as int, LayerView {
                strokes: unselected(l.strokes, sel),
                ..l
            }),
            ..d
        }));
        if tt.len() > 0 {
            let before = copy_layers(&self.doc.layers);
            let mut after = copy_layers(&self.doc.layers);
            let mut layer = layer_at(&after, idx);
            layer.texts = kt;
            replace_layer(&mut after, idx, layer);
            let cmd = Command::SetLayers { before, before_active: idx, after, after_active: idx, label: t(self.lang, "Supprimer la sélection", "Delete selection") };
            self.record(cmd);
        } else {
            proof {
                lemma_nothing_selected(l.texts, sel);
            }
        }
        assert(self.doc@.layers =~= d.layers.update(idx as int, LayerView {
            strokes: unselected(l.strokes, sel),
            texts: unselected(l.texts, sel),
            ..l
        }));
        assert(self.doc@ == (DocView {
            layers: d.layers.update(idx as int, LayerView {
                strokes: unselected(l.strokes, sel),
                texts: unselected(l.texts, sel),
                ..l
            }),
            ..d
        }));
        if ti.len() > 0 {
            let before = copy_layers(&self.doc.layers);
            let mut after = copy_layers(&self.doc.layers);
            let mut layer = layer_at(&after, idx);
            layer.images = ki;
            replace_layer(&mut after, idx, layer);
            let cmd = Command::SetLayers { before, before_active: idx, after, after_active: idx, label: t(self.lang, "Supprimer la sélection", "Delete selection") };
            self.record(cmd);
        } else {
            proof {
                lemma_nothing_selected(l.images, sel);
            }
        }
        proof {
            assert(self.doc@.layers =~= d.layers.update(idx as int, without_selected(l, sel)));
            assert(self.history@.commands.take(h0.cursor) =~= h0.commands.take(h0.cursor));
        }
        self.selection.clear();
    }
}

proof fn lemma_nothing_selected(s: Seq<u64>, sel: Set<u64>)
    requires
        selected(s, sel).len() == 0,
    ensures
        unselected(s, sel) == s,
    decreases s.len(),
{
    reveal_with_fuel(Seq::filter, 1);
    if s.len() > 0 {
        let t = s.drop_last();
        if sel.contains(s.last()) {
            assert(selected(s, sel) == selected(t, sel).push(s.last()));
            assert(false);
        }
        assert(selected(s, sel) == selected(t, sel));
        lemma_nothing_selected(t, sel);
        assert(t.push(s.last()) =~= s);
    }
}

proof fn lemma_position_in_range(s: Seq<LayerView>, id: u64)
    ensures
        position_of(s, id) matches Some(p) ==> 0 <= p < s.len() && s[p].id == id,
    decreases s.len(),
{
    if s.len() > 0 {
        lemma_position_in_range(s.drop_last(), id);
    }
}

// ---------------------------------------------------------------------------
// Clearing, layer masks and the layer lock.

/// `l` without its strokes and its painted pixels (texts and images stay).
pub open spec fn cleared(l: LayerView) -> LayerView {
    LayerView { strokes: Seq::empty(), raster: Seq::empty(), ..l }
}

/// `l` with its mask removed when it has one, or an empty (fully visible)
/// mask added when it has none.
pub open spec fn mask_toggled(l: LayerView) -> LayerView {
    LayerView {
        mask: if l.mask is Some {
            None
        } else {
            Some(Seq::empty())
        },
        ..l
    }
}

/// `d` with its active layer replaced by `l`.
pub open spec fn with_active(d: DocView, l: LayerView) -> DocView {
    DocView { layers: d.layers.update(d.active_layer, l), ..d }
}

impl PaintApp {
    /// Clears the active layer: its strokes and painted pixels go, in one
    /// undoable step; nothing happens when it has neither.
    pub fn clear_active_layer(&mut self)
        requires
            old(self).wf(),
        ensures
            final(self).wf(),
            final(self).same_settings_and_ids(old(self)),
            final(self).selection == old(self).selection,
            final(self).same_status(old(self)),
            ({
                let d = old(self).doc@;
                let l = d.layers[d.active_layer];
                &&& l.strokes.len() == 0 && l.raster.len() == 0 ==> {
                    &&& final(self).doc@ == d
                    &&& final(self).history@ == old(self).history@
                }
                &&& l.strokes.len() > 0 || l.raster.len() > 0 ==> {
                    &&& final(self).doc@ == with_active(d, cleared(l))
                    &&& records_edit(old(self).history@, final(self).history@, d, final(self).doc@)
                    &&& records_label(old(self).history, final(self).history, t_spec(old(self).lang, "Vider le calque", "Clear layer"))
                }
            }),
    {
        let a = self.doc.active_layer;
        let ghost d = self.doc@;
        let ghost l = d.layers[a as int];
        assert(layers_view(self.doc.layers@)[a as int] == self.doc.layers@[a as int]@);
        if self.doc.layers[a].strokes.len() == 0 && self.doc.layers[a].raster.len() == 0 {
            return;
        }
        let before = copy_layers(&self.doc.layers);
        let mut after = copy_layers(&self.doc.layers);
        assert(layers_view(after@)[a as int] == after@[a as int]@);
        let mut layer = after[a].copy();
        layer.strokes = Vec::new();
        layer.raster = Vec::new();
        let ghost lv = layer@;
        assert(lv == cleared(l));
        let ghost cur = layers_view(after@);
        after.set(a, layer);
        assert(layers_view(after@) =~= cur.update(a as int, lv));
        let cmd = Command::SetLayers {
            before,
            before_active: a,
            after,
            after_active: a,
            label: t(self.lang, "Vider le calque", "Clear layer"),
        };
        self.record(cmd);
        assert(self.doc@ == with_active(d, cleared(l)));
    }

    /// Adds an empty painted mask to the active layer, or removes its mask.
    /// Adding one turns on mask editing; removing it turns it off. This is
    /// not an undoable step.
    pub fn toggle_active_layer_mask(&mut self)
        requires
            old(self).wf(),
        ensures
            final(self).wf(),
            final(self).same_settings(old(self)),
            final(self).history == old(self).history,
            final(self).next_id == old(self).next_id,
            final(self).selection == old(self).selection,
            final(self).comparing_before == old(self).comparing_before,
            final(self).editing_text == old(self).editing_text,
            final(self).same_status(old(self)),
            ({
                let d = old(self).doc@;
                let l = d.layers[d.active_layer];
                &&& final(self).doc@ == with_active(d, mask_toggled(l))
                &&& final(self).editing_mask == (l.mask is None)
            }),
    {
        let a = self.doc.active_layer;
        let ghost d = self.doc@;
        let ghost l = d.layers[a as int];
        assert(layers_view(self.doc.layers@)[a as int] == self.doc.layers@[a as int]@);
        let mut layer = self.doc.layers[a].copy();
        let had = layer.mask.is_some();
        if had {
            layer.mask = None;
        } else {
            layer.mask = Some(Vec::new());
        }
        let ghost lv = layer@;
        assert(lv == mask_toggled(l));
        let ghost cur = layers_view(self.doc.layers@);
        self.doc.layers.set(a, layer);
        assert(layers_view(self.doc.layers@) =~= cur.update(a as int, lv));
        self.editing_mask = !had;
        assert(self.doc@ == with_active(d, mask_toggled(l)));
    }

    /// Checks a canvas gesture against the lock of the active layer: a
    /// locked layer refuses every tool but the hand, the eyedropper and the
    /// ruler, with a message. Returns whether the gesture is refused.
    pub fn lock_blocks_gesture(&mut self) -> (r: bool)
        requires
            old(self).wf(),
        ensures
            r == (old(self).doc@.layers[old(self).doc@.active_layer].locked
                && !crate::tools::is_non_destructive(old(self).active_tool)),
            final(self).same_but_status(old(self)),
            !r ==> final(self).same_status(old(self)),
            r ==> !final(self).status_error && (final(self).status matches Some(m) && m@ == t_spec(
                old(self).lang,
                "Calque verrouillé : déverrouille-le pour le modifier.",
                "Layer locked: unlock it to edit.",
            )@),
    {
        let a = self.doc.active_layer;
        assert(layers_view(self.doc.layers@)[a as int] == self.doc.layers@[a as int]@);
        if self.doc.layers[a].locked && crate::tools::layer_lock_blocks_tool(self.active_tool) {
            self.info(String::from_str(t(
                self.lang,
                "Calque verrouillé : déverrouille-le pour le modifier.",
                "Layer locked: unlock it to edit.",
            )));
            true
        } else {
            false
        }
    }
}

} // verus!
