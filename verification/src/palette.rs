//! Recent colours (quick access, newest first, at most eight) and the
//! user's custom palette.

use vstd::prelude::*;
use crate::editor::PaintApp;

verus! {

/// Longest list of recent colours.
pub const MAX_RECENT_COLORS: usize = 8;

/// Whether two colours are equal.
pub fn rgb_eq(a: [u8; 3], b: [u8; 3]) -> (r: bool)
    ensures
        r == (a == b),
{
    let r = a[0] == b[0] && a[1] == b[1] && a[2] == b[2];
    proof {
        if r {
            assert(a =~= b);
        }
    }
    r
}

/// `s` without the colour `c`.
pub open spec fn without_color(s: Seq<[u8; 3]>, c: [u8; 3]) -> Seq<[u8; 3]> {
    s.filter(|x: [u8; 3]| x != c)
}

/// Recent colours after using `c`: `c` first, then the others in order
/// without `c`, cut to eight.
pub open spec fn recent_after(s: Seq<[u8; 3]>, c: [u8; 3]) -> Seq<[u8; 3]> {
    let t = seq![c] + without_color(s, c);
    if t.len() > MAX_RECENT_COLORS {
        t.take(MAX_RECENT_COLORS as int)
    } else {
        t
    }
}

proof fn lemma_without_color(s: Seq<[u8; 3]>, c: [u8; 3])
    ensures
        !without_color(s, c).contains(c),
        s.no_duplicates() ==> without_color(s, c).no_duplicates(),
        forall|x: [u8; 3]| #[trigger] without_color(s, c).contains(x) ==> s.contains(x),
    decreases s.len(),
{
    reveal_with_fuel(Seq::filter, 1);
    if s.len() > 0 {
        let t = s.drop_last();
        lemma_without_color(t, c);
        assert forall|x: [u8; 3]| #[trigger] t.contains(x) implies s.contains(x) by {
            let k = choose|k: int| 0 <= k < t.len() && t[k] == x;
            assert(s[k] == x);
        }
        if s.no_duplicates() {
            assert(t.no_duplicates()) by {
                assert forall|i: int, j: int|
                    0 <= i < t.len() && 0 <= j < t.len() && i != j implies t[i] != t[j] by {
                    assert(t[i] == s[i] && t[j] == s[j]);
                }
            }
            if s.last() != c {
                assert(!t.contains(s.last())) by {
                    if t.contains(s.last()) {
                        let k = choose|k: int| 0 <= k < t.len() && t[k] == s.last();
                        assert(s[k] == s[s.len() - 1]);
                    }
                }
                let w = without_color(t, c);
                assert(!w.contains(s.last()));
                assert(w.push(s.last()).no_duplicates()) by {
                    assert forall|i: int, j: int|
                        0 <= i < w.len() + 1 && 0 <= j < w.len() + 1 && i != j implies w.push(
                        s.last(),
                    )[i] != w.push(s.last())[j] by {
                        if i == w.len() {
                            assert(w.contains(w[j]));
                        } else if j == w.len() {
                            assert(w.contains(w[i]));
                        }
                    }
                }
            }
        }
        let w = without_color(t, c);
        if s.last() != c {
            assert forall|x: [u8; 3]| #[trigger] w.push(s.last()).contains(x) implies s.contains(x) by {
                if x != s.last() {
                    let k = choose|k: int| 0 <= k < w.len() + 1 && w.push(s.last())[k] == x;
                    assert(w.contains(x));
                } else {
                    assert(s[s.len() - 1] == x);
                }
            }
            assert(!w.push(s.last()).contains(c)) by {
                if w.push(s.last()).contains(c) {
                    let k = choose|k: int| 0 <= k < w.len() + 1 && w.push(s.last())[k] == c;
                    if k < w.len() {
                        assert(w.contains(c));
                    }
                }
            }
        }
    }
}

/// The recent colours never hold the same colour twice, start with the
/// colour just used, and hold at most eight colours.
pub proof fn law_recent_colors(s: Seq<[u8; 3]>, c: [u8; 3])
    requires
        s.no_duplicates(),
    ensures
        recent_after(s, c).no_duplicates(),
        recent_after(s, c)[0] == c,
        recent_after(s, c).len() <= MAX_RECENT_COLORS,
        recent_after(s, c).len() >= 1,
{
    lemma_without_color(s, c);
    let w = without_color(s, c);
    let t = seq![c] + w;
    assert(t.no_duplicates()) by {
        assert forall|i: int, j: int| 0 <= i < t.len() && 0 <= j < t.len() && i != j implies t[i]
            != t[j] by {
            if i == 0 {
                assert(t[j] == w[j - 1]);
                assert(w.contains(w[j - 1]));
            } else if j == 0 {
                assert(t[i] == w[i - 1]);
                assert(w.contains(w[i - 1]));
            } else {
                assert(t[i] == w[i - 1] && t[j] == w[j - 1]);
            }
        }
    }
    if t.len() > MAX_RECENT_COLORS {
        let u = t.take(MAX_RECENT_COLORS as int);
        assert forall|i: int, j: int| 0 <= i < u.len() && 0 <= j < u.len() && i != j implies u[i]
            != u[j] by {
            assert(u[i] == t[i] && u[j] == t[j]);
        }
    }
}

/// Adding a colour to the palette never creates a duplicate.
pub proof fn law_palette_has_no_duplicates(s: Seq<[u8; 3]>, c: [u8; 3])
    requires
        s.no_duplicates(),
    ensures
        (if s.contains(c) {
            s
        } else {
            s.push(c)
        }).no_duplicates(),
{
    if !s.contains(c) {
        let t = s.push(c);
        assert forall|i: int, j: int| 0 <= i < t.len() && 0 <= j < t.len() && i != j implies t[i]
            != t[j] by {
            if i == s.len() {
                assert(s.contains(s[j]));
            } else if j == s.len() {
                assert(s.contains(s[i]));
            }
        }
    }
}

fn contains_color(v: &Vec<[u8; 3]>, c: [u8; 3]) -> (r: bool)
    ensures
        r == v@.contains(c),
{
    let mut i: usize = 0;
    while i < v.len()
        invariant
            i <= v@.len(),
            forall|k: int| 0 <= k < i ==> v@[k] != c,
        decreases v@.len() - i,
    {
        if rgb_eq(v[i], c) {
            return true;
        }
        i = i + 1;
    }
    false
}

impl PaintApp {
    /// Puts the colour just used (alpha ignored) at the head of the recent
    /// colours, without duplicate, keeping at most eight.
    pub fn push_recent_color(&mut self, rgba: [u8; 4])
        ensures
            final(self).same_settings(&(PaintApp { recent_colors: final(self).recent_colors, ..*old(self) })),
            final(self).same_edit_state(old(self)),
            final(self).same_status(old(self)),
            final(self).recent_colors@ == recent_after(
                old(self).recent_colors@,
                [rgba[0], rgba[1], rgba[2]],
            ),
            final(self).doc@ == old(self).doc@,
            final(self).history@ == old(self).history@,
            final(self).custom_palette@ == old(self).custom_palette@,
    {
        let rgb: [u8; 3] = [rgba[0], rgba[1], rgba[2]];
        let mut out: Vec<[u8; 3]> = Vec::new();
        out.push(rgb);
        let ghost s = self.recent_colors@;
        let mut i: usize = 0;
        while i < self.recent_colors.len()
            invariant
                s == self.recent_colors@,
                i <= s.len(),
                out@ == seq![rgb] + without_color(s.subrange(0, i as int), rgb),
            decreases s.len() - i,
        {
            let c = self.recent_colors[i];
            proof {
                let pre = s.subrange(0, i as int);
                let nxt = s.subrange(0, i + 1);
                assert(nxt.drop_last() =~= pre);
                assert(nxt.last() == c);
                reveal_with_fuel(Seq::filter, 1);
            }
            if !rgb_eq(c, rgb) {
                out.push(c);
                assert(out@ =~= seq![rgb] + without_color(s.subrange(0, i + 1), rgb));
            } else {
                assert(out@ =~= seq![rgb] + without_color(s.subrange(0, i + 1), rgb));
            }
            i = i + 1;
        }
        assert(s.subrange(0, s.len() as int) =~= s);
        out.truncate(MAX_RECENT_COLORS);
        assert(out@ =~= recent_after(s, rgb));
        self.recent_colors = out;
    }

    /// Adds a shade to the custom palette unless it is already there.
    pub fn add_to_palette(&mut self, rgb: [u8; 3])
        ensures
            final(self).same_settings(&(PaintApp { custom_palette: final(self).custom_palette, ..*old(self) })),
            final(self).same_edit_state(old(self)),
            final(self).same_status(old(self)),
            final(self).custom_palette@ == if old(self).custom_palette@.contains(rgb) {
                old(self).custom_palette@
            } else {
                old(self).custom_palette@.push(rgb)
            },
            final(self).doc@ == old(self).doc@,
            final(self).history@ == old(self).history@,
            final(self).recent_colors@ == old(self).recent_colors@,
    {
        if !contains_color(&self.custom_palette, rgb) {
            self.custom_palette.push(rgb);
        }
    }

    /// Removes the shade at `idx` from the custom palette (nothing for an
    /// index past the end).
    pub fn remove_from_palette(&mut self, idx: usize)
        ensures
            final(self).same_settings(&(PaintApp { custom_palette: final(self).custom_palette, ..*old(self) })),
            final(self).same_edit_state(old(self)),
            final(self).same_status(old(self)),
            final(self).custom_palette@ == if idx < old(self).custom_palette@.len() {
                old(self).custom_palette@.remove(idx as int)
            } else {
                old(self).custom_palette@
            },
            final(self).doc@ == old(self).doc@,
            final(self).history@ == old(self).history@,
    {
        if idx < self.custom_palette.len() {
            self.custom_palette.remove(idx);
        }
    }
}

} // verus!
