//! Lists of values saved under a name, where saving under a name already in
//! use replaces the earlier entry (brush presets and other named settings).

use vstd::prelude::*;
use crate::text::{str_equal, trim, trimmed};

verus! {

/// Whether an entry has a name other than `name`.
pub open spec fn not_named<T>(name: Seq<char>) -> spec_fn((String, T)) -> bool {
    |e: (String, T)| e.0@ != name
}

/// The entries of `s` not named `name`, in order.
pub open spec fn without_name<T>(s: Seq<(String, T)>, name: Seq<char>) -> Seq<(String, T)> {
    s.filter(not_named(name))
}

/// The list after saving `value` under `name`: earlier entries of that name
/// leave, the new entry goes last.
pub open spec fn saved_under<T>(s: Seq<(String, T)>, name: Seq<char>, value: T) -> Seq<(Seq<char>, T)> {
    without_name(s, name).map_values(|e: (String, T)| (e.0@, e.1)).push((name, value))
}

/// Names and values of a list.
pub open spec fn entries<T>(s: Seq<(String, T)>) -> Seq<(Seq<char>, T)> {
    s.map_values(|e: (String, T)| (e.0@, e.1))
}

/// Removes every entry named `name`, keeping the others in order.
pub fn remove_named<T>(items: &mut Vec<(String, T)>, name: &str)
    ensures
        final(items)@ == without_name(old(items)@, name@),
{
    let ghost s = old(items)@;
    let mut i: usize = 0;
    let ghost mut j: int = 0;
    while i < items.len()
        invariant
            0 <= j <= s.len(),
            i <= j,
            items@ == without_name(s.subrange(0, j), name@) + s.subrange(j, s.len() as int),
            i == without_name(s.subrange(0, j), name@).len(),
        decreases s.len() - j,
    {
        let ghost kept = without_name(s.subrange(0, j), name@);
        proof {
            assert(items@[i as int] == s[j]);
            let nxt = s.subrange(0, j + 1);
            assert(nxt.drop_last() =~= s.subrange(0, j));
            assert(nxt.last() == s[j]);
            reveal_with_fuel(Seq::filter, 1);
        }
        if str_equal(items[i].0.as_str(), name) {
            let _gone = items.remove(i);
            proof {
                assert(without_name(s.subrange(0, j + 1), name@) =~= kept);
                assert(items@ =~= kept + s.subrange(j + 1, s.len() as int));
                j = j + 1;
            }
        } else {
            proof {
                assert(without_name(s.subrange(0, j + 1), name@) =~= kept.push(s[j]));
                assert(items@ =~= kept.push(s[j]) + s.subrange(j + 1, s.len() as int));
                j = j + 1;
            }
            i = i + 1;
        }
    }
    proof {
        assert(s.subrange(0, s.len() as int) =~= s);
        assert(s.subrange(s.len() as int, s.len() as int) =~= Seq::<(String, T)>::empty());
        assert(items@ =~= without_name(s, name@));
    }
}

/// Saves `value` under `name` as the last entry, replacing the entries of
/// that name.
pub fn put_named<T>(items: &mut Vec<(String, T)>, name: String, value: T)
    ensures
        final(items)@ == without_name(old(items)@, name@).push((name, value)),
{
    remove_named(items, name.as_str());
    items.push((name, value));
}

/// Saves `value` under the trimmed `name`, replacing the entries of that
/// name; a blank name saves nothing and gives `false`.
pub fn save_named<T>(items: &mut Vec<(String, T)>, name: &str, value: T) -> (r: bool)
    ensures
        r == (trimmed(name@).len() > 0),
        !r ==> final(items)@ == old(items)@,
        r ==> entries(final(items)@) == saved_under(old(items)@, trimmed(name@), value),
{
    let tn = trim(name);
    if tn.unicode_len() == 0 {
        return false;
    }
    let ghost s = old(items)@;
    let ghost tv = tn@;
    put_named(items, tn, value);
    proof {
        let w = without_name(s, tv);
        assert(entries(items@) =~= entries(w).push((tv, value)));
    }
    true
}

/// Adds each of `imported` in turn, each replacing the entries of its name;
/// gives how many were added.
pub fn import_named<T>(items: &mut Vec<(String, T)>, imported: Vec<(String, T)>) -> (n: usize)
    ensures
        n == imported@.len(),
        final(items)@ == imported_into(old(items)@, imported@),
{
    let n = imported.len();
    let ghost s0 = items@;
    let ghost all = imported@;
    let mut rest = imported;
    let mut k: usize = 0;
    while rest.len() > 0
        invariant
            k + rest@.len() == all.len(),
            n == all.len(),
            rest@ == all.subrange(k as int, all.len() as int),
            items@ == imported_into(s0, all.subrange(0, k as int)),
        decreases rest@.len(),
    {
        let (name, value) = rest.remove(0);
        proof {
            assert(all[k as int] == (name, value));
            assert(all.subrange(0, k + 1).drop_last() =~= all.subrange(0, k as int));
        }
        put_named(items, name, value);
        k = k + 1;
        proof {
            assert(rest@ =~= all.subrange(k as int, all.len() as int));
        }
    }
    proof {
        assert(all.subrange(0, all.len() as int) =~= all);
    }
    n
}

/// The list after saving each of `imported` in turn.
pub open spec fn imported_into<T>(s: Seq<(String, T)>, imported: Seq<(String, T)>) -> Seq<(String, T)>
    decreases imported.len(),
{
    if imported.len() == 0 {
        s
    } else {
        let last = imported.last();
        without_name(imported_into(s, imported.drop_last()), last.0@).push(last)
    }
}

/// After saving under a name, exactly one entry has that name, and it holds
/// the saved value.
pub proof fn law_saved_name_is_unique<T>(s: Seq<(String, T)>, name: Seq<char>, value: T)
    ensures
        ({
            let r = saved_under(s, name, value);
            &&& r.last() == (name, value)
            &&& forall|i: int| 0 <= i < r.len() - 1 ==> r[i].0 != name
        }),
{
    let w = without_name(s, name);
    let r = saved_under(s, name, value);
    assert(r.len() == w.len() + 1);
    assert forall|i: int| 0 <= i < r.len() - 1 implies r[i].0 != name by {
        assert(r[i] == (w[i].0@, w[i].1));
        s.lemma_filter_pred(not_named(name), i);
    }
}

} // verus!
