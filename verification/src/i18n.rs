//! Interface language (FR/EN) and the two-way string picker.

use vstd::prelude::*;

verus! {

/// User-interface language.
#[derive(Clone, Copy, Debug, PartialEq, Eq, Structural)]
pub enum Lang {
    Fr,
    En,
}

/// The French or English variant of a message.
pub open spec fn t_spec(lang: Lang, fr: &'static str, en: &'static str) -> &'static str {
    match lang {
        Lang::Fr => fr,
        Lang::En => en,
    }
}

/// Picks the French or English variant of a message.
pub fn t(lang: Lang, fr: &'static str, en: &'static str) -> (r: &'static str)
    ensures
        r == t_spec(lang, fr, en),
{
    match lang {
        Lang::Fr => fr,
        Lang::En => en,
    }
}

} // verus!
