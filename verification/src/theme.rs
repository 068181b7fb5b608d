//! Interface theme: follows the system by default, with a persisted manual
//! choice.

use vstd::prelude::*;
use crate::i18n::{t, t_spec, Lang};
use crate::text::str_equal;

verus! {

/// Interface theme.
#[derive(Clone, Copy, Debug, PartialEq, Eq, Structural)]
pub enum UiTheme {
    System,
    Light,
    Dark,
}

impl UiTheme {
    /// Every theme, in menu order.
    pub fn all() -> (r: [UiTheme; 3])
        ensures
            r@ == seq![UiTheme::System, UiTheme::Light, UiTheme::Dark],
    {
        let r = [UiTheme::System, UiTheme::Light, UiTheme::Dark];
        assert(r@ =~= seq![UiTheme::System, UiTheme::Light, UiTheme::Dark]);
        r
    }

    /// Label shown in the menu.
    pub fn label(self, lang: Lang) -> (r: &'static str)
        ensures
            r == (match self {
                UiTheme::System => t_spec(lang, "Système", "System"),
                UiTheme::Light => t_spec(lang, "Clair", "Light"),
                UiTheme::Dark => t_spec(lang, "Sombre", "Dark"),
            }),
    {
        match self {
            UiTheme::System => t(lang, "Système", "System"),
            UiTheme::Light => t(lang, "Clair", "Light"),
            UiTheme::Dark => t(lang, "Sombre", "Dark"),
        }
    }
}

impl UiTheme {
    /// Stable code written to the settings file.
    pub fn code(self) -> (r: &'static str)
        ensures
            r == theme_code(self),
    {
        match self {
            UiTheme::System => "system",
            UiTheme::Light => "light",
            UiTheme::Dark => "dark",
        }
    }

    /// Theme for the code read back from the settings file: `light` and
    /// `dark` select those themes, anything else (or nothing) the system one.
    pub fn load(saved: Option<&str>) -> (r: UiTheme)
        ensures
            r == theme_from_code(match saved {
                Some(s) => Some(s@),
                None => None,
            }),
    {
        proof {
            reveal_strlit("light");
            reveal_strlit("dark");
            assert("light"@ =~= seq!['l', 'i', 'g', 'h', 't']);
            assert("dark"@ =~= seq!['d', 'a', 'r', 'k']);
        }
        match saved {
            Some(s) => {
                if str_equal(s, "light") {
                    UiTheme::Light
                } else if str_equal(s, "dark") {
                    UiTheme::Dark
                } else {
                    UiTheme::System
                }
            },
            None => UiTheme::System,
        }
    }
}

impl Default for UiTheme {
    fn default() -> (r: UiTheme)
        ensures
            r == UiTheme::System,
    {
        UiTheme::System
    }
}

/// Code of each theme in the settings file.
pub open spec fn theme_code(th: UiTheme) -> &'static str {
    match th {
        UiTheme::System => "system",
        UiTheme::Light => "light",
        UiTheme::Dark => "dark",
    }
}

/// Theme read back from a saved code.
pub open spec fn theme_from_code(code: Option<Seq<char>>) -> UiTheme {
    match code {
        Some(c) => if c == seq!['l', 'i', 'g', 'h', 't'] {
            UiTheme::Light
        } else if c == seq!['d', 'a', 'r', 'k'] {
            UiTheme::Dark
        } else {
            UiTheme::System
        },
        None => UiTheme::System,
    }
}

/// Reading back the code that a theme saves gives that theme again.
pub proof fn law_theme_code_round_trip(th: UiTheme)
    ensures
        theme_from_code(Some(theme_code(th)@)) == th,
{
    reveal_strlit("system");
    reveal_strlit("light");
    reveal_strlit("dark");
    assert("light"@ =~= seq!['l', 'i', 'g', 'h', 't']);
    assert("dark"@ =~= seq!['d', 'a', 'r', 'k']);
    assert("system"@.len() == 6);
}

} // verus!
