use quickpaint::document::default_layer_name_string;
use quickpaint::i18n::{t, Lang};
use quickpaint::text::{decimal_string, is_whitespace, parse_u32, str_equal, trim};
use quickpaint::theme::UiTheme;

#[test]
fn trim_removes_unicode_white_space_at_both_ends() {
    assert_eq!(trim("  abc \t\n"), "abc");
    assert_eq!(trim("\u{00A0}x y\u{3000}"), "x y");
    assert_eq!(trim("   "), "");
    assert_eq!(trim(""), "");
    assert!(is_whitespace('\u{2028}'));
    assert!(!is_whitespace('a'));
}

#[test]
fn parse_u32_follows_the_standard_parser() {
    assert_eq!(parse_u32("800"), Some(800));
    assert_eq!(parse_u32("+7"), Some(7));
    assert_eq!(parse_u32("0004294967295"), Some(4294967295));
    assert_eq!(parse_u32("4294967296"), None);
    assert_eq!(parse_u32(""), None);
    assert_eq!(parse_u32("+"), None);
    assert_eq!(parse_u32(" 1"), None);
    assert_eq!(parse_u32("-1"), None);
    for s in ["0", "12", "+3", "99999", "x", "1x"] {
        assert_eq!(parse_u32(s), s.parse::<u32>().ok());
    }
}

#[test]
fn decimal_string_matches_to_string() {
    for n in [0u64, 7, 10, 1234567890, u64::MAX] {
        assert_eq!(decimal_string(n), n.to_string());
    }
}

#[test]
fn str_equal_compares_the_text() {
    assert!(str_equal("abc", "abc"));
    assert!(!str_equal("abc", "abd"));
    assert!(!str_equal("ab", "abc"));
}

#[test]
fn t_picks_the_language() {
    assert_eq!(t(Lang::Fr, "Oui", "Yes"), "Oui");
    assert_eq!(t(Lang::En, "Oui", "Yes"), "Yes");
}

#[test]
fn default_layer_names_count_from_one() {
    assert_eq!(default_layer_name_string(Lang::Fr, 3), "Calque 3");
    assert_eq!(default_layer_name_string(Lang::En, 12), "Layer 12");
}

#[test]
fn theme_codes_round_trip() {
    for th in UiTheme::all() {
        assert_eq!(UiTheme::load(Some(th.code())), th);
    }
    assert_eq!(UiTheme::load(None), UiTheme::System);
    assert_eq!(UiTheme::load(Some("purple")), UiTheme::System);
    assert_eq!(UiTheme::default(), UiTheme::System);
}

#[test]
fn theme_labels_are_translated() {
    assert_eq!(UiTheme::Dark.label(Lang::Fr), "Sombre");
    assert_eq!(UiTheme::Dark.label(Lang::En), "Dark");
    assert_eq!(UiTheme::System.label(Lang::Fr), "Système");
    assert_eq!(UiTheme::Light.code(), "light");
}
