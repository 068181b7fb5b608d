use quickpaint::editor::PaintApp;
use quickpaint::i18n::Lang;
use quickpaint::palette::rgb_eq;

#[test]
fn recent_colors_keep_the_newest_first_without_duplicates() {
    let mut app = PaintApp::new(Lang::En);
    app.push_recent_color([1, 2, 3, 255]);
    app.push_recent_color([4, 5, 6, 128]);
    app.push_recent_color([1, 2, 3, 0]);
    assert_eq!(app.recent_colors, vec![[1, 2, 3], [4, 5, 6]]);
}

#[test]
fn recent_colors_hold_at_most_eight() {
    let mut app = PaintApp::new(Lang::En);
    for i in 0..12u8 {
        app.push_recent_color([i, 0, 0, 255]);
    }
    assert_eq!(app.recent_colors.len(), 8);
    assert_eq!(app.recent_colors[0], [11, 0, 0]);
    assert_eq!(app.recent_colors[7], [4, 0, 0]);
}

#[test]
fn palette_adds_once_and_removes_by_index() {
    let mut app = PaintApp::new(Lang::En);
    app.add_to_palette([9, 9, 9]);
    app.add_to_palette([9, 9, 9]);
    app.add_to_palette([1, 1, 1]);
    assert_eq!(app.custom_palette, vec![[9, 9, 9], [1, 1, 1]]);
    app.remove_from_palette(5);
    assert_eq!(app.custom_palette.len(), 2);
    app.remove_from_palette(0);
    assert_eq!(app.custom_palette, vec![[1, 1, 1]]);
}

#[test]
fn rgb_eq_compares_every_channel() {
    assert!(rgb_eq([1, 2, 3], [1, 2, 3]));
    assert!(!rgb_eq([1, 2, 3], [1, 2, 4]));
}
