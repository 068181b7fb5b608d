use quickpaint::editor::PaintApp;
use quickpaint::i18n::Lang;
use quickpaint::presets::ExportFormat;

#[test]
fn save_and_apply_brand_kit_round_trips_palette_and_font() {
    let mut app = PaintApp::new(Lang::Fr);
    app.custom_palette = vec![[255, 0, 0], [0, 255, 0]];
    app.text_font_family = Some("Helvetica".to_string());
    app.save_brand_kit("Acme".into());
    assert_eq!(app.brand_kits.len(), 1);
    assert_eq!(app.brand_kits[0].colors, vec![[255, 0, 0], [0, 255, 0]]);
    assert_eq!(app.brand_kits[0].fonts, vec!["Helvetica".to_string()]);

    app.custom_palette.clear();
    app.text_font_family = None;
    let kit = app.brand_kits[0].copy();
    app.apply_brand_kit(&kit);
    assert_eq!(app.custom_palette, vec![[255, 0, 0], [0, 255, 0]]);
    assert_eq!(app.text_font_family, Some("Helvetica".to_string()));
}

#[test]
fn saving_a_brand_kit_again_keeps_its_previously_set_logo() {
    let mut app = PaintApp::new(Lang::Fr);
    app.custom_palette = vec![[10, 10, 10]];
    app.save_brand_kit("Acme".into());
    assert!(app.set_brand_kit_logo("Acme", "iVBORw0KGgo=".to_string()));
    assert!(app.brand_kits[0].logo_png_b64.is_some());

    app.custom_palette = vec![[20, 20, 20]];
    app.save_brand_kit("Acme".into());
    assert_eq!(app.brand_kits.len(), 1);
    assert_eq!(app.brand_kits[0].colors, vec![[20, 20, 20]]);
    assert!(app.brand_kits[0].logo_png_b64.is_some());
}

#[test]
fn save_and_apply_export_profile_round_trips_the_settings() {
    let mut app = PaintApp::new(Lang::Fr);
    app.batch_export.format = ExportFormat::Jpg;
    app.jpeg_quality = 42;
    app.batch_export.scale_half = true;
    app.batch_export.scale_2 = false;
    app.batch_export.custom_enabled = true;
    app.batch_export.custom_width = "800".into();
    app.save_export_profile("web".into());
    assert_eq!(app.export_profiles.len(), 1);

    app.batch_export.format = ExportFormat::Png;
    app.jpeg_quality = 90;
    app.batch_export.scale_half = false;
    app.batch_export.scale_2 = true;
    app.batch_export.custom_enabled = false;
    app.batch_export.custom_width.clear();
    let profile = app.export_profiles[0].copy();
    app.apply_export_profile(&profile);
    assert_eq!(app.batch_export.format, ExportFormat::Jpg);
    assert_eq!(app.jpeg_quality, 42);
    assert!(app.batch_export.scale_half);
    assert!(!app.batch_export.scale_2);
    assert!(app.batch_export.custom_enabled);
    assert_eq!(app.batch_export.custom_width, "800");
}

#[test]
fn export_profile_names_are_trimmed_and_unique() {
    let mut app = PaintApp::new(Lang::En);
    app.jpeg_quality = 10;
    app.save_export_profile("  web ".into());
    app.jpeg_quality = 20;
    app.save_export_profile("web".into());
    assert_eq!(app.export_profiles.len(), 1);
    assert_eq!(app.export_profiles[0].name, "web");
    assert_eq!(app.export_profiles[0].jpeg_quality, 20);
}

#[test]
fn blank_export_profile_name_is_refused_with_a_message() {
    let mut app = PaintApp::new(Lang::En);
    app.save_export_profile("   ".into());
    assert!(app.export_profiles.is_empty());
    assert!(app.status.is_some());
    assert!(!app.status_error);
}

#[test]
fn delete_export_profile_removes_it() {
    let mut app = PaintApp::new(Lang::En);
    app.save_export_profile("a".into());
    app.save_export_profile("b".into());
    app.delete_export_profile("a");
    assert_eq!(app.export_profiles.len(), 1);
    assert_eq!(app.export_profiles[0].name, "b");
}

#[test]
fn blank_brand_kit_name_does_nothing_and_delete_removes_it() {
    let mut app = PaintApp::new(Lang::En);
    app.save_brand_kit(" ".into());
    assert!(app.brand_kits.is_empty());
    app.save_brand_kit("Acme".into());
    app.delete_brand_kit("Acme");
    assert!(app.brand_kits.is_empty());
    assert!(!app.set_brand_kit_logo("Acme", "x".to_string()));
}

#[test]
fn batch_export_sizes_follow_the_ticked_options_without_duplicates() {
    let mut app = PaintApp::new(Lang::En);
    app.new_document_sized(101, 50);
    app.batch_export.scale_half = true;
    app.batch_export.scale_1 = true;
    app.batch_export.scale_2 = true;
    app.batch_export.scale_3 = true;
    let sizes = app.batch_export_target_sizes(Some((202, 100)));
    assert_eq!(sizes, vec![(51, 25), (101, 50), (202, 100), (303, 150)]);
    let sizes = app.batch_export_target_sizes(Some((0, 10)));
    assert_eq!(sizes.len(), 4);
}

#[test]
fn default_batch_export_is_png_at_one_and_two_times() {
    let mut app = PaintApp::new(Lang::En);
    app.new_document_sized(10, 20);
    assert_eq!(app.batch_export.format, ExportFormat::Png);
    assert_eq!(app.batch_export_target_sizes(None), vec![(10, 20), (20, 40)]);
}

#[test]
fn custom_width_is_read_from_trimmed_text() {
    let mut app = PaintApp::new(Lang::En);
    app.batch_export.custom_width = " 800 ".into();
    assert_eq!(app.batch_export.custom_width_value(), Some(800));
    app.batch_export.custom_width = "8x0".into();
    assert_eq!(app.batch_export.custom_width_value(), None);
}

#[test]
fn brand_kit_names_are_trimmed_like_the_other_presets() {
    let mut app = PaintApp::new(Lang::En);
    app.custom_palette = vec![[1, 2, 3]];
    app.save_brand_kit("Acme".into());
    app.custom_palette = vec![[4, 5, 6]];
    app.save_brand_kit(" Acme ".into());
    assert_eq!(app.brand_kits.len(), 1);
    assert_eq!(app.brand_kits[0].name, "Acme");
    assert_eq!(app.brand_kits[0].colors, vec![[4, 5, 6]]);
}
