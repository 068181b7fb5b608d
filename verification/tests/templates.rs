use quickpaint::editor::PaintApp;
use quickpaint::i18n::Lang;
use quickpaint::tools::TemplateContent;

#[test]
fn seed_template_content_is_fully_undoable_for_every_template() {
    for content in [TemplateContent::InstagramPromo, TemplateContent::FacebookBanner] {
        let mut app = PaintApp::new(Lang::Fr);
        app.new_document_sized(1080, 1080);
        app.seed_template_content(content);
        let layer = &app.doc.layers[0];
        assert!(layer.strokes.len() + layer.texts.len() + layer.images.len() > 0);
        for _ in 0..64 {
            app.undo();
        }
        let layer = &app.doc.layers[0];
        assert_eq!(layer.strokes.len() + layer.texts.len() + layer.images.len(), 0);
    }
}

#[test]
fn seeded_templates_hold_a_background_and_text_blocks_with_fresh_ids() {
    let mut app = PaintApp::new(Lang::Fr);
    app.new_document_sized(1080, 1080);
    app.seed_template_content(TemplateContent::InstagramPromo);
    let layer = &app.doc.layers[0];
    assert_eq!(layer.strokes, vec![1, 4]);
    assert_eq!(layer.texts, vec![2, 3, 5]);
    assert_eq!(app.next_id, 6);
    assert_eq!(app.history.len(), 5);

    let mut app = PaintApp::new(Lang::En);
    app.new_document_sized(1200, 630);
    app.seed_template_content(TemplateContent::FacebookBanner);
    let layer = &app.doc.layers[0];
    assert_eq!(layer.strokes, vec![1]);
    assert_eq!(layer.texts, vec![2, 3]);
    assert_eq!(app.history.len(), 3);
    assert_eq!(app.status.as_deref(), Some("Template loaded with content to customize."));
}
