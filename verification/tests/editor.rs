use quickpaint::document::{clamp_doc_dims, Document, Layer};
use quickpaint::editor::{anchor_shift_halves, PaintApp};
use quickpaint::history::Command;
use quickpaint::i18n::Lang;
use quickpaint::document::copy_layers;

fn app_with_layers(n: usize) -> PaintApp {
    let mut app = PaintApp::new(Lang::Fr);
    app.doc.layers.clear();
    for i in 0..n {
        app.doc.layers.push(Layer::new(i as u64 + 1, format!("L{}", i + 1)));
    }
    app.doc.active_layer = 0;
    app
}

fn push_stroke_step(app: &mut PaintApp, id: u64) {
    let before = copy_layers(&app.doc.layers);
    let mut after = copy_layers(&app.doc.layers);
    let a = app.doc.active_layer;
    after[a].strokes.push(id);
    let cmd = Command::SetLayers { before, before_active: a, after, after_active: a, label: "stroke" };
    app.history.push(&mut app.doc, cmd);
}

#[test]
fn compare_before_undoes_and_redoes_the_last_action() {
    let mut app = app_with_layers(1);
    push_stroke_step(&mut app, 1);
    assert_eq!(app.doc.layers[0].strokes.len(), 1);

    app.begin_compare_before();
    assert!(app.comparing_before);
    assert_eq!(app.doc.layers[0].strokes.len(), 0);

    app.end_compare_before();
    assert!(!app.comparing_before);
    assert_eq!(app.doc.layers[0].strokes.len(), 1);
}

#[test]
fn compare_before_is_a_noop_with_nothing_to_undo() {
    let mut app = app_with_layers(1);
    app.begin_compare_before();
    assert!(!app.comparing_before);
}

#[test]
fn new_editor_holds_one_empty_layer() {
    let app = PaintApp::new(Lang::Fr);
    assert_eq!(app.doc.size, (1280, 800));
    assert_eq!(app.doc.layers.len(), 1);
    assert_eq!(app.doc.layers[0].name, "Calque 1");
    assert_eq!(app.doc.layers[0].id, 1);
    assert_eq!(app.doc.next_layer_id, 2);
    assert!(!app.doc.is_animated());
    assert_eq!(app.history.len(), 0);
    assert_eq!(app.wand_tol, 32);
    assert!(app.editing_text.is_none());
}

#[test]
fn clamp_doc_dims_bounds_each_side() {
    assert_eq!(clamp_doc_dims(0, 50), (1, 50));
    assert_eq!(clamp_doc_dims(100_000, 20_000), (16384, 16384));
    assert_eq!(clamp_doc_dims(640, 480), (640, 480));
}

#[test]
fn new_document_sized_starts_over_with_bounded_size() {
    let mut app = app_with_layers(3);
    push_stroke_step(&mut app, 5);
    app.new_document_sized(0, 70_000);
    assert_eq!(app.doc.size, (1, 16384));
    assert_eq!(app.doc.layers.len(), 1);
    assert_eq!(app.history.len(), 0);
    assert_eq!(app.next_id, 1);
    assert_eq!(app.status.as_deref(), Some("Nouveau document 1×16384."));
}

#[test]
fn new_document_keeps_the_size() {
    let mut app = PaintApp::new(Lang::En);
    app.new_document_sized(300, 200);
    app.add_layer();
    assert_eq!(app.status.as_deref(), Some("New document 300×200."));
    app.new_document();
    assert_eq!(app.status.as_deref(), Some("New document."));
    assert_eq!(app.doc.size, (300, 200));
    assert_eq!(app.doc.layers.len(), 1);
    assert_eq!(app.doc.layers[0].name, "Layer 1");
}

#[test]
fn apply_loaded_continues_ids_after_the_largest_in_use() {
    let mut app = PaintApp::new(Lang::En);
    let mut doc = Document::new((50, 50), Lang::En);
    doc.layers[0].strokes.push(41);
    doc.layers[0].images.push(7);
    app.apply_loaded(doc);
    assert_eq!(app.next_id, 42);
    assert_eq!(app.history.len(), 0);
}

#[test]
fn resize_document_is_one_undoable_step() {
    let mut app = PaintApp::new(Lang::En);
    app.resize_document(640, 480);
    assert_eq!(app.doc.size, (640, 480));
    assert_eq!(app.history.len(), 1);
    assert_eq!(app.status.as_deref(), Some("Image resized : 640×480"));
    app.resize_document(640, 480);
    assert_eq!(app.history.len(), 1);
    app.undo();
    assert_eq!(app.doc.size, (1280, 800));
    app.redo();
    assert_eq!(app.doc.size, (640, 480));
}

#[test]
fn resize_canvas_and_set_canvas_size_change_only_the_size() {
    let mut app = PaintApp::new(Lang::En);
    app.doc.layers[0].strokes.push(3);
    app.resize_canvas(100, 0, (2, 2));
    assert_eq!(app.doc.size, (100, 1));
    assert_eq!(app.status.as_deref(), Some("Canvas : 100×1"));
    assert_eq!(app.doc.layers[0].strokes, vec![3]);
    app.set_canvas_size(100, 1);
    assert_eq!(app.history.len(), 1);
}

#[test]
fn resize_target_is_none_for_the_current_size() {
    let app = PaintApp::new(Lang::En);
    assert_eq!(app.resize_target(1280, 800), None);
    assert_eq!(app.resize_target(0, 800), Some((1, 800)));
}

#[test]
fn open_resize_dialog_starts_from_the_current_size() {
    let mut app = PaintApp::new(Lang::En);
    app.open_resize_dialog(true);
    let d = app.resize_dialog.as_ref().unwrap();
    assert!(d.canvas_mode);
    assert_eq!((d.w, d.h), (1280, 800));
    assert!(d.keep_ratio);
    assert_eq!(d.anchor, (1, 1));
}

#[test]
fn anchor_shift_follows_the_anchor() {
    assert_eq!(anchor_shift_halves(100, 120, 0), 0);
    assert_eq!(anchor_shift_halves(100, 120, 1), 20);
    assert_eq!(anchor_shift_halves(100, 120, 2), 40);
    assert_eq!(anchor_shift_halves(100, 80, 9), -40);
}

#[test]
fn history_goto_jumps_back_and_forth() {
    let mut app = app_with_layers(1);
    push_stroke_step(&mut app, 1);
    push_stroke_step(&mut app, 2);
    push_stroke_step(&mut app, 3);
    app.history_goto(1);
    assert_eq!(app.doc.layers[0].strokes, vec![1]);
    assert_eq!(app.history.cursor(), 1);
    app.history_goto(99);
    assert_eq!(app.doc.layers[0].strokes, vec![1, 2, 3]);
    assert_eq!(app.history.cursor(), 3);
    app.history_goto(0);
    assert!(app.doc.layers[0].strokes.is_empty());
}

#[test]
fn a_new_edit_after_undo_drops_the_redo_branch() {
    let mut app = app_with_layers(1);
    push_stroke_step(&mut app, 1);
    push_stroke_step(&mut app, 2);
    app.undo();
    assert!(app.history.can_redo());
    push_stroke_step(&mut app, 3);
    assert!(!app.history.can_redo());
    assert_eq!(app.history.len(), 2);
    assert_eq!(app.doc.layers[0].strokes, vec![1, 3]);
}

#[test]
fn undo_and_redo_with_nothing_to_do_change_nothing() {
    let mut app = app_with_layers(2);
    app.undo();
    app.redo();
    assert_eq!(app.doc.layers.len(), 2);
    assert!(!app.history.can_undo());
}

#[test]
fn info_and_fail_set_the_status_line() {
    let mut app = PaintApp::new(Lang::En);
    app.fail("bad".to_string());
    assert_eq!(app.status.as_deref(), Some("bad"));
    assert!(app.status_error);
    app.info("good".to_string());
    assert_eq!(app.status.as_deref(), Some("good"));
    assert!(!app.status_error);
}

#[test]
fn push_doc_snapshot_records_one_step() {
    let mut app = PaintApp::new(Lang::En);
    let mut after = app.doc.copy();
    after.size = (10, 10);
    app.push_doc_snapshot(after, "test");
    assert_eq!(app.history.len(), 1);
    app.resize_document(50, 50);
    assert_eq!(app.history.label_at(1), "Resize image");
    app.undo();
    assert_eq!(app.history.label_at(0), "test");
    app.undo();
    assert_eq!(app.doc.size, (1280, 800));
}

#[test]
fn flip_document_is_one_undoable_step() {
    let mut app = PaintApp::new(Lang::En);
    app.doc.layers[0].strokes.push(1);
    app.flip_document(true);
    assert_eq!(app.history.len(), 1);
    assert_eq!(app.status.as_deref(), Some("Flip horizontal"));
    assert_eq!(app.doc.layers[0].strokes, vec![1]);
    app.flip_document(false);
    assert_eq!(app.status.as_deref(), Some("Flip vertical"));
    app.undo();
    app.undo();
    assert!(!app.history.can_undo());
}

#[test]
fn flip_document_mirrors_painted_pixels_and_masks() {
    let mut app = PaintApp::new(Lang::En);
    app.new_document_sized(10, 4);
    app.doc.layers[0].set_pixel(2, 1, [9, 8, 7, 255]);
    app.doc.layers[0].set_pixel(12, 1, [1, 1, 1, 255]); // outside the canvas
    app.doc.layers[0].mask = Some(vec![(0, 3, 40)]);
    app.flip_document(true);
    assert_eq!(app.doc.layers[0].raster, vec![(7, 1, [9, 8, 7, 255])]);
    assert_eq!(app.doc.layers[0].mask, Some(vec![(9, 3, 40)]));
    app.flip_document(false);
    assert_eq!(app.doc.layers[0].get_pixel(7, 2), [9, 8, 7, 255]);
    assert_eq!(app.doc.layers[0].mask, Some(vec![(9, 0, 40)]));
    app.undo();
    app.undo();
    assert_eq!(app.doc.layers[0].get_pixel(2, 1), [9, 8, 7, 255]);
}

#[test]
fn canvas_resize_shifts_painted_pixels_by_the_anchor() {
    let mut app = PaintApp::new(Lang::En);
    app.new_document_sized(10, 10);
    app.doc.layers[0].set_pixel(1, 1, [5, 5, 5, 255]);
    // Anchored bottom-right, growing by 6 × 4: the content moves by (6, 4).
    app.resize_canvas(16, 14, (2, 2));
    assert_eq!(app.doc.layers[0].raster, vec![(7, 5, [5, 5, 5, 255])]);
    // Centred, shrinking by 3 × 3: a shift of -1.5 rounds toward zero to -1.
    app.resize_canvas(13, 11, (1, 1));
    assert_eq!(app.doc.layers[0].raster, vec![(6, 4, [5, 5, 5, 255])]);
    // Anchored top-left: no shift.
    app.resize_canvas(20, 20, (0, 0));
    assert_eq!(app.doc.layers[0].raster, vec![(6, 4, [5, 5, 5, 255])]);
}

#[test]
fn canvas_histogram_counts_the_rendered_pixels() {
    let mut app = PaintApp::new(Lang::En);
    app.new_document_sized(2, 1);
    assert!(app.canvas_histogram(None).is_none());
    let h = app.canvas_histogram(Some(vec![1, 2, 3, 255, 1, 9, 3, 255])).unwrap();
    assert_eq!(h.r[1], 2);
    assert_eq!(h.g[2], 1);
    assert_eq!(h.g[9], 1);
    assert_eq!(h.b[3], 2);
}

#[test]
fn resize_dialog_keeps_proportions_in_image_mode() {
    let mut app = PaintApp::new(Lang::En);
    app.open_resize_dialog(false);
    let mut d = app.resize_dialog.take().unwrap();
    d.set_width(640, 1280, 800);
    assert_eq!((d.w, d.h), (640, 400));
    d.set_height(333, 1280, 800);
    // 333 × 1280 / 800 = 532.8, rounded.
    assert_eq!((d.w, d.h), (533, 333));
    d.keep_ratio = false;
    d.set_width(100, 1280, 800);
    assert_eq!((d.w, d.h), (100, 333));
    d.apply_scale(1280, 800, 25);
    assert_eq!((d.w, d.h), (320, 200));
    d.apply_scale(3, 1, 25);
    assert_eq!((d.w, d.h), (1, 1));
}

#[test]
fn resize_dialog_in_canvas_mode_does_not_link_the_sides() {
    let mut app = PaintApp::new(Lang::En);
    app.open_resize_dialog(true);
    let mut d = app.resize_dialog.take().unwrap();
    d.set_width(500, 1280, 800);
    assert_eq!((d.w, d.h), (500, 800));
}
