use quickpaint::editor::PaintApp;
use quickpaint::i18n::Lang;

fn app_with_one_stroke() -> PaintApp {
    let mut app = PaintApp::new(Lang::Fr);
    let id = app.next_id;
    app.next_id += 1;
    app.doc.layers[0].strokes.push(id);
    app
}

#[test]
fn add_animation_frame_turns_a_static_document_into_two_frames() {
    let mut app = app_with_one_stroke();
    assert!(app.doc.frames.is_empty());
    app.add_animation_frame();
    assert_eq!(app.doc.frames.len(), 2);
    assert_eq!(app.doc.active_frame, 1);
    assert_eq!(app.doc.frames[0].layers[0].strokes.len(), 1);
    assert_eq!(app.doc.frames[1].layers[0].strokes.len(), 1);
}

#[test]
fn switch_animation_frame_preserves_edits_made_on_each_frame() {
    let mut app = app_with_one_stroke();
    app.add_animation_frame();
    let id2 = app.next_id;
    app.next_id += 1;
    app.doc.layers[0].strokes.push(id2);
    assert_eq!(app.doc.layers[0].strokes.len(), 2);

    app.switch_animation_frame(0);
    assert_eq!(app.doc.active_frame, 0);
    assert_eq!(app.doc.layers[0].strokes.len(), 1);

    app.switch_animation_frame(1);
    assert_eq!(app.doc.layers[0].strokes.len(), 2);
}

#[test]
fn remove_animation_frame_refuses_to_empty_the_last_frame() {
    let mut app = app_with_one_stroke();
    app.add_animation_frame();
    app.remove_animation_frame(0);
    assert_eq!(app.doc.frames.len(), 1);
    app.remove_animation_frame(0);
    assert_eq!(app.doc.frames.len(), 1);
}

#[test]
fn move_animation_frame_swaps_neighbors_and_tracks_the_active_frame() {
    let mut app = app_with_one_stroke();
    app.add_animation_frame();
    app.add_animation_frame();
    assert_eq!(app.doc.frames.len(), 3);
    assert_eq!(app.doc.active_frame, 2);
    app.move_animation_frame(2, -1);
    assert_eq!(app.doc.active_frame, 1);
}

#[test]
fn set_frame_delay_clamps_to_a_minimum() {
    let mut app = app_with_one_stroke();
    app.add_animation_frame();
    app.set_frame_delay(0, 1);
    assert_eq!(app.doc.frames[0].delay_ms, 20);
    app.set_frame_delay(0, 200);
    assert_eq!(app.doc.frames[0].delay_ms, 200);
}

#[test]
fn new_frames_use_the_default_delay() {
    let mut app = app_with_one_stroke();
    app.add_animation_frame();
    assert_eq!(app.doc.frames[0].delay_ms, 100);
    assert_eq!(app.doc.frames[1].delay_ms, 100);
}

#[test]
fn switching_frames_is_undoable() {
    let mut app = app_with_one_stroke();
    app.add_animation_frame();
    app.switch_animation_frame(0);
    assert_eq!(app.doc.active_frame, 0);
    app.undo();
    assert_eq!(app.doc.active_frame, 1);
    app.undo();
    assert!(app.doc.frames.is_empty());
}

#[test]
fn removing_the_active_last_frame_moves_to_the_new_last_one() {
    let mut app = app_with_one_stroke();
    app.add_animation_frame();
    app.add_animation_frame();
    app.remove_animation_frame(2);
    assert_eq!(app.doc.frames.len(), 2);
    assert_eq!(app.doc.active_frame, 1);
}

#[test]
fn synced_frames_hold_the_edits_of_the_active_frame() {
    let mut app = app_with_one_stroke();
    app.add_animation_frame();
    app.doc.layers[0].strokes.push(99);
    let frames = app.synced_frames();
    assert_eq!(frames[1].layers[0].strokes.len(), 2);
    assert_eq!(frames[0].layers[0].strokes.len(), 1);
    assert_eq!(app.doc.frames[1].layers[0].strokes.len(), 1);
}

#[test]
fn add_animation_frame_inserts_right_after_the_active_frame() {
    let mut app = app_with_one_stroke();
    app.add_animation_frame();
    app.add_animation_frame();
    // frames: [A, A, A], active 2; mark each frame apart.
    app.doc.frames[0].delay_ms = 30;
    app.doc.frames[1].delay_ms = 40;
    app.doc.frames[2].delay_ms = 50;
    app.switch_animation_frame(0);
    app.doc.layers[0].strokes.push(77);
    app.add_animation_frame();
    assert_eq!(app.doc.frames.len(), 4);
    assert_eq!(app.doc.active_frame, 1);
    assert_eq!(app.doc.frames[0].layers[0].strokes, vec![1, 77]);
    assert_eq!(app.doc.frames[1].layers[0].strokes, vec![1, 77]);
    assert_eq!(app.doc.frames[2].delay_ms, 40);
    assert_eq!(app.doc.frames[3].delay_ms, 50);
    assert_eq!(app.history.label_at(app.history.len() - 1), "Ajouter une frame");
    app.undo();
    assert_eq!(app.doc.frames.len(), 3);
}
