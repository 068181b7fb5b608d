use quickpaint::clipboard::ClipBoard;
use quickpaint::editor::PaintApp;
use quickpaint::i18n::Lang;
use quickpaint::tools::ActiveTool;

fn app_with_elements() -> PaintApp {
    let mut app = PaintApp::new(Lang::En);
    app.doc.layers[0].strokes = vec![1, 2];
    app.doc.layers[0].texts = vec![3];
    app.doc.layers[0].images = vec![4];
    app.next_id = 5;
    app
}

#[test]
fn clipboard_starts_empty() {
    let c = ClipBoard::new();
    assert!(c.is_empty());
    let c = ClipBoard { strokes: vec![], texts: vec![1], images: vec![] };
    assert!(!c.is_empty());
}

#[test]
fn copy_then_paste_adds_fresh_copies_and_selects_them() {
    let mut app = app_with_elements();
    app.selection = [2, 3].into_iter().collect();
    app.copy_selection();
    assert_eq!(app.clip.strokes, vec![2]);
    assert_eq!(app.clip.texts, vec![3]);
    assert!(app.clip.images.is_empty());
    assert!(app.paste_clipboard());
    assert_eq!(app.doc.layers[0].strokes, vec![1, 2, 5]);
    assert_eq!(app.doc.layers[0].texts, vec![3, 6]);
    assert_eq!(app.next_id, 7);
    assert_eq!(app.selection.len(), 2);
    assert!(app.selection.contains(&5) && app.selection.contains(&6));
    assert_eq!(app.active_tool, ActiveTool::Select);
    assert_eq!(app.history.cursor(), 2);
}

#[test]
fn paste_with_an_empty_clipboard_does_nothing() {
    let mut app = app_with_elements();
    assert!(!app.paste_clipboard());
    assert_eq!(app.history.len(), 0);
    assert_eq!(app.next_id, 5);
}

#[test]
fn copy_without_selection_keeps_the_clipboard() {
    let mut app = app_with_elements();
    app.clip = ClipBoard { strokes: vec![9], texts: vec![], images: vec![] };
    app.copy_selection();
    assert_eq!(app.clip.strokes, vec![9]);
}

#[test]
fn cut_removes_the_selection_after_copying_it() {
    let mut app = app_with_elements();
    app.selection = [1, 4].into_iter().collect();
    app.cut_selection();
    assert_eq!(app.clip.strokes, vec![1]);
    assert_eq!(app.clip.images, vec![4]);
    assert_eq!(app.doc.layers[0].strokes, vec![2]);
    assert!(app.doc.layers[0].images.is_empty());
    assert!(app.selection.is_empty());
}

#[test]
fn duplicate_selection_copies_every_selected_element_in_one_step() {
    let mut app = app_with_elements();
    app.selection = [1, 3, 4].into_iter().collect();
    app.duplicate_selection();
    assert_eq!(app.doc.layers[0].strokes, vec![1, 2, 5]);
    assert_eq!(app.doc.layers[0].texts, vec![3, 6]);
    assert_eq!(app.doc.layers[0].images, vec![4, 7]);
    assert_eq!(app.next_id, 8);
    assert_eq!(app.history.len(), 1);
    assert_eq!(app.history.label_at(0), "Duplicate");
    assert_eq!(app.selection.len(), 3);
    assert!(app.selection.contains(&5) && app.selection.contains(&6) && app.selection.contains(&7));
    app.undo();
    assert_eq!(app.doc.layers[0].strokes, vec![1, 2]);
    assert_eq!(app.doc.layers[0].texts, vec![3]);
}

#[test]
fn duplicate_selection_of_a_single_text_copies_it() {
    let mut app = PaintApp::new(Lang::En);
    app.doc.layers[0].texts = vec![7];
    app.next_id = 10;
    app.selection = [7].into_iter().collect();
    app.duplicate_selection();
    assert_eq!(app.doc.layers[0].texts, vec![7, 10]);
    assert_eq!(app.selection.len(), 1);
    assert!(app.selection.contains(&10));
}

#[test]
fn duplicate_selection_with_nothing_selected_does_nothing() {
    let mut app = app_with_elements();
    app.selection = [99].into_iter().collect();
    app.duplicate_selection();
    assert_eq!(app.history.len(), 0);
    assert_eq!(app.next_id, 5);
    assert!(app.selection.contains(&99));
}

#[test]
fn merge_selection_to_image_replaces_selected_elements_with_one_image() {
    let mut app = PaintApp::new(Lang::En);
    app.new_document_sized(4, 4);
    app.doc.layers[0].strokes = vec![1, 2];
    app.next_id = 3;
    app.selection = [1, 2].into_iter().collect();
    let render: Vec<u8> = (0..64u8).collect();
    let merged = app.merge_selection_to_image(Some(render), 1, 1, 3, 3).unwrap();
    let l = &app.doc.layers[0];
    assert!(l.strokes.is_empty());
    assert_eq!(l.images.len(), 1);
    assert_eq!(app.selection.len(), 1);
    assert!(app.selection.contains(&l.images[0]));
    assert_eq!((merged.0, merged.1, merged.2), (3, 2, 2));
    assert_eq!(merged.3.len(), 16);
    assert_eq!(merged.3[0], 20);
    assert_eq!(merged.3[8], 36);
    assert_eq!(app.status.as_deref(), Some("Elements merged into an image."));
    app.undo();
    assert_eq!(app.doc.layers[0].strokes, vec![1, 2]);
}

#[test]
fn merge_selection_to_image_is_a_noop_with_a_single_element() {
    let mut app = PaintApp::new(Lang::En);
    app.new_document_sized(4, 4);
    app.doc.layers[0].strokes = vec![1];
    app.next_id = 2;
    app.selection = [1].into_iter().collect();
    assert!(app.merge_selection_to_image(Some(vec![0u8; 64]), 0, 0, 2, 2).is_none());
    assert_eq!(app.doc.layers[0].strokes.len(), 1);
    assert!(app.doc.layers[0].images.is_empty());
}

#[test]
fn merge_selection_to_image_needs_a_selected_element_on_the_active_layer() {
    let mut app = PaintApp::new(Lang::En);
    app.new_document_sized(4, 4);
    app.doc.layers[0].strokes = vec![1];
    app.next_id = 10;
    app.selection = [5, 6].into_iter().collect();
    assert!(app.merge_selection_to_image(Some(vec![0u8; 64]), 0, 0, 2, 2).is_none());
    assert_eq!(app.doc.layers[0].strokes, vec![1]);
    assert_eq!(app.next_id, 10);
    assert_eq!(app.history.len(), 0);
}

#[test]
fn merge_selection_to_image_past_the_canvas_edge_is_transparent_there() {
    let mut app = PaintApp::new(Lang::En);
    app.new_document_sized(4, 4);
    app.doc.layers[0].strokes = vec![1, 2];
    app.next_id = 3;
    app.selection = [1, 2].into_iter().collect();
    let render: Vec<u8> = vec![200u8; 64];
    // A 2 × 2 rectangle starting at (3, 3): only its top-left pixel lies on the canvas.
    let merged = app.merge_selection_to_image(Some(render), 3, 3, 5, 5).unwrap();
    assert_eq!((merged.1, merged.2), (2, 2));
    assert_eq!(&merged.3[0..4], &[200, 200, 200, 200]);
    assert!(merged.3[4..].iter().all(|&b| b == 0));
}

#[test]
fn single_selected_image_or_text_is_found() {
    let mut app = app_with_elements();
    app.selection = [4].into_iter().collect();
    assert_eq!(app.single_image_idx(), Some(0));
    assert_eq!(app.single_text_idx(), None);
    app.selection = [3].into_iter().collect();
    assert_eq!(app.single_text_idx(), Some(0));
    app.selection = [3, 4].into_iter().collect();
    assert_eq!(app.single_image_idx(), None);
    assert_eq!(app.single_text_idx(), None);
}

#[test]
fn click_select_follows_shift() {
    let mut app = PaintApp::new(Lang::En);
    app.click_select(Some(4), false);
    assert_eq!(app.selection.len(), 1);
    app.click_select(Some(5), true);
    assert!(app.selection.contains(&4) && app.selection.contains(&5));
    app.click_select(Some(4), true);
    assert!(!app.selection.contains(&4) && app.selection.contains(&5));
    app.click_select(None, true);
    assert_eq!(app.selection.len(), 1);
    app.click_select(None, false);
    assert!(app.selection.is_empty());
}

#[test]
fn press_select_keeps_a_selection_it_lands_on() {
    let mut app = PaintApp::new(Lang::En);
    app.selection = [1, 2].into_iter().collect();
    app.press_select(2, false);
    assert_eq!(app.selection.len(), 2);
    app.press_select(3, true);
    assert_eq!(app.selection.len(), 3);
    app.press_select(9, false);
    assert_eq!(app.selection.len(), 1);
    assert!(app.selection.contains(&9));
}
