use quickpaint::document::Layer;
use quickpaint::editor::PaintApp;
use quickpaint::i18n::Lang;
use quickpaint::tools::{layer_lock_blocks_tool, ActiveTool};

fn app_with_layers(n: usize) -> PaintApp {
    let mut app = PaintApp::new(Lang::Fr);
    app.doc.layers.clear();
    for i in 0..n {
        app.doc.layers.push(Layer::new(i as u64 + 1, format!("L{}", i + 1)));
    }
    app.doc.active_layer = 0;
    app.doc.next_layer_id = n as u64 + 1;
    app
}

fn layer_ids(app: &PaintApp) -> Vec<u64> {
    app.doc.layers.iter().map(|l| l.id).collect()
}

fn add_stroke(app: &mut PaintApp, layer: usize, id: u64) {
    app.doc.layers[layer].strokes.push(id);
    if app.next_id <= id {
        app.next_id = id + 1;
    }
}

#[test]
fn layer_lock_allows_only_non_destructive_tools() {
    assert!(!layer_lock_blocks_tool(ActiveTool::Pan));
    assert!(!layer_lock_blocks_tool(ActiveTool::Eyedropper));
    assert!(!layer_lock_blocks_tool(ActiveTool::Measure));
    assert!(layer_lock_blocks_tool(ActiveTool::Brush));
    assert!(layer_lock_blocks_tool(ActiveTool::Pencil));
    assert!(layer_lock_blocks_tool(ActiveTool::Eraser));
    assert!(layer_lock_blocks_tool(ActiveTool::Select));
    assert!(layer_lock_blocks_tool(ActiveTool::Text));
    assert!(layer_lock_blocks_tool(ActiveTool::Bucket));
}

#[test]
fn reorder_layer_moves_backward_in_the_stack() {
    let mut app = app_with_layers(4);
    app.doc.active_layer = 2;
    app.reorder_layer(4, 1);
    assert_eq!(layer_ids(&app), vec![4, 1, 2, 3]);
    assert_eq!(app.doc.active_layer, 3);
}

#[test]
fn reorder_layer_moves_forward_in_the_stack() {
    let mut app = app_with_layers(4);
    app.doc.active_layer = 1;
    app.reorder_layer(1, 3);
    assert_eq!(layer_ids(&app), vec![2, 3, 1, 4]);
    assert_eq!(app.doc.active_layer, 0);
}

#[test]
fn reorder_layer_active_follows_the_moved_layer() {
    let mut app = app_with_layers(3);
    app.doc.active_layer = 0;
    app.reorder_layer(1, 3);
    assert_eq!(layer_ids(&app), vec![2, 3, 1]);
    assert_eq!(app.doc.active_layer, 2);
}

#[test]
fn reorder_layer_is_a_noop_for_unknown_ids() {
    let mut app = app_with_layers(2);
    let before = layer_ids(&app);
    app.reorder_layer(999, 1);
    assert_eq!(layer_ids(&app), before);
}

#[test]
fn reorder_layer_is_undone_in_one_step() {
    let mut app = app_with_layers(3);
    app.reorder_layer(3, 1);
    assert_eq!(layer_ids(&app), vec![3, 1, 2]);
    app.undo();
    assert_eq!(layer_ids(&app), vec![1, 2, 3]);
    app.redo();
    assert_eq!(layer_ids(&app), vec![3, 1, 2]);
}

#[test]
fn group_selection_into_layer_moves_elements_to_a_new_layer_above() {
    let mut app = app_with_layers(1);
    add_stroke(&mut app, 0, 1);
    add_stroke(&mut app, 0, 2);
    add_stroke(&mut app, 0, 3);
    app.selection = [1, 2].into_iter().collect();

    app.group_selection_into_layer();

    assert_eq!(app.doc.layers.len(), 2);
    assert_eq!(app.doc.layers[0].strokes.len(), 1);
    assert_eq!(app.doc.layers[0].strokes[0], 3);
    let group = &app.doc.layers[1];
    assert_eq!(group.strokes.len(), 2);
    assert_eq!(app.doc.active_layer, 1);
}

#[test]
fn group_selection_into_layer_is_a_noop_with_a_single_element() {
    let mut app = app_with_layers(1);
    add_stroke(&mut app, 0, 1);
    app.selection = [1].into_iter().collect();

    app.group_selection_into_layer();

    assert_eq!(app.doc.layers.len(), 1);
}

#[test]
fn add_layer_names_it_after_its_place_and_makes_it_active() {
    let mut app = PaintApp::new(Lang::En);
    app.add_layer();
    assert_eq!(app.doc.layers.len(), 2);
    assert_eq!(app.doc.layers[1].name, "Layer 2");
    assert_eq!(app.doc.layers[1].id, 2);
    assert_eq!(app.doc.next_layer_id, 3);
    assert_eq!(app.doc.active_layer, 1);
    app.undo();
    assert_eq!(app.doc.layers.len(), 1);
}

#[test]
fn delete_active_layer_keeps_the_last_layer() {
    let mut app = app_with_layers(1);
    app.delete_active_layer();
    assert_eq!(app.doc.layers.len(), 1);

    let mut app = app_with_layers(3);
    app.doc.active_layer = 2;
    app.delete_active_layer();
    assert_eq!(layer_ids(&app), vec![1, 2]);
    assert_eq!(app.doc.active_layer, 1);
    app.undo();
    assert_eq!(layer_ids(&app), vec![1, 2, 3]);
    assert_eq!(app.doc.active_layer, 2);
}

#[test]
fn merge_down_appends_the_upper_content_and_is_undoable() {
    let mut app = app_with_layers(2);
    add_stroke(&mut app, 0, 1);
    add_stroke(&mut app, 1, 2);
    app.doc.layers[1].texts.push(7);
    app.doc.active_layer = 1;

    app.merge_down();

    assert_eq!(app.doc.layers.len(), 1);
    assert_eq!(app.doc.layers[0].id, 1);
    assert_eq!(app.doc.layers[0].strokes, vec![1, 2]);
    assert_eq!(app.doc.layers[0].texts, vec![7]);
    assert_eq!(app.doc.active_layer, 0);
    app.undo();
    assert_eq!(app.doc.layers.len(), 2);
    assert_eq!(app.doc.layers[1].strokes, vec![2]);
}

#[test]
fn merge_down_does_nothing_on_the_bottom_layer() {
    let mut app = app_with_layers(2);
    app.merge_down();
    assert_eq!(app.doc.layers.len(), 2);
    assert_eq!(app.history.len(), 0);
}

#[test]
fn flatten_gathers_every_layer_bottom_first() {
    let mut app = app_with_layers(3);
    add_stroke(&mut app, 0, 1);
    add_stroke(&mut app, 2, 3);
    add_stroke(&mut app, 1, 2);
    app.flatten();
    assert_eq!(app.doc.layers.len(), 1);
    assert_eq!(app.doc.layers[0].strokes, vec![1, 2, 3]);
    assert_eq!(app.doc.layers[0].name, "Calque 1");
    app.undo();
    assert_eq!(app.doc.layers.len(), 3);
}

#[test]
fn duplicate_layer_renumbers_the_copied_elements() {
    let mut app = app_with_layers(1);
    add_stroke(&mut app, 0, 1);
    app.doc.layers[0].texts.push(2);
    app.next_id = 3;
    app.lang = Lang::En;
    app.duplicate_layer();
    assert_eq!(app.doc.layers.len(), 2);
    let copy = &app.doc.layers[1];
    assert_eq!(copy.id, 2);
    assert_eq!(copy.name, "L1 copy");
    assert_eq!(copy.strokes, vec![3]);
    assert_eq!(copy.texts, vec![4]);
    assert_eq!(app.next_id, 5);
    assert_eq!(app.doc.active_layer, 1);
}

#[test]
fn group_with_below_names_a_new_folder_and_ungroup_takes_it_out() {
    let mut app = app_with_layers(2);
    app.lang = Lang::En;
    app.doc.active_layer = 1;
    app.group_with_below();
    assert_eq!(app.doc.layers[0].group.as_deref(), Some("Group 3"));
    assert_eq!(app.doc.layers[1].group.as_deref(), Some("Group 3"));
    app.ungroup_active();
    assert_eq!(app.doc.layers[1].group, None);
    assert_eq!(app.doc.layers[0].group.as_deref(), Some("Group 3"));
}

#[test]
fn toggle_group_hides_then_shows_the_whole_folder() {
    let mut app = app_with_layers(3);
    app.doc.layers[0].group = Some("G".to_string());
    app.doc.layers[1].group = Some("G".to_string());
    app.doc.layers[1].visible = false;
    app.toggle_group("G");
    assert!(!app.doc.layers[0].visible);
    assert!(!app.doc.layers[1].visible);
    assert!(app.doc.layers[2].visible);
    app.toggle_group("G");
    assert!(app.doc.layers[0].visible);
    assert!(app.doc.layers[1].visible);
}

#[test]
fn move_active_layer_swaps_with_its_neighbour() {
    let mut app = app_with_layers(3);
    app.move_active_layer(1);
    assert_eq!(layer_ids(&app), vec![2, 1, 3]);
    assert_eq!(app.doc.active_layer, 1);
    app.move_active_layer(-1);
    assert_eq!(layer_ids(&app), vec![1, 2, 3]);
    app.move_active_layer(-1);
    assert_eq!(layer_ids(&app), vec![1, 2, 3]);
    assert_eq!(app.doc.active_layer, 0);
}

#[test]
fn delete_selection_removes_only_selected_elements() {
    let mut app = app_with_layers(1);
    add_stroke(&mut app, 0, 1);
    add_stroke(&mut app, 0, 2);
    app.doc.layers[0].texts.push(3);
    app.selection = [2, 3].into_iter().collect();
    app.delete_selection();
    assert_eq!(app.doc.layers[0].strokes, vec![1]);
    assert!(app.doc.layers[0].texts.is_empty());
    assert!(app.selection.is_empty());
    assert_eq!(app.history.cursor(), 2);
    app.undo();
    app.undo();
    assert_eq!(app.doc.layers[0].strokes, vec![1, 2]);
    assert_eq!(app.doc.layers[0].texts, vec![3]);
}

#[test]
fn merge_down_keeps_painted_raster_content() {
    let mut app = app_with_layers(2);
    app.doc.active_layer = 1;
    app.doc.layers[1].set_pixel(10, 10, [255, 0, 0, 255]);

    app.merge_down();

    assert_eq!(app.doc.layers.len(), 1);
    assert_eq!(app.doc.layers[0].get_pixel(10, 10), [255, 0, 0, 255]);
    app.history.undo(&mut app.doc);
    assert_eq!(app.doc.layers.len(), 2);
    assert_eq!(app.doc.layers[1].get_pixel(10, 10)[3], 255);
}

#[test]
fn flatten_composites_raster_from_all_layers() {
    let mut app = app_with_layers(3);
    app.doc.layers[0].set_pixel(5, 5, [0, 0, 255, 255]);
    app.doc.layers[2].set_pixel(5, 5, [255, 0, 0, 255]);
    app.doc.layers[1].set_pixel(7, 7, [0, 255, 0, 255]);

    app.flatten();

    assert_eq!(app.doc.layers.len(), 1);
    assert_eq!(app.doc.layers[0].get_pixel(5, 5), [255, 0, 0, 255]);
    assert_eq!(app.doc.layers[0].get_pixel(7, 7), [0, 255, 0, 255]);
}

#[test]
fn layer_edits_are_labelled_in_the_history_panel() {
    let mut app = app_with_layers(2);
    app.lang = Lang::En;
    app.add_layer();
    app.doc.active_layer = 1;
    app.merge_down();
    assert_eq!(app.history.label_at(0), "Add layer");
    assert_eq!(app.history.label_at(1), "Merge down");
    app.lang = Lang::Fr;
    app.flatten();
    assert_eq!(app.history.label_at(2), "Aplatir l'image");
}

#[test]
fn clear_active_layer_removes_strokes_and_pixels_in_one_step() {
    let mut app = app_with_layers(1);
    add_stroke(&mut app, 0, 7);
    app.doc.layers[0].texts.push(8);
    app.doc.layers[0].set_pixel(1, 1, [1, 2, 3, 255]);
    app.clear_active_layer();
    assert!(app.doc.layers[0].strokes.is_empty());
    assert!(app.doc.layers[0].raster.is_empty());
    assert_eq!(app.doc.layers[0].texts, vec![8]);
    assert_eq!(app.history.label_at(0), "Vider le calque");
    app.undo();
    assert_eq!(app.doc.layers[0].strokes, vec![7]);
    assert_eq!(app.doc.layers[0].get_pixel(1, 1), [1, 2, 3, 255]);
}

#[test]
fn clearing_an_empty_layer_records_nothing() {
    let mut app = app_with_layers(1);
    app.clear_active_layer();
    assert_eq!(app.history.len(), 0);
}

#[test]
fn toggling_the_mask_adds_then_removes_it() {
    let mut app = app_with_layers(1);
    app.toggle_active_layer_mask();
    assert_eq!(app.doc.layers[0].mask, Some(vec![]));
    assert!(app.editing_mask);
    app.toggle_active_layer_mask();
    assert!(app.doc.layers[0].mask.is_none());
    assert!(!app.editing_mask);
    assert_eq!(app.history.len(), 0);
}

#[test]
fn a_locked_layer_refuses_editing_tools_only() {
    let mut app = app_with_layers(1);
    assert!(!app.lock_blocks_gesture());
    app.doc.layers[0].locked = true;
    app.active_tool = ActiveTool::Pan;
    assert!(!app.lock_blocks_gesture());
    app.active_tool = ActiveTool::Brush;
    assert!(app.lock_blocks_gesture());
    assert_eq!(app.status.as_deref(), Some("Calque verrouillé : déverrouille-le pour le modifier."));
}
