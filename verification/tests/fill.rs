use quickpaint::editor::PaintApp;
use quickpaint::fill::{flood, mask_coverage_of};
use quickpaint::i18n::Lang;
use quickpaint::raster::box_pixel_mask;

fn image(w: usize, h: usize, dark: &[(usize, usize)]) -> Vec<u8> {
    let mut rgba = vec![255u8; w * h * 4];
    for &(x, y) in dark {
        let i = (y * w + x) * 4;
        rgba[i] = 0;
        rgba[i + 1] = 0;
        rgba[i + 2] = 0;
    }
    rgba
}

#[test]
fn flood_stops_at_a_wall_of_other_colour() {
    // 4 × 3, a dark vertical wall at x = 2.
    let region = image(4, 3, &[(2, 0), (2, 1), (2, 2)]);
    let mask = flood(&region, 4, 3, 0, 0, 36);
    for y in 0..3 {
        for x in 0..4 {
            assert_eq!(mask[y * 4 + x], x < 2, "pixel ({x}, {y})");
        }
    }
}

#[test]
fn flood_goes_around_corners_but_not_across_diagonals() {
    // Dark pixels at (1, 0) and (0, 1) cut (0, 0) off from the rest.
    let region = image(3, 3, &[(1, 0), (0, 1)]);
    let mask = flood(&region, 3, 3, 0, 0, 36);
    assert_eq!(mask.iter().filter(|&&b| b).count(), 1);
    let mask = flood(&region, 3, 3, 2, 2, 36);
    assert_eq!(mask.iter().filter(|&&b| b).count(), 6);
    assert!(!mask[0] && !mask[1] && !mask[3]);
}

#[test]
fn flood_tolerance_accepts_close_colours() {
    let mut region = image(3, 1, &[]);
    region[4] = 220; // 35 away on red
    region[8] = 200; // 55 away on red
    let mask = flood(&region, 3, 1, 0, 0, 36);
    assert_eq!(mask, vec![true, true, false]);
}

#[test]
fn bucket_fill_paints_the_sampled_pixels_in_one_step() {
    let mut app = PaintApp::new(Lang::En);
    app.new_document_sized(10, 10);
    let region = image(4, 3, &[(2, 0), (2, 1), (2, 2)]);
    // Document pixel (x, y) samples the captured pixel y * 4 + x.
    let samples: Vec<(u32, u32, usize)> =
        vec![(0, 0, 0), (1, 0, 1), (2, 0, 2), (3, 0, 3), (1, 2, 9), (3, 2, 11)];
    let n = app.bucket_fill(&region, 4, 3, 0, 0, &samples, [10, 20, 30]);
    assert_eq!(n, 3);
    let l = &app.doc.layers[0];
    assert_eq!(l.get_pixel(0, 0), [10, 20, 30, 255]);
    assert_eq!(l.get_pixel(1, 2), [10, 20, 30, 255]);
    assert_eq!(l.get_pixel(3, 0), [0, 0, 0, 0]);
    assert_eq!(app.status.as_deref(), Some("Area filled (3 px)."));
    assert_eq!(app.history.label_at(0), "Paint bucket");
    app.undo();
    assert_eq!(app.doc.layers[0].get_pixel(0, 0), [0, 0, 0, 0]);
}

#[test]
fn bucket_fill_without_hit_changes_nothing() {
    let mut app = PaintApp::new(Lang::En);
    app.new_document_sized(10, 10);
    let region = image(4, 3, &[(2, 0), (2, 1), (2, 2)]);
    let samples: Vec<(u32, u32, usize)> = vec![(3, 0, 3)];
    assert_eq!(app.bucket_fill(&region, 4, 3, 0, 0, &samples, [1, 2, 3]), 0);
    assert_eq!(app.history.len(), 0);
}

#[test]
fn box_mask_marks_the_rectangle() {
    let m = box_pixel_mask(4, 3, 1, 1, 3, 3);
    let expected: Vec<bool> = (0..12).map(|k| (1..3).contains(&(k % 4)) && (1..3).contains(&(k / 4))).collect();
    assert_eq!(m, expected);
    assert_eq!(m.iter().filter(|&&b| b).count(), 4);
}

fn cutout_app() -> PaintApp {
    let mut app = PaintApp::new(Lang::En);
    app.new_document_sized(10, 10);
    app
}

#[test]
fn cutout_hides_the_background_and_creates_the_mask() {
    let mut app = cutout_app();
    // 3 × 1 capture: two background pixels (membership 255 and 200), one subject pixel.
    let flooded = vec![true, true, false];
    let membership = vec![255u8, 200, 0];
    let samples: Vec<(u32, u32, usize)> = vec![(0, 0, 0), (1, 0, 1), (2, 0, 2)];
    let n = app.cutout(&flooded, &membership, 3, 1, &samples, false);
    assert_eq!(n, 2);
    let mask = &app.doc.layers[0].mask;
    assert_eq!(mask_coverage_of(mask, 0, 0), 0);
    assert_eq!(mask_coverage_of(mask, 1, 0), 55);
    assert_eq!(mask_coverage_of(mask, 2, 0), 255);
    assert_eq!(app.status.as_deref(), Some("Cutout applied (2 px)."));
    assert_eq!(app.history.label_at(0), "Cutout");
    app.undo();
    assert!(app.doc.layers[0].mask.is_none());
}

#[test]
fn cutout_clicks_are_cumulative_in_both_directions() {
    let mut app = cutout_app();
    let flooded = vec![true];
    let samples: Vec<(u32, u32, usize)> = vec![(4, 4, 0)];
    assert_eq!(app.cutout(&flooded, &[100], 1, 1, &samples, false), 1);
    assert_eq!(mask_coverage_of(&app.doc.layers[0].mask, 4, 4), 155);
    // A softer removal never gives visibility back.
    assert_eq!(app.cutout(&flooded, &[50], 1, 1, &samples, false), 0);
    assert_eq!(mask_coverage_of(&app.doc.layers[0].mask, 4, 4), 155);
    // Restoring raises it, and never lowers it.
    assert_eq!(app.cutout(&flooded, &[200], 1, 1, &samples, true), 1);
    assert_eq!(mask_coverage_of(&app.doc.layers[0].mask, 4, 4), 200);
    assert_eq!(app.cutout(&flooded, &[120], 1, 1, &samples, true), 0);
    assert_eq!(app.history.len(), 2);
}

#[test]
fn cutout_restore_without_a_mask_is_refused() {
    let mut app = cutout_app();
    let n = app.cutout(&[true], &[255], 1, 1, &[(0, 0, 0)], true);
    assert_eq!(n, 0);
    assert_eq!(app.status.as_deref(), Some("Cutout: nothing to restore (no mask yet)."));
    assert!(app.doc.layers[0].mask.is_none());
    assert_eq!(app.history.len(), 0);
}

#[test]
fn cutout_with_an_empty_flood_removes_nothing() {
    let mut app = cutout_app();
    let n = app.cutout(&[false, false], &[255, 255], 2, 1, &[(0, 0, 0)], false);
    assert_eq!(n, 0);
    assert_eq!(app.status.as_deref(), Some("Cutout: nothing to remove here."));
    assert!(app.doc.layers[0].mask.is_none());
    assert_eq!(app.history.len(), 0);
}
