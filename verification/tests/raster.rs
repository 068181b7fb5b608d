use quickpaint::editor::PaintApp;
use quickpaint::i18n::Lang;
use quickpaint::raster::{
    crop_rgba_rect, cutout_coverage, ellipse_pixel_mask, histogram_rgb, trim_bounds, upscale_rgba, UpscaleError,
};

#[test]
fn crop_rgba_to_bounds_extracts_the_selection_rectangle() {
    let w = 4u32;
    let h = 4u32;
    let mut rgba = vec![0u8; (w * h * 4) as usize];
    for i in 0..(w * h) {
        let v = i as u8;
        rgba[(i * 4) as usize..(i * 4 + 4) as usize].copy_from_slice(&[v, v, v, 255]);
    }
    let (rw, rh, out) = crop_rgba_rect(w, h, &rgba, 1, 1, 3, 3);
    assert_eq!((rw, rh), (2, 2));
    assert_eq!(out[0], 5);
    assert_eq!(out[4], 6);
    assert_eq!(out[8], 9);
    assert_eq!(out[12], 10);
}

#[test]
fn crop_rgba_to_bounds_falls_back_to_full_buffer_for_a_degenerate_rect() {
    let rgba = vec![7u8; 4 * 4 * 4];
    let (rw, rh, out) = crop_rgba_rect(4, 4, &rgba, 2, 2, 2, 2);
    assert_eq!((rw, rh), (4, 4));
    assert_eq!(out, rgba);
}

#[test]
fn crop_keeps_whole_rows_of_a_wide_rectangle() {
    let rgba: Vec<u8> = (0..(3 * 2 * 4)).map(|i| i as u8).collect();
    let (rw, rh, out) = crop_rgba_rect(3, 2, &rgba, 0, 1, 3, 2);
    assert_eq!((rw, rh), (3, 1));
    assert_eq!(out, rgba[12..24].to_vec());
}

#[test]
fn ellipse_mask_selects_the_centre_and_not_the_corners() {
    let mask = ellipse_pixel_mask(5, 5, 0, 0, 5, 5);
    assert_eq!(mask.len(), 25);
    assert!(mask[2 * 5 + 2]);
    assert!(!mask[0]);
    assert!(!mask[4]);
    assert!(!mask[20]);
    assert!(!mask[24]);
    assert!(mask[2 * 5]);
    assert!(mask[2]);
    let count = mask.iter().filter(|&&b| b).count();
    assert_eq!(count, 21);
}

#[test]
fn ellipse_mask_is_clipped_to_the_mask_size() {
    let mask = ellipse_pixel_mask(3, 3, 1, 1, 7, 7);
    assert_eq!(mask.len(), 9);
    assert!(!mask[0]);
    assert!(!mask[4]);
    assert!(mask[8]);
}

#[test]
fn ellipse_mask_of_a_rectangle_far_larger_than_the_image() {
    // A thin band one row high: every pixel of the row lies on its axis.
    let row = ellipse_pixel_mask(4, 1, 0, 0, 1 << 40, 1);
    assert_eq!(row, vec![true; 4]);
    // The top-left corner of a huge square lies outside its ellipse.
    let corner = ellipse_pixel_mask(3, 3, 0, 0, 1 << 40, 1 << 40);
    assert_eq!(corner, vec![false; 9]);
}

fn image_with_opaque(w: usize, h: usize, pixels: &[(usize, usize)]) -> Vec<u8> {
    let mut rgba = vec![0u8; w * h * 4];
    for &(x, y) in pixels {
        rgba[(y * w + x) * 4 + 3] = 255;
    }
    rgba
}

#[test]
fn trim_bounds_is_the_smallest_box_around_opaque_pixels() {
    let rgba = image_with_opaque(6, 5, &[(1, 2), (4, 3)]);
    assert_eq!(trim_bounds(&rgba, 6, 5), Some((1, 2, 4, 2)));
    let empty = vec![0u8; 6 * 5 * 4];
    assert_eq!(trim_bounds(&empty, 6, 5), None);
    let single = image_with_opaque(6, 5, &[(5, 4)]);
    assert_eq!(trim_bounds(&single, 6, 5), Some((5, 4, 1, 1)));
}

#[test]
fn histogram_counts_each_channel_value() {
    let rgba = vec![10, 20, 30, 255, 10, 0, 30, 0, 255, 20, 30, 7];
    let h = histogram_rgb(&rgba);
    assert_eq!(h.r.len(), 256);
    assert_eq!(h.r[10], 2);
    assert_eq!(h.r[255], 1);
    assert_eq!(h.g[20], 2);
    assert_eq!(h.g[0], 1);
    assert_eq!(h.b[30], 3);
    assert_eq!(h.b[7], 0);
}

#[test]
fn cutout_removal_only_lowers_and_restore_only_raises() {
    assert_eq!(cutout_coverage(255, 255, false), Some(0));
    assert_eq!(cutout_coverage(200, 255, false), Some(55));
    assert_eq!(cutout_coverage(200, 30, false), None);
    assert_eq!(cutout_coverage(200, 30, true), Some(200));
    assert_eq!(cutout_coverage(10, 30, true), None);
    let first = cutout_coverage(100, 255, false).unwrap();
    assert_eq!(cutout_coverage(100, first, false), None);
}

#[test]
fn trim_transparent_borders_crops_the_canvas_and_is_undoable() {
    let mut app = PaintApp::new(Lang::En);
    app.new_document_sized(6, 5);
    let rgba = image_with_opaque(6, 5, &[(1, 2), (4, 3)]);
    app.trim_transparent_borders(Some(rgba));
    assert_eq!(app.doc.size, (4, 2));
    assert_eq!(app.status.as_deref(), Some("Canvas trimmed : 4×2"));
    app.undo();
    app.doc.layers[0].set_pixel(4, 3, [1, 2, 3, 255]);
    app.doc.layers[0].set_pixel(0, 0, [7, 7, 7, 255]);
    let rgba = image_with_opaque(6, 5, &[(1, 2), (4, 3)]);
    app.trim_transparent_borders(Some(rgba));
    // Shifted by minus the corner (1, 2); the pixel left of it leaves.
    assert_eq!(app.doc.layers[0].raster, vec![(3, 1, [1, 2, 3, 255])]);
    app.undo();
    assert_eq!(app.doc.size, (6, 5));
}

#[test]
fn trim_transparent_borders_leaves_full_or_empty_renders_alone() {
    let mut app = PaintApp::new(Lang::En);
    app.new_document_sized(2, 2);
    app.trim_transparent_borders(Some(vec![0u8; 16]));
    assert_eq!(app.doc.size, (2, 2));
    assert!(!app.status_error);
    assert_eq!(app.status.as_deref(), Some("Document is fully transparent: nothing to trim."));
    app.trim_transparent_borders(Some(vec![255u8; 16]));
    assert_eq!(app.doc.size, (2, 2));
    assert_eq!(app.history.len(), 0);
    assert_eq!(app.status.as_deref(), Some("No empty border to trim."));
    app.trim_transparent_borders(None);
    assert!(app.status_error);
    assert_eq!(app.status.as_deref(), Some("Canvas render failed."));
}

#[test]
fn upscale_rgba_multiplies_the_native_resolution() {
    let rgba = vec![200u8; 4 * 3 * 4];
    let (w, h, px) = upscale_rgba(4, 3, rgba, 2).unwrap();
    assert_eq!((w, h), (8, 6));
    assert_eq!(px.len(), 8 * 6 * 4);
    assert!(px.iter().all(|&v| v == 200));
}

#[test]
fn upscale_rgba_by_one_keeps_the_pixels() {
    let rgba: Vec<u8> = (0..(3 * 2 * 4)).map(|i| (i * 7) as u8).collect();
    let (w, h, px) = upscale_rgba(3, 2, rgba.clone(), 1).unwrap();
    assert_eq!((w, h), (3, 2));
    assert_eq!(px, rgba);
}

#[test]
fn upscale_rgba_refuses_results_over_the_size_limit() {
    let rgba = vec![0u8; 10 * 1 * 4];
    assert_eq!(upscale_rgba(10, 1, rgba.clone(), 2000).err(), Some(UpscaleError::TooLarge));
    assert_eq!(upscale_rgba(10, 1, rgba.clone(), u32::MAX).err(), Some(UpscaleError::TooLarge));
    let (w, h, px) = upscale_rgba(10, 1, rgba, 0).unwrap();
    assert_eq!((w, h), (1, 1));
    assert_eq!(px.len(), 4);
}
