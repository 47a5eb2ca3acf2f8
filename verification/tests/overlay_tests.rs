use pixel_overlay::canvas::Canvas;
use pixel_overlay::overlay::{BlendType, Overlay, OPACITY_FULL, OUT_OF_BOUNDS};

#[test]
fn new_overlay_is_transparent() {
    let overlay = Overlay::new(4, 3);
    assert_eq!(overlay.width, 4);
    assert_eq!(overlay.height, 3);
    assert_eq!(overlay.pixels.len(), 12);
    assert!(overlay.pixels.iter().all(|p| p.is_none()));
    assert_eq!(overlay.opacity, OPACITY_FULL);
    assert_eq!(overlay.blend, None);
}

#[test]
fn empty_overlay_has_no_cells() {
    let mut overlay = Overlay::new(0, 7);
    assert_eq!(overlay.pixels.len(), 0);
    assert_eq!(overlay.set_pixel(0, 0, &[1, 2, 3]), Err(OUT_OF_BOUNDS));
    let mut flat = Overlay::new(7, 0);
    assert_eq!(flat.set_pixel(0, 0, &[1, 2, 3]), Err(OUT_OF_BOUNDS));
    assert_eq!(flat.pixels.len(), 0);
}

#[test]
fn write_then_read_returns_the_colour() {
    let mut overlay = Overlay::new(5, 4);
    assert_eq!(overlay.set_pixel(3, 2, &[10, 20, 30]), Ok(()));
    assert_eq!(overlay.get_pixel(3, 2), Some([10, 20, 30]));
    assert_eq!(overlay.pixels[2 * 5 + 3], Some([10, 20, 30]));
    for y in 0..4 {
        for x in 0..5 {
            if (x, y) != (3, 2) {
                assert_eq!(overlay.get_pixel(x, y), None);
            }
        }
    }
    assert_eq!(overlay.set_pixel(3, 2, &[9, 8, 7]), Ok(()));
    assert_eq!(overlay.get_pixel(3, 2), Some([9, 8, 7]));
}

#[test]
fn write_out_of_bounds_fails_and_changes_nothing() {
    let mut overlay = Overlay::new(5, 4);
    overlay.set_pixel(1, 1, &[1, 1, 1]).unwrap();
    let before = overlay.pixels.clone();
    assert_eq!(overlay.set_pixel(5, 0, &[2, 2, 2]), Err(-1));
    assert_eq!(overlay.set_pixel(0, 4, &[2, 2, 2]), Err(-1));
    assert_eq!(overlay.set_pixel(usize::MAX, usize::MAX, &[2, 2, 2]), Err(-1));
    assert_eq!(overlay.pixels, before);
    assert_eq!(overlay.width, 5);
    assert_eq!(overlay.height, 4);
}

#[test]
fn buffer_length_holds_after_every_mutation() {
    let mut overlay = Overlay::new(6, 3);
    assert_eq!(overlay.pixels.len(), overlay.width * overlay.height);
    let _ = overlay.set_pixel(5, 2, &[1, 2, 3]);
    assert_eq!(overlay.pixels.len(), overlay.width * overlay.height);
    let _ = overlay.set_pixel(6, 3, &[1, 2, 3]);
    assert_eq!(overlay.pixels.len(), overlay.width * overlay.height);
    overlay.set_opacity(17);
    overlay.set_blend(BlendType::Cubic);
    overlay.set_linear();
    overlay.set_log();
    overlay.no_blend();
    assert_eq!(overlay.pixels.len(), overlay.width * overlay.height);
    let image = Canvas::new(2, 5).unwrap();
    overlay.is_image(image);
    assert_eq!(overlay.width, 2);
    assert_eq!(overlay.height, 5);
    assert_eq!(overlay.pixels.len(), overlay.width * overlay.height);
}

#[test]
fn opacity_is_clamped() {
    let mut overlay = Overlay::new(1, 1);
    overlay.set_opacity(250_000);
    assert_eq!(overlay.opacity, 250_000);
    overlay.set_opacity(-5);
    assert_eq!(overlay.opacity, 0);
    overlay.set_opacity(2_000_000);
    assert_eq!(overlay.opacity, 1_000_000);
    overlay.set_opacity(i64::MIN);
    assert_eq!(overlay.opacity, 0);
    overlay.set_opacity(i64::MAX);
    assert_eq!(overlay.opacity, OPACITY_FULL);
    overlay.set_opacity(1_000_000);
    assert_eq!(overlay.opacity, OPACITY_FULL);
}

#[test]
fn blend_tag_leaves_pixels_alone() {
    let mut overlay = Overlay::new(2, 2);
    overlay.set_pixel(1, 0, &[4, 5, 6]).unwrap();
    let before = overlay.pixels.clone();
    overlay.set_blend(BlendType::Cubic);
    assert_eq!(overlay.blend, Some(BlendType::Cubic));
    overlay.set_linear();
    assert_eq!(overlay.blend, Some(BlendType::Linear));
    overlay.set_log();
    assert_eq!(overlay.blend, Some(BlendType::Log));
    overlay.no_blend();
    assert_eq!(overlay.blend, None);
    assert_eq!(overlay.pixels, before);
    assert_eq!(overlay.opacity, OPACITY_FULL);
}

#[test]
fn dense_raster_becomes_all_present() {
    let mut image = Canvas::new(3, 2).unwrap();
    assert!(image.put_pixel(0, 0, [1, 2, 3]));
    assert!(image.put_pixel(2, 1, [7, 8, 9]));
    let overlay = Overlay::from_rgb_image(image);
    assert_eq!(overlay.width, 3);
    assert_eq!(overlay.height, 2);
    assert_eq!(overlay.opacity, OPACITY_FULL);
    assert_eq!(overlay.blend, None);
    assert_eq!(
        overlay.pixels,
        vec![
            Some([1, 2, 3]),
            Some([0, 0, 0]),
            Some([0, 0, 0]),
            Some([0, 0, 0]),
            Some([0, 0, 0]),
            Some([7, 8, 9]),
        ]
    );
}

#[test]
fn is_image_takes_cells_and_dimensions() {
    let mut overlay = Overlay::new(4, 4);
    overlay.set_opacity(500_000);
    overlay.set_log();
    let mut image = Canvas::new(2, 1).unwrap();
    assert!(image.put_pixel(1, 0, [5, 6, 7]));
    overlay.is_image(image);
    assert_eq!(overlay.pixels, vec![Some([0, 0, 0]), Some([5, 6, 7])]);
    assert_eq!((overlay.width, overlay.height), (2, 1));
    assert_eq!(overlay.opacity, 500_000);
    assert_eq!(overlay.blend, Some(BlendType::Log));
    assert_eq!(overlay.get_pixel(1, 0), Some([5, 6, 7]));
}

#[test]
fn as_image_shows_present_cells_on_black() {
    let mut overlay = Overlay::new(3, 2);
    overlay.set_pixel(1, 1, &[200, 100, 50]).unwrap();
    overlay.set_pixel(2, 0, &[1, 1, 1]).unwrap();
    let image = overlay.as_image();
    assert_eq!(image.dimensions(), (3, 2));
    for y in 0..2u32 {
        for x in 0..3u32 {
            let expected = match (x, y) {
                (1, 1) => [200, 100, 50],
                (2, 0) => [1, 1, 1],
                _ => [0, 0, 0],
            };
            assert_eq!(image.get_pixel(x, y), Some(expected));
        }
    }
}

#[test]
fn canvas_rejects_what_lies_outside() {
    let mut canvas = Canvas::new(2, 3).unwrap();
    assert_eq!(canvas.dimensions(), (2, 3));
    assert_eq!(canvas.get_pixel(1, 2), Some([0, 0, 0]));
    assert_eq!(canvas.get_pixel(2, 0), None);
    assert_eq!(canvas.get_pixel(0, 3), None);
    assert!(!canvas.put_pixel(2, 2, [9, 9, 9]));
    assert!(canvas.put_pixel(1, 2, [9, 9, 9]));
    assert_eq!(canvas.get_pixel(1, 2), Some([9, 9, 9]));
    assert_eq!(canvas.get_pixel(0, 2), Some([0, 0, 0]));
    assert_eq!(canvas.get_pixel(1, 1), Some([0, 0, 0]));
}

#[test]
fn canvas_too_large_is_refused() {
    assert!(Canvas::new(u32::MAX, u32::MAX).is_none());
    assert!(Canvas::new(0, 0).is_some());
}
