use oxipaint::canvas::Canvas;
use oxipaint::color::Color;
use oxipaint::surface::{PresentationSurface, Rect, RegionUpdate};

/// A canvas on which no two pixels have the same color.
fn patterned(width: u32, height: u32) -> Canvas {
    let mut canvas = Canvas::new(width, height);
    for y in 0..height {
        for x in 0..width {
            let n = (y * width + x) as u8;
            assert_eq!(canvas.set(x, y, Color::new(n, 100 + n, 200 - n, 50 + n)), Some(()));
        }
    }
    canvas
}

fn expected_texture(canvas: &Canvas, before: &[u8], region: Rect) -> Vec<u8> {
    let mut texture = before.to_vec();
    let width = canvas.width() as usize;
    for y in region.y as usize..(region.y as usize + region.height as usize) {
        for x in region.x as usize..(region.x as usize + region.width as usize) {
            let at = (y * width + x) * 4;
            texture[at..at + 4].copy_from_slice(&canvas.as_bytes()[at..at + 4]);
        }
    }
    texture
}

#[test]
fn clip_keeps_a_rectangle_on_the_canvas() {
    let rect = Rect::new(2, 3, 4, 5);
    assert_eq!(rect.clip(10, 10), Some(rect));
    assert_eq!(rect.clip(6, 8), Some(rect));
}

#[test]
fn clip_cuts_what_hangs_over() {
    assert_eq!(Rect::new(-2, -3, 6, 7).clip(10, 10), Some(Rect::new(0, 0, 4, 4)));
    assert_eq!(Rect::new(7, 8, 6, 7).clip(10, 10), Some(Rect::new(7, 8, 3, 2)));
    assert_eq!(Rect::new(-5, 2, 100, 3).clip(10, 10), Some(Rect::new(0, 2, 10, 3)));
    assert_eq!(
        Rect::new(i32::MIN, i32::MIN, u32::MAX, u32::MAX).clip(10, 10),
        Some(Rect::new(0, 0, 10, 10))
    );
    assert_eq!(
        Rect::new(i32::MAX, 0, u32::MAX, 1).clip(u32::MAX, 1),
        Some(Rect::new(i32::MAX, 0, u32::MAX - i32::MAX as u32, 1))
    );
}

#[test]
fn clip_of_a_rectangle_off_the_canvas_is_none() {
    assert_eq!(Rect::new(10, 0, 5, 5).clip(10, 10), None);
    assert_eq!(Rect::new(0, 10, 5, 5).clip(10, 10), None);
    assert_eq!(Rect::new(-5, 0, 5, 5).clip(10, 10), None);
    assert_eq!(Rect::new(0, -5, 5, 5).clip(10, 10), None);
    assert_eq!(Rect::new(0, 0, 5, 5).clip(0, 10), None);
    assert_eq!(Rect::new(0, 0, 5, 5).clip(10, 0), None);
}

#[test]
fn clip_of_an_empty_rectangle_is_none() {
    assert_eq!(Rect::new(2, 2, 0, 5).clip(10, 10), None);
    assert_eq!(Rect::new(2, 2, 5, 0).clip(10, 10), None);
}

#[test]
fn new_surface_has_a_zeroed_texture_of_the_canvas_size() {
    let canvas = Canvas::new(4, 3);
    let surface = PresentationSurface::new(&canvas);
    assert_eq!(surface.width(), 4);
    assert_eq!(surface.height(), 3);
    assert_eq!(surface.texture(), vec![0u8; 48].as_slice());
}

#[test]
fn region_update_spans_top_left_to_bottom_right() {
    let canvas = Canvas::new(4, 3);
    let surface = PresentationSurface::new(&canvas);
    assert_eq!(
        surface.region_update(Rect::new(1, 1, 2, 2)),
        Some(RegionUpdate { region: Rect::new(1, 1, 2, 2), start: 20, end: 44, stride: 16 })
    );
    assert_eq!(
        surface.region_update(Rect::new(3, 0, 1, 1)),
        Some(RegionUpdate { region: Rect::new(3, 0, 1, 1), start: 12, end: 16, stride: 16 })
    );
}

#[test]
fn region_update_of_the_whole_canvas_spans_all_bytes() {
    let canvas = Canvas::new(5, 4);
    let surface = PresentationSurface::new(&canvas);
    assert_eq!(
        surface.region_update(Rect::new(-10, -10, 100, 100)),
        Some(RegionUpdate { region: Rect::new(0, 0, 5, 4), start: 0, end: 80, stride: 20 })
    );
}

#[test]
fn region_update_clips_before_it_measures() {
    let canvas = Canvas::new(4, 3);
    let surface = PresentationSurface::new(&canvas);
    assert_eq!(
        surface.region_update(Rect::new(2, 1, 9, 9)),
        Some(RegionUpdate { region: Rect::new(2, 1, 2, 2), start: 24, end: 48, stride: 16 })
    );
    assert_eq!(surface.region_update(Rect::new(4, 0, 2, 2)), None);
}

#[test]
fn sync_brings_the_region_and_nothing_else() {
    let canvas = patterned(4, 3);
    let mut surface = PresentationSurface::new(&canvas);
    let region = Rect::new(1, 1, 2, 2);
    let update = surface.sync_region(&canvas, region);
    assert_eq!(update, Some(RegionUpdate { region, start: 20, end: 44, stride: 16 }));

    let texture = surface.texture();
    let source = canvas.as_bytes();
    for pixel in 0..12usize {
        let (x, y) = (pixel % 4, pixel / 4);
        let inside = (1..3).contains(&x) && (1..3).contains(&y);
        let at = pixel * 4;
        if inside {
            assert_eq!(&texture[at..at + 4], &source[at..at + 4]);
        } else {
            assert_eq!(&texture[at..at + 4], &[0u8; 4]);
        }
    }
}

#[test]
fn sync_reads_rows_a_full_canvas_row_apart() {
    let canvas = patterned(5, 4);
    let mut surface = PresentationSurface::new(&canvas);
    let region = Rect::new(3, 0, 2, 4);
    assert_eq!(
        surface.sync_region(&canvas, region),
        Some(RegionUpdate { region, start: 12, end: 80, stride: 20 })
    );
    assert_eq!(surface.texture(), expected_texture(&canvas, &[0u8; 80], region).as_slice());
    // Second row of the region: pixels 8 and 9.
    assert_eq!(&surface.texture()[32..40], &canvas.as_bytes()[32..40]);
    assert_eq!(&surface.texture()[20..32], &[0u8; 12]);
}

#[test]
fn sync_of_the_same_region_twice_gives_the_same_texture() {
    let canvas = patterned(6, 5);
    let mut surface = PresentationSurface::new(&canvas);
    let visible = Rect::new(2, 1, 3, 3);
    let first_update = surface.sync_region(&canvas, visible);
    let first = surface.texture().to_vec();
    let second_update = surface.sync_region(&canvas, visible);
    assert_eq!(first_update, second_update);
    assert_eq!(surface.texture(), first.as_slice());
    let third_update = surface.sync_region(&canvas, visible);
    assert_eq!(first_update, third_update);
    assert_eq!(surface.texture(), first.as_slice());
}

#[test]
fn sync_keeps_what_earlier_syncs_brought() {
    let mut canvas = patterned(4, 4);
    let mut surface = PresentationSurface::new(&canvas);
    let left = Rect::new(0, 0, 2, 4);
    let right = Rect::new(2, 0, 2, 4);
    assert!(surface.sync_region(&canvas, left).is_some());
    let after_left = surface.texture().to_vec();
    assert_eq!(canvas.set(0, 0, Color::new(1, 1, 1, 1)), Some(()));
    assert_eq!(canvas.set(3, 3, Color::new(2, 2, 2, 2)), Some(()));
    assert!(surface.sync_region(&canvas, right).is_some());
    assert_eq!(surface.texture(), expected_texture(&canvas, &after_left, right).as_slice());
    // The change on the left was not visible and has not arrived.
    assert_eq!(&surface.texture()[0..4], &after_left[0..4]);
    assert_ne!(&surface.texture()[0..4], &canvas.as_bytes()[0..4]);
}

#[test]
fn sync_of_the_whole_canvas_mirrors_it() {
    let canvas = patterned(3, 3);
    let mut surface = PresentationSurface::new(&canvas);
    assert!(surface.sync_region(&canvas, Rect::new(-1, -1, 10, 10)).is_some());
    assert_eq!(surface.texture(), canvas.as_bytes());
}

#[test]
fn sync_of_nothing_visible_changes_nothing() {
    let canvas = patterned(3, 3);
    let mut surface = PresentationSurface::new(&canvas);
    assert_eq!(surface.sync_region(&canvas, Rect::new(3, 0, 4, 4)), None);
    assert_eq!(surface.sync_region(&canvas, Rect::new(1, 1, 0, 2)), None);
    assert_eq!(surface.texture(), vec![0u8; 36].as_slice());
}

#[test]
fn sync_on_a_canvas_without_pixels_does_nothing() {
    let canvas = Canvas::new(0, 4);
    let mut surface = PresentationSurface::new(&canvas);
    assert_eq!(surface.sync_region(&canvas, Rect::new(0, 0, 4, 4)), None);
    assert!(surface.texture().is_empty());
}
