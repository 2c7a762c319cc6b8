use breakout::fixed::Fixed;
use breakout::line::line_iter;
use breakout::line::Point;
use breakout::math::Vec2;
use breakout::software_rendering::RenderBuffer;

fn v(x: i32, y: i32) -> Vec2 {
    Vec2::new(Fixed::from_int(x), Fixed::from_int(y))
}

fn points(x0: i32, y0: i32, x1: i32, y1: i32) -> Vec<(i32, i32)> {
    let mut all = Vec::new();
    let mut walk = line_iter(x0, y0, x1, y1);
    while let Some(p) = walk.next() {
        all.push((p.x, p.y));
    }
    assert!(walk.next().is_none());
    all
}

fn rows(pixels: &[u32], width: usize) -> Vec<Vec<u32>> {
    pixels.chunks(width).map(|row| row.to_vec()).collect()
}

#[test]
fn a_line_runs_from_its_first_pixel_to_its_last() {
    assert_eq!(points(0, 0, 3, 2), vec![(0, 0), (1, 1), (2, 1), (3, 2)]);
    assert_eq!(points(3, 1, 0, 0), vec![(3, 1), (2, 1), (1, 0), (0, 0)]);
    assert_eq!(points(0, 0, 4, 1), vec![(0, 0), (1, 0), (2, 1), (3, 1), (4, 1)]);
    assert_eq!(points(0, 0, 0, 3), vec![(0, 0), (0, 1), (0, 2), (0, 3)]);
    assert_eq!(points(1, -1, -1, 1), vec![(1, -1), (0, 0), (-1, 1)]);
    assert_eq!(line_iter(5, 6, 7, 8).next(), Some(Point { x: 5, y: 6 }));
}

#[test]
fn a_line_between_a_pixel_and_itself_is_that_pixel() {
    assert_eq!(points(2, 2, 2, 2), vec![(2, 2)]);
}

#[test]
fn a_line_across_the_whole_range_does_not_overflow() {
    let mut walk = line_iter(i32::MIN, i32::MAX, i32::MAX, i32::MIN);
    assert_eq!(walk.next(), Some(Point { x: i32::MIN, y: i32::MAX }));
    assert_eq!(walk.next(), Some(Point { x: i32::MIN + 1, y: i32::MAX - 1 }));
}

#[test]
fn clearing_sets_every_pixel() {
    let mut pixels = vec![1u32; 12];
    let mut buffer = RenderBuffer { pixels: &mut pixels, width: 4, height: 3 };
    buffer.clear(7);
    assert_eq!(pixels, vec![7u32; 12]);

    let mut none: Vec<u32> = Vec::new();
    let mut buffer = RenderBuffer { pixels: &mut none, width: 0, height: 5 };
    buffer.clear(7);
    assert!(none.is_empty());
}

#[test]
fn a_box_is_filled_up_to_its_upper_corner() {
    let mut pixels = vec![0u32; 20];
    let mut buffer = RenderBuffer { pixels: &mut pixels, width: 5, height: 4 };
    buffer.draw_rect_in_pixels(1, 1, 3, 3, 9);
    assert_eq!(
        rows(&pixels, 5),
        vec![
            vec![0, 0, 0, 0, 0],
            vec![0, 9, 9, 0, 0],
            vec![0, 9, 9, 0, 0],
            vec![0, 0, 0, 0, 0],
        ]
    );
}

#[test]
fn a_box_is_cut_to_the_buffer() {
    let mut pixels = vec![0u32; 20];
    let mut buffer = RenderBuffer { pixels: &mut pixels, width: 5, height: 4 };
    buffer.draw_rect_in_pixels(-7, 2, 2, 100, 9);
    buffer.draw_rect_in_pixels(4, -3, 9, 1, 8);
    assert_eq!(
        rows(&pixels, 5),
        vec![
            vec![0, 0, 0, 0, 8],
            vec![0, 0, 0, 0, 0],
            vec![9, 9, 0, 0, 0],
            vec![9, 9, 0, 0, 0],
        ]
    );
}

#[test]
fn a_box_with_its_corners_the_wrong_way_round_is_empty() {
    let mut pixels = vec![0u32; 20];
    let mut buffer = RenderBuffer { pixels: &mut pixels, width: 5, height: 4 };
    buffer.draw_rect_in_pixels(3, 0, 1, 4, 9);
    buffer.draw_rect_in_pixels(0, 3, 5, 1, 9);
    buffer.draw_rect_in_pixels(2, 2, 2, 2, 9);
    buffer.draw_rect_in_pixels(7, 7, 9, 9, 9);
    assert_eq!(pixels, vec![0u32; 20]);
}

#[test]
fn a_line_is_drawn_pixel_by_pixel() {
    let mut pixels = vec![0u32; 12];
    let mut buffer = RenderBuffer { pixels: &mut pixels, width: 4, height: 3 };
    buffer.draw_line_in_pixels(0, 0, 3, 2, 5);
    assert_eq!(
        rows(&pixels, 4),
        vec![vec![5, 0, 0, 0], vec![0, 5, 5, 0], vec![0, 0, 0, 5]]
    );
}

#[test]
fn the_ends_of_a_line_are_moved_into_the_buffer() {
    let mut pixels = vec![0u32; 12];
    let mut buffer = RenderBuffer { pixels: &mut pixels, width: 4, height: 3 };
    buffer.draw_line_in_pixels(-5, 1, 50, 1, 5);
    buffer.draw_line_in_pixels(3, 90, 3, -90, 6);
    assert_eq!(
        rows(&pixels, 4),
        vec![vec![0, 0, 0, 6], vec![5, 5, 5, 6], vec![0, 0, 0, 6]]
    );
}

#[test]
fn the_world_is_shown_with_its_origin_in_the_middle() {
    let mut none: Vec<u32> = Vec::new();
    let wide = RenderBuffer { pixels: &mut none, width: 1280, height: 720 };
    assert_eq!(wide.pixels_to_world(v(640, 360)), v(0, 0));
    assert_eq!(
        wide.pixels_to_world(v(1280, 720)),
        Vec2::new(Fixed::from_raw(372827032), Fixed::from_raw(209715205))
    );
    assert_eq!(
        wide.pixels_to_world(v(0, 0)),
        Vec2::new(Fixed::from_raw(-372827032), Fixed::from_raw(-209715205))
    );
    // A narrow buffer shows the world by its width.
    let mut none: Vec<u32> = Vec::new();
    let narrow = RenderBuffer { pixels: &mut none, width: 800, height: 600 };
    assert_eq!(
        narrow.pixels_to_world(v(800, 600)),
        Vec2::new(Fixed::from_raw(371195908), Fixed::from_raw(278396931))
    );
}

#[test]
fn a_box_of_the_world_is_drawn_in_pixels() {
    let mut pixels = vec![0u32; 40 * 30];
    let mut buffer = RenderBuffer { pixels: &mut pixels, width: 40, height: 30 };
    buffer.draw_rect(v(10, -20), v(30, 10), 3);
    for y in 0..30 {
        for x in 0..40 {
            let inside = (15..29).contains(&x) && (8..12).contains(&y);
            assert_eq!(pixels[y * 40 + x], if inside { 3 } else { 0 });
        }
    }
}

#[test]
fn a_line_of_the_world_is_drawn_in_pixels() {
    let mut pixels = vec![0u32; 40 * 30];
    let mut buffer = RenderBuffer { pixels: &mut pixels, width: 40, height: 30 };
    buffer.draw_line(v(-50, -25), v(50, 25), 4);
    let line = points(8, 9, 31, 20);
    assert_eq!(line.len(), 24);
    for y in 0..30 {
        for x in 0..40 {
            let on = line.contains(&(x as i32, y as i32));
            assert_eq!(pixels[y * 40 + x], if on { 4 } else { 0 });
        }
    }
    assert_eq!(pixels[9 * 40 + 8], 4);
    assert_eq!(pixels[20 * 40 + 31], 4);
}

#[test]
fn the_field_is_drawn_and_all_around_it_cleared() {
    let mut pixels = vec![1u32; 40 * 30];
    let mut buffer = RenderBuffer { pixels: &mut pixels, width: 40, height: 30 };
    buffer.clear_and_draw_rect(v(0, 0), v(50, 25), 3, 2);
    for y in 0..30 {
        for x in 0..40 {
            let inside = (8..31).contains(&x) && (9..20).contains(&y);
            assert_eq!(pixels[y * 40 + x], if inside { 3 } else { 2 });
        }
    }
}
