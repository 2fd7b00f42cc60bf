use ferrux_canvas::canvas::canvas_error::CanvasError;
use ferrux_canvas::canvas::helpers::{as_signed, as_u32, calculate_intersection, sort_vectors};
use ferrux_canvas::canvas::math;
use ferrux_canvas::canvas::pixel::Pixel;
use ferrux_canvas::canvas::point::{Point, Point2, Point3};
use ferrux_canvas::canvas::Canvas;
use ferrux_canvas::color::palette;
use ferrux_canvas::color::Color;

fn assert_send<T: Send>() {}

fn assert_sync<T: Sync>() {}

const BACKGROUND: [u8; 4] = [0, 0, 0, 255];

/// The color bytes of cell `(x, y)` in a rendered frame.
fn cell(frame: &[u8], width: u32, x: u32, y: u32) -> [u8; 4] {
    let i = ((y * width + x) * 4) as usize;
    [frame[i], frame[i + 1], frame[i + 2], frame[i + 3]]
}

/// The cells of a frame that are not background.
fn drawn(canvas: &Canvas) -> Vec<(u32, u32)> {
    let frame = canvas.render();
    let mut cells = Vec::new();
    for y in 0..canvas.height() {
        for x in 0..canvas.width() {
            if cell(&frame, canvas.width(), x, y) != BACKGROUND {
                cells.push((x, y));
            }
        }
    }
    cells
}

/// The drawn columns of row `y`.
fn row(canvas: &Canvas, y: u32) -> Vec<u32> {
    drawn(canvas).into_iter().filter(|c| c.1 == y).map(|c| c.0).collect()
}

fn is_background(frame: &[u8]) -> bool {
    frame.chunks(4).all(|c| c == BACKGROUND)
}

#[test]
fn canvas_error_test_send() {
    assert_send::<CanvasError>();
}

#[test]
fn canvas_error_test_sync() {
    assert_sync::<CanvasError>();
}

#[test]
fn helpers_sort_vectors_test() {
    assert_eq!(((10, 10), (5, 5), (0, 0)), sort_vectors((10, 10), (5, 5), (0, 0)));
    assert_eq!(((5, 10), (10, 5), (0, 0)), sort_vectors((10, 5), (5, 10), (0, 0)));
    assert_eq!(((0, 10), (10, 5), (5, 0)), sort_vectors((5, 0), (10, 5), (0, 10)));
}

#[test]
fn calculate_intersection_test() {
    assert_eq!(calculate_intersection((4, 0), (0, 2), (8, 4)), (6, 2));
}

#[test]
fn math_sort_vectors_test() {
    assert_eq!(((10, 10), (5, 5), (0, 0)), math::sort_vectors((10, 10), (5, 5), (0, 0)));
    assert_eq!(((5, 10), (10, 5), (0, 0)), math::sort_vectors((10, 5), (5, 10), (0, 0)));
    assert_eq!(((0, 10), (10, 5), (5, 0)), math::sort_vectors((5, 0), (10, 5), (0, 10)));
}

#[test]
fn sort_vectors_breaks_ties_by_x() {
    assert_eq!(((1, 3), (7, 3), (2, 0)), sort_vectors((7, 3), (2, 0), (1, 3)));
    assert_eq!(((4, 4), (4, 4), (0, 1)), sort_vectors((4, 4), (0, 1), (4, 4)));
}

#[test]
fn intersection_rounds_down() {
    // 0 + 1 * 7 / 3 = 2.33
    assert_eq!(calculate_intersection((0, 0), (9, 1), (7, 3)), (2, 1));
    // 7 - 1 * 7 / 3 = 4.67, and the split point runs the other way too
    assert_eq!(calculate_intersection((7, 0), (0, 1), (0, 3)), (4, 1));
    assert_eq!(calculate_intersection((0, 3), (0, 2), (7, 0)), (2, 2));
    // at the ends of the edge
    assert_eq!(calculate_intersection((3, 5), (0, 5), (9, 10)), (3, 5));
    assert_eq!(calculate_intersection((3, 5), (0, 10), (9, 10)), (9, 10));
}

#[test]
fn signed_conversions() {
    assert_eq!(as_signed((7, 4_000_000_000)), (7, 4_000_000_000));
    assert_eq!(as_u32((7, 12)), (7, 12));
    assert_eq!(as_u32((-1, 1 << 32)), (u32::MAX, 0));
}

#[test]
fn error_messages() {
    assert_eq!(CanvasError::AdapterNotFound.message(), "GPU adapter not found");
    assert_eq!(CanvasError::Rendering.message(), "Rendering has failed");
}

#[test]
fn pixel_colors() {
    assert_eq!(Pixel::Background.color(), &[0, 0, 0, 0]);
    assert_eq!(Pixel::Foreground.color(), &[255, 255, 255, 255]);
}

#[test]
fn points_give_their_coordinates() {
    let p = Point2(3, 4);
    assert_eq!((p.x(), p.y(), p.z()), (3, 4, 0));
    let q = Point3(5, 6, 7);
    assert_eq!((q.x(), q.y(), q.z()), (5, 6, 7));
}

#[test]
fn new_canvas_is_background() {
    let canvas = Canvas::new(3, 2);
    assert_eq!((canvas.width(), canvas.height()), (3, 2));
    let frame = canvas.render();
    assert_eq!(frame.len(), 24);
    assert!(is_background(&frame));
}

#[test]
fn pixel_is_written_row_major() {
    let mut canvas = Canvas::new(3, 2);
    let color = Color { r: 1, g: 2, b: 3, a: 4 };
    canvas.draw_pixel(2, 1, color);
    let frame = canvas.render();
    assert_eq!(&frame[20..24], &[1, 2, 3, 4]);
    assert!(is_background(&frame[..20]));
}

#[test]
fn pixel_outside_is_ignored() {
    let mut canvas = Canvas::new(4, 3);
    canvas.draw_pixel(1, 1, palette::red());
    let before = canvas.render();
    canvas.draw_pixel(4, 0, palette::white());
    canvas.draw_pixel(0, 3, palette::white());
    canvas.draw_pixel(u32::MAX, u32::MAX, palette::white());
    assert_eq!(canvas.render(), before);
}

#[test]
fn vertical_line_covers_its_column() {
    let mut canvas = Canvas::new(5, 6);
    canvas.draw_line((2, 4), (2, 1), palette::white());
    assert_eq!(drawn(&canvas), vec![(2, 1), (2, 2), (2, 3), (2, 4)]);
}

#[test]
fn horizontal_line_covers_its_row() {
    let mut canvas = Canvas::new(6, 3);
    canvas.draw_line((1, 2), (4, 2), palette::white());
    assert_eq!(drawn(&canvas), vec![(1, 2), (2, 2), (3, 2), (4, 2)]);
}

#[test]
fn line_is_clipped_at_the_edge() {
    let mut canvas = Canvas::new(3, 3);
    canvas.draw_line((1, 1), (9, 1), palette::white());
    assert_eq!(drawn(&canvas), vec![(1, 1), (2, 1)]);
}

#[test]
fn single_point_line() {
    let mut canvas = Canvas::new(3, 3);
    canvas.draw_line((1, 2), (1, 2), palette::white());
    assert_eq!(drawn(&canvas), vec![(1, 2)]);
}

#[test]
fn diagonal_line_follows_bresenham() {
    let mut canvas = Canvas::new(6, 6);
    canvas.draw_line((0, 0), (3, 3), palette::white());
    assert_eq!(drawn(&canvas), vec![(0, 0), (1, 1), (2, 2), (3, 3)]);

    let mut shallow = Canvas::new(9, 5);
    shallow.draw_line((0, 0), (8, 4), palette::white());
    assert_eq!(
        drawn(&shallow),
        vec![(0, 0), (1, 0), (2, 1), (3, 1), (4, 2), (5, 2), (6, 3), (7, 3), (8, 4)]
    );
}

#[test]
fn triangle_outline_draws_three_edges() {
    let mut canvas = Canvas::new(5, 5);
    canvas.draw_triangle((0, 0), (4, 0), (0, 4), palette::white());
    let cells = drawn(&canvas);
    for x in 0..5 {
        assert!(cells.contains(&(x, 0)));
        assert!(cells.contains(&(0, x)));
    }
    assert!(cells.contains(&(2, 2)));
    assert!(!cells.contains(&(1, 1)));
}

#[test]
fn flat_triangle_fill_widens_row_by_row() {
    let mut canvas = Canvas::new(10, 6);
    canvas.fill_triangle((0, 0), (4, 4), (8, 4), palette::white());
    let spans = [(0, 1), (1, 3), (2, 5), (3, 7), (4, 8)];
    let mut width = 0;
    for (y, (low, high)) in spans.iter().enumerate() {
        let cells = row(&canvas, y as u32);
        assert_eq!(cells, (*low..=*high).collect::<Vec<u32>>());
        assert!(cells.len() >= width);
        width = cells.len();
    }
    assert!(row(&canvas, 5).is_empty());
}

#[test]
fn general_triangle_fill_is_split_at_the_middle_vertex() {
    let mut canvas = Canvas::new(10, 6);
    canvas.fill_triangle((4, 0), (0, 2), (8, 4), palette::white());
    assert_eq!(row(&canvas, 2), (0..=6).collect::<Vec<u32>>());
    for y in 0..=4 {
        let cells = row(&canvas, y);
        assert!(!cells.is_empty());
        let (low, high) = (cells[0], cells[cells.len() - 1]);
        assert_eq!(cells, (low..=high).collect::<Vec<u32>>());
    }
    assert!(row(&canvas, 0).contains(&4));
    assert!(row(&canvas, 4).contains(&8));
    assert!(row(&canvas, 5).is_empty());
}

#[test]
fn degenerate_triangle_fill_is_one_row() {
    let mut canvas = Canvas::new(8, 4);
    canvas.fill_triangle((1, 2), (6, 2), (3, 2), palette::white());
    assert_eq!(drawn(&canvas), (1..=6).map(|x| (x, 2)).collect::<Vec<(u32, u32)>>());
}

#[test]
fn single_point_triangle_fill() {
    let mut canvas = Canvas::new(4, 4);
    canvas.fill_triangle((2, 1), (2, 1), (2, 1), palette::white());
    assert_eq!(drawn(&canvas), vec![(2, 1)]);
}

#[test]
fn triangle_fill_covers_its_outline() {
    let (a, b, c) = ((0, 0), (8, 2), (16, 2));
    let mut filled = Canvas::new(18, 4);
    filled.fill_triangle(a, b, c, palette::white());
    let mut outline = Canvas::new(18, 4);
    outline.draw_triangle(a, b, c, palette::white());
    let cells = drawn(&filled);
    assert!(cells.contains(&(0, 0)));
    for edge_cell in drawn(&outline) {
        assert!(cells.contains(&edge_cell));
    }
    for y in 0..=2 {
        assert!(!row(&filled, y).is_empty());
    }
    assert_eq!(row(&filled, 2), (8..=16).collect::<Vec<u32>>());
}

#[test]
fn reset_then_render_is_background() {
    let mut canvas = Canvas::new(6, 6);
    canvas.fill_triangle((0, 0), (5, 1), (2, 5), palette::red());
    canvas.reset_frame();
    let frame = canvas.render();
    assert_eq!(frame.len(), 6 * 6 * 4);
    assert!(is_background(&frame));
    assert_eq!(frame, canvas.clear_frame());
}

#[test]
fn clear_keeps_the_drawing() {
    let mut canvas = Canvas::new(6, 4);
    canvas.draw_line((0, 0), (5, 3), palette::green());
    let before = canvas.render();
    let cleared = canvas.clear_frame();
    assert_eq!(cleared.len(), before.len());
    assert!(is_background(&cleared));
    assert_eq!(canvas.render(), before);
}

#[test]
fn resize_gives_a_blank_grid() {
    let mut canvas = Canvas::new(4, 4);
    canvas.draw_line((0, 0), (3, 0), palette::blue());
    canvas.resize(5, 3);
    assert_eq!((canvas.width(), canvas.height()), (5, 3));
    let frame = canvas.render();
    assert_eq!(frame.len(), 60);
    assert!(is_background(&frame));
}

#[test]
fn empty_canvas() {
    let mut canvas = Canvas::new(0, 0);
    canvas.draw_pixel(0, 0, palette::white());
    canvas.fill_triangle((0, 0), (1, 1), (2, 0), palette::white());
    assert!(canvas.render().is_empty());
}
