use motion_core::raster::{coord_to_img, draw_line, draw_polyline, set_pixel, Mark};

const INK: [u8; 4] = [10, 20, 30, 255];

fn canvas(width: u32, height: u32) -> Vec<u8> {
    vec![0u8; (width * height * 4) as usize]
}

fn inked(buffer: &[u8], width: u32, height: u32) -> Vec<(u32, u32)> {
    let mut found = Vec::new();
    for y in 0..height {
        for x in 0..width {
            let at = ((y * width + x) * 4) as usize;
            if buffer[at..at + 4] == INK {
                found.push((x, y));
            } else {
                assert_eq!(&buffer[at..at + 4], &[0u8, 0, 0, 0]);
            }
        }
    }
    found.sort();
    found
}

fn sorted(mut points: Vec<(u32, u32)>) -> Vec<(u32, u32)> {
    points.sort();
    points
}

#[test]
fn set_pixel_writes_four_bytes_at_the_pixel() {
    let mut buffer = canvas(4, 3);
    set_pixel(2, 1, &mut buffer, 4, 3, INK);
    let at = (1 * 4 + 2) * 4;
    assert_eq!(&buffer[at..at + 4], &INK);
    assert_eq!(buffer.iter().filter(|b| **b != 0).count(), 4);
}

#[test]
fn set_pixel_off_canvas_changes_nothing() {
    let mut buffer = canvas(4, 3);
    set_pixel(4, 0, &mut buffer, 4, 3, INK);
    set_pixel(0, 3, &mut buffer, 4, 3, INK);
    set_pixel(u32::MAX, u32::MAX, &mut buffer, 4, 3, INK);
    assert!(buffer.iter().all(|b| *b == 0));
}

#[test]
fn set_pixel_last_pixel_fits() {
    let mut buffer = canvas(4, 3);
    set_pixel(3, 2, &mut buffer, 4, 3, INK);
    assert_eq!(&buffer[44..48], &INK);
}

#[test]
fn draw_line_horizontal_leaves_out_the_end_point() {
    let mut buffer = canvas(8, 8);
    draw_line(1, 2, 5, 2, &mut buffer, 8, 8, INK);
    assert_eq!(inked(&buffer, 8, 8), vec![(1, 2), (2, 2), (3, 2), (4, 2)]);
}

#[test]
fn draw_line_vertical_upwards() {
    let mut buffer = canvas(8, 8);
    draw_line(3, 6, 3, 2, &mut buffer, 8, 8, INK);
    assert_eq!(inked(&buffer, 8, 8), sorted(vec![(3, 6), (3, 5), (3, 4), (3, 3)]));
}

#[test]
fn draw_line_diagonal() {
    let mut buffer = canvas(8, 8);
    draw_line(0, 0, 4, 4, &mut buffer, 8, 8, INK);
    assert_eq!(inked(&buffer, 8, 8), vec![(0, 0), (1, 1), (2, 2), (3, 3)]);
}

#[test]
fn draw_line_shallow_rounds_to_the_nearest_row() {
    let mut buffer = canvas(8, 8);
    draw_line(0, 0, 5, 2, &mut buffer, 8, 8, INK);
    assert_eq!(inked(&buffer, 8, 8), sorted(vec![(0, 0), (1, 0), (2, 1), (3, 1), (4, 2)]));
}

#[test]
fn draw_line_steep_rounds_to_the_nearest_column() {
    let mut buffer = canvas(8, 8);
    draw_line(1, 0, 3, 6, &mut buffer, 8, 8, INK);
    assert_eq!(
        inked(&buffer, 8, 8),
        sorted(vec![(1, 0), (1, 1), (2, 2), (2, 3), (2, 4), (3, 5)])
    );
}

#[test]
fn draw_line_leftwards_and_upwards() {
    let mut buffer = canvas(8, 8);
    draw_line(6, 5, 1, 3, &mut buffer, 8, 8, INK);
    assert_eq!(inked(&buffer, 8, 8), sorted(vec![(6, 5), (5, 5), (4, 4), (3, 4), (2, 3)]));
}

#[test]
fn draw_line_of_no_length_draws_nothing() {
    let mut buffer = canvas(4, 4);
    draw_line(2, 2, 2, 2, &mut buffer, 4, 4, INK);
    assert!(buffer.iter().all(|b| *b == 0));
}

#[test]
fn draw_line_skips_what_lies_off_the_canvas() {
    let mut buffer = canvas(4, 4);
    draw_line(-2, 1, 6, 1, &mut buffer, 4, 4, INK);
    assert_eq!(inked(&buffer, 4, 4), vec![(0, 1), (1, 1), (2, 1), (3, 1)]);
    let mut buffer = canvas(4, 4);
    draw_line(1, -3, 1, 9, &mut buffer, 4, 4, INK);
    assert_eq!(inked(&buffer, 4, 4), vec![(1, 0), (1, 1), (1, 2), (1, 3)]);
}

#[test]
fn draw_line_between_far_corners_of_the_coordinate_range() {
    let mut buffer = canvas(2, 2);
    draw_line(i32::MIN, 0, i32::MIN + 3, 1, &mut buffer, 2, 2, INK);
    assert!(buffer.iter().all(|b| *b == 0));
}

#[test]
fn draw_line_counts_one_pixel_for_each_step_of_the_longer_side() {
    for (x1, y1) in [(7, 0), (7, 3), (7, 7), (3, 7), (0, 7), (5, 6), (6, 5), (1, 7)] {
        let mut buffer = canvas(8, 8);
        draw_line(0, 0, x1, y1, &mut buffer, 8, 8, INK);
        let longer = std::cmp::max(x1, y1) as usize;
        assert_eq!(inked(&buffer, 8, 8).len(), longer);
    }
}

#[test]
fn draw_line_stays_within_half_a_pixel_of_the_ideal_line() {
    for (x1, y1) in [(7i64, 3i64), (7, 6), (2, 7), (6, 7), (7, 1)] {
        let mut buffer = canvas(8, 8);
        draw_line(0, 0, x1 as i32, y1 as i32, &mut buffer, 8, 8, INK);
        for (x, y) in inked(&buffer, 8, 8) {
            let off = (x as i64 * y1 - y as i64 * x1).abs() * 2;
            assert!(off <= std::cmp::max(x1, y1));
        }
    }
}

#[test]
fn draw_polyline_joins_consecutive_points() {
    let mut buffer = canvas(8, 8);
    draw_polyline(&[(0, 0), (3, 0), (3, 3)], &mut buffer, 8, 8, INK);
    assert_eq!(
        inked(&buffer, 8, 8),
        sorted(vec![(0, 0), (1, 0), (2, 0), (3, 0), (3, 1), (3, 2)])
    );
}

#[test]
fn draw_polyline_of_fewer_than_two_points_draws_nothing() {
    let mut buffer = canvas(4, 4);
    draw_polyline(&[], &mut buffer, 4, 4, INK);
    draw_polyline(&[(1, 1)], &mut buffer, 4, 4, INK);
    assert!(buffer.iter().all(|b| *b == 0));
}

#[test]
fn coord_to_img_of_no_marks_is_blank() {
    let image = coord_to_img(3, 2, INK, &[]);
    assert_eq!(image, vec![0u8; 24]);
    let image = coord_to_img(3, 2, INK, &[Mark::Point(1, 1)]);
    assert_eq!(image, vec![0u8; 24]);
}

#[test]
fn coord_to_img_joins_way_points() {
    let image = coord_to_img(6, 6, INK, &[Mark::Point(0, 0), Mark::Point(4, 0), Mark::Point(4, 3)]);
    assert_eq!(
        inked(&image, 6, 6),
        sorted(vec![(0, 0), (1, 0), (2, 0), (3, 0), (4, 0), (4, 1), (4, 2)])
    );
}

#[test]
fn coord_to_img_draws_a_curve_and_the_line_to_its_start() {
    let curve = Mark::Curve { start: (2, 0), end: (2, 4), samples: vec![(2, 0), (4, 2), (2, 4)] };
    let image = coord_to_img(6, 6, INK, &[Mark::Point(0, 0), curve, Mark::Point(0, 4)]);
    assert_eq!(
        inked(&image, 6, 6),
        sorted(vec![(0, 0), (1, 0), (2, 0), (3, 1), (4, 2), (3, 3), (2, 4), (1, 4)])
    );
}

#[test]
fn coord_to_img_does_not_draw_a_leading_curve() {
    let curve = Mark::Curve { start: (0, 0), end: (3, 3), samples: vec![(0, 0), (3, 0), (3, 3)] };
    let image = coord_to_img(6, 6, INK, &[curve, Mark::Point(3, 5)]);
    assert_eq!(inked(&image, 6, 6), vec![(3, 3), (3, 4)]);
}

#[test]
fn coord_to_img_of_an_empty_canvas() {
    assert_eq!(coord_to_img(0, 5, INK, &[Mark::Point(0, 0), Mark::Point(3, 3)]), Vec::<u8>::new());
}
