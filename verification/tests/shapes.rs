use love_api::shapes::line_pixels;

#[test]
fn lines_follow_bresenham_from_end_to_end() {
    assert_eq!(line_pixels(0, 0, 3, 1), vec![(0, 0), (1, 0), (2, 1), (3, 1)]);
    assert_eq!(line_pixels(2, 2, 2, 2), vec![(2, 2)]);
    assert_eq!(line_pixels(3, 0, 0, 0), vec![(3, 0), (2, 0), (1, 0), (0, 0)]);
    assert_eq!(line_pixels(0, 0, 2, 2), vec![(0, 0), (1, 1), (2, 2)]);
}

#[test]
fn pixels_off_the_top_or_left_are_skipped() {
    assert_eq!(line_pixels(-2, 0, 1, 0), vec![(0, 0), (1, 0)]);
    assert_eq!(line_pixels(0, -1, 0, 1), vec![(0, 0), (0, 1)]);
}

#[test]
fn consecutive_pixels_touch() {
    let pixels = line_pixels(5, 40, 37, 3);
    assert_eq!(pixels.first(), Some(&(5, 40)));
    assert_eq!(pixels.last(), Some(&(37, 3)));
    for pair in pixels.windows(2) {
        assert!((pair[0].0 as i64 - pair[1].0 as i64).abs() <= 1);
        assert!((pair[0].1 as i64 - pair[1].1 as i64).abs() <= 1);
    }
}
