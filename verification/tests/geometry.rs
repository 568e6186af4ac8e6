use kumokiri::geometry::{
    bounding_rect, clamp_rect, dim_rects, distance_exceeds_threshold, handle_at, handle_rects, hit_test_resize,
    intersect_rect, monitor_rect_at_point, move_rect_clamped, normalize_rect, point_in_rect,
    rect_from_points, resize_rect_clamped, window_rect_at_point, Edges, Point, Rect,
};

fn r(left: i32, top: i32, right: i32, bottom: i32) -> Rect {
    Rect { left, top, right, bottom }
}

fn p(x: i32, y: i32) -> Point {
    Point { x, y }
}

#[test]
fn normalize_orders_edges_and_is_idempotent() {
    let n = normalize_rect(r(10, 40, -5, 20));
    assert_eq!(n, r(-5, 20, 10, 40));
    assert_eq!(normalize_rect(n), n);
}

#[test]
fn rect_from_points_is_symmetric() {
    assert_eq!(rect_from_points(p(5, 9), p(-1, 2)), r(-1, 2, 5, 9));
    assert_eq!(rect_from_points(p(-1, 2), p(5, 9)), r(-1, 2, 5, 9));
}

#[test]
fn clamp_pulls_edges_into_bounds() {
    let bounds = r(0, 0, 100, 50);
    assert_eq!(clamp_rect(r(-10, 60, 120, -5), bounds), r(0, 0, 100, 50));
    assert_eq!(clamp_rect(r(10, 10, 20, 20), bounds), r(10, 10, 20, 20));
    let once = clamp_rect(r(90, 40, 130, 70), bounds);
    assert_eq!(once, r(90, 40, 100, 50));
    assert_eq!(clamp_rect(once, bounds), once);
}

#[test]
fn intersection_of_rectangles() {
    assert_eq!(intersect_rect(r(0, 0, 10, 10), r(5, 5, 20, 20)), Some(r(5, 5, 10, 10)));
    assert_eq!(intersect_rect(r(5, 5, 20, 20), r(0, 0, 10, 10)), Some(r(5, 5, 10, 10)));
    assert_eq!(intersect_rect(r(0, 0, 10, 10), r(10, 0, 20, 10)), None);
    assert_eq!(intersect_rect(r(0, 0, 10, 10), r(20, 20, 30, 30)), None);
}

#[test]
fn point_in_rect_includes_edges() {
    assert!(point_in_rect(p(10, 10), r(0, 0, 10, 10)));
    assert!(point_in_rect(p(0, 0), r(0, 0, 10, 10)));
    assert!(!point_in_rect(p(11, 5), r(0, 0, 10, 10)));
}

#[test]
fn move_keeps_size_and_stays_inside() {
    let bounds = r(0, 0, 100, 100);
    assert_eq!(move_rect_clamped(r(10, 10, 30, 40), 5, -3, bounds), r(15, 7, 35, 37));
    assert_eq!(move_rect_clamped(r(10, 10, 30, 40), 200, 200, bounds), r(80, 70, 100, 100));
    assert_eq!(move_rect_clamped(r(10, 10, 30, 40), -200, -200, bounds), r(0, 0, 20, 30));
}

#[test]
fn resize_respects_min_size_and_bounds() {
    let bounds = r(0, 0, 100, 100);
    let all = Edges { left: true, top: false, right: false, bottom: false };
    assert_eq!(resize_rect_clamped(r(10, 10, 50, 50), all, p(48, 20), bounds), r(44, 10, 50, 50));
    let br = Edges { left: false, top: false, right: true, bottom: true };
    assert_eq!(resize_rect_clamped(r(10, 10, 50, 50), br, p(500, 70), bounds), r(10, 10, 100, 70));
    assert_eq!(resize_rect_clamped(r(10, 10, 50, 50), br, p(-5, -5), bounds), r(10, 10, 16, 16));
}

#[test]
fn hit_test_finds_nearby_edges() {
    let rect = r(10, 10, 100, 100);
    assert_eq!(
        hit_test_resize(rect, p(12, 12)),
        Some(Edges { left: true, top: true, right: false, bottom: false })
    );
    assert_eq!(
        hit_test_resize(rect, p(104, 50)),
        Some(Edges { left: false, top: false, right: true, bottom: false })
    );
    assert_eq!(hit_test_resize(rect, p(50, 50)), None);
    assert_eq!(hit_test_resize(rect, p(10, 200)), None);
}

#[test]
fn threshold_is_more_than_three_pixels() {
    assert!(!distance_exceeds_threshold(p(0, 0), p(3, -3)));
    assert!(distance_exceeds_threshold(p(0, 0), p(4, 0)));
    assert!(distance_exceeds_threshold(p(0, 0), p(0, -4)));
}

#[test]
fn handles_around_a_rectangle() {
    assert_eq!(handle_at(10, 20), r(6, 16, 14, 24));
    let h = handle_rects(r(0, 0, 11, 21));
    assert_eq!(h[0], r(-4, -4, 4, 4));
    assert_eq!(h[1], r(1, -4, 9, 4));
    assert_eq!(h[2], r(7, -4, 15, 4));
    assert_eq!(h[3], r(7, 6, 15, 14));
    assert_eq!(h[4], r(7, 17, 15, 25));
    assert_eq!(h[5], r(1, 17, 9, 25));
    assert_eq!(h[6], r(-4, 17, 4, 25));
    assert_eq!(h[7], r(-4, 6, 4, 14));
    let neg = handle_rects(r(-11, -11, 0, 0));
    assert_eq!(neg[1], r(-9, -15, -1, -7));
}

#[test]
fn dim_bands_surround_selection() {
    let bands = dim_rects(r(0, 0, 100, 80), r(60, 50, 20, 10));
    assert_eq!(bands[0], r(0, 0, 100, 10));
    assert_eq!(bands[1], r(0, 50, 100, 80));
    assert_eq!(bands[2], r(0, 10, 20, 50));
    assert_eq!(bands[3], r(60, 10, 100, 50));
}

#[test]
fn first_rect_under_point() {
    let rects = [r(0, 0, 10, 10), r(5, 5, 20, 20), r(100, 100, 200, 200)];
    assert_eq!(window_rect_at_point(p(7, 7), &rects), Some(r(0, 0, 10, 10)));
    assert_eq!(monitor_rect_at_point(p(15, 15), &rects), Some(r(5, 5, 20, 20)));
    assert_eq!(monitor_rect_at_point(p(50, 50), &rects), None);
    assert_eq!(window_rect_at_point(p(1, 1), &[]), None);
}

#[test]
fn bounding_rect_spans_all() {
    assert_eq!(bounding_rect(&[]), None);
    assert_eq!(bounding_rect(&[r(1, 2, 3, 4)]), Some(r(1, 2, 3, 4)));
    assert_eq!(
        bounding_rect(&[r(0, 0, 1920, 1080), r(-1280, 200, 0, 1224), r(1920, -300, 3000, 500)]),
        Some(r(-1280, -300, 3000, 1224))
    );
}

#[test]
fn dim_bands_and_selection_cover_client_once() {
    let client = r(0, 0, 12, 9);
    for sel in [r(3, 2, 8, 6), r(0, 0, 12, 9), r(5, 5, 5, 5), r(-4, 3, 20, 4)] {
        let bands = dim_rects(client, sel);
        let s = normalize_rect(sel);
        let clipped = clamp_rect(s, client);
        for y in 0..9 {
            for x in 0..12 {
                let inside = |b: &Rect| b.left <= x && x < b.right && b.top <= y && y < b.bottom;
                let count = bands.iter().filter(|b| inside(b)).count()
                    + if inside(&clipped) { 1 } else { 0 };
                assert_eq!(count, 1, "pixel ({x}, {y}) of selection {sel:?}");
            }
        }
    }
}
