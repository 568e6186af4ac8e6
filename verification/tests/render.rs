use kumokiri::geometry::Rect;
use kumokiri::render::{
    dim_rect_bgra, draw_selection_frame, fill_rect_bgra, rgba_to_bgra, scale_dim, FrameError,
};

fn r(left: i32, top: i32, right: i32, bottom: i32) -> Rect {
    Rect { left, top, right, bottom }
}

fn px(buf: &[u8], w: usize, x: usize, y: usize) -> [u8; 4] {
    let i = (y * w + x) * 4;
    [buf[i], buf[i + 1], buf[i + 2], buf[i + 3]]
}

#[test]
fn rgba_to_bgra_swaps_and_makes_opaque() {
    let out = rgba_to_bgra(&[1, 2, 3, 4, 10, 20, 30, 0], 2, 1).unwrap();
    assert_eq!(out, vec![3, 2, 1, 255, 30, 20, 10, 255]);
}

#[test]
fn rgba_to_bgra_checks_size() {
    assert_eq!(rgba_to_bgra(&[1, 2, 3], 1, 1), Err(FrameError::PixelSizeMismatch));
    assert_eq!(rgba_to_bgra(&[], 0, 5), Ok(vec![]));
}

#[test]
fn scale_dim_values() {
    assert_eq!(scale_dim(0), 0);
    assert_eq!(scale_dim(255), 166);
    assert_eq!(scale_dim(100), 65);
    assert_eq!(scale_dim(1), 1);
}

#[test]
fn dim_only_inside_clamped_rect() {
    let mut buf = vec![200u8; 3 * 2 * 4];
    dim_rect_bgra(&mut buf, 3, 2, r(2, -5, 10, 1));
    assert_eq!(px(&buf, 3, 2, 0), [130, 130, 130, 255]);
    assert_eq!(px(&buf, 3, 1, 0), [200, 200, 200, 200]);
    assert_eq!(px(&buf, 3, 2, 1), [200, 200, 200, 200]);
}

#[test]
fn fill_sets_colour_in_bgra_order() {
    let mut buf = vec![0u8; 2 * 2 * 4];
    fill_rect_bgra(&mut buf, 2, 2, r(1, 1, 0, 0), 9, 8, 7);
    assert_eq!(px(&buf, 2, 0, 0), [7, 8, 9, 255]);
    assert_eq!(px(&buf, 2, 1, 0), [0, 0, 0, 0]);
    fill_rect_bgra(&mut buf, 2, 2, r(5, 5, 9, 9), 1, 1, 1);
    assert_eq!(px(&buf, 2, 1, 1), [0, 0, 0, 0]);
}

#[test]
fn selection_frame_is_drawn_in_border_colour() {
    let (w, h) = (40usize, 30usize);
    let mut buf = vec![0u8; w * h * 4];
    draw_selection_frame(&mut buf, w, h, r(30, 25, 10, 5));
    let border = [0, 215, 255, 255];
    assert_eq!(px(&buf, w, 20, 5), border);
    assert_eq!(px(&buf, w, 20, 7), border);
    assert_eq!(px(&buf, w, 20, 8), border);
    assert_eq!(px(&buf, w, 15, 8), [0, 0, 0, 0]);
    assert_eq!(px(&buf, w, 10, 15), border);
    assert_eq!(px(&buf, w, 29, 15), border);
    assert_eq!(px(&buf, w, 20, 15), [0, 0, 0, 0]);
    // grip centred on the top-left corner reaches outside the frame
    assert_eq!(px(&buf, w, 6, 1), border);
    assert_eq!(px(&buf, w, 5, 1), [0, 0, 0, 0]);
}
