use kumokiri::geometry::{Edges, Point, Rect};
use kumokiri::overlay::{
    hotkey_action, hotkey_vk, is_shell_desktop_class, key_action, point_from_lparam,
    selectable_window_rect, Drag, KeyAction, Mode, OverlayState, HOTKEY_ENTER_ID,
    HOTKEY_ESCAPE_ID, WS_EX_TOOLWINDOW,
};
use kumokiri::render::FrameError;

fn r(left: i32, top: i32, right: i32, bottom: i32) -> Rect {
    Rect { left, top, right, bottom }
}

fn p(x: i32, y: i32) -> Point {
    Point { x, y }
}

fn state(cursor: Option<Point>) -> OverlayState {
    let bounds = r(0, 0, 100, 80);
    let monitors = vec![r(0, 0, 50, 80), r(50, 0, 100, 80)];
    let windows = vec![r(10, 10, 30, 30)];
    let image = vec![100u8; 100 * 80 * 4];
    OverlayState::new(bounds, monitors, windows, cursor, &image, 100, 80).unwrap()
}

#[test]
fn new_picks_window_then_monitor_then_bounds() {
    assert_eq!(state(Some(p(20, 20))).selection, r(10, 10, 30, 30));
    assert_eq!(state(Some(p(70, 20))).selection, r(50, 0, 100, 80));
    assert_eq!(state(Some(p(500, 500))).selection, r(0, 0, 100, 80));
    assert_eq!(state(None).selection, r(0, 0, 100, 80));
    let s = state(None);
    assert_eq!(s.mode, Mode::Picking);
    assert_eq!(s.drag, Drag::Idle);
    assert!(!s.done);
    assert_eq!(s.result, None);
}

#[test]
fn new_without_monitors_uses_bounds() {
    let image = vec![0u8; 4 * 4 * 4];
    let s = OverlayState::new(r(-4, 0, 0, 4), vec![], vec![], None, &image, 4, 4).unwrap();
    assert_eq!(s.monitor_rects, vec![r(-4, 0, 0, 4)]);
}

#[test]
fn new_rejects_wrong_pixel_count() {
    let image = vec![0u8; 10];
    let e = OverlayState::new(r(0, 0, 4, 4), vec![], vec![], None, &image, 4, 4).unwrap_err();
    assert_eq!(e, FrameError::PixelSizeMismatch);
}

#[test]
fn frozen_image_is_bgra() {
    let image = vec![1, 2, 3, 4];
    let s = OverlayState::new(r(0, 0, 1, 1), vec![], vec![], None, &image, 1, 1).unwrap();
    assert_eq!(s.frozen_bgra, vec![3, 2, 1, 255]);
}

#[test]
fn picking_follows_pointer() {
    let mut s = state(None);
    assert!(s.can_handle_mouse_move(p(20, 20)));
    s.handle_mouse_move(p(20, 20));
    assert_eq!(s.selection, r(10, 10, 30, 30));
    s.handle_mouse_move(p(60, 5));
    assert_eq!(s.selection, r(50, 0, 100, 80));
}

#[test]
fn click_without_drag_keeps_picked_rect() {
    let mut s = state(Some(p(20, 20)));
    assert!(s.can_begin_drag(p(20, 20)));
    s.press(p(20, 20));
    assert_eq!(s.drag, Drag::PendingPick);
    s.handle_mouse_move(p(22, 21));
    assert_eq!(s.drag, Drag::PendingPick);
    s.finish_drag(p(22, 21));
    assert_eq!(s.mode, Mode::Adjusting);
    assert_eq!(s.selection, r(10, 10, 30, 30));
    assert_eq!(s.drag, Drag::Idle);
}

#[test]
fn dragging_draws_a_new_rect() {
    let mut s = state(None);
    s.press(p(40, 40));
    s.handle_mouse_move(p(35, 60));
    assert_eq!(s.drag, Drag::Drawing);
    assert_eq!(s.selection, r(35, 40, 40, 60));
    s.finish_drag(p(200, 10));
    assert_eq!(s.selection, r(40, 10, 100, 40));
    assert_eq!(s.mode, Mode::Adjusting);
}

#[test]
fn adjusting_moves_resizes_and_draws() {
    let mut s = state(Some(p(20, 20)));
    s.press(p(20, 20));
    s.finish_drag(p(20, 20));
    // inside: move, clamped to the bounds
    s.press(p(20, 20));
    assert_eq!(s.drag, Drag::Moving);
    s.handle_mouse_move(p(-50, 25));
    assert_eq!(s.selection, r(0, 15, 20, 35));
    s.finish_drag(p(-50, 25));
    // near the right edge: resize
    s.press(p(21, 25));
    assert_eq!(s.drag, Drag::Resizing(Edges { left: false, top: false, right: true, bottom: false }));
    s.handle_mouse_move(p(90, 25));
    assert_eq!(s.selection, r(0, 15, 90, 35));
    s.finish_drag(p(90, 25));
    // outside: draw
    s.press(p(95, 75));
    assert_eq!(s.drag, Drag::Drawing);
}

#[test]
fn complete_needs_min_size() {
    let mut s = state(None);
    s.selection = r(10, 10, 15, 40);
    assert!(s.can_complete());
    assert!(!s.complete_selection());
    assert!(!s.done);
    s.selection = r(16, 40, 10, 10);
    assert!(s.complete_selection());
    assert!(s.done);
    assert_eq!(s.result, Some(r(10, 10, 16, 40)));
}

#[test]
fn cancel_gives_no_result() {
    let mut s = state(None);
    s.result = Some(r(0, 0, 10, 10));
    s.cancel_selection();
    assert!(s.done);
    assert_eq!(s.result, None);
}

#[test]
fn render_dims_outside_and_frames_selection() {
    let image = vec![200u8; 20 * 20 * 4];
    let mut s = OverlayState::new(r(100, 100, 120, 120), vec![], vec![], None, &image, 20, 20).unwrap();
    s.selection = r(105, 105, 115, 115);
    let out = s.render_overlay().unwrap();
    let at = |x: usize, y: usize| {
        let i = (y * 20 + x) * 4;
        [out[i], out[i + 1], out[i + 2], out[i + 3]]
    };
    assert_eq!(at(0, 0), [130, 130, 130, 255]);
    assert_eq!(at(19, 19), [130, 130, 130, 255]);
    assert_eq!(at(10, 10), [200, 200, 200, 255]);
    assert_eq!(at(10, 5), [0, 215, 255, 255]);
}

#[test]
fn render_rejects_empty_frame() {
    let s = OverlayState::new(r(0, 0, 0, 0), vec![], vec![], None, &[], 0, 0).unwrap();
    assert_eq!(s.render_overlay(), Err(FrameError::EmptyFrame));
}

#[test]
fn key_and_hotkey_actions() {
    assert_eq!(key_action(0x0D), KeyAction::Complete);
    assert_eq!(key_action(0x1B), KeyAction::Cancel);
    assert_eq!(key_action(0x41), KeyAction::Ignore);
    assert_eq!(hotkey_action(HOTKEY_ENTER_ID), KeyAction::Complete);
    assert_eq!(hotkey_action(HOTKEY_ESCAPE_ID), KeyAction::Cancel);
    assert_eq!(hotkey_action(1), KeyAction::Ignore);
    assert_eq!(hotkey_vk(0x001B_4000), 0x1B);
}

#[test]
fn lparam_coordinates_are_signed_and_offset() {
    let lparam: isize = (0x0020 << 16) | 0xFFFE;
    assert_eq!(point_from_lparam(lparam, r(-100, 50, 0, 100)), p(-102, 82));
}

#[test]
fn shell_windows_and_small_windows_are_not_pickable() {
    assert!(is_shell_desktop_class("Progman"));
    assert!(is_shell_desktop_class("Shell_SecondaryTrayWnd"));
    assert!(!is_shell_desktop_class("Notepad"));
    let frame = r(100, 100, 10, 10);
    assert_eq!(selectable_window_rect(true, false, 0, "Notepad", frame), Some(r(10, 10, 100, 100)));
    assert_eq!(selectable_window_rect(false, false, 0, "Notepad", frame), None);
    assert_eq!(selectable_window_rect(true, true, 0, "Notepad", frame), None);
    assert_eq!(selectable_window_rect(true, false, WS_EX_TOOLWINDOW, "Notepad", frame), None);
    assert_eq!(selectable_window_rect(true, false, 0, "WorkerW", frame), None);
    assert_eq!(selectable_window_rect(true, false, 0, "Notepad", r(0, 0, 15, 100)), None);
    assert_eq!(selectable_window_rect(true, false, 0, "Notepad", r(0, 0, 16, 16)), Some(r(0, 0, 16, 16)));
}

#[test]
fn frame_error_messages_and_render_check() {
    assert_eq!(FrameError::PixelSizeMismatch.message(), "冻结画面的像素数据大小不正确");
    assert_eq!(FrameError::EmptyFrame.message(), "冻结画面尺寸无效");
    let mut s = state(None);
    assert!(s.can_render());
    s.frozen_bgra.pop();
    assert!(!s.can_render());
    let mut s = state(None);
    s.selection = r(i32::MIN, 0, 10, 10);
    s.bounds = r(10, 0, 100, 80);
    assert!(!s.can_render());
}

#[test]
fn pointer_move_changes_only_selection_and_drag() {
    let mut s = state(Some(p(20, 20)));
    s.press(p(20, 20));
    s.finish_drag(p(20, 20));
    let before = s.selection;
    s.handle_mouse_move(p(70, 70));
    assert_eq!(s.selection, before);
    assert_eq!(s.drag, Drag::Idle);
    assert_eq!(s.mode, Mode::Adjusting);
    assert_eq!(s.start_selection, r(10, 10, 30, 30));
}
