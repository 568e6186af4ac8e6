use kumokiri::capture::{
    color_cursor_pixels, frame_attempt, frame_step, frame_timeout_ms, masked_color_cursor_pixels,
    FrameAttempt, FrameFailure, FramePhase, FrameStep, ShapePixel, DXGI_ERROR_ACCESS_LOST,
    DXGI_ERROR_WAIT_TIMEOUT,
    cursor_shape, draw_mono_cursor, mono_cursor_drawable, pixel_format, read_bgra8,
    CaptureError, CapturedImage, CursorShape, MonitorInfo, PixelFormat, RegionCanvas,
    FORMAT_B8G8R8A8_UNORM, FORMAT_R10G10B10A2_UNORM, FORMAT_R16G16B16A16_FLOAT,
};
use kumokiri::geometry::Rect;

fn r(left: i32, top: i32, right: i32, bottom: i32) -> Rect {
    Rect { left, top, right, bottom }
}

fn wide(s: &str) -> Vec<u16> {
    s.encode_utf16().collect()
}

#[test]
fn monitor_from_output() {
    let mut name = wide("\\\\.\\DISPLAY2");
    name.extend([0u16, 0, 0]);
    let m = MonitorInfo::from_output(1, r(-1920, 0, 0, 1080), &name, 0, 1);
    assert_eq!(m.index, 1);
    assert_eq!(m.name, "\\\\.\\DISPLAY2");
    assert_eq!((m.width, m.height, m.x, m.y), (1920, 1080, -1920, 0));
    assert!(!m.is_primary);
    assert_eq!((m.adapter_index, m.output_index), (0, 1));
    assert_eq!(m.rect(), r(-1920, 0, 0, 1080));

    let p = MonitorInfo::from_output(12, r(0, 0, 2560, 1440), &[0u16; 32], 1, 0);
    assert_eq!(p.name, "显示器 12");
    assert!(p.is_primary);
    let reversed = MonitorInfo::from_output(0, r(10, 10, 0, 0), &wide("X"), 0, 0);
    assert_eq!((reversed.width, reversed.height), (0, 0));
    assert_eq!(reversed.name, "X");
}

#[test]
fn formats_and_shapes() {
    assert_eq!(pixel_format(FORMAT_B8G8R8A8_UNORM), PixelFormat::Bgra8);
    assert_eq!(pixel_format(FORMAT_R16G16B16A16_FLOAT), PixelFormat::Rgba16Float);
    assert_eq!(pixel_format(FORMAT_R10G10B10A2_UNORM), PixelFormat::Rgb10A2);
    assert_eq!(pixel_format(28), PixelFormat::Unsupported);
    assert_eq!(cursor_shape(1), CursorShape::Monochrome);
    assert_eq!(cursor_shape(2), CursorShape::Color);
    assert_eq!(cursor_shape(4), CursorShape::MaskedColor);
    assert_eq!(cursor_shape(3), CursorShape::Unknown);
}

#[test]
fn bgra_rows_become_packed_rgba() {
    let src = vec![
        1, 2, 3, 4, 5, 6, 7, 8, 99, 99, 99, 99, //
        9, 10, 11, 12, 13, 14, 15, 16, 99, 99, 99, 99,
    ];
    let out = read_bgra8(&src, 12, 2, 2);
    assert_eq!(out, vec![3, 2, 1, 4, 7, 6, 5, 8, 11, 10, 9, 12, 15, 14, 13, 16]);
}

fn monitor(index: usize, x: i32, y: i32, width: u32, height: u32) -> MonitorInfo {
    MonitorInfo {
        index,
        name: format!("M{index}"),
        width,
        height,
        x,
        y,
        is_primary: x == 0 && y == 0,
        adapter_index: 0,
        output_index: index,
    }
}

#[test]
fn region_spanning_two_monitors() {
    let left = monitor(0, -20, 0, 20, 10);
    let right = monitor(1, 0, 0, 20, 10);
    let left_img = CapturedImage { width: 20, height: 10, data: vec![1u8; 20 * 10 * 4], is_hdr_source: false };
    let mut right_data = vec![0u8; 20 * 10 * 4];
    for y in 0..10usize {
        for x in 0..20usize {
            right_data[(y * 20 + x) * 4] = (x + 10 * y) as u8;
        }
    }
    let right_img = CapturedImage { width: 20, height: 10, data: right_data, is_hdr_source: true };

    let mut canvas = RegionCanvas::new(r(10, 5, -10, 0)).unwrap();
    assert_eq!((canvas.width, canvas.height), (20, 5));
    assert_eq!(canvas.region, r(-10, 0, 10, 5));

    let o1 = canvas.overlap(&left).unwrap();
    assert_eq!(o1, r(-10, 0, 0, 5));
    assert!(canvas.can_paste(&left, o1, &left_img));
    canvas.paste(&left, o1, &left_img);
    let o2 = canvas.overlap(&right).unwrap();
    assert_eq!(o2, r(0, 0, 10, 5));
    assert!(canvas.can_paste(&right, o2, &right_img));
    canvas.paste(&right, o2, &right_img);
    assert!(canvas.overlap(&monitor(2, 100, 100, 10, 10)).is_none());

    let img = canvas.finish().unwrap();
    assert_eq!((img.width, img.height), (20, 5));
    assert!(img.is_hdr_source);
    assert_eq!(img.data[(2 * 20 + 3) * 4], 1);
    assert_eq!(img.data[(3 * 20 + 14) * 4], 4 + 30);
    assert_eq!(img.data[(3 * 20 + 14) * 4 + 1], 0);
}

#[test]
fn paste_check_rejects_short_image() {
    let m = monitor(0, 0, 0, 10, 10);
    let small = CapturedImage { width: 10, height: 10, data: vec![0u8; 10], is_hdr_source: false };
    let canvas = RegionCanvas::new(r(0, 0, 4, 4)).unwrap();
    let o = canvas.overlap(&m).unwrap();
    assert!(!canvas.can_paste(&m, o, &small));
}

#[test]
fn empty_or_offscreen_regions_fail() {
    assert_eq!(RegionCanvas::new(r(3, 0, 3, 10)).unwrap_err(), CaptureError::EmptyRegion);
    let canvas = RegionCanvas::new(r(0, 0, 2, 2)).unwrap();
    assert_eq!(canvas.data, vec![0u8; 16]);
    assert_eq!(canvas.finish().unwrap_err(), CaptureError::NotOnAnyMonitor);
}

#[test]
fn monochrome_cursor_masks() {
    let mut data = vec![100u8; 4 * 1 * 4];
    let buf = [0x30u8, 0x50];
    assert!(mono_cursor_drawable(data.len(), 4, 1, buf.len(), 4, 1, 0, 0));
    draw_mono_cursor(&mut data, 4, 1, &buf, 4, 1, 0, 0, 4);
    assert_eq!(&data[0..4], &[0, 0, 0, 255]);
    assert_eq!(&data[4..8], &[255, 255, 255, 255]);
    assert_eq!(&data[8..12], &[155, 155, 155, 100]);
    assert_eq!(&data[12..16], &[100, 100, 100, 100]);
}

#[test]
fn monochrome_cursor_clipped_at_image_edge() {
    let mut data = vec![100u8; 2 * 1 * 4];
    let buf = [0x00u8, 0x00];
    draw_mono_cursor(&mut data, 2, 1, &buf, 4, 1, -3, 0, 4);
    assert_eq!(&data[0..4], &[0, 0, 0, 255]);
    assert_eq!(&data[4..8], &[100, 100, 100, 100]);
}

#[test]
fn monochrome_cursor_needs_its_mask() {
    assert!(!mono_cursor_drawable(64, 4, 4, 3, 16, 2, 0, 0));
    assert!(mono_cursor_drawable(64, 4, 4, 4, 16, 2, 0, 0));
}

#[test]
fn capture_error_messages() {
    assert_eq!(CaptureError::EmptyRegion.message(), "截图区域为空");
    assert_eq!(CaptureError::NotOnAnyMonitor.message(), "截图区域不在任何显示器内");
}

#[test]
fn monitor_name_decodes_utf16_with_replacement() {
    let name = [0xD83Du16, 0xDE00, 0x41, 0xDC00, 0xD800, 0x42, 0, 0];
    let m = MonitorInfo::from_output(0, r(0, 0, 10, 10), &name, 0, 0);
    assert_eq!(m.name, "😀A\u{FFFD}\u{FFFD}B");
}

#[test]
fn reversed_corners_give_the_same_canvas() {
    let a = RegionCanvas::new(r(-5, 3, 20, 40)).unwrap();
    let b = RegionCanvas::new(r(20, 40, -5, 3)).unwrap();
    assert_eq!(a.region, b.region);
    assert_eq!((a.width, a.height), (25, 37));
    assert_eq!((b.width, b.height), (25, 37));
    assert_eq!(a.data, b.data);
}

#[test]
fn frame_taking_steps() {
    assert_eq!(frame_attempt(true, 5), FrameAttempt::Acquired);
    assert_eq!(frame_attempt(false, DXGI_ERROR_WAIT_TIMEOUT), FrameAttempt::TimedOut);
    assert_eq!(frame_attempt(false, DXGI_ERROR_ACCESS_LOST), FrameAttempt::AccessLost);
    assert_eq!(frame_attempt(false, -1), FrameAttempt::Failed);
    assert_eq!(DXGI_ERROR_WAIT_TIMEOUT as u32, 0x887A0027);
    assert_eq!(frame_timeout_ms(FramePhase::Wait), 1000);
    assert_eq!(frame_timeout_ms(FramePhase::Drain), 0);
    assert_eq!(
        frame_step(FramePhase::DropBuffered, FrameAttempt::Acquired),
        FrameStep { release: true, keep: false, next: Some(FramePhase::Wait), failure: None }
    );
    assert_eq!(
        frame_step(FramePhase::DropBuffered, FrameAttempt::TimedOut),
        FrameStep { release: false, keep: false, next: Some(FramePhase::Wait), failure: None }
    );
    assert_eq!(
        frame_step(FramePhase::Wait, FrameAttempt::Acquired),
        FrameStep { release: false, keep: true, next: Some(FramePhase::Drain), failure: None }
    );
    assert_eq!(
        frame_step(FramePhase::Wait, FrameAttempt::TimedOut).failure,
        Some(FrameFailure::TimedOut)
    );
    assert_eq!(
        frame_step(FramePhase::Wait, FrameAttempt::AccessLost).failure,
        Some(FrameFailure::AccessLost)
    );
    assert_eq!(
        frame_step(FramePhase::Drain, FrameAttempt::Acquired),
        FrameStep { release: true, keep: true, next: Some(FramePhase::Drain), failure: None }
    );
    assert_eq!(
        frame_step(FramePhase::Drain, FrameAttempt::TimedOut),
        FrameStep { release: false, keep: false, next: None, failure: None }
    );
    assert_eq!(FrameFailure::Failed.message(), "获取桌面帧失败");
}

#[test]
fn colour_pointer_pixels() {
    // 2 x 2 shape, pitch 12 (one padding pixel per row), placed at (1, 0) on a 2 x 2 image
    let buf = [
        1, 2, 3, 255, 4, 5, 6, 0, 9, 9, 9, 9, //
        7, 8, 9, 128, 10, 11, 12, 255, 9, 9, 9, 9,
        0xff, 0xff, // AND mask
    ];
    let px = color_cursor_pixels(16, 2, 2, &buf, 2, 2, 1, 0, 12);
    assert_eq!(
        px,
        vec![
            ShapePixel { index: 4, b: 1, g: 2, r: 3, a: 255 },
            ShapePixel { index: 12, b: 7, g: 8, r: 9, a: 128 },
        ]
    );
    assert_eq!(px[0].opaque_rgba(), Some([3, 2, 1, 255]));
    assert_eq!(px[1].opaque_rgba(), None);
    // the width is cut to pitch / 4 columns
    let narrow = color_cursor_pixels(64, 8, 2, &buf, 5, 2, 0, 0, 8);
    assert_eq!(narrow.len(), 3);
    assert_eq!(narrow[2], ShapePixel { index: 36, b: 7, g: 8, r: 9, a: 128 });
    let masked = masked_color_cursor_pixels(16, 2, 2, &buf, 2, 2, 0, 0, 12);
    assert_eq!(masked.len(), 3);
    assert_eq!(masked[2], ShapePixel { index: 12, b: 10, g: 11, r: 12, a: 255 });
}
