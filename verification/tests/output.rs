use kumokiri::output::{
    check_image_buffer, clipboard_dib, millis_since_epoch, encode_screenshot_png, screenshot_file_name,
    timestamp_millis, DibHeader, OutputError, DIB_HEADER_SIZE,
};

#[test]
fn image_buffer_checks() {
    assert_eq!(check_image_buffer(16, 2, 2), Ok(()));
    assert_eq!(check_image_buffer(0, 0, 2), Err(OutputError::EmptyRegion));
    assert_eq!(check_image_buffer(0, 2, 0), Err(OutputError::EmptyRegion));
    assert_eq!(check_image_buffer(15, 2, 2), Err(OutputError::PixelSizeMismatch));
}

#[test]
fn png_bytes_start_with_signature() {
    let data = vec![10u8, 20, 30, 255, 40, 50, 60, 128];
    let png = encode_screenshot_png(&data, 2, 1).unwrap();
    assert_eq!(&png[0..8], &[0x89, b'P', b'N', b'G', 0x0D, 0x0A, 0x1A, 0x0A]);
    assert_ne!(png, data);
    // IHDR holds the width and height, big-endian
    assert_eq!(&png[12..16], b"IHDR");
    assert_eq!(&png[16..24], &[0, 0, 0, 2, 0, 0, 0, 1]);
}

#[test]
fn png_rejects_bad_input() {
    assert_eq!(encode_screenshot_png(&[], 0, 0), Err(OutputError::EmptyRegion));
    assert_eq!(encode_screenshot_png(&[1, 2, 3], 1, 1), Err(OutputError::PixelSizeMismatch));
}

#[test]
fn screenshot_names() {
    assert_eq!(screenshot_file_name(0), "screenshot_0.png");
    assert_eq!(screenshot_file_name(1700000000123), "screenshot_1700000000123.png");
}

#[test]
fn timestamp_is_after_2020() {
    assert!(timestamp_millis() > 1_577_836_800_000);
}

#[test]
fn clipboard_bitmap_is_bottom_up_bgr_with_padding() {
    // 2 x 2 RGBA: top row red, green; bottom row blue, white
    let data = vec![
        255, 0, 0, 255, 0, 255, 0, 255, //
        0, 0, 255, 255, 255, 255, 255, 255,
    ];
    let dib = clipboard_dib(&data, 2, 2).unwrap();
    assert_eq!(
        dib.header,
        DibHeader {
            size: DIB_HEADER_SIZE,
            width: 2,
            height: 2,
            planes: 1,
            bit_count: 24,
            compression: 0,
            size_image: 16,
        }
    );
    assert_eq!(
        dib.pixels,
        vec![
            255, 0, 0, 255, 255, 255, 0, 0, //
            0, 0, 255, 0, 255, 0, 0, 0,
        ]
    );
}

#[test]
fn clipboard_bitmap_checks_input() {
    assert_eq!(clipboard_dib(&[], 0, 3).unwrap_err(), OutputError::EmptyRegion);
    assert_eq!(clipboard_dib(&[0; 5], 1, 1).unwrap_err(), OutputError::PixelSizeMismatch);
}

#[test]
fn output_error_messages() {
    assert_eq!(OutputError::EmptyRegion.message(), "截图区域为空");
    assert_eq!(OutputError::PixelSizeMismatch.message(), "截图像素数据大小不正确");
    assert_eq!(OutputError::Encode.message(), "写入 PNG 失败");
}

#[test]
fn millis_from_elapsed_time() {
    assert_eq!(millis_since_epoch(None), 0);
    assert_eq!(millis_since_epoch(Some((0, 999_999))), 0);
    assert_eq!(millis_since_epoch(Some((1_700_000_000, 123_456_789))), 1_700_000_000_123);
    assert_eq!(
        millis_since_epoch(Some((u64::MAX, 999_999_999))),
        u64::MAX as u128 * 1000 + 999
    );
}

#[test]
fn valid_images_always_encode() {
    for (w, h) in [(1u32, 1u32), (3, 2), (17, 5)] {
        let data = vec![7u8; (w * h * 4) as usize];
        assert!(encode_screenshot_png(&data, w, h).is_ok());
    }
}
