//! Preparing a captured image for its destinations: the PNG file's bytes and
//! name, and the device-independent bitmap the clipboard takes.
use vstd::prelude::*;
use crate::text::{decimal, push_decimal, push_str, string_from_chars};
use image::codecs::png::PngEncoder;
use image::{ColorType, ImageEncoder, ImageError};
use std::time::{Duration, SystemTime, SystemTimeError, UNIX_EPOCH};

verus! {

/// Why an image could not be written out.
#[derive(Debug, Clone, Copy, PartialEq, Eq, Structural)]
pub enum OutputError {
    /// The image has no pixels.
    EmptyRegion,
    /// The pixel data is not `width * height * 4` bytes long.
    PixelSizeMismatch,
    /// The PNG encoder failed.
    Encode,
}

impl OutputError {
    /// The message that tells the user why the image was not written out.
    pub fn message(&self) -> (s: String)
        ensures
            s@ == (match self {
                OutputError::EmptyRegion => "截图区域为空"@,
                OutputError::PixelSizeMismatch => "截图像素数据大小不正确"@,
                OutputError::Encode => "写入 PNG 失败"@,
            }),
    {
        match self {
            OutputError::EmptyRegion => String::from_str("截图区域为空"),
            OutputError::PixelSizeMismatch => String::from_str("截图像素数据大小不正确"),
            OutputError::Encode => String::from_str("写入 PNG 失败"),
        }
    }
}

#[verifier::external_type_specification]
#[verifier::external_body]
pub struct ExImageError(ImageError);

#[verifier::external_type_specification]
#[verifier::external_body]
pub struct ExSystemTime(SystemTime);

#[verifier::external_type_specification]
#[verifier::external_body]
pub struct ExSystemTimeError(SystemTimeError);

/// The PNG file that `PngEncoder` writes for RGBA pixels of the given size.
pub uninterp spec fn png_rgba8(pixels: Seq<u8>, width: u32, height: u32) -> Seq<u8>;

/// `PngEncoder::write_image` with `ColorType::Rgba8`, writing into memory. The
/// encoder asserts that the buffer holds `width * height * 4` bytes. The PNG
/// writer refuses only a zero width or height, and writing into a `Vec` cannot
/// fail, so an image with pixels is always encoded. The bytes it writes are
/// named, not described.
#[verifier::external_body]
fn encode_png_rgba8(pixels: &[u8], width: u32, height: u32) -> (r: Result<Vec<u8>, ImageError>)
    requires
        pixels@.len() == width * height * 4,
    ensures
        r matches Ok(bytes) ==> bytes@ == png_rgba8(pixels@, width, height),
        width > 0 && height > 0 ==> r is Ok,
{
    let mut out: Vec<u8> = Vec::new();
    match PngEncoder::new(&mut out).write_image(pixels, width, height, ColorType::Rgba8) {
        Ok(()) => Ok(out),
        Err(e) => Err(e),
    }
}

/// The check an image passes before it is written: it has pixels, and exactly
/// four bytes per pixel.
pub open spec fn image_check(len: nat, width: u32, height: u32) -> Result<(), OutputError> {
    if width == 0 || height == 0 {
        Err(OutputError::EmptyRegion)
    } else if len != width * height * 4 {
        Err(OutputError::PixelSizeMismatch)
    } else {
        Ok(())
    }
}

/// Checks that an RGBA image of `width` x `height` pixels has pixels and holds
/// `data_len` bytes.
pub fn check_image_buffer(data_len: usize, width: u32, height: u32) -> (r: Result<(), OutputError>)
    requires
        width * height * 4 <= usize::MAX,
    ensures
        r == image_check(data_len as nat, width, height),
{
    if width == 0 || height == 0 {
        return Err(OutputError::EmptyRegion);
    }
    let expected = width as usize * height as usize * 4;
    assert(expected == width * height * 4) by (nonlinear_arith)
        requires
            width * height * 4 <= usize::MAX,
            expected == width as usize * height as usize * 4,
    ;
    if data_len != expected {
        return Err(OutputError::PixelSizeMismatch);
    }
    Ok(())
}

/// Encodes a screenshot as PNG after checking its size: an image with pixels
/// and the right number of bytes is always encoded; an encoder failure would be
/// reported as `Encode`.
pub fn encode_screenshot_png(data: &[u8], width: u32, height: u32) -> (r: Result<Vec<u8>, OutputError>)
    requires
        width * height * 4 <= usize::MAX,
    ensures
        image_check(data@.len(), width, height) matches Err(e) ==> r == Err::<Vec<u8>, OutputError>(
            e,
        ),
        image_check(data@.len(), width, height) is Ok ==> (r matches Ok(bytes) && bytes@
            == png_rgba8(data@, width, height)),
{
    match check_image_buffer(data.len(), width, height) {
        Err(e) => {
            return Err(e);
        },
        Ok(()) => {},
    }
    match encode_png_rgba8(data, width, height) {
        Ok(bytes) => Ok(bytes),
        Err(_) => Err(OutputError::Encode),
    }
}

/// The file name of a screenshot taken at `millis` milliseconds after the epoch.
pub open spec fn screenshot_name(millis: nat) -> Seq<char> {
    "screenshot_"@ + decimal(millis) + ".png"@
}

/// The file name `screenshot_<millis>.png`.
pub fn screenshot_file_name(millis: u128) -> (name: String)
    ensures
        name@ == screenshot_name(millis as nat),
{
    let mut v: Vec<char> = Vec::new();
    push_str(&mut v, "screenshot_");
    push_decimal(&mut v, millis);
    push_str(&mut v, ".png");
    string_from_chars(v.as_slice())
}

/// `SystemTime::now`. Nothing is stated of the time it returns.
#[verifier::external_body]
fn system_time_now() -> SystemTime {
    SystemTime::now()
}

/// `SystemTime::duration_since(UNIX_EPOCH)`. Nothing is stated of the
/// duration, which depends on the clock.
#[verifier::external_body]
fn since_unix_epoch(t: &SystemTime) -> Result<Duration, SystemTimeError> {
    t.duration_since(UNIX_EPOCH)
}

/// `Duration::as_secs`: the whole seconds of the duration. Nothing is stated
/// of the count, since a `Duration` is opaque here.
#[verifier::external_body]
fn duration_secs(d: &Duration) -> u64 {
    d.as_secs()
}

/// `Duration::subsec_nanos`: the fractional part of the duration in
/// nanoseconds, which is always below one billion.
#[verifier::external_body]
fn duration_subsec_nanos(d: &Duration) -> (n: u32)
    ensures
        n < 1_000_000_000,
{
    d.subsec_nanos()
}

/// The whole milliseconds of an elapsed time given as seconds and
/// nanoseconds, or zero where there is none (`Duration::as_millis`).
pub open spec fn elapsed_millis(elapsed: Option<(u64, u32)>) -> nat {
    match elapsed {
        Some((secs, nanos)) => (secs * 1000 + nanos / 1_000_000) as nat,
        None => 0,
    }
}

/// The timestamp of an elapsed time since the epoch: its whole milliseconds,
/// or zero where the clock read earlier than the epoch (`None`).
pub fn millis_since_epoch(elapsed: Option<(u64, u32)>) -> (r: u128)
    ensures
        r == elapsed_millis(elapsed),
{
    match elapsed {
        Some((secs, nanos)) => secs as u128 * 1000 + (nanos / 1_000_000) as u128,
        None => 0,
    }
}

/// Milliseconds since the Unix epoch by the system clock, or zero when the
/// clock reads earlier than the epoch. The reading itself depends on the clock:
/// the result is `millis_since_epoch` of the seconds and nanoseconds read.
pub fn timestamp_millis() -> (r: u128)
    ensures
        exists|elapsed: Option<(u64, u32)>|
            #![trigger elapsed_millis(elapsed)]
            (elapsed matches Some((s, n)) ==> n < 1_000_000_000) && r == elapsed_millis(elapsed),
{
    let elapsed = match since_unix_epoch(&system_time_now()) {
        Ok(d) => Some((duration_secs(&d), duration_subsec_nanos(&d))),
        Err(_) => None,
    };
    let r = millis_since_epoch(elapsed);
    assert(elapsed matches Some((s, n)) ==> n < 1_000_000_000);
    assert(r == elapsed_millis(elapsed));
    r
}

/// Size of the bitmap header that precedes the clipboard's pixel rows.
pub const DIB_HEADER_SIZE: u32 = 40;

/// The header fields of a 24-bit bottom-up device-independent bitmap.
#[derive(Debug, Clone, Copy, PartialEq, Eq, Structural)]
pub struct DibHeader {
    pub size: u32,
    pub width: i32,
    pub height: i32,
    pub planes: u16,
    pub bit_count: u16,
    pub compression: u32,
    pub size_image: u32,
}

/// A bitmap for the clipboard: its header and its pixel rows.
#[derive(Debug, Clone)]
pub struct ClipboardDib {
    pub header: DibHeader,
    pub pixels: Vec<u8>,
}

/// Bytes per row of a 24-bit bitmap `width` pixels wide: three per pixel,
/// rounded up to a multiple of four.
pub open spec fn dib_stride(width: int) -> int {
    ((width * 3 + 3) / 4) * 4
}

/// The pixel rows of the bitmap: rows bottom-up, each pixel as blue, green, red,
/// each row padded with zeros to the stride.
pub open spec fn dib_rows(data: Seq<u8>, width: int, height: int) -> Seq<u8> {
    let stride = dib_stride(width);
    Seq::new(
        (stride * height) as nat,
        |i: int|
            {
                let row = i / stride;
                let col = i % stride;
                let y = height - 1 - row;
                if col < width * 3 {
                    data[(y * width + col / 3) * 4 + (2 - col % 3)]
                } else {
                    0u8
                }
            },
    )
}

/// The bitmap's arithmetic stays within `usize` and its header fields.
pub open spec fn dib_defined(width: u32, height: u32) -> bool {
    &&& width * height * 4 <= usize::MAX
    &&& width * 3 + 3 <= usize::MAX
    &&& dib_stride(width as int) * height + DIB_HEADER_SIZE <= usize::MAX
}

proof fn lemma_stride(x: usize)
    requires
        x + 3 <= usize::MAX,
    ensures
        ((x + 3) as usize) & !3usize == ((x + 3) / 4) * 4,
{
    let y = (x + 3) as usize;
    assert(y & !3usize == (y / 4) * 4) by (bit_vector);
}

/// The clipboard bitmap of an RGBA image, after the same checks as saving.
pub fn clipboard_dib(data: &[u8], width: u32, height: u32) -> (r: Result<ClipboardDib, OutputError>)
    requires
        dib_defined(width, height),
    ensures
        image_check(data@.len(), width, height) matches Err(e) ==> r == Err::<
            ClipboardDib,
            OutputError,
        >(e),
        image_check(data@.len(), width, height) is Ok ==> (r matches Ok(dib) && dib.header
            == DibHeader {
            size: DIB_HEADER_SIZE,
            width: width as i32,
            height: height as i32,
            planes: 1,
            bit_count: 24,
            compression: 0,
            size_image: (dib_stride(width as int) * height) as u32,
        } && dib.pixels@ == dib_rows(data@, width as int, height as int)),
{
    match check_image_buffer(data.len(), width, height) {
        Err(e) => {
            return Err(e);
        },
        Ok(()) => {},
    }
    let w = width as usize;
    let h = height as usize;
    let x3 = w * 3;
    proof {
        lemma_stride(x3);
    }
    let row_stride = (x3 + 3) & !3usize;
    let pixel_size = row_stride * h;
    let ghost target = dib_rows(data@, w as int, h as int);
    let mut pixels: Vec<u8> = Vec::with_capacity(pixel_size);
    let mut r: usize = 0;
    while r < h
        invariant
            r <= h,
            h == height,
            w == width,
            row_stride == dib_stride(w as int),
            pixel_size == row_stride * h,
            data@.len() == w * h * 4,
            target == dib_rows(data@, w as int, h as int),
            pixels@ == target.take(r * row_stride),
        decreases h - r,
    {
        let y = h - 1 - r;
        let mut x: usize = 0;
        while x < w
            invariant
                r < h,
                y == h - 1 - r,
                x <= w,
                h == height,
                w == width,
                row_stride == dib_stride(w as int),
                pixel_size == row_stride * h,
                data@.len() == w * h * 4,
                target == dib_rows(data@, w as int, h as int),
                pixels@ == target.take(r * row_stride + x * 3),
            decreases w - x,
        {
            assert((y * w + x) * 4 + 3 < w * h * 4) by (nonlinear_arith)
                requires
                    y < h,
                    x < w,
            ;
            let dlen = data.len();
            assert((y * w + x) * 4 + 3 < dlen);
            let src = (y * w + x) * 4;
            let ghost base = r * row_stride + x * 3;
            proof {
                assert(w * 3 <= row_stride);
                assert(base + 3 <= pixel_size) by (nonlinear_arith)
                    requires
                        base == r * row_stride + x * 3,
                        x < w,
                        w * 3 <= row_stride,
                        r < h,
                        pixel_size == row_stride * h,
                ;
                vstd::arithmetic::div_mod::lemma_fundamental_div_mod_converse(
                    base,
                    row_stride as int,
                    r as int,
                    x * 3,
                );
                vstd::arithmetic::div_mod::lemma_fundamental_div_mod_converse(
                    base + 1,
                    row_stride as int,
                    r as int,
                    x * 3 + 1,
                );
                vstd::arithmetic::div_mod::lemma_fundamental_div_mod_converse(
                    base + 2,
                    row_stride as int,
                    r as int,
                    x * 3 + 2,
                );
            }
            pixels.push(data[src + 2]);
            pixels.push(data[src + 1]);
            pixels.push(data[src]);
            proof {
                assert((x * 3 + 0) / 3 == x && (x * 3 + 0) % 3 == 0);
                assert((x * 3 + 1) / 3 == x && (x * 3 + 1) % 3 == 1);
                assert((x * 3 + 2) / 3 == x && (x * 3 + 2) % 3 == 2);
                assert(pixels@ =~= target.take(base + 3));
            }
            x = x + 1;
        }
        let mut k = w * 3;
        while k < row_stride
            invariant
                r < h,
                w * 3 <= k <= row_stride,
                h == height,
                w == width,
                row_stride == dib_stride(w as int),
                pixel_size == row_stride * h,
                data@.len() == w * h * 4,
                target == dib_rows(data@, w as int, h as int),
                pixels@ == target.take(r * row_stride + k),
            decreases row_stride - k,
        {
            proof {
                assert(r * row_stride + k < pixel_size) by (nonlinear_arith)
                    requires
                        k < row_stride,
                        r < h,
                        pixel_size == row_stride * h,
                ;
                vstd::arithmetic::div_mod::lemma_fundamental_div_mod_converse(
                    r * row_stride + k,
                    row_stride as int,
                    r as int,
                    k as int,
                );
            }
            pixels.push(0);
            assert(pixels@ =~= target.take(r * row_stride + k + 1));
            k = k + 1;
        }
        assert(r * row_stride + row_stride == (r + 1) * row_stride) by (nonlinear_arith);
        r = r + 1;
    }
    assert(target.take(h * row_stride) =~= target) by {
        assert(h * row_stride == row_stride * h) by (nonlinear_arith);
    }
    let header = DibHeader {
        size: DIB_HEADER_SIZE,
        width: #[verifier::truncate] (width as i32),
        height: #[verifier::truncate] (height as i32),
        planes: 1,
        bit_count: 24,
        compression: 0,
        size_image: #[verifier::truncate] (pixel_size as u32),
    };
    Ok(ClipboardDib { header, pixels })
}

} // verus!
