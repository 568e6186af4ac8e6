//! Screen capture bookkeeping: monitors, captured images, reading mapped frame
//! rows, and assembling a region from the monitors it spans.
use vstd::prelude::*;
use crate::geometry::{abs_int, fits_i32, intersect_rect, intersection, max_int, min_int, Rect};
use crate::render::{byte_in, lemma_byte_pixel, lemma_pixel_index};
use crate::text::{decimal, push_decimal, push_str, string_from_chars, chars_of};

verus! {

/// A monitor attached to the desktop.
#[derive(Debug, Clone)]
pub struct MonitorInfo {
    pub index: usize,
    pub name: String,
    pub width: u32,
    pub height: u32,
    pub x: i32,
    pub y: i32,
    pub is_primary: bool,
    pub adapter_index: usize,
    pub output_index: usize,
}

/// A captured image: RGBA pixels, row by row.
#[derive(Debug, Clone)]
pub struct CapturedImage {
    pub width: u32,
    pub height: u32,
    pub data: Vec<u8>,
    pub is_hdr_source: bool,
}

/// Why a region could not be captured.
#[derive(Debug, Clone, Copy, PartialEq, Eq, Structural)]
pub enum CaptureError {
    /// The region has no area.
    EmptyRegion,
    /// The region overlaps no monitor.
    NotOnAnyMonitor,
}

impl CaptureError {
    /// The message that tells the user why the region could not be captured.
    pub fn message(&self) -> (s: String)
        ensures
            s@ == (match self {
                CaptureError::EmptyRegion => "截图区域为空"@,
                CaptureError::NotOnAnyMonitor => "截图区域不在任何显示器内"@,
            }),
    {
        match self {
            CaptureError::EmptyRegion => String::from_str("截图区域为空"),
            CaptureError::NotOnAnyMonitor => String::from_str("截图区域不在任何显示器内"),
        }
    }
}

/// The pixel formats a desktop frame comes in.
#[derive(Debug, Clone, Copy, PartialEq, Eq, Structural)]
pub enum PixelFormat {
    /// 8-bit BGRA (`DXGI_FORMAT_B8G8R8A8_UNORM`).
    Bgra8,
    /// 16-bit float RGBA, the HDR format (`DXGI_FORMAT_R16G16B16A16_FLOAT`).
    Rgba16Float,
    /// 10-bit RGB with 2-bit alpha (`DXGI_FORMAT_R10G10B10A2_UNORM`).
    Rgb10A2,
    /// Any other format.
    Unsupported,
}

/// The format code of 8-bit BGRA frames.
pub const FORMAT_B8G8R8A8_UNORM: i32 = 87;

/// The format code of 16-bit float RGBA frames.
pub const FORMAT_R16G16B16A16_FLOAT: i32 = 10;

/// The format code of 10-bit RGB frames.
pub const FORMAT_R10G10B10A2_UNORM: i32 = 24;

/// Which reader a frame of the given format code needs.
pub fn pixel_format(code: i32) -> (f: PixelFormat)
    ensures
        code == FORMAT_B8G8R8A8_UNORM ==> f == PixelFormat::Bgra8,
        code == FORMAT_R16G16B16A16_FLOAT ==> f == PixelFormat::Rgba16Float,
        code == FORMAT_R10G10B10A2_UNORM ==> f == PixelFormat::Rgb10A2,
        code != FORMAT_B8G8R8A8_UNORM && code != FORMAT_R16G16B16A16_FLOAT && code
            != FORMAT_R10G10B10A2_UNORM ==> f == PixelFormat::Unsupported,
{
    if code == FORMAT_B8G8R8A8_UNORM {
        PixelFormat::Bgra8
    } else if code == FORMAT_R16G16B16A16_FLOAT {
        PixelFormat::Rgba16Float
    } else if code == FORMAT_R10G10B10A2_UNORM {
        PixelFormat::Rgb10A2
    } else {
        PixelFormat::Unsupported
    }
}

/// The kinds of pointer shape a desktop frame reports.
#[derive(Debug, Clone, Copy, PartialEq, Eq, Structural)]
pub enum CursorShape {
    Monochrome,
    Color,
    MaskedColor,
    Unknown,
}

/// The kind of pointer shape with the given type code (1, 2 or 4).
pub fn cursor_shape(code: u32) -> (s: CursorShape)
    ensures
        code == 1 ==> s == CursorShape::Monochrome,
        code == 2 ==> s == CursorShape::Color,
        code == 4 ==> s == CursorShape::MaskedColor,
        code != 1 && code != 2 && code != 4 ==> s == CursorShape::Unknown,
{
    if code == 2 {
        CursorShape::Color
    } else if code == 4 {
        CursorShape::MaskedColor
    } else if code == 1 {
        CursorShape::Monochrome
    } else {
        CursorShape::Unknown
    }
}

/// `DXGI_ERROR_WAIT_TIMEOUT`: no new desktop frame arrived in time.
pub const DXGI_ERROR_WAIT_TIMEOUT: i32 = -2005270489;

/// `DXGI_ERROR_ACCESS_LOST`: the desktop duplication was lost.
pub const DXGI_ERROR_ACCESS_LOST: i32 = -2005270490;

/// What came of one attempt to take a desktop frame.
#[derive(Debug, Clone, Copy, PartialEq, Eq, Structural)]
pub enum FrameAttempt {
    Acquired,
    TimedOut,
    AccessLost,
    Failed,
}

/// Classifies an attempt by whether it succeeded and its error code.
pub fn frame_attempt(ok: bool, code: i32) -> (a: FrameAttempt)
    ensures
        a == (if ok {
            FrameAttempt::Acquired
        } else if code == DXGI_ERROR_WAIT_TIMEOUT {
            FrameAttempt::TimedOut
        } else if code == DXGI_ERROR_ACCESS_LOST {
            FrameAttempt::AccessLost
        } else {
            FrameAttempt::Failed
        }),
{
    if ok {
        FrameAttempt::Acquired
    } else if code == DXGI_ERROR_WAIT_TIMEOUT {
        FrameAttempt::TimedOut
    } else if code == DXGI_ERROR_ACCESS_LOST {
        FrameAttempt::AccessLost
    } else {
        FrameAttempt::Failed
    }
}

/// The phases of taking a fresh frame: drop the frame buffered when the
/// duplication began, wait for a new one, then drain the backlog keeping the
/// newest.
#[derive(Debug, Clone, Copy, PartialEq, Eq, Structural)]
pub enum FramePhase {
    DropBuffered,
    Wait,
    Drain,
}

/// Why no fresh frame could be taken.
#[derive(Debug, Clone, Copy, PartialEq, Eq, Structural)]
pub enum FrameFailure {
    TimedOut,
    AccessLost,
    Failed,
}

impl FrameFailure {
    /// The message for the failure (for `Failed`, the system's error follows it).
    pub fn message(&self) -> (s: String)
        ensures
            s@ == (match self {
                FrameFailure::TimedOut => "获取桌面帧超时。请稍微移动鼠标或活动一下桌面后重试。"@,
                FrameFailure::AccessLost => "桌面复制通道丢失（可能切换了分辨率或显示器配置），请重试。"@,
                FrameFailure::Failed => "获取桌面帧失败"@,
            }),
    {
        match self {
            FrameFailure::TimedOut => String::from_str(
                "获取桌面帧超时。请稍微移动鼠标或活动一下桌面后重试。",
            ),
            FrameFailure::AccessLost => String::from_str(
                "桌面复制通道丢失（可能切换了分辨率或显示器配置），请重试。",
            ),
            FrameFailure::Failed => String::from_str("获取桌面帧失败"),
        }
    }
}

/// What to do after an attempt: release the frame taken, keep it as the
/// newest, and go on to a phase (`None`: stop), or fail.
#[derive(Debug, Clone, Copy, PartialEq, Eq, Structural)]
pub struct FrameStep {
    pub release: bool,
    pub keep: bool,
    pub next: Option<FramePhase>,
    pub failure: Option<FrameFailure>,
}

/// How long an attempt in `phase` waits for a frame, in milliseconds.
pub fn frame_timeout_ms(phase: FramePhase) -> (ms: u32)
    ensures
        ms == (if phase == FramePhase::Wait { 1000u32 } else { 0u32 }),
{
    match phase {
        FramePhase::Wait => 1000,
        _ => 0,
    }
}

pub open spec fn frame_step_spec(phase: FramePhase, attempt: FrameAttempt) -> FrameStep {
    let acquired = attempt == FrameAttempt::Acquired;
    match phase {
        FramePhase::DropBuffered => FrameStep {
            release: acquired,
            keep: false,
            next: Some(FramePhase::Wait),
            failure: None,
        },
        FramePhase::Wait => match attempt {
            FrameAttempt::Acquired => FrameStep {
                release: false,
                keep: true,
                next: Some(FramePhase::Drain),
                failure: None,
            },
            FrameAttempt::TimedOut => FrameStep {
                release: false,
                keep: false,
                next: None,
                failure: Some(FrameFailure::TimedOut),
            },
            FrameAttempt::AccessLost => FrameStep {
                release: false,
                keep: false,
                next: None,
                failure: Some(FrameFailure::AccessLost),
            },
            FrameAttempt::Failed => FrameStep {
                release: false,
                keep: false,
                next: None,
                failure: Some(FrameFailure::Failed),
            },
        },
        FramePhase::Drain => FrameStep {
            release: acquired,
            keep: acquired,
            next: if acquired { Some(FramePhase::Drain) } else { None },
            failure: None,
        },
    }
}

/// The decision after one attempt to take a frame: the buffered frame is
/// released and skipped, waiting fails on a timeout, a lost duplication or any
/// other error, and draining keeps (and releases) each newer frame until none
/// is left.
pub fn frame_step(phase: FramePhase, attempt: FrameAttempt) -> (s: FrameStep)
    ensures
        s == frame_step_spec(phase, attempt),
{
    let acquired = attempt == FrameAttempt::Acquired;
    match phase {
        FramePhase::DropBuffered => FrameStep {
            release: acquired,
            keep: false,
            next: Some(FramePhase::Wait),
            failure: None,
        },
        FramePhase::Wait => match attempt {
            FrameAttempt::Acquired => FrameStep {
                release: false,
                keep: true,
                next: Some(FramePhase::Drain),
                failure: None,
            },
            FrameAttempt::TimedOut => FrameStep {
                release: false,
                keep: false,
                next: None,
                failure: Some(FrameFailure::TimedOut),
            },
            FrameAttempt::AccessLost => FrameStep {
                release: false,
                keep: false,
                next: None,
                failure: Some(FrameFailure::AccessLost),
            },
            FrameAttempt::Failed => FrameStep {
                release: false,
                keep: false,
                next: None,
                failure: Some(FrameFailure::Failed),
            },
        },
        FramePhase::Drain => FrameStep {
            release: acquired,
            keep: acquired,
            next: if acquired { Some(FramePhase::Drain) } else { None },
            failure: None,
        },
    }
}

/// A UTF-16 unit that starts a surrogate pair.
pub open spec fn is_high_surrogate(u: u16) -> bool {
    0xD800 <= u <= 0xDBFF
}

/// A UTF-16 unit that ends a surrogate pair.
pub open spec fn is_low_surrogate(u: u16) -> bool {
    0xDC00 <= u <= 0xDFFF
}

/// UTF-16 decoding with replacement: a high surrogate followed by a low one is
/// one character, any other surrogate unit becomes U+FFFD, and every other
/// unit is the character of that value.
pub open spec fn utf16_lossy(units: Seq<u16>) -> Seq<char>
    decreases units.len(),
{
    if units.len() == 0 {
        seq![]
    } else if units.len() >= 2 && is_high_surrogate(units[0]) && is_low_surrogate(units[1]) {
        seq![
            (0x10000 + (units[0] - 0xD800) * 0x400 + (units[1] - 0xDC00)) as char,
        ] + utf16_lossy(units.skip(2))
    } else if 0xD800 <= units[0] <= 0xDFFF {
        seq!['\u{FFFD}'] + utf16_lossy(units.skip(1))
    } else {
        seq![units[0] as char] + utf16_lossy(units.skip(1))
    }
}

/// `String::from_utf16_lossy`: the text of the UTF-16 units, each unpaired
/// surrogate replaced by U+FFFD (see `utf16_lossy`).
#[verifier::external_body]
fn decode_utf16_lossy(units: &[u16]) -> (s: String)
    ensures
        s@ == utf16_lossy(units@),
{
    String::from_utf16_lossy(units)
}

/// `s` without its trailing NUL characters.
pub open spec fn trim_nuls(s: Seq<char>) -> Seq<char>
    decreases s.len(),
{
    if s.len() > 0 && s.last() == '\0' {
        trim_nuls(s.drop_last())
    } else {
        s
    }
}

/// The name a monitor is listed under when its device name is empty.
pub open spec fn fallback_monitor_name(index: nat) -> Seq<char> {
    "显示器 "@ + decimal(index)
}

/// The name of a monitor: its device name without trailing NULs, or a numbered
/// fallback when that is empty.
pub open spec fn monitor_name(device_name: Seq<u16>, index: nat) -> Seq<char> {
    let name = trim_nuls(utf16_lossy(device_name));
    if name.len() == 0 {
        fallback_monitor_name(index)
    } else {
        name
    }
}

/// The span between two edges, or zero where they are reversed.
pub open spec fn span(low: int, high: int) -> int {
    if high - low > 0 {
        high - low
    } else {
        0
    }
}

impl MonitorInfo {
    /// The monitor described by an output of the graphics adapters: its desktop
    /// rectangle, device name (UTF-16) and where it was enumerated.
    pub fn from_output(
        index: usize,
        desktop: Rect,
        device_name: &[u16],
        adapter_index: usize,
        output_index: usize,
    ) -> (m: MonitorInfo)
        requires
            fits_i32(desktop.right - desktop.left),
            fits_i32(desktop.bottom - desktop.top),
        ensures
            m.index == index,
            m.name@ == monitor_name(device_name@, index as nat),
            m.width == span(desktop.left as int, desktop.right as int),
            m.height == span(desktop.top as int, desktop.bottom as int),
            m.x == desktop.left,
            m.y == desktop.top,
            m.is_primary == (desktop.left == 0 && desktop.top == 0),
            m.adapter_index == adapter_index,
            m.output_index == output_index,
            m.rect_defined(),
    {
        let dw = desktop.right - desktop.left;
        let dh = desktop.bottom - desktop.top;
        let width = if dw > 0 { dw as u32 } else { 0 };
        let height = if dh > 0 { dh as u32 } else { 0 };
        let decoded = decode_utf16_lossy(device_name);
        let chars = chars_of(decoded.as_str());
        let mut end = chars.len();
        assert(chars@.take(end as int) =~= chars@);
        while end > 0 && chars[end - 1] == '\0'
            invariant
                end <= chars@.len(),
                chars@ == utf16_lossy(device_name@),
                trim_nuls(chars@) == trim_nuls(chars@.take(end as int)),
            decreases end,
        {
            assert(chars@.take(end as int).drop_last() =~= chars@.take(end - 1));
            end = end - 1;
        }
        let name = if end == 0 {
            let mut v: Vec<char> = Vec::new();
            push_str(&mut v, "显示器 ");
            push_decimal(&mut v, index as u128);
            string_from_chars(v.as_slice())
        } else {
            let mut v: Vec<char> = Vec::new();
            let mut k: usize = 0;
            while k < end
                invariant
                    k <= end <= chars@.len(),
                    v@ == chars@.take(k as int),
                decreases end - k,
            {
                v.push(chars[k]);
                assert(chars@.take(k + 1) =~= chars@.take(k as int).push(chars@[k as int]));
                k = k + 1;
            }
            string_from_chars(v.as_slice())
        };
        MonitorInfo {
            index,
            name,
            width,
            height,
            x: desktop.left,
            y: desktop.top,
            is_primary: desktop.left == 0 && desktop.top == 0,
            adapter_index,
            output_index,
        }
    }

    /// The monitor's rectangle on the desktop.
    pub open spec fn desktop_rect(&self) -> Rect {
        Rect {
            left: self.x,
            top: self.y,
            right: (self.x + (self.width as i32)) as i32,
            bottom: (self.y + (self.height as i32)) as i32,
        }
    }

    /// The monitor's rectangle can be computed in `i32`.
    pub open spec fn rect_defined(&self) -> bool {
        fits_i32(self.x + (self.width as i32)) && fits_i32(self.y + (self.height as i32))
    }

    /// The monitor's rectangle on the desktop.
    pub fn rect(&self) -> (r: Rect)
        requires
            self.rect_defined(),
        ensures
            r == self.desktop_rect(),
    {
        Rect {
            left: self.x,
            top: self.y,
            right: self.x + #[verifier::truncate] (self.width as i32),
            bottom: self.y + #[verifier::truncate] (self.height as i32),
        }
    }
}

/// The byte of RGBA output `i` reads from a frame row: red from offset 2,
/// green from 1, blue from 0, alpha from 3 of the BGRA source pixel.
pub open spec fn bgra_source_offset(k: int) -> int {
    if k == 0 {
        2
    } else if k == 1 {
        1
    } else if k == 2 {
        0
    } else {
        3
    }
}

/// The RGBA pixels of a BGRA frame of `width` x `height` pixels whose rows
/// start `row_pitch` bytes apart.
pub open spec fn rgba_from_rows(src: Seq<u8>, row_pitch: int, width: int, height: int) -> Seq<u8> {
    Seq::new(
        (width * height * 4) as nat,
        |i: int|
            src[((i / 4) / width) * row_pitch + ((i / 4) % width) * 4 + bgra_source_offset(
                i % 4,
            )],
    )
}

/// Every byte the reader takes lies in the source, and the output size fits in `u32`.
pub open spec fn rows_defined(len: nat, row_pitch: usize, width: u32, height: u32) -> bool {
    &&& width * height * 4 <= u32::MAX
    &&& height > 0 ==> (height - 1) * row_pitch <= usize::MAX
    &&& width > 0 && height > 0 ==> (height - 1) * row_pitch + (width - 1) * 4 + 3 < len
}

/// Reads a BGRA frame whose rows start `row_pitch` bytes apart into packed RGBA.
pub fn read_bgra8(src: &[u8], row_pitch: usize, width: u32, height: u32) -> (data: Vec<u8>)
    requires
        rows_defined(src@.len(), row_pitch, width, height),
    ensures
        data@ == rgba_from_rows(src@, row_pitch as int, width as int, height as int),
{
    let ghost target = rgba_from_rows(src@, row_pitch as int, width as int, height as int);
    let mut data: Vec<u8> = Vec::with_capacity((width * height * 4) as usize);
    let mut y: usize = 0;
    while y < height as usize
        invariant
            y <= height,
            rows_defined(src@.len(), row_pitch, width, height),
            target == rgba_from_rows(src@, row_pitch as int, width as int, height as int),
            data@ == target.take(y * width * 4),
        decreases height - y,
    {
        assert(y * row_pitch <= (height - 1) * row_pitch) by (nonlinear_arith)
            requires
                y < height,
                0 <= row_pitch,
        ;
        let row_start = y * row_pitch;
        let mut x: usize = 0;
        while x < width as usize
            invariant
                y < height,
                x <= width,
                rows_defined(src@.len(), row_pitch, width, height),
                target == rgba_from_rows(src@, row_pitch as int, width as int, height as int),
                row_start == y * row_pitch,
                data@ == target.take((y * width + x) * 4),
            decreases width - x,
        {
            assert(y * row_pitch + x * 4 + 3 < src@.len()) by (nonlinear_arith)
                requires
                    y < height,
                    x < width,
                    (height - 1) * row_pitch + (width - 1) * 4 + 3 < src@.len(),
                    0 <= row_pitch,
            ;
            let src_len = src.len();
            assert(y * row_pitch + x * 4 + 3 < src_len);
            let p = row_start + x * 4;
            let ghost base = (y * width + x) * 4;
            proof {
                lemma_pixel_index(width as int, x as int, y as int, 0);
                lemma_pixel_index(width as int, x as int, y as int, 1);
                lemma_pixel_index(width as int, x as int, y as int, 2);
                lemma_pixel_index(width as int, x as int, y as int, 3);
                assert(base + 4 <= width * height * 4) by (nonlinear_arith)
                    requires
                        y < height,
                        x < width,
                        base == (y * width + x) * 4,
                ;
            }
            data.push(src[p + 2]);
            data.push(src[p + 1]);
            data.push(src[p]);
            data.push(src[p + 3]);
            assert(data@ =~= target.take(base + 4));
            x = x + 1;
        }
        assert((y * width + width) * 4 == (y + 1) * width * 4) by (nonlinear_arith);
        y = y + 1;
    }
    assert(height * width * 4 == width * height * 4) by (nonlinear_arith);
    assert(target.take(height * width * 4) =~= target);
    data
}

/// A desktop region being assembled from the captures of the monitors it spans.
#[derive(Debug)]
pub struct RegionCanvas {
    pub region: Rect,
    pub width: u32,
    pub height: u32,
    pub data: Vec<u8>,
    pub touched: bool,
    pub hdr: bool,
}

/// The size of the region is computed without overflow, and its pixel buffer
/// fits in memory.
pub open spec fn region_defined(rect: Rect) -> bool {
    let n = rect.normalized();
    &&& fits_i32(n.right - n.left)
    &&& fits_i32(n.bottom - n.top)
    &&& (n.right - n.left) * (n.bottom - n.top) * 4 <= usize::MAX
}

/// The pixel of canvas byte `i` lies in `rect` (in canvas pixel coordinates),
/// and the byte takes the value `target[i]`; bytes of pixels before row `y`,
/// or in row `y` before column `x`, have been updated.
pub open spec fn updated_before(old: Seq<u8>, target: Seq<u8>, w: int, rect: Rect, y: int, x: int) -> Seq<u8> {
    Seq::new(
        old.len(),
        |i: int|
            if byte_in(i, w, rect) && ((i / 4) / w < y || ((i / 4) / w == y && (i / 4) % w < x)) {
                target[i]
            } else {
                old[i]
            },
    )
}

/// The bytes of the pixels in `rect` taken from `target`, the others kept.
pub open spec fn updated_in(old: Seq<u8>, target: Seq<u8>, w: int, rect: Rect) -> Seq<u8> {
    Seq::new(old.len(), |i: int| if byte_in(i, w, rect) { target[i] } else { old[i] })
}

proof fn lemma_update_step(
    old: Seq<u8>,
    target: Seq<u8>,
    cur: Seq<u8>,
    next: Seq<u8>,
    w: int,
    rect: Rect,
    y: int,
    x: int,
)
    requires
        0 < w,
        0 <= rect.left <= x < rect.right <= w,
        0 <= rect.top <= y < rect.bottom,
        cur == updated_before(old, target, w, rect, y, x),
        (y * w + x) * 4 + 3 < old.len(),
        next.len() == old.len(),
        forall|j: int|
            (y * w + x) * 4 <= j < (y * w + x) * 4 + 4 ==> #[trigger] next[j] == target[j],
        forall|j: int|
            0 <= j < old.len() && !((y * w + x) * 4 <= j < (y * w + x) * 4 + 4) ==> next[j]
                == cur[j],
    ensures
        next == updated_before(old, target, w, rect, y, x + 1),
{
    let goal = updated_before(old, target, w, rect, y, x + 1);
    let p = y * w + x;
    assert forall|j: int| 0 <= j < old.len() implies next[j] == goal[j] by {
        lemma_byte_pixel(j, w);
        if p * 4 <= j < p * 4 + 4 {
            let k = j - p * 4;
            lemma_pixel_index(w, x, y, k);
            assert(j == p * 4 + k);
        } else {
            let row = (j / 4) / w;
            let col = (j / 4) % w;
            if row == y && col == x {
                assert(w * y == y * w) by (nonlinear_arith);
                assert(j / 4 == p);
                assert(false);
            }
        }
    }
    assert(next =~= goal);
}

/// The value a pasted canvas byte takes: the byte of the same channel of the
/// source pixel, offset by the paste's origins.
pub open spec fn pasted_target(
    len: nat,
    w: int,
    dst_x: int,
    dst_y: int,
    src: Seq<u8>,
    src_width: int,
    src_x: int,
    src_y: int,
) -> Seq<u8> {
    Seq::new(
        len,
        |i: int|
            src[(((i / 4) / w - dst_y + src_y) * src_width + ((i / 4) % w - dst_x + src_x)) * 4 + i
                % 4],
    )
}

impl RegionCanvas {
    /// The canvas covers its region with a zero-initialised buffer of the right size.
    pub open spec fn wf(&self) -> bool {
        &&& self.region.is_normalized()
        &&& fits_i32(self.region.right - self.region.left)
        &&& fits_i32(self.region.bottom - self.region.top)
        &&& self.width == self.region.right - self.region.left
        &&& self.height == self.region.bottom - self.region.top
        &&& self.data@.len() == self.width * self.height * 4
    }

    /// Starts assembling the region `rect` (normalized); a region without area
    /// is an error.
    pub fn new(rect: Rect) -> (r: Result<RegionCanvas, CaptureError>)
        requires
            region_defined(rect),
        ensures
            ({
                let n = rect.normalized();
                if n.right == n.left || n.bottom == n.top {
                    r == Err::<RegionCanvas, CaptureError>(CaptureError::EmptyRegion)
                } else {
                    r matches Ok(c) && c.wf() && c.region == n && c.data@ == Seq::new(
                        c.data@.len(),
                        |i: int| 0u8,
                    ) && !c.touched && !c.hdr
                }
            }),
    {
        let left = if rect.left <= rect.right { rect.left } else { rect.right };
        let top = if rect.top <= rect.bottom { rect.top } else { rect.bottom };
        let right = if rect.left >= rect.right { rect.left } else { rect.right };
        let bottom = if rect.top >= rect.bottom { rect.top } else { rect.bottom };
        let dw = right - left;
        let dh = bottom - top;
        let width: u32 = if dw > 0 { dw as u32 } else { 0 };
        let height: u32 = if dh > 0 { dh as u32 } else { 0 };
        if width == 0 || height == 0 {
            return Err(CaptureError::EmptyRegion);
        }
        let size = (width as usize * height as usize) * 4;
        let mut data: Vec<u8> = Vec::with_capacity(size);
        let mut i: usize = 0;
        while i < size
            invariant
                i <= size,
                data@ == Seq::new(i as nat, |k: int| 0u8),
            decreases size - i,
        {
            data.push(0);
            assert(data@ =~= Seq::new((i + 1) as nat, |k: int| 0u8));
            i = i + 1;
        }
        Ok(
            RegionCanvas {
                region: Rect { left, top, right, bottom },
                width,
                height,
                data,
                touched: false,
                hdr: false,
            },
        )
    }

    /// The part of the region that `monitor` shows, if any.
    pub fn overlap(&self, monitor: &MonitorInfo) -> (r: Option<Rect>)
        requires
            monitor.rect_defined(),
        ensures
            r == intersection(self.region, monitor.desktop_rect()),
    {
        intersect_rect(self.region, monitor.rect())
    }

    /// Every byte that pasting `overlap` from `image` reads lies in the image.
    pub open spec fn paste_defined(&self, monitor: &MonitorInfo, overlap: Rect, image: &CapturedImage) -> bool {
        let src_x = overlap.left - monitor.x;
        let src_y = overlap.top - monitor.y;
        let copy_w = overlap.right - overlap.left;
        let copy_h = overlap.bottom - overlap.top;
        ((src_y + copy_h - 1) * image.width + src_x + copy_w) * 4 <= image.data@.len()
    }

    /// Whether every byte that pasting `overlap` from `image` reads lies in the
    /// image (see `paste_defined`).
    pub fn can_paste(&self, monitor: &MonitorInfo, overlap: Rect, image: &CapturedImage) -> (b: bool)
        ensures
            b == self.paste_defined(monitor, overlap, image),
    {
        let src_x = overlap.left as i128 - monitor.x as i128;
        let src_y = overlap.top as i128 - monitor.y as i128;
        let copy_w = overlap.right as i128 - overlap.left as i128;
        let copy_h = overlap.bottom as i128 - overlap.top as i128;
        let row = src_y + copy_h - 1;
        let iw = image.width as i128;
        assert(-(0x4_0000_0000 * 0x1_0000_0000) <= row * iw <= 0x4_0000_0000 * 0x1_0000_0000)
            by (nonlinear_arith)
            requires
                -0x4_0000_0000 <= row <= 0x4_0000_0000,
                0 <= iw <= 0x1_0000_0000,
        ;
        (row * iw + src_x + copy_w) * 4 <= image.data.len() as i128
    }

    /// The canvas bytes after pasting the `overlap` part of `image`, the capture
    /// of `monitor`.
    pub open spec fn pasted(&self, monitor: &MonitorInfo, overlap: Rect, image: &CapturedImage) -> Seq<u8> {
        let dst_x = overlap.left - self.region.left;
        let dst_y = overlap.top - self.region.top;
        let dst = rect_of_ints(
            dst_x,
            dst_y,
            overlap.right - self.region.left,
            overlap.bottom - self.region.top,
        );
        updated_in(
            self.data@,
            pasted_target(
                self.data@.len(),
                self.width as int,
                dst_x,
                dst_y,
                image.data@,
                image.width as int,
                overlap.left - monitor.x,
                overlap.top - monitor.y,
            ),
            self.width as int,
            dst,
        )
    }

    /// Copies the part `overlap` of the region from `image`, the capture of
    /// `monitor`, into the canvas.
    pub fn paste(&mut self, monitor: &MonitorInfo, overlap: Rect, image: &CapturedImage)
        requires
            old(self).wf(),
            monitor.rect_defined(),
            intersection(old(self).region, monitor.desktop_rect()) == Some(overlap),
            old(self).paste_defined(monitor, overlap, image),
        ensures
            final(self).wf(),
            final(self).region == old(self).region,
            final(self).data@ == old(self).pasted(monitor, overlap, image),
            final(self).touched,
            final(self).hdr == (old(self).hdr || image.is_hdr_source),
    {
        let ghost old_data = self.data@;
        let ghost target = self.pasted(monitor, overlap, image);
        let ghost old_region = self.region;
        let ghost old_hdr = self.hdr;
        assert(overlap.left >= self.region.left && overlap.right <= self.region.right);
        assert(overlap.top >= self.region.top && overlap.bottom <= self.region.bottom);
        assert(overlap.left >= monitor.x && overlap.top >= monitor.y);
        assert(overlap.left < overlap.right && overlap.top < overlap.bottom);
        let w = self.width as usize;
        let copy_w = (overlap.right - overlap.left) as usize;
        let copy_h = (overlap.bottom - overlap.top) as usize;
        let src_x = (overlap.left - monitor.x) as usize;
        let src_y = (overlap.top - monitor.y) as usize;
        let dst_x = (overlap.left - self.region.left) as usize;
        let dst_y = (overlap.top - self.region.top) as usize;
        let iw = image.width as usize;
        let ghost full = pasted_target(
            old_data.len(),
            w as int,
            dst_x as int,
            dst_y as int,
            image.data@,
            iw as int,
            src_x as int,
            src_y as int,
        );
        let ghost dst = rect_of_ints(
            dst_x as int,
            dst_y as int,
            dst_x + copy_w,
            dst_y + copy_h,
        );
        assert(dst.left == dst_x && dst.top == dst_y && dst.right == dst_x + copy_w && dst.bottom
            == dst_y + copy_h);
        assert(self.data@ =~= updated_before(
            old_data,
            full,
            w as int,
            dst,
            dst_y as int,
            dst_x as int,
        ));
        let mut row: usize = 0;
        while row < copy_h
            invariant
                row <= copy_h,
                self.region == old_region,
                self.hdr == old_hdr,
                dst.left == dst_x && dst.top == dst_y && dst.right == dst_x + copy_w && dst.bottom
                    == dst_y + copy_h,
                full == pasted_target(
                    old_data.len(),
                    w as int,
                    dst_x as int,
                    dst_y as int,
                    image.data@,
                    iw as int,
                    src_x as int,
                    src_y as int,
                ),
                iw == image.width,
                src_y <= i32::MAX,
                src_x <= i32::MAX,
                copy_h <= i32::MAX,
                copy_w <= i32::MAX,
                self.wf(),
                self.data@.len() == old_data.len(),
                w == self.width,
                0 < copy_w,
                dst_x + copy_w <= w,
                dst_y + copy_h <= self.height,
                ((src_y + copy_h - 1) * iw + src_x + copy_w) * 4 <= image.data@.len(),
                dst == rect_of_ints(dst_x as int, dst_y as int, dst_x + copy_w, dst_y + copy_h),
                self.data@ == updated_before(
                    old_data,
                    full,
                    w as int,
                    dst,
                    dst_y + row,
                    dst_x as int,
                ),
            decreases copy_h - row,
        {
            let mut col: usize = 0;
            while col < copy_w
                invariant
                    row < copy_h,
                    col <= copy_w,
                self.region == old_region,
                self.hdr == old_hdr,
                dst.left == dst_x && dst.top == dst_y && dst.right == dst_x + copy_w && dst.bottom
                    == dst_y + copy_h,
                full == pasted_target(
                    old_data.len(),
                    w as int,
                    dst_x as int,
                    dst_y as int,
                    image.data@,
                    iw as int,
                    src_x as int,
                    src_y as int,
                ),
                iw == image.width,
                src_y <= i32::MAX,
                src_x <= i32::MAX,
                copy_h <= i32::MAX,
                copy_w <= i32::MAX,
                    self.wf(),
                    self.data@.len() == old_data.len(),
                    w == self.width,
                    dst_x + copy_w <= w,
                    dst_y + copy_h <= self.height,
                    ((src_y + copy_h - 1) * iw + src_x + copy_w) * 4 <= image.data@.len(),
                    dst == rect_of_ints(
                        dst_x as int,
                        dst_y as int,
                        dst_x + copy_w,
                        dst_y + copy_h,
                    ),
                    self.data@ == updated_before(
                        old_data,
                        full,
                        w as int,
                        dst,
                        dst_y + row,
                        dst_x + col,
                    ),
                decreases copy_w - col,
            {
                let y = dst_y + row;
                let x = dst_x + col;
                assert((y * w + x) * 4 + 3 < old_data.len()) by (nonlinear_arith)
                    requires
                        y < self.height,
                        x < w,
                        old_data.len() == w * self.height * 4,
                ;
                assert(((src_y + row) * iw + src_x + col) * 4 + 3 < image.data@.len())
                    by (nonlinear_arith)
                    requires
                        row < copy_h,
                        col < copy_w,
                        ((src_y + copy_h - 1) * iw + src_x + copy_w) * 4 <= image.data@.len(),
                        0 <= iw,
                ;
                let len = self.data.len();
                let ilen = image.data.len();
                assert((src_y + row) * iw <= usize::MAX);
                let d = (y * w + x) * 4;
                let s = ((src_y + row) * iw + src_x + col) * 4;
                let ghost cur = self.data@;
                self.data.set(d, image.data[s]);
                self.data.set(d + 1, image.data[s + 1]);
                self.data.set(d + 2, image.data[s + 2]);
                self.data.set(d + 3, image.data[s + 3]);
                proof {
                    assert forall|j: int| d <= j < d + 4 implies #[trigger] self.data@[j]
                        == full[j] by {
                        let k = j - d;
                        lemma_pixel_index(w as int, x as int, y as int, k);
                        assert(j / 4 / (w as int) == y);
                        assert(j / 4 % (w as int) == x);
                        assert(j % 4 == k);
                        assert(((y - dst_y + src_y) * iw + (x - dst_x + src_x)) * 4 + k == s + k);
                        assert(self.data@[j] == image.data@[s + k]);
                    }
                    lemma_update_step(
                        old_data,
                        full,
                        cur,
                        self.data@,
                        w as int,
                        dst,
                        y as int,
                        x as int,
                    );
                }
                col = col + 1;
            }
            proof {
                let cur = self.data@;
                let next = updated_before(
                    old_data,
                    full,
                    w as int,
                    dst,
                    dst_y + row + 1,
                    dst_x as int,
                );
                assert forall|j: int| 0 <= j < old_data.len() implies cur[j] == next[j] by {
                    lemma_byte_pixel(j, w as int);
                }
                assert(cur =~= next);
            }
            row = row + 1;
        }
        proof {
            let cur = self.data@;
            assert forall|j: int| 0 <= j < old_data.len() implies cur[j] == target[j] by {
                lemma_byte_pixel(j, w as int);
            }
            assert(cur =~= target);
        }
        self.hdr = self.hdr || image.is_hdr_source;
        self.touched = true;
    }

    /// The assembled image, or an error when no monitor showed any of the region.
    pub fn finish(self) -> (r: Result<CapturedImage, CaptureError>)
        ensures
            !self.touched ==> r == Err::<CapturedImage, CaptureError>(
                CaptureError::NotOnAnyMonitor,
            ),
            self.touched ==> (r matches Ok(img) && img.width == self.width && img.height
                == self.height && img.data@ == self.data@ && img.is_hdr_source == self.hdr),
    {
        if !self.touched {
            return Err(CaptureError::NotOnAnyMonitor);
        }
        Ok(
            CapturedImage {
                width: self.width,
                height: self.height,
                data: self.data,
                is_hdr_source: self.hdr,
            },
        )
    }
}

/// Pasting a monitor's capture puts each of its pixels at its place on the
/// desktop: the canvas pixel at desktop position `(x, y)` takes, where the
/// monitor shows that position, the bytes of the image pixel at
/// `(x - monitor.x, y - monitor.y)`, and keeps its bytes elsewhere.
pub proof fn lemma_paste_places_pixels(
    c: RegionCanvas,
    monitor: MonitorInfo,
    overlap: Rect,
    image: CapturedImage,
    x: int,
    y: int,
    k: int,
)
    requires
        c.wf(),
        monitor.rect_defined(),
        intersection(c.region, monitor.desktop_rect()) == Some(overlap),
        c.region.covers_pixel(x, y),
        0 <= k < 4,
    ensures
        ({
            let i = ((y - c.region.top) * c.width + (x - c.region.left)) * 4 + k;
            &&& 0 <= i < c.data@.len()
            &&& overlap.covers_pixel(x, y) ==> c.pasted(&monitor, overlap, &image)[i]
                == image.data@[((y - monitor.y) * image.width + (x - monitor.x)) * 4 + k]
            &&& !overlap.covers_pixel(x, y) ==> c.pasted(&monitor, overlap, &image)[i]
                == c.data@[i]
        }),
{
    let w = c.width as int;
    let h = c.height as int;
    let cx = x - c.region.left;
    let cy = y - c.region.top;
    let i = (cy * w + cx) * 4 + k;
    lemma_pixel_index(w, cx, cy, k);
    assert(cy * w + cx < w * h) by (nonlinear_arith)
        requires
            0 <= cx < w,
            0 <= cy < h,
    ;
    assert(i < c.data@.len());
    let dst_x = overlap.left - c.region.left;
    let dst_y = overlap.top - c.region.top;
    let dst = rect_of_ints(
        dst_x,
        dst_y,
        overlap.right - c.region.left,
        overlap.bottom - c.region.top,
    );
    assert(dst.left == dst_x && dst.top == dst_y);
    assert(dst.right == overlap.right - c.region.left);
    assert(dst.bottom == overlap.bottom - c.region.top);
    assert(byte_in(i, w, dst) == overlap.covers_pixel(x, y));
}

/// A region given by its corners in either order is the same region: swapping
/// the corners leaves the normalized rectangle, and so everything that
/// `RegionCanvas::new` depends on, unchanged; the region is as wide and as high
/// as the distances between its edges.
pub proof fn lemma_region_corner_order(rect: Rect)
    ensures
        ({
            let swapped = Rect {
                left: rect.right,
                top: rect.bottom,
                right: rect.left,
                bottom: rect.top,
            };
            &&& swapped.normalized() == rect.normalized()
            &&& region_defined(swapped) == region_defined(rect)
            &&& rect.normalized().right - rect.normalized().left == abs_int(
                rect.right - rect.left,
            )
            &&& rect.normalized().bottom - rect.normalized().top == abs_int(
                rect.bottom - rect.top,
            )
        }),
{
}

pub open spec fn rect_of_ints(left: int, top: int, right: int, bottom: int) -> Rect {
    Rect { left: left as i32, top: top as i32, right: right as i32, bottom: bottom as i32 }
}

/// Where a pointer shape is drawn: the image and shape sizes and the shape's
/// top-left position in the image.
#[derive(Debug, Clone, Copy, PartialEq, Eq, Structural)]
pub struct CursorPlacement {
    pub img_w: u32,
    pub img_h: u32,
    pub cursor_w: u32,
    pub cursor_h: u32,
    pub pos_x: i32,
    pub pos_y: i32,
}

impl CursorPlacement {
    /// Shape columns drawn: the shape width read as `i32` (none if that is negative).
    pub open spec fn cols(self) -> int {
        (self.cursor_w as i32) as int
    }

    /// Shape rows drawn.
    pub open spec fn rows(self) -> int {
        (self.cursor_h as i32) as int
    }

    /// Bytes per row of each of the shape's two masks.
    pub open spec fn row_bytes(self) -> int {
        (self.cursor_w + 7) / 8
    }

    /// Size of one mask (the AND mask comes first, the XOR mask after it).
    pub open spec fn half_size(self) -> int {
        self.row_bytes() * self.cursor_h
    }

    /// Shape pixel `(cx, cy)` falls inside the image.
    pub open spec fn visible(self, cx: int, cy: int) -> bool {
        let px = self.pos_x + cx;
        let py = self.pos_y + cy;
        0 <= px < (self.img_w as i32) as int && 0 <= py < (self.img_h as i32) as int
    }

    /// Offset of the image pixel under shape pixel `(cx, cy)`.
    pub open spec fn image_index(self, cx: int, cy: int) -> int {
        ((self.pos_y + cy) * self.img_w + (self.pos_x + cx)) * 4
    }

    /// Offset of the mask byte of shape pixel `(cx, cy)`.
    pub open spec fn mask_index(self, cx: int, cy: int) -> int {
        cy * self.row_bytes() + cx / 8
    }
}

/// The bit of shape column `cx` within its mask byte.
pub open spec fn mask_bit(cx: int) -> u8 {
    0x80u8 >> ((cx % 8) as u8)
}

/// The AND-mask bit of shape pixel `(cx, cy)`.
pub open spec fn and_bit(c: CursorPlacement, buf: Seq<u8>, cx: int, cy: int) -> bool {
    c.mask_index(cx, cy) < c.half_size() && buf[c.mask_index(cx, cy)] & mask_bit(cx) != 0
}

/// The XOR-mask bit of shape pixel `(cx, cy)`.
pub open spec fn xor_bit(c: CursorPlacement, buf: Seq<u8>, cx: int, cy: int) -> bool {
    c.mask_index(cx, cy) + c.half_size() < buf.len() && buf[c.mask_index(cx, cy)
        + c.half_size()] & mask_bit(cx) != 0
}

/// A monochrome pointer pixel over an RGBA byte: clear AND and XOR bits paint
/// opaque black, a set XOR bit alone paints opaque white, a set AND bit alone
/// inverts the colour (keeping alpha), and both set leave the byte.
pub open spec fn mono_byte(old: u8, channel: int, and_on: bool, xor_on: bool) -> u8 {
    if !and_on && !xor_on {
        if channel == 3 {
            255u8
        } else {
            0u8
        }
    } else if !and_on && xor_on {
        255u8
    } else if and_on && !xor_on {
        if channel == 3 {
            old
        } else {
            (255 - old) as u8
        }
    } else {
        old
    }
}

/// The shape pixel over image byte `i`, when the shape is drawn there: the byte
/// lies in a whole pixel of the buffer, inside the image, under the shape.
pub open spec fn shape_pixel_at(c: CursorPlacement, len: int, i: int) -> Option<(int, int)> {
    if c.img_w == 0 {
        None
    } else {
        let p = i / 4;
        let cx = (p % c.img_w as int) - c.pos_x;
        let cy = (p / c.img_w as int) - c.pos_y;
        if 0 <= cx < c.cols() && 0 <= cy < c.rows() && c.visible(cx, cy) && p * 4 + 3 < len {
            Some((cx, cy))
        } else {
            None
        }
    }
}

/// The image bytes with the monochrome pointer shape drawn over them.
pub open spec fn mono_drawn(c: CursorPlacement, old: Seq<u8>, buf: Seq<u8>) -> Seq<u8> {
    Seq::new(
        old.len(),
        |i: int|
            match shape_pixel_at(c, old.len() as int, i) {
                Some((cx, cy)) => mono_byte(
                    old[i],
                    i % 4,
                    and_bit(c, buf, cx, cy),
                    xor_bit(c, buf, cx, cy),
                ),
                None => old[i],
            },
    )
}

/// The shape pixels up to row `y`, column `x` (exclusive) drawn.
pub open spec fn mono_drawn_before(c: CursorPlacement, old: Seq<u8>, buf: Seq<u8>, y: int, x: int) -> Seq<u8> {
    Seq::new(
        old.len(),
        |i: int|
            match shape_pixel_at(c, old.len() as int, i) {
                Some((cx, cy)) => if cy < y || (cy == y && cx < x) {
                    mono_byte(old[i], i % 4, and_bit(c, buf, cx, cy), xor_bit(c, buf, cx, cy))
                } else {
                    old[i]
                },
                None => old[i],
            },
    )
}

/// Drawing the monochrome shape stays within every integer type it computes in
/// and reads only mask bytes in the buffer.
pub open spec fn mono_defined(c: CursorPlacement, len: nat, buf_len: nat) -> bool {
    &&& c.cursor_w + 7 <= u32::MAX
    &&& c.row_bytes() * c.cursor_h <= u32::MAX
    &&& c.cols() > 0 && c.rows() > 0 ==> fits_i32(c.pos_x + c.cols() - 1) && fits_i32(
        c.pos_y + c.rows() - 1,
    )
    &&& forall|cx: int, cy: int|
        0 <= cx < c.cols() && 0 <= cy < c.rows() && #[trigger] c.visible(cx, cy) ==> {
            &&& c.image_index(cx, cy) <= u32::MAX
            &&& c.image_index(cx, cy) + 3 <= usize::MAX
            &&& c.image_index(cx, cy) + 3 < len ==> c.mask_index(cx, cy) < buf_len
                && c.mask_index(cx, cy) + c.half_size() <= usize::MAX
        }
}

proof fn lemma_shape_pixel_of_index(c: CursorPlacement, len: int, cx: int, cy: int, k: int)
    requires
        0 <= cx < c.cols(),
        0 <= cy < c.rows(),
        c.visible(cx, cy),
        c.image_index(cx, cy) + 3 < len,
        0 <= k < 4,
    ensures
        shape_pixel_at(c, len, c.image_index(cx, cy) + k) == Some((cx, cy)),
        (c.image_index(cx, cy) + k) % 4 == k,
{
    let iw = c.img_w;
    assert((iw as i32) >= 0 ==> (iw as i32) as int == iw as int) by (bit_vector);
    lemma_pixel_index(c.img_w as int, c.pos_x + cx, c.pos_y + cy, k);
}

proof fn lemma_mono_step(
    c: CursorPlacement,
    old: Seq<u8>,
    buf: Seq<u8>,
    cur: Seq<u8>,
    next: Seq<u8>,
    cx: int,
    cy: int,
)
    requires
        0 <= cx < c.cols(),
        0 <= cy < c.rows(),
        cur == mono_drawn_before(c, old, buf, cy, cx),
        next.len() == old.len(),
        c.visible(cx, cy) && c.image_index(cx, cy) + 3 < old.len() ==> forall|j: int|
            c.image_index(cx, cy) <= j < c.image_index(cx, cy) + 4 ==> #[trigger] next[j]
                == mono_byte(old[j], j % 4, and_bit(c, buf, cx, cy), xor_bit(c, buf, cx, cy)),
        forall|j: int|
            0 <= j < old.len() && !(c.visible(cx, cy) && c.image_index(cx, cy) + 3 < old.len()
                && c.image_index(cx, cy) <= j < c.image_index(cx, cy) + 4) ==> next[j] == cur[j],
    ensures
        next == mono_drawn_before(c, old, buf, cy, cx + 1),
{
    let goal = mono_drawn_before(c, old, buf, cy, cx + 1);
    let drawn_here = c.visible(cx, cy) && c.image_index(cx, cy) + 3 < old.len();
    let iw = c.img_w;
    assert((iw as i32) >= 0 ==> (iw as i32) as int == iw as int) by (bit_vector);
    assert forall|j: int| 0 <= j < old.len() implies next[j] == goal[j] by {
        if drawn_here && c.image_index(cx, cy) <= j < c.image_index(cx, cy) + 4 {
            lemma_shape_pixel_of_index(c, old.len() as int, cx, cy, j - c.image_index(cx, cy));
        } else {
            match shape_pixel_at(c, old.len() as int, j) {
                Some((a, b)) => {
                    if a == cx && b == cy {
                        let w = c.img_w as int;
                        lemma_byte_pixel(j, w);
                        let p = j / 4;
                        assert(p == w * (p / w) + p % w);
                        assert(p / w == c.pos_y + cy);
                        assert(p % w == c.pos_x + cx);
                        assert(w * (c.pos_y + cy) == (c.pos_y + cy) * w) by (nonlinear_arith);
                        assert(p == (c.pos_y + cy) * w + (c.pos_x + cx));
                        assert(c.image_index(cx, cy) == p * 4);
                        assert(false);
                    }
                },
                None => {},
            }
        }
    }
    assert(next =~= goal);
}

/// Limits under which a monochrome shape is drawn: the shape's masks and the
/// image are small enough that no index overflows, the buffer holds the whole
/// AND mask, and the shape's last row and column have `i32` coordinates.
pub open spec fn mono_within_limits(c: CursorPlacement, buf_len: nat) -> bool {
    &&& c.cursor_w + 7 <= u32::MAX
    &&& c.half_size() <= u32::MAX
    &&& 2 * c.half_size() <= usize::MAX
    &&& c.half_size() <= buf_len
    &&& c.img_w * c.img_h * 4 <= u32::MAX
    &&& c.cols() > 0 && c.rows() > 0 ==> fits_i32(c.pos_x + c.cols() - 1) && fits_i32(
        c.pos_y + c.rows() - 1,
    )
}

proof fn lemma_mono_limits(c: CursorPlacement, len: nat, buf_len: nat)
    requires
        mono_within_limits(c, buf_len),
    ensures
        mono_defined(c, len, buf_len),
{
    let w = c.cursor_w;
    let h = c.cursor_h;
    let iw = c.img_w;
    let ih = c.img_h;
    assert((w as i32) as int > 0 ==> (w as i32) as int == w as int) by (bit_vector);
    assert((h as i32) as int > 0 ==> (h as i32) as int == h as int) by (bit_vector);
    assert((iw as i32) as int > 0 ==> (iw as i32) as int == iw as int) by (bit_vector);
    assert((ih as i32) as int > 0 ==> (ih as i32) as int == ih as int) by (bit_vector);
    assert forall|cx: int, cy: int|
        0 <= cx < c.cols() && 0 <= cy < c.rows() && #[trigger] c.visible(cx, cy) implies {
            &&& c.image_index(cx, cy) <= u32::MAX
            &&& c.image_index(cx, cy) + 3 <= usize::MAX
            &&& c.image_index(cx, cy) + 3 < len ==> c.mask_index(cx, cy) < buf_len
                && c.mask_index(cx, cy) + c.half_size() <= usize::MAX
        } by {
        let px = c.pos_x + cx;
        let py = c.pos_y + cy;
        let rb = c.row_bytes();
        assert(py * iw + px <= iw * ih - 1) by (nonlinear_arith)
            requires
                0 <= px < iw,
                0 <= py < ih,
        ;
        assert(cx / 8 < rb) by (nonlinear_arith)
            requires
                0 <= cx < w,
                rb == (w + 7) / 8,
        ;
        assert(cy * rb + cx / 8 < h * rb) by (nonlinear_arith)
            requires
                0 <= cy < h,
                0 <= cx / 8 < rb,
        ;
        assert(c.mask_index(cx, cy) == cy * rb + cx / 8);
        assert(c.half_size() == rb * h);
        assert(h * rb == rb * h) by (nonlinear_arith);
    }
}

/// Whether the monochrome shape is within the limits under which it is drawn
/// (see `mono_within_limits`); those limits imply `mono_defined`.
pub fn mono_cursor_drawable(
    data_len: usize,
    img_w: u32,
    img_h: u32,
    buf_len: usize,
    cursor_w: u32,
    cursor_h: u32,
    pos_x: i32,
    pos_y: i32,
) -> (b: bool)
    ensures
        b == mono_within_limits(
            CursorPlacement { img_w, img_h, cursor_w, cursor_h, pos_x, pos_y },
            buf_len as nat,
        ),
        b ==> mono_defined(
            CursorPlacement { img_w, img_h, cursor_w, cursor_h, pos_x, pos_y },
            data_len as nat,
            buf_len as nat,
        ),
{
    let ghost c = CursorPlacement { img_w, img_h, cursor_w, cursor_h, pos_x, pos_y };
    if cursor_w as u64 + 7 > u32::MAX as u64 {
        return false;
    }
    let rb = (cursor_w as u64 + 7) / 8;
    assert(rb * (cursor_h as u64) <= 0x2000_0000 * 0x1_0000_0000) by (nonlinear_arith)
        requires
            rb <= 0x2000_0000,
            cursor_h <= 0xffff_ffff,
    ;
    let half = rb * cursor_h as u64;
    assert(half == c.half_size()) by (nonlinear_arith)
        requires
            rb == c.row_bytes(),
            half == rb * cursor_h,
            c.half_size() == c.row_bytes() * cursor_h,
    ;
    if half > u32::MAX as u64 || 2 * half > usize::MAX as u64 || half > buf_len as u64 {
        return false;
    }
    assert((img_w as u64) * (img_h as u64) <= 0xffff_ffff * 0xffff_ffff) by (nonlinear_arith)
        requires
            img_w <= 0xffff_ffff,
            img_h <= 0xffff_ffff,
    ;
    let area = img_w as u64 * img_h as u64;
    if area > (u32::MAX / 4) as u64 {
        return false;
    }
    let cols = #[verifier::truncate] (cursor_w as i32);
    let rows = #[verifier::truncate] (cursor_h as i32);
    if cols > 0 && rows > 0 {
        let last_x = pos_x as i64 + cols as i64 - 1;
        let last_y = pos_y as i64 + rows as i64 - 1;
        if last_x > i32::MAX as i64 || last_y > i32::MAX as i64 {
            return false;
        }
    }
    proof {
        lemma_mono_limits(c, data_len as nat, buf_len as nat);
    }
    true
}

/// Draws a monochrome pointer shape (an AND mask followed by an XOR mask, one
/// bit per pixel) onto an RGBA image at `(pos_x, pos_y)`.
pub fn draw_mono_cursor(
    data: &mut [u8],
    img_w: u32,
    img_h: u32,
    cursor_buf: &[u8],
    cursor_w: u32,
    cursor_h: u32,
    pos_x: i32,
    pos_y: i32,
    _pitch: u32,
)
    requires
        mono_defined(
            CursorPlacement { img_w, img_h, cursor_w, cursor_h, pos_x, pos_y },
            old(data)@.len(),
            cursor_buf@.len(),
        ),
    ensures
        final(data)@ == mono_drawn(
            CursorPlacement { img_w, img_h, cursor_w, cursor_h, pos_x, pos_y },
            old(data)@,
            cursor_buf@,
        ),
{
    let ghost c = CursorPlacement { img_w, img_h, cursor_w, cursor_h, pos_x, pos_y };
    let ghost old_data = data@;
    let ghost buf = cursor_buf@;
    let row_bytes = (cursor_w + 7) / 8;
    let half_size = (row_bytes * cursor_h) as usize;
    let rows = #[verifier::truncate] (cursor_h as i32);
    let cols = #[verifier::truncate] (cursor_w as i32);
    let iw = #[verifier::truncate] (img_w as i32);
    let ih = #[verifier::truncate] (img_h as i32);
    let len = data.len();
    let buf_len = cursor_buf.len();
    proof {
        assert((cursor_w as i32) > 0 ==> (cursor_w as i32) as int == cursor_w as int)
            by (bit_vector);
        assert((cursor_h as i32) > 0 ==> (cursor_h as i32) as int == cursor_h as int)
            by (bit_vector);
        assert((img_w as i32) >= 0 ==> (img_w as i32) as int == img_w as int) by (bit_vector);
        assert(data@ =~= mono_drawn_before(c, old_data, buf, 0, 0));
    }
    let mut cy: i32 = 0;
    while cy < rows
        invariant
            0 <= cy,
            rows > 0 ==> cy <= rows,
            c == (CursorPlacement { img_w, img_h, cursor_w, cursor_h, pos_x, pos_y }),
            rows as int == c.rows(),
            cols as int == c.cols(),
            iw as int == (img_w as i32) as int,
            ih as int == (img_h as i32) as int,
            row_bytes == c.row_bytes(),
            half_size == c.half_size(),
            len == old_data.len(),
            buf_len == buf.len(),
            buf == cursor_buf@,
            mono_defined(c, old_data.len(), buf.len()),
            data@.len() == old_data.len(),
            data@ == mono_drawn_before(c, old_data, buf, cy as int, 0),
        decreases rows - cy,
    {
        let mut cx: i32 = 0;
        while cx < cols
            invariant
                0 <= cy < rows,
                0 <= cx,
                cols > 0 ==> cx <= cols,
                c == (CursorPlacement { img_w, img_h, cursor_w, cursor_h, pos_x, pos_y }),
                rows as int == c.rows(),
                cols as int == c.cols(),
                iw as int == (img_w as i32) as int,
                ih as int == (img_h as i32) as int,
                row_bytes == c.row_bytes(),
                half_size == c.half_size(),
                len == old_data.len(),
                buf_len == buf.len(),
                buf == cursor_buf@,
                mono_defined(c, old_data.len(), buf.len()),
                data@.len() == old_data.len(),
                data@ == mono_drawn_before(c, old_data, buf, cy as int, cx as int),
            decreases cols - cx,
        {
            let ghost cur = data@;
            let px = pos_x + cx;
            let py = pos_y + cy;
            if px < 0 || py < 0 || px >= iw || py >= ih {
                proof {
                    lemma_mono_step(c, old_data, buf, cur, data@, cx as int, cy as int);
                }
                cx = cx + 1;
                continue;
            }
            assert(c.visible(cx as int, cy as int));
            let img_idx = ((py as u32 * img_w + px as u32) * 4) as usize;
            if img_idx + 3 >= len {
                proof {
                    lemma_mono_step(c, old_data, buf, cur, data@, cx as int, cy as int);
                }
                cx = cx + 1;
                continue;
            }
            proof {
                assert(cy as int * row_bytes as int + cx as int / 8 < half_size) by (nonlinear_arith)
                    requires
                        0 <= cy < cursor_h,
                        0 <= cx < cursor_w,
                        row_bytes == (cursor_w + 7) / 8,
                        half_size == row_bytes * cursor_h,
                ;
            }
            let byte_idx = (cy as u32 * row_bytes + cx as u32 / 8) as usize;
            let bit = 0x80u8 >> (#[verifier::truncate] (cx as u8) % 8);
            proof {
                let cxv = cx;
                assert(cxv >= 0 ==> ((cxv as u8) % 8) as int == cxv as int % 8) by (bit_vector);
                assert(bit == mask_bit(cx as int));
            }
            let and_on = if byte_idx < half_size {
                cursor_buf[byte_idx] & bit != 0
            } else {
                false
            };
            let xor_on = if byte_idx + half_size < buf_len {
                cursor_buf[byte_idx + half_size] & bit != 0
            } else {
                false
            };
            assert(and_on == and_bit(c, buf, cx as int, cy as int));
            assert(xor_on == xor_bit(c, buf, cx as int, cy as int));
            if !and_on && !xor_on {
                data[img_idx] = 0;
                data[img_idx + 1] = 0;
                data[img_idx + 2] = 0;
                data[img_idx + 3] = 255;
            } else if !and_on && xor_on {
                data[img_idx] = 255;
                data[img_idx + 1] = 255;
                data[img_idx + 2] = 255;
                data[img_idx + 3] = 255;
            } else if and_on && !xor_on {
                data[img_idx] = 255 - data[img_idx];
                data[img_idx + 1] = 255 - data[img_idx + 1];
                data[img_idx + 2] = 255 - data[img_idx + 2];
            }
            proof {
                assert forall|j: int| img_idx <= j < img_idx + 4 implies #[trigger] data@[j]
                    == mono_byte(
                    old_data[j],
                    j % 4,
                    and_bit(c, buf, cx as int, cy as int),
                    xor_bit(c, buf, cx as int, cy as int),
                ) by {
                    lemma_shape_pixel_of_index(
                        c,
                        old_data.len() as int,
                        cx as int,
                        cy as int,
                        j - img_idx,
                    );
                    assert(cur[j] == old_data[j]);
                }
                lemma_mono_step(c, old_data, buf, cur, data@, cx as int, cy as int);
            }
            cx = cx + 1;
        }
        proof {
            let cur = data@;
            let next = mono_drawn_before(c, old_data, buf, cy + 1, 0);
            assert forall|j: int| 0 <= j < old_data.len() implies cur[j] == next[j] by {}
            assert(cur =~= next);
        }
        cy = cy + 1;
    }
    proof {
        let cur = data@;
        let fin = mono_drawn(c, old_data, buf);
        assert forall|j: int| 0 <= j < old_data.len() implies cur[j] == fin[j] by {}
        assert(cur =~= fin);
    }
}

/// A drawn pixel of a colour pointer shape: the offset of the first byte of the
/// image pixel it covers, and its blue, green, red and alpha values.
#[derive(Debug, Clone, Copy, PartialEq, Eq, Structural)]
pub struct ShapePixel {
    pub index: usize,
    pub b: u8,
    pub g: u8,
    pub r: u8,
    pub a: u8,
}

impl ShapePixel {
    /// The RGBA bytes an opaque shape pixel puts in place of the image pixel;
    /// `None` for a partly transparent pixel, which is blended in instead.
    pub fn opaque_rgba(&self) -> (r: Option<[u8; 4]>)
        ensures
            self.a == 255 ==> (r matches Some(v) && v@ == seq![self.r, self.g, self.b, 255u8]),
            self.a != 255 ==> r is None,
    {
        if self.a == 255 {
            let v = [self.r, self.g, self.b, 255u8];
            assert(v@ =~= seq![self.r, self.g, self.b, 255u8]);
            Some(v)
        } else {
            None
        }
    }
}

/// Shape pixel `(cx, cy)` as drawn, if it is: it lies in the image, its image
/// bytes lie in the buffer of `len` bytes, its four shape bytes (at
/// `cy * pitch + cx * 4`) lie before `limit`, and its alpha is not zero.
pub open spec fn shape_pixel(
    c: CursorPlacement,
    buf: Seq<u8>,
    pitch: int,
    limit: int,
    len: int,
    cx: int,
    cy: int,
) -> Seq<ShapePixel> {
    let ci = cy * pitch + cx * 4;
    if c.visible(cx, cy) && c.image_index(cx, cy) + 3 < len && ci + 3 < limit && buf[ci + 3]
        != 0 {
        seq![
            ShapePixel {
                index: c.image_index(cx, cy) as usize,
                b: buf[ci],
                g: buf[ci + 1],
                r: buf[ci + 2],
                a: buf[ci + 3],
            },
        ]
    } else {
        seq![]
    }
}

/// The drawn pixels among the first `k` shape pixels, row by row.
pub open spec fn shape_pixels_upto(
    c: CursorPlacement,
    buf: Seq<u8>,
    pitch: int,
    limit: int,
    len: int,
    k: nat,
) -> Seq<ShapePixel>
    decreases k,
{
    if k == 0 || c.cols() <= 0 {
        seq![]
    } else {
        shape_pixels_upto(c, buf, pitch, limit, len, (k - 1) as nat) + shape_pixel(
            c,
            buf,
            pitch,
            limit,
            len,
            (k - 1) % c.cols(),
            (k - 1) / c.cols(),
        )
    }
}

/// The drawn pixels of the whole shape, row by row.
pub open spec fn shape_pixels(c: CursorPlacement, buf: Seq<u8>, pitch: int, limit: int, len: int) -> Seq<ShapePixel> {
    if c.cols() > 0 && c.rows() > 0 {
        shape_pixels_upto(c, buf, pitch, limit, len, (c.rows() * c.cols()) as nat)
    } else {
        seq![]
    }
}

fn shape_pixel_list(
    data_len: usize,
    img_w: u32,
    img_h: u32,
    buf: &[u8],
    cols: u32,
    rows: u32,
    pos_x: i32,
    pos_y: i32,
    pitch: u32,
    limit: usize,
) -> (r: Vec<ShapePixel>)
    requires
        limit <= buf@.len(),
    ensures
        r@ == shape_pixels(
            CursorPlacement { img_w, img_h, cursor_w: cols, cursor_h: rows, pos_x, pos_y },
            buf@,
            pitch as int,
            limit as int,
            data_len as int,
        ),
{
    let ghost c = CursorPlacement { img_w, img_h, cursor_w: cols, cursor_h: rows, pos_x, pos_y };
    let cols_i = #[verifier::truncate] (cols as i32);
    let rows_i = #[verifier::truncate] (rows as i32);
    let iw = #[verifier::truncate] (img_w as i32);
    let ih = #[verifier::truncate] (img_h as i32);
    assert(iw as int == (img_w as i32) as int);
    let mut out: Vec<ShapePixel> = Vec::new();
    if cols_i <= 0 || rows_i <= 0 {
        return out;
    }
    let ghost w = cols_i as int;
    assert(c.cols() == w);
    let mut cy: i32 = 0;
    while cy < rows_i
        invariant
            0 <= cy <= rows_i,
            c == (CursorPlacement { img_w, img_h, cursor_w: cols, cursor_h: rows, pos_x, pos_y }),
            c.cols() == w,
            w == cols_i,
            w > 0,
            rows_i == c.rows(),
            iw as int == (img_w as i32) as int,
            ih as int == (img_h as i32) as int,
            limit <= buf@.len(),
            out@ == shape_pixels_upto(c, buf@, pitch as int, limit as int, data_len as int, (cy * w) as nat),
        decreases rows_i - cy,
    {
        let mut cx: i32 = 0;
        while cx < cols_i
            invariant
                0 <= cx <= cols_i,
                0 <= cy < rows_i,
                c == (CursorPlacement { img_w, img_h, cursor_w: cols, cursor_h: rows, pos_x, pos_y }),
                c.cols() == w,
                w == cols_i,
                w > 0,
                rows_i == c.rows(),
                iw as int == (img_w as i32) as int,
                ih as int == (img_h as i32) as int,
                limit <= buf@.len(),
                out@ == shape_pixels_upto(
                    c,
                    buf@,
                    pitch as int,
                    limit as int,
                    data_len as int,
                    (cy * w + cx) as nat,
                ),
            decreases cols_i - cx,
        {
            let ghost k = cy * w + cx;
            proof {
                lemma_pixel_index(w, cx as int, cy as int, 0);
                assert(0 <= cy * w) by (nonlinear_arith)
                    requires
                        0 <= cy,
                        0 < w,
                ;
            }
            let ghost before = out@;
            let ghost item = shape_pixel(
                c,
                buf@,
                pitch as int,
                limit as int,
                data_len as int,
                cx as int,
                cy as int,
            );
            assert(shape_pixels_upto(c, buf@, pitch as int, limit as int, data_len as int, (k + 1) as nat)
                == before + item);
            let px = pos_x as i64 + cx as i64;
            let py = pos_y as i64 + cy as i64;
            if px >= 0 && py >= 0 && px < iw as i64 && py < ih as i64 {
                assert(c.visible(cx as int, cy as int));
                assert((py as u128) * (img_w as u128) <= 0x8000_0000 * 0x1_0000_0000)
                    by (nonlinear_arith)
                    requires
                        0 <= py < 0x8000_0000,
                        img_w <= 0xffff_ffff,
                ;
                assert((cy as u128) * (pitch as u128) <= 0x8000_0000 * 0x1_0000_0000)
                    by (nonlinear_arith)
                    requires
                        0 <= cy < 0x8000_0000,
                        pitch <= 0xffff_ffff,
                ;
                let ii: u128 = ((py as u128) * (img_w as u128) + (px as u128)) * 4;
                let ci: u128 = (cy as u128) * (pitch as u128) + (cx as u128) * 4;
                assert(ii == c.image_index(cx as int, cy as int));
                if ii + 3 < data_len as u128 && ci + 3 < limit as u128 {
                    let ci = ci as usize;
                    let a = buf[ci + 3];
                    if a != 0 {
                        out.push(
                            ShapePixel {
                                index: ii as usize,
                                b: buf[ci],
                                g: buf[ci + 1],
                                r: buf[ci + 2],
                                a,
                            },
                        );
                    }
                }
            }
            assert(out@ =~= before + item);
            cx = cx + 1;
        }
        assert(cy * w + w == (cy + 1) * w) by (nonlinear_arith);
        cy = cy + 1;
    }
    assert(c.rows() * c.cols() == rows_i * w);
    out
}

/// The drawn pixels of a colour pointer shape (rows of 32-bit BGRA pixels
/// `pitch` bytes apart) placed at `(pos_x, pos_y)` on an image of `data_len`
/// bytes: at most `pitch / 4` columns are read, and pixels with zero alpha are
/// not drawn. Opaque pixels replace the image pixel; the others are blended in.
pub fn color_cursor_pixels(
    data_len: usize,
    img_w: u32,
    img_h: u32,
    cursor_buf: &[u8],
    cursor_w: u32,
    cursor_h: u32,
    pos_x: i32,
    pos_y: i32,
    pitch: u32,
) -> (r: Vec<ShapePixel>)
    ensures
        r@ == shape_pixels(
            CursorPlacement {
                img_w,
                img_h,
                cursor_w: if cursor_w <= pitch / 4 { cursor_w } else { pitch / 4 },
                cursor_h,
                pos_x,
                pos_y,
            },
            cursor_buf@,
            pitch as int,
            cursor_buf@.len() as int,
            data_len as int,
        ),
{
    let cols = if cursor_w <= pitch / 4 { cursor_w } else { pitch / 4 };
    shape_pixel_list(
        data_len,
        img_w,
        img_h,
        cursor_buf,
        cols,
        cursor_h,
        pos_x,
        pos_y,
        pitch,
        cursor_buf.len(),
    )
}

/// The drawn pixels of a masked colour pointer shape: its colour rows
/// (`pitch * cursor_h` bytes) come first and are drawn as a colour shape of
/// `cursor_w` columns; a pixel is drawn only where its alpha is not zero, which
/// makes the AND mask that follows the colour rows change nothing.
pub fn masked_color_cursor_pixels(
    data_len: usize,
    img_w: u32,
    img_h: u32,
    cursor_buf: &[u8],
    cursor_w: u32,
    cursor_h: u32,
    pos_x: i32,
    pos_y: i32,
    pitch: u32,
) -> (r: Vec<ShapePixel>)
    requires
        pitch * cursor_h <= cursor_buf@.len(),
    ensures
        r@ == shape_pixels(
            CursorPlacement { img_w, img_h, cursor_w, cursor_h, pos_x, pos_y },
            cursor_buf@,
            pitch as int,
            pitch * cursor_h,
            data_len as int,
        ),
{
    assert((pitch as u64) * (cursor_h as u64) <= 0xffff_ffff * 0xffff_ffff) by (nonlinear_arith)
        requires
            pitch <= 0xffff_ffff,
            cursor_h <= 0xffff_ffff,
    ;
    let size: u64 = (pitch as u64) * (cursor_h as u64);
    assert(size == pitch * cursor_h);
    let n = cursor_buf.len();
    assert(size <= n);
    let color_size = size as usize;
    assert(color_size == pitch * cursor_h);
    shape_pixel_list(
        data_len,
        img_w,
        img_h,
        cursor_buf,
        cursor_w,
        cursor_h,
        pos_x,
        pos_y,
        pitch,
        color_size,
    )
}

} // verus!
