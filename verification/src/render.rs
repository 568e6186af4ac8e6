//! Pixel work on 32-bit BGRA frames: channel order conversion, dimming,
//! filling rectangles and drawing the selection frame.
use vstd::prelude::*;
use crate::geometry::{
    clamp_rect, fits_i32, grip_centres, grip_defined, grips, grips_defined, handle_rects,
    normalize_rect, rect_of, Rect, HANDLE_SIZE,
};

verus! {

/// Numerator of the factor that dims the area outside the selection.
pub const DIM_NUMERATOR: u16 = 166;

/// Denominator of the dimming factor.
pub const DIM_DENOMINATOR: u16 = 255;

/// Red component of the selection frame colour.
pub const BORDER_R: u8 = 255;

/// Green component of the selection frame colour.
pub const BORDER_G: u8 = 215;

/// Blue component of the selection frame colour.
pub const BORDER_B: u8 = 0;

/// Thickness of the selection frame, in pixels.
pub const FRAME_THICKNESS: i32 = 3;

/// Why a frame could not be prepared.
#[derive(Debug, Clone, Copy, PartialEq, Eq, Structural)]
pub enum FrameError {
    /// The pixel data is not `width * height * 4` bytes long.
    PixelSizeMismatch,
    /// The frame has no pixels.
    EmptyFrame,
}

impl FrameError {
    /// The message that tells the user why the frozen frame could not be shown.
    pub fn message(&self) -> (s: String)
        ensures
            s@ == (match self {
                FrameError::PixelSizeMismatch => "冻结画面的像素数据大小不正确"@,
                FrameError::EmptyFrame => "冻结画面尺寸无效"@,
            }),
    {
        match self {
            FrameError::PixelSizeMismatch => String::from_str("冻结画面的像素数据大小不正确"),
            FrameError::EmptyFrame => String::from_str("冻结画面尺寸无效"),
        }
    }
}

/// The BGRA form of RGBA pixel data: red and blue swapped, alpha opaque.
pub open spec fn bgra_of(rgba: Seq<u8>) -> Seq<u8> {
    Seq::new(
        rgba.len(),
        |i: int|
            if i % 4 == 0 {
                rgba[i + 2]
            } else if i % 4 == 1 {
                rgba[i]
            } else if i % 4 == 2 {
                rgba[i - 2]
            } else {
                255u8
            },
    )
}

/// Converts RGBA pixel data of a `width` x `height` image to opaque BGRA.
pub fn rgba_to_bgra(data: &[u8], width: u32, height: u32) -> (r: Result<Vec<u8>, FrameError>)
    requires
        width * height * 4 <= usize::MAX,
    ensures
        data@.len() != width * height * 4 ==> r == Err::<Vec<u8>, FrameError>(
            FrameError::PixelSizeMismatch,
        ),
        data@.len() == width * height * 4 ==> (r matches Ok(v) && v@ == bgra_of(data@)),
{
    let expected = (width as usize * height as usize) * 4;
    assert(expected == width * height * 4) by (nonlinear_arith)
        requires
            width * height * 4 <= usize::MAX,
            expected == (width as usize * height as usize) * 4,
    ;
    if data.len() != expected {
        return Err(FrameError::PixelSizeMismatch);
    }
    let mut converted: Vec<u8> = Vec::with_capacity(expected);
    let mut p: usize = 0;
    while p < data.len()
        invariant
            p % 4 == 0,
            p <= data@.len(),
            data@.len() % 4 == 0,
            converted@ == bgra_of(data@).take(p as int),
        decreases data@.len() - p,
    {
        converted.push(data[p + 2]);
        converted.push(data[p + 1]);
        converted.push(data[p]);
        converted.push(255);
        assert(converted@ =~= bgra_of(data@).take(p + 4));
        p = p + 4;
    }
    assert(bgra_of(data@).take(p as int) =~= bgra_of(data@));
    Ok(converted)
}

/// One channel dimmed by 166/255, rounded to nearest.
pub open spec fn dim_value(channel: u8) -> u8 {
    ((channel as int * DIM_NUMERATOR + DIM_DENOMINATOR / 2) / DIM_DENOMINATOR as int) as u8
}

/// Dims one colour channel by the overlay's factor.
pub fn scale_dim(channel: u8) -> (r: u8)
    ensures
        r == dim_value(channel),
        r <= channel,
{
    let v = (channel as u16 * DIM_NUMERATOR + DIM_DENOMINATOR / 2) / DIM_DENOMINATOR;
    assert(v <= channel) by (nonlinear_arith)
        requires
            v == (channel as int * 166 + 127) / 255,
            0 <= channel <= 255,
    ;
    v as u8
}

/// What painting does to a pixel: dim its colour, or set it to a colour.
#[derive(Debug, Clone, Copy, PartialEq, Eq, Structural)]
pub enum Paint {
    Dim,
    Fill { b: u8, g: u8, r: u8 },
}

/// The new value of byte `channel` (0 blue, 1 green, 2 red, 3 alpha) of a
/// painted pixel; painted pixels are opaque.
pub open spec fn painted(old: u8, channel: int, paint: Paint) -> u8 {
    if channel == 3 {
        255u8
    } else {
        match paint {
            Paint::Dim => dim_value(old),
            Paint::Fill { b, g, r } => if channel == 0 {
                b
            } else if channel == 1 {
                g
            } else {
                r
            },
        }
    }
}

/// Byte `i` of a row-major BGRA image `width` pixels wide lies in a pixel of `rect`.
pub open spec fn byte_in(i: int, width: int, rect: Rect) -> bool {
    width > 0 && rect.covers_pixel((i / 4) % width, (i / 4) / width)
}

/// The image bytes with every pixel of `rect` painted.
pub open spec fn painted_bytes(old: Seq<u8>, width: int, rect: Rect, paint: Paint) -> Seq<u8> {
    Seq::new(
        old.len(),
        |i: int|
            if byte_in(i, width, rect) {
                painted(old[i], i % 4, paint)
            } else {
                old[i]
            },
    )
}

/// The whole image of `width` x `height` pixels as a rectangle.
pub open spec fn image_rect(width: usize, height: usize) -> Rect {
    Rect { left: 0, top: 0, right: width as i32, bottom: height as i32 }
}

/// Converting the image size to `i32` leaves it non-negative, so that clamping to
/// the image is defined.
pub open spec fn image_size_defined(width: usize, height: usize) -> bool {
    width as i32 >= 0 && height as i32 >= 0
}

/// Every byte of the pixels of `rect` (clamped to the image) lies in the buffer.
pub open spec fn paint_fits(len: nat, width: usize, height: usize, rect: Rect) -> bool {
    let c = rect.clamped_to(image_rect(width, height));
    c.left < c.right && c.top < c.bottom ==> ((c.bottom - 1) * width + c.right) * 4 <= len
}

/// The bytes after painting `rect`, clamped to the image.
pub open spec fn painted_in_image(old: Seq<u8>, width: usize, height: usize, rect: Rect, paint: Paint) -> Seq<u8> {
    painted_bytes(old, width as int, rect.clamped_to(image_rect(width, height)), paint)
}

pub proof fn lemma_pixel_index(w: int, x: int, y: int, k: int)
    requires
        0 <= x < w,
        0 <= y,
        0 <= k < 4,
    ensures
        ((y * w + x) * 4 + k) / 4 == y * w + x,
        ((y * w + x) * 4 + k) % 4 == k,
        (y * w + x) % w == x,
        (y * w + x) / w == y,
{
    assert(0 <= y * w) by (nonlinear_arith)
        requires
            0 <= y,
            0 < w,
    ;
    vstd::arithmetic::div_mod::lemma_fundamental_div_mod_converse((y * w + x) * 4 + k, 4, y * w + x, k);
    vstd::arithmetic::div_mod::lemma_fundamental_div_mod_converse(y * w + x, w, y, x);
}

pub proof fn lemma_byte_pixel(j: int, w: int)
    requires
        0 <= j,
        0 < w,
    ensures
        j / 4 == w * ((j / 4) / w) + (j / 4) % w,
        j == (j / 4) * 4 + j % 4,
        0 <= (j / 4) % w < w,
        0 <= (j / 4) / w,
{
    vstd::arithmetic::div_mod::lemma_fundamental_div_mod(j / 4, w);
    vstd::arithmetic::div_mod::lemma_fundamental_div_mod(j, 4);
    vstd::arithmetic::div_mod::lemma_mod_bound(j / 4, w);
    vstd::arithmetic::div_mod::lemma_div_pos_is_pos(j / 4, w);
}

/// The pixels of `rect` before row `y`, or in row `y` before column `x`, painted.
pub open spec fn painted_before(old: Seq<u8>, w: int, rect: Rect, paint: Paint, y: int, x: int) -> Seq<u8> {
    Seq::new(
        old.len(),
        |i: int|
            if byte_in(i, w, rect) && ((i / 4) / w < y || ((i / 4) / w == y && (i / 4) % w < x)) {
                painted(old[i], i % 4, paint)
            } else {
                old[i]
            },
    )
}

proof fn lemma_paint_pixel_step(
    old: Seq<u8>,
    cur: Seq<u8>,
    next: Seq<u8>,
    w: int,
    rect: Rect,
    paint: Paint,
    y: int,
    x: int,
)
    requires
        0 < w,
        0 <= rect.left <= x < rect.right <= w,
        0 <= rect.top <= y < rect.bottom,
        cur == painted_before(old, w, rect, paint, y, x),
        ((y * w + x) * 4 + 3) < old.len(),
        next.len() == old.len(),
        forall|j: int|
            (y * w + x) * 4 <= j < (y * w + x) * 4 + 4 ==> #[trigger] next[j] == painted(
                old[j],
                j - (y * w + x) * 4,
                paint,
            ),
        forall|j: int|
            0 <= j < old.len() && !((y * w + x) * 4 <= j < (y * w + x) * 4 + 4) ==> next[j]
                == cur[j],
    ensures
        next == painted_before(old, w, rect, paint, y, x + 1),
{
    let target = painted_before(old, w, rect, paint, y, x + 1);
    let p = y * w + x;
    assert forall|j: int| 0 <= j < old.len() implies next[j] == target[j] by {
        lemma_byte_pixel(j, w);
        if p * 4 <= j < p * 4 + 4 {
            let k = j - p * 4;
            lemma_pixel_index(w, x, y, k);
            assert(j == p * 4 + k);
        } else {
            let row = (j / 4) / w;
            let col = (j / 4) % w;
            if row == y && col == x {
                assert(w * y == y * w) by (nonlinear_arith);
                assert(j / 4 == p);
                assert(false);
            }
        }
    }
    assert(next =~= target);
}

/// Paints the pixels of a rectangle that lies inside the image.
fn paint_inner_rect(pixels: &mut [u8], width: usize, rect: Rect, paint: Paint)
    requires
        0 <= rect.left < rect.right <= width,
        0 <= rect.top < rect.bottom,
        ((rect.bottom - 1) * width + rect.right) * 4 <= old(pixels)@.len(),
    ensures
        final(pixels)@ == painted_bytes(old(pixels)@, width as int, rect, paint),
{
    let ghost old_px = old(pixels)@;
    let ghost w = width as int;
    let mut y = rect.top as usize;
    assert(pixels@ =~= painted_before(old_px, w, rect, paint, y as int, rect.left as int)) by {
        assert forall|j: int| 0 <= j < old_px.len() implies !(byte_in(j, w, rect) && ((j / 4) / w
            < y || ((j / 4) / w == y && (j / 4) % w < rect.left))) by {}
    }
    while y < rect.bottom as usize
        invariant
            0 <= rect.top <= y <= rect.bottom,
            0 <= rect.left < rect.right <= width,
            w == width as int,
            ((rect.bottom - 1) * width + rect.right) * 4 <= old_px.len(),
            pixels@.len() == old_px.len(),
            pixels@ == painted_before(old_px, w, rect, paint, y as int, rect.left as int),
        decreases rect.bottom - y,
    {
        let mut x = rect.left as usize;
        while x < rect.right as usize
            invariant
                0 <= rect.top <= y < rect.bottom,
                rect.left <= x <= rect.right,
                0 <= rect.left < rect.right <= width,
                w == width as int,
                ((rect.bottom - 1) * width + rect.right) * 4 <= old_px.len(),
                pixels@.len() == old_px.len(),
                pixels@ == painted_before(old_px, w, rect, paint, y as int, x as int),
            decreases rect.right - x,
        {
            assert((y * width + x) * 4 + 3 < ((rect.bottom - 1) * width + rect.right) * 4)
                by (nonlinear_arith)
                requires
                    y <= rect.bottom - 1,
                    x < rect.right,
                    0 <= y,
                    0 <= width,
            ;
            let len = pixels.len();
            assert(((rect.bottom - 1) * width + rect.right) * 4 <= len);
            let idx = (y * width + x) * 4;
            let ghost cur = pixels@;
            proof {
                lemma_pixel_index(w, x as int, y as int, 0);
                lemma_pixel_index(w, x as int, y as int, 1);
                lemma_pixel_index(w, x as int, y as int, 2);
                lemma_pixel_index(w, x as int, y as int, 3);
                assert(byte_in(idx as int, w, rect));
                assert(byte_in(idx + 1, w, rect));
                assert(byte_in(idx + 2, w, rect));
                assert(byte_in(idx + 3, w, rect));
            }
            match paint {
                Paint::Dim => {
                    let b0 = scale_dim(pixels[idx]);
                    pixels[idx] = b0;
                    let b1 = scale_dim(pixels[idx + 1]);
                    pixels[idx + 1] = b1;
                    let b2 = scale_dim(pixels[idx + 2]);
                    pixels[idx + 2] = b2;
                    pixels[idx + 3] = 255;
                },
                Paint::Fill { b, g, r } => {
                    pixels[idx] = b;
                    pixels[idx + 1] = g;
                    pixels[idx + 2] = r;
                    pixels[idx + 3] = 255;
                },
            }
            proof {
                assert forall|j: int| idx <= j < idx + 4 implies #[trigger] pixels@[j] == painted(
                    old_px[j],
                    j - idx,
                    paint,
                ) by {
                    let k = j - idx;
                    lemma_pixel_index(w, x as int, y as int, k);
                    assert(!(j / 4 / w < y || (j / 4 / w == y && j / 4 % w < x)));
                    assert(cur[j] == old_px[j]);
                }
                lemma_paint_pixel_step(
                    old_px,
                    cur,
                    pixels@,
                    w,
                    rect,
                    paint,
                    y as int,
                    x as int,
                );
            }
            x = x + 1;
        }
        proof {
            let cur = pixels@;
            let next = painted_before(old_px, w, rect, paint, y + 1, rect.left as int);
            assert forall|j: int| 0 <= j < old_px.len() implies cur[j] == next[j] by {
                lemma_byte_pixel(j, w);
            }
            assert(cur =~= next);
        }
        y = y + 1;
    }
    proof {
        let cur = pixels@;
        let fin = painted_bytes(old_px, w, rect, paint);
        assert forall|j: int| 0 <= j < old_px.len() implies cur[j] == fin[j] by {
            lemma_byte_pixel(j, w);
        }
        assert(cur =~= fin);
    }
}

proof fn lemma_image_size(width: usize, height: usize)
    requires
        image_size_defined(width, height),
    ensures
        image_rect(width, height).is_normalized(),
        width as i32 as int <= width,
        height as i32 as int <= height,
{
    assert((width as i32) >= 0 ==> (width as i32) as int <= width as int) by (bit_vector);
    assert((height as i32) >= 0 ==> (height as i32) as int <= height as int) by (bit_vector);
}

/// Paints the pixels of `rect`, clamped to the image, in place.
fn paint_rect(pixels: &mut [u8], width: usize, height: usize, rect: Rect, paint: Paint)
    requires
        image_size_defined(width, height),
        paint_fits(old(pixels)@.len(), width, height, rect),
    ensures
        final(pixels)@ == painted_in_image(old(pixels)@, width, height, rect, paint),
{
    proof {
        lemma_image_size(width, height);
    }
    let rect = clamp_rect(
        rect,
        Rect { left: 0, top: 0, right: width as i32, bottom: height as i32 },
    );
    if rect.right <= rect.left || rect.bottom <= rect.top {
        proof {
            let fin = painted_bytes(old(pixels)@, width as int, rect, paint);
            assert forall|j: int| 0 <= j < fin.len() implies !byte_in(j, width as int, rect) by {}
            assert(pixels@ =~= fin);
        }
        return;
    }
    paint_inner_rect(pixels, width, rect, paint);
}

/// Dims the pixels of `rect` (clamped to the image) and makes them opaque.
pub fn dim_rect_bgra(pixels: &mut [u8], width: usize, height: usize, rect: Rect)
    requires
        image_size_defined(width, height),
        paint_fits(old(pixels)@.len(), width, height, rect),
    ensures
        final(pixels)@ == painted_in_image(old(pixels)@, width, height, rect, Paint::Dim),
{
    paint_rect(pixels, width, height, rect, Paint::Dim);
}

/// Sets the pixels of `rect` (clamped to the image) to an opaque colour.
pub fn fill_rect_bgra(
    pixels: &mut [u8],
    width: usize,
    height: usize,
    rect: Rect,
    r: u8,
    g: u8,
    b: u8,
)
    requires
        image_size_defined(width, height),
        paint_fits(old(pixels)@.len(), width, height, rect),
    ensures
        final(pixels)@ == painted_in_image(
            old(pixels)@,
            width,
            height,
            rect,
            Paint::Fill { b, g, r },
        ),
{
    paint_rect(pixels, width, height, rect, Paint::Fill { b, g, r });
}

/// The four bars of the frame around `rect` (top, bottom, left, right) followed
/// by its eight grips.
pub open spec fn frame_rects(rect: Rect) -> Seq<Rect> {
    let n = rect.normalized();
    seq![
        rect_of(n.left as int, n.top as int, n.right as int, n.top + FRAME_THICKNESS),
        rect_of(n.left as int, n.bottom - FRAME_THICKNESS, n.right as int, n.bottom as int),
        rect_of(n.left as int, n.top as int, n.left + FRAME_THICKNESS, n.bottom as int),
        rect_of(n.right - FRAME_THICKNESS, n.top as int, n.right as int, n.bottom as int),
    ] + grips(n)
}

/// The arithmetic of `draw_selection_frame` stays in `i32` and every rectangle
/// it fills lies in the buffer.
pub open spec fn frame_defined(len: nat, width: usize, height: usize, rect: Rect) -> bool {
    let n = rect.normalized();
    &&& image_size_defined(width, height)
    &&& fits_i32(n.top + FRAME_THICKNESS)
    &&& fits_i32(n.bottom - FRAME_THICKNESS)
    &&& fits_i32(n.left + FRAME_THICKNESS)
    &&& fits_i32(n.right - FRAME_THICKNESS)
    &&& grips_defined(n)
    &&& forall|i: int| 0 <= i < 12 ==> #[trigger] paint_fits(len, width, height, frame_rects(rect)[i])
}

/// Byte `i` lies in a pixel of one of the frame's rectangles, clamped to the image.
pub open spec fn in_frame(i: int, width: usize, height: usize, rect: Rect) -> bool {
    exists|k: int|
        0 <= k < 12 && byte_in(
            i,
            width as int,
            (#[trigger] frame_rects(rect)[k]).clamped_to(image_rect(width, height)),
        )
}

/// The bytes with the selection frame of `rect` drawn over them.
pub open spec fn framed(old: Seq<u8>, width: usize, height: usize, rect: Rect) -> Seq<u8> {
    Seq::new(
        old.len(),
        |i: int|
            if in_frame(i, width, height, rect) {
                painted(old[i], i % 4, Paint::Fill { b: BORDER_B, g: BORDER_G, r: BORDER_R })
            } else {
                old[i]
            },
    )
}

/// The bytes with the first `count` frame rectangles filled.
pub open spec fn framed_upto(old: Seq<u8>, width: usize, height: usize, rect: Rect, count: int) -> Seq<u8> {
    Seq::new(
        old.len(),
        |i: int|
            if exists|k: int|
                0 <= k < count && byte_in(
                    i,
                    width as int,
                    (#[trigger] frame_rects(rect)[k]).clamped_to(image_rect(width, height)),
                ) {
                painted(old[i], i % 4, Paint::Fill { b: BORDER_B, g: BORDER_G, r: BORDER_R })
            } else {
                old[i]
            },
    )
}

proof fn lemma_frame_step(old: Seq<u8>, width: usize, height: usize, rect: Rect, count: int)
    requires
        0 <= count < 12,
    ensures
        painted_in_image(
            framed_upto(old, width, height, rect, count),
            width,
            height,
            frame_rects(rect)[count],
            Paint::Fill { b: BORDER_B, g: BORDER_G, r: BORDER_R },
        ) == framed_upto(old, width, height, rect, count + 1),
{
    let paint = Paint::Fill { b: BORDER_B, g: BORDER_G, r: BORDER_R };
    let cur = framed_upto(old, width, height, rect, count);
    let lhs = painted_in_image(cur, width, height, frame_rects(rect)[count], paint);
    let rhs = framed_upto(old, width, height, rect, count + 1);
    assert forall|i: int| 0 <= i < old.len() implies lhs[i] == rhs[i] by {
        let c = frame_rects(rect)[count].clamped_to(image_rect(width, height));
        if byte_in(i, width as int, c) {
            assert(exists|k: int|
                0 <= k < count + 1 && byte_in(
                    i,
                    width as int,
                    (#[trigger] frame_rects(rect)[k]).clamped_to(image_rect(width, height)),
                ));
        } else {
            if exists|k: int|
                0 <= k < count + 1 && byte_in(
                    i,
                    width as int,
                    (#[trigger] frame_rects(rect)[k]).clamped_to(image_rect(width, height)),
                ) {
                let k = choose|k: int|
                    0 <= k < count + 1 && byte_in(
                        i,
                        width as int,
                        (#[trigger] frame_rects(rect)[k]).clamped_to(image_rect(width, height)),
                    );
                assert(k < count);
            }
        }
    }
    assert(lhs =~= rhs);
}

/// The selection frame is a border `FRAME_THICKNESS` pixels wide all round a
/// selection inside the image: every pixel of the selection within that
/// distance of one of its edges takes the border colour, and the inside, more
/// than half a grip in from every edge, keeps its bytes.
pub proof fn lemma_frame_border(
    old: Seq<u8>,
    width: usize,
    height: usize,
    rect: Rect,
    x: int,
    y: int,
    k: int,
)
    requires
        old.len() == width * height * 4,
        rect.is_normalized(),
        rect.within(image_rect(width, height)),
        frame_defined(old.len(), width, height, rect),
        rect.left <= x < rect.right,
        rect.top <= y < rect.bottom,
        0 <= k < 4,
    ensures
        ({
            let i = (y * width + x) * 4 + k;
            let f = framed(old, width, height, rect);
            &&& y < rect.top + FRAME_THICKNESS || y >= rect.bottom - FRAME_THICKNESS || x
                < rect.left + FRAME_THICKNESS || x >= rect.right - FRAME_THICKNESS ==> f[i]
                == seq![BORDER_B, BORDER_G, BORDER_R, 255u8][k]
            &&& rect.left + HANDLE_SIZE / 2 <= x < rect.right - HANDLE_SIZE / 2 && rect.top
                + HANDLE_SIZE / 2 <= y < rect.bottom - HANDLE_SIZE / 2 ==> f[i] == old[i]
        }),
{
    let w = width as int;
    let i = (y * w + x) * 4 + k;
    let img = image_rect(width, height);
    assert((width as i32) >= 0 ==> (width as i32) as int <= width as int) by (bit_vector);
    assert((height as i32) >= 0 ==> (height as i32) as int <= height as int) by (bit_vector);
    assert(0 <= x < w);
    lemma_pixel_index(w, x, y, k);
    assert(0 <= y * w) by (nonlinear_arith)
        requires
            0 <= y,
            0 < w,
    ;
    assert(i < old.len()) by (nonlinear_arith)
        requires
            0 <= x < w,
            0 <= y < height,
            0 <= k < 4,
            i == (y * w + x) * 4 + k,
            old.len() == w * height * 4,
    ;
    let fr = frame_rects(rect);
    assert(rect.normalized() == rect);
    assert forall|j: int| 0 <= j < 12 implies byte_in(i, w, (#[trigger] fr[j]).clamped_to(img))
        == fr[j].clamped_to(img).covers_pixel(x, y) by {}
    if y < rect.top + FRAME_THICKNESS {
        assert(fr[0].clamped_to(img).covers_pixel(x, y));
    } else if y >= rect.bottom - FRAME_THICKNESS {
        assert(fr[1].clamped_to(img).covers_pixel(x, y));
    } else if x < rect.left + FRAME_THICKNESS {
        assert(fr[2].clamped_to(img).covers_pixel(x, y));
    } else if x >= rect.right - FRAME_THICKNESS {
        assert(fr[3].clamped_to(img).covers_pixel(x, y));
    }
    if rect.left + HANDLE_SIZE / 2 <= x < rect.right - HANDLE_SIZE / 2 && rect.top + HANDLE_SIZE
        / 2 <= y < rect.bottom - HANDLE_SIZE / 2 {
        let c = grip_centres(rect);
        assert forall|j: int| 0 <= j < 8 implies !(#[trigger] grips(rect)[j]).clamped_to(
            img,
        ).covers_pixel(x, y) by {
            assert(grip_defined(c[j].0, c[j].1));
        }
        assert forall|j: int| 0 <= j < 12 implies !(#[trigger] fr[j]).clamped_to(img).covers_pixel(
            x,
            y,
        ) by {
            if j >= 4 {
                assert(fr[j] == grips(rect)[j - 4]);
            }
        }
        assert(!in_frame(i, width, height, rect));
    }
}

/// Draws the selection frame of `rect`: a three-pixel border and eight grips,
/// clipped to the image.
pub fn draw_selection_frame(pixels: &mut [u8], width: usize, height: usize, rect: Rect)
    requires
        frame_defined(old(pixels)@.len(), width, height, rect),
    ensures
        final(pixels)@ == framed(old(pixels)@, width, height, rect),
{
    let ghost old_px = old(pixels)@;
    let ghost fr = frame_rects(rect);
    let n = normalize_rect(rect);
    let thickness = FRAME_THICKNESS;
    let bars = [
        Rect { left: n.left, top: n.top, right: n.right, bottom: n.top + thickness },
        Rect {
            left: n.left,
            top: n.bottom - thickness,
            right: n.right,
            bottom: n.bottom,
        },
        Rect { left: n.left, top: n.top, right: n.left + thickness, bottom: n.bottom },
        Rect {
            left: n.right - thickness,
            top: n.top,
            right: n.right,
            bottom: n.bottom,
        },
    ];
    let handles = handle_rects(n);
    assert(pixels@ =~= framed_upto(old_px, width, height, rect, 0));
    let mut i: usize = 0;
    while i < 12
        invariant
            i <= 12,
            fr == frame_rects(rect),
            forall|k: int| 0 <= k < 4 ==> bars@[k] == fr[k],
            forall|k: int| 0 <= k < 8 ==> handles@[k] == fr[k + 4],
            frame_defined(old_px.len(), width, height, rect),
            pixels@.len() == old_px.len(),
            pixels@ == framed_upto(old_px, width, height, rect, i as int),
        decreases 12 - i,
    {
        let r = if i < 4 { bars[i] } else { handles[i - 4] };
        assert(r == fr[i as int]);
        assert(paint_fits(old_px.len(), width, height, fr[i as int]));
        fill_rect_bgra(pixels, width, height, r, BORDER_R, BORDER_G, BORDER_B);
        proof {
            lemma_frame_step(old_px, width, height, rect, i as int);
        }
        i = i + 1;
    }
    assert(pixels@ =~= framed(old_px, width, height, rect));
}

} // verus!
