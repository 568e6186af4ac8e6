//! The region-selection overlay: its state, how pointer and key events change
//! it, and the frame it shows.
use vstd::prelude::*;
use crate::geometry::{
    any_edge, beyond_threshold, lemma_move_keeps_size, lemma_resize_stays_within, clamp_rect, distance_defined, distance_exceeds_threshold,
    edges_near, first_containing, fits_i32, grip_centres, grip_defined, grips_defined,
    hit_test_defined, hit_test_resize, monitor_rect_at_point, move_defined, move_rect_clamped,
    moved_within, normalize_rect, point_in_rect, rect_from_points, rect_of, resize_defined,
    resize_rect_clamped, resized, spanned_by, window_rect_at_point, dim_rects, bands_around,
    Edges, Point, Rect, HIT_PAD, MIN_SIZE,
};
use crate::text::{chars_eq_str, chars_of};
use crate::render::{
    dim_rect_bgra, draw_selection_frame, frame_defined, frame_rects, framed, image_rect,
    image_size_defined, paint_fits, painted_in_image, rgba_to_bgra, bgra_of, FrameError, Paint,
};

verus! {

/// Identifier of the overlay's Enter hotkey.
pub const HOTKEY_ENTER_ID: i32 = 701;

/// Identifier of the overlay's Escape hotkey.
pub const HOTKEY_ESCAPE_ID: i32 = 702;

/// Virtual-key code of Enter.
pub const VK_RETURN: u32 = 0x0D;

/// Virtual-key code of Escape.
pub const VK_ESCAPE: u32 = 0x1B;

/// Whether the user is still picking a window or adjusting a selection.
#[derive(Clone, Copy, Debug, PartialEq, Eq, Structural)]
pub enum Mode {
    Picking,
    Adjusting,
}

/// The drag in progress.
#[derive(Clone, Copy, Debug, PartialEq, Eq, Structural)]
pub enum Drag {
    Idle,
    PendingPick,
    Drawing,
    Moving,
    Resizing(Edges),
}

/// What a key press asks of the overlay.
#[derive(Clone, Copy, Debug, PartialEq, Eq, Structural)]
pub enum KeyAction {
    Complete,
    Cancel,
    Ignore,
}

/// The state of the overlay while a region is chosen.
#[derive(Debug)]
pub struct OverlayState {
    /// The desktop area the overlay covers.
    pub bounds: Rect,
    /// The monitors, in desktop coordinates.
    pub monitor_rects: Vec<Rect>,
    /// The windows that can be picked, topmost first.
    pub window_rects: Vec<Rect>,
    /// The frozen desktop image as opaque BGRA.
    pub frozen_bgra: Vec<u8>,
    pub frozen_width: usize,
    pub frozen_height: usize,
    /// The current selection, in desktop coordinates.
    pub selection: Rect,
    pub mode: Mode,
    pub drag: Drag,
    /// Where the current drag started.
    pub start: Point,
    /// The selection when the current drag started.
    pub start_selection: Rect,
    /// The overlay has finished (taken or cancelled).
    pub done: bool,
    /// The region taken, if any.
    pub result: Option<Rect>,
}

/// The rectangle under `pt` when picking: the topmost window there, else the
/// monitor there, else the whole desktop.
pub open spec fn picked_rect(pt: Point, windows: Seq<Rect>, monitors: Seq<Rect>, bounds: Rect) -> Rect {
    match first_containing(windows, pt) {
        Some(r) => r,
        None => match first_containing(monitors, pt) {
            Some(r) => r,
            None => bounds,
        },
    }
}

/// The selection the overlay opens with: what lies under the cursor, or the
/// whole desktop when the cursor position is unknown.
pub open spec fn initial_selection(cursor: Option<Point>, windows: Seq<Rect>, monitors: Seq<Rect>, bounds: Rect) -> Rect {
    match cursor {
        Some(pt) => match first_containing(windows, pt) {
            Some(r) => r,
            None => match first_containing(monitors, pt) {
                Some(r) => r,
                None => bounds,
            },
        },
        None => bounds,
    }
}

/// The monitor rectangles the overlay uses: the given ones, or the whole desktop
/// where none were given.
pub open spec fn monitors_or_bounds(monitors: Seq<Rect>, bounds: Rect) -> Seq<Rect> {
    if monitors.len() == 0 {
        seq![bounds]
    } else {
        monitors
    }
}

/// Bits 16 to 31 of a message parameter.
pub open spec fn high_word(lparam: isize) -> u32 {
    ((lparam >> 16u32) & 0xffff) as u32
}

/// Bits 0 to 15 of `v`, read as a signed 16-bit number.
pub open spec fn signed_low_word(v: isize) -> i32 {
    (#[verifier::truncate] ((v & 0xffff) as u16) as i16) as i32
}

/// The pointer position of a pointer message: the signed low and high words
/// of `lparam`, offset by the overlay's origin.
pub open spec fn lparam_point(lparam: isize, bounds: Rect) -> Point {
    Point {
        x: (signed_low_word(lparam) + bounds.left) as i32,
        y: (signed_low_word(lparam >> 16u32) + bounds.top) as i32,
    }
}

impl OverlayState {
    /// Sets up the overlay over a frozen desktop image (RGBA, `width` x `height`)
    /// covering `bounds`, selecting what lies under the cursor.
    pub fn new(
        bounds: Rect,
        monitor_rects: Vec<Rect>,
        window_rects: Vec<Rect>,
        cursor: Option<Point>,
        image: &[u8],
        width: u32,
        height: u32,
    ) -> (r: Result<OverlayState, FrameError>)
        requires
            width * height * 4 <= usize::MAX,
        ensures
            image@.len() != width * height * 4 ==> r == Err::<OverlayState, FrameError>(
                FrameError::PixelSizeMismatch,
            ),
            image@.len() == width * height * 4 ==> (r matches Ok(s) && {
                &&& s.bounds == bounds
                &&& s.monitor_rects@ == monitors_or_bounds(monitor_rects@, bounds)
                &&& s.window_rects@ == window_rects@
                &&& s.frozen_bgra@ == bgra_of(image@)
                &&& s.frozen_width == width
                &&& s.frozen_height == height
                &&& s.selection == initial_selection(
                    cursor,
                    window_rects@,
                    monitors_or_bounds(monitor_rects@, bounds),
                    bounds,
                )
                &&& s.mode == Mode::Picking
                &&& s.drag == Drag::Idle
                &&& s.start == Point { x: 0, y: 0 }
                &&& s.start_selection == bounds
                &&& !s.done
                &&& s.result is None
            }),
    {
        let monitor_rects = if monitor_rects.len() == 0 {
            let mut v: Vec<Rect> = Vec::new();
            v.push(bounds);
            assert(v@ =~= seq![bounds]);
            v
        } else {
            monitor_rects
        };
        let selection = match cursor {
            Some(pt) => match window_rect_at_point(pt, window_rects.as_slice()) {
                Some(r) => r,
                None => match monitor_rect_at_point(pt, monitor_rects.as_slice()) {
                    Some(r) => r,
                    None => bounds,
                },
            },
            None => bounds,
        };
        let frozen_bgra = match rgba_to_bgra(image, width, height) {
            Ok(v) => v,
            Err(e) => {
                return Err(e);
            },
        };
        Ok(
            OverlayState {
                bounds,
                monitor_rects,
                window_rects,
                frozen_bgra,
                frozen_width: width as usize,
                frozen_height: height as usize,
                selection,
                mode: Mode::Picking,
                drag: Drag::Idle,
                start: Point { x: 0, y: 0 },
                start_selection: bounds,
                done: false,
                result: None,
            },
        )
    }

    /// The pointer offset from the drag's start fits in `i32`.
    pub open spec fn offset_defined(self, pt: Point) -> bool {
        fits_i32(pt.x - self.start.x) && fits_i32(pt.y - self.start.y)
    }

    /// Handling a pointer move at `pt` neither overflows nor clamps into an
    /// empty range.
    pub open spec fn mouse_move_defined(self, pt: Point) -> bool {
        &&& self.bounds.is_normalized()
        &&& match self.drag {
            Drag::PendingPick => distance_defined(self.start, pt),
            Drag::Moving => self.offset_defined(pt) && move_defined(
                self.start_selection,
                (pt.x - self.start.x) as i32,
                (pt.y - self.start.y) as i32,
                self.bounds,
            ),
            Drag::Resizing(edges) => resize_defined(self.start_selection, edges, pt, self.bounds),
            _ => true,
        }
    }

    /// The selection and drag after a pointer move to `pt`.
    pub open spec fn after_mouse_move(self, pt: Point) -> (Rect, Drag) {
        match self.drag {
            Drag::Idle => if self.mode == Mode::Picking {
                (
                    picked_rect(
                        pt,
                        self.window_rects@,
                        self.monitor_rects@,
                        self.bounds,
                    ).clamped_to(self.bounds),
                    Drag::Idle,
                )
            } else {
                (self.selection, Drag::Idle)
            },
            Drag::PendingPick => if beyond_threshold(self.start, pt) {
                (spanned_by(self.start, pt).clamped_to(self.bounds), Drag::Drawing)
            } else {
                (self.selection, Drag::PendingPick)
            },
            Drag::Drawing => (spanned_by(self.start, pt).clamped_to(self.bounds), Drag::Drawing),
            Drag::Moving => (
                moved_within(
                    self.start_selection,
                    (pt.x - self.start.x) as i32,
                    (pt.y - self.start.y) as i32,
                    self.bounds,
                ),
                Drag::Moving,
            ),
            Drag::Resizing(edges) => (
                resized(self.start_selection, edges, pt, self.bounds),
                Drag::Resizing(edges),
            ),
        }
    }

    /// Whether a pointer move to `pt` can be handled (see `mouse_move_defined`).
    pub fn can_handle_mouse_move(&self, pt: Point) -> (b: bool)
        ensures
            b == self.mouse_move_defined(pt),
    {
        if !(self.bounds.left <= self.bounds.right && self.bounds.top <= self.bounds.bottom) {
            return false;
        }
        match self.drag {
            Drag::PendingPick => {
                let dx = pt.x as i64 - self.start.x as i64;
                let dy = pt.y as i64 - self.start.y as i64;
                let ax = if dx < 0 { -dx } else { dx };
                ax <= i32::MAX as i64 && (ax > 3 || (dy >= -(i32::MAX as i64) && dy
                    <= i32::MAX as i64))
            },
            Drag::Moving => {
                let dx = pt.x as i64 - self.start.x as i64;
                let dy = pt.y as i64 - self.start.y as i64;
                if dx < i32::MIN as i64 || dx > i32::MAX as i64 || dy < i32::MIN as i64 || dy
                    > i32::MAX as i64 {
                    return false;
                }
                let n = normalize_rect(self.start_selection);
                let w = n.right as i64 - n.left as i64;
                let h = n.bottom as i64 - n.top as i64;
                let l = n.left as i64 + dx;
                let t = n.top as i64 + dy;
                let hx = self.bounds.right as i64 - w;
                let hy = self.bounds.bottom as i64 - h;
                w <= i32::MAX as i64 && h <= i32::MAX as i64 && i32::MIN as i64 <= l && l
                    <= i32::MAX as i64 && i32::MIN as i64 <= t && t <= i32::MAX as i64
                    && i32::MIN as i64 <= hx && hx <= i32::MAX as i64 && i32::MIN as i64 <= hy
                    && hy <= i32::MAX as i64 && self.bounds.left as i64 <= hx
                    && self.bounds.top as i64 <= hy
            },
            Drag::Resizing(edges) => {
                let o = self.start_selection;
                let b = self.bounds;
                let mut left = o.left as i64;
                if edges.left {
                    let hi = o.right as i64 - MIN_SIZE as i64;
                    if hi < i32::MIN as i64 || (b.left as i64) > hi {
                        return false;
                    }
                    left = if (pt.x as i64) < b.left as i64 {
                        b.left as i64
                    } else if pt.x as i64 > hi {
                        hi
                    } else {
                        pt.x as i64
                    };
                }
                if edges.right {
                    let lo = left + MIN_SIZE as i64;
                    if lo > i32::MAX as i64 || lo > b.right as i64 {
                        return false;
                    }
                }
                let mut top = o.top as i64;
                if edges.top {
                    let hi = o.bottom as i64 - MIN_SIZE as i64;
                    if hi < i32::MIN as i64 || (b.top as i64) > hi {
                        return false;
                    }
                    top = if (pt.y as i64) < b.top as i64 {
                        b.top as i64
                    } else if pt.y as i64 > hi {
                        hi
                    } else {
                        pt.y as i64
                    };
                }
                if edges.bottom {
                    let lo = top + MIN_SIZE as i64;
                    if lo > i32::MAX as i64 || lo > b.bottom as i64 {
                        return false;
                    }
                }
                true
            },
            _ => true,
        }
    }

    /// Follows a pointer move to `pt`: picking tracks what lies under the
    /// pointer, drawing spans from the press to the pointer, moving and
    /// resizing act on the selection as it was when the drag began.
    pub fn handle_mouse_move(&mut self, pt: Point)
        requires
            old(self).mouse_move_defined(pt),
        ensures
            *final(self) == old(self).moved(pt),
    {
        match self.drag {
            Drag::Idle => {
                if self.mode == Mode::Picking {
                    let picked = match window_rect_at_point(pt, self.window_rects.as_slice()) {
                        Some(r) => r,
                        None => match monitor_rect_at_point(pt, self.monitor_rects.as_slice()) {
                            Some(r) => r,
                            None => self.bounds,
                        },
                    };
                    self.selection = clamp_rect(picked, self.bounds);
                }
            },
            Drag::PendingPick => {
                if distance_exceeds_threshold(self.start, pt) {
                    self.drag = Drag::Drawing;
                    self.selection = clamp_rect(rect_from_points(self.start, pt), self.bounds);
                }
            },
            Drag::Drawing => {
                self.selection = clamp_rect(rect_from_points(self.start, pt), self.bounds);
            },
            Drag::Moving => {
                self.selection = move_rect_clamped(
                    self.start_selection,
                    pt.x - self.start.x,
                    pt.y - self.start.y,
                    self.bounds,
                );
            },
            Drag::Resizing(edges) => {
                self.selection = resize_rect_clamped(self.start_selection, edges, pt, self.bounds);
            },
        }
    }

    /// The drag a press at `pt` starts.
    pub open spec fn drag_for_press(self, pt: Point) -> Drag {
        if self.mode == Mode::Picking {
            Drag::PendingPick
        } else if any_edge(edges_near(self.selection, pt)) {
            Drag::Resizing(edges_near(self.selection, pt))
        } else if self.selection.normalized().contains_point(pt) {
            Drag::Moving
        } else {
            Drag::Drawing
        }
    }

    /// A press can be classified: in adjusting mode the edge test must not overflow.
    pub open spec fn press_defined(self, pt: Point) -> bool {
        self.mode == Mode::Adjusting ==> hit_test_defined(self.selection, pt)
    }

    /// Whether a press at `pt` can be classified (see `press_defined`).
    pub fn can_begin_drag(&self, pt: Point) -> (b: bool)
        ensures
            b == self.press_defined(pt),
    {
        if self.mode == Mode::Picking {
            return true;
        }
        let n = normalize_rect(self.selection);
        let x = pt.x as i64;
        let y = pt.y as i64;
        let max = i32::MAX as i64;
        let min = i32::MIN as i64;
        let d1 = x - n.left as i64;
        let d2 = x - n.right as i64;
        let d3 = y - n.top as i64;
        let d4 = y - n.bottom as i64;
        -max <= d1 && d1 <= max && -max <= d2 && d2 <= max && -max <= d3 && d3 <= max && -max
            <= d4 && d4 <= max && n.left as i64 - 8 >= min && n.top as i64 - 8 >= min && (x
            < n.left as i64 - 8 || n.right as i64 + 8 <= max) && (y < n.top as i64 - 8
            || n.bottom as i64 + 8 <= max)
    }

    /// The drag that a press at `pt` starts: a pending pick while picking,
    /// otherwise resizing at an edge, moving inside, drawing outside.
    pub fn begin_drag(&self, pt: Point) -> (d: Drag)
        requires
            self.press_defined(pt),
        ensures
            d == self.drag_for_press(pt),
    {
        if self.mode == Mode::Picking {
            return Drag::PendingPick;
        }
        if let Some(edges) = hit_test_resize(self.selection, pt) {
            return Drag::Resizing(edges);
        }
        if point_in_rect(pt, normalize_rect(self.selection)) {
            return Drag::Moving;
        }
        Drag::Drawing
    }

    /// A button press at `pt`: remembers where the drag started and the selection
    /// it started from, and begins the drag.
    pub fn press(&mut self, pt: Point)
        requires
            old(self).press_defined(pt),
        ensures
            *final(self) == old(self).pressed(pt),
    {
        self.start = pt;
        self.start_selection = self.selection;
        self.drag = self.begin_drag(pt);
    }

    /// The selection and mode after the button is released at `pt`.
    pub open spec fn after_release(self, pt: Point) -> (Rect, Mode) {
        match self.drag {
            Drag::PendingPick => (self.selection, Mode::Adjusting),
            Drag::Drawing => (spanned_by(self.start, pt).clamped_to(self.bounds), Mode::Adjusting),
            Drag::Moving => (self.selection.clamped_to(self.bounds), Mode::Adjusting),
            Drag::Resizing(_) => (self.selection.clamped_to(self.bounds), Mode::Adjusting),
            Drag::Idle => (self.selection, self.mode),
        }
    }

    /// Ends the drag at `pt`; any drag leaves the overlay adjusting a selection
    /// that lies inside the bounds.
    pub fn finish_drag(&mut self, pt: Point)
        requires
            old(self).bounds.is_normalized(),
        ensures
            *final(self) == old(self).released(pt),
    {
        match self.drag {
            Drag::PendingPick => {
                self.mode = Mode::Adjusting;
            },
            Drag::Drawing => {
                self.selection = clamp_rect(rect_from_points(self.start, pt), self.bounds);
                self.mode = Mode::Adjusting;
            },
            Drag::Moving | Drag::Resizing(_) => {
                self.selection = clamp_rect(normalize_rect(self.selection), self.bounds);
                self.mode = Mode::Adjusting;
            },
            Drag::Idle => {},
        }
        self.drag = Drag::Idle;
    }

    /// The selection is large enough to be taken: at least `MIN_SIZE` pixels in
    /// both directions.
    pub open spec fn selection_large_enough(self) -> bool {
        let n = self.selection.normalized();
        n.right - n.left >= MIN_SIZE && n.bottom - n.top >= MIN_SIZE
    }

    /// The width and height of the selection fit in `i32`.
    pub open spec fn selection_size_defined(self) -> bool {
        let n = self.selection.normalized();
        fits_i32(n.right - n.left) && fits_i32(n.bottom - n.top)
    }

    /// Whether the selection's size can be computed (see `selection_size_defined`).
    pub fn can_complete(&self) -> (b: bool)
        ensures
            b == self.selection_size_defined(),
    {
        let n = normalize_rect(self.selection);
        (n.right as i64 - n.left as i64) <= i32::MAX as i64 && (n.bottom as i64 - n.top as i64)
            <= i32::MAX as i64
    }

    /// Takes the selection when it is large enough: the result becomes the
    /// normalized selection and the overlay is done. Returns whether it was taken.
    pub fn complete_selection(&mut self) -> (taken: bool)
        requires
            old(self).selection_size_defined(),
        ensures
            taken == old(self).selection_large_enough(),
            *final(self) == old(self).completed(),
    {
        let rect = normalize_rect(self.selection);
        if rect.right - rect.left >= MIN_SIZE && rect.bottom - rect.top >= MIN_SIZE {
            self.result = Some(rect);
            self.done = true;
            true
        } else {
            false
        }
    }

    /// Gives up the selection: no result, and the overlay is done.
    pub fn cancel_selection(&mut self)
        ensures
            *final(self) == old(self).cancelled(),
    {
        self.result = None;
        self.done = true;
    }

    /// The selection in image coordinates: shifted by the desktop's origin and
    /// clamped to the frozen image.
    pub open spec fn local_selection(self) -> Rect {
        let n = self.selection.normalized();
        rect_of(
            n.left - self.bounds.left,
            n.top - self.bounds.top,
            n.right - self.bounds.left,
            n.bottom - self.bounds.top,
        ).clamped_to(image_rect(self.frozen_width, self.frozen_height))
    }

    /// The overlay frame: the frozen image dimmed outside the selection, with
    /// the selection frame drawn on top.
    pub open spec fn overlay_pixels(self) -> Seq<u8> {
        let img = image_rect(self.frozen_width, self.frozen_height);
        let local = self.local_selection();
        let bands = bands_around(img, local);
        let w = self.frozen_width;
        let h = self.frozen_height;
        let d0 = painted_in_image(self.frozen_bgra@, w, h, bands[0], Paint::Dim);
        let d1 = painted_in_image(d0, w, h, bands[1], Paint::Dim);
        let d2 = painted_in_image(d1, w, h, bands[2], Paint::Dim);
        let d3 = painted_in_image(d2, w, h, bands[3], Paint::Dim);
        framed(d3, w, h, local)
    }

    /// The frozen image holds `width * height` BGRA pixels, the selection can
    /// be shifted into image coordinates, and the frame around it stays in `i32`.
    pub open spec fn render_defined(self) -> bool {
        let n = self.selection.normalized();
        let local = self.local_selection();
        &&& self.frozen_bgra@.len() == self.frozen_width * self.frozen_height * 4
        &&& image_size_defined(self.frozen_width, self.frozen_height)
        &&& fits_i32(n.left - self.bounds.left)
        &&& fits_i32(n.top - self.bounds.top)
        &&& fits_i32(n.right - self.bounds.left)
        &&& fits_i32(n.bottom - self.bounds.top)
        &&& local.right + 4 <= i32::MAX
        &&& local.bottom + 4 <= i32::MAX
        &&& local.left + local.right <= i32::MAX
        &&& local.top + local.bottom <= i32::MAX
    }

    /// Whether the overlay frame can be rendered (see `render_defined`).
    pub fn can_render(&self) -> (b: bool)
        ensures
            b == self.render_defined(),
    {
        let w = self.frozen_width;
        let h = self.frozen_height;
        assert((w as u128) * (h as u128) <= 0xffff_ffff_ffff_ffff * 0xffff_ffff_ffff_ffff)
            by (nonlinear_arith)
            requires
                w <= 0xffff_ffff_ffff_ffff,
                h <= 0xffff_ffff_ffff_ffff,
        ;
        let wh = (w as u128) * (h as u128);
        assert(wh == w * h);
        let len = self.frozen_bgra.len();
        assert(len == self.frozen_bgra@.len());
        if wh > usize::MAX as u128 {
            assert(len < w * h * 4);
            return false;
        }
        if wh * 4 != len as u128 {
            return false;
        }
        let wi = #[verifier::truncate] (w as i32);
        let hi = #[verifier::truncate] (h as i32);
        if wi < 0 || hi < 0 {
            return false;
        }
        let n = normalize_rect(self.selection);
        let l = n.left as i64 - self.bounds.left as i64;
        let t = n.top as i64 - self.bounds.top as i64;
        let r = n.right as i64 - self.bounds.left as i64;
        let bt = n.bottom as i64 - self.bounds.top as i64;
        let lo = i32::MIN as i64;
        let hi32 = i32::MAX as i64;
        if l < lo || l > hi32 || t < lo || t > hi32 || r < lo || r > hi32 || bt < lo || bt > hi32 {
            return false;
        }
        let image = Rect { left: 0, top: 0, right: wi, bottom: hi };
        let local = clamp_rect(
            Rect { left: l as i32, top: t as i32, right: r as i32, bottom: bt as i32 },
            image,
        );
        local.right as i64 + 4 <= hi32 && local.bottom as i64 + 4 <= hi32 && local.left as i64
            + local.right as i64 <= hi32 && local.top as i64 + local.bottom as i64 <= hi32
    }

    /// Renders the overlay frame (see `overlay_pixels`); an empty frozen image
    /// is an error.
    pub fn render_overlay(&self) -> (r: Result<Vec<u8>, FrameError>)
        requires
            self.frozen_width == 0 || self.frozen_height == 0 || self.render_defined(),
        ensures
            self.frozen_width == 0 || self.frozen_height == 0 ==> r == Err::<Vec<u8>, FrameError>(
                FrameError::EmptyFrame,
            ),
            !(self.frozen_width == 0 || self.frozen_height == 0) ==> (r matches Ok(v) && v@
                == self.overlay_pixels()),
    {
        if self.frozen_width == 0 || self.frozen_height == 0 {
            return Err(FrameError::EmptyFrame);
        }
        let w = self.frozen_width;
        let h = self.frozen_height;
        let ghost len = self.frozen_bgra@.len();
        let mut pixels = self.frozen_bgra.clone();
        let n = normalize_rect(self.selection);
        let image = Rect { left: 0, top: 0, right: w as i32, bottom: h as i32 };
        let local = clamp_rect(
            Rect {
                left: n.left - self.bounds.left,
                top: n.top - self.bounds.top,
                right: n.right - self.bounds.left,
                bottom: n.bottom - self.bounds.top,
            },
            image,
        );
        let bands = dim_rects(image, local);
        proof {
            lemma_paint_fits_in_image(len, w, h, bands@[0]);
            lemma_paint_fits_in_image(len, w, h, bands@[1]);
            lemma_paint_fits_in_image(len, w, h, bands@[2]);
            lemma_paint_fits_in_image(len, w, h, bands@[3]);
        }
        dim_rect_bgra(pixels.as_mut_slice(), w, h, bands[0]);
        dim_rect_bgra(pixels.as_mut_slice(), w, h, bands[1]);
        dim_rect_bgra(pixels.as_mut_slice(), w, h, bands[2]);
        dim_rect_bgra(pixels.as_mut_slice(), w, h, bands[3]);
        proof {
            lemma_frame_defined(len, w, h, local);
        }
        draw_selection_frame(pixels.as_mut_slice(), w, h, local);
        Ok(pixels)
    }
}

impl OverlayState {
    /// The state after a pointer move to `pt` (see `after_mouse_move`).
    pub open spec fn moved(self, pt: Point) -> OverlayState {
        OverlayState {
            selection: self.after_mouse_move(pt).0,
            drag: self.after_mouse_move(pt).1,
            ..self
        }
    }

    /// The state after a button press at `pt`: the drag starts there, from the
    /// current selection.
    pub open spec fn pressed(self, pt: Point) -> OverlayState {
        OverlayState { start: pt, start_selection: self.selection, drag: self.drag_for_press(pt), ..self }
    }

    /// The state after the button is released at `pt` (see `after_release`).
    pub open spec fn released(self, pt: Point) -> OverlayState {
        OverlayState {
            selection: self.after_release(pt).0,
            mode: self.after_release(pt).1,
            drag: Drag::Idle,
            ..self
        }
    }

    /// The state after asking to take the selection: done with the normalized
    /// selection as the result when it is large enough, unchanged otherwise.
    pub open spec fn completed(self) -> OverlayState {
        if self.selection_large_enough() {
            OverlayState { result: Some(self.selection.normalized()), done: true, ..self }
        } else {
            self
        }
    }

    /// The state after cancelling: done, without a result.
    pub open spec fn cancelled(self) -> OverlayState {
        OverlayState { result: None, done: true, ..self }
    }

    /// The bounds are ordered, and the selection and the selection a drag started
    /// from are ordered rectangles inside them.
    pub open spec fn settled(self) -> bool {
        &&& self.bounds.is_normalized()
        &&& self.selection.is_normalized()
        &&& self.selection.within(self.bounds)
        &&& self.start_selection.is_normalized()
        &&& self.start_selection.within(self.bounds)
    }
}

/// Every event keeps a settled overlay settled: a pointer move, a press and a
/// release leave the selection, and the selection a drag starts from, ordered
/// rectangles inside the bounds. A release ends any drag in adjusting mode, and
/// the selection taken from a settled overlay is the selection itself, inside
/// the bounds and at least `MIN_SIZE` wide and high.
pub proof fn lemma_events_keep_settled(s: OverlayState, pt: Point)
    requires
        s.settled(),
    ensures
        s.mouse_move_defined(pt) ==> s.moved(pt).settled(),
        s.pressed(pt).settled(),
        s.released(pt).settled(),
        s.drag != Drag::Idle ==> s.released(pt).mode == Mode::Adjusting,
        s.released(pt).drag == Drag::Idle,
        s.selection_large_enough() ==> s.completed().result == Some(s.selection)
            && s.selection.within(s.bounds) && s.selection.right - s.selection.left >= MIN_SIZE
            && s.selection.bottom - s.selection.top >= MIN_SIZE,
{
    if s.mouse_move_defined(pt) {
        match s.drag {
            Drag::Moving => {
                lemma_move_keeps_size(
                    s.start_selection,
                    (pt.x - s.start.x) as i32,
                    (pt.y - s.start.y) as i32,
                    s.bounds,
                );
            },
            Drag::Resizing(edges) => {
                lemma_resize_stays_within(s.start_selection, edges, pt, s.bounds);
            },
            _ => {},
        }
    }
}

/// A pointer move changes nothing but the selection and the drag, and the drag
/// only from a pending pick to drawing, once the pointer is more than three
/// pixels away from the press along some axis.
pub proof fn lemma_mouse_move_changes(s: OverlayState, pt: Point)
    ensures
        (OverlayState { selection: s.selection, drag: s.drag, ..s.moved(pt) }) == s,
        s.moved(pt).drag != s.drag ==> s.drag == Drag::PendingPick && s.moved(pt).drag
            == Drag::Drawing && beyond_threshold(s.start, pt),
{
}

/// In adjusting mode a press grabs every edge it is near (within `HIT_PAD` of
/// the edge and, along it, no further than `HIT_PAD` past the selection's
/// ends), whether it falls inside the selection or outside; it moves the
/// selection exactly when it falls inside, more than `HIT_PAD` away from every
/// edge.
pub proof fn lemma_press_grabs_edges(s: OverlayState, pt: Point)
    requires
        s.mode == Mode::Adjusting,
    ensures
        ({
            let n = s.selection.normalized();
            let level_x = n.left - HIT_PAD <= pt.x <= n.right + HIT_PAD;
            let level_y = n.top - HIT_PAD <= pt.y <= n.bottom + HIT_PAD;
            let d = s.pressed(pt).drag;
            &&& level_y && n.left - HIT_PAD <= pt.x <= n.left + HIT_PAD ==> (d matches Drag::Resizing(
                e,
            ) && e.left)
            &&& level_y && n.right - HIT_PAD <= pt.x <= n.right + HIT_PAD ==> (d matches Drag::Resizing(
                e,
            ) && e.right)
            &&& level_x && n.top - HIT_PAD <= pt.y <= n.top + HIT_PAD ==> (d matches Drag::Resizing(
                e,
            ) && e.top)
            &&& level_x && n.bottom - HIT_PAD <= pt.y <= n.bottom + HIT_PAD ==> (
            d matches Drag::Resizing(e) && e.bottom)
            &&& (d == Drag::Moving) <==> (n.left + HIT_PAD < pt.x < n.right - HIT_PAD && n.top
                + HIT_PAD < pt.y < n.bottom - HIT_PAD)
        }),
{
}

/// While picking, a pointer move selects an ordered rectangle inside the bounds,
/// whatever was selected before.
pub proof fn lemma_picking_selects_inside(s: OverlayState, pt: Point)
    requires
        s.bounds.is_normalized(),
        s.drag == Drag::Idle,
        s.mode == Mode::Picking,
    ensures
        s.after_mouse_move(pt).0.is_normalized(),
        s.after_mouse_move(pt).0.within(s.bounds),
{
}

/// The virtual-key code carried by a hotkey message.
pub fn hotkey_vk(lparam: isize) -> (vk: u32)
    ensures
        vk == high_word(lparam),
        vk < 0x10000,
{
    let m = (lparam >> 16u32) & 0xffff;
    assert(0 <= (lparam >> 16u32) & 0xffff < 0x10000) by (bit_vector);
    m as u32
}

/// What a key (or hotkey) with the virtual-key code `vk` does: Enter takes the
/// selection, Escape cancels, others are ignored.
pub fn key_action(vk: u32) -> (a: KeyAction)
    ensures
        vk == VK_RETURN ==> a == KeyAction::Complete,
        vk == VK_ESCAPE ==> a == KeyAction::Cancel,
        vk != VK_RETURN && vk != VK_ESCAPE ==> a == KeyAction::Ignore,
{
    if vk == VK_RETURN {
        KeyAction::Complete
    } else if vk == VK_ESCAPE {
        KeyAction::Cancel
    } else {
        KeyAction::Ignore
    }
}

/// What the overlay's registered hotkey with identifier `id` does.
pub fn hotkey_action(id: i32) -> (a: KeyAction)
    ensures
        id == HOTKEY_ENTER_ID ==> a == KeyAction::Complete,
        id == HOTKEY_ESCAPE_ID ==> a == KeyAction::Cancel,
        id != HOTKEY_ENTER_ID && id != HOTKEY_ESCAPE_ID ==> a == KeyAction::Ignore,
{
    if id == HOTKEY_ENTER_ID {
        KeyAction::Complete
    } else if id == HOTKEY_ESCAPE_ID {
        KeyAction::Cancel
    } else {
        KeyAction::Ignore
    }
}

proof fn lemma_paint_fits_in_image(len: nat, w: usize, h: usize, rect: Rect)
    requires
        len == w * h * 4,
        image_size_defined(w, h),
    ensures
        paint_fits(len, w, h, rect),
{
    assert((w as i32) >= 0 ==> (w as i32) as int <= w as int) by (bit_vector);
    assert((h as i32) >= 0 ==> (h as i32) as int <= h as int) by (bit_vector);
    let c = rect.clamped_to(image_rect(w, h));
    if c.left < c.right && c.top < c.bottom {
        assert(((c.bottom - 1) * w + c.right) * 4 <= len) by (nonlinear_arith)
            requires
                1 <= c.bottom <= h,
                c.right <= w,
                len == w * h * 4,
                0 <= w,
        ;
    }
}

proof fn lemma_frame_defined(len: nat, w: usize, h: usize, local: Rect)
    requires
        len == w * h * 4,
        image_size_defined(w, h),
        local.within(image_rect(w, h)),
        local.is_normalized(),
        local.right + 4 <= i32::MAX,
        local.bottom + 4 <= i32::MAX,
        local.left + local.right <= i32::MAX,
        local.top + local.bottom <= i32::MAX,
    ensures
        frame_defined(len, w, h, local),
{
    let n = local.normalized();
    assert(n == local);
    let c = grip_centres(n);
    assert forall|i: int| 0 <= i < 8 implies #[trigger] grip_defined(c[i].0, c[i].1) by {}
    assert(grips_defined(n));
    assert forall|i: int| 0 <= i < 12 implies #[trigger] paint_fits(
        len,
        w,
        h,
        frame_rects(local)[i],
    ) by {
        lemma_paint_fits_in_image(len, w, h, frame_rects(local)[i]);
    }
}

/// Extended window style bit of tool windows (palettes, floating toolbars).
pub const WS_EX_TOOLWINDOW: u32 = 0x80;

/// Smallest width and height of a window that can be picked.
pub const MIN_PICK_SIZE: i64 = 16;

/// The window classes of the desktop background and the taskbars.
pub open spec fn is_shell_desktop_class_spec(name: Seq<char>) -> bool {
    name == "Progman"@ || name == "WorkerW"@ || name == "Shell_TrayWnd"@ || name
        == "Shell_SecondaryTrayWnd"@
}

/// Whether a window class belongs to the desktop shell (background or taskbar),
/// whose windows are never offered for picking.
pub fn is_shell_desktop_class(name: &str) -> (b: bool)
    ensures
        b == is_shell_desktop_class_spec(name@),
{
    let v = chars_of(name);
    chars_eq_str(v.as_slice(), "Progman") || chars_eq_str(v.as_slice(), "WorkerW")
        || chars_eq_str(v.as_slice(), "Shell_TrayWnd") || chars_eq_str(
        v.as_slice(),
        "Shell_SecondaryTrayWnd",
    )
}

/// The rectangle a window offers for picking, if it offers one.
pub open spec fn pickable_rect(
    visible: bool,
    iconic: bool,
    ex_style: u32,
    class_name: Seq<char>,
    frame: Rect,
) -> Option<Rect> {
    let r = frame.normalized();
    if !visible || iconic || ex_style & WS_EX_TOOLWINDOW != 0 || is_shell_desktop_class_spec(
        class_name,
    ) || r.width() < MIN_PICK_SIZE || r.height() < MIN_PICK_SIZE {
        None
    } else {
        Some(r)
    }
}

/// Decides whether a top-level window can be picked, from what the system says
/// of it: it must be visible, not minimised, not a tool window, not part of the
/// desktop shell, and at least 16 pixels in each direction; the rectangle
/// offered is its frame with the edges put in order.
pub fn selectable_window_rect(
    visible: bool,
    iconic: bool,
    ex_style: u32,
    class_name: &str,
    frame: Rect,
) -> (r: Option<Rect>)
    ensures
        r == pickable_rect(visible, iconic, ex_style, class_name@, frame),
{
    if !visible || iconic {
        return None;
    }
    if ex_style & WS_EX_TOOLWINDOW != 0 {
        return None;
    }
    if is_shell_desktop_class(class_name) {
        return None;
    }
    let rect = normalize_rect(frame);
    let width: i64 = rect.right as i64 - rect.left as i64;
    let height: i64 = rect.bottom as i64 - rect.top as i64;
    if width < MIN_PICK_SIZE || height < MIN_PICK_SIZE {
        return None;
    }
    Some(rect)
}

/// The pointer position carried by a pointer message, relative to `bounds`.
pub fn point_from_lparam(lparam: isize, bounds: Rect) -> (p: Point)
    requires
        fits_i32(signed_low_word(lparam) + bounds.left),
        fits_i32(signed_low_word(lparam >> 16u32) + bounds.top),
    ensures
        p == lparam_point(lparam, bounds),
{
    let lo = (#[verifier::truncate] ((lparam & 0xffff) as u16) as i16) as i32;
    let hi = (#[verifier::truncate] (((lparam >> 16u32) & 0xffff) as u16) as i16) as i32;
    Point { x: lo + bounds.left, y: hi + bounds.top }
}

} // verus!
