//! Integer screen geometry: points, rectangles and the rectangle operations
//! that the selection overlay is built from.
use vstd::prelude::*;

verus! {

/// Side length of the square grips drawn on the selection frame.
pub const HANDLE_SIZE: i32 = 8;

/// Distance from an edge within which a press grabs that edge.
pub const HIT_PAD: i32 = 8;

/// Smallest width and height a resize leaves a selection with.
pub const MIN_SIZE: i32 = 6;

/// A point in virtual-desktop coordinates.
#[derive(Clone, Copy, Debug, PartialEq, Eq, Structural)]
pub struct Point {
    pub x: i32,
    pub y: i32,
}

/// A rectangle given by its four edges (not necessarily ordered).
#[derive(Clone, Copy, Debug, PartialEq, Eq, Structural)]
pub struct Rect {
    pub left: i32,
    pub top: i32,
    pub right: i32,
    pub bottom: i32,
}

/// Which edges of a selection a drag resizes.
#[derive(Clone, Copy, Debug, PartialEq, Eq, Structural)]
pub struct Edges {
    pub left: bool,
    pub top: bool,
    pub right: bool,
    pub bottom: bool,
}

/// The value fits in an `i32`.
pub open spec fn fits_i32(v: int) -> bool {
    i32::MIN <= v <= i32::MAX
}

/// The value fits in an `i32` and has an absolute value that fits too.
pub open spec fn abs_fits_i32(v: int) -> bool {
    -(i32::MAX as int) <= v <= i32::MAX
}

pub open spec fn min_int(a: int, b: int) -> int {
    if a <= b { a } else { b }
}

pub open spec fn max_int(a: int, b: int) -> int {
    if a >= b { a } else { b }
}

pub open spec fn abs_int(a: int) -> int {
    if a < 0 { -a } else { a }
}

/// `v.clamp(lo, hi)` for `lo <= hi`.
pub open spec fn clamp_int(v: int, lo: int, hi: int) -> int {
    if v < lo { lo } else if v > hi { hi } else { v }
}

/// Rust's truncating division of an integer by two.
pub open spec fn half_toward_zero(v: int) -> int {
    if v >= 0 { v / 2 } else { -((-v) / 2) }
}

pub open spec fn rect_of(left: int, top: int, right: int, bottom: int) -> Rect {
    Rect { left: left as i32, top: top as i32, right: right as i32, bottom: bottom as i32 }
}

impl Rect {
    /// Left edge not right of the right edge, top not below the bottom.
    pub open spec fn is_normalized(self) -> bool {
        self.left <= self.right && self.top <= self.bottom
    }

    /// The rectangle with the same corners, edges put in order.
    pub open spec fn normalized(self) -> Rect {
        Rect {
            left: min_int(self.left as int, self.right as int) as i32,
            top: min_int(self.top as int, self.bottom as int) as i32,
            right: max_int(self.left as int, self.right as int) as i32,
            bottom: max_int(self.top as int, self.bottom as int) as i32,
        }
    }

    /// Edge-inclusive containment of a point.
    pub open spec fn contains_point(self, pt: Point) -> bool {
        self.left <= pt.x <= self.right && self.top <= pt.y <= self.bottom
    }

    /// Every edge of `self` lies within `outer`.
    pub open spec fn within(self, outer: Rect) -> bool {
        &&& outer.left <= self.left
        &&& self.right <= outer.right
        &&& outer.top <= self.top
        &&& self.bottom <= outer.bottom
    }

    /// The pixel `(x, y)` lies in the half-open area `[left, right) x [top, bottom)`.
    pub open spec fn covers_pixel(self, x: int, y: int) -> bool {
        self.left <= x < self.right && self.top <= y < self.bottom
    }

    pub open spec fn width(self) -> int {
        self.right - self.left
    }

    pub open spec fn height(self) -> int {
        self.bottom - self.top
    }

    /// The rectangle `rect.clamp_to(bounds)` that `clamp_rect` returns.
    pub open spec fn clamped_to(self, bounds: Rect) -> Rect {
        let n = self.normalized();
        Rect {
            left: clamp_int(n.left as int, bounds.left as int, bounds.right as int) as i32,
            top: clamp_int(n.top as int, bounds.top as int, bounds.bottom as int) as i32,
            right: clamp_int(n.right as int, bounds.left as int, bounds.right as int) as i32,
            bottom: clamp_int(n.bottom as int, bounds.top as int, bounds.bottom as int) as i32,
        }
    }
}

/// The rectangle spanned by two corner points.
pub open spec fn spanned_by(a: Point, b: Point) -> Rect {
    Rect {
        left: min_int(a.x as int, b.x as int) as i32,
        top: min_int(a.y as int, b.y as int) as i32,
        right: max_int(a.x as int, b.x as int) as i32,
        bottom: max_int(a.y as int, b.y as int) as i32,
    }
}

/// Puts the edges of `rect` in order.
pub fn normalize_rect(rect: Rect) -> (r: Rect)
    ensures
        r == rect.normalized(),
{
    Rect {
        left: if rect.left <= rect.right { rect.left } else { rect.right },
        top: if rect.top <= rect.bottom { rect.top } else { rect.bottom },
        right: if rect.left >= rect.right { rect.left } else { rect.right },
        bottom: if rect.top >= rect.bottom { rect.top } else { rect.bottom },
    }
}

/// The rectangle with corners `a` and `b`.
pub fn rect_from_points(a: Point, b: Point) -> (r: Rect)
    ensures
        r == spanned_by(a, b),
{
    Rect {
        left: if a.x <= b.x { a.x } else { b.x },
        top: if a.y <= b.y { a.y } else { b.y },
        right: if a.x >= b.x { a.x } else { b.x },
        bottom: if a.y >= b.y { a.y } else { b.y },
    }
}

fn clamp_i32(v: i32, lo: i32, hi: i32) -> (r: i32)
    requires
        lo <= hi,
    ensures
        r == clamp_int(v as int, lo as int, hi as int),
{
    if v < lo {
        lo
    } else if v > hi {
        hi
    } else {
        v
    }
}

/// Normalizes `rect` and pulls each of its edges into `bounds`.
pub fn clamp_rect(rect: Rect, bounds: Rect) -> (r: Rect)
    requires
        bounds.is_normalized(),
    ensures
        r == rect.clamped_to(bounds),
        r.is_normalized(),
        r.within(bounds),
{
    let n = normalize_rect(rect);
    let c = Rect {
        left: clamp_i32(n.left, bounds.left, bounds.right),
        top: clamp_i32(n.top, bounds.top, bounds.bottom),
        right: clamp_i32(n.right, bounds.left, bounds.right),
        bottom: clamp_i32(n.bottom, bounds.top, bounds.bottom),
    };
    normalize_rect(c)
}

/// The overlap of two rectangles, if it has a positive area.
pub open spec fn intersection(a: Rect, b: Rect) -> Option<Rect> {
    let left = max_int(a.left as int, b.left as int);
    let top = max_int(a.top as int, b.top as int);
    let right = min_int(a.right as int, b.right as int);
    let bottom = min_int(a.bottom as int, b.bottom as int);
    if right <= left || bottom <= top {
        None
    } else {
        Some(rect_of(left, top, right, bottom))
    }
}

/// The overlap of `a` and `b`, or `None` where it is empty.
pub fn intersect_rect(a: Rect, b: Rect) -> (r: Option<Rect>)
    ensures
        r == intersection(a, b),
{
    let left = if a.left >= b.left { a.left } else { b.left };
    let top = if a.top >= b.top { a.top } else { b.top };
    let right = if a.right <= b.right { a.right } else { b.right };
    let bottom = if a.bottom <= b.bottom { a.bottom } else { b.bottom };
    if right <= left || bottom <= top {
        None
    } else {
        Some(Rect { left, top, right, bottom })
    }
}

/// Whether `pt` lies in `rect`, edges included.
pub fn point_in_rect(pt: Point, rect: Rect) -> (b: bool)
    ensures
        b == rect.contains_point(pt),
{
    pt.x >= rect.left && pt.x <= rect.right && pt.y >= rect.top && pt.y <= rect.bottom
}

/// The arithmetic of `move_rect_clamped` stays within `i32` and its clamps have
/// ordered limits: the moved rectangle is no larger than `bounds`.
pub open spec fn move_defined(rect: Rect, dx: i32, dy: i32, bounds: Rect) -> bool {
    let n = rect.normalized();
    &&& fits_i32(n.right - n.left)
    &&& fits_i32(n.bottom - n.top)
    &&& fits_i32(n.left + dx)
    &&& fits_i32(n.top + dy)
    &&& fits_i32(bounds.right - (n.right - n.left))
    &&& fits_i32(bounds.bottom - (n.bottom - n.top))
    &&& bounds.left <= bounds.right - (n.right - n.left)
    &&& bounds.top <= bounds.bottom - (n.bottom - n.top)
}

/// The rectangle `rect` shifted by `(dx, dy)` and then pushed back into `bounds`.
pub open spec fn moved_within(rect: Rect, dx: i32, dy: i32, bounds: Rect) -> Rect {
    let n = rect.normalized();
    let w = n.right - n.left;
    let h = n.bottom - n.top;
    let left = clamp_int(n.left + dx, bounds.left as int, bounds.right - w);
    let top = clamp_int(n.top + dy, bounds.top as int, bounds.bottom - h);
    rect_of(left, top, left + w, top + h)
}

/// Moves `rect` by `(dx, dy)` while keeping it inside `bounds`.
pub fn move_rect_clamped(rect: Rect, dx: i32, dy: i32, bounds: Rect) -> (r: Rect)
    requires
        move_defined(rect, dx, dy, bounds),
    ensures
        r == moved_within(rect, dx, dy, bounds),
{
    let rect = normalize_rect(rect);
    let width = rect.right - rect.left;
    let height = rect.bottom - rect.top;
    let mut left = rect.left + dx;
    let mut top = rect.top + dy;
    left = clamp_i32(left, bounds.left, bounds.right - width);
    top = clamp_i32(top, bounds.top, bounds.bottom - height);
    Rect { left, top, right: left + width, bottom: top + height }
}

/// The left edge after a resize (before the other edges move).
pub open spec fn resized_left(start_rect: Rect, edges: Edges, pt: Point, bounds: Rect) -> int {
    if edges.left {
        clamp_int(pt.x as int, bounds.left as int, start_rect.right - MIN_SIZE)
    } else {
        start_rect.left as int
    }
}

pub open spec fn resized_top(start_rect: Rect, edges: Edges, pt: Point, bounds: Rect) -> int {
    if edges.top {
        clamp_int(pt.y as int, bounds.top as int, start_rect.bottom - MIN_SIZE)
    } else {
        start_rect.top as int
    }
}

pub open spec fn resized_right(start_rect: Rect, edges: Edges, pt: Point, bounds: Rect) -> int {
    let left = resized_left(start_rect, edges, pt, bounds);
    if edges.right {
        clamp_int(pt.x as int, left + MIN_SIZE, bounds.right as int)
    } else {
        start_rect.right as int
    }
}

pub open spec fn resized_bottom(start_rect: Rect, edges: Edges, pt: Point, bounds: Rect) -> int {
    let top = resized_top(start_rect, edges, pt, bounds);
    if edges.bottom {
        clamp_int(pt.y as int, top + MIN_SIZE, bounds.bottom as int)
    } else {
        start_rect.bottom as int
    }
}

/// The arithmetic of `resize_rect_clamped` stays within `i32` and each clamp it
/// performs has ordered limits.
pub open spec fn resize_defined(start_rect: Rect, edges: Edges, pt: Point, bounds: Rect) -> bool {
    let left = resized_left(start_rect, edges, pt, bounds);
    let top = resized_top(start_rect, edges, pt, bounds);
    &&& edges.left ==> fits_i32(start_rect.right - MIN_SIZE) && bounds.left <= start_rect.right
        - MIN_SIZE
    &&& edges.right ==> fits_i32(left + MIN_SIZE) && left + MIN_SIZE <= bounds.right
    &&& edges.top ==> fits_i32(start_rect.bottom - MIN_SIZE) && bounds.top <= start_rect.bottom
        - MIN_SIZE
    &&& edges.bottom ==> fits_i32(top + MIN_SIZE) && top + MIN_SIZE <= bounds.bottom
}

/// The rectangle that dragging the `edges` of `start_rect` to `pt` gives.
pub open spec fn resized(start_rect: Rect, edges: Edges, pt: Point, bounds: Rect) -> Rect {
    rect_of(
        resized_left(start_rect, edges, pt, bounds),
        resized_top(start_rect, edges, pt, bounds),
        resized_right(start_rect, edges, pt, bounds),
        resized_bottom(start_rect, edges, pt, bounds),
    ).normalized()
}

/// Drags the chosen edges of `start_rect` to `pt`, keeping them in `bounds` and
/// at least `MIN_SIZE` apart from the opposite edge.
pub fn resize_rect_clamped(start_rect: Rect, edges: Edges, pt: Point, bounds: Rect) -> (r: Rect)
    requires
        resize_defined(start_rect, edges, pt, bounds),
    ensures
        r == resized(start_rect, edges, pt, bounds),
        r.is_normalized(),
{
    let mut rect = start_rect;
    if edges.left {
        rect.left = clamp_i32(pt.x, bounds.left, rect.right - MIN_SIZE);
    }
    if edges.right {
        rect.right = clamp_i32(pt.x, rect.left + MIN_SIZE, bounds.right);
    }
    if edges.top {
        rect.top = clamp_i32(pt.y, bounds.top, rect.bottom - MIN_SIZE);
    }
    if edges.bottom {
        rect.bottom = clamp_i32(pt.y, rect.top + MIN_SIZE, bounds.bottom);
    }
    normalize_rect(rect)
}

fn abs_i32(v: i32) -> (r: i32)
    requires
        abs_fits_i32(v as int),
    ensures
        r == abs_int(v as int),
{
    if v < 0 {
        -v
    } else {
        v
    }
}

/// The differences and padded edges that `hit_test_resize` computes fit in `i32`
/// (the right and bottom padded edges are only computed where the left or top
/// test passed).
pub open spec fn hit_test_defined(rect: Rect, pt: Point) -> bool {
    let n = rect.normalized();
    &&& abs_fits_i32(pt.x - n.left)
    &&& abs_fits_i32(pt.x - n.right)
    &&& abs_fits_i32(pt.y - n.top)
    &&& abs_fits_i32(pt.y - n.bottom)
    &&& fits_i32(n.left - HIT_PAD)
    &&& fits_i32(n.top - HIT_PAD)
    &&& pt.x >= n.left - HIT_PAD ==> fits_i32(n.right + HIT_PAD)
    &&& pt.y >= n.top - HIT_PAD ==> fits_i32(n.bottom + HIT_PAD)
}

/// The edges of `rect` that lie within `HIT_PAD` of `pt`.
pub open spec fn edges_near(rect: Rect, pt: Point) -> Edges {
    let n = rect.normalized();
    let within_x = n.left - HIT_PAD <= pt.x <= n.right + HIT_PAD;
    let within_y = n.top - HIT_PAD <= pt.y <= n.bottom + HIT_PAD;
    Edges {
        left: abs_int(pt.x - n.left) <= HIT_PAD && within_y,
        top: abs_int(pt.y - n.top) <= HIT_PAD && within_x,
        right: abs_int(pt.x - n.right) <= HIT_PAD && within_y,
        bottom: abs_int(pt.y - n.bottom) <= HIT_PAD && within_x,
    }
}

pub open spec fn any_edge(e: Edges) -> bool {
    e.left || e.top || e.right || e.bottom
}

/// The edges of `rect` that a press at `pt` grabs, if any.
pub fn hit_test_resize(rect: Rect, pt: Point) -> (r: Option<Edges>)
    requires
        hit_test_defined(rect, pt),
    ensures
        any_edge(edges_near(rect, pt)) ==> r == Some(edges_near(rect, pt)),
        !any_edge(edges_near(rect, pt)) ==> r is None,
{
    let rect = normalize_rect(rect);
    let near_left = abs_i32(pt.x - rect.left) <= HIT_PAD;
    let near_right = abs_i32(pt.x - rect.right) <= HIT_PAD;
    let near_top = abs_i32(pt.y - rect.top) <= HIT_PAD;
    let near_bottom = abs_i32(pt.y - rect.bottom) <= HIT_PAD;
    let within_x = pt.x >= rect.left - HIT_PAD && pt.x <= rect.right + HIT_PAD;
    let within_y = pt.y >= rect.top - HIT_PAD && pt.y <= rect.bottom + HIT_PAD;
    let edges = Edges {
        left: near_left && within_y,
        top: near_top && within_x,
        right: near_right && within_y,
        bottom: near_bottom && within_x,
    };
    if edges.left || edges.top || edges.right || edges.bottom {
        Some(edges)
    } else {
        None
    }
}

/// The differences that `distance_exceeds_threshold` takes the absolute value
/// of fit in `i32` (the vertical one is only computed where the horizontal one
/// is at most three).
pub open spec fn distance_defined(a: Point, b: Point) -> bool {
    &&& abs_fits_i32(a.x - b.x)
    &&& abs_int(a.x - b.x) <= 3 ==> abs_fits_i32(a.y - b.y)
}

/// The two points are more than three pixels apart along some axis.
pub open spec fn beyond_threshold(a: Point, b: Point) -> bool {
    abs_int(a.x - b.x) > 3 || abs_int(a.y - b.y) > 3
}

/// Whether the pointer moved far enough from `a` to `b` to start drawing.
pub fn distance_exceeds_threshold(a: Point, b: Point) -> (r: bool)
    requires
        distance_defined(a, b),
    ensures
        r == beyond_threshold(a, b),
{
    abs_i32(a.x - b.x) > 3 || abs_i32(a.y - b.y) > 3
}

/// The grip square centred on `(x, y)`.
pub open spec fn grip_at(x: int, y: int) -> Rect {
    rect_of(x - HANDLE_SIZE / 2, y - HANDLE_SIZE / 2, x + HANDLE_SIZE / 2, y + HANDLE_SIZE / 2)
}

pub open spec fn grip_defined(x: int, y: int) -> bool {
    fits_i32(x - HANDLE_SIZE / 2) && fits_i32(x + HANDLE_SIZE / 2) && fits_i32(y - HANDLE_SIZE / 2)
        && fits_i32(y + HANDLE_SIZE / 2)
}

/// The grip square centred on `(x, y)`.
pub fn handle_at(x: i32, y: i32) -> (r: Rect)
    requires
        grip_defined(x as int, y as int),
    ensures
        r == grip_at(x as int, y as int),
{
    let half = HANDLE_SIZE / 2;
    Rect { left: x - half, top: y - half, right: x + half, bottom: y + half }
}

/// The centres of the eight grips of `rect`: the corners and the middles of the
/// edges, clockwise from the top-left corner.
pub open spec fn grip_centres(rect: Rect) -> Seq<(int, int)> {
    let cx = half_toward_zero(rect.left + rect.right);
    let cy = half_toward_zero(rect.top + rect.bottom);
    seq![
        (rect.left as int, rect.top as int),
        (cx, rect.top as int),
        (rect.right as int, rect.top as int),
        (rect.right as int, cy),
        (rect.right as int, rect.bottom as int),
        (cx, rect.bottom as int),
        (rect.left as int, rect.bottom as int),
        (rect.left as int, cy),
    ]
}

/// The arithmetic of `handle_rects` stays within `i32`.
pub open spec fn grips_defined(rect: Rect) -> bool {
    &&& fits_i32(rect.left + rect.right)
    &&& fits_i32(rect.top + rect.bottom)
    &&& forall|i: int|
        0 <= i < 8 ==> #[trigger] grip_defined(grip_centres(rect)[i].0, grip_centres(rect)[i].1)
}

/// The eight grips of `rect`.
pub open spec fn grips(rect: Rect) -> Seq<Rect> {
    grip_centres(rect).map_values(|c: (int, int)| grip_at(c.0, c.1))
}

/// The eight grip squares drawn on the frame of `rect`.
pub fn handle_rects(rect: Rect) -> (r: [Rect; 8])
    requires
        grips_defined(rect),
    ensures
        r@ == grips(rect),
{
    let cx = (rect.left + rect.right) / 2;
    let cy = (rect.top + rect.bottom) / 2;
    let ghost c = grip_centres(rect);
    assert(grip_defined(c[0].0, c[0].1));
    assert(grip_defined(c[1].0, c[1].1));
    assert(grip_defined(c[2].0, c[2].1));
    assert(grip_defined(c[3].0, c[3].1));
    assert(grip_defined(c[4].0, c[4].1));
    assert(grip_defined(c[5].0, c[5].1));
    assert(grip_defined(c[6].0, c[6].1));
    assert(grip_defined(c[7].0, c[7].1));
    let r = [
        handle_at(rect.left, rect.top),
        handle_at(cx, rect.top),
        handle_at(rect.right, rect.top),
        handle_at(rect.right, cy),
        handle_at(rect.right, rect.bottom),
        handle_at(cx, rect.bottom),
        handle_at(rect.left, rect.bottom),
        handle_at(rect.left, cy),
    ];
    assert(r@ =~= grips(rect));
    r
}

/// The four bands of `client` around `selection`: above, below, left of and
/// right of it.
pub open spec fn bands_around(client: Rect, selection: Rect) -> Seq<Rect> {
    let s = selection.normalized();
    let top = max_int(s.top as int, client.top as int);
    let bottom = min_int(s.bottom as int, client.bottom as int);
    seq![
        rect_of(client.left as int, client.top as int, client.right as int, top),
        rect_of(client.left as int, bottom, client.right as int, client.bottom as int),
        rect_of(client.left as int, top, max_int(s.left as int, client.left as int), bottom),
        rect_of(min_int(s.right as int, client.right as int), top, client.right as int, bottom),
    ]
}

/// The four rectangles of `client` that are dimmed around `selection`.
pub fn dim_rects(client: Rect, selection: Rect) -> (r: [Rect; 4])
    ensures
        r@ == bands_around(client, selection),
{
    let s = normalize_rect(selection);
    let top = if s.top >= client.top { s.top } else { client.top };
    let bottom = if s.bottom <= client.bottom { s.bottom } else { client.bottom };
    let left = if s.left >= client.left { s.left } else { client.left };
    let right = if s.right <= client.right { s.right } else { client.right };
    let r = [
        Rect { left: client.left, top: client.top, right: client.right, bottom: top },
        Rect { left: client.left, top: bottom, right: client.right, bottom: client.bottom },
        Rect { left: client.left, top, right: left, bottom },
        Rect { left: right, top, right: client.right, bottom },
    ];
    assert(r@ =~= bands_around(client, selection));
    r
}

/// The first of `rects` that contains `pt`.
pub open spec fn first_containing(rects: Seq<Rect>, pt: Point) -> Option<Rect>
    decreases rects.len(),
{
    if rects.len() == 0 {
        None
    } else if rects[0].contains_point(pt) {
        Some(rects[0])
    } else {
        first_containing(rects.drop_first(), pt)
    }
}

proof fn lemma_first_containing_step(rects: Seq<Rect>, i: int, pt: Point)
    requires
        0 <= i < rects.len(),
        !rects[i].contains_point(pt),
    ensures
        first_containing(rects.skip(i), pt) == first_containing(rects.skip(i + 1), pt),
{
    assert(rects.skip(i).drop_first() =~= rects.skip(i + 1));
}

fn find_rect_containing(pt: Point, rects: &[Rect]) -> (r: Option<Rect>)
    ensures
        r == first_containing(rects@, pt),
{
    let mut i: usize = 0;
    assert(rects@.skip(0) =~= rects@);
    while i < rects.len()
        invariant
            i <= rects@.len(),
            first_containing(rects@.skip(i as int), pt) == first_containing(rects@, pt),
        decreases rects@.len() - i,
    {
        if point_in_rect(pt, rects[i]) {
            assert(rects@.skip(i as int)[0] == rects@[i as int]);
            return Some(rects[i]);
        }
        proof {
            lemma_first_containing_step(rects@, i as int, pt);
        }
        i = i + 1;
    }
    assert(rects@.skip(i as int).len() == 0);
    None
}

/// The first monitor rectangle that contains `pt`.
pub fn monitor_rect_at_point(pt: Point, monitor_rects: &[Rect]) -> (r: Option<Rect>)
    ensures
        r == first_containing(monitor_rects@, pt),
{
    find_rect_containing(pt, monitor_rects)
}

/// The first (topmost) window rectangle that contains `pt`.
pub fn window_rect_at_point(pt: Point, window_rects: &[Rect]) -> (r: Option<Rect>)
    ensures
        r == first_containing(window_rects@, pt),
{
    find_rect_containing(pt, window_rects)
}

/// The smallest rectangle holding every rectangle of `rects` (whose edges are
/// taken as they are), if there is any.
pub open spec fn bounding(rects: Seq<Rect>) -> Option<Rect>
    decreases rects.len(),
{
    if rects.len() == 0 {
        None
    } else {
        let r = rects.last();
        match bounding(rects.drop_last()) {
            None => Some(r),
            Some(b) => Some(
                rect_of(
                    min_int(b.left as int, r.left as int),
                    min_int(b.top as int, r.top as int),
                    max_int(b.right as int, r.right as int),
                    max_int(b.bottom as int, r.bottom as int),
                ),
            ),
        }
    }
}

/// The rectangle spanned by all of `rects`: the least left and top edges and the
/// greatest right and bottom edges; `None` for no rectangles.
pub fn bounding_rect(rects: &[Rect]) -> (r: Option<Rect>)
    ensures
        r == bounding(rects@),
{
    let mut acc: Option<Rect> = None;
    let mut i: usize = 0;
    while i < rects.len()
        invariant
            i <= rects@.len(),
            acc == bounding(rects@.take(i as int)),
        decreases rects@.len() - i,
    {
        let r = rects[i];
        assert(rects@.take(i + 1).drop_last() =~= rects@.take(i as int));
        acc = match acc {
            None => Some(r),
            Some(b) => Some(
                Rect {
                    left: if b.left <= r.left { b.left } else { r.left },
                    top: if b.top <= r.top { b.top } else { r.top },
                    right: if b.right >= r.right { b.right } else { r.right },
                    bottom: if b.bottom >= r.bottom { b.bottom } else { r.bottom },
                },
            ),
        };
        i = i + 1;
    }
    assert(rects@.take(i as int) =~= rects@);
    acc
}

/// Normalizing twice is normalizing once, and its result is ordered.
pub proof fn lemma_normalize_idempotent(rect: Rect)
    ensures
        rect.normalized().normalized() == rect.normalized(),
        rect.normalized().is_normalized(),
{
}

/// The rectangle spanned by two points does not depend on their order, and is
/// the normalized rectangle with those points as corners.
pub proof fn lemma_spanned_by_symmetric(a: Point, b: Point)
    ensures
        spanned_by(a, b) == spanned_by(b, a),
        spanned_by(a, b) == (Rect { left: a.x, top: a.y, right: b.x, bottom: b.y }).normalized(),
{
}

/// Clamping into the same bounds a second time changes nothing.
pub proof fn lemma_clamp_idempotent(rect: Rect, bounds: Rect)
    requires
        bounds.is_normalized(),
    ensures
        rect.clamped_to(bounds).clamped_to(bounds) == rect.clamped_to(bounds),
        rect.clamped_to(bounds).is_normalized(),
        rect.clamped_to(bounds).within(bounds),
{
}

/// A rectangle already inside the bounds is only normalized by clamping.
pub proof fn lemma_clamp_keeps_inner(rect: Rect, bounds: Rect)
    requires
        rect.normalized().within(bounds),
    ensures
        rect.clamped_to(bounds) == rect.normalized(),
{
}

/// Moving keeps the size of the (normalized) rectangle and lands inside the bounds.
pub proof fn lemma_move_keeps_size(rect: Rect, dx: i32, dy: i32, bounds: Rect)
    requires
        move_defined(rect, dx, dy, bounds),
    ensures
        moved_within(rect, dx, dy, bounds).width() == rect.normalized().width(),
        moved_within(rect, dx, dy, bounds).height() == rect.normalized().height(),
        moved_within(rect, dx, dy, bounds).within(bounds),
        moved_within(rect, dx, dy, bounds).is_normalized(),
{
}

/// Resizing an ordered rectangle that lies inside the bounds leaves it inside them.
pub proof fn lemma_resize_stays_within(start_rect: Rect, edges: Edges, pt: Point, bounds: Rect)
    requires
        resize_defined(start_rect, edges, pt, bounds),
        start_rect.is_normalized(),
        start_rect.within(bounds),
    ensures
        resized(start_rect, edges, pt, bounds).within(bounds),
{
}

/// The overlap of two rectangles does not depend on their order, lies in both
/// and has a positive area.
pub proof fn lemma_intersection_symmetric(a: Rect, b: Rect)
    ensures
        intersection(a, b) == intersection(b, a),
        intersection(a, b) matches Some(r) ==> r.within(a) && r.within(b) && r.left < r.right
            && r.top < r.bottom,
{
}

/// Inside a normalized client area, a pixel lies either in the selection and in
/// none of the four dimmed bands, or outside the selection and in exactly one band.
pub proof fn lemma_bands_partition(client: Rect, selection: Rect, x: int, y: int)
    requires
        client.is_normalized(),
        client.covers_pixel(x, y),
    ensures
        ({
            let bands = bands_around(client, selection);
            if selection.normalized().covers_pixel(x, y) {
                forall|i: int| 0 <= i < 4 ==> !(#[trigger] bands[i]).covers_pixel(x, y)
            } else {
                exists|i: int|
                    0 <= i < 4 && (#[trigger] bands[i]).covers_pixel(x, y) && forall|j: int|
                        0 <= j < 4 && j != i ==> !(#[trigger] bands[j]).covers_pixel(x, y)
            }
        }),
{
    let bands = bands_around(client, selection);
    let s = selection.normalized();
    if !s.covers_pixel(x, y) {
        let top = max_int(s.top as int, client.top as int);
        let bottom = min_int(s.bottom as int, client.bottom as int);
        if y < top {
            assert(bands[0].covers_pixel(x, y));
        } else if y >= bottom {
            assert(bands[1].covers_pixel(x, y));
        } else if x < s.left {
            assert(bands[2].covers_pixel(x, y));
        } else {
            assert(bands[3].covers_pixel(x, y));
        }
    }
}

} // verus!
