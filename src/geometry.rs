use vstd::prelude::*;

verus! {

/// Sub-pixel units in one screen pixel.
pub const UNITS_PER_PIXEL: i64 = 1000;

/// Every position is held within `[-WORLD_LIMIT, WORLD_LIMIT]` units.
pub const WORLD_LIMIT: i64 = 1_000_000_000_000;

/// Every rectangle's width and height lie within `[1, SIZE_LIMIT]` units.
pub const SIZE_LIMIT: i64 = 1_000_000_000;

/// The fixed-point value of 1 in a direction component.
pub const DIR_ONE: i64 = 1000;

/// Microseconds in one second.
pub const MICROS_PER_SECOND: i64 = 1_000_000;

/// An axis-aligned rectangle: top-left corner `(x, y)` and size `(w, h)`.
#[derive(Clone, Copy, Debug, PartialEq, Eq, Structural)]
pub struct Rect {
    pub x: i64,
    pub y: i64,
    pub w: i64,
    pub h: i64,
}

/// A direction of travel, each component in fixed point (`DIR_ONE` is 1).
#[derive(Clone, Copy, Debug, PartialEq, Eq, Structural)]
pub struct Dir {
    pub x: i64,
    pub y: i64,
}

pub open spec fn in_world(v: int) -> bool {
    -WORLD_LIMIT <= v <= WORLD_LIMIT
}

/// A position pushed back into the world's bounds.
pub open spec fn clamp_world(v: int) -> int {
    if v < -WORLD_LIMIT {
        -WORLD_LIMIT as int
    } else if v > WORLD_LIMIT {
        WORLD_LIMIT as int
    } else {
        v
    }
}

pub open spec fn abs(v: int) -> int {
    if v < 0 {
        -v
    } else {
        v
    }
}

/// The sign of `v`, with zero counted as positive.
pub open spec fn sign(v: int) -> int {
    if v >= 0 {
        1
    } else {
        -1
    }
}

/// Units covered in `dt_us` microseconds by a direction component `dir`
/// at `speed` pixels per second, rounded toward zero.
pub open spec fn travel(dir: int, dt_us: int, speed: int) -> int {
    if dir >= 0 {
        (dir * dt_us * speed) / (MICROS_PER_SECOND as int)
    } else {
        -(((-dir) * dt_us * speed) / (MICROS_PER_SECOND as int))
    }
}

impl Rect {
    pub open spec fn wf(self) -> bool {
        &&& in_world(self.x as int)
        &&& in_world(self.y as int)
        &&& 0 < self.w <= SIZE_LIMIT
        &&& 0 < self.h <= SIZE_LIMIT
    }

    pub open spec fn right(self) -> int {
        self.x + self.w
    }

    pub open spec fn bottom(self) -> int {
        self.y + self.h
    }

    /// Twice the x coordinate of the centre (kept whole).
    pub open spec fn center2_x(self) -> int {
        2 * self.x + self.w
    }

    /// Twice the y coordinate of the centre (kept whole).
    pub open spec fn center2_y(self) -> int {
        2 * self.y + self.h
    }

    pub fn new(x: i64, y: i64, w: i64, h: i64) -> (r: Rect)
        ensures
            r == (Rect { x, y, w, h }),
    {
        Rect { x, y, w, h }
    }
}

impl Dir {
    pub open spec fn wf(self) -> bool {
        &&& -DIR_ONE <= self.x <= DIR_ONE
        &&& -DIR_ONE <= self.y <= DIR_ONE
    }
}

pub fn clamp_to_world(v: i64) -> (r: i64)
    ensures
        r == clamp_world(v as int),
        in_world(r as int),
{
    if v < -WORLD_LIMIT {
        -WORLD_LIMIT
    } else if v > WORLD_LIMIT {
        WORLD_LIMIT
    } else {
        v
    }
}

/// The distance travelled along one axis in `dt_us` microseconds.
pub fn travel_of(dir: i64, dt_us: u32, speed: i64) -> (r: i64)
    requires
        -DIR_ONE <= dir <= DIR_ONE,
        0 <= speed <= 1000,
    ensures
        r == travel(dir as int, dt_us as int, speed as int),
        abs(r as int) <= 5_000_000_000,
{
    let mag: i64 = if dir >= 0 { dir } else { -dir };
    assert(0 <= mag * (dt_us as i64) <= 1000 * 4_294_967_295) by (nonlinear_arith)
        requires 0 <= mag <= 1000, 0 <= dt_us <= 4_294_967_295;
    let md: i64 = mag * (dt_us as i64);
    assert(0 <= md * speed <= 1000 * 4_294_967_295 * 1000) by (nonlinear_arith)
        requires 0 <= md <= 1000 * 4_294_967_295, 0 <= speed <= 1000;
    let q: i64 = md * speed / MICROS_PER_SECOND;
    assert(md * speed == mag * dt_us * speed) by (nonlinear_arith)
        requires md == mag * dt_us;
    if dir >= 0 {
        q
    } else {
        -q
    }
}


/// Left edge of the region shared by `a` and `b`.
pub open spec fn overlap_left(a: Rect, b: Rect) -> int {
    if a.x >= b.x { a.x as int } else { b.x as int }
}

/// Top edge of the region shared by `a` and `b`.
pub open spec fn overlap_top(a: Rect, b: Rect) -> int {
    if a.y >= b.y { a.y as int } else { b.y as int }
}

/// Width of the region shared by `a` and `b` (negative when apart).
pub open spec fn overlap_w(a: Rect, b: Rect) -> int {
    let right = if a.right() <= b.right() { a.right() } else { b.right() };
    right - overlap_left(a, b)
}

/// Height of the region shared by `a` and `b` (negative when apart).
pub open spec fn overlap_h(a: Rect, b: Rect) -> int {
    let bottom = if a.bottom() <= b.bottom() { a.bottom() } else { b.bottom() };
    bottom - overlap_top(a, b)
}

/// Two rectangles overlap when they share a region; rectangles whose edges
/// touch share one of zero width or height, and count as overlapping.
pub open spec fn overlaps(a: Rect, b: Rect) -> bool {
    overlap_w(a, b) >= 0 && overlap_h(a, b) >= 0
}

impl Rect {
    /// The region that `self` and `other` share, if any.
    pub fn intersect(&self, other: &Rect) -> (r: Option<Rect>)
        requires
            self.wf(),
            other.wf(),
        ensures
            r.is_some() == overlaps(*self, *other),
            r matches Some(o) ==> o.x == overlap_left(*self, *other) && o.y == overlap_top(
                *self,
                *other,
            ) && o.w == overlap_w(*self, *other) && o.h == overlap_h(*self, *other),
    {
        let left = if self.x >= other.x { self.x } else { other.x };
        let top = if self.y >= other.y { self.y } else { other.y };
        let sr = self.x + self.w;
        let or = other.x + other.w;
        let right = if sr <= or { sr } else { or };
        let sb = self.y + self.h;
        let ob = other.y + other.h;
        let bottom = if sb <= ob { sb } else { ob };
        if right < left || bottom < top {
            None
        } else {
            Some(Rect { x: left, y: top, w: right - left, h: bottom - top })
        }
    }
}

} // verus!
