//! Integer screen geometry: points, extents and rectangles measured in whole pixels.
use vstd::prelude::*;

verus! {

/// A point on the screen, in pixels.
#[derive(Clone, Copy, Debug, PartialEq, Eq, Structural)]
pub struct Pos2 {
    pub x: i32,
    pub y: i32,
}

/// A displacement, an extent or a velocity, per axis.
#[derive(Clone, Copy, Debug, PartialEq, Eq, Structural)]
pub struct Vec2 {
    pub x: i32,
    pub y: i32,
}

/// An axis-aligned rectangle; both corners are inside it.
#[derive(Clone, Copy, Debug, PartialEq, Eq, Structural)]
pub struct Rect {
    pub min: Pos2,
    pub max: Pos2,
}

/// The value of `v` brought into the range of `i32`.
pub open spec fn sat(v: int) -> i32 {
    if v < i32::MIN {
        i32::MIN
    } else if v > i32::MAX {
        i32::MAX
    } else {
        v as i32
    }
}

pub open spec fn max_int(a: int, b: int) -> int {
    if a >= b {
        a
    } else {
        b
    }
}

pub open spec fn min_int(a: int, b: int) -> int {
    if a <= b {
        a
    } else {
        b
    }
}

/// `a + b`, saturating at the bounds of `i32`.
pub fn sat_add(a: i32, b: i32) -> (r: i32)
    ensures
        r == sat(a + b),
{
    let s: i64 = a as i64 + b as i64;
    if s < i32::MIN as i64 {
        i32::MIN
    } else if s > i32::MAX as i64 {
        i32::MAX
    } else {
        s as i32
    }
}

pub fn pos2(x: i32, y: i32) -> (r: Pos2)
    ensures
        r == (Pos2 { x, y }),
{
    Pos2 { x, y }
}

pub fn vec2(x: i32, y: i32) -> (r: Vec2)
    ensures
        r == (Vec2 { x, y }),
{
    Vec2 { x, y }
}

impl Pos2 {
    pub open spec fn offset_spec(self, d: Vec2) -> Pos2 {
        Pos2 { x: sat(self.x + d.x), y: sat(self.y + d.y) }
    }

    /// The point moved by `d`, saturating at the bounds of `i32`.
    pub fn offset(self, d: Vec2) -> (r: Pos2)
        ensures
            r == self.offset_spec(d),
    {
        Pos2 { x: sat_add(self.x, d.x), y: sat_add(self.y, d.y) }
    }
}

impl Vec2 {
    pub fn zero() -> (r: Vec2)
        ensures
            r == (Vec2 { x: 0, y: 0 }),
    {
        Vec2 { x: 0, y: 0 }
    }

    pub fn splat(v: i32) -> (r: Vec2)
        ensures
            r == (Vec2 { x: v, y: v }),
    {
        Vec2 { x: v, y: v }
    }

    pub open spec fn max_spec(self, o: Vec2) -> Vec2 {
        Vec2 { x: max_int(self.x as int, o.x as int) as i32, y: max_int(self.y as int, o.y as int) as i32 }
    }

    /// The larger of the two, per axis.
    pub fn max(self, o: Vec2) -> (r: Vec2)
        ensures
            r == self.max_spec(o),
    {
        Vec2 {
            x: if self.x >= o.x { self.x } else { o.x },
            y: if self.y >= o.y { self.y } else { o.y },
        }
    }
}

impl Rect {
    pub open spec fn from_min_size_spec(min: Pos2, size: Vec2) -> Rect {
        Rect { min, max: min.offset_spec(size) }
    }

    /// The rectangle with corner `min` and extent `size`.
    pub fn from_min_size(min: Pos2, size: Vec2) -> (r: Rect)
        ensures
            r == Rect::from_min_size_spec(min, size),
    {
        Rect { min, max: min.offset(size) }
    }

    pub open spec fn everything_spec() -> Rect {
        Rect { min: Pos2 { x: i32::MIN, y: i32::MIN }, max: Pos2 { x: i32::MAX, y: i32::MAX } }
    }

    /// The rectangle that covers every representable point.
    pub fn everything() -> (r: Rect)
        ensures
            r == (Rect { min: Pos2 { x: i32::MIN, y: i32::MIN }, max: Pos2 { x: i32::MAX, y: i32::MAX } }),
    {
        Rect { min: Pos2 { x: i32::MIN, y: i32::MIN }, max: Pos2 { x: i32::MAX, y: i32::MAX } }
    }

    pub open spec fn contains_spec(self, p: Pos2) -> bool {
        self.min.x <= p.x && p.x <= self.max.x && self.min.y <= p.y && p.y <= self.max.y
    }

    /// Whether `p` lies inside the rectangle or on its border.
    pub fn contains(&self, p: Pos2) -> (r: bool)
        ensures
            r == self.contains_spec(p),
    {
        self.min.x <= p.x && p.x <= self.max.x && self.min.y <= p.y && p.y <= self.max.y
    }

    pub open spec fn translate_spec(self, d: Vec2) -> Rect {
        Rect { min: self.min.offset_spec(d), max: self.max.offset_spec(d) }
    }

    /// The rectangle moved by `d`.
    pub fn translate(self, d: Vec2) -> (r: Rect)
        ensures
            r == self.translate_spec(d),
    {
        Rect { min: self.min.offset(d), max: self.max.offset(d) }
    }

    pub open spec fn expand_spec(self, m: i32) -> Rect {
        Rect {
            min: Pos2 { x: sat(self.min.x - m), y: sat(self.min.y - m) },
            max: Pos2 { x: sat(self.max.x + m), y: sat(self.max.y + m) },
        }
    }

    /// The rectangle grown by `m` on every side.
    pub fn expand(self, m: i32) -> (r: Rect)
        ensures
            r == self.expand_spec(m),
    {
        let neg: i64 = -(m as i64);
        let min_x: i64 = self.min.x as i64 + neg;
        let min_y: i64 = self.min.y as i64 + neg;
        Rect {
            min: Pos2 { x: clamp_i64(min_x), y: clamp_i64(min_y) },
            max: Pos2 { x: sat_add(self.max.x, m), y: sat_add(self.max.y, m) },
        }
    }

    pub open spec fn intersect_spec(self, o: Rect) -> Rect {
        Rect {
            min: Pos2 {
                x: max_int(self.min.x as int, o.min.x as int) as i32,
                y: max_int(self.min.y as int, o.min.y as int) as i32,
            },
            max: Pos2 {
                x: min_int(self.max.x as int, o.max.x as int) as i32,
                y: min_int(self.max.y as int, o.max.y as int) as i32,
            },
        }
    }

    /// The part of the rectangle that also lies in `o`.
    pub fn intersect(self, o: Rect) -> (r: Rect)
        ensures
            r == self.intersect_spec(o),
    {
        Rect {
            min: Pos2 {
                x: if self.min.x >= o.min.x { self.min.x } else { o.min.x },
                y: if self.min.y >= o.min.y { self.min.y } else { o.min.y },
            },
            max: Pos2 {
                x: if self.max.x <= o.max.x { self.max.x } else { o.max.x },
                y: if self.max.y <= o.max.y { self.max.y } else { o.max.y },
            },
        }
    }

    /// Extent along x, as an integer that cannot overflow.
    pub fn width(&self) -> (r: i64)
        ensures
            r == self.max.x - self.min.x,
    {
        self.max.x as i64 - self.min.x as i64
    }

    /// Extent along y, as an integer that cannot overflow.
    pub fn height(&self) -> (r: i64)
        ensures
            r == self.max.y - self.min.y,
    {
        self.max.y as i64 - self.min.y as i64
    }
}

/// `v` brought into the range of `i32`.
pub fn clamp_i64(v: i64) -> (r: i32)
    ensures
        r == sat(v as int),
{
    if v < i32::MIN as i64 {
        i32::MIN
    } else if v > i32::MAX as i64 {
        i32::MAX
    } else {
        v as i32
    }
}

/// The integer square root: the largest `r` with `r * r <= n`.
pub open spec fn isqrt_spec(n: nat) -> nat
    decreases n,
{
    if n == 0 {
        0
    } else {
        let r = isqrt_spec((n - 1) as nat);
        if (r + 1) * (r + 1) <= n {
            r + 1
        } else {
            r
        }
    }
}

pub proof fn lemma_isqrt_bounds(n: nat)
    ensures
        isqrt_spec(n) * isqrt_spec(n) <= n,
        n < (isqrt_spec(n) + 1) * (isqrt_spec(n) + 1),
    decreases n,
{
    if n == 0 {
        assert(isqrt_spec(0) == 0);
        assert(1nat * 1nat == 1nat) by (nonlinear_arith);
    } else {
        lemma_isqrt_bounds((n - 1) as nat);
        let r = isqrt_spec((n - 1) as nat);
        assert((r + 1) * (r + 1) + 2 * r + 3 == (r + 2) * (r + 2)) by (nonlinear_arith);
        if (r + 1) * (r + 1) <= n {
            assert(isqrt_spec(n) == r + 1);
            assert(n <= (r + 1) * (r + 1));
            assert((r + 1 + 1) * (r + 1 + 1) == (r + 2) * (r + 2));
        } else {
            assert(isqrt_spec(n) == r);
        }
    }
}

pub proof fn lemma_isqrt_unique(n: nat, r: nat)
    requires
        r * r <= n,
        n < (r + 1) * (r + 1),
    ensures
        r == isqrt_spec(n),
{
    lemma_isqrt_bounds(n);
    let s = isqrt_spec(n);
    if r < s {
        assert((r + 1) * (r + 1) <= s * s) by (nonlinear_arith)
            requires
                r + 1 <= s,
        ;
    } else if s < r {
        assert((s + 1) * (s + 1) <= r * r) by (nonlinear_arith)
            requires
                s + 1 <= r,
        ;
    }
}

/// The integer square root of `n`.
pub fn isqrt(n: u64) -> (r: u64)
    ensures
        r == isqrt_spec(n as nat),
        r * r <= n,
        n < (r + 1) * (r + 1),
{
    let mut lo: u64 = 0;
    let mut hi: u64 = 0x1_0000_0000;
    assert(n < hi * hi) by (nonlinear_arith)
        requires
            hi == 0x1_0000_0000u64,
            n <= u64::MAX,
    ;
    while hi - lo > 1
        invariant
            lo < hi,
            hi <= 0x1_0000_0000u64,
            lo * lo <= n,
            n < hi * hi,
        decreases hi - lo,
    {
        let mid: u64 = lo + (hi - lo) / 2;
        assert(mid as u128 * mid as u128 <= 0x1_0000_0000_0000_0000u128) by (nonlinear_arith)
            requires
                mid < 0x1_0000_0000u64,
        ;
        let sq: u128 = mid as u128 * mid as u128;
        if sq <= n as u128 {
            lo = mid;
        } else {
            hi = mid;
        }
    }
    proof {
        lemma_isqrt_unique(n as nat, lo as nat);
    }
    lo
}

} // verus!
