//! Points and vectors on the integer grid, squared distances and the capped
//! step from one point toward another.

use vstd::prelude::*;
use crate::arith::{is_floor_root, isqrt, lemma_square_monotone, square};

verus! {

/// A point, or a vector, with integer coordinates.
#[derive(Debug, Clone, Copy, PartialEq, Eq, Structural)]
pub struct MathVec2 {
    pub x: i32,
    pub y: i32,
}

pub type Vec2 = MathVec2;

/// The squared Euclidean distance between two points.
pub open spec fn dist_sq(a: Vec2, b: Vec2) -> int {
    square(a.x - b.x) + square(a.y - b.y)
}

/// `q` is the length `cap * |d| / sqrt(d2)` rounded down: the share of a step
/// of length `cap` that falls on an axis along which the whole way is `d`,
/// the whole way being of squared length `d2`.
pub open spec fn is_step_len(q: int, cap: int, d: int, d2: int) -> bool {
    0 <= q && q * q * d2 <= cap * cap * (d * d) < (q + 1) * (q + 1) * d2
}

/// The length that `is_step_len` describes.
pub open spec fn step_len(cap: int, d: int, d2: int) -> int {
    choose|q: int| is_step_len(q, cap, d, d2)
}

/// The signed share of a capped step on one axis: `step_len`, pointing the
/// way `d` points.
pub open spec fn step_part(cap: int, d: int, d2: int) -> int {
    if d >= 0 {
        step_len(cap, d, d2)
    } else {
        -step_len(cap, d, d2)
    }
}

/// Where a walker ends who starts at `from`, heads for `to` and may cover at
/// most `cap`: at `to` if it is within reach, else `cap` along the way, each
/// coordinate of the step rounded toward zero.
pub open spec fn move_toward(from: Vec2, to: Vec2, cap: int) -> Vec2 {
    let d2 = dist_sq(from, to);
    if d2 <= cap * cap {
        to
    } else {
        MathVec2 {
            x: (from.x + step_part(cap, to.x - from.x, d2)) as i32,
            y: (from.y + step_part(cap, to.y - from.y, d2)) as i32,
        }
    }
}

/// At most one length fits `is_step_len`.
pub proof fn lemma_step_len_unique(q: int, r: int, cap: int, d: int, d2: int)
    requires
        d2 > 0,
        is_step_len(q, cap, d, d2),
        is_step_len(r, cap, d, d2),
    ensures
        q == r,
{
    let n = cap * cap * (d * d);
    if q < r {
        lemma_square_monotone(q + 1, r);
        assert((q + 1) * (q + 1) * d2 <= r * r * d2) by (nonlinear_arith)
            requires
                (q + 1) * (q + 1) <= r * r,
                d2 > 0,
        ;
    } else if r < q {
        lemma_square_monotone(r + 1, q);
        assert((r + 1) * (r + 1) * d2 <= q * q * d2) by (nonlinear_arith)
            requires
                (r + 1) * (r + 1) <= q * q,
                d2 > 0,
        ;
    }
}

/// Walking up from a length that is not too long reaches one that fits.
proof fn lemma_step_len_search(q: int, cap: int, d: int, d2: int)
    requires
        d2 > 0,
        0 <= q,
        q * q * d2 <= cap * cap * (d * d),
    ensures
        exists|r: int| is_step_len(r, cap, d, d2),
    decreases cap * cap * (d * d) - q,
{
    let n = cap * cap * (d * d);
    if n < (q + 1) * (q + 1) * d2 {
        assert(is_step_len(q, cap, d, d2));
    } else {
        assert(q + 1 <= (q + 1) * (q + 1) * d2) by (nonlinear_arith)
            requires
                0 <= q,
                d2 > 0,
        ;
        lemma_step_len_search(q + 1, cap, d, d2);
    }
}

/// On every way of positive length `step_len` is the one length that fits.
pub proof fn lemma_step_len(cap: int, d: int, d2: int)
    requires
        d2 > 0,
    ensures
        is_step_len(step_len(cap, d, d2), cap, d, d2),
{
    assert(0 <= cap * cap * (d * d)) by (nonlinear_arith);
    assert(0 * 0 * d2 == 0) by (nonlinear_arith);
    lemma_step_len_search(0, cap, d, d2);
}

impl MathVec2 {
    /// Multiplies both coordinates by `scalar`.
    pub fn scale(&mut self, scalar: i32)
        requires
            i32::MIN <= old(self).x * scalar <= i32::MAX,
            i32::MIN <= old(self).y * scalar <= i32::MAX,
        ensures
            final(self).x == old(self).x * scalar,
            final(self).y == old(self).y * scalar,
    {
        self.x = self.x * scalar;
        self.y = self.y * scalar;
    }

    /// The vector with both coordinates multiplied by `scalar`.
    pub fn scaled(&self, scalar: i32) -> (r: Self)
        requires
            i32::MIN <= self.x * scalar <= i32::MAX,
            i32::MIN <= self.y * scalar <= i32::MAX,
        ensures
            r.x == self.x * scalar,
            r.y == self.y * scalar,
    {
        let mut res = *self;
        res.scale(scalar);
        res
    }

}

impl core::ops::Add for MathVec2 {
    type Output = MathVec2;

    /// The sum of two vectors.
    fn add(self, rhs: Self) -> (r: Self) {
        MathVec2 { x: self.x + rhs.x, y: self.y + rhs.y }
    }
}

impl vstd::std_specs::ops::AddSpecImpl for MathVec2 {
    open spec fn obeys_add_spec() -> bool {
        true
    }

    open spec fn add_req(self, rhs: Self) -> bool {
        i32::MIN <= self.x + rhs.x <= i32::MAX && i32::MIN <= self.y + rhs.y <= i32::MAX
    }

    open spec fn add_spec(self, rhs: Self) -> Self {
        MathVec2 { x: (self.x + rhs.x) as i32, y: (self.y + rhs.y) as i32 }
    }
}

impl core::ops::Mul for MathVec2 {
    type Output = i64;

    /// The dot product of two vectors.
    fn mul(self, rhs: Self) -> (r: i64) {
        let ax: i64 = self.x as i64;
        let ay: i64 = self.y as i64;
        let bx: i64 = rhs.x as i64;
        let by: i64 = rhs.y as i64;
        assert(-0x4000_0000_0000_0000 < ax * bx <= 0x4000_0000_0000_0000) by (nonlinear_arith)
            requires
                -0x8000_0000 <= ax <= 0x7fff_ffff,
                -0x8000_0000 <= bx <= 0x7fff_ffff,
        ;
        assert(-0x4000_0000_0000_0000 < ay * by <= 0x4000_0000_0000_0000) by (nonlinear_arith)
            requires
                -0x8000_0000 <= ay <= 0x7fff_ffff,
                -0x8000_0000 <= by <= 0x7fff_ffff,
        ;
        let px: i128 = (ax as i128) * (bx as i128);
        let py: i128 = (ay as i128) * (by as i128);
        (px + py) as i64
    }
}

impl vstd::std_specs::ops::MulSpecImpl for MathVec2 {
    open spec fn obeys_mul_spec() -> bool {
        true
    }

    open spec fn mul_req(self, rhs: Self) -> bool {
        self.x * rhs.x + self.y * rhs.y <= i64::MAX
    }

    open spec fn mul_spec(self, rhs: Self) -> i64 {
        (self.x * rhs.x + self.y * rhs.y) as i64
    }
}

/// The quotient of two integers, rounded toward zero.
pub open spec fn quotient(a: int, b: int) -> int {
    if a >= 0 {
        a / b
    } else {
        -((-a) / b)
    }
}

impl core::ops::Div<i32> for MathVec2 {
    type Output = MathVec2;

    /// The vector with both coordinates divided by `rhs`, rounded toward
    /// zero.
    fn div(self, rhs: i32) -> (r: Self) {
        MathVec2 { x: self.x / rhs, y: self.y / rhs }
    }
}

impl vstd::std_specs::ops::DivSpecImpl<i32> for MathVec2 {
    open spec fn obeys_div_spec() -> bool {
        true
    }

    open spec fn div_req(self, rhs: i32) -> bool {
        rhs != 0 && !(rhs == -1 && (self.x == i32::MIN || self.y == i32::MIN))
    }

    open spec fn div_spec(self, rhs: i32) -> Self {
        MathVec2 {
            x: quotient(self.x as int, rhs as int) as i32,
            y: quotient(self.y as int, rhs as int) as i32,
        }
    }
}

impl MathVec2 {
    /// The length of the vector, rounded down.
    pub fn len(&self) -> (l: u64)
        ensures
            is_floor_root(l as int, self.x * self.x + self.y * self.y),
    {
        let ax: i64 = self.x as i64;
        let ay: i64 = self.y as i64;
        assert(0 <= ax * ax <= 0x8000_0000 * 0x8000_0000) by (nonlinear_arith)
            requires
                -0x8000_0000 <= ax <= 0x7fff_ffff,
        ;
        assert(0 <= ay * ay <= 0x8000_0000 * 0x8000_0000) by (nonlinear_arith)
            requires
                -0x8000_0000 <= ay <= 0x7fff_ffff,
        ;
        isqrt((ax * ax) as u128 + (ay * ay) as u128)
    }
}

impl Vec2 {
    /// The origin.
    pub fn new() -> (r: Self)
        ensures
            r.x == 0,
            r.y == 0,
    {
        MathVec2 { x: 0, y: 0 }
    }
}

/// The squared distance between two points.
pub fn dist_squared(pt1: Vec2, pt2: Vec2) -> (d: i64)
    requires
        dist_sq(pt1, pt2) <= i64::MAX,
    ensures
        d == dist_sq(pt1, pt2),
{
    let dx: i64 = pt1.x as i64 - pt2.x as i64;
    let dy: i64 = pt1.y as i64 - pt2.y as i64;
    assert(dx * dx >= 0 && dy * dy >= 0) by (nonlinear_arith);
    dx * dx + dy * dy
}

/// The distance between two points, rounded down.
pub fn dist(pt1: Vec2, pt2: Vec2) -> (d: u64)
    ensures
        is_floor_root(d as int, dist_sq(pt1, pt2)),
{
    let dx: i64 = pt1.x as i64 - pt2.x as i64;
    let dy: i64 = pt1.y as i64 - pt2.y as i64;
    assert(0 <= dx * dx <= 0xffff_ffff * 0xffff_ffff) by (nonlinear_arith)
        requires
            -0xffff_ffff <= dx <= 0xffff_ffff,
    ;
    assert(0 <= dy * dy <= 0xffff_ffff * 0xffff_ffff) by (nonlinear_arith)
        requires
            -0xffff_ffff <= dy <= 0xffff_ffff,
    ;
    isqrt((dx as i128 * dx as i128) as u128 + (dy as i128 * dy as i128) as u128)
}

/// The length of one axis's share of a capped step.
fn step_share(cap: u128, d: u128, d2: u128) -> (q: u128)
    requires
        cap <= 0x7fff_ffff,
        d <= 0xffff_ffff,
        d * d <= d2,
        cap * cap < d2,
    ensures
        is_step_len(q as int, cap as int, d as int, d2 as int),
        q <= d,
        q <= cap,
{
    assert(cap * cap <= 0x7fff_ffff * 0x7fff_ffff) by (nonlinear_arith)
        requires
            cap <= 0x7fff_ffff,
    ;
    assert(d * d <= 0xffff_ffff * 0xffff_ffff) by (nonlinear_arith)
        requires
            d <= 0xffff_ffff,
    ;
    let c2: u128 = cap * cap;
    let e2: u128 = d * d;
    assert(c2 * e2 <= 0x3fff_ffff_0000_0001 * 0xffff_fffe_0000_0001) by (nonlinear_arith)
        requires
            c2 <= 0x3fff_ffff_0000_0001,
            e2 <= 0xffff_fffe_0000_0001,
    ;
    let n: u128 = c2 * e2;
    let m: u128 = n / d2;
    let r: u64 = isqrt(m);
    let q: u128 = r as u128;
    proof {
        let qi = q as int;
        let ni = n as int;
        let mi = m as int;
        let di = d2 as int;
        assert(ni == cap * cap * (d * d));
        assert(mi * di <= ni < (mi + 1) * di) by (nonlinear_arith)
            requires
                mi == ni / di,
                di > 0,
                ni >= 0,
        ;
        assert(qi * qi * di <= mi * di) by (nonlinear_arith)
            requires
                qi * qi <= mi,
                di > 0,
        ;
        assert((qi + 1) * (qi + 1) * di >= (mi + 1) * di) by (nonlinear_arith)
            requires
                (qi + 1) * (qi + 1) >= mi + 1,
                di > 0,
        ;
        lemma_step_short(qi, cap as int, d as int, di);
    }
    q
}

/// A share of a step toward a point out of reach is shorter than the whole
/// way on that axis and no longer than the cap.
proof fn lemma_step_short(q: int, cap: int, d: int, d2: int)
    requires
        0 <= cap,
        0 <= d,
        d * d <= d2,
        cap * cap < d2,
        is_step_len(q, cap, d, d2),
    ensures
        q <= d,
        q <= cap,
        d > 0 ==> q < d,
{
    if q >= d && d > 0 {
        lemma_square_monotone(d, q);
        lemma_square_monotone(0, d);
        assert(q * q * d2 > cap * cap * (d * d)) by (nonlinear_arith)
            requires
                q * q >= d * d,
                d * d > 0,
                d2 > cap * cap,
                cap * cap >= 0,
        ;
    }
    if d == 0 && q > 0 {
        assert(q * q * d2 > 0) by (nonlinear_arith)
            requires
                q > 0,
                d2 > 0,
        ;
        assert(cap * cap * (d * d) == 0) by (nonlinear_arith)
            requires
                d == 0,
        ;
    }
    if q > cap {
        lemma_square_monotone(cap, q);
        assert(q * q * d2 > cap * cap * (d * d)) by (nonlinear_arith)
            requires
                q * q > cap * cap,
                cap * cap >= 0,
                d2 >= d * d,
                d2 > 0,
                d * d >= 0,
        ;
    }
}

/// The absolute value of an integer.
pub open spec fn abs(n: int) -> int {
    if n >= 0 {
        n
    } else {
        -n
    }
}

/// A capped step ends within `cap` of its start. It ends at the goal exactly
/// when the goal is within `cap`. Otherwise it ends between start and goal,
/// and each coordinate of the step is that of the point at distance `cap` on
/// the way to the goal, rounded toward zero.
pub proof fn lemma_move_toward(from: Vec2, to: Vec2, cap: int)
    requires
        0 <= cap,
    ensures
        dist_sq(from, move_toward(from, to, cap)) <= cap * cap,
        move_toward(from, to, cap) == to <==> dist_sq(from, to) <= cap * cap,
        dist_sq(from, to) > cap * cap ==> {
            let r = move_toward(from, to, cap);
            let d2 = dist_sq(from, to);
            &&& is_step_len(abs(r.x - from.x), cap, to.x - from.x, d2)
            &&& is_step_len(abs(r.y - from.y), cap, to.y - from.y, d2)
            &&& from.x <= r.x <= to.x || to.x <= r.x <= from.x
            &&& from.y <= r.y <= to.y || to.y <= r.y <= from.y
        },
{
    let d2 = dist_sq(from, to);
    let dx = to.x - from.x;
    let dy = to.y - from.y;
    assert(square(from.x - to.x) == dx * dx && square(from.y - to.y) == dy * dy)
        by (nonlinear_arith)
        requires
            dx == to.x - from.x,
            dy == to.y - from.y,
    ;
    if d2 > cap * cap {
        let qx = step_len(cap, dx, d2);
        let qy = step_len(cap, dy, d2);
        assert(cap * cap >= 0) by (nonlinear_arith);
        lemma_step_len(cap, dx, d2);
        lemma_step_len(cap, dy, d2);
        assert(abs(dx) * abs(dx) == dx * dx && abs(dy) * abs(dy) == dy * dy) by (nonlinear_arith)
            requires
                abs(dx) == dx || abs(dx) == -dx,
                abs(dy) == dy || abs(dy) == -dy,
        ;
        assert(dx * dx >= 0 && dy * dy >= 0) by (nonlinear_arith);
        lemma_step_short(qx, cap, abs(dx), d2);
        lemma_step_short(qy, cap, abs(dy), d2);
        let r = move_toward(from, to, cap);
        assert(r.x == from.x + step_part(cap, dx, d2));
        assert(r.y == from.y + step_part(cap, dy, d2));
        assert(square(from.x - r.x) == qx * qx && square(from.y - r.y) == qy * qy)
            by (nonlinear_arith)
            requires
                from.x - r.x == qx || from.x - r.x == -qx,
                from.y - r.y == qy || from.y - r.y == -qy,
        ;
        assert(qx * qx + qy * qy <= cap * cap) by (nonlinear_arith)
            requires
                qx * qx * d2 <= cap * cap * (dx * dx),
                qy * qy * d2 <= cap * cap * (dy * dy),
                d2 == dx * dx + dy * dy,
                d2 > 0,
        ;
    }
}

/// Where the point at distance `cap` on the way to a goal out of reach has
/// whole coordinates, the capped step ends on it: at distance `cap` exactly,
/// and on the line from start to goal. That point has whole coordinates if
/// the whole way is of whole length `len` and `len` divides both `cap * dx`
/// and `cap * dy`.
pub proof fn lemma_move_toward_exact(from: Vec2, to: Vec2, cap: int, len: int)
    requires
        0 <= cap,
        0 < len,
        len * len == dist_sq(from, to),
        dist_sq(from, to) > cap * cap,
        (cap * (to.x - from.x)) % len == 0,
        (cap * (to.y - from.y)) % len == 0,
    ensures
        dist_sq(from, move_toward(from, to, cap)) == cap * cap,
        (move_toward(from, to, cap).x - from.x) * (to.y - from.y) == (move_toward(
            from,
            to,
            cap,
        ).y - from.y) * (to.x - from.x),
        (move_toward(from, to, cap).x - from.x) * len == cap * (to.x - from.x),
        (move_toward(from, to, cap).y - from.y) * len == cap * (to.y - from.y),
{
    let d2 = dist_sq(from, to);
    let dx = to.x - from.x;
    let dy = to.y - from.y;
    let r = move_toward(from, to, cap);
    lemma_move_toward(from, to, cap);
    assert(square(from.x - to.x) == dx * dx && square(from.y - to.y) == dy * dy)
        by (nonlinear_arith)
        requires
            dx == to.x - from.x,
            dy == to.y - from.y,
    ;
    let sx = r.x - from.x;
    let sy = r.y - from.y;
    lemma_exact_share(abs(sx), cap, dx, d2, len);
    lemma_exact_share(abs(sy), cap, dy, d2, len);
    assert(sx * len == cap * dx) by (nonlinear_arith)
        requires
            abs(sx) * len == cap * abs(dx),
            (sx >= 0 && dx >= 0) || (sx <= 0 && dx <= 0),
            abs(sx) == sx || abs(sx) == -sx,
            abs(dx) == dx || abs(dx) == -dx,
            sx >= 0 ==> abs(sx) == sx,
            sx <= 0 ==> abs(sx) == -sx,
            dx >= 0 ==> abs(dx) == dx,
            dx <= 0 ==> abs(dx) == -dx,
    ;
    assert(sy * len == cap * dy) by (nonlinear_arith)
        requires
            abs(sy) * len == cap * abs(dy),
            (sy >= 0 && dy >= 0) || (sy <= 0 && dy <= 0),
            sy >= 0 ==> abs(sy) == sy,
            sy <= 0 ==> abs(sy) == -sy,
            dy >= 0 ==> abs(dy) == dy,
            dy <= 0 ==> abs(dy) == -dy,
    ;
    assert(square(from.x - r.x) == sx * sx && square(from.y - r.y) == sy * sy)
        by (nonlinear_arith)
        requires
            sx == r.x - from.x,
            sy == r.y - from.y,
    ;
    let l2 = len * len;
    let c2 = cap * cap;
    let ux = sx * len;
    let uy = sy * len;
    assert((sx * sx) * l2 == ux * ux) by (nonlinear_arith)
        requires
            ux == sx * len,
            l2 == len * len,
    ;
    assert((sy * sy) * l2 == uy * uy) by (nonlinear_arith)
        requires
            uy == sy * len,
            l2 == len * len,
    ;
    assert(ux * ux == c2 * (dx * dx)) by (nonlinear_arith)
        requires
            ux == cap * dx,
            c2 == cap * cap,
    ;
    assert(uy * uy == c2 * (dy * dy)) by (nonlinear_arith)
        requires
            uy == cap * dy,
            c2 == cap * cap,
    ;
    assert(c2 * (dx * dx) + c2 * (dy * dy) == c2 * l2) by (nonlinear_arith)
        requires
            l2 == dx * dx + dy * dy,
    ;
    assert((sx * sx + sy * sy) * l2 == (sx * sx) * l2 + (sy * sy) * l2) by (nonlinear_arith);
    assert((sx * sx + sy * sy) * (len * len) == (cap * cap) * (len * len));
    assert(sx * sx + sy * sy == cap * cap) by (nonlinear_arith)
        requires
            (sx * sx + sy * sy) * (len * len) == (cap * cap) * (len * len),
            len > 0,
    ;
    assert((sx * dy) * len == (sy * dx) * len) by (nonlinear_arith)
        requires
            sx * len == cap * dx,
            sy * len == cap * dy,
    ;
    assert(sx * dy == sy * dx) by (nonlinear_arith)
        requires
            (sx * dy) * len == (sy * dx) * len,
            len > 0,
    ;
}

/// A share of a step that comes out whole is that whole number.
proof fn lemma_exact_share(q: int, cap: int, d: int, d2: int, len: int)
    requires
        0 <= cap,
        0 < len,
        len * len == d2,
        (cap * d) % len == 0,
        is_step_len(q, cap, d, d2),
    ensures
        q * len == cap * abs(d),
{
    let n = cap * abs(d);
    assert(n >= 0) by (nonlinear_arith)
        requires
            n == cap * abs(d),
            cap >= 0,
            abs(d) >= 0,
    ;
    assert(n % len == 0) by {
        if d < 0 {
            assert(cap * abs(d) == -(cap * d)) by (nonlinear_arith)
                requires
                    abs(d) == -d,
            ;
            vstd::arithmetic::div_mod::lemma_mod_multiples_vanish(0, 0, len);
            let m = (cap * d) / len;
            vstd::arithmetic::div_mod::lemma_fundamental_div_mod(cap * d, len);
            assert(n == len * (-m)) by (nonlinear_arith)
                requires
                    cap * d == len * m + 0,
                    n == -(cap * d),
            ;
            vstd::arithmetic::div_mod::lemma_mod_multiples_basic(-m, len);
            assert(len * (-m) == (-m) * len) by (nonlinear_arith);
        }
    }
    let e = n / len;
    vstd::arithmetic::div_mod::lemma_fundamental_div_mod(n, len);
    assert(e * len == n) by (nonlinear_arith)
        requires
            n == len * e + 0,
    ;
    assert(e >= 0) by (nonlinear_arith)
        requires
            e * len == n,
            n >= 0,
            len > 0,
    ;
    assert(e * e * d2 == cap * cap * (d * d)) by (nonlinear_arith)
        requires
            e * len == cap * abs(d),
            len * len == d2,
            abs(d) == d || abs(d) == -d,
    ;
    assert((e + 1) * (e + 1) * d2 > e * e * d2) by (nonlinear_arith)
        requires
            e >= 0,
            d2 > 0,
    ;
    assert(d2 > 0) by (nonlinear_arith)
        requires
            len > 0,
            len * len == d2,
    ;
    lemma_step_len_unique(q, e, cap, d, d2);
}

/// Steps from `from` toward `to`, covering at most `cap`.
pub fn move_from_to_capped(from: Vec2, to: Vec2, cap: i32) -> (r: Vec2)
    requires
        cap >= 0,
    ensures
        r == move_toward(from, to, cap as int),
{
    let dx: i64 = to.x as i64 - from.x as i64;
    let dy: i64 = to.y as i64 - from.y as i64;
    let ax: u128 = if dx >= 0 { dx as u128 } else { (-dx) as u128 };
    let ay: u128 = if dy >= 0 { dy as u128 } else { (-dy) as u128 };
    let c: u128 = cap as u128;
    assert(ax * ax <= 0xffff_ffff * 0xffff_ffff) by (nonlinear_arith)
        requires
            ax <= 0xffff_ffff,
    ;
    assert(ay * ay <= 0xffff_ffff * 0xffff_ffff) by (nonlinear_arith)
        requires
            ay <= 0xffff_ffff,
    ;
    assert(c * c <= 0x7fff_ffff * 0x7fff_ffff) by (nonlinear_arith)
        requires
            c <= 0x7fff_ffff,
    ;
    assert(ax * ax == dx * dx && ay * ay == dy * dy) by (nonlinear_arith)
        requires
            ax == dx || ax == -dx,
            ay == dy || ay == -dy,
    ;
    assert(square(from.x - to.x) == dx * dx && square(from.y - to.y) == dy * dy)
        by (nonlinear_arith)
        requires
            dx == to.x - from.x,
            dy == to.y - from.y,
    ;
    let d2: u128 = ax * ax + ay * ay;
    assert(d2 == dist_sq(from, to));
    if d2 <= c * c {
        return to;
    }
    let qx: u128 = step_share(c, ax, d2);
    let qy: u128 = step_share(c, ay, d2);
    proof {
        assert(ax * ax == (to.x - from.x) * (to.x - from.x));
        assert(ay * ay == (to.y - from.y) * (to.y - from.y));
        lemma_step_len(cap as int, to.x - from.x, d2 as int);
        lemma_step_len(cap as int, to.y - from.y, d2 as int);
        lemma_step_len_unique(qx as int, step_len(cap as int, to.x - from.x, d2 as int),
            cap as int, to.x - from.x, d2 as int);
        lemma_step_len_unique(qy as int, step_len(cap as int, to.y - from.y, d2 as int),
            cap as int, to.y - from.y, d2 as int);
    }
    let sx: i64 = if dx >= 0 { qx as i64 } else { -(qx as i64) };
    let sy: i64 = if dy >= 0 { qy as i64 } else { -(qy as i64) };
    MathVec2 { x: (from.x as i64 + sx) as i32, y: (from.y as i64 + sy) as i32 }
}

} // verus!
