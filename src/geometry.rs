//! Vectors and axis-aligned rectangles in fixed point.
use vstd::prelude::*;
use vstd::arithmetic::div_mod::{lemma_fundamental_div_mod, lemma_mod_pos_bound};
use crate::outside::sqrt_u128;

verus! {

/// Micro-units per arena unit; also the length of a unit direction.
pub const SCALE: i64 = 1_000_000;

/// Largest magnitude of a component that `Vec2::normalize` accepts, so that
/// `SCALE^2` times the squared length fits in 128 bits.
pub const NORM_LIMIT: i64 = 10_000_000_000_000;

pub open spec fn abs(v: int) -> int {
    if v < 0 { -v } else { v }
}

/// A vector with integer components.
#[derive(Clone, Copy, Debug, PartialEq, Eq, Structural)]
pub struct Vec2 {
    pub x: i64,
    pub y: i64,
}

/// A vector with small integer components, such as the arena's half extent
/// in whole units.
#[derive(Debug)]
pub struct Vec2i {
    pub x: i32,
    pub y: i32,
}

/// The truncated square root of a non-negative number.
pub open spec fn is_root(m: int, s: int) -> bool {
    0 <= m && m * m <= s && s < (m + 1) * (m + 1)
}

pub open spec fn root_of(s: int) -> int {
    choose|m: int| is_root(m, s)
}

/// `n / d` rounded up, for `n >= 0` and `d > 0`.
pub open spec fn ceil_div(n: int, d: int) -> int {
    (n + d - 1) / d
}

/// One component of a unit vector: `c * SCALE / |v|`, rounded away from
/// zero so that a nonzero component stays nonzero, where `root` stands for
/// `SCALE * |v|`.
pub open spec fn unit_component(c: int, root: int) -> int {
    if c >= 0 {
        ceil_div(c * SCALE * SCALE, root)
    } else {
        -ceil_div((-c) * SCALE * SCALE, root)
    }
}

pub open spec fn squared_length(v: Vec2) -> int {
    v.x * v.x + v.y * v.y
}

/// `v` scaled to length `SCALE`; the zero vector is left as it is.
pub open spec fn normalized(v: Vec2) -> Vec2 {
    if v.x == 0 && v.y == 0 {
        v
    } else {
        let root = root_of(SCALE * SCALE * squared_length(v));
        Vec2 { x: unit_component(v.x as int, root) as i64, y: unit_component(v.y as int, root) as i64 }
    }
}

proof fn lemma_root_unique(m1: int, m2: int, s: int)
    requires
        is_root(m1, s),
        is_root(m2, s),
    ensures
        m1 == m2,
{
    if m1 < m2 {
        assert((m1 + 1) * (m1 + 1) <= m2 * m2) by (nonlinear_arith)
            requires 0 <= m1 + 1 <= m2;
    } else if m2 < m1 {
        assert((m2 + 1) * (m2 + 1) <= m1 * m1) by (nonlinear_arith)
            requires 0 <= m2 + 1 <= m1;
    }
}

/// A square below `(r + 1)^2` has its base at most `r`.
proof fn lemma_base_below_root(p: int, r: int, s: int)
    requires
        0 <= p,
        p * p <= s,
        is_root(r, s),
    ensures
        p <= r,
{
    if p > r {
        assert((r + 1) * (r + 1) <= p * p) by (nonlinear_arith)
            requires 0 <= r + 1 <= p;
    }
}

/// `n / d <= k` where `n <= k * d`.
pub(crate) proof fn lemma_quotient_at_most(n: int, d: int, k: int)
    requires
        0 <= n,
        0 < d,
        0 <= k,
        n <= k * d,
    ensures
        0 <= n / d <= k,
{
    lemma_fundamental_div_mod(n, d);
    lemma_mod_pos_bound(n, d);
    let q = n / d;
    let m = n % d;
    assert(0 <= q <= k) by (nonlinear_arith)
        requires n == d * q + m, 0 <= m < d, n <= k * d, 0 <= n, 0 <= k;
}

proof fn lemma_root_exists(s: int)
    requires
        s >= 0,
    ensures
        is_root(root_of(s), s),
    decreases s,
{
    if s == 0 {
        assert(is_root(0, 0));
    } else {
        lemma_root_exists(s - 1);
        let r = root_of(s - 1);
        if (r + 1) * (r + 1) <= s {
            assert(s < (r + 2) * (r + 2)) by (nonlinear_arith)
                requires s - 1 < (r + 1) * (r + 1), 0 <= r;
            assert(is_root(r + 1, s));
        } else {
            assert(is_root(r, s));
        }
    }
}

/// `ceil_div(n, d)` lies in `0..=k` where `n <= k * d`, is positive where `n`
/// is, and brackets `n` as `n <= q * d < n + d`.
pub(crate) proof fn lemma_ceil_bounds(n: int, d: int, k: int)
    requires
        0 <= n,
        0 < d,
        0 <= k,
        n <= k * d,
    ensures
        0 <= ceil_div(n, d) <= k,
        n > 0 ==> ceil_div(n, d) >= 1,
        n <= ceil_div(n, d) * d < n + d,
{
    let t = n + d - 1;
    lemma_fundamental_div_mod(t, d);
    lemma_mod_pos_bound(t, d);
    let q = t / d;
    let m = t % d;
    assert(0 <= q <= k && (n > 0 ==> q >= 1) && n <= q * d < n + d) by (nonlinear_arith)
        requires t == d * q + m, 0 <= m < d, t == n + d - 1, n <= k * d, 0 <= n, 0 <= k, 0 < d;
}

/// For a nonzero `v`, the root behind `normalized(v)` is positive, at least
/// `SCALE` times each component's size, and each quotient is at most `SCALE`.
proof fn lemma_root_bounds(v: Vec2)
    requires
        !(v.x == 0 && v.y == 0),
    ensures
        ({
            let a = abs(v.x as int);
            let b = abs(v.y as int);
            let si = SCALE * SCALE * squared_length(v);
            let root = root_of(si);
            &&& si == SCALE * SCALE * (a * a + b * b)
            &&& is_root(root, si)
            &&& SCALE * a <= root && SCALE * b <= root && root > 0
            &&& 0 <= ceil_div(a * SCALE * SCALE, root) <= SCALE
            &&& 0 <= ceil_div(b * SCALE * SCALE, root) <= SCALE
            &&& a > 0 ==> ceil_div(a * SCALE * SCALE, root) >= 1
            &&& b > 0 ==> ceil_div(b * SCALE * SCALE, root) >= 1
        }),
{
    let a = abs(v.x as int);
    let b = abs(v.y as int);
    assert(a * a == v.x * v.x) by (nonlinear_arith) requires a == abs(v.x as int);
    assert(b * b == v.y * v.y) by (nonlinear_arith) requires b == abs(v.y as int);
    let si = SCALE * SCALE * squared_length(v);
    assert(si == SCALE * SCALE * (a * a + b * b));
    assert(si >= 0 && (SCALE * a) * (SCALE * a) <= si && (SCALE * b) * (SCALE * b) <= si) by (nonlinear_arith)
        requires si == SCALE * SCALE * (a * a + b * b), a >= 0, b >= 0;
    lemma_root_exists(si);
    let root = root_of(si);
    lemma_base_below_root(SCALE * a, root, si);
    lemma_base_below_root(SCALE * b, root, si);
    assert(root > 0) by (nonlinear_arith)
        requires SCALE * a <= root, SCALE * b <= root, a > 0 || b > 0, a >= 0, b >= 0;
    assert(a * SCALE * SCALE <= SCALE * root && b * SCALE * SCALE <= SCALE * root) by (nonlinear_arith)
        requires SCALE * a <= root, SCALE * b <= root, a >= 0, b >= 0;
    assert(0 <= a * SCALE * SCALE && 0 <= b * SCALE * SCALE) by (nonlinear_arith)
        requires a >= 0, b >= 0;
    assert(a > 0 ==> a * SCALE * SCALE > 0) by (nonlinear_arith);
    assert(b > 0 ==> b * SCALE * SCALE > 0) by (nonlinear_arith);
    lemma_ceil_bounds(a * SCALE * SCALE, root, SCALE as int);
    lemma_ceil_bounds(b * SCALE * SCALE, root, SCALE as int);
}


/// Each component of a normalized vector is at most one unit long.
pub(crate) proof fn lemma_normalized_bounded(v: Vec2)
    requires
        abs(v.x as int) <= NORM_LIMIT,
        abs(v.y as int) <= NORM_LIMIT,
    ensures
        abs(normalized(v).x as int) <= SCALE,
        abs(normalized(v).y as int) <= SCALE,
{
    if !(v.x == 0 && v.y == 0) {
        lemma_root_bounds(v);
    }
}

/// The length bounds of a normalized vector, over a general unit `u`.
proof fn lemma_unit_length(a: int, b: int, u: int, m: int)
    requires
        0 <= a,
        0 <= b,
        0 < a + b,
        3 <= u,
        is_root(m, u * u * (a * a + b * b)),
        u * a <= m,
        u * b <= m,
    ensures
        ({
            let qa = ceil_div(a * u * u, m);
            let qb = ceil_div(b * u * u, m);
            u * u <= qa * qa + qb * qb < u * u + 8 * u
        }),
{
    let s = u * u * (a * a + b * b);
    assert(m >= u) by (nonlinear_arith)
        requires u * a <= m, u * b <= m, 0 <= a, 0 <= b, 0 < a + b, 0 < u;
    let na = a * u * u;
    let nb = b * u * u;
    assert(0 <= na && 0 <= nb && na <= u * m && nb <= u * m) by (nonlinear_arith)
        requires 0 <= a, 0 <= b, 0 < u, na == a * u * u, nb == b * u * u, u * a <= m, u * b <= m;
    lemma_ceil_bounds(na, m, u);
    lemma_ceil_bounds(nb, m, u);
    let qa = ceil_div(na, m);
    let qb = ceil_div(nb, m);
    let x = qa * qa + qb * qb;
    let mm = m * m;
    assert(mm > 0) by (nonlinear_arith) requires m >= 3, mm == m * m;
    assert(na * na + nb * nb == u * u * s) by (nonlinear_arith)
        requires na == a * u * u, nb == b * u * u, s == u * u * (a * a + b * b);
    // below
    assert(x * mm >= na * na + nb * nb) by (nonlinear_arith)
        requires na <= qa * m, nb <= qb * m, 0 <= na, 0 <= nb, x == qa * qa + qb * qb, mm == m * m;
    assert(u * u * s >= u * u * mm) by (nonlinear_arith)
        requires mm == m * m, m * m <= s, u > 0;
    assert(x >= u * u) by (nonlinear_arith)
        requires x * mm >= u * u * mm, mm > 0;
    // above
    let pa = qa * m;
    let pb = qb * m;
    assert(pa * pa < na * na + 2 * m * na + mm) by (nonlinear_arith)
        requires 0 <= pa < na + m, 0 <= na, mm == m * m;
    assert(pb * pb < nb * nb + 2 * m * nb + mm) by (nonlinear_arith)
        requires 0 <= pb < nb + m, 0 <= nb, mm == m * m;
    assert(x * mm == pa * pa + pb * pb) by (nonlinear_arith)
        requires pa == qa * m, pb == qb * m, x == qa * qa + qb * qb, mm == m * m;
    assert(x * mm < u * u * s + 2 * m * (na + nb) + 2 * mm) by (nonlinear_arith)
        requires x * mm == pa * pa + pb * pb, pa * pa < na * na + 2 * m * na + mm,
            pb * pb < nb * nb + 2 * m * nb + mm, na * na + nb * nb == u * u * s;
    assert(u * u * s < u * u * ((m + 1) * (m + 1))) by (nonlinear_arith)
        requires s < (m + 1) * (m + 1), u > 0;
    assert(u * u * ((m + 1) * (m + 1)) <= (u * u + 3 * u) * mm) by (nonlinear_arith)
        requires m >= u, u >= 3, mm == m * m;
    assert(u * (a + b) < 2 * m) by (nonlinear_arith)
        requires s < (m + 1) * (m + 1), s == u * u * (a * a + b * b), m >= 3, u > 0, 0 <= a, 0 <= b;
    assert(na + nb == u * (u * (a + b))) by (nonlinear_arith)
        requires na == a * u * u, nb == b * u * u;
    assert(2 * m * (na + nb) < 4 * u * mm) by (nonlinear_arith)
        requires na + nb == u * (u * (a + b)), u * (a + b) < 2 * m, u > 0, m > 0, mm == m * m;
    assert(x * mm < (u * u + 8 * u) * mm) by (nonlinear_arith)
        requires x * mm < u * u * s + 2 * m * (na + nb) + 2 * mm, u * u * s < (u * u + 3 * u) * mm,
            2 * m * (na + nb) < 4 * u * mm, u >= 3, mm > 0;
    assert(x < u * u + 8 * u) by (nonlinear_arith)
        requires x * mm < (u * u + 8 * u) * mm, mm > 0;
}

/// A nonzero vector normalizes to length `SCALE`, up to less than eight
/// parts in a million of its square, and never below it.
pub proof fn normalized_has_unit_length(v: Vec2)
    requires
        !(v.x == 0 && v.y == 0),
        abs(v.x as int) <= NORM_LIMIT,
        abs(v.y as int) <= NORM_LIMIT,
    ensures
        SCALE * SCALE <= squared_length(normalized(v)) < SCALE * SCALE + 8 * SCALE,
{
    lemma_root_bounds(v);
    let a = abs(v.x as int);
    let b = abs(v.y as int);
    let root = root_of(SCALE * SCALE * squared_length(v));
    lemma_unit_length(a, b, SCALE as int, root);
    let r = normalized(v);
    let qa = ceil_div(a * SCALE * SCALE, root);
    let qb = ceil_div(b * SCALE * SCALE, root);
    assert(unit_component(v.x as int, root) == qa || unit_component(v.x as int, root) == -qa);
    assert(unit_component(v.y as int, root) == qb || unit_component(v.y as int, root) == -qb);
    assert(r.x * r.x == qa * qa) by (nonlinear_arith) requires r.x == qa || r.x == -qa;
    assert(r.y * r.y == qb * qb) by (nonlinear_arith) requires r.y == qb || r.y == -qb;
}

/// Normalizing keeps the sign of each component: a nonzero component stays
/// nonzero and a zero one stays zero.
pub proof fn normalized_keeps_signs(v: Vec2)
    requires
        abs(v.x as int) <= NORM_LIMIT,
        abs(v.y as int) <= NORM_LIMIT,
    ensures
        v.x > 0 ==> normalized(v).x > 0,
        v.x < 0 ==> normalized(v).x < 0,
        v.x == 0 ==> normalized(v).x == 0,
        v.y > 0 ==> normalized(v).y > 0,
        v.y < 0 ==> normalized(v).y < 0,
        v.y == 0 ==> normalized(v).y == 0,
{
    if !(v.x == 0 && v.y == 0) {
        lemma_root_bounds(v);
        let root = root_of(SCALE * SCALE * squared_length(v));
        assert(ceil_div(0, root) == 0) by {
            lemma_ceil_bounds(0, root, 0);
        }
    }
}

fn magnitude_of(c: i64) -> (r: u128)
    ensures
        r == abs(c as int),
{
    if c < 0 {
        (-(c as i128)) as u128
    } else {
        c as u128
    }
}

impl Vec2 {
    pub fn new(x: i64, y: i64) -> (r: Vec2)
        ensures
            r.x == x,
            r.y == y,
    {
        Vec2 { x, y }
    }

    pub fn zero() -> (r: Vec2)
        ensures
            r.x == 0,
            r.y == 0,
    {
        Vec2::new(0, 0)
    }

    /// The vector times `k`.
    pub fn scale(self, k: i64) -> (r: Vec2)
        requires
            i64::MIN <= self.x * k <= i64::MAX,
            i64::MIN <= self.y * k <= i64::MAX,
        ensures
            r.x == self.x * k,
            r.y == self.y * k,
    {
        Vec2 { x: self.x * k, y: self.y * k }
    }

    /// Adds `rhs` component by component.
    pub fn add_assign(&mut self, rhs: Vec2)
        requires
            i64::MIN <= old(self).x + rhs.x <= i64::MAX,
            i64::MIN <= old(self).y + rhs.y <= i64::MAX,
        ensures
            final(self).x == old(self).x + rhs.x,
            final(self).y == old(self).y + rhs.y,
    {
        self.x = self.x + rhs.x;
        self.y = self.y + rhs.y;
    }

    /// Scales the vector in place to length `SCALE` (rounding each
    /// component away from zero) and returns it; the zero vector stays zero.
    pub fn normalize(&mut self) -> (r: Vec2)
        requires
            abs(old(self).x as int) <= NORM_LIMIT,
            abs(old(self).y as int) <= NORM_LIMIT,
        ensures
            r == normalized(*old(self)),
            *final(self) == r,
            abs(r.x as int) <= SCALE,
            abs(r.y as int) <= SCALE,
    {
        if self.x == 0 && self.y == 0 {
            return *self;
        }
        let a = magnitude_of(self.x);
        let b = magnitude_of(self.y);
        let unit_sq: u128 = (SCALE as u128) * (SCALE as u128);
        assert(a * a <= NORM_LIMIT * NORM_LIMIT && b * b <= NORM_LIMIT * NORM_LIMIT) by (nonlinear_arith)
            requires 0 <= a <= NORM_LIMIT, 0 <= b <= NORM_LIMIT;
        let sum: u128 = a * a + b * b;
        assert(unit_sq * sum <= 1_000_000_000_000 * 2 * NORM_LIMIT * NORM_LIMIT) by (nonlinear_arith)
            requires unit_sq == 1_000_000_000_000, sum <= 2 * NORM_LIMIT * NORM_LIMIT;
        let s: u128 = unit_sq * sum;
        let root = sqrt_u128(s);
        proof {
            let si = s as int;
            let v = *self;
            assert(a * a == v.x * v.x) by (nonlinear_arith) requires a == abs(v.x as int);
            assert(b * b == v.y * v.y) by (nonlinear_arith) requires b == abs(v.y as int);
            assert(si == SCALE * SCALE * squared_length(v)) by (nonlinear_arith)
                requires si == unit_sq * sum, unit_sq == SCALE * SCALE, sum == a * a + b * b,
                    a * a == v.x * v.x, b * b == v.y * v.y, squared_length(v) == v.x * v.x + v.y * v.y;
            lemma_root_bounds(v);
            lemma_root_unique(root as int, root_of(si), si);
            assert(a * unit_sq == a * SCALE * SCALE && b * unit_sq == b * SCALE * SCALE) by (nonlinear_arith)
                requires unit_sq == SCALE * SCALE;
        }
        proof {
            assert(root <= 20_000_000_000_000_000_000) by (nonlinear_arith)
                requires root * root <= s, s <= 1_000_000_000_000 * 2 * NORM_LIMIT * NORM_LIMIT, root >= 0;
            assert(a * unit_sq <= NORM_LIMIT * 1_000_000_000_000 && b * unit_sq <= NORM_LIMIT * 1_000_000_000_000) by (nonlinear_arith)
                requires 0 <= a <= NORM_LIMIT, 0 <= b <= NORM_LIMIT, unit_sq == 1_000_000_000_000;
        }
        let qa: u128 = (a * unit_sq + root - 1) / root;
        let qb: u128 = (b * unit_sq + root - 1) / root;
        let x: i64 = if self.x < 0 { -(qa as i64) } else { qa as i64 };
        let y: i64 = if self.y < 0 { -(qb as i64) } else { qb as i64 };
        self.x = x;
        self.y = y;
        *self
    }
}

impl Vec2i {
    /// The vector, each component times `k`, with 64-bit components.
    pub fn scale(self, k: i32) -> (r: Vec2)
        ensures
            r.x == self.x * k,
            r.y == self.y * k,
    {
        assert(-2147483648 * 2147483648 <= self.x * k <= 2147483648 * 2147483648) by (nonlinear_arith)
            requires -2147483648 <= self.x <= 2147483647, -2147483648 <= k <= 2147483647;
        assert(-2147483648 * 2147483648 <= self.y * k <= 2147483648 * 2147483648) by (nonlinear_arith)
            requires -2147483648 <= self.y <= 2147483647, -2147483648 <= k <= 2147483647;
        Vec2 { x: (self.x as i64) * (k as i64), y: (self.y as i64) * (k as i64) }
    }
}

/// An axis-aligned rectangle given by its center and its full size.
#[derive(Clone, Copy, Debug, PartialEq, Eq, Structural)]
pub struct Quad {
    pub pos: Vec2,
    pub size: Vec2,
}

impl Quad {
    /// The two rectangles overlap: their centers are closer than half the sum
    /// of their sizes on both axes. Touching edges do not overlap.
    pub open spec fn overlaps(self, b: Quad) -> bool {
        2 * abs(self.pos.x - b.pos.x) < self.size.x + b.size.x
            && 2 * abs(self.pos.y - b.pos.y) < self.size.y + b.size.y
    }

    /// A rectangle; its size must be positive on both axes.
    pub fn new(pos: Vec2, size: Vec2) -> (r: Quad)
        requires
            size.x > 0,
            size.y > 0,
        ensures
            r.pos == pos,
            r.size == size,
    {
        Quad { pos, size }
    }

    pub fn interects(&self, b: &Quad) -> (r: bool)
        ensures
            r == self.overlaps(*b),
    {
        let dx = self.pos.x as i128 - b.pos.x as i128;
        let dy = self.pos.y as i128 - b.pos.y as i128;
        let adx: i128 = if dx < 0 { -dx } else { dx };
        let ady: i128 = if dy < 0 { -dy } else { dy };
        let width: i128 = self.size.x as i128 + b.size.x as i128;
        let height: i128 = self.size.y as i128 + b.size.y as i128;
        2 * adx < width && 2 * ady < height
    }
}

/// Overlap does not depend on the order of the two rectangles.
pub proof fn intersection_is_symmetric(a: Quad, b: Quad)
    ensures
        a.overlaps(b) == b.overlaps(a),
{
}

/// A rectangle of positive size overlaps itself.
pub proof fn quad_overlaps_itself(a: Quad)
    requires
        a.size.x > 0,
        a.size.y > 0,
    ensures
        a.overlaps(a),
{
}

/// Normalizing the zero vector gives the zero vector.
pub proof fn normalized_zero_is_zero()
    ensures
        normalized(Vec2 { x: 0, y: 0 }) == (Vec2 { x: 0, y: 0 }),
{
}

} // verus!
