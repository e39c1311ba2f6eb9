use vstd::prelude::*;

verus! {

/// Number of integer steps in one world unit: every length, speed, time and
/// config scalar of the simulation is an integer count of thousandths.
pub const SCALE: i64 = 1000;

/// Largest component magnitude that the vector operations accept.
pub const VECTOR_LIMIT: i64 = 1099511627776;

/// A 2D vector in fixed-point units.
#[derive(Clone, Copy, Debug, PartialEq, Eq, Structural)]
pub struct Vec2 {
    pub x: i64,
    pub y: i64,
}

impl View for Vec2 {
    type V = (int, int);

    open spec fn view(&self) -> (int, int) {
        (self.x as int, self.y as int)
    }
}

pub open spec fn norm_sq(v: (int, int)) -> int {
    v.0 * v.0 + v.1 * v.1
}

pub open spec fn dist_sq(a: (int, int), b: (int, int)) -> int {
    norm_sq((a.0 - b.0, a.1 - b.1))
}

pub open spec fn in_box(v: (int, int), b: int) -> bool {
    -b <= v.0 <= b && -b <= v.1 <= b
}

pub open spec fn vadd(a: (int, int), b: (int, int)) -> (int, int) {
    (a.0 + b.0, a.1 + b.1)
}

pub open spec fn vsub(a: (int, int), b: (int, int)) -> (int, int) {
    (a.0 - b.0, a.1 - b.1)
}

/// Division rounding toward zero, as Rust's integer division does.
pub open spec fn div_trunc(a: int, b: int) -> int {
    if a >= 0 {
        a / b
    } else {
        -((-a) / b)
    }
}

/// Each component multiplied by `k` and divided by `d`, rounding toward zero.
pub open spec fn scale_div(v: (int, int), k: int, d: int) -> (int, int) {
    (div_trunc(v.0 * k, d), div_trunc(v.1 * k, d))
}

pub open spec fn is_ceil_sqrt(n: int, r: int) -> bool {
    0 <= r && n <= r * r && (r == 0 || (r - 1) * (r - 1) < n)
}

/// The least non-negative `r` with `n <= r * r`.
pub open spec fn ceil_sqrt(n: int) -> int {
    choose|r: int| is_ceil_sqrt(n, r)
}

/// Extra fixed-point digits kept when a length is measured, so that short
/// vectors are rescaled accurately.
pub const LENGTH_PRECISION: i64 = 1000;

/// `v` rescaled to length `len`. The length of `v` is measured in
/// `1 / LENGTH_PRECISION` steps and rounded up, so the result is never longer
/// than `len`; the zero vector stays zero.
pub open spec fn with_length(v: (int, int), len: int) -> (int, int) {
    if norm_sq(v) == 0 {
        (0, 0)
    } else {
        scale_div(
            (v.0 * LENGTH_PRECISION, v.1 * LENGTH_PRECISION),
            len,
            ceil_sqrt(norm_sq(v) * LENGTH_PRECISION * LENGTH_PRECISION),
        )
    }
}

/// `v` if its length is at most `max`, else `v` rescaled to length `max`.
pub open spec fn clamped(v: (int, int), max: int) -> (int, int) {
    if norm_sq(v) <= max * max {
        v
    } else {
        with_length(v, max)
    }
}

pub proof fn lemma_ceil_sqrt_unique(n: int, r: int)
    requires
        is_ceil_sqrt(n, r),
    ensures
        ceil_sqrt(n) == r,
{
    let c = ceil_sqrt(n);
    assert(is_ceil_sqrt(n, c));
    if c < r {
        assert(c * c <= (r - 1) * (r - 1)) by (nonlinear_arith)
            requires
                0 <= c <= r - 1,
        ;
    } else if r < c {
        assert(r * r <= (c - 1) * (c - 1)) by (nonlinear_arith)
            requires
                0 <= r <= c - 1,
        ;
    }
}

/// A vector rescaled by `m / l`, where `l` is at least its length, is no
/// longer than `m`, and neither is any of its components.
proof fn lemma_scale_div_bounded(v: (int, int), m: int, l: int)
    requires
        m >= 0,
        l > 0,
        norm_sq(v) <= l * l,
    ensures
        norm_sq(scale_div(v, m, l)) <= m * m,
        in_box(scale_div(v, m, l), m),
{
    let a = if v.0 >= 0 { v.0 } else { -v.0 };
    let b = if v.1 >= 0 { v.1 } else { -v.1 };
    assert(a * m >= 0 && b * m >= 0) by (nonlinear_arith)
        requires
            a >= 0,
            b >= 0,
            m >= 0,
    ;
    let qa = (a * m) / l;
    let qb = (b * m) / l;
    assert(v.0 * m == a * m || v.0 * m == -(a * m)) by (nonlinear_arith)
        requires
            a == v.0 || a == -v.0,
    ;
    assert(v.1 * m == b * m || v.1 * m == -(b * m)) by (nonlinear_arith)
        requires
            b == v.1 || b == -v.1,
    ;
    let r = scale_div(v, m, l);
    assert(r.0 == qa || r.0 == -qa);
    assert(r.1 == qb || r.1 == -qb);
    assert(0 <= qa * l <= a * m && 0 <= qb * l <= b * m && qa >= 0 && qb >= 0) by (nonlinear_arith)
        requires
            qa == (a * m) / l,
            qb == (b * m) / l,
            a * m >= 0,
            b * m >= 0,
            l > 0,
    ;
    assert(a * a + b * b <= l * l) by (nonlinear_arith)
        requires
            a == v.0 || a == -v.0,
            b == v.1 || b == -v.1,
            v.0 * v.0 + v.1 * v.1 <= l * l,
    ;
    assert(qa * qa * (l * l) <= a * a * (m * m)) by (nonlinear_arith)
        requires
            0 <= qa * l <= a * m,
    ;
    assert(qb * qb * (l * l) <= b * b * (m * m)) by (nonlinear_arith)
        requires
            0 <= qb * l <= b * m,
    ;
    assert((qa * qa + qb * qb) * (l * l) <= (l * l) * (m * m)) by (nonlinear_arith)
        requires
            qa * qa * (l * l) <= a * a * (m * m),
            qb * qb * (l * l) <= b * b * (m * m),
            a * a + b * b <= l * l,
            m * m >= 0,
    ;
    assert(qa * qa + qb * qb <= m * m) by (nonlinear_arith)
        requires
            (qa * qa + qb * qb) * (l * l) <= (l * l) * (m * m),
            l > 0,
    ;
    assert(r.0 * r.0 + r.1 * r.1 == qa * qa + qb * qb) by (nonlinear_arith)
        requires
            r.0 == qa || r.0 == -qa,
            r.1 == qb || r.1 == -qb,
    ;
    assert(qa <= m && qb <= m) by (nonlinear_arith)
        requires
            qa >= 0,
            qb >= 0,
            qa * qa + qb * qb <= m * m,
            m >= 0,
    ;
}

/// `x * y` for a `x` and `y` of at most `VECTOR_LIMIT` in magnitude.
proof fn lemma_product_bound(x: int, y: int)
    requires
        -VECTOR_LIMIT <= x <= VECTOR_LIMIT,
        -VECTOR_LIMIT <= y <= VECTOR_LIMIT,
    ensures
        -VECTOR_LIMIT * VECTOR_LIMIT <= x * y <= VECTOR_LIMIT * VECTOR_LIMIT,
{
    assert(-VECTOR_LIMIT * VECTOR_LIMIT <= x * y <= VECTOR_LIMIT * VECTOR_LIMIT) by (nonlinear_arith)
        requires
            -VECTOR_LIMIT <= x <= VECTOR_LIMIT,
            -VECTOR_LIMIT <= y <= VECTOR_LIMIT,
    ;
}

/// `|x * k / d| <= b`, rounding toward zero, when `|x| <= bx` and `bx * k <= b * d`.
pub proof fn lemma_div_trunc_bound(x: int, k: int, d: int, bx: int, b: int)
    requires
        -bx <= x <= bx,
        0 <= k,
        d > 0,
        bx * k <= b * d,
    ensures
        -b <= div_trunc(x * k, d) <= b,
{
    let a = if x >= 0 {
        x
    } else {
        -x
    };
    assert(0 <= a * k <= bx * k) by (nonlinear_arith)
        requires
            0 <= a <= bx,
            0 <= k,
    ;
    assert(x * k == a * k || x * k == -(a * k)) by (nonlinear_arith)
        requires
            a == x || a == -x,
    ;
    vstd::arithmetic::div_mod::lemma_div_is_ordered(a * k, b * d, d);
    vstd::arithmetic::div_mod::lemma_div_by_multiple(b, d);
    vstd::arithmetic::div_mod::lemma_div_is_ordered(0, a * k, d);
}

/// `scale_div(v, k, d)` stays within `b` when `v` stays within `bv` and `bv * k <= b * d`.
pub proof fn lemma_scale_div_box(v: (int, int), k: int, d: int, bv: int, b: int)
    requires
        in_box(v, bv),
        0 <= k,
        d > 0,
        bv * k <= b * d,
    ensures
        in_box(scale_div(v, k, d), b),
{
    lemma_div_trunc_bound(v.0, k, d, bv, b);
    lemma_div_trunc_bound(v.1, k, d, bv, b);
}

/// The rounded-up square root of `n`.
pub fn ceil_sqrt_of(n: u128) -> (r: u128)
    requires
        n <= 4 * VECTOR_LIMIT * VECTOR_LIMIT * LENGTH_PRECISION * LENGTH_PRECISION,
    ensures
        r == ceil_sqrt(n as int),
        is_ceil_sqrt(n as int, r as int),
        r <= 2 * VECTOR_LIMIT * LENGTH_PRECISION,
{
    if n == 0 {
        proof {
            lemma_ceil_sqrt_unique(0, 0);
        }
        return 0;
    }
    let mut lo: u128 = 0;
    let mut hi: u128 = 2 * (VECTOR_LIMIT as u128) * (LENGTH_PRECISION as u128);
    while hi - lo > 1
        invariant
            lo < hi <= 2 * VECTOR_LIMIT * LENGTH_PRECISION,
            lo * lo < n,
            n <= hi * hi,
        decreases hi - lo,
    {
        let mid = lo + (hi - lo) / 2;
        assert(mid * mid <= 4 * VECTOR_LIMIT * VECTOR_LIMIT * LENGTH_PRECISION * LENGTH_PRECISION) by (nonlinear_arith)
            requires
                0 <= mid <= 2 * VECTOR_LIMIT * LENGTH_PRECISION,
        ;
        if mid * mid >= n {
            hi = mid;
        } else {
            lo = mid;
        }
    }
    proof {
        lemma_ceil_sqrt_unique(n as int, hi as int);
    }
    hi
}

/// Divides by a positive divisor, rounding toward zero.
fn div_toward_zero(a: i128, d: i128) -> (r: i128)
    requires
        a > i128::MIN,
        d > 0,
    ensures
        r == div_trunc(a as int, d as int),
{
    if a >= 0 {
        a / d
    } else {
        -((-a) / d)
    }
}

impl Vec2 {
    pub fn new(x: i64, y: i64) -> (r: Vec2)
        ensures
            r@ == (x as int, y as int),
    {
        Vec2 { x, y }
    }

    pub fn zero() -> (r: Vec2)
        ensures
            r@ == (0int, 0int),
    {
        Vec2 { x: 0, y: 0 }
    }

    pub fn plus(&self, o: Vec2) -> (r: Vec2)
        requires
            in_box(self@, VECTOR_LIMIT as int),
            in_box(o@, VECTOR_LIMIT as int),
        ensures
            r@ == vadd(self@, o@),
    {
        Vec2 { x: self.x + o.x, y: self.y + o.y }
    }

    pub fn minus(&self, o: Vec2) -> (r: Vec2)
        requires
            in_box(self@, VECTOR_LIMIT as int),
            in_box(o@, VECTOR_LIMIT as int),
        ensures
            r@ == vsub(self@, o@),
    {
        Vec2 { x: self.x - o.x, y: self.y - o.y }
    }

    /// Each component multiplied by `k` and divided by `d`, rounding toward zero.
    pub fn scale_div(&self, k: i64, d: i64) -> (r: Vec2)
        requires
            in_box(self@, VECTOR_LIMIT as int),
            0 <= k <= VECTOR_LIMIT,
            d > 0,
            in_box(scale_div(self@, k as int, d as int), VECTOR_LIMIT as int),
        ensures
            r@ == scale_div(self@, k as int, d as int),
    {
        proof {
            lemma_product_bound(self.x as int, k as int);
            lemma_product_bound(self.y as int, k as int);
        }
        let x = div_toward_zero((self.x as i128) * (k as i128), d as i128);
        let y = div_toward_zero((self.y as i128) * (k as i128), d as i128);
        Vec2 { x: x as i64, y: y as i64 }
    }

    /// The squared length, exactly.
    pub fn norm_sq(&self) -> (r: u128)
        requires
            in_box(self@, VECTOR_LIMIT as int),
        ensures
            r == norm_sq(self@),
            r <= 2 * VECTOR_LIMIT * VECTOR_LIMIT,
    {
        proof {
            lemma_product_bound(self.x as int, self.x as int);
            lemma_product_bound(self.y as int, self.y as int);
        }
        let xx = (self.x as i128) * (self.x as i128);
        let yy = (self.y as i128) * (self.y as i128);
        assert(xx >= 0 && yy >= 0) by (nonlinear_arith)
            requires
                xx == self.x * self.x,
                yy == self.y * self.y,
        ;
        (xx + yy) as u128
    }

    /// This vector rescaled to length `len`; the zero vector stays zero.
    pub fn with_length(&self, len: i64) -> (r: Vec2)
        requires
            in_box(self@, VECTOR_LIMIT as int),
            0 <= len <= VECTOR_LIMIT,
        ensures
            r@ == with_length(self@, len as int),
            norm_sq(r@) <= len * len,
            in_box(r@, len as int),
    {
        let n = self.norm_sq();
        if n == 0 {
            return Vec2::zero();
        }
        let k = LENGTH_PRECISION as i128;
        assert(n * LENGTH_PRECISION * LENGTH_PRECISION <= 4 * VECTOR_LIMIT * VECTOR_LIMIT * LENGTH_PRECISION
            * LENGTH_PRECISION) by (nonlinear_arith)
            requires
                0 < n <= 2 * VECTOR_LIMIT * VECTOR_LIMIT,
        ;
        let nk = n * (LENGTH_PRECISION as u128) * (LENGTH_PRECISION as u128);
        let l = ceil_sqrt_of(nk);
        let xk = (self.x as i128) * k;
        let yk = (self.y as i128) * k;
        proof {
            let v = self@;
            let vk = (v.0 * LENGTH_PRECISION, v.1 * LENGTH_PRECISION);
            let (a, b) = (v.0, v.1);
            assert((a * LENGTH_PRECISION) * (a * LENGTH_PRECISION) + (b * LENGTH_PRECISION) * (b
                * LENGTH_PRECISION) == (a * a + b * b) * LENGTH_PRECISION * LENGTH_PRECISION) by (nonlinear_arith);
            assert(norm_sq(vk) == norm_sq(v) * LENGTH_PRECISION * LENGTH_PRECISION);
            assert(is_ceil_sqrt(nk as int, l as int));
            assert(l > 0) by (nonlinear_arith)
                requires
                    nk > 0,
                    nk <= l * l,
                    l >= 0,
            ;
            lemma_scale_div_bounded(vk, len as int, l as int);
            assert(-VECTOR_LIMIT * LENGTH_PRECISION * VECTOR_LIMIT <= xk * len <= VECTOR_LIMIT * LENGTH_PRECISION
                * VECTOR_LIMIT && -VECTOR_LIMIT * LENGTH_PRECISION * VECTOR_LIMIT <= yk * len <= VECTOR_LIMIT
                * LENGTH_PRECISION * VECTOR_LIMIT) by (nonlinear_arith)
                requires
                    xk == self.x * LENGTH_PRECISION,
                    yk == self.y * LENGTH_PRECISION,
                    -VECTOR_LIMIT <= self.x <= VECTOR_LIMIT,
                    -VECTOR_LIMIT <= self.y <= VECTOR_LIMIT,
                    0 <= len <= VECTOR_LIMIT,
            ;
        }
        let rx = div_toward_zero(xk * (len as i128), l as i128);
        let ry = div_toward_zero(yk * (len as i128), l as i128);
        Vec2 { x: rx as i64, y: ry as i64 }
    }
}

/// Limits the length of `vector` to `max`, keeping its direction.
pub fn clamp_magnitude(vector: &mut Vec2, max: i64)
    requires
        in_box(old(vector)@, VECTOR_LIMIT as int),
        0 <= max <= VECTOR_LIMIT,
    ensures
        final(vector)@ == clamped(old(vector)@, max as int),
        norm_sq(final(vector)@) <= max * max,
        in_box(final(vector)@, max as int),
{
    let n = vector.norm_sq();
    proof {
        lemma_product_bound(max as int, max as int);
    }
    if n > (max as u128) * (max as u128) {
        *vector = vector.with_length(max);
    } else {
        assert(in_box(vector@, max as int)) by (nonlinear_arith)
            requires
                vector.x * vector.x + vector.y * vector.y <= max * max,
                max >= 0,
        ;
    }
}

} // verus!
