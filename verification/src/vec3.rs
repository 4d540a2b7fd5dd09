//! Fixed-point 3D vector arithmetic.
//!
//! Coordinates are `i64` values understood as fixed-point numbers; the
//! caller chooses the scale. All geometric operations are exact integer
//! arithmetic, specified against unbounded integer models, with explicit
//! range preconditions that rule overflow out.

use vstd::prelude::*;

verus! {

/// A 3D vector of fixed-point coordinates.
#[derive(Copy, Clone, PartialEq, Eq, Structural, Debug, Hash)]
pub struct Vec3 {
    pub x: i64,
    pub y: i64,
    pub z: i64,
}

/// Largest coordinate magnitude accepted by the geometric operations.
pub const POS_LIMIT: i64 = 0x10_0000;

/// Largest value `dist_sq` can return on points within `POS_LIMIT`:
/// three squares of differences of at most `2 * POS_LIMIT` each.
pub const DIST_SQ_MAX: i64 = 0xC00_0000_0000;

pub open spec fn in_range(v: Vec3) -> bool {
    -POS_LIMIT <= v.x <= POS_LIMIT && -POS_LIMIT <= v.y <= POS_LIMIT && -POS_LIMIT <= v.z
        <= POS_LIMIT
}

/// Squared euclidean distance between two points, as an exact integer.
pub open spec fn dist_sq_spec(a: Vec3, b: Vec3) -> int {
    (a.x - b.x) * (a.x - b.x) + (a.y - b.y) * (a.y - b.y) + (a.z - b.z) * (a.z - b.z)
}

impl Vec3 {
    pub open spec fn zero_spec() -> Vec3 {
        Vec3 { x: 0, y: 0, z: 0 }
    }

    pub fn zero() -> (r: Vec3)
        ensures
            r == Vec3::zero_spec(),
    {
        Vec3 { x: 0, y: 0, z: 0 }
    }

    pub fn is_zero(&self) -> (r: bool)
        ensures
            r == (*self == Vec3::zero_spec()),
    {
        self.x == 0 && self.y == 0 && self.z == 0
    }
}

/// Fixed-point scale of unit vectors: a normalized vector has magnitude
/// close to `UNIT`.
pub const UNIT: i64 = 0x1_0000;

/// The half-turn angle in `UNIT`-scaled radians.
pub const PI_FP: i64 = 205887;

/// An unbounded-integer vector: the mathematical model that contracts
/// about fixed-point vector arithmetic are stated over.
pub ghost struct IVec {
    pub x: int,
    pub y: int,
    pub z: int,
}

/// The model of a fixed-point vector.
pub open spec fn ivec(v: Vec3) -> IVec {
    IVec { x: v.x as int, y: v.y as int, z: v.z as int }
}

pub open spec fn izero() -> IVec {
    IVec { x: 0, y: 0, z: 0 }
}

/// A model vector whose components fit `i64`, written back.
pub open spec fn vec3_of(a: IVec) -> Vec3 {
    Vec3 { x: a.x as i64, y: a.y as i64, z: a.z as i64 }
}

pub open spec fn iadd(a: IVec, b: IVec) -> IVec {
    IVec { x: a.x + b.x, y: a.y + b.y, z: a.z + b.z }
}

pub open spec fn isub(a: IVec, b: IVec) -> IVec {
    IVec { x: a.x - b.x, y: a.y - b.y, z: a.z - b.z }
}

pub open spec fn icross(a: IVec, b: IVec) -> IVec {
    IVec {
        x: a.y * b.z - a.z * b.y,
        y: a.z * b.x - a.x * b.z,
        z: a.x * b.y - a.y * b.x,
    }
}

pub open spec fn idot(a: IVec, b: IVec) -> int {
    a.x * b.x + a.y * b.y + a.z * b.z
}

/// Squared magnitude of a model vector.
pub open spec fn insq(a: IVec) -> int {
    idot(a, a)
}

/// Truncating (round toward zero) division, the semantics of hardware
/// signed division; `b` must be positive.
pub open spec fn sdiv(a: int, b: int) -> int {
    if a >= 0 {
        a / b
    } else {
        -((-a) / b)
    }
}

/// The integer square root: the largest `r` with `r * r <= n`.
pub open spec fn sqrt_floor(n: int) -> int
    decreases n,
{
    if n <= 0 {
        0
    } else {
        let r = sqrt_floor(n - 1);
        if (r + 1) * (r + 1) <= n {
            r + 1
        } else {
            r
        }
    }
}

/// `sqrt_floor` is the floor of the square root.
pub proof fn lemma_sqrt_floor(n: int)
    requires
        n >= 0,
    ensures
        sqrt_floor(n) >= 0,
        sqrt_floor(n) * sqrt_floor(n) <= n,
        n < (sqrt_floor(n) + 1) * (sqrt_floor(n) + 1),
    decreases n,
{
    if n > 0 {
        lemma_sqrt_floor(n - 1);
        let r = sqrt_floor(n - 1);
        if (r + 1) * (r + 1) <= n {
            assert(n < (r + 2) * (r + 2)) by (nonlinear_arith)
                requires
                    r >= 0,
                    n - 1 < (r + 1) * (r + 1),
                    (r + 1) * (r + 1) <= n,
            ;
        }
    }
}

/// Any integer whose square brackets `n` is its square root.
pub proof fn lemma_sqrt_unique(n: int, r: int)
    requires
        n >= 0,
        r >= 0,
        r * r <= n,
        n < (r + 1) * (r + 1),
    ensures
        r == sqrt_floor(n),
{
    lemma_sqrt_floor(n);
    let s = sqrt_floor(n);
    if r < s {
        assert((r + 1) * (r + 1) <= s * s) by (nonlinear_arith)
            requires
                0 <= r < s,
        ;
    }
    if s < r {
        assert((s + 1) * (s + 1) <= r * r) by (nonlinear_arith)
            requires
                0 <= s < r,
        ;
    }
}

/// A component of a vector is bounded by the floor of its magnitude.
pub proof fn lemma_comp_le_sqrt(x: int, nsq: int, m: int)
    requires
        x * x <= nsq,
        m >= 0,
        nsq < (m + 1) * (m + 1),
    ensures
        -m <= x <= m,
{
    assert(-m <= x <= m) by (nonlinear_arith)
        requires
            x * x <= nsq,
            m >= 0,
            nsq < (m + 1) * (m + 1),
    ;
}

/// A truncating quotient is bounded once the dividend is bounded by a
/// multiple of the divisor.
pub proof fn lemma_sdiv_le(a: int, b: int, m: int)
    requires
        b >= 1,
        m >= 0,
        -(m * b) <= a <= m * b,
    ensures
        -m <= sdiv(a, b) <= m,
{
    assert(m * b == b * m) by (nonlinear_arith);
    if a >= 0 {
        vstd::arithmetic::div_mod::lemma_div_is_ordered(a, b * m, b);
        vstd::arithmetic::div_mod::lemma_div_multiples_vanish(m, b);
        vstd::arithmetic::div_mod::lemma_div_pos_is_pos(a, b);
    } else {
        vstd::arithmetic::div_mod::lemma_div_is_ordered(-a, b * m, b);
        vstd::arithmetic::div_mod::lemma_div_multiples_vanish(m, b);
        vstd::arithmetic::div_mod::lemma_div_pos_is_pos(-a, b);
    }
}

/// Brackets a truncating quotient: the quotient's magnitude times the
/// divisor falls within one divisor of the dividend's magnitude, and the
/// quotient carries the dividend's sign.
proof fn lemma_sdiv_bracket(x: int, m: int)
    requires
        m >= 1,
    ensures
        ({
            let u = sdiv(x, m);
            let xa = if x >= 0 {
                x
            } else {
                -x
            };
            let ua = if u >= 0 {
                u
            } else {
                -u
            };
            ua * m <= xa < ua * m + m && ua == (if u >= 0 {
                u
            } else {
                -u
            })
        }),
{
    if x >= 0 {
        vstd::arithmetic::div_mod::lemma_fundamental_div_mod(x, m);
        vstd::arithmetic::div_mod::lemma_mod_bound(x, m);
        vstd::arithmetic::div_mod::lemma_div_pos_is_pos(x, m);
        let u = x / m;
        assert(u * m == m * u) by (nonlinear_arith);
    } else {
        vstd::arithmetic::div_mod::lemma_fundamental_div_mod(-x, m);
        vstd::arithmetic::div_mod::lemma_mod_bound(-x, m);
        vstd::arithmetic::div_mod::lemma_div_pos_is_pos(-x, m);
        let u = (-x) / m;
        assert(u * m == m * u) by (nonlinear_arith);
    }
}

/// The unit-length property of safe normalization: the zero vector stays
/// exactly zero, and any other vector is rescaled to squared magnitude
/// `UNIT * UNIT`, up to one truncation per component — never more than
/// `6 * UNIT` below it in absolute terms, and above it by no more than
/// the relative slack `((m + 1) / m)^2` of the magnitude floor `m`
/// (stated multiplied out, since `m` is an integer).
pub proof fn lemma_unit_magnitude(v: IVec)
    ensures
        v == izero() ==> unit_or_zero(v) == izero(),
        v != izero() ==> insq(unit_or_zero(v)) >= 0xFFFA_0000,
        v != izero() ==> insq(unit_or_zero(v)) * (sqrt_floor(insq(v)) * sqrt_floor(insq(v)))
            <= 0x1_0000_0000 * ((sqrt_floor(insq(v)) + 1) * (sqrt_floor(insq(v)) + 1)),
{
    if v != izero() {
        let s = insq(v);
        assert(s >= 1 && v.x * v.x <= s && v.y * v.y <= s && v.z * v.z <= s && v.x * v.x >= 0
            && v.y * v.y >= 0 && v.z * v.z >= 0) by (nonlinear_arith)
            requires
                s == v.x * v.x + v.y * v.y + v.z * v.z,
                v != izero(),
        ;
        lemma_sqrt_floor(s);
        let m = sqrt_floor(s);
        assert(m >= 1) by (nonlinear_arith)
            requires
                s >= 1,
                m >= 0,
                s < (m + 1) * (m + 1),
        ;
        lemma_comp_le_sqrt(v.x, s, m);
        lemma_comp_le_sqrt(v.y, s, m);
        lemma_comp_le_sqrt(v.z, s, m);
        let u = scale_unit(v);
        lemma_sdiv_bracket(v.x * 0x1_0000, m);
        lemma_sdiv_bracket(v.y * 0x1_0000, m);
        lemma_sdiv_bracket(v.z * 0x1_0000, m);
        let xa = if v.x >= 0 { v.x } else { -v.x };
        let ya = if v.y >= 0 { v.y } else { -v.y };
        let za = if v.z >= 0 { v.z } else { -v.z };
        let uxa = if u.x >= 0 { u.x } else { -u.x };
        let uya = if u.y >= 0 { u.y } else { -u.y };
        let uza = if u.z >= 0 { u.z } else { -u.z };
        assert(uxa * m <= xa * 0x1_0000 < uxa * m + m);
        assert(uya * m <= ya * 0x1_0000 < uya * m + m);
        assert(uza * m <= za * 0x1_0000 < uza * m + m);
        // squared, per component: (ua * m)^2 brackets (a * UNIT)^2
        assert((uxa * m) * (uxa * m) >= (xa * 0x1_0000) * (xa * 0x1_0000) - 2 * (xa * 0x1_0000) * m
            && (uxa * m) * (uxa * m) <= (xa * 0x1_0000) * (xa * 0x1_0000)) by (nonlinear_arith)
            requires
                m >= 1,
                xa >= 0,
                uxa >= 0,
                uxa * m <= xa * 0x1_0000 < uxa * m + m,
        ;
        assert((uya * m) * (uya * m) >= (ya * 0x1_0000) * (ya * 0x1_0000) - 2 * (ya * 0x1_0000) * m
            && (uya * m) * (uya * m) <= (ya * 0x1_0000) * (ya * 0x1_0000)) by (nonlinear_arith)
            requires
                m >= 1,
                ya >= 0,
                uya >= 0,
                uya * m <= ya * 0x1_0000 < uya * m + m,
        ;
        assert((uza * m) * (uza * m) >= (za * 0x1_0000) * (za * 0x1_0000) - 2 * (za * 0x1_0000) * m
            && (uza * m) * (uza * m) <= (za * 0x1_0000) * (za * 0x1_0000)) by (nonlinear_arith)
            requires
                m >= 1,
                za >= 0,
                uza >= 0,
                uza * m <= za * 0x1_0000 < uza * m + m,
        ;
        // sums: m^2 * insq(u) brackets UNIT^2 * insq(v)
        assert((uxa * m) * (uxa * m) == (u.x * m) * (u.x * m) && (uya * m) * (uya * m) == (u.y * m)
            * (u.y * m) && (uza * m) * (uza * m) == (u.z * m) * (u.z * m)) by (nonlinear_arith)
            requires
                uxa == (if u.x >= 0 { u.x } else { -u.x }),
                uya == (if u.y >= 0 { u.y } else { -u.y }),
                uza == (if u.z >= 0 { u.z } else { -u.z }),
        ;
        assert(insq(u) * (m * m) == (u.x * m) * (u.x * m) + (u.y * m) * (u.y * m) + (u.z * m) * (u.z
            * m)) by (nonlinear_arith)
            requires
                insq(u) == u.x * u.x + u.y * u.y + u.z * u.z,
        ;
        assert((xa * 0x1_0000) * (xa * 0x1_0000) + (ya * 0x1_0000) * (ya * 0x1_0000) + (za
            * 0x1_0000) * (za * 0x1_0000) == 0x1_0000_0000 * s) by (nonlinear_arith)
            requires
                s == v.x * v.x + v.y * v.y + v.z * v.z,
                xa == (if v.x >= 0 { v.x } else { -v.x }),
                ya == (if v.y >= 0 { v.y } else { -v.y }),
                za == (if v.z >= 0 { v.z } else { -v.z }),
        ;
        // lower bound
        assert(insq(u) * (m * m) >= 0x1_0000_0000 * s - 2 * 0x1_0000 * m * (xa + ya + za))
            by (nonlinear_arith)
            requires
                insq(u) * (m * m) == (uxa * m) * (uxa * m) + (uya * m) * (uya * m) + (uza * m) * (
                uza * m),
                (xa * 0x1_0000) * (xa * 0x1_0000) + (ya * 0x1_0000) * (ya * 0x1_0000) + (za
                    * 0x1_0000) * (za * 0x1_0000) == 0x1_0000_0000 * s,
                (uxa * m) * (uxa * m) >= (xa * 0x1_0000) * (xa * 0x1_0000) - 2 * (xa * 0x1_0000)
                    * m,
                (uya * m) * (uya * m) >= (ya * 0x1_0000) * (ya * 0x1_0000) - 2 * (ya * 0x1_0000)
                    * m,
                (uza * m) * (uza * m) >= (za * 0x1_0000) * (za * 0x1_0000) - 2 * (za * 0x1_0000)
                    * m,
        ;
        assert(insq(u) * (m * m) >= 0xFFFA_0000 * (m * m)) by (nonlinear_arith)
            requires
                insq(u) * (m * m) >= 0x1_0000_0000 * s - 2 * 0x1_0000 * m * (xa + ya + za),
                s >= m * m,
                xa <= m,
                ya <= m,
                za <= m,
                m >= 1,
        ;
        assert(insq(u) >= 0xFFFA_0000) by (nonlinear_arith)
            requires
                insq(u) * (m * m) >= 0xFFFA_0000 * (m * m),
                m >= 1,
        ;
        // upper bound
        assert(insq(u) * (m * m) <= 0x1_0000_0000 * s) by (nonlinear_arith)
            requires
                insq(u) * (m * m) == (uxa * m) * (uxa * m) + (uya * m) * (uya * m) + (uza * m) * (
                uza * m),
                (xa * 0x1_0000) * (xa * 0x1_0000) + (ya * 0x1_0000) * (ya * 0x1_0000) + (za
                    * 0x1_0000) * (za * 0x1_0000) == 0x1_0000_0000 * s,
                (uxa * m) * (uxa * m) <= (xa * 0x1_0000) * (xa * 0x1_0000),
                (uya * m) * (uya * m) <= (ya * 0x1_0000) * (ya * 0x1_0000),
                (uza * m) * (uza * m) <= (za * 0x1_0000) * (za * 0x1_0000),
        ;
        assert(insq(u) * (m * m) <= 0x1_0000_0000 * ((m + 1) * (m + 1))) by (nonlinear_arith)
            requires
                insq(u) * (m * m) <= 0x1_0000_0000 * s,
                s < (m + 1) * (m + 1),
        ;
    }
}

/// The cross product of a vector with itself vanishes.
pub proof fn lemma_icross_self(a: IVec, b: IVec)
    requires
        a == b,
    ensures
        icross(a, b) == izero(),
{
    assert(a.y * b.z - a.z * b.y == 0 && a.z * b.x - a.x * b.z == 0 && a.x * b.y - a.y * b.x == 0)
        by (nonlinear_arith)
        requires
            a == b,
    ;
}

/// The cross product with a zero factor vanishes.
pub proof fn lemma_icross_zero(a: IVec, b: IVec)
    requires
        a == izero() || b == izero(),
    ensures
        icross(a, b) == izero(),
{
    assert(a.y * b.z - a.z * b.y == 0 && a.z * b.x - a.x * b.z == 0 && a.x * b.y - a.y * b.x == 0)
        by (nonlinear_arith)
        requires
            a == izero() || b == izero(),
    ;
}

/// A square of a bounded integer is bounded by the square of the bound.
pub proof fn lemma_sq_bound(a: int, m: int)
    requires
        -m <= a <= m,
    ensures
        0 <= a * a <= m * m,
{
    assert(0 <= a * a <= m * m) by (nonlinear_arith)
        requires
            -m <= a <= m,
    ;
}

/// A product of bounded integers is bounded by the product of the bounds.
pub proof fn lemma_mul_bound(a: int, b: int, ma: int, mb: int)
    requires
        -ma <= a <= ma,
        -mb <= b <= mb,
        0 <= ma,
        0 <= mb,
    ensures
        -(ma * mb) <= a * b <= ma * mb,
{
    assert(-(ma * mb) <= a * b <= ma * mb) by (nonlinear_arith)
        requires
            -ma <= a <= ma,
            -mb <= b <= mb,
            0 <= ma,
            0 <= mb,
    ;
}

impl Vec3 {
    /// Componentwise difference of two in-range points: an edge vector.
    pub fn sub(self, o: Vec3) -> (r: Vec3)
        requires
            in_range(self),
            in_range(o),
        ensures
            ivec(r) == isub(ivec(self), ivec(o)),
            -0x20_0000 <= r.x <= 0x20_0000,
            -0x20_0000 <= r.y <= 0x20_0000,
            -0x20_0000 <= r.z <= 0x20_0000,
    {
        Vec3 { x: self.x - o.x, y: self.y - o.y, z: self.z - o.z }
    }

    /// Cross product of two edge vectors.
    pub fn cross(self, o: Vec3) -> (r: Vec3)
        requires
            -0x20_0000 <= self.x <= 0x20_0000,
            -0x20_0000 <= self.y <= 0x20_0000,
            -0x20_0000 <= self.z <= 0x20_0000,
            -0x20_0000 <= o.x <= 0x20_0000,
            -0x20_0000 <= o.y <= 0x20_0000,
            -0x20_0000 <= o.z <= 0x20_0000,
        ensures
            ivec(r) == icross(ivec(self), ivec(o)),
            -0x800_0000_0000 <= r.x <= 0x800_0000_0000,
            -0x800_0000_0000 <= r.y <= 0x800_0000_0000,
            -0x800_0000_0000 <= r.z <= 0x800_0000_0000,
    {
        proof {
            lemma_mul_bound(self.y as int, o.z as int, 0x20_0000, 0x20_0000);
            lemma_mul_bound(self.z as int, o.y as int, 0x20_0000, 0x20_0000);
            lemma_mul_bound(self.z as int, o.x as int, 0x20_0000, 0x20_0000);
            lemma_mul_bound(self.x as int, o.z as int, 0x20_0000, 0x20_0000);
            lemma_mul_bound(self.x as int, o.y as int, 0x20_0000, 0x20_0000);
            lemma_mul_bound(self.y as int, o.x as int, 0x20_0000, 0x20_0000);
        }
        Vec3 {
            x: self.y * o.z - self.z * o.y,
            y: self.z * o.x - self.x * o.z,
            z: self.x * o.y - self.y * o.x,
        }
    }

    /// Dot product of two edge vectors.
    pub fn dot(self, o: Vec3) -> (r: i64)
        requires
            -0x20_0000 <= self.x <= 0x20_0000,
            -0x20_0000 <= self.y <= 0x20_0000,
            -0x20_0000 <= self.z <= 0x20_0000,
            -0x20_0000 <= o.x <= 0x20_0000,
            -0x20_0000 <= o.y <= 0x20_0000,
            -0x20_0000 <= o.z <= 0x20_0000,
        ensures
            r == idot(ivec(self), ivec(o)),
            -0xC00_0000_0000 <= r <= 0xC00_0000_0000,
    {
        proof {
            lemma_mul_bound(self.x as int, o.x as int, 0x20_0000, 0x20_0000);
            lemma_mul_bound(self.y as int, o.y as int, 0x20_0000, 0x20_0000);
            lemma_mul_bound(self.z as int, o.z as int, 0x20_0000, 0x20_0000);
        }
        self.x * o.x + self.y * o.y + self.z * o.z
    }
}

/// Integer square root by bisection.
pub fn isqrt(n: u128) -> (r: u64)
    requires
        n < 0x4000_0000_0000_0000_0000_0000_0000_0000,
    ensures
        r as int == sqrt_floor(n as int),
{
    let mut lo: u128 = 0;
    let mut hi: u128 = 0x8000_0000_0000_0000;
    proof {
        assert((0x8000_0000_0000_0000 as int) * (0x8000_0000_0000_0000 as int)
            == 0x4000_0000_0000_0000_0000_0000_0000_0000) by (nonlinear_arith);
    }
    while lo + 1 < hi
        invariant
            0 <= lo < hi <= 0x8000_0000_0000_0000,
            (lo as int) * (lo as int) <= n as int,
            (n as int) < (hi as int) * (hi as int),
        decreases hi - lo,
    {
        let mid = lo + (hi - lo) / 2;
        proof {
            lemma_sq_bound(mid as int, 0x8000_0000_0000_0000);
            assert((0x8000_0000_0000_0000 as int) * (0x8000_0000_0000_0000 as int)
                == 0x4000_0000_0000_0000_0000_0000_0000_0000) by (nonlinear_arith);
        }
        if mid * mid <= n {
            lo = mid;
        } else {
            hi = mid;
        }
    }
    proof {
        lemma_sqrt_unique(n as int, lo as int);
    }
    lo as u64
}

/// Truncating signed division by a positive divisor.
pub fn sdiv64(a: i64, b: u64) -> (r: i64)
    requires
        b >= 1,
        a > i64::MIN,
    ensures
        r == sdiv(a as int, b as int),
        -(if a >= 0 { a as int } else { -a as int }) <= r <= (if a >= 0 { a as int } else { -a as int }),
{
    if a >= 0 {
        let q = (a as u64) / b;
        proof {
            assert(q <= a as u64) by (nonlinear_arith)
                requires
                    b >= 1,
                    q == (a as u64) / b,
                    a >= 0,
            ;
        }
        q as i64
    } else {
        let m = (-a) as u64;
        let q = m / b;
        proof {
            assert(q <= m) by (nonlinear_arith)
                requires
                    b >= 1,
                    q == m / b,
            ;
        }
        -(q as i64)
    }
}

/// Squared magnitude of a vector with components far beyond position
/// range (an accumulated normal).
pub fn norm_sq_wide(v: Vec3) -> (r: u128)
    requires
        -0x1000_0000_0000_0000 <= v.x <= 0x1000_0000_0000_0000,
        -0x1000_0000_0000_0000 <= v.y <= 0x1000_0000_0000_0000,
        -0x1000_0000_0000_0000 <= v.z <= 0x1000_0000_0000_0000,
    ensures
        r as int == insq(ivec(v)),
        r < 0x4000_0000_0000_0000_0000_0000_0000_0000,
{
    proof {
        lemma_sq_bound(v.x as int, 0x1000_0000_0000_0000);
        lemma_sq_bound(v.y as int, 0x1000_0000_0000_0000);
        lemma_sq_bound(v.z as int, 0x1000_0000_0000_0000);
        assert((0x1000_0000_0000_0000 as int) * (0x1000_0000_0000_0000 as int)
            == 0x100_0000_0000_0000_0000_0000_0000_0000) by (nonlinear_arith);
    }
    let x = v.x as i128;
    let y = v.y as i128;
    let z = v.z as i128;
    (x * x + y * y + z * z) as u128
}

/// A vector rescaled to magnitude `UNIT`: each component is multiplied
/// by `UNIT` and divided (truncating) by the floor of the magnitude.
pub open spec fn scale_unit(v: IVec) -> IVec {
    let m = sqrt_floor(insq(v));
    IVec { x: sdiv(v.x * UNIT, m), y: sdiv(v.y * UNIT, m), z: sdiv(v.z * UNIT, m) }
}

/// Safe normalization: the zero vector stays zero instead of producing
/// an undefined direction.
pub open spec fn unit_or_zero(v: IVec) -> IVec {
    if v == izero() {
        izero()
    } else {
        scale_unit(v)
    }
}

/// One component of `scale_unit`: `(a * UNIT) / m`, truncating.
fn scale_comp(a: i64, m: u64) -> (r: i64)
    requires
        1 <= m,
        i64::MIN < a,
        -(m as int) <= a as int <= m as int,
    ensures
        r == sdiv(a * UNIT, m as int),
        -UNIT <= r <= UNIT,
{
    if a >= 0 {
        let q = ((a as u128) * 0x1_0000) / (m as u128);
        proof {
            assert((a as int) * 0x1_0000 <= (m as int) * 0x1_0000) by (nonlinear_arith)
                requires
                    a as int <= m as int,
            ;
            vstd::arithmetic::div_mod::lemma_div_is_ordered((a as int) * 0x1_0000, (m as int) * 0x1_0000, m as int);
            vstd::arithmetic::div_mod::lemma_div_multiples_vanish(0x1_0000, m as int);
        }
        q as i64
    } else {
        let q = (((-a) as u128) * 0x1_0000) / (m as u128);
        proof {
            assert((-a as int) * 0x1_0000 <= (m as int) * 0x1_0000) by (nonlinear_arith)
                requires
                    -a as int <= m as int,
            ;
            vstd::arithmetic::div_mod::lemma_div_is_ordered((-a as int) * 0x1_0000, (m as int) * 0x1_0000, m as int);
            vstd::arithmetic::div_mod::lemma_div_multiples_vanish(0x1_0000, m as int);
        }
        -(q as i64)
    }
}

impl Vec3 {
    /// Normalizes a vector to fixed-point magnitude `UNIT`; the zero
    /// vector stays zero rather than producing an undefined direction.
    pub fn normal_or_zero(self) -> (r: Vec3)
        requires
            -0x1000_0000_0000_0000 <= self.x <= 0x1000_0000_0000_0000,
            -0x1000_0000_0000_0000 <= self.y <= 0x1000_0000_0000_0000,
            -0x1000_0000_0000_0000 <= self.z <= 0x1000_0000_0000_0000,
        ensures
            ivec(r) == unit_or_zero(ivec(self)),
            -UNIT <= r.x <= UNIT,
            -UNIT <= r.y <= UNIT,
            -UNIT <= r.z <= UNIT,
    {
        if self.is_zero() {
            Vec3::zero()
        } else {
            let s = norm_sq_wide(self);
            let m = isqrt(s);
            proof {
                lemma_sqrt_floor(s as int);
                assert(s >= 1) by {
                    let v = ivec(self);
                    assert(v.x * v.x >= 0 && v.y * v.y >= 0 && v.z * v.z >= 0 && (v.x != 0 ==> v.x
                        * v.x >= 1) && (v.y != 0 ==> v.y * v.y >= 1) && (v.z != 0 ==> v.z * v.z
                        >= 1)) by (nonlinear_arith);
                }
                assert(m >= 1);
                let v = ivec(self);
                assert(v.x * v.x <= insq(v) && v.y * v.y <= insq(v) && v.z * v.z <= insq(v))
                    by (nonlinear_arith);
                lemma_comp_le_sqrt(v.x, insq(v), m as int);
                lemma_comp_le_sqrt(v.y, insq(v), m as int);
                lemma_comp_le_sqrt(v.z, insq(v), m as int);
            }
            Vec3 {
                x: scale_comp(self.x, m),
                y: scale_comp(self.y, m),
                z: scale_comp(self.z, m),
            }
        }
    }

    /// Normalization that reports failure on zero-length input.
    pub fn normal(self) -> (r: Option<Vec3>)
        requires
            -0x1000_0000_0000_0000 <= self.x <= 0x1000_0000_0000_0000,
            -0x1000_0000_0000_0000 <= self.y <= 0x1000_0000_0000_0000,
            -0x1000_0000_0000_0000 <= self.z <= 0x1000_0000_0000_0000,
        ensures
            self == Vec3::zero_spec() <==> r is None,
            r is Some ==> ivec(r->0) == scale_unit(ivec(self)) && -UNIT <= r->0.x <= UNIT && -UNIT
                <= r->0.y <= UNIT && -UNIT <= r->0.z <= UNIT,
    {
        if self.is_zero() {
            None
        } else {
            proof {
                assert(ivec(self) != izero());
            }
            Some(self.normal_or_zero())
        }
    }
}

pub open spec fn clamp_spec(x: int, lo: int, hi: int) -> int {
    if x < lo {
        lo
    } else if x > hi {
        hi
    } else {
        x
    }
}

/// The polynomial factor of the inverse-cosine approximation
/// `acos(t) = sqrt(1 - t) * (a0 + a1*t + a2*t^2 + a3*t^3)`, for
/// `t = x / UNIT` in `[0, 1]`, with the coefficients in `UNIT` scale.
pub open spec fn acos_poly(x: int) -> int {
    102940 - sdiv(13903 * x, 65536) + sdiv(4867 * (x * x), 0x1_0000_0000) - sdiv(
        1228 * (x * x * x),
        0x1_0000_0000_0000,
    )
}

/// Fixed-point inverse cosine: maps a `UNIT`-scaled cosine in
/// `[-UNIT, UNIT]` to a `UNIT`-scaled angle in `[0, PI_FP]`, by the
/// square-root-times-polynomial approximation, mirrored for negative
/// arguments.
pub open spec fn acos_fp_spec(x: int) -> int {
    let xc = clamp_spec(x, -(UNIT as int), UNIT as int);
    if xc >= 0 {
        clamp_spec(
            sdiv(sqrt_floor((UNIT - xc) * UNIT) * acos_poly(xc), UNIT as int),
            0,
            PI_FP as int,
        )
    } else {
        clamp_spec(
            PI_FP - sdiv(sqrt_floor((UNIT + xc) * UNIT) * acos_poly(-xc), UNIT as int),
            0,
            PI_FP as int,
        )
    }
}

/// The polynomial factor, on an argument already clamped to `[0, UNIT]`.
fn acos_poly_exec(x: i64) -> (r: i64)
    requires
        0 <= x <= UNIT,
    ensures
        r == acos_poly(x as int),
        0 < r < 0x2_0000,
{
    proof {
        lemma_mul_bound(x as int, x as int, 0x1_0000, 0x1_0000);
        lemma_mul_bound(x as int * x as int, x as int, 0x1_0000_0000, 0x1_0000);
        lemma_mul_bound(13903, x as int, 13903, 0x1_0000);
        lemma_mul_bound(4867, x as int * x as int, 4867, 0x1_0000_0000);
        lemma_mul_bound(1228, x as int * x as int * x as int, 1228, 0x1_0000_0000_0000);
        vstd::arithmetic::div_mod::lemma_div_is_ordered(0, 13903 * (x as int), 65536);
        vstd::arithmetic::div_mod::lemma_div_is_ordered(
            13903 * (x as int),
            13903 * (0x1_0000 as int),
            65536,
        );
        vstd::arithmetic::div_mod::lemma_div_is_ordered(0, 4867 * (x as int * x as int), 0x1_0000_0000);
        vstd::arithmetic::div_mod::lemma_div_is_ordered(
            4867 * (x as int * x as int),
            4867 * (0x1_0000_0000 as int),
            0x1_0000_0000,
        );
        vstd::arithmetic::div_mod::lemma_div_is_ordered(
            0,
            1228 * (x as int * x as int * x as int),
            0x1_0000_0000_0000,
        );
        vstd::arithmetic::div_mod::lemma_div_is_ordered(
            1228 * (x as int * x as int * x as int),
            1228 * (0x1_0000_0000_0000 as int),
            0x1_0000_0000_0000,
        );
    }
    let t1 = (13903 * x) / 65536;
    let t2 = (4867 * (x * x)) / 0x1_0000_0000;
    let t3 = (1228 * ((x * x) * x)) / 0x1_0000_0000_0000;
    102940 - t1 + t2 - t3
}

/// Fixed-point inverse cosine of a `UNIT`-scaled value.
pub fn acos_fp(x: i64) -> (r: i64)
    requires
        i64::MIN < x,
    ensures
        r == acos_fp_spec(x as int),
        0 <= r <= PI_FP,
{
    let xc = if x < -UNIT {
        -UNIT
    } else if x > UNIT {
        UNIT
    } else {
        x
    };
    if xc >= 0 {
        let s = isqrt(((UNIT - xc) * UNIT) as u128);
        let p = acos_poly_exec(xc);
        proof {
            lemma_sqrt_floor(((UNIT - xc) * UNIT) as int);
            assert((s as int) * (s as int) <= 0x1_0000_0000);
            assert(s as int <= 0x1_0000) by (nonlinear_arith)
                requires
                    (s as int) * (s as int) <= 0x1_0000_0000,
                    s as int >= 0,
            ;
            lemma_mul_bound(s as int, p as int, 0x1_0000, 0x2_0000);
            vstd::arithmetic::div_mod::lemma_div_pos_is_pos((s as int) * (p as int), 0x1_0000);
        }
        let q = (s as i64 * p) / 65536;
        if q > PI_FP {
            PI_FP
        } else {
            q
        }
    } else {
        let s = isqrt(((UNIT + xc) * UNIT) as u128);
        let p = acos_poly_exec(-xc);
        proof {
            lemma_sqrt_floor(((UNIT + xc) * UNIT) as int);
            assert((s as int) * (s as int) <= 0x1_0000_0000);
            assert(s as int <= 0x1_0000) by (nonlinear_arith)
                requires
                    (s as int) * (s as int) <= 0x1_0000_0000,
                    s as int >= 0,
            ;
            lemma_mul_bound(s as int, p as int, 0x1_0000, 0x2_0000);
            vstd::arithmetic::div_mod::lemma_div_pos_is_pos((s as int) * (p as int), 0x1_0000);
        }
        let q = PI_FP - (s as i64 * p) / 65536;
        if q < 0 {
            0
        } else if q > PI_FP {
            PI_FP
        } else {
            q
        }
    }
}

/// The angle-weight at a triangle corner with edge vectors `e0`, `e1`:
/// the fixed-point inverse cosine of their normalized dot product.
pub open spec fn corner_weight_spec(e0: IVec, e1: IVec) -> int {
    let m0 = sqrt_floor(insq(e0));
    let m1 = sqrt_floor(insq(e1));
    let c = clamp_spec(sdiv(idot(e0, e1) * UNIT, m0 * m1), -(UNIT as int), UNIT as int);
    acos_fp_spec(c)
}

/// The interior angle at a triangle corner whose adjacent edge vectors
/// are `e0` and `e1`, in `UNIT`-scaled radians.
pub fn corner_weight(e0: Vec3, e1: Vec3) -> (w: i64)
    requires
        -0x20_0000 <= e0.x <= 0x20_0000,
        -0x20_0000 <= e0.y <= 0x20_0000,
        -0x20_0000 <= e0.z <= 0x20_0000,
        -0x20_0000 <= e1.x <= 0x20_0000,
        -0x20_0000 <= e1.y <= 0x20_0000,
        -0x20_0000 <= e1.z <= 0x20_0000,
        ivec(e0) != izero(),
        ivec(e1) != izero(),
    ensures
        w == corner_weight_spec(ivec(e0), ivec(e1)),
        0 <= w <= PI_FP,
{
    let d = e0.dot(e1);
    let s0 = norm_sq_wide(e0);
    let s1 = norm_sq_wide(e1);
    let m0 = isqrt(s0);
    let m1 = isqrt(s1);
    proof {
        let v0 = ivec(e0);
        let v1 = ivec(e1);
        assert(insq(v0) >= 1 && insq(v1) >= 1) by {
            assert(v0.x * v0.x >= 0 && v0.y * v0.y >= 0 && v0.z * v0.z >= 0 && (v0.x != 0 ==> v0.x
                * v0.x >= 1) && (v0.y != 0 ==> v0.y * v0.y >= 1) && (v0.z != 0 ==> v0.z * v0.z
                >= 1)) by (nonlinear_arith);
            assert(v1.x * v1.x >= 0 && v1.y * v1.y >= 0 && v1.z * v1.z >= 0 && (v1.x != 0 ==> v1.x
                * v1.x >= 1) && (v1.y != 0 ==> v1.y * v1.y >= 1) && (v1.z != 0 ==> v1.z * v1.z
                >= 1)) by (nonlinear_arith);
        }
        lemma_sqrt_floor(s0 as int);
        lemma_sqrt_floor(s1 as int);
        assert(m0 as int >= 1 && m1 as int >= 1) by (nonlinear_arith)
            requires
                s0 as int >= 1,
                s1 as int >= 1,
                m0 as int >= 0,
                m1 as int >= 0,
                (s0 as int) < ((m0 as int) + 1) * ((m0 as int) + 1),
                (s1 as int) < ((m1 as int) + 1) * ((m1 as int) + 1),
        ;
        lemma_sq_bound(e0.x as int, 0x20_0000);
        lemma_sq_bound(e0.y as int, 0x20_0000);
        lemma_sq_bound(e0.z as int, 0x20_0000);
        lemma_sq_bound(e1.x as int, 0x20_0000);
        lemma_sq_bound(e1.y as int, 0x20_0000);
        lemma_sq_bound(e1.z as int, 0x20_0000);
        assert(m0 as int <= 0x40_0000 && m1 as int <= 0x40_0000) by (nonlinear_arith)
            requires
                (m0 as int) * (m0 as int) <= s0 as int,
                (m1 as int) * (m1 as int) <= s1 as int,
                s0 as int <= 0xC00_0000_0000,
                s1 as int <= 0xC00_0000_0000,
                m0 as int >= 0,
                m1 as int >= 0,
        ;
        lemma_mul_bound(m0 as int, m1 as int, 0x40_0000, 0x40_0000);
        assert((m0 as int) * (m1 as int) >= 1) by (nonlinear_arith)
            requires
                m0 as int >= 1,
                m1 as int >= 1,
        ;
        lemma_mul_bound(d as int, UNIT as int, 0xC00_0000_0000, 0x1_0000);
    }
    let mm = m0 * m1;
    let c = sdiv64(d * 65536, mm);
    let cc = if c < -UNIT {
        -UNIT
    } else if c > UNIT {
        UNIT
    } else {
        c
    };
    acos_fp(cc)
}

/// Squared distance between two bounded points.
pub fn dist_sq(a: &Vec3, b: &Vec3) -> (r: i64)
    requires
        in_range(*a),
        in_range(*b),
    ensures
        r == dist_sq_spec(*a, *b),
        0 <= r <= DIST_SQ_MAX,
{
    proof {
        lemma_sq_bound(a.x - b.x, 0x20_0000);
        lemma_sq_bound(a.y - b.y, 0x20_0000);
        lemma_sq_bound(a.z - b.z, 0x20_0000);
    }
    let dx = a.x - b.x;
    let dy = a.y - b.y;
    let dz = a.z - b.z;
    dx * dx + dy * dy + dz * dz
}

} // verus!
