use vstd::prelude::*;

verus! {

/// A three-component integer vector.
#[derive(Clone, Copy, Debug, PartialEq, Eq, Structural)]
pub struct VInt3 {
    pub x: i32,
    pub y: i32,
    pub z: i32,
}

/// Whether a mathematical value fits the component type.
pub open spec fn in32(v: int) -> bool {
    -0x8000_0000 <= v < 0x8000_0000
}

/// Division truncating toward zero, as the component arithmetic performs
/// it; defined for positive divisors.
pub open spec fn tdiv(a: int, b: int) -> int {
    if a >= 0 { a / b } else { -((-a) / b) }
}

pub open spec fn spec_dot(a: VInt3, b: VInt3) -> int {
    a.x * b.x + a.y * b.y + a.z * b.z
}

/// The dot product evaluates without overflowing: each product and each
/// partial sum fits.
pub open spec fn dot_ok(a: VInt3, b: VInt3) -> bool {
    &&& in32(a.x * b.x)
    &&& in32(a.y * b.y)
    &&& in32(a.z * b.z)
    &&& in32(a.x * b.x + a.y * b.y)
    &&& in32(a.x * b.x + a.y * b.y + a.z * b.z)
}

pub open spec fn spec_sqr(v: VInt3) -> int {
    spec_dot(v, v)
}

/// The integer square root: the greatest `r` with `r * r <= n`.
pub open spec fn sqrt_floor(n: int) -> int {
    choose|r: int| 0 <= r && #[trigger] (r * r) <= n && n < (r + 1) * (r + 1)
}

pub proof fn lemma_sqrt_floor(n: int, r: int)
    requires
        0 <= r,
        r * r <= n,
        n < (r + 1) * (r + 1),
    ensures
        sqrt_floor(n) == r,
{
    assert(exists|q: int| 0 <= q && #[trigger] (q * q) <= n && n < (q + 1) * (q + 1)) by {
        assert(0 <= r && r * r <= n && n < (r + 1) * (r + 1));
    }
    let q = choose|q: int| 0 <= q && #[trigger] (q * q) <= n && n < (q + 1) * (q + 1);
    if q < r {
        assert((q + 1) * (q + 1) <= r * r) by (nonlinear_arith)
            requires 0 <= q, q < r,
        ;
    } else if r < q {
        assert((r + 1) * (r + 1) <= q * q) by (nonlinear_arith)
            requires 0 <= r, r < q,
        ;
    }
}

/// The length this vector arithmetic works with: the integer square root of
/// the squared magnitude.
pub open spec fn spec_mag(v: VInt3) -> int {
    sqrt_floor(spec_sqr(v))
}

/// Integer square root of a nonnegative value.
pub fn isqrt(n: i32) -> (r: i32)
    requires
        n >= 0,
    ensures
        0 <= r,
        r * r <= n < (r + 1) * (r + 1),
        r == sqrt_floor(n as int),
{
    let mut r: i32 = 0;
    loop
        invariant
            0 <= r <= n < 0x8000_0000,
            r * r <= n,
        ensures
            0 <= r,
            r * r <= n,
            n < (r + 1) * (r + 1),
        decreases n - r,
    {
        proof {
            assert(0 <= r && r < 0x8000_0000
                ==> ((r as i64) + 1) * ((r as i64) + 1) < 0x7fff_ffff_ffff_ffff)
                by (nonlinear_arith);
        }
        let next = ((r as i64) + 1) * ((r as i64) + 1);
        if next > n as i64 {
            break;
        }
        proof {
            assert(((r as i64) + 1) * ((r as i64) + 1) <= n && n < 0x8000_0000
                ==> r + 1 <= n && (r + 1) * (r + 1) <= n) by (nonlinear_arith)
                requires r >= 0,
            ;
        }
        r = r + 1;
    }
    proof {
        lemma_sqrt_floor(n as int, r as int);
    }
    r
}

impl VInt3 {
    pub fn new(x: i32, y: i32, z: i32) -> (r: Self)
        ensures
            r == (VInt3 { x, y, z }),
    {
        VInt3 { x, y, z }
    }

    pub fn zero() -> (r: Self)
        ensures
            r == (VInt3 { x: 0i32, y: 0i32, z: 0i32 }),
    {
        VInt3 { x: 0, y: 0, z: 0 }
    }

    pub fn one() -> (r: Self)
        ensures
            r == (VInt3 { x: 1i32, y: 1i32, z: 1i32 }),
    {
        VInt3 { x: 1, y: 1, z: 1 }
    }

    pub fn right() -> (r: Self)
        ensures
            r == (VInt3 { x: 1i32, y: 0i32, z: 0i32 }),
    {
        VInt3 { x: 1, y: 0, z: 0 }
    }

    pub fn left() -> (r: Self)
        ensures
            r == (VInt3 { x: -1i32, y: 0i32, z: 0i32 }),
    {
        VInt3 { x: -1, y: 0, z: 0 }
    }

    pub fn up() -> (r: Self)
        ensures
            r == (VInt3 { x: 0i32, y: 1i32, z: 0i32 }),
    {
        VInt3 { x: 0, y: 1, z: 0 }
    }

    pub fn down() -> (r: Self)
        ensures
            r == (VInt3 { x: 0i32, y: -1i32, z: 0i32 }),
    {
        VInt3 { x: 0, y: -1, z: 0 }
    }

    pub fn forward() -> (r: Self)
        ensures
            r == (VInt3 { x: 0i32, y: 0i32, z: 1i32 }),
    {
        VInt3 { x: 0, y: 0, z: 1 }
    }

    pub fn backward() -> (r: Self)
        ensures
            r == (VInt3 { x: 0i32, y: 0i32, z: -1i32 }),
    {
        VInt3 { x: 0, y: 0, z: -1 }
    }

    /// The componentwise sum.
    pub fn add(a: Self, b: Self) -> (r: Self)
        requires
            in32(a.x + b.x) && in32(a.y + b.y) && in32(a.z + b.z),
        ensures
            r.x == a.x + b.x,
            r.y == a.y + b.y,
            r.z == a.z + b.z,
    {
        VInt3 { x: a.x + b.x, y: a.y + b.y, z: a.z + b.z }
    }

    pub fn dot(lhs: Self, rhs: Self) -> (r: i32)
        requires
            dot_ok(lhs, rhs),
        ensures
            r == spec_dot(lhs, rhs),
    {
        lhs.x * rhs.x + lhs.y * rhs.y + lhs.z * rhs.z
    }

    pub fn sqr_magnitude(v: Self) -> (r: i32)
        requires
            dot_ok(v, v),
        ensures
            r == spec_sqr(v),
    {
        v.x * v.x + v.y * v.y + v.z * v.z
    }

    /// The squared magnitude is a sum of squares, so it is nonnegative.
    proof fn lemma_sqr_nonneg(v: Self)
        ensures
            spec_sqr(v) >= 0,
    {
        assert(v.x * v.x >= 0) by (nonlinear_arith);
        assert(v.y * v.y >= 0) by (nonlinear_arith);
        assert(v.z * v.z >= 0) by (nonlinear_arith);
    }

    pub fn magnitude(v: Self) -> (r: i32)
        requires
            dot_ok(v, v),
        ensures
            r == spec_mag(v),
            0 <= r,
            r * r <= spec_sqr(v) < (r + 1) * (r + 1),
    {
        proof { Self::lemma_sqr_nonneg(v); }
        isqrt(Self::sqr_magnitude(v))
    }

    pub fn cross(lhs: Self, rhs: Self) -> (r: Self)
        requires
            in32(lhs.y * rhs.z) && in32(lhs.z * rhs.y) && in32(lhs.y * rhs.z - lhs.z * rhs.y),
            in32(lhs.z * rhs.x) && in32(lhs.x * rhs.z) && in32(lhs.z * rhs.x - lhs.x * rhs.z),
            in32(lhs.x * rhs.y) && in32(lhs.y * rhs.x) && in32(lhs.x * rhs.y - lhs.y * rhs.x),
        ensures
            r.x == lhs.y * rhs.z - lhs.z * rhs.y,
            r.y == lhs.z * rhs.x - lhs.x * rhs.z,
            r.z == lhs.x * rhs.y - lhs.y * rhs.x,
    {
        VInt3 {
            x: lhs.y * rhs.z - lhs.z * rhs.y,
            y: lhs.z * rhs.x - lhs.x * rhs.z,
            z: lhs.x * rhs.y - lhs.y * rhs.x,
        }
    }

    pub fn scale(a: Self, b: Self) -> (r: Self)
        requires
            in32(a.x * b.x) && in32(a.y * b.y) && in32(a.z * b.z),
        ensures
            r.x == a.x * b.x,
            r.y == a.y * b.y,
            r.z == a.z * b.z,
    {
        VInt3 { x: a.x * b.x, y: a.y * b.y, z: a.z * b.z }
    }

    pub fn max(a: Self, b: Self) -> (r: Self)
        ensures
            r.x == if a.x > b.x { a.x } else { b.x },
            r.y == if a.y > b.y { a.y } else { b.y },
            r.z == if a.z > b.z { a.z } else { b.z },
    {
        VInt3 {
            x: if a.x > b.x { a.x } else { b.x },
            y: if a.y > b.y { a.y } else { b.y },
            z: if a.z > b.z { a.z } else { b.z },
        }
    }

    pub fn min(a: Self, b: Self) -> (r: Self)
        ensures
            r.x == if a.x < b.x { a.x } else { b.x },
            r.y == if a.y < b.y { a.y } else { b.y },
            r.z == if a.z < b.z { a.z } else { b.z },
    {
        VInt3 {
            x: if a.x < b.x { a.x } else { b.x },
            y: if a.y < b.y { a.y } else { b.y },
            z: if a.z < b.z { a.z } else { b.z },
        }
    }

    /// The componentwise difference `a - b`, used by the distance and
    /// rejection operations.
    pub open spec fn spec_sub(a: Self, b: Self) -> Self {
        VInt3 {
            x: (a.x - b.x) as i32,
            y: (a.y - b.y) as i32,
            z: (a.z - b.z) as i32,
        }
    }

    pub open spec fn sub_ok(a: Self, b: Self) -> bool {
        in32(a.x - b.x) && in32(a.y - b.y) && in32(a.z - b.z)
    }

    pub fn distance(a: Self, b: Self) -> (r: i32)
        requires
            Self::sub_ok(a, b),
            dot_ok(Self::spec_sub(a, b), Self::spec_sub(a, b)),
        ensures
            r == spec_mag(Self::spec_sub(a, b)),
    {
        let d = VInt3 { x: a.x - b.x, y: a.y - b.y, z: a.z - b.z };
        Self::magnitude(d)
    }

    /// Componentwise truncating division by a positive length.
    pub open spec fn spec_div(v: Self, k: int) -> Self {
        VInt3 {
            x: tdiv(v.x as int, k) as i32,
            y: tdiv(v.y as int, k) as i32,
            z: tdiv(v.z as int, k) as i32,
        }
    }

    /// The normalized vector: zero when the magnitude is zero, otherwise
    /// each component divided by the magnitude.
    pub open spec fn spec_normalized(v: Self) -> Self {
        if spec_mag(v) == 0 {
            VInt3 { x: 0i32, y: 0i32, z: 0i32 }
        } else {
            Self::spec_div(v, spec_mag(v))
        }
    }

    /// Truncating division by a positive divisor keeps the magnitude of the
    /// numerator, so the quotient of an `i32` by a positive `i32` fits.
    proof fn lemma_tdiv_small(a: int, b: int)
        requires
            in32(a),
            b >= 1,
        ensures
            in32(tdiv(a, b)),
            a >= 0 ==> 0 <= tdiv(a, b) <= a,
            a < 0 ==> a <= tdiv(a, b) <= 0,
    {
        if a >= 0 {
            assert(0 <= a / b <= a) by (nonlinear_arith)
                requires a >= 0, b >= 1,
            ;
        } else {
            assert(0 <= (-a) / b <= -a) by (nonlinear_arith)
                requires -a >= 0, b >= 1,
            ;
        }
    }

    pub fn normalized(v: Self) -> (r: Self)
        requires
            dot_ok(v, v),
        ensures
            r == Self::spec_normalized(v),
    {
        let mag = Self::magnitude(v);
        if mag == 0 {
            Self::zero()
        } else {
            proof {
                Self::lemma_tdiv_small(v.x as int, mag as int);
                Self::lemma_tdiv_small(v.y as int, mag as int);
                Self::lemma_tdiv_small(v.z as int, mag as int);
            }
            VInt3 { x: v.x / mag, y: v.y / mag, z: v.z / mag }
        }
    }

    pub fn orthogonal(v: Self) -> (r: Self)
        requires
            v.z < v.x ==> v.x != i32::MIN,
            v.z >= v.x ==> v.z != i32::MIN,
        ensures
            v.z < v.x ==> r == (VInt3 { x: v.y, y: (-v.x) as i32, z: 0i32 }),
            v.z >= v.x ==> r == (VInt3 { x: 0i32, y: (-v.z) as i32, z: v.y }),
    {
        if v.z < v.x {
            Self::new(v.y, -v.x, 0)
        } else {
            Self::new(0, -v.z, v.y)
        }
    }

    /// The projection scale: the dot product over the squared magnitude of
    /// the vector projected onto.
    pub open spec fn spec_proj_q(a: Self, b: Self) -> int {
        tdiv(spec_dot(a, b), spec_mag(b) * spec_mag(b))
    }

    /// The projection of `a` onto `b`, as this integer arithmetic computes
    /// it: `b` scaled by the projection scale.
    pub open spec fn spec_project(a: Self, b: Self) -> Self {
        VInt3 {
            x: (b.x * Self::spec_proj_q(a, b)) as i32,
            y: (b.y * Self::spec_proj_q(a, b)) as i32,
            z: (b.z * Self::spec_proj_q(a, b)) as i32,
        }
    }

    /// Everything the projection needs to evaluate without panicking or
    /// overflowing.
    pub open spec fn project_ok(a: Self, b: Self) -> bool {
        &&& dot_ok(a, b)
        &&& dot_ok(b, b)
        &&& spec_mag(b) != 0
        &&& in32(spec_mag(b) * spec_mag(b))
        &&& in32(b.x * Self::spec_proj_q(a, b))
        &&& in32(b.y * Self::spec_proj_q(a, b))
        &&& in32(b.z * Self::spec_proj_q(a, b))
    }

    pub fn project(a: Self, b: Self) -> (r: Self)
        requires
            Self::project_ok(a, b),
        ensures
            r == Self::spec_project(a, b),
    {
        let m = Self::magnitude(b);
        let d = Self::dot(a, b);
        proof {
            assert(m >= 1 ==> m * m >= 1) by (nonlinear_arith);
        }
        let mm = m * m;
        proof {
            Self::lemma_tdiv_small(d as int, mm as int);
        }
        let q = d / mm;
        VInt3 { x: b.x * q, y: b.y * q, z: b.z * q }
    }

    /// The rejection of `a` from `b`: what remains of `a` after removing
    /// its projection onto `b`.
    pub open spec fn spec_reject(a: Self, b: Self) -> Self {
        VInt3 {
            x: (a.x - Self::spec_project(a, b).x) as i32,
            y: (a.y - Self::spec_project(a, b).y) as i32,
            z: (a.z - Self::spec_project(a, b).z) as i32,
        }
    }

    pub open spec fn reject_ok(a: Self, b: Self) -> bool {
        &&& Self::project_ok(a, b)
        &&& in32(a.x - Self::spec_project(a, b).x)
        &&& in32(a.y - Self::spec_project(a, b).y)
        &&& in32(a.z - Self::spec_project(a, b).z)
    }

    pub fn reject(a: Self, b: Self) -> (r: Self)
        requires
            Self::reject_ok(a, b),
        ensures
            r == Self::spec_reject(a, b),
    {
        let p = Self::project(a, b);
        VInt3 { x: a.x - p.x, y: a.y - p.y, z: a.z - p.z }
    }

    pub fn project_on_plane(vector: Self, plane_normal: Self) -> (r: Self)
        requires
            Self::reject_ok(vector, plane_normal),
        ensures
            r == Self::spec_reject(vector, plane_normal),
    {
        Self::reject(vector, plane_normal)
    }

    pub fn reflect(vector: Self, plane_normal: Self) -> (r: Self)
        requires
            Self::project_ok(vector, plane_normal),
            in32(Self::spec_project(vector, plane_normal).x * 2),
            in32(Self::spec_project(vector, plane_normal).y * 2),
            in32(Self::spec_project(vector, plane_normal).z * 2),
            in32(vector.x - Self::spec_project(vector, plane_normal).x * 2),
            in32(vector.y - Self::spec_project(vector, plane_normal).y * 2),
            in32(vector.z - Self::spec_project(vector, plane_normal).z * 2),
        ensures
            r.x == vector.x - Self::spec_project(vector, plane_normal).x * 2,
            r.y == vector.y - Self::spec_project(vector, plane_normal).y * 2,
            r.z == vector.z - Self::spec_project(vector, plane_normal).z * 2,
    {
        let p = Self::project(vector, plane_normal);
        VInt3 { x: vector.x - p.x * 2, y: vector.y - p.y * 2, z: vector.z - p.z * 2 }
    }

    pub fn lerp_unclamped(a: Self, b: Self, t: i32) -> (r: Self)
        requires
            Self::sub_ok(b, a),
            in32((b.x - a.x) * t) && in32((b.x - a.x) * t + a.x),
            in32((b.y - a.y) * t) && in32((b.y - a.y) * t + a.y),
            in32((b.z - a.z) * t) && in32((b.z - a.z) * t + a.z),
        ensures
            r.x == (b.x - a.x) * t + a.x,
            r.y == (b.y - a.y) * t + a.y,
            r.z == (b.z - a.z) * t + a.z,
    {
        VInt3 {
            x: (b.x - a.x) * t + a.x,
            y: (b.y - a.y) * t + a.y,
            z: (b.z - a.z) * t + a.z,
        }
    }

    pub fn lerp(a: Self, b: Self, t: i32) -> (r: Self)
        requires
            0 <= t <= 1 ==> Self::sub_ok(b, a),
        ensures
            t < 0 ==> r == a,
            t > 1 ==> r == b,
            0 <= t <= 1 ==> {
                &&& r.x == (b.x - a.x) * t + a.x
                &&& r.y == (b.y - a.y) * t + a.y
                &&& r.z == (b.z - a.z) * t + a.z
            },
    {
        if t < 0 {
            a
        } else if t > 1 {
            b
        } else {
            proof {
                assert((b.x - a.x) * t == if t == 1 { b.x - a.x } else { 0int })
                    by (nonlinear_arith)
                    requires 0 <= t <= 1,
                ;
                assert((b.y - a.y) * t == if t == 1 { b.y - a.y } else { 0int })
                    by (nonlinear_arith)
                    requires 0 <= t <= 1,
                ;
                assert((b.z - a.z) * t == if t == 1 { b.z - a.z } else { 0int })
                    by (nonlinear_arith)
                    requires 0 <= t <= 1,
                ;
            }
            Self::lerp_unclamped(a, b, t)
        }
    }

    pub fn slerp(a: Self, b: Self, t: i32) -> (r: Self)
        requires
            0 <= t <= 1 ==> Self::sub_ok(b, a),
        ensures
            t < 0 ==> r == a,
            t > 1 ==> r == b,
            0 <= t <= 1 ==> {
                &&& r.x == (b.x - a.x) * t + a.x
                &&& r.y == (b.y - a.y) * t + a.y
                &&& r.z == (b.z - a.z) * t + a.z
            },
    {
        if t < 0 {
            a
        } else if t > 1 {
            b
        } else {
            Self::slerp_unclamped(a, b, t)
        }
    }

    /// With an integer interpolation parameter only the endpoints and the
    /// straight path between them are representable, so the spherical
    /// interpolation degenerates to the linear one.
    pub fn slerp_unclamped(a: Self, b: Self, t: i32) -> (r: Self)
        requires
            0 <= t <= 1,
            Self::sub_ok(b, a),
        ensures
            r.x == (b.x - a.x) * t + a.x,
            r.y == (b.y - a.y) * t + a.y,
            r.z == (b.z - a.z) * t + a.z,
    {
        proof {
            assert((b.x - a.x) * t == if t == 1 { b.x - a.x } else { 0int })
                by (nonlinear_arith)
                requires 0 <= t <= 1,
            ;
            assert((b.y - a.y) * t == if t == 1 { b.y - a.y } else { 0int })
                by (nonlinear_arith)
                requires 0 <= t <= 1,
            ;
            assert((b.z - a.z) * t == if t == 1 { b.z - a.z } else { 0int })
                by (nonlinear_arith)
                requires 0 <= t <= 1,
            ;
        }
        Self::lerp_unclamped(a, b, t)
    }

    pub fn clamp_magnitude(vector: Self, max_length: i32) -> (r: Self)
        requires
            dot_ok(vector, vector),
            spec_mag(vector) > max_length ==> spec_mag(vector) != 0,
            spec_mag(vector) > max_length ==> {
                let q = tdiv(max_length as int, spec_mag(vector));
                &&& in32(vector.x * q)
                &&& in32(vector.y * q)
                &&& in32(vector.z * q)
            },
        ensures
            spec_mag(vector) <= max_length ==> r == vector,
            spec_mag(vector) > max_length ==> {
                let q = tdiv(max_length as int, spec_mag(vector));
                &&& r.x == vector.x * q
                &&& r.y == vector.y * q
                &&& r.z == vector.z * q
            },
    {
        let length = Self::magnitude(vector);
        if length > max_length {
            proof {
                Self::lemma_tdiv_small(max_length as int, length as int);
            }
            let q = max_length / length;
            VInt3 { x: vector.x * q, y: vector.y * q, z: vector.z * q }
        } else {
            vector
        }
    }

    pub fn component(a: Self, b: Self) -> (r: i32)
        requires
            dot_ok(a, b),
            dot_ok(b, b),
            spec_mag(b) != 0,
        ensures
            r == tdiv(spec_dot(a, b), spec_mag(b)),
    {
        let d = Self::dot(a, b);
        let m = Self::magnitude(b);
        proof {
            Self::lemma_tdiv_small(d as int, m as int);
        }
        d / m
    }

    pub fn move_towards(current: Self, target: Self, max_distance_delta: i32) -> (r: Self)
        requires
            Self::sub_ok(target, current),
            dot_ok(Self::spec_sub(target, current), Self::spec_sub(target, current)),
            ({
                let m = spec_mag(Self::spec_sub(target, current));
                m >= max_distance_delta && m != 0 ==> {
                    let q = tdiv(max_distance_delta as int, m);
                    let d = Self::spec_sub(target, current);
                    &&& in32(d.x * q) && in32(current.x + d.x * q)
                    &&& in32(d.y * q) && in32(current.y + d.y * q)
                    &&& in32(d.z * q) && in32(current.z + d.z * q)
                }
            }),
        ensures
            ({
                let d = Self::spec_sub(target, current);
                let m = spec_mag(d);
                &&& (m < max_distance_delta || m == 0) ==> r == target
                &&& (m >= max_distance_delta && m != 0) ==> {
                    let q = tdiv(max_distance_delta as int, m);
                    &&& r.x == current.x + d.x * q
                    &&& r.y == current.y + d.y * q
                    &&& r.z == current.z + d.z * q
                }
            }),
    {
        let d = VInt3 {
            x: target.x - current.x,
            y: target.y - current.y,
            z: target.z - current.z,
        };
        let m = Self::magnitude(d);
        if m < max_distance_delta || m == 0 {
            target
        } else {
            proof {
                Self::lemma_tdiv_small(max_distance_delta as int, m as int);
            }
            let q = max_distance_delta / m;
            VInt3 { x: current.x + d.x * q, y: current.y + d.y * q, z: current.z + d.z * q }
        }
    }

    /// Makes `normal` unit-length and rebuilds `tangent` and `binormal` to
    /// be orthogonal to it and to each other, by repeated rejection and
    /// normalization, exactly in this order.
    pub fn ortho_normalize(normal: &mut Self, tangent: &mut Self, binormal: &mut Self)
        requires
            dot_ok(*old(normal), *old(normal)),
            ({
                let n = Self::spec_normalized(*old(normal));
                &&& Self::reject_ok(*old(tangent), n)
                &&& dot_ok(Self::spec_reject(*old(tangent), n), Self::spec_reject(*old(tangent), n))
                &&& ({
                    let t = Self::spec_normalized(Self::spec_reject(*old(tangent), n));
                    &&& Self::reject_ok(*old(binormal), t)
                    &&& Self::reject_ok(Self::spec_reject(*old(binormal), t), n)
                    &&& dot_ok(
                        Self::spec_reject(Self::spec_reject(*old(binormal), t), n),
                        Self::spec_reject(Self::spec_reject(*old(binormal), t), n),
                    )
                })
            }),
        ensures
            *final(normal) == Self::spec_normalized(*old(normal)),
            *final(tangent) == Self::spec_normalized(
                Self::spec_reject(*old(tangent), Self::spec_normalized(*old(normal)))),
            *final(binormal) == Self::spec_normalized(Self::spec_reject(
                Self::spec_reject(
                    *old(binormal),
                    Self::spec_normalized(
                        Self::spec_reject(*old(tangent), Self::spec_normalized(*old(normal)))),
                ),
                Self::spec_normalized(*old(normal)),
            )),
    {
        *normal = Self::normalized(*normal);
        *tangent = Self::project_on_plane(*tangent, *normal);
        *tangent = Self::normalized(*tangent);
        *binormal = Self::project_on_plane(*binormal, *tangent);
        *binormal = Self::project_on_plane(*binormal, *normal);
        *binormal = Self::normalized(*binormal);
    }
}

} // verus!
