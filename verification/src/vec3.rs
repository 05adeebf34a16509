use vstd::prelude::*;

verus! {

/// Grid vector: all geometry lives on an integer lattice, so dot products,
/// cross products and reflections are exact.  Callers choose the physical
/// size of one lattice step.
#[derive(Clone, Copy, Debug, PartialEq, Eq, Structural)]
pub struct Vec3i {
    pub x: i64,
    pub y: i64,
    pub z: i64,
}

/// Componentwise magnitude bound.
pub open spec fn v_in(v: Vec3i, b: int) -> bool {
    -b <= v.x <= b && -b <= v.y <= b && -b <= v.z <= b
}

pub open spec fn spec_dot(a: Vec3i, b: Vec3i) -> int {
    a.x * b.x + a.y * b.y + a.z * b.z
}


/// Component along one of the three axes (0, 1, 2).
pub open spec fn spec_axis(v: Vec3i, a: int) -> int {
    if a == 0 {
        v.x as int
    } else if a == 1 {
        v.y as int
    } else {
        v.z as int
    }
}

impl Vec3i {
    pub fn new(x: i64, y: i64, z: i64) -> (r: Vec3i)
        ensures
            r == (Vec3i { x, y, z }),
    {
        Vec3i { x, y, z }
    }

    pub fn axis(&self, a: usize) -> (r: i64)
        requires
            a < 3,
        ensures
            r as int == spec_axis(*self, a as int),
    {
        if a == 0 {
            self.x
        } else if a == 1 {
            self.y
        } else {
            self.z
        }
    }

    pub fn add(&self, o: &Vec3i) -> (r: Vec3i)
        requires
            v_in(*self, 0x4000_0000_0000_0000),
            v_in(*o, 0x4000_0000_0000_0000 - 1),
        ensures
            r.x == self.x + o.x,
            r.y == self.y + o.y,
            r.z == self.z + o.z,
    {
        Vec3i { x: self.x + o.x, y: self.y + o.y, z: self.z + o.z }
    }

    pub fn sub(&self, o: &Vec3i) -> (r: Vec3i)
        requires
            v_in(*self, 0x4000_0000_0000_0000),
            v_in(*o, 0x4000_0000_0000_0000 - 1),
        ensures
            r.x == self.x - o.x,
            r.y == self.y - o.y,
            r.z == self.z - o.z,
    {
        Vec3i { x: self.x - o.x, y: self.y - o.y, z: self.z - o.z }
    }

    pub fn neg(&self) -> (r: Vec3i)
        requires
            v_in(*self, 0x4000_0000_0000_0000),
        ensures
            r.x == -self.x,
            r.y == -self.y,
            r.z == -self.z,
    {
        Vec3i { x: -self.x, y: -self.y, z: -self.z }
    }

    pub fn scale(&self, k: i64) -> (r: Vec3i)
        requires
            v_in(*self, 0x4000_0000),
            -0x4000_0000 <= k <= 0x4000_0000,
        ensures
            r.x == self.x * k,
            r.y == self.y * k,
            r.z == self.z * k,
    {
        proof {
            lemma_scale_fits(*self, k as int);
        }
        Vec3i { x: self.x * k, y: self.y * k, z: self.z * k }
    }

    /// Exact dot product, widened to `i128`.
    pub fn dot(&self, o: &Vec3i) -> (r: i128)
        requires
            v_in(*self, 0x4000_0000_0000_0000),
            v_in(*o, 0x4000_0000_0000_0000),
        ensures
            r as int == spec_dot(*self, *o),
    {
        proof {
            lemma_dot_fits(*self, *o);
        }
        (self.x as i128) * (o.x as i128) + (self.y as i128) * (o.y as i128) + (self.z as i128)
            * (o.z as i128)
    }

    /// Squared Euclidean length; the exact substitute for `length` is
    /// comparing squares.
    pub fn length_squared(&self) -> (r: i128)
        requires
            v_in(*self, 0x4000_0000_0000_0000),
        ensures
            r as int == spec_dot(*self, *self),
            r >= 0,
    {
        proof {
            lemma_dot_fits(*self, *self);
            lemma_self_dot_nonneg(*self);
        }
        self.dot(self)
    }

    pub fn cross(&self, o: &Vec3i) -> (r: Vec3i)
        requires
            v_in(*self, 0x4000_0000),
            v_in(*o, 0x4000_0000),
        ensures
            r.x == self.y * o.z - self.z * o.y,
            r.y == self.z * o.x - self.x * o.z,
            r.z == self.x * o.y - self.y * o.x,
    {
        proof {
            lemma_cross_fits(*self, *o);
            lemma_prod_bound(self.x as int, o.y as int, 0x4000_0000);
            lemma_prod_bound(self.x as int, o.z as int, 0x4000_0000);
            lemma_prod_bound(self.y as int, o.x as int, 0x4000_0000);
            lemma_prod_bound(self.y as int, o.z as int, 0x4000_0000);
            lemma_prod_bound(self.z as int, o.x as int, 0x4000_0000);
            lemma_prod_bound(self.z as int, o.y as int, 0x4000_0000);
        }
        Vec3i {
            x: self.y * o.z - self.z * o.y,
            y: self.z * o.x - self.x * o.z,
            z: self.x * o.y - self.y * o.x,
        }
    }

    /// On the lattice a scatter direction is degenerate exactly when it is
    /// the zero vector.
    pub fn near_zero(&self) -> (r: bool)
        ensures
            r == (self.x == 0 && self.y == 0 && self.z == 0),
    {
        self.x == 0 && self.y == 0 && self.z == 0
    }
}

proof fn lemma_scale_fits(v: Vec3i, k: int)
    by (nonlinear_arith)
    requires
        v_in(v, 0x4000_0000),
        -0x4000_0000 <= k <= 0x4000_0000,
    ensures
        -0x1000_0000_0000_0000 <= v.x * k <= 0x1000_0000_0000_0000,
        -0x1000_0000_0000_0000 <= v.y * k <= 0x1000_0000_0000_0000,
        -0x1000_0000_0000_0000 <= v.z * k <= 0x1000_0000_0000_0000,
{
}

/// `|a| <= m` and `|b| <= m` bound the product by `m * m`.
pub proof fn lemma_prod_bound(a: int, b: int, m: int)
    by (nonlinear_arith)
    requires
        0 <= m,
        -m <= a <= m,
        -m <= b <= m,
    ensures
        -(m * m) <= a * b <= m * m,
{
}

proof fn lemma_dot_fits(a: Vec3i, b: Vec3i)
    requires
        v_in(a, 0x4000_0000_0000_0000),
        v_in(b, 0x4000_0000_0000_0000),
    ensures
        -0x1000_0000_0000_0000_0000_0000_0000_0000 <= a.x * b.x
            <= 0x1000_0000_0000_0000_0000_0000_0000_0000,
        -0x1000_0000_0000_0000_0000_0000_0000_0000 <= a.y * b.y
            <= 0x1000_0000_0000_0000_0000_0000_0000_0000,
        -0x1000_0000_0000_0000_0000_0000_0000_0000 <= a.z * b.z
            <= 0x1000_0000_0000_0000_0000_0000_0000_0000,
{
    lemma_prod_bound(a.x as int, b.x as int, 0x4000_0000_0000_0000);
    lemma_prod_bound(a.y as int, b.y as int, 0x4000_0000_0000_0000);
    lemma_prod_bound(a.z as int, b.z as int, 0x4000_0000_0000_0000);
}

/// Componentwise bounds on the factors bound the dot product.
pub proof fn lemma_dot_bound(a: Vec3i, b: Vec3i, ma: int, mb: int)
    by (nonlinear_arith)
    requires
        0 <= ma,
        0 <= mb,
        v_in(a, ma),
        v_in(b, mb),
    ensures
        -(3 * (ma * mb)) <= spec_dot(a, b) <= 3 * (ma * mb),
{
}

pub proof fn lemma_self_dot_nonneg(v: Vec3i)
    by (nonlinear_arith)
    ensures
        spec_dot(v, v) >= 0,
{
}

proof fn lemma_cross_fits(a: Vec3i, b: Vec3i)
    by (nonlinear_arith)
    requires
        v_in(a, 0x4000_0000),
        v_in(b, 0x4000_0000),
    ensures
        -0x2000_0000_0000_0000 <= a.y * b.z - a.z * b.y <= 0x2000_0000_0000_0000,
        -0x2000_0000_0000_0000 <= a.z * b.x - a.x * b.z <= 0x2000_0000_0000_0000,
        -0x2000_0000_0000_0000 <= a.x * b.y - a.y * b.x <= 0x2000_0000_0000_0000,
{
}

/// Mirror reflection of `v` about the (unnormalized) surface normal `n`,
/// scale-cleared so that it is exact on the lattice:
/// `reflect(v, n) = (n . n) v - 2 (v . n) n`.
/// When `n` is unit length this is the textbook `v - 2 (v . n) n`.
pub open spec fn reflect_x(v: Vec3i, n: Vec3i) -> int {
    spec_dot(n, n) * v.x - 2 * spec_dot(v, n) * n.x
}

pub open spec fn reflect_y(v: Vec3i, n: Vec3i) -> int {
    spec_dot(n, n) * v.y - 2 * spec_dot(v, n) * n.y
}

pub open spec fn reflect_z(v: Vec3i, n: Vec3i) -> int {
    spec_dot(n, n) * v.z - 2 * spec_dot(v, n) * n.z
}

/// `|a| <= ma` and `|b| <= mb` bound the product by `ma * mb`.
pub proof fn lemma_prod_bound2(a: int, b: int, ma: int, mb: int)
    by (nonlinear_arith)
    requires
        0 <= ma,
        0 <= mb,
        -ma <= a <= ma,
        -mb <= b <= mb,
    ensures
        -(ma * mb) <= a * b <= ma * mb,
{
}

pub fn reflect(v: &Vec3i, n: &Vec3i) -> (r: Vec3i)
    requires
        v_in(*v, 0x4000),
        v_in(*n, 0x4000),
    ensures
        r.x == reflect_x(*v, *n),
        r.y == reflect_y(*v, *n),
        r.z == reflect_z(*v, *n),
{
    proof {
        lemma_prod_bound(n.x as int, n.x as int, 0x4000);
        lemma_prod_bound(n.y as int, n.y as int, 0x4000);
        lemma_prod_bound(n.z as int, n.z as int, 0x4000);
        lemma_prod_bound(v.x as int, n.x as int, 0x4000);
        lemma_prod_bound(v.y as int, n.y as int, 0x4000);
        lemma_prod_bound(v.z as int, n.z as int, 0x4000);
    }
    let nn = (n.x as i128) * (n.x as i128) + (n.y as i128) * (n.y as i128) + (n.z as i128)
        * (n.z as i128);
    let vn = (v.x as i128) * (n.x as i128) + (v.y as i128) * (n.y as i128) + (v.z as i128)
        * (n.z as i128);
    proof {
        lemma_prod_bound2(nn as int, v.x as int, 0x1_0000_0000, 0x4000);
        lemma_prod_bound2(nn as int, v.y as int, 0x1_0000_0000, 0x4000);
        lemma_prod_bound2(nn as int, v.z as int, 0x1_0000_0000, 0x4000);
        lemma_prod_bound2(2 * vn, n.x as int, 0x2_0000_0000, 0x4000);
        lemma_prod_bound2(2 * vn, n.y as int, 0x2_0000_0000, 0x4000);
        lemma_prod_bound2(2 * vn, n.z as int, 0x2_0000_0000, 0x4000);
    }
    Vec3i {
        x: (nn * (v.x as i128) - 2 * vn * (n.x as i128)) as i64,
        y: (nn * (v.y as i128) - 2 * vn * (n.y as i128)) as i64,
        z: (nn * (v.z as i128) - 2 * vn * (n.z as i128)) as i64,
    }
}

/// Componentwise bound on the scale-cleared reflection.
pub proof fn lemma_reflect_bound(v: Vec3i, n: Vec3i, m: int)
    requires
        0 <= m,
        v_in(v, m),
        v_in(n, m),
    ensures
        -(9 * (m * (m * m))) <= reflect_x(v, n) <= 9 * (m * (m * m)),
        -(9 * (m * (m * m))) <= reflect_y(v, n) <= 9 * (m * (m * m)),
        -(9 * (m * (m * m))) <= reflect_z(v, n) <= 9 * (m * (m * m)),
{
    lemma_dot_bound(n, n, m, m);
    lemma_dot_bound(v, n, m, m);
    lemma_prod_bound2(spec_dot(n, n), v.x as int, 3 * (m * m), m);
    lemma_prod_bound2(spec_dot(n, n), v.y as int, 3 * (m * m), m);
    lemma_prod_bound2(spec_dot(n, n), v.z as int, 3 * (m * m), m);
    lemma_prod_bound2(2 * spec_dot(v, n), n.x as int, 6 * (m * m), m);
    lemma_prod_bound2(2 * spec_dot(v, n), n.y as int, 6 * (m * m), m);
    lemma_prod_bound2(2 * spec_dot(v, n), n.z as int, 6 * (m * m), m);
    assert((3 * (m * m)) * m + (6 * (m * m)) * m == 9 * (m * (m * m))) by (nonlinear_arith);
}

/// Law of mirror reflection: the outgoing direction makes the same angle
/// with the normal as the incoming one, with opposite sign.  Stated exactly:
/// `reflect(v, n) . n == -(v . n) (n . n)`; for a unit normal this is
/// `reflect(v, n) . n == -(v . n)`.
pub proof fn lemma_reflect_angle(v: Vec3i, n: Vec3i)
    ensures
        reflect_x(v, n) * n.x + reflect_y(v, n) * n.y + reflect_z(v, n) * n.z == -spec_dot(v, n)
            * spec_dot(n, n),
{
    let a = spec_dot(n, n);
    let b = spec_dot(v, n);
    lemma_reflect_comp(a, b, v.x as int, n.x as int);
    lemma_reflect_comp(a, b, v.y as int, n.y as int);
    lemma_reflect_comp(a, b, v.z as int, n.z as int);
    lemma_dist3(a, v.x * n.x, v.y * n.y, v.z * n.z);
    lemma_dist3(2 * b, n.x * n.x, n.y * n.y, n.z * n.z);
    assert(a * b - (2 * b) * a == -b * a) by (nonlinear_arith);
}

/// One component of the reflection dot product, expanded.
proof fn lemma_reflect_comp(a: int, b: int, vx: int, nx: int)
    by (nonlinear_arith)
    ensures
        (a * vx - 2 * b * nx) * nx == a * (vx * nx) - (2 * b) * (nx * nx),
{
}

/// Right distributivity over a three-term sum.
proof fn lemma_dist3(a: int, p: int, q: int, r: int)
    by (nonlinear_arith)
    ensures
        a * p + a * q + a * r == a * (p + q + r),
{
}

} // verus!
