//! Vectors in three dimensions.
use crate::arithmetic;
use crate::binary32::Binary32;
use vstd::prelude::*;

verus! {

/// 3-dimensional Cartesian vector for coordinate basis and acceleration operations.
#[derive(Clone, Copy, Debug)]
pub struct Vec3 {
    pub x: Binary32,
    pub y: Binary32,
    pub z: Binary32,
}

/// The dot product of two integer vectors.
pub open spec fn int_dot(a: (int, int, int), b: (int, int, int)) -> int {
    a.0 * b.0 + a.1 * b.1 + a.2 * b.2
}

/// The cross product of two integer vectors.
pub open spec fn int_cross(a: (int, int, int), b: (int, int, int)) -> (int, int, int) {
    (a.1 * b.2 - a.2 * b.1, a.2 * b.0 - a.0 * b.2, a.0 * b.1 - a.1 * b.0)
}

/// The opposite of an integer vector.
pub open spec fn int_opposite(a: (int, int, int)) -> (int, int, int) {
    (-a.0, -a.1, -a.2)
}

/// Whether no component exceeds `limit` in size.
pub open spec fn within(a: (int, int, int), limit: int) -> bool {
    &&& -limit <= a.0 <= limit
    &&& -limit <= a.1 <= limit
    &&& -limit <= a.2 <= limit
}

impl Vec3 {
    /// The vector of three integers.
    pub open spec fn of_ints(a: (int, int, int)) -> Vec3 {
        Vec3 { x: Binary32::of_int(a.0), y: Binary32::of_int(a.1), z: Binary32::of_int(a.2) }
    }

    /// Whether the components are these integers.
    pub open spec fn is_ints(self, a: (int, int, int)) -> bool {
        self.x.is_int(a.0) && self.y.is_int(a.1) && self.z.is_int(a.2)
    }

    /// The dot product, rounded after each operation.
    pub open spec fn dot_product(self, rhs: Vec3) -> Binary32 {
        self.x.product(rhs.x).sum(self.y.product(rhs.y)).sum(self.z.product(rhs.z))
    }

    /// The cross product, rounded after each operation.
    pub open spec fn cross_product(self, rhs: Vec3) -> Vec3 {
        Vec3 {
            x: self.y.product(rhs.z).difference(self.z.product(rhs.y)),
            y: self.z.product(rhs.x).difference(self.x.product(rhs.z)),
            z: self.x.product(rhs.y).difference(self.y.product(rhs.x)),
        }
    }

    /// The vector with every component negated.
    pub open spec fn opposite(self) -> Vec3 {
        Vec3 { x: self.x.negation(), y: self.y.negation(), z: self.z.negation() }
    }

    /// Equal in value, component by component.
    pub open spec fn equals(self, other: Vec3) -> bool {
        self.x.equals(other.x) && self.y.equals(other.y) && self.z.equals(other.z)
    }

    /// The vector with the given components.
    pub fn new(x: Binary32, y: Binary32, z: Binary32) -> (r: Vec3)
        ensures
            r == (Vec3 { x, y, z }),
    {
        Vec3 { x, y, z }
    }

    /// The vector of three integers.
    pub fn from_i16(x: i16, y: i16, z: i16) -> (r: Vec3)
        ensures
            r == Vec3::of_ints((x as int, y as int, z as int)),
            r.is_ints((x as int, y as int, z as int)),
    {
        Vec3::new(Binary32::from_i16(x), Binary32::from_i16(y), Binary32::from_i16(z))
    }

    /// The dot product.
    pub fn dot(self, rhs: Vec3) -> (r: Binary32)
        ensures
            r == self.dot_product(rhs),
    {
        self.x.times(rhs.x).plus(self.y.times(rhs.y)).plus(self.z.times(rhs.z))
    }

    /// The cross product.
    pub fn cross(self, rhs: Vec3) -> (r: Vec3)
        ensures
            r == self.cross_product(rhs),
    {
        Vec3 {
            x: self.y.times(rhs.z).minus(self.z.times(rhs.y)),
            y: self.z.times(rhs.x).minus(self.x.times(rhs.z)),
            z: self.x.times(rhs.y).minus(self.y.times(rhs.x)),
        }
    }

    /// The dot product of integer vectors is exact while it stays within 24 bits.
    pub proof fn lemma_dot_ints(self, rhs: Vec3, a: (int, int, int), b: (int, int, int))
        requires
            self.is_ints(a),
            rhs.is_ints(b),
            within(a, 0x8000),
            within(b, 1),
        ensures
            self.dot_product(rhs).is_int(int_dot(a, b)),
    {
        lemma_small_product(a.0, b.0);
        lemma_small_product(a.1, b.1);
        lemma_small_product(a.2, b.2);
        self.x.lemma_product_int(rhs.x, a.0, b.0);
        self.y.lemma_product_int(rhs.y, a.1, b.1);
        self.z.lemma_product_int(rhs.z, a.2, b.2);
        let (x, y, z) = (
            self.x.product(rhs.x),
            self.y.product(rhs.y),
            self.z.product(rhs.z),
        );
        x.lemma_sum_int(y, a.0 * b.0, a.1 * b.1);
        x.sum(y).lemma_sum_int(z, a.0 * b.0 + a.1 * b.1, a.2 * b.2);
    }

    /// The cross product of small integer vectors is exact.
    pub proof fn lemma_cross_ints(self, rhs: Vec3, a: (int, int, int), b: (int, int, int))
        requires
            self.is_ints(a),
            rhs.is_ints(b),
            within(a, 1),
            within(b, 1),
        ensures
            self.cross_product(rhs).is_ints(int_cross(a, b)),
    {
        lemma_cross_component(self.y, rhs.z, self.z, rhs.y, a.1, b.2, a.2, b.1);
        lemma_cross_component(self.z, rhs.x, self.x, rhs.z, a.2, b.0, a.0, b.2);
        lemma_cross_component(self.x, rhs.y, self.y, rhs.x, a.0, b.1, a.1, b.0);
    }

    /// Integer vectors of up to 24 bits are held exactly.
    pub proof fn lemma_of_ints(a: (int, int, int))
        requires
            within(a, 0x8000),
        ensures
            Vec3::of_ints(a).is_ints(a),
    {
        Binary32::lemma_of_int(a.0);
        Binary32::lemma_of_int(a.1);
        Binary32::lemma_of_int(a.2);
    }

    /// The opposite of an integer vector.
    pub proof fn lemma_opposite_ints(self, a: (int, int, int))
        requires
            self.is_ints(a),
        ensures
            self.opposite().is_ints(int_opposite(a)),
    {
        self.x.lemma_negation_int(a.0);
        self.y.lemma_negation_int(a.1);
        self.z.lemma_negation_int(a.2);
    }
}

/// The dot product of a reading and a vector of signs is small.
pub proof fn lemma_int_dot_small(a: (int, int, int), b: (int, int, int))
    requires
        within(a, 0x8000),
        within(b, 1),
    ensures
        -0x1_8000 <= int_dot(a, b) <= 0x1_8000,
{
    lemma_small_product(a.0, b.0);
    lemma_small_product(a.1, b.1);
    lemma_small_product(a.2, b.2);
}

proof fn lemma_small_product(m: int, n: int)
    requires
        -0x8000 <= m <= 0x8000,
        -1 <= n <= 1,
    ensures
        -0x8000 <= m * n <= 0x8000,
{
    assert(n == -1 || n == 0 || n == 1);
    assert(m * -1 == -m && m * 0 == 0 && m * 1 == m);
}

proof fn lemma_cross_component(
    p: Binary32,
    q: Binary32,
    r: Binary32,
    s: Binary32,
    a: int,
    b: int,
    c: int,
    d: int,
)
    requires
        p.is_int(a),
        q.is_int(b),
        r.is_int(c),
        s.is_int(d),
        -1 <= a <= 1,
        -1 <= b <= 1,
        -1 <= c <= 1,
        -1 <= d <= 1,
    ensures
        p.product(q).difference(r.product(s)).is_int(a * b - c * d),
{
    lemma_small_product(a, b);
    lemma_small_product(c, d);
    p.lemma_product_int(q, a, b);
    r.lemma_product_int(s, c, d);
    r.product(s).lemma_negation_int(c * d);
    p.product(q).lemma_sum_int(r.product(s).negation(), a * b, -(c * d));
}

/// Vectors compare by their components' values.
impl PartialEq for Vec3 {
    fn eq(&self, other: &Vec3) -> (r: bool) {
        self.x == other.x && self.y == other.y && self.z == other.z
    }
}

impl vstd::std_specs::cmp::PartialEqSpecImpl for Vec3 {
    open spec fn obeys_eq_spec() -> bool {
        true
    }

    open spec fn eq_spec(&self, other: &Vec3) -> bool {
        self.equals(*other)
    }
}

/// Vectors are equal exactly where each component has the same value.
pub proof fn law_equal_components(a: Vec3, b: Vec3)
    ensures
        vstd::std_specs::cmp::PartialEqSpec::eq_spec(&a, &b) <==> {
            &&& arithmetic::same_value(a.x, b.x)
            &&& arithmetic::same_value(a.y, b.y)
            &&& arithmetic::same_value(a.z, b.z)
        },
{
    arithmetic::law_equal_values(a.x, b.x);
    arithmetic::law_equal_values(a.y, b.y);
    arithmetic::law_equal_values(a.z, b.z);
}

/// The dot product adds up the products of the components, x and y first.
pub proof fn law_dot(
    a: Vec3,
    b: Vec3,
    r: Binary32,
    x: Binary32,
    y: Binary32,
    z: Binary32,
    xy: Binary32,
    xyz: Binary32,
)
    requires
        call_ensures(Vec3::dot, (a, b), r),
        call_ensures(Binary32::times, (a.x, b.x), x),
        call_ensures(Binary32::times, (a.y, b.y), y),
        call_ensures(Binary32::times, (a.z, b.z), z),
        call_ensures(Binary32::plus, (x, y), xy),
        call_ensures(Binary32::plus, (xy, z), xyz),
    ensures
        r == xyz,
{
}

/// The dot product of integer vectors is exact while every step stays within 24 bits.
pub proof fn law_dot_exact(a: Vec3, b: Vec3, r: Binary32, m: (int, int, int), n: (int, int, int))
    requires
        call_ensures(Vec3::dot, (a, b), r),
        a.is_ints(m),
        b.is_ints(n),
        vstd::math::abs(m.0 * n.0) <= 0x100_0000,
        vstd::math::abs(m.1 * n.1) <= 0x100_0000,
        vstd::math::abs(m.2 * n.2) <= 0x100_0000,
        vstd::math::abs(m.0 * n.0 + m.1 * n.1) <= 0x100_0000,
        vstd::math::abs(m.0 * n.0 + m.1 * n.1 + m.2 * n.2) <= 0x100_0000,
    ensures
        r.is_int(m.0 * n.0 + m.1 * n.1 + m.2 * n.2),
{
    a.x.lemma_product_int(b.x, m.0, n.0);
    a.y.lemma_product_int(b.y, m.1, n.1);
    a.z.lemma_product_int(b.z, m.2, n.2);
    let (x, y, z) = (a.x.product(b.x), a.y.product(b.y), a.z.product(b.z));
    x.lemma_sum_int(y, m.0 * n.0, m.1 * n.1);
    x.sum(y).lemma_sum_int(z, m.0 * n.0 + m.1 * n.1, m.2 * n.2);
}

/// A component of the cross product is the difference of two products of the others.
pub proof fn law_cross(
    a: Vec3,
    b: Vec3,
    r: Vec3,
    yz: Binary32,
    zy: Binary32,
    zx: Binary32,
    xz: Binary32,
    xy: Binary32,
    yx: Binary32,
    x: Binary32,
    y: Binary32,
    z: Binary32,
)
    requires
        call_ensures(Vec3::cross, (a, b), r),
        call_ensures(Binary32::times, (a.y, b.z), yz),
        call_ensures(Binary32::times, (a.z, b.y), zy),
        call_ensures(Binary32::times, (a.z, b.x), zx),
        call_ensures(Binary32::times, (a.x, b.z), xz),
        call_ensures(Binary32::times, (a.x, b.y), xy),
        call_ensures(Binary32::times, (a.y, b.x), yx),
        call_ensures(Binary32::minus, (yz, zy), x),
        call_ensures(Binary32::minus, (zx, xz), y),
        call_ensures(Binary32::minus, (xy, yx), z),
    ensures
        r.x == x,
        r.y == y,
        r.z == z,
{
}

/// The cross product of integer vectors is exact while every step stays within 24 bits.
pub proof fn law_cross_exact(a: Vec3, b: Vec3, r: Vec3, m: (int, int, int), n: (int, int, int))
    requires
        call_ensures(Vec3::cross, (a, b), r),
        a.is_ints(m),
        b.is_ints(n),
        within(m, 0x800),
        within(n, 0x800),
    ensures
        r.x.is_int(m.1 * n.2 - m.2 * n.1),
        r.y.is_int(m.2 * n.0 - m.0 * n.2),
        r.z.is_int(m.0 * n.1 - m.1 * n.0),
{
    lemma_wide_component(a.y, b.z, a.z, b.y, m.1, n.2, m.2, n.1);
    lemma_wide_component(a.z, b.x, a.x, b.z, m.2, n.0, m.0, n.2);
    lemma_wide_component(a.x, b.y, a.y, b.x, m.0, n.1, m.1, n.0);
}

proof fn lemma_wide_component(
    p: Binary32,
    q: Binary32,
    r: Binary32,
    s: Binary32,
    a: int,
    b: int,
    c: int,
    d: int,
)
    requires
        p.is_int(a),
        q.is_int(b),
        r.is_int(c),
        s.is_int(d),
        -0x800 <= a <= 0x800,
        -0x800 <= b <= 0x800,
        -0x800 <= c <= 0x800,
        -0x800 <= d <= 0x800,
    ensures
        p.product(q).difference(r.product(s)).is_int(a * b - c * d),
{
    assert(-0x40_0000 <= a * b <= 0x40_0000) by (nonlinear_arith)
        requires
            -0x800 <= a <= 0x800,
            -0x800 <= b <= 0x800,
    ;
    assert(-0x40_0000 <= c * d <= 0x40_0000) by (nonlinear_arith)
        requires
            -0x800 <= c <= 0x800,
            -0x800 <= d <= 0x800,
    ;
    p.lemma_product_int(q, a, b);
    r.lemma_product_int(s, c, d);
    r.product(s).lemma_negation_int(c * d);
    p.product(q).lemma_sum_int(r.product(s).negation(), a * b, -(c * d));
}

/// A vector has the components that it is made of.
pub proof fn law_components(x: Binary32, y: Binary32, z: Binary32, r: Vec3)
    requires
        call_ensures(Vec3::new, (x, y, z), r),
    ensures
        r.x == x,
        r.y == y,
        r.z == z,
{
}

/// A vector of integers has them as its components, zeros without a sign.
pub proof fn law_integer_vector(
    x: i16,
    y: i16,
    z: i16,
    r: Vec3,
    rx: Binary32,
    ry: Binary32,
    rz: Binary32,
)
    requires
        call_ensures(Vec3::from_i16, (x, y, z), r),
        call_ensures(Binary32::from_i16, (x,), rx),
        call_ensures(Binary32::from_i16, (y,), ry),
        call_ensures(Binary32::from_i16, (z,), rz),
    ensures
        r.x == rx,
        r.y == ry,
        r.z == rz,
{
}

} // verus!
