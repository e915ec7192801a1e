//! Where the sensor's axes point in the vehicle.
//!
//! Vehicle coordinates have x to the right, y to the front and z up.
use crate::arithmetic;
use crate::binary32;
use crate::binary32::Binary32;
use crate::rounding;
use crate::vec3;
use crate::vec3::Vec3;
use vstd::arithmetic::power2::*;
use vstd::prelude::*;

verus! {

/// The unit vector of a cardinal direction in vehicle coordinates.
/// 1=Front, 2=Rear, 3=Left, 4=Right, 5=Up, 6=Down.
pub open spec fn direction(dir: int) -> (int, int, int) {
    if dir == 1 {
        (0, 1, 0)
    } else if dir == 2 {
        (0, -1, 0)
    } else if dir == 3 {
        (-1, 0, 0)
    } else if dir == 4 {
        (1, 0, 0)
    } else if dir == 5 {
        (0, 0, 1)
    } else {
        (0, 0, -1)
    }
}

/// Whether the number is that of a cardinal direction.
pub open spec fn is_direction(dir: int) -> bool {
    1 <= dir <= 6
}

/// Whether the sensor can be mounted so: two directions at a right angle.
pub open spec fn is_mounting(usbc_dir: int, top_dir: int) -> bool {
    &&& is_direction(usbc_dir)
    &&& is_direction(top_dir)
    &&& (usbc_dir - 1) / 2 != (top_dir - 1) / 2
}

/// The sensor's x axis, opposite to its USB-C port.
pub open spec fn axis_x(usbc_dir: int, top_dir: int) -> (int, int, int) {
    vec3::int_opposite(direction(usbc_dir))
}

/// The sensor's y axis.
pub open spec fn axis_y(usbc_dir: int, top_dir: int) -> (int, int, int) {
    vec3::int_cross(direction(usbc_dir), direction(top_dir))
}

/// The sensor's z axis, towards its top label.
pub open spec fn axis_z(usbc_dir: int, top_dir: int) -> (int, int, int) {
    direction(top_dir)
}

/// The basis vectors as they are computed from two cardinal vectors.
pub open spec fn basis(usbc_dir: int, top_dir: int) -> (Vec3, Vec3, Vec3) {
    let usbc = Vec3::of_ints(direction(usbc_dir));
    let top = Vec3::of_ints(direction(top_dir));
    (usbc.opposite(), usbc.cross_product(top), top)
}

/// Convert cardinal direction index (1..=6) to unit vector in vehicle coordinates.
/// 1=Front, 2=Rear, 3=Left, 4=Right, 5=Up, 6=Down.
pub fn cardinal_vector(dir: u8) -> (r: Option<Vec3>)
    ensures
        r is Some <==> is_direction(dir as int),
        r matches Some(v) ==> {
            &&& v == Vec3::of_ints(direction(dir as int))
            &&& v.is_ints(direction(dir as int))
        },
{
    match dir {
        1 => Some(Vec3::from_i16(0, 1, 0)),
        2 => Some(Vec3::from_i16(0, -1, 0)),
        3 => Some(Vec3::from_i16(-1, 0, 0)),
        4 => Some(Vec3::from_i16(1, 0, 0)),
        5 => Some(Vec3::from_i16(0, 0, 1)),
        6 => Some(Vec3::from_i16(0, 0, -1)),
        _ => None,
    }
}

/// Compute the 3D sensor basis vectors (Xs, Ys, Zs) in vehicle frame coordinates.
///
/// Physical Sensor Alignment:
/// - USB-C port is along -X_s
/// - Top label is along +Z_s
/// - Lateral axis is along +Y_s = u_usbc x u_top
///
/// There are none where the two directions are not perpendicular.
pub fn compute_basis_vectors(usbc_dir: u8, top_dir: u8) -> (r: Option<(Vec3, Vec3, Vec3)>)
    ensures
        r is Some <==> is_mounting(usbc_dir as int, top_dir as int),
        r matches Some((x_s, y_s, z_s)) ==> {
            &&& (x_s, y_s, z_s) == basis(usbc_dir as int, top_dir as int)
            &&& x_s.is_ints(axis_x(usbc_dir as int, top_dir as int))
            &&& y_s.is_ints(axis_y(usbc_dir as int, top_dir as int))
            &&& z_s.is_ints(axis_z(usbc_dir as int, top_dir as int))
        },
{
    let u_usbc = match cardinal_vector(usbc_dir) {
        Some(v) => v,
        None => return None,
    };
    let u_top = match cardinal_vector(top_dir) {
        Some(v) => v,
        None => return None,
    };
    let dot = u_usbc.dot(u_top);
    let zero = Binary32::from_i16(0);
    proof {
        let (usbc, top) = (direction(usbc_dir as int), direction(top_dir as int));
        u_usbc.lemma_dot_ints(u_top, usbc, top);
        lemma_perpendicular(usbc_dir as int, top_dir as int);
        dot.lemma_eq_int(zero, vec3::int_dot(usbc, top), 0);
        u_usbc.lemma_opposite_ints(usbc);
        u_usbc.lemma_cross_ints(u_top, usbc, top);
    }
    if dot != zero {
        return None;
    }
    let x_s = Vec3::new(u_usbc.x.negated(), u_usbc.y.negated(), u_usbc.z.negated());
    let y_s = u_usbc.cross(u_top);
    Some((x_s, y_s, u_top))
}

/// Cardinal vectors are perpendicular exactly where they lie on different axes.
proof fn lemma_perpendicular(usbc_dir: int, top_dir: int)
    requires
        is_direction(usbc_dir),
        is_direction(top_dir),
    ensures
        vec3::int_dot(direction(usbc_dir), direction(top_dir)) == 0 <==> is_mounting(
            usbc_dir,
            top_dir,
        ),
{
    lemma_unit_products();
}

/// The components of the sensor's axes are at most one in size.
pub proof fn lemma_axes_are_units(usbc_dir: int, top_dir: int)
    requires
        is_mounting(usbc_dir, top_dir),
    ensures
        vec3::within(axis_x(usbc_dir, top_dir), 1),
        vec3::within(axis_y(usbc_dir, top_dir), 1),
        vec3::within(axis_z(usbc_dir, top_dir), 1),
{
    lemma_unit_products();
}

/// Products of components of cardinal vectors.
pub proof fn lemma_unit_products()
    ensures
        forall|m: int, n: int|
            -1 <= m <= 1 && -1 <= n <= 1 ==> #[trigger] (m * n) == if m == 0 || n == 0 {
                0int
            } else if m == n {
                1
            } else {
                -1
            },
{
    assert forall|m: int, n: int| -1 <= m <= 1 && -1 <= n <= 1 implies #[trigger] (m * n) == if m
        == 0 || n == 0 {
        0int
    } else if m == n {
        1
    } else {
        -1
    } by {
        assert(m == -1 || m == 0 || m == 1);
        assert(-1 * n == -n && 0 * n == 0 && 1 * n == n);
    }
}

/// The sensor's axes are unit vectors at right angles and form a right-handed basis.
pub proof fn law_axes_orthonormal(usbc_dir: int, top_dir: int)
    requires
        is_mounting(usbc_dir, top_dir),
    ensures
        ({
            let x = axis_x(usbc_dir, top_dir);
            let y = axis_y(usbc_dir, top_dir);
            let z = axis_z(usbc_dir, top_dir);
            &&& vec3::int_dot(x, x) == 1
            &&& vec3::int_dot(y, y) == 1
            &&& vec3::int_dot(z, z) == 1
            &&& vec3::int_dot(x, y) == 0
            &&& vec3::int_dot(y, z) == 0
            &&& vec3::int_dot(z, x) == 0
            &&& vec3::int_dot(x, vec3::int_cross(y, z)) == 1
        }),
{
    lemma_axis_y(usbc_dir, top_dir);
    lemma_unit_products();
}

/// The y axis is a cardinal vector, too.
pub proof fn lemma_axis_y(usbc_dir: int, top_dir: int)
    requires
        is_mounting(usbc_dir, top_dir),
    ensures
        exists|dir: int|
            {
                &&& is_direction(dir)
                &&& #[trigger] direction(dir) == axis_y(usbc_dir, top_dir)
                &&& (dir - 1) / 2 != (usbc_dir - 1) / 2
                &&& (dir - 1) / 2 != (top_dir - 1) / 2
            },
{
    lemma_unit_products();
    let y = axis_y(usbc_dir, top_dir);
    let dir: int = if y.1 == 1 {
        1
    } else if y.1 == -1 {
        2
    } else if y.0 == -1 {
        3
    } else if y.0 == 1 {
        4
    } else if y.2 == 1 {
        5
    } else {
        6
    };
    assert(direction(dir) == y);
}

/// No two mountings turn the sensor's axes the same way.
pub proof fn law_mountings_distinct(usbc_dir: int, top_dir: int, usbc_dir2: int, top_dir2: int)
    requires
        is_mounting(usbc_dir, top_dir),
        is_mounting(usbc_dir2, top_dir2),
        axis_x(usbc_dir, top_dir) == axis_x(usbc_dir2, top_dir2),
        axis_z(usbc_dir, top_dir) == axis_z(usbc_dir2, top_dir2),
    ensures
        usbc_dir == usbc_dir2,
        top_dir == top_dir2,
{
}

/// The mountings.
pub open spec fn mountings() -> Set<(int, int)> {
    Set::new(|m: (int, int)| is_mounting(m.0, m.1))
}

/// There are 24 mountings: six ways to point the port, four to point the label.
pub proof fn law_mounting_count()
    ensures
        mountings().finite(),
        mountings().len() == 24,
{
    let listed = set![
        (1int, 3int), (1, 4), (1, 5), (1, 6),
        (2, 3), (2, 4), (2, 5), (2, 6),
        (3, 1), (3, 2), (3, 5), (3, 6),
        (4, 1), (4, 2), (4, 5), (4, 6),
        (5, 1), (5, 2), (5, 3), (5, 4),
        (6, 1), (6, 2), (6, 3), (6, 4),
    ];
    assert(mountings() =~= listed);
}

/// The directions are numbered front, rear, left, right, up and down, and are unit vectors
/// of a vehicle with x to the right, y to the front and z up.
pub proof fn law_directions(dir: u8, r: Option<Vec3>)
    requires
        call_ensures(cardinal_vector, (dir,), r),
    ensures
        r is Some <==> 1 <= dir <= 6,
        r is Some ==> {
            let v = r->0;
            let unit = |plus: u8, minus: u8|
                if dir == plus {
                    1int
                } else if dir == minus {
                    -1
                } else {
                    0
                };
            &&& v.x.is_finite() && v.x.scaled() == unit(4, 3) * pow2(149)
            &&& v.y.is_finite() && v.y.scaled() == unit(1, 2) * pow2(149)
            &&& v.z.is_finite() && v.z.scaled() == unit(5, 6) * pow2(149)
            &&& v.x.bits != 0x8000_0000
            &&& v.y.bits != 0x8000_0000
            &&& v.z.bits != 0x8000_0000
        },
{
    if r is Some {
        Binary32::lemma_unsigned(0);
        Binary32::lemma_unsigned(1);
        let minus = Binary32::of_int(-1);
        Binary32::lemma_of_int(-1);
        minus.lemma_int_parts(-1);
        lemma_pow2_pos(149);
        assert(rounding::magnitude(0) == 0);
        assert(1 * binary32::one() == binary32::one()) by (nonlinear_arith);
    }
}

/// There is a basis exactly where both directions are valid and they are neither the same
/// nor opposite: neither both of front and rear, nor of left and right, nor of up and
/// down. The x axis points away from the port, the z axis where the label does, and the y
/// axis is the cross product of port and label.
pub proof fn law_basis(
    usbc_dir: u8,
    top_dir: u8,
    r: Option<(Vec3, Vec3, Vec3)>,
    port: Option<Vec3>,
    label: Option<Vec3>,
    across: Vec3,
)
    requires
        call_ensures(compute_basis_vectors, (usbc_dir, top_dir), r),
        call_ensures(cardinal_vector, (usbc_dir,), port),
        call_ensures(cardinal_vector, (top_dir,), label),
        call_ensures(Vec3::cross, (port->0, label->0), across),
    ensures
        r is Some <==> {
            &&& 1 <= usbc_dir <= 6
            &&& 1 <= top_dir <= 6
            &&& !(usbc_dir <= 2 && top_dir <= 2)
            &&& !(3 <= usbc_dir <= 4 && 3 <= top_dir <= 4)
            &&& !(5 <= usbc_dir && 5 <= top_dir)
        },
        r is Some ==> {
            let (x, y, z) = r->0;
            let (u, t) = (port->0, label->0);
            &&& x.x.bits == u.x.bits ^ 0x8000_0000
            &&& x.y.bits == u.y.bits ^ 0x8000_0000
            &&& x.z.bits == u.z.bits ^ 0x8000_0000
            &&& z == t
            &&& y == across
        },
{
    if r is Some {
        let u = port->0;
        arithmetic::lemma_negation_bits(u.x);
        arithmetic::lemma_negation_bits(u.y);
        arithmetic::lemma_negation_bits(u.z);
    }
}

} // verus!
