//! Pitch and roll from accelerometer readings.
//!
//! Both are arctangents. [`arctangents`] gives what to take them of, and
//! [`calculate_angles`] turns the arctangents into the angles that are shown.
use crate::arithmetic;
use crate::binary32;
use crate::binary32::Binary32;
use crate::bytes;
use crate::bytes::{put_le32, read_le_i16};
use crate::config::DeviceConfig;
use crate::mounting;
use crate::mounting::compute_basis_vectors;
use crate::rounding;
use crate::vec3;
use crate::vec3::Vec3;
use vstd::arithmetic::power2::*;
use vstd::prelude::*;

verus! {

/// The bit pattern of the degrees in a radian: the quotient of 180 by `PI`.
pub const RAD_TO_DEG: u32 = 0x4265_2EE0;

/// The bit pattern of the number nearest to pi, the greatest arctangent of two arguments.
pub const PI: u32 = 0x4049_0FDB;

/// The bit pattern of the number nearest to half of pi, the greatest arctangent where the
/// second argument is not negative.
pub const HALF_PI: u32 = 0x3FC9_0FDB;

/// Acceleration in vehicle coordinates: to the right, to the front and up.
#[derive(Clone, Copy, Debug)]
pub struct Acceleration {
    pub lat: Binary32,
    pub long: Binary32,
    pub vert: Binary32,
}

/// The arguments of the two arctangents.
///
/// Pitch is that of `pitch_y` and the square root of `pitch_x_squared`, roll that
/// of `roll_y` and `roll_x`.
#[derive(Clone, Copy, Debug)]
pub struct Arctangents {
    pub pitch_y: Binary32,
    pub pitch_x_squared: Binary32,
    pub roll_y: Binary32,
    pub roll_x: Binary32,
}

/// The vehicle's inclination in degrees.
#[derive(Clone, Copy, Debug)]
pub struct Angles {
    pub pitch: Binary32,
    pub roll: Binary32,
}

/// The components of a reading: three signed 16-bit integers.
pub open spec fn reading(raw: Seq<u8>) -> (int, int, int) {
    (
        bytes::signed16(bytes::le16(raw, 0)),
        bytes::signed16(bytes::le16(raw, 2)),
        bytes::signed16(bytes::le16(raw, 4)),
    )
}

/// What the sensor reads of an acceleration of the vehicle: its components along the
/// sensor's axes.
pub open spec fn along_axes(v: (int, int, int), usbc_dir: int, top_dir: int) -> (int, int, int) {
    (
        vec3::int_dot(v, mounting::axis_x(usbc_dir, top_dir)),
        vec3::int_dot(v, mounting::axis_y(usbc_dir, top_dir)),
        vec3::int_dot(v, mounting::axis_z(usbc_dir, top_dir)),
    )
}

/// The acceleration of the vehicle of which the sensor reads `r`: the sum of the sensor's
/// axes, each as often as the sensor reads along it.
pub open spec fn in_vehicle(r: (int, int, int), usbc_dir: int, top_dir: int) -> (int, int, int) {
    let x = mounting::axis_x(usbc_dir, top_dir);
    let y = mounting::axis_y(usbc_dir, top_dir);
    let z = mounting::axis_z(usbc_dir, top_dir);
    (
        r.0 * x.0 + r.1 * y.0 + r.2 * z.0,
        r.0 * x.1 + r.1 * y.1 + r.2 * z.1,
        r.0 * x.2 + r.1 * y.2 + r.2 * z.2,
    )
}

/// The number itself, but a zero with the sign of `own` where that is zero, too.
pub open spec fn signed_as(number: Binary32, own: Binary32) -> Binary32 {
    if own.equals(number) {
        own
    } else {
        number
    }
}

/// A reading in vehicle coordinates.
///
/// A zero to the right or to the front has the sign that it has along the sensor's own
/// x or y axis, negated, where that is zero, too.
pub open spec fn projected(raw: Seq<u8>, usbc_dir: int, top_dir: int) -> Acceleration {
    let a = Acceleration::of_ints(in_vehicle(reading(raw), usbc_dir, top_dir));
    let own = along_own_axes(raw, usbc_dir, top_dir);
    Acceleration {
        lat: signed_as(a.lat, own.lat),
        long: signed_as(a.long, own.long),
        vert: a.vert,
    }
}

/// A reading projected onto the sensor's own axes, x and y negated. These are vehicle
/// coordinates of every reading only where the label is up and the port to the front or
/// to the rear.
pub open spec fn along_own_axes(raw: Seq<u8>, usbc_dir: int, top_dir: int) -> Acceleration {
    let vector = Vec3::of_ints(reading(raw));
    let (x_s, y_s, z_s) = mounting::basis(usbc_dir, top_dir);
    Acceleration {
        lat: vector.dot_product(x_s).negation(),
        long: vector.dot_product(y_s).negation(),
        vert: vector.dot_product(z_s),
    }
}

impl Acceleration {
    /// The acceleration with integer components.
    ///
    /// A component to the right or to the front that is zero has a negative sign.
    pub open spec fn of_ints(v: (int, int, int)) -> Acceleration {
        Acceleration {
            lat: Binary32::of_int(-v.0).negation(),
            long: Binary32::of_int(-v.1).negation(),
            vert: Binary32::of_int(v.2),
        }
    }

    /// Whether the components are these integers.
    pub open spec fn is_ints(self, v: (int, int, int)) -> bool {
        self.lat.is_int(v.0) && self.long.is_int(v.1) && self.vert.is_int(v.2)
    }

    /// The arguments of the arctangents for this acceleration.
    pub open spec fn inclination(self) -> Arctangents {
        Arctangents {
            pitch_y: self.long,
            pitch_x_squared: self.lat.product(self.lat).sum(self.vert.product(self.vert)),
            roll_y: self.lat,
            roll_x: self.vert,
        }
    }
}

/// An angle in radians as it is shown: in degrees, less the offset.
pub open spec fn shown(radians: Binary32, offset: Binary32) -> Binary32 {
    radians.product(Binary32 { bits: RAD_TO_DEG }).difference(offset)
}

/// The angles that are shown for two arctangents, if the mounting is valid.
pub open spec fn shown_angles(
    pitch_radians: Binary32,
    roll_radians: Binary32,
    config: DeviceConfig,
) -> Option<Angles> {
    if mounting::is_mounting(config.usbc_dir as int, config.top_dir as int) {
        Some(
            Angles {
                pitch: shown(pitch_radians, config.pitch_offset),
                roll: shown(roll_radians, config.roll_offset),
            },
        )
    } else {
        None
    }
}

/// The integer that is the dot product of a reading and a vector of signs.
fn whole_dot(
    vector: Vec3,
    signs: Vec3,
    Ghost(a): Ghost<(int, int, int)>,
    Ghost(b): Ghost<(int, int, int)>,
) -> (r: Binary32)
    requires
        vector.is_ints(a),
        signs.is_ints(b),
        vec3::within(a, 0x8000),
        vec3::within(b, 1),
    ensures
        r == Binary32::of_int(vec3::int_dot(a, b)),
{
    let dot = vector.dot(signs);
    proof {
        vector.lemma_dot_ints(signs, a, b);
        dot.lemma_plus_zero(vec3::int_dot(a, b));
    }
    dot.plus(Binary32 { bits: 0 })
}

/// The number itself, but a zero with the sign of `own` where that is zero, too.
fn with_sign_of(number: Binary32, own: Binary32) -> (r: Binary32)
    ensures
        r == signed_as(number, own),
{
    if own == number {
        own
    } else {
        number
    }
}

/// Turn a raw accelerometer reading into vehicle coordinates.
/// There is no result where the mounting is invalid or non-orthogonal.
pub fn vehicle_acceleration(raw: &[u8; 6], config: &DeviceConfig) -> (r: Option<Acceleration>)
    ensures
        r is Some <==> mounting::is_mounting(config.usbc_dir as int, config.top_dir as int),
        r matches Some(a) ==> {
            let (usbc, top) = (config.usbc_dir as int, config.top_dir as int);
            &&& a == projected(raw@, usbc, top)
            &&& a.is_ints(in_vehicle(reading(raw@), usbc, top))
        },
{
    let (x_s, y_s, z_s) = match compute_basis_vectors(config.usbc_dir, config.top_dir) {
        Some(vectors) => vectors,
        None => return None,
    };
    let vector = Vec3::from_i16(read_le_i16(raw, 0), read_le_i16(raw, 2), read_le_i16(raw, 4));
    let to_left = Vec3::new(x_s.x.negated(), y_s.x.negated(), z_s.x.negated());
    let to_rear = Vec3::new(x_s.y.negated(), y_s.y.negated(), z_s.y.negated());
    let up = Vec3::new(x_s.z, y_s.z, z_s.z);
    let ghost (usbc, top) = (config.usbc_dir as int, config.top_dir as int);
    let ghost a = reading(raw@);
    let ghost x = mounting::axis_x(usbc, top);
    let ghost y = mounting::axis_y(usbc, top);
    let ghost z = mounting::axis_z(usbc, top);
    proof {
        mounting::lemma_axes_are_units(usbc, top);
        x_s.x.lemma_negation_int(x.0);
        y_s.x.lemma_negation_int(y.0);
        z_s.x.lemma_negation_int(z.0);
        x_s.y.lemma_negation_int(x.1);
        y_s.y.lemma_negation_int(y.1);
        z_s.y.lemma_negation_int(z.1);
        lemma_opposite_dot(a, (x.0, y.0, z.0));
        lemma_opposite_dot(a, (x.1, y.1, z.1));
        law_projection_exact(raw@, usbc, top);
    }
    let left: Binary32 = whole_dot(vector, to_left, Ghost(a), Ghost((-x.0, -y.0, -z.0)));
    let rear: Binary32 = whole_dot(vector, to_rear, Ghost(a), Ghost((-x.1, -y.1, -z.1)));
    let vert: Binary32 = whole_dot(vector, up, Ghost(a), Ghost((x.2, y.2, z.2)));
    Some(
        Acceleration {
            lat: with_sign_of(left.negated(), vector.dot(x_s).negated()),
            long: with_sign_of(rear.negated(), vector.dot(y_s).negated()),
            vert,
        },
    )
}

/// The arguments of the arctangents for a raw accelerometer reading.
pub fn arctangents(raw: &[u8; 6], config: &DeviceConfig) -> (r: Option<Arctangents>)
    ensures
        r == if mounting::is_mounting(config.usbc_dir as int, config.top_dir as int) {
            Some(
                projected(raw@, config.usbc_dir as int, config.top_dir as int).inclination(),
            )
        } else {
            None
        },
{
    match vehicle_acceleration(raw, config) {
        Some(a) => Some(
            Arctangents {
                pitch_y: a.long,
                pitch_x_squared: a.lat.times(a.lat).plus(a.vert.times(a.vert)),
                roll_y: a.lat,
                roll_x: a.vert,
            },
        ),
        None => None,
    }
}

/// Pitch and roll angles from the two arctangents, with tare offset applied.
/// Returns `None` if the mounting configuration is invalid or non-orthogonal.
pub fn calculate_angles(
    pitch_radians: Binary32,
    roll_radians: Binary32,
    config: &DeviceConfig,
) -> (r: Option<Angles>)
    ensures
        r == shown_angles(pitch_radians, roll_radians, *config),
{
    match compute_basis_vectors(config.usbc_dir, config.top_dir) {
        Some(_) => {
            let rad_to_deg = Binary32 { bits: RAD_TO_DEG };
            Some(
                Angles {
                    pitch: pitch_radians.times(rad_to_deg).minus(config.pitch_offset),
                    roll: roll_radians.times(rad_to_deg).minus(config.roll_offset),
                },
            )
        },
        None => None,
    }
}

impl Angles {
    /// The angles as they are sent: pitch, then roll, least significant byte first.
    pub fn to_bytes(&self) -> (r: [u8; 8])
        ensures
            bytes::le32(r@, 0) == self.pitch.bits,
            bytes::le32(r@, 4) == self.roll.bits,
    {
        let mut sent: [u8; 8] = [0u8;8];
        put_le32(&mut sent, 0, self.pitch.bits);
        put_le32(&mut sent, 4, self.roll.bits);
        sent
    }
}

/// Angles compare by value.
impl PartialEq for Angles {
    fn eq(&self, other: &Angles) -> (r: bool) {
        self.pitch == other.pitch && self.roll == other.roll
    }
}

impl vstd::std_specs::cmp::PartialEqSpecImpl for Angles {
    open spec fn obeys_eq_spec() -> bool {
        true
    }

    open spec fn eq_spec(&self, other: &Angles) -> bool {
        self.pitch.equals(other.pitch) && self.roll.equals(other.roll)
    }
}

/// A component of a reading in vehicle coordinates, and its opposite.
proof fn lemma_opposite_dot(a: (int, int, int), b: (int, int, int))
    ensures
        vec3::int_dot(a, vec3::int_opposite(b)) == -vec3::int_dot(a, b),
{
    assert(a.0 * (-b.0) == -(a.0 * b.0)) by (nonlinear_arith);
    assert(a.1 * (-b.1) == -(a.1 * b.1)) by (nonlinear_arith);
    assert(a.2 * (-b.2) == -(a.2 * b.2)) by (nonlinear_arith);
}

/// The components of a reading in vehicle coordinates are small.
proof fn lemma_in_vehicle_small(raw: Seq<u8>, usbc_dir: int, top_dir: int)
    requires
        raw.len() == 6,
        mounting::is_mounting(usbc_dir, top_dir),
    ensures
        vec3::within(in_vehicle(reading(raw), usbc_dir, top_dir), 0x1_8000),
{
    let a = reading(raw);
    let x = mounting::axis_x(usbc_dir, top_dir);
    let y = mounting::axis_y(usbc_dir, top_dir);
    let z = mounting::axis_z(usbc_dir, top_dir);
    mounting::lemma_axes_are_units(usbc_dir, top_dir);
    vec3::lemma_int_dot_small(a, (x.0, y.0, z.0));
    vec3::lemma_int_dot_small(a, (x.1, y.1, z.1));
    vec3::lemma_int_dot_small(a, (x.2, y.2, z.2));
}

/// A reading is turned into vehicle coordinates without rounding.
pub proof fn law_projection_exact(raw: Seq<u8>, usbc_dir: int, top_dir: int)
    requires
        raw.len() == 6,
        mounting::is_mounting(usbc_dir, top_dir),
    ensures
        projected(raw, usbc_dir, top_dir).is_ints(in_vehicle(reading(raw), usbc_dir, top_dir)),
{
    let v = in_vehicle(reading(raw), usbc_dir, top_dir);
    let w = along_axes(reading(raw), usbc_dir, top_dir);
    let a = Acceleration::of_ints(v);
    let own = along_own_axes(raw, usbc_dir, top_dir);
    lemma_in_vehicle_small(raw, usbc_dir, top_dir);
    Binary32::lemma_of_int(-v.0);
    Binary32::lemma_of_int(-v.1);
    Binary32::lemma_of_int(v.2);
    Binary32::of_int(-v.0).lemma_negation_int(-v.0);
    Binary32::of_int(-v.1).lemma_negation_int(-v.1);
    lemma_own_axes(raw, usbc_dir, top_dir);
    own.lat.lemma_eq_int(a.lat, -w.0, v.0);
    own.long.lemma_eq_int(a.long, -w.1, v.1);
}

/// Projecting a reading onto the sensor's own axes is exact.
proof fn lemma_own_axes(raw: Seq<u8>, usbc_dir: int, top_dir: int)
    requires
        raw.len() == 6,
        mounting::is_mounting(usbc_dir, top_dir),
    ensures
        ({
            let w = along_axes(reading(raw), usbc_dir, top_dir);
            along_own_axes(raw, usbc_dir, top_dir).is_ints((-w.0, -w.1, w.2))
        }),
{
    let a = reading(raw);
    let (u, t) = (mounting::direction(usbc_dir), mounting::direction(top_dir));
    let w = along_axes(a, usbc_dir, top_dir);
    let vector = Vec3::of_ints(a);
    let (usbc, top) = (Vec3::of_ints(u), Vec3::of_ints(t));
    Vec3::lemma_of_ints(a);
    Vec3::lemma_of_ints(u);
    Vec3::lemma_of_ints(t);
    usbc.lemma_opposite_ints(u);
    usbc.lemma_cross_ints(top, u, t);
    mounting::lemma_axes_are_units(usbc_dir, top_dir);
    vector.lemma_dot_ints(usbc.opposite(), a, mounting::axis_x(usbc_dir, top_dir));
    vector.lemma_dot_ints(usbc.cross_product(top), a, mounting::axis_y(usbc_dir, top_dir));
    vector.lemma_dot_ints(top, a, mounting::axis_z(usbc_dir, top_dir));
    vector.dot_product(usbc.opposite()).lemma_negation_int(w.0);
    vector.dot_product(usbc.cross_product(top)).lemma_negation_int(w.1);
}

/// With the label up and the port to the front or to the rear, vehicle coordinates are
/// read off the sensor's own axes, x and y negated, to the bit.
pub proof fn law_upright_mounting(raw: Seq<u8>, usbc_dir: int)
    requires
        raw.len() == 6,
        usbc_dir == 1 || usbc_dir == 2,
    ensures
        projected(raw, usbc_dir, 5) == along_own_axes(raw, usbc_dir, 5),
{
    let r = reading(raw);
    let v = in_vehicle(r, usbc_dir, 5);
    let w = along_axes(r, usbc_dir, 5);
    let a = Acceleration::of_ints(v);
    let own = along_own_axes(raw, usbc_dir, 5);
    mounting::lemma_unit_products();
    lemma_signs();
    law_projection_exact(raw, usbc_dir, 5);
    lemma_in_vehicle_small(raw, usbc_dir, 5);
    lemma_own_axes(raw, usbc_dir, 5);
    Binary32::lemma_of_int(-v.0);
    Binary32::lemma_of_int(-v.1);
    Binary32::of_int(-v.0).lemma_negation_int(-v.0);
    Binary32::of_int(-v.1).lemma_negation_int(-v.1);
    own.lat.lemma_eq_int(a.lat, -w.0, v.0);
    own.long.lemma_eq_int(a.long, -w.1, v.1);
    lemma_upright_vertical(raw, usbc_dir);
}

/// The z axis of a sensor with its label up reads a zero as a positive one.
proof fn lemma_upright_vertical(raw: Seq<u8>, usbc_dir: int)
    requires
        raw.len() == 6,
        mounting::is_mounting(usbc_dir, 5),
    ensures
        along_own_axes(raw, usbc_dir, 5).vert == Binary32::of_int(reading(raw).2),
{
    let r = reading(raw);
    let vector = Vec3::of_ints(r);
    let up = Vec3::of_ints((0, 0, 1));
    Vec3::lemma_of_ints(r);
    Vec3::lemma_of_ints((0, 0, 1));
    lemma_signs();
    vector.x.lemma_product_int(up.x, r.0, 0);
    vector.y.lemma_product_int(up.y, r.1, 0);
    vector.z.lemma_product_int(up.z, r.2, 1);
    let (p, q, s) = (
        vector.x.product(up.x),
        vector.y.product(up.y),
        vector.z.product(up.z),
    );
    p.lemma_sum_int(q, 0, 0);
    p.sum(q).lemma_sum_int(s, 0, r.2);
    if r.2 == 0 {
        Binary32::lemma_unsigned(0);
        Binary32::lemma_unsigned(1);
        vector.z.lemma_product_unsigned(up.z);
        p.sum(q).lemma_zero_sum_unsigned(s);
    }
    p.sum(q).sum(s).lemma_int_bits(r.2);
}

/// Products with a sign.
proof fn lemma_signs()
    ensures
        forall|m: int, n: int|
            -1 <= n <= 1 ==> #[trigger] (m * n) == if n == 0 {
                0int
            } else if n == 1 {
                m
            } else {
                -m
            },
{
    assert forall|m: int, n: int| -1 <= n <= 1 implies #[trigger] (m * n) == if n == 0 {
        0int
    } else if n == 1 {
        m
    } else {
        -m
    } by {
        assert(n == -1 || n == 0 || n == 1);
        assert(m * -1 == -m && m * 0 == 0 && m * 1 == m);
    }
}

/// In every mounting, what the sensor reads of an acceleration of the vehicle gives the
/// acceleration back, and no reading is lost.
pub proof fn law_rotation_undone(v: (int, int, int), usbc_dir: int, top_dir: int)
    requires
        mounting::is_mounting(usbc_dir, top_dir),
    ensures
        in_vehicle(along_axes(v, usbc_dir, top_dir), usbc_dir, top_dir) == v,
        along_axes(in_vehicle(v, usbc_dir, top_dir), usbc_dir, top_dir) == v,
{
    mounting::lemma_axis_y(usbc_dir, top_dir);
    mounting::lemma_unit_products();
    lemma_signs();
}

/// In every mounting the vehicle's acceleration is found from what the sensor reads of it.
pub proof fn law_acceleration_recovered(
    raw: Seq<u8>,
    v: (int, int, int),
    usbc_dir: int,
    top_dir: int,
)
    requires
        raw.len() == 6,
        mounting::is_mounting(usbc_dir, top_dir),
        reading(raw) == along_axes(v, usbc_dir, top_dir),
    ensures
        projected(raw, usbc_dir, top_dir).is_ints(v),
{
    law_projection_exact(raw, usbc_dir, top_dir);
    law_rotation_undone(v, usbc_dir, top_dir);
}

/// The length of an acceleration is kept, whatever the mounting.
pub proof fn law_projection_keeps_length(r: (int, int, int), usbc_dir: int, top_dir: int)
    requires
        mounting::is_mounting(usbc_dir, top_dir),
    ensures
        ({
            let v = in_vehicle(r, usbc_dir, top_dir);
            vec3::int_dot(v, v) == vec3::int_dot(r, r)
        }),
{
    mounting::lemma_axis_y(usbc_dir, top_dir);
    mounting::lemma_unit_products();
    lemma_signs();
    assert((-r.0) * (-r.0) == r.0 * r.0) by (nonlinear_arith);
    assert((-r.1) * (-r.1) == r.1 * r.1) by (nonlinear_arith);
    assert((-r.2) * (-r.2) == r.2 * r.2) by (nonlinear_arith);
}

/// A vehicle that stands level and still is measured as level in every mounting: only
/// gravity is left, straight up, and nothing for the arctangents to measure.
pub proof fn law_level_vehicle(raw: Seq<u8>, g: int, usbc_dir: int, top_dir: int)
    requires
        raw.len() == 6,
        mounting::is_mounting(usbc_dir, top_dir),
        reading(raw) == along_axes((0, 0, g), usbc_dir, top_dir),
    ensures
        ({
            let args = projected(raw, usbc_dir, top_dir).inclination();
            &&& args.pitch_y.is_int(0)
            &&& args.roll_y.is_int(0)
            &&& args.roll_x.is_int(g)
        }),
{
    law_acceleration_recovered(raw, (0, 0, g), usbc_dir, top_dir);
}

/// The angles are the vehicle's and do not depend on how the sensor is mounted: readings
/// of one acceleration in two mountings give equal arguments. Only the first arguments
/// can differ at all, in the sign of a zero, and so a roll of 180 degrees in its sign.
pub proof fn law_mounting_independent(
    raw: Seq<u8>,
    usbc_dir: int,
    top_dir: int,
    raw2: Seq<u8>,
    usbc_dir2: int,
    top_dir2: int,
)
    requires
        raw.len() == 6,
        raw2.len() == 6,
        mounting::is_mounting(usbc_dir, top_dir),
        mounting::is_mounting(usbc_dir2, top_dir2),
        in_vehicle(reading(raw), usbc_dir, top_dir) == in_vehicle(
            reading(raw2),
            usbc_dir2,
            top_dir2,
        ),
    ensures
        ({
            let args = projected(raw, usbc_dir, top_dir).inclination();
            let args2 = projected(raw2, usbc_dir2, top_dir2).inclination();
            &&& args.pitch_y.equals(args2.pitch_y)
            &&& args.pitch_x_squared == args2.pitch_x_squared
            &&& args.roll_y.equals(args2.roll_y)
            &&& args.roll_x == args2.roll_x
        }),
{
    let v = in_vehicle(reading(raw), usbc_dir, top_dir);
    let a = projected(raw, usbc_dir, top_dir);
    let b = projected(raw2, usbc_dir2, top_dir2);
    law_projection_exact(raw, usbc_dir, top_dir);
    law_projection_exact(raw2, usbc_dir2, top_dir2);
    a.lat.lemma_eq_int(b.lat, v.0, v.0);
    a.long.lemma_eq_int(b.long, v.1, v.1);
    assert(a.lat.product(a.lat) == b.lat.product(b.lat));
}

/// Whatever the sensor reads, the arguments of the arctangents are finite, and the square
/// root is taken of a number that is not negative.
pub proof fn law_arguments_finite(raw: Seq<u8>, usbc_dir: int, top_dir: int)
    requires
        raw.len() == 6,
        mounting::is_mounting(usbc_dir, top_dir),
    ensures
        ({
            let args = projected(raw, usbc_dir, top_dir).inclination();
            &&& args.pitch_y.is_finite()
            &&& args.pitch_x_squared.is_finite()
            &&& !args.pitch_x_squared.is_negative()
            &&& args.roll_y.is_finite()
            &&& args.roll_x.is_finite()
        }),
{
    let a = projected(raw, usbc_dir, top_dir);
    let v = in_vehicle(reading(raw), usbc_dir, top_dir);
    law_projection_exact(raw, usbc_dir, top_dir);
    lemma_in_vehicle_small(raw, usbc_dir, top_dir);
    lemma_squares_small(a.lat, v.0, a.vert, v.2);
}

/// The sum of the squares of two small integers is finite.
proof fn lemma_squares_small(a: Binary32, m: int, b: Binary32, n: int)
    requires
        a.is_int(m),
        b.is_int(n),
        -0x1_8000 <= m <= 0x1_8000,
        -0x1_8000 <= n <= 0x1_8000,
    ensures
        a.product(a).sum(b.product(b)).is_finite(),
        !a.product(a).sum(b.product(b)).is_negative(),
{
    lemma_square_small(a, m);
    lemma_square_small(b, n);
    let (p, q) = (a.product(a), b.product(b));
    let (bound, above) = (161 * rounding::LEADING, 162 * rounding::LEADING);
    if p.code() < bound {
        rounding::lemma_magnitude_increases(p.code(), bound);
    }
    if q.code() < bound {
        rounding::lemma_magnitude_increases(q.code(), bound);
    }
    rounding::lemma_magnitude_next(p.code());
    rounding::lemma_magnitude_next(q.code());
    rounding::lemma_magnitude_of_significand(rounding::LEADING as int, 160);
    rounding::lemma_magnitude_of_significand(rounding::LEADING as int, 161);
    lemma_pow2_unfold(161);
    rounding::lemma_rounded_at_most(above, p.scaled() + q.scaled(), 1);
}

/// The square of a small integer is finite.
proof fn lemma_square_small(a: Binary32, n: int)
    requires
        a.is_int(n),
        -0x1_8000 <= n <= 0x1_8000,
    ensures
        a.product(a).code() <= 161 * rounding::LEADING,
        !a.product(a).is_negative(),
{
    let u = binary32::one();
    let bound = 161 * rounding::LEADING;
    let m = rounding::magnitude(a.code());
    rounding::lemma_magnitude_of_significand(rounding::LEADING as int, 160);
    lemma_pow2_pos(149);
    lemma2_to64();
    lemma_pow2_adds(11, 149);
    let top = rounding::magnitude(bound);
    assert(top == 0x4_0000_0000 * u);
    assert(n * n <= 0x4_0000_0000 && n * n >= 0) by (nonlinear_arith)
        requires
            -0x1_8000 <= n <= 0x1_8000,
    ;
    assert(m * m == (n * n) * (u * u)) by (nonlinear_arith)
        requires
            m == n * u || m == -(n * u),
    ;
    assert(0 <= (n * n) * (u * u) <= (0x4_0000_0000 * u) * u) by (nonlinear_arith)
        requires
            0 <= n * n <= 0x4_0000_0000,
            u > 0,
    ;
    rounding::lemma_rounded_at_most(bound, m * m, u);
}

/// Radians of at most `bound` are at most so many degrees.
proof fn lemma_degrees_within(radians: Binary32, bound: int, degrees: int)
    requires
        radians.code() <= bound < rounding::INFINITY,
        0 <= degrees < rounding::INFINITY,
        rounding::magnitude(bound) * rounding::magnitude(RAD_TO_DEG as int)
            <= rounding::magnitude(degrees) * binary32::one(),
    ensures
        radians.product(Binary32 { bits: RAD_TO_DEG }).code() <= degrees,
{
    let (m, top) = (rounding::magnitude(radians.code()), rounding::magnitude(bound));
    let factor = rounding::magnitude(RAD_TO_DEG as int);
    lemma_pow2_pos(149);
    rounding::lemma_magnitude_next(radians.code());
    rounding::lemma_magnitude_next(RAD_TO_DEG as int);
    if radians.code() < bound {
        rounding::lemma_magnitude_increases(radians.code(), bound);
    }
    assert(0 <= m * factor <= top * factor) by (nonlinear_arith)
        requires
            0 <= m <= top,
            factor >= 0,
    ;
    rounding::lemma_rounded_at_most(degrees, m * factor, binary32::one());
}

/// The arctangents in degrees: at most a half turn, and a quarter turn for pitch.
proof fn lemma_degrees(radians: Binary32)
    ensures
        radians.code() <= PI ==> {
            let p = radians.product(Binary32 { bits: RAD_TO_DEG });
            p.is_finite() && -180 * binary32::one() <= p.scaled() <= 180 * binary32::one()
        },
        radians.code() <= HALF_PI ==> {
            let p = radians.product(Binary32 { bits: RAD_TO_DEG });
            p.is_finite() && -90 * binary32::one() <= p.scaled() <= 90 * binary32::one()
        },
{
    let u = binary32::one();
    let (half_turn, quarter_turn) = (0x4334_0000int, 0x42B4_0000int);
    let p = radians.product(Binary32 { bits: RAD_TO_DEG });
    let (f, t, s) = (pow2(131) as int, pow2(127) as int, pow2(126) as int);
    rounding::lemma_magnitude_of_significand(0xE5_2EE0, 131);
    rounding::lemma_magnitude_of_significand(0xC9_0FDB, 127);
    rounding::lemma_magnitude_of_significand(0xC9_0FDB, 126);
    rounding::lemma_magnitude_of_significand(0xB4_0000, 133);
    rounding::lemma_magnitude_of_significand(0xB4_0000, 132);
    lemma2_to64();
    lemma_pow2_pos(258);
    lemma_pow2_pos(257);
    lemma_pow2_adds(127, 131);
    lemma_pow2_adds(126, 131);
    lemma_pow2_adds(133, 16);
    lemma_pow2_adds(132, 17);
    lemma_pow2_adds(133, 125);
    lemma_pow2_adds(149, 109);
    lemma_pow2_adds(24, 125);
    lemma_pow2_adds(132, 125);
    rounding::lemma_magnitude_next(p.code());
    let (c, d) = (pow2(258) as int, pow2(257) as int);
    let (h, q, w) = (pow2(133) as int, pow2(132) as int, pow2(125) as int);
    assert((0xC9_0FDB * t) * (0xE5_2EE0 * f) <= (0xB4_0000 * h) * u) by (nonlinear_arith)
        requires
            t * f == c,
            h * w == c,
            u == 0x100_0000 * w,
            c > 0,
    {
        assert((0xC9_0FDB * t) * (0xE5_2EE0 * f) == (0xC9_0FDB * 0xE5_2EE0) * (t * f));
        assert((0xB4_0000 * h) * (0x100_0000 * w) == (0xB4_0000 * 0x100_0000) * (h * w));
    }
    assert((0xC9_0FDB * s) * (0xE5_2EE0 * f) <= (0xB4_0000 * q) * u) by (nonlinear_arith)
        requires
            s * f == d,
            q * w == d,
            u == 0x100_0000 * w,
            d > 0,
    {
        assert((0xC9_0FDB * s) * (0xE5_2EE0 * f) == (0xC9_0FDB * 0xE5_2EE0) * (s * f));
        assert((0xB4_0000 * q) * (0x100_0000 * w) == (0xB4_0000 * 0x100_0000) * (q * w));
    }
    if radians.code() <= PI {
        lemma_degrees_within(radians, PI as int, half_turn);
        if p.code() < half_turn {
            rounding::lemma_magnitude_increases(p.code(), half_turn);
        }
    }
    if radians.code() <= HALF_PI {
        lemma_degrees_within(radians, HALF_PI as int, quarter_turn);
        if p.code() < quarter_turn {
            rounding::lemma_magnitude_increases(p.code(), quarter_turn);
        }
    }
}

/// Taking away a zero does not change a value.
proof fn lemma_less_zero(number: Binary32, zero: Binary32)
    requires
        number.is_finite(),
        zero.is_int(0),
    ensures
        number.difference(zero).is_finite(),
        number.difference(zero).scaled() == number.scaled(),
{
    let code = number.code();
    zero.lemma_negation_int(0);
    assert(0 * binary32::one() == 0) by (nonlinear_arith);
    assert(rounding::magnitude(0) == 0);
    rounding::lemma_magnitude_next(code);
    rounding::lemma_rounded_exact(code, 1);
}

/// With no offsets set, pitch is within a quarter turn and roll within a half turn.
pub proof fn law_angles_in_range(
    pitch_radians: Binary32,
    roll_radians: Binary32,
    config: DeviceConfig,
)
    requires
        pitch_radians.code() <= HALF_PI,
        roll_radians.code() <= PI,
        mounting::is_mounting(config.usbc_dir as int, config.top_dir as int),
        config.pitch_offset.is_int(0),
        config.roll_offset.is_int(0),
    ensures
        shown_angles(pitch_radians, roll_radians, config) matches Some(a) && {
            &&& a.pitch.is_finite()
            &&& a.roll.is_finite()
            &&& -90 * binary32::one() <= a.pitch.scaled() <= 90 * binary32::one()
            &&& -180 * binary32::one() <= a.roll.scaled() <= 180 * binary32::one()
        },
{
    let factor = Binary32 { bits: RAD_TO_DEG };
    lemma_degrees(pitch_radians);
    lemma_degrees(roll_radians);
    lemma_less_zero(pitch_radians.product(factor), config.pitch_offset);
    lemma_less_zero(roll_radians.product(factor), config.roll_offset);
}

/// With the angles that are shown without offsets as the offsets, the same reading shows
/// zero.
pub proof fn law_zero_reference(
    pitch_radians: Binary32,
    roll_radians: Binary32,
    start: DeviceConfig,
    config: DeviceConfig,
)
    requires
        pitch_radians.code() <= PI,
        roll_radians.code() <= PI,
        mounting::is_mounting(start.usbc_dir as int, start.top_dir as int),
        start.pitch_offset.is_int(0),
        start.roll_offset.is_int(0),
        config.usbc_dir == start.usbc_dir,
        config.top_dir == start.top_dir,
        shown_angles(pitch_radians, roll_radians, start) == Some(
            (Angles { pitch: config.pitch_offset, roll: config.roll_offset }),
        ),
    ensures
        shown_angles(pitch_radians, roll_radians, config) matches Some(a) && {
            &&& a.pitch.is_int(0)
            &&& a.roll.is_int(0)
        },
{
    lemma_zero_shown(pitch_radians, start.pitch_offset, config.pitch_offset);
    lemma_zero_shown(roll_radians, start.roll_offset, config.roll_offset);
}

proof fn lemma_zero_shown(radians: Binary32, zero: Binary32, offset: Binary32)
    requires
        radians.code() <= PI,
        zero.is_int(0),
        offset == shown(radians, zero),
    ensures
        shown(radians, offset).is_int(0),
{
    let degrees = radians.product(Binary32 { bits: RAD_TO_DEG });
    lemma_degrees(radians);
    lemma_less_zero(degrees, zero);
    lemma_equal_difference(degrees, offset);
}

/// The difference of equal values is zero.
proof fn lemma_equal_difference(a: Binary32, b: Binary32)
    requires
        a.is_finite(),
        b.is_finite(),
        a.scaled() == b.scaled(),
    ensures
        a.difference(b).is_int(0),
{
    let opposite = b.negation();
    assert(opposite.code() == b.code() && opposite.is_negative() == !b.is_negative());
    assert(opposite.scaled() == -b.scaled());
    assert(a.sum(opposite).code() == 0);
    assert(rounding::magnitude(0) == 0);
    assert(0 * binary32::one() == 0) by (nonlinear_arith);
}

/// At an angle of zero what is shown is the offset, negated.
pub proof fn law_offset_shown(radians: Binary32, offset: Binary32)
    requires
        radians.is_int(0),
        offset.is_finite(),
    ensures
        shown(radians, offset).is_finite(),
        shown(radians, offset).scaled() == -offset.scaled(),
{
    let factor = Binary32 { bits: RAD_TO_DEG };
    let (m, n) = (rounding::magnitude(radians.code()), rounding::magnitude(factor.code()));
    lemma_pow2_pos(149);
    assert(rounding::magnitude(0) == 0);
    assert(0 * binary32::one() == 0) by (nonlinear_arith);
    assert(m * n == 0) by (nonlinear_arith)
        requires
            m == 0,
    ;
    rounding::lemma_rounded_exact(0, binary32::one());
    rounding::lemma_magnitude_next(offset.code());
    rounding::lemma_rounded_exact(offset.code(), 1);
}

/// Arctangents of zero, as of a level vehicle, are shown as zero where no offsets are set.
pub proof fn law_level_shown(
    pitch_radians: Binary32,
    roll_radians: Binary32,
    config: DeviceConfig,
)
    requires
        pitch_radians.is_int(0),
        roll_radians.is_int(0),
        mounting::is_mounting(config.usbc_dir as int, config.top_dir as int),
        config.pitch_offset.is_int(0),
        config.roll_offset.is_int(0),
    ensures
        shown_angles(pitch_radians, roll_radians, config) matches Some(a) && {
            &&& a.pitch.is_int(0)
            &&& a.roll.is_int(0)
        },
{
    law_offset_shown(pitch_radians, config.pitch_offset);
    law_offset_shown(roll_radians, config.roll_offset);
    assert(0 * binary32::one() == 0) by (nonlinear_arith);
}

/// The degrees in a radian are 180 divided by pi, rounded.
pub proof fn law_degrees_in_radian()
    ensures
        ({
            let half_turn = Binary32::of_int(180);
            let pi = Binary32 { bits: PI };
            RAD_TO_DEG == rounding::rounded(half_turn.scaled() * binary32::one(), pi.scaled())
        }),
{
    Binary32::lemma_of_int(180);
    let unit = pow2(149) as int;
    let (a, b, c) = (pow2(131) as int, pow2(127) as int, pow2(258) as int);
    let pi = Binary32 { bits: PI };
    lemma_pow2_pos(127);
    lemma_pow2_pos(258);
    lemma_pow2_adds(131, 127);
    lemma_pow2_adds(149, 149);
    lemma_pow2_adds(258, 40);
    lemma2_to64();
    lemma2_to64_rest();
    rounding::lemma_magnitude_of_significand(0xE5_2EDF, 131);
    rounding::lemma_magnitude_of_significand(0xE5_2EE0, 131);
    rounding::lemma_magnitude_of_significand(0xE5_2EE1, 131);
    rounding::lemma_magnitude_of_significand(0xC9_0FDB, 127);
    let num = Binary32::of_int(180).scaled() * unit;
    let den = pi.scaled();
    assert(num == 180 * 0x100_0000_0000 * c) by (nonlinear_arith)
        requires
            num == (180 * unit) * unit,
            unit * unit == c * 0x100_0000_0000,
    ;
    assert(den > 0) by (nonlinear_arith)
        requires
            den == 0xC9_0FDB * b,
            b > 0,
    ;
    assert((0xE5_2EDF * a + 0xE5_2EE0 * a) * den == (0xE5_2EDF + 0xE5_2EE0) * 0xC9_0FDB * c)
        by (nonlinear_arith)
        requires
            den == 0xC9_0FDB * b,
            a * b == c,
    ;
    assert((0xE5_2EE0 * a + 0xE5_2EE1 * a) * den == (0xE5_2EE0 + 0xE5_2EE1) * 0xC9_0FDB * c)
        by (nonlinear_arith)
        requires
            den == 0xC9_0FDB * b,
            a * b == c,
    ;
    let low = (0xE5_2EDF + 0xE5_2EE0) * 0xC9_0FDB * c;
    let high = (0xE5_2EE0 + 0xE5_2EE1) * 0xC9_0FDB * c;
    assert(low < 2 * num < high) by (nonlinear_arith)
        requires
            num == 180 * 0x100_0000_0000 * c,
            low == (0xE5_2EDF + 0xE5_2EE0) * 0xC9_0FDB * c,
            high == (0xE5_2EE0 + 0xE5_2EE1) * 0xC9_0FDB * c,
            c > 0,
    ;
    rounding::lemma_rounds_to_one(RAD_TO_DEG as int, num, den);
}

/// Angles are sent as their bits, pitch before roll, least significant byte first.
pub proof fn law_angles_sent(angles: &Angles, r: [u8; 8])
    requires
        call_ensures(Angles::to_bytes, (angles,), r),
    ensures
        ({
            let holds = |at: int, bits: u32|
                {
                    &&& r@[at] == bits & 0xFF
                    &&& r@[at + 1] == (bits >> 8) & 0xFF
                    &&& r@[at + 2] == (bits >> 16) & 0xFF
                    &&& r@[at + 3] == bits >> 24
                };
            holds(0, angles.pitch.bits) && holds(4, angles.roll.bits)
        }),
{
    bytes::law_bytes_of_32(r@, 0, angles.pitch.bits);
    bytes::law_bytes_of_32(r@, 4, angles.roll.bits);
}

/// Angles are equal exactly where pitch and roll have the same values.
pub proof fn law_equal_angles(a: Angles, b: Angles)
    ensures
        vstd::std_specs::cmp::PartialEqSpec::eq_spec(&a, &b) <==> {
            &&& arithmetic::same_value(a.pitch, b.pitch)
            &&& arithmetic::same_value(a.roll, b.roll)
        },
{
    arithmetic::law_equal_values(a.pitch, b.pitch);
    arithmetic::law_equal_values(a.roll, b.roll);
}

/// The acceleration is the sum of the sensor's axes, each as often as the sensor reads
/// along it. There is one exactly where there are axes.
pub proof fn law_acceleration(
    raw: &[u8; 6],
    config: &DeviceConfig,
    along: (i16, i16, i16),
    r: Option<Acceleration>,
    axes: Option<(Vec3, Vec3, Vec3)>,
)
    requires
        raw@[0] + 0x100 * raw@[1] == along.0 as int % 0x1_0000,
        raw@[2] + 0x100 * raw@[3] == along.1 as int % 0x1_0000,
        raw@[4] + 0x100 * raw@[5] == along.2 as int % 0x1_0000,
        call_ensures(vehicle_acceleration, (raw, config), r),
        call_ensures(compute_basis_vectors, (config.usbc_dir, config.top_dir), axes),
    ensures
        r is Some <==> axes is Some,
        r is Some ==> {
            let a = r->0;
            let (x, y, z) = axes->0;
            &&& a.lat.is_finite() && a.lat.scaled() == along.0 * x.x.scaled() + along.1
                * y.x.scaled() + along.2 * z.x.scaled()
            &&& a.long.is_finite() && a.long.scaled() == along.0 * x.y.scaled() + along.1
                * y.y.scaled() + along.2 * z.y.scaled()
            &&& a.vert.is_finite() && a.vert.scaled() == along.0 * x.z.scaled() + along.1
                * y.z.scaled() + along.2 * z.z.scaled()
        },
{
    lemma_signed(along.0 as int);
    lemma_signed(along.1 as int);
    lemma_signed(along.2 as int);
    let n = (along.0 as int, along.1 as int, along.2 as int);
    assert(reading(raw@) == n);
    if r is Some {
        let (usbc, top) = (config.usbc_dir as int, config.top_dir as int);
        let x = mounting::axis_x(usbc, top);
        let y = mounting::axis_y(usbc, top);
        let z = mounting::axis_z(usbc, top);
        lemma_scaled_sum(n, (x.0, y.0, z.0));
        lemma_scaled_sum(n, (x.1, y.1, z.1));
        lemma_scaled_sum(n, (x.2, y.2, z.2));
    }
}

proof fn lemma_signed(n: int)
    requires
        -0x8000 <= n < 0x8000,
    ensures
        bytes::signed16(n % 0x1_0000) == n,
{
}

proof fn lemma_scaled_sum(n: (int, int, int), b: (int, int, int))
    ensures
        (n.0 * b.0 + n.1 * b.1 + n.2 * b.2) * binary32::one() == n.0 * (b.0 * binary32::one()) + n.1
            * (b.1 * binary32::one()) + n.2 * (b.2 * binary32::one()),
{
    let u = binary32::one();
    let (p, q, r) = (n.0 * b.0, n.1 * b.1, n.2 * b.2);
    assert((p + q + r) * u == p * u + q * u + r * u) by (nonlinear_arith);
    assert((n.0 * b.0) * u == n.0 * (b.0 * u)) by (nonlinear_arith);
    assert((n.1 * b.1) * u == n.1 * (b.1 * u)) by (nonlinear_arith);
    assert((n.2 * b.2) * u == n.2 * (b.2 * u)) by (nonlinear_arith);
}

/// Signs of zeros: a zero to the right or to the front is that of the reading along the
/// sensor's x or y axis, negated, where that is zero, and else a negative one. A vertical
/// zero has no sign. With the label up and the port to the front or to the rear, all
/// components are those along the sensor's axes, x and y negated.
pub proof fn law_acceleration_bits(
    raw: &[u8; 6],
    config: &DeviceConfig,
    along: (i16, i16, i16),
    r: Option<Acceleration>,
    x_s: Vec3,
    y_s: Vec3,
    z_s: Vec3,
    vector: Vec3,
    x: Binary32,
    y: Binary32,
    z: Binary32,
)
    requires
        raw@[0] + 0x100 * raw@[1] == along.0 as int % 0x1_0000,
        raw@[2] + 0x100 * raw@[3] == along.1 as int % 0x1_0000,
        raw@[4] + 0x100 * raw@[5] == along.2 as int % 0x1_0000,
        call_ensures(vehicle_acceleration, (raw, config), r),
        call_ensures(
            compute_basis_vectors,
            (config.usbc_dir, config.top_dir),
            Some((x_s, y_s, z_s)),
        ),
        call_ensures(Vec3::from_i16, (along.0, along.1, along.2), vector),
        call_ensures(Vec3::dot, (vector, x_s), x),
        call_ensures(Vec3::dot, (vector, y_s), y),
        call_ensures(Vec3::dot, (vector, z_s), z),
    ensures
        r is Some ==> {
            let a = r->0;
            &&& a.lat.scaled() == 0 ==> a.lat.bits == if x.scaled() == 0 {
                x.bits ^ 0x8000_0000
            } else {
                0x8000_0000
            }
            &&& a.long.scaled() == 0 ==> a.long.bits == if y.scaled() == 0 {
                y.bits ^ 0x8000_0000
            } else {
                0x8000_0000
            }
            &&& a.vert.scaled() == 0 ==> a.vert.bits == 0
            &&& config.top_dir == 5 && config.usbc_dir <= 2 ==> {
                &&& a.lat.bits == x.bits ^ 0x8000_0000
                &&& a.long.bits == y.bits ^ 0x8000_0000
                &&& a.vert == z
            }
        },
{
    lemma_signed(along.0 as int);
    lemma_signed(along.1 as int);
    lemma_signed(along.2 as int);
    let (usbc, top) = (config.usbc_dir as int, config.top_dir as int);
    assert(reading(raw@) == (along.0 as int, along.1 as int, along.2 as int));
    assert(along_own_axes(raw@, usbc, top) == (Acceleration {
        lat: x.negation(),
        long: y.negation(),
        vert: z,
    }));
    lemma_zero_component_bits(raw@, usbc, top);
    arithmetic::lemma_negation_bits(x);
    arithmetic::lemma_negation_bits(y);
    if top == 5 && usbc <= 2 {
        law_upright_mounting(raw@, usbc);
    }
}

/// The bits of the components that are zero.
proof fn lemma_zero_component_bits(raw: Seq<u8>, usbc_dir: int, top_dir: int)
    requires
        raw.len() == 6,
        mounting::is_mounting(usbc_dir, top_dir),
    ensures
        ({
            let a = projected(raw, usbc_dir, top_dir);
            let own = along_own_axes(raw, usbc_dir, top_dir);
            &&& a.lat.scaled() == 0 ==> a.lat.bits == if own.lat.scaled() == 0 {
                own.lat.bits
            } else {
                0x8000_0000
            }
            &&& a.long.scaled() == 0 ==> a.long.bits == if own.long.scaled() == 0 {
                own.long.bits
            } else {
                0x8000_0000
            }
            &&& a.vert.scaled() == 0 ==> a.vert.bits == 0
        }),
{
    let v = in_vehicle(reading(raw), usbc_dir, top_dir);
    let w = along_axes(reading(raw), usbc_dir, top_dir);
    let plain = Acceleration::of_ints(v);
    let a = projected(raw, usbc_dir, top_dir);
    let own = along_own_axes(raw, usbc_dir, top_dir);
    law_projection_exact(raw, usbc_dir, top_dir);
    lemma_own_axes(raw, usbc_dir, top_dir);
    lemma_in_vehicle_small(raw, usbc_dir, top_dir);
    lemma_zero_bits(a.lat, v.0, plain.lat, own.lat, -w.0);
    lemma_zero_bits(a.long, v.1, plain.long, own.long, -w.1);
    lemma_plain_zero_bits(v.2);
}

/// A zero that stands for an integer has no sign.
proof fn lemma_plain_zero_bits(n: int)
    requires
        -0x1_8000 <= n <= 0x1_8000,
    ensures
        Binary32::of_int(n).scaled() == 0 ==> Binary32::of_int(n).bits == 0,
{
    Binary32::lemma_of_int(n);
    lemma_zero_is_int(Binary32::of_int(n), n);
    if n == 0 {
        Binary32::lemma_unsigned(0);
        lemma_code_of_zero(Binary32::of_int(0));
    }
}

/// The bits of a component that is zero.
proof fn lemma_zero_bits(r: Binary32, n: int, plain: Binary32, own: Binary32, m: int)
    requires
        r.is_int(n),
        plain == Binary32::of_int(-n).negation(),
        own.is_int(m),
        r == signed_as(plain, own),
        -0x1_8000 <= n <= 0x1_8000,
    ensures
        r.scaled() == 0 ==> r.bits == if own.scaled() == 0 {
            own.bits
        } else {
            0x8000_0000
        },
{
    lemma_zero_is_int(r, n);
    lemma_zero_is_int(own, m);
    if n == 0 {
        Binary32::lemma_unsigned(0);
        Binary32::lemma_of_int(0);
        Binary32::of_int(0).lemma_negation_int(0);
        own.lemma_eq_int(plain, m, 0);
        lemma_code_of_zero(Binary32::of_int(0));
        lemma_code_of_zero(plain);
        arithmetic::lemma_negation_bits(Binary32::of_int(0));
    }
}

/// An integer whose value is zero is zero.
proof fn lemma_zero_is_int(a: Binary32, n: int)
    requires
        a.is_int(n),
    ensures
        a.scaled() == 0 <==> n == 0,
{
    lemma_pow2_pos(149);
    assert(n * binary32::one() == 0 <==> n == 0) by (nonlinear_arith)
        requires
            binary32::one() > 0,
    ;
}

proof fn lemma_code_of_zero(a: Binary32)
    requires
        a.is_int(0),
    ensures
        a.code() == 0,
{
    assert(0 * binary32::one() == 0) by (nonlinear_arith);
    assert(rounding::magnitude(0) == 0);
    if a.code() > 0 {
        rounding::lemma_magnitude_increases(0, a.code());
    }
}

/// Pitch is the arctangent of the acceleration to the front by the length of that in the
/// plane across, roll of the acceleration to the right by that upwards.
pub proof fn law_arguments(
    raw: &[u8; 6],
    config: &DeviceConfig,
    r: Option<Arctangents>,
    acceleration: Option<Acceleration>,
    lat_squared: Binary32,
    vert_squared: Binary32,
    sum: Binary32,
)
    requires
        call_ensures(arctangents, (raw, config), r),
        call_ensures(vehicle_acceleration, (raw, config), acceleration),
        call_ensures(
            Binary32::times,
            (acceleration->0.lat, acceleration->0.lat),
            lat_squared,
        ),
        call_ensures(
            Binary32::times,
            (acceleration->0.vert, acceleration->0.vert),
            vert_squared,
        ),
        call_ensures(Binary32::plus, (lat_squared, vert_squared), sum),
    ensures
        r is Some <==> acceleration is Some,
        r is Some ==> {
            &&& r->0.pitch_y == acceleration->0.long
            &&& r->0.pitch_x_squared == sum
            &&& r->0.roll_y == acceleration->0.lat
            &&& r->0.roll_x == acceleration->0.vert
        },
{
}

/// Each angle is its arctangent times the degrees in a radian, less its own offset. There
/// are angles exactly where there are axes.
pub proof fn law_angles(
    pitch_radians: Binary32,
    roll_radians: Binary32,
    config: &DeviceConfig,
    r: Option<Angles>,
    axes: Option<(Vec3, Vec3, Vec3)>,
    pitch_degrees: Binary32,
    roll_degrees: Binary32,
    pitch: Binary32,
    roll: Binary32,
)
    requires
        call_ensures(calculate_angles, (pitch_radians, roll_radians, config), r),
        call_ensures(compute_basis_vectors, (config.usbc_dir, config.top_dir), axes),
        call_ensures(
            Binary32::times,
            (pitch_radians, (Binary32 { bits: 0x4265_2EE0 })),
            pitch_degrees,
        ),
        call_ensures(
            Binary32::times,
            (roll_radians, (Binary32 { bits: 0x4265_2EE0 })),
            roll_degrees,
        ),
        call_ensures(Binary32::minus, (pitch_degrees, config.pitch_offset), pitch),
        call_ensures(Binary32::minus, (roll_degrees, config.roll_offset), roll),
    ensures
        r is Some <==> axes is Some,
        r is Some ==> r->0.pitch == pitch && r->0.roll == roll,
{
}

/// For every finite offset, of either sign, and every arctangent within a half turn, what
/// is shown is finite and nearest to the degrees minus the offset: no other number is
/// nearer.
pub proof fn law_offset_subtracted(
    pitch_radians: Binary32,
    roll_radians: Binary32,
    config: &DeviceConfig,
    r: Option<Angles>,
    pitch_degrees: Binary32,
    roll_degrees: Binary32,
    other: Binary32,
)
    requires
        pitch_radians.code() <= PI,
        roll_radians.code() <= PI,
        config.pitch_offset.is_finite(),
        config.roll_offset.is_finite(),
        call_ensures(calculate_angles, (pitch_radians, roll_radians, config), r),
        call_ensures(
            Binary32::times,
            (pitch_radians, (Binary32 { bits: 0x4265_2EE0 })),
            pitch_degrees,
        ),
        call_ensures(
            Binary32::times,
            (roll_radians, (Binary32 { bits: 0x4265_2EE0 })),
            roll_degrees,
        ),
        other.is_finite(),
    ensures
        r is Some ==> {
            let exact_pitch = pitch_degrees.scaled() - config.pitch_offset.scaled();
            let exact_roll = roll_degrees.scaled() - config.roll_offset.scaled();
            &&& r->0.pitch.is_finite()
            &&& r->0.roll.is_finite()
            &&& arithmetic::distance(r->0.pitch, exact_pitch, 1) <= arithmetic::distance(
                other,
                exact_pitch,
                1,
            )
            &&& arithmetic::distance(r->0.roll, exact_roll, 1) <= arithmetic::distance(
                other,
                exact_roll,
                1,
            )
            &&& exact_pitch != 0 ==> r->0.pitch.is_negative() == (exact_pitch < 0)
            &&& exact_roll != 0 ==> r->0.roll.is_negative() == (exact_roll < 0)
        },
{
    lemma_shown_finite(pitch_radians, config.pitch_offset);
    lemma_shown_finite(roll_radians, config.roll_offset);
    arithmetic::lemma_difference_nearest(pitch_degrees, config.pitch_offset, other);
    arithmetic::lemma_difference_nearest(roll_degrees, config.roll_offset, other);
}

/// A finite offset leaves an arctangent within a half turn finite.
proof fn lemma_shown_finite(radians: Binary32, offset: Binary32)
    requires
        radians.code() <= PI,
        offset.is_finite(),
    ensures
        radians.product(Binary32 { bits: RAD_TO_DEG }).is_finite(),
        shown(radians, offset).is_finite(),
{
    let degrees = radians.product(Binary32 { bits: RAD_TO_DEG });
    let top = rounding::INFINITY - 1;
    let (u, wide) = (binary32::one(), pow2(253) as int);
    lemma_degrees(radians);
    arithmetic::lemma_difference_nearest(degrees, offset, offset);
    rounding::lemma_magnitude_of_significand(2 * rounding::LEADING - 1, 253);
    rounding::lemma_magnitude_next(offset.code());
    if offset.code() < top {
        rounding::lemma_magnitude_increases(offset.code(), top);
    }
    lemma2_to64();
    lemma_pow2_pos(149);
    lemma_pow2_adds(149, 104);
    lemma_pow2_adds(10, 94);
    lemma_pow2_pos(94);
    assert(wide >= 0x400 * u) by (nonlinear_arith)
        requires
            wide == u * pow2(104),
            pow2(104) == 0x400 * pow2(94),
            pow2(94) >= 1,
            u > 0,
    ;
    let exact = degrees.scaled() - offset.scaled();
    let m = rounding::magnitude(offset.code());
    assert(m <= 0xFF_FFFF * wide);
    assert(vstd::math::abs(exact) <= m + 180 * u);
    assert((pow2(25) - 1) * pow2(253) == 0x1FF_FFFF * wide) by (nonlinear_arith)
        requires
            pow2(25) == 0x200_0000,
            wide == pow2(253),
    ;
}

/// Of two arctangents within a half turn the greater is never shown as the lesser, whatever
/// the offset.
pub proof fn law_order_kept(
    pitch_radians: Binary32,
    roll_radians: Binary32,
    pitch_radians2: Binary32,
    roll_radians2: Binary32,
    config: &DeviceConfig,
    r: Option<Angles>,
    r2: Option<Angles>,
)
    requires
        pitch_radians.code() <= PI,
        roll_radians.code() <= PI,
        pitch_radians2.code() <= PI,
        roll_radians2.code() <= PI,
        config.pitch_offset.is_finite(),
        config.roll_offset.is_finite(),
        call_ensures(calculate_angles, (pitch_radians, roll_radians, config), r),
        call_ensures(calculate_angles, (pitch_radians2, roll_radians2, config), r2),
        r is Some,
    ensures
        r2 is Some,
        pitch_radians.scaled() <= pitch_radians2.scaled() ==> r->0.pitch.scaled()
            <= r2->0.pitch.scaled(),
        roll_radians.scaled() <= roll_radians2.scaled() ==> r->0.roll.scaled()
            <= r2->0.roll.scaled(),
{
    if pitch_radians.scaled() <= pitch_radians2.scaled() {
        lemma_order_kept(pitch_radians, pitch_radians2, config.pitch_offset);
    }
    if roll_radians.scaled() <= roll_radians2.scaled() {
        lemma_order_kept(roll_radians, roll_radians2, config.roll_offset);
    }
}

proof fn lemma_order_kept(a: Binary32, b: Binary32, offset: Binary32)
    requires
        a.code() <= PI,
        b.code() <= PI,
        a.scaled() <= b.scaled(),
        offset.is_finite(),
    ensures
        shown(a, offset).scaled() <= shown(b, offset).scaled(),
{
    let factor = Binary32 { bits: RAD_TO_DEG };
    lemma_shown_finite(a, offset);
    lemma_shown_finite(b, offset);
    lemma_product_order(a, b);
    arithmetic::lemma_negation_bits(offset);
    arithmetic::lemma_sum_monotone(a.product(factor), b.product(factor), offset.negation());
}

/// The greater of two arctangents is not the lesser in degrees.
proof fn lemma_product_order(a: Binary32, b: Binary32)
    requires
        a.code() <= PI,
        b.code() <= PI,
        a.scaled() <= b.scaled(),
    ensures
        a.product(Binary32 { bits: RAD_TO_DEG }).scaled() <= b.product(
            Binary32 { bits: RAD_TO_DEG },
        ).scaled(),
{
    let f = rounding::magnitude(RAD_TO_DEG as int);
    rounding::lemma_magnitude_next(RAD_TO_DEG as int);
    assert(a.scaled() * f <= b.scaled() * f) by (nonlinear_arith)
        requires
            a.scaled() <= b.scaled(),
            f >= 0,
    ;
    lemma_degrees(a);
    lemma_degrees(b);
    lemma_degrees_rounded(a);
    lemma_degrees_rounded(b);
    lemma_pow2_pos(149);
    arithmetic::lemma_rounding_monotone(
        a.product(Binary32 { bits: RAD_TO_DEG }),
        b.product(Binary32 { bits: RAD_TO_DEG }),
        a.scaled() * f,
        b.scaled() * f,
        binary32::one(),
    );
}

/// The degrees of an arctangent are its product with the degrees in a radian, rounded.
proof fn lemma_degrees_rounded(a: Binary32)
    requires
        a.code() <= PI,
    ensures
        ({
            let f = rounding::magnitude(RAD_TO_DEG as int);
            let num = a.scaled() * f;
            let p = a.product(Binary32 { bits: RAD_TO_DEG });
            &&& num == 0 ==> p.scaled() == 0
            &&& num != 0 ==> p == Binary32::signed(
                num < 0,
                rounding::rounded(vstd::math::abs(num) as int, binary32::one()),
            )
        }),
{
    let f = rounding::magnitude(RAD_TO_DEG as int);
    let m = rounding::magnitude(a.code());
    let p = a.product(Binary32 { bits: RAD_TO_DEG });
    lemma_pow2_pos(149);
    rounding::lemma_magnitude_next(a.code());
    assert(rounding::magnitude(0) == 0);
    rounding::lemma_magnitude_increases(0, RAD_TO_DEG as int);
    assert((-m) * f == -(m * f) && m * f >= 0) by (nonlinear_arith)
        requires
            m >= 0,
            f >= 0,
    ;
    if m * f == 0 {
        assert(0 * binary32::one() == 0) by (nonlinear_arith);
        rounding::lemma_rounded_exact(0, binary32::one());
        assert(p.code() == 0);
    }
}

} // verus!
