use ble_leveler::angles::{
    arctangents, calculate_angles, vehicle_acceleration, Angles, HALF_PI, PI, RAD_TO_DEG,
};
use ble_leveler::binary32::Binary32;
use ble_leveler::config::DeviceConfig;
use ble_leveler::mounting::{cardinal_vector, compute_basis_vectors};
use ble_leveler::vec3::Vec3;

fn number(value: f32) -> Binary32 {
    Binary32 { bits: value.to_bits() }
}

fn value(number: Binary32) -> f32 {
    f32::from_bits(number.bits)
}

fn vector(x: f32, y: f32, z: f32) -> Vec3 {
    Vec3::new(number(x), number(y), number(z))
}

/// Measures angles with the arctangents of `libm`.
fn measure(raw: &[u8; 6], config: &DeviceConfig) -> Option<Angles> {
    let args = arctangents(raw, config)?;
    let pitch = libm::atan2f(value(args.pitch_y), libm::sqrtf(value(args.pitch_x_squared)));
    let roll = libm::atan2f(value(args.roll_y), value(args.roll_x));
    calculate_angles(number(pitch), number(roll), config)
}

fn raw_reading(x: i16, y: i16, z: i16) -> [u8; 6] {
    let mut raw = [0u8; 6];
    raw[0..2].copy_from_slice(&x.to_le_bytes());
    raw[2..4].copy_from_slice(&y.to_le_bytes());
    raw[4..6].copy_from_slice(&z.to_le_bytes());
    raw
}

#[test]
fn test_cardinal_vectors() {
    assert_eq!(cardinal_vector(1), Some(vector(0.0, 1.0, 0.0))); // Front
    assert_eq!(cardinal_vector(2), Some(vector(0.0, -1.0, 0.0))); // Rear
    assert_eq!(cardinal_vector(3), Some(vector(-1.0, 0.0, 0.0))); // Left
    assert_eq!(cardinal_vector(4), Some(vector(1.0, 0.0, 0.0))); // Right
    assert_eq!(cardinal_vector(5), Some(vector(0.0, 0.0, 1.0))); // Up
    assert_eq!(cardinal_vector(6), Some(vector(0.0, 0.0, -1.0))); // Down
    assert_eq!(cardinal_vector(0), None);
    assert_eq!(cardinal_vector(7), None);
}

#[test]
fn test_basis_vectors_default() {
    // Default: USB-C is Rear (2), Top is Up (5)
    let (x_s, y_s, z_s) = compute_basis_vectors(2, 5).expect("valid basis vectors");
    assert_eq!(x_s, vector(0.0, 1.0, 0.0));
    assert_eq!(y_s, vector(-1.0, 0.0, 0.0));
    assert_eq!(z_s, vector(0.0, 0.0, 1.0));
}

#[test]
fn test_invalid_parallel_configurations() {
    // Parallel vectors (Front, Front) -> None
    assert_eq!(compute_basis_vectors(1, 1), None);
    // Anti-parallel vectors (Front, Rear) -> None
    assert_eq!(compute_basis_vectors(1, 2), None);
    // Parallel vectors (Up, Up) -> None
    assert_eq!(compute_basis_vectors(5, 5), None);
    // Out-of-bounds -> None
    assert_eq!(compute_basis_vectors(0, 5), None);
}

#[test]
fn test_all_24_cube_orientations_orthonormal() {
    let mut valid_count = 0;
    let mut invalid_count = 0;

    for usbc in 1..=6 {
        for top in 1..=6 {
            match compute_basis_vectors(usbc, top) {
                Some((x_s, y_s, z_s)) => {
                    // Length of each basis vector must be 1.0
                    assert_eq!(x_s.dot(x_s), number(1.0));
                    assert_eq!(y_s.dot(y_s), number(1.0));
                    assert_eq!(z_s.dot(z_s), number(1.0));

                    // Dot products must be 0.0 (mutually orthogonal)
                    assert_eq!(x_s.dot(y_s), number(0.0));
                    assert_eq!(y_s.dot(z_s), number(0.0));
                    assert_eq!(z_s.dot(x_s), number(0.0));

                    // Right-handed determinant must be +1.0
                    let det = x_s.dot(y_s.cross(z_s));
                    assert_eq!(det, number(1.0));

                    valid_count += 1;
                }
                None => {
                    invalid_count += 1;
                }
            }
        }
    }
    // 6 faces * 4 valid perpendicular orientations per face = 24 valid orientations
    assert_eq!(valid_count, 24);
    // 36 total pairs - 24 valid = 12 invalid (6 parallel + 6 opposite)
    assert_eq!(invalid_count, 12);
}

#[test]
fn test_calculate_angles_flat_level() {
    let cfg = DeviceConfig::default();
    // Flat sensor: 1g on sensor +Z
    let mut raw = [0u8; 6];
    let az: i16 = 16384; // 1g in 2g scale
    raw[4..6].copy_from_slice(&az.to_le_bytes());

    let angles = measure(&raw, &cfg).expect("valid angles");
    assert!((value(angles.pitch) - 0.0).abs() < 0.01);
    assert!((value(angles.roll) - 0.0).abs() < 0.01);
}

#[test]
fn test_calculate_angles_invalid_config_returns_none() {
    let mut cfg = DeviceConfig::default();
    cfg.usbc_dir = 1; // Front
    cfg.top_dir = 1; // Front (invalid collinear config)

    let mut raw = [0u8; 6];
    let az: i16 = 16384;
    raw[4..6].copy_from_slice(&az.to_le_bytes());

    assert_eq!(measure(&raw, &cfg), None);
    assert_eq!(calculate_angles(number(0.0), number(0.0), &cfg), None);
}

#[test]
fn test_calculate_angles_with_tare() {
    let mut cfg = DeviceConfig::default();
    cfg.pitch_offset = number(2.5);
    cfg.roll_offset = number(-1.0);

    let mut raw = [0u8; 6];
    let az: i16 = 16384;
    raw[4..6].copy_from_slice(&az.to_le_bytes());

    let angles = measure(&raw, &cfg).expect("valid angles");
    assert!((value(angles.pitch) - (-2.5)).abs() < 0.01);
    assert!((value(angles.roll) - 1.0).abs() < 0.01);
}

/// The sensor's axes in vehicle coordinates.
fn axes(usbc: usize, top: usize) -> [[i32; 3]; 3] {
    let cardinal: [[i32; 3]; 6] =
        [[0, 1, 0], [0, -1, 0], [-1, 0, 0], [1, 0, 0], [0, 0, 1], [0, 0, -1]];
    let (u, t) = (cardinal[usbc - 1], cardinal[top - 1]);
    let y = [
        u[1] * t[2] - u[2] * t[1],
        u[2] * t[0] - u[0] * t[2],
        u[0] * t[1] - u[1] * t[0],
    ];
    [[-u[0], -u[1], -u[2]], y, t]
}

/// The mountings, each as a configuration with no offsets.
fn mountings() -> Vec<DeviceConfig> {
    let mut all = Vec::new();
    for usbc in 1..=6u8 {
        for top in 1..=6u8 {
            if (usbc - 1) / 2 != (top - 1) / 2 {
                let mut cfg = DeviceConfig::default();
                cfg.usbc_dir = usbc;
                cfg.top_dir = top;
                all.push(cfg);
            }
        }
    }
    all
}

/// What the sensor reads of an acceleration of the vehicle.
fn sensed(v: [i32; 3], cfg: &DeviceConfig) -> [u8; 6] {
    let read = |axis: [i32; 3]| (v[0] * axis[0] + v[1] * axis[1] + v[2] * axis[2]) as i16;
    let [x, y, z] = axes(cfg.usbc_dir as usize, cfg.top_dir as usize);
    raw_reading(read(x), read(y), read(z))
}

/// A reading along the sensor's own axes, x and y negated, in hardware arithmetic.
fn along_own_axes(raw: [i16; 3], usbc: usize, top: usize) -> [f32; 3] {
    let cardinal: [[f32; 3]; 6] = [
        [0.0, 1.0, 0.0],
        [0.0, -1.0, 0.0],
        [-1.0, 0.0, 0.0],
        [1.0, 0.0, 0.0],
        [0.0, 0.0, 1.0],
        [0.0, 0.0, -1.0],
    ];
    let (u, t) = (cardinal[usbc - 1], cardinal[top - 1]);
    let r = [raw[0] as f32, raw[1] as f32, raw[2] as f32];
    let dot = |b: [f32; 3]| r[0] * b[0] + r[1] * b[1] + r[2] * b[2];
    let y_s = [
        u[1] * t[2] - u[2] * t[1],
        u[2] * t[0] - u[0] * t[2],
        u[0] * t[1] - u[1] * t[0],
    ];
    [-dot([-u[0], -u[1], -u[2]]), -dot(y_s), dot(t)]
}

/// Pitch and roll of an acceleration in hardware arithmetic.
fn inclination([lat, long, vert]: [f32; 3], offsets: (f32, f32)) -> (f32, f32) {
    let rad_to_deg = 180.0 / std::f32::consts::PI;
    let pitch = libm::atan2f(long, libm::sqrtf(lat * lat + vert * vert)) * rad_to_deg;
    let roll = libm::atan2f(lat, vert) * rad_to_deg;
    (pitch - offsets.0, roll - offsets.1)
}

/// The same measurement in hardware arithmetic.
fn measure_in_hardware(raw: [i16; 3], usbc: usize, top: usize, offsets: (f32, f32)) -> (f32, f32) {
    let [x, y, z] = axes(usbc, top);
    let r = [raw[0] as i32, raw[1] as i32, raw[2] as i32];
    let component = |i: usize| (r[0] * x[i] + r[1] * y[i] + r[2] * z[i]) as f32;
    let own = along_own_axes(raw, usbc, top);
    let signed = |i: usize| {
        if own[i] == component(i) {
            own[i]
        } else if component(i) == 0.0 {
            -0.0
        } else {
            component(i)
        }
    };
    inclination([signed(0), signed(1), component(2)], offsets)
}

#[test]
fn angles_agree_with_hardware_to_the_bit() {
    let steps = [i16::MIN, -16384, -7919, -1, 0, 1, 513, 16384, i16::MAX];
    for usbc in 1..=6usize {
        for top in 1..=6usize {
            let mut cfg = DeviceConfig::default();
            cfg.usbc_dir = usbc as u8;
            cfg.top_dir = top as u8;
            cfg.pitch_offset = number(0.37);
            cfg.roll_offset = number(-12.25);
            for x in steps {
                for y in steps {
                    for z in steps {
                        let got = measure(&raw_reading(x, y, z), &cfg);
                        if (usbc - 1) / 2 == (top - 1) / 2 {
                            assert!(got.is_none());
                        } else {
                            let (pitch, roll) =
                                measure_in_hardware([x, y, z], usbc, top, (0.37, -12.25));
                            let got = got.unwrap();
                            assert_eq!(got.pitch.bits, pitch.to_bits());
                            assert_eq!(got.roll.bits, roll.to_bits());
                        }
                    }
                }
            }
        }
    }
}

#[test]
fn dot_and_cross_of_general_vectors() {
    let (a, b) = (vector(1.5, -2.25, 0.1), vector(3.0, 0.7, -8.5));
    assert_eq!(value(a.dot(b)), 1.5f32 * 3.0 + -2.25 * 0.7 + 0.1 * -8.5);
    let c = a.cross(b);
    assert_eq!(value(c.x), -2.25f32 * -8.5 - 0.1 * 0.7);
    assert_eq!(value(c.y), 0.1f32 * 3.0 - 1.5 * -8.5);
    assert_eq!(value(c.z), 1.5f32 * 0.7 - -2.25 * 3.0);
}

#[test]
fn projection_keeps_length_in_every_mounting() {
    let raw = raw_reading(300, -400, 1200);
    for usbc in 1..=6u8 {
        for top in 1..=6u8 {
            let mut cfg = DeviceConfig::default();
            cfg.usbc_dir = usbc;
            cfg.top_dir = top;
            if let Some(a) = vehicle_acceleration(&raw, &cfg) {
                let (lat, long, vert) = (value(a.lat), value(a.long), value(a.vert));
                assert_eq!(lat * lat + long * long + vert * vert, 1_690_000.0);
            }
        }
    }
}

#[test]
fn default_mounting_projection() {
    let cfg = DeviceConfig::default();
    let a = vehicle_acceleration(&raw_reading(100, 20, 16000), &cfg).unwrap();
    assert_eq!((value(a.lat), value(a.long), value(a.vert)), (-20.0, 100.0, 16000.0));
}

#[test]
fn label_up_and_port_to_front_or_rear_read_off_the_own_axes() {
    let steps = [i16::MIN, -16384, -1, 0, 1, 700, 16384, i16::MAX];
    for usbc in [1usize, 2] {
        let mut cfg = DeviceConfig::default();
        cfg.usbc_dir = usbc as u8;
        for x in steps {
            for y in steps {
                for z in steps {
                    let got = measure(&raw_reading(x, y, z), &cfg).unwrap();
                    let own = along_own_axes([x, y, z], usbc, 5);
                    let (pitch, roll) = inclination(own, (0.0, 0.0));
                    assert_eq!(got.pitch.bits, pitch.to_bits());
                    assert_eq!(got.roll.bits, roll.to_bits());
                }
            }
        }
    }
}

#[test]
fn sign_of_a_zero_pitch() {
    let cfg = DeviceConfig::default();
    let sent = |x, y, z| measure(&raw_reading(x, y, z), &cfg).unwrap().to_bytes();
    assert_eq!(sent(0, -1, -1)[0..4], [0, 0, 0, 0]);
    assert_eq!(sent(0, 0, 16384), [0, 0, 0, 0x80, 0, 0, 0, 0x80]);
}

#[test]
fn level_vehicle_is_level_in_every_mounting() {
    let all = mountings();
    assert_eq!(all.len(), 24);
    for cfg in all {
        let raw = sensed([0, 0, 16384], &cfg);
        let a = vehicle_acceleration(&raw, &cfg).unwrap();
        assert_eq!((value(a.lat), value(a.long), value(a.vert)), (0.0, 0.0, 16384.0));
        let angles = measure(&raw, &cfg).unwrap();
        assert_eq!((value(angles.pitch), value(angles.roll)), (0.0, 0.0));
    }
}

#[test]
fn level_vehicle_with_port_to_the_front_and_label_to_the_right() {
    let mut cfg = DeviceConfig::default();
    cfg.usbc_dir = 1;
    cfg.top_dir = 4;
    let angles = measure(&raw_reading(0, -16384, 0), &cfg).unwrap();
    assert_eq!((value(angles.pitch), value(angles.roll)), (0.0, 0.0));
}

#[test]
fn acceleration_is_recovered_in_every_mounting() {
    for cfg in mountings() {
        let a = vehicle_acceleration(&sensed([11, -22, 33], &cfg), &cfg).unwrap();
        assert_eq!((value(a.lat), value(a.long), value(a.vert)), (11.0, -22.0, 33.0));
    }
}

#[test]
fn angles_do_not_depend_on_the_mounting() {
    let accelerations =
        [[0, 16384, 16384], [-3000, 700, 15000], [5, 0, -16384], [0, 0, -1], [0, 0, 0], [1, 0, 0]];
    for v in accelerations {
        let cfg = DeviceConfig::default();
        let expected = measure(&sensed(v, &cfg), &cfg).unwrap();
        for cfg in mountings() {
            let angles = measure(&sensed(v, &cfg), &cfg).unwrap();
            assert_eq!(value(angles.pitch), value(expected.pitch));
            let turn = (value(angles.roll) - value(expected.roll)).abs();
            assert!(turn == 0.0 || turn == 360.0);
        }
    }
    let mut left = DeviceConfig::default();
    left.usbc_dir = 3;
    let rear = measure(&raw_reading(16384, 0, 16384), &DeviceConfig::default()).unwrap();
    let left = measure(&raw_reading(0, 16384, 16384), &left).unwrap();
    assert_eq!((value(rear.pitch), value(left.pitch)), (45.0, 45.0));
}

#[test]
fn angles_are_in_range() {
    let steps = [i16::MIN, -16384, -1, 0, 1, 7919, i16::MAX];
    for cfg in mountings() {
        for x in steps {
            for y in steps {
                for z in steps {
                    let angles = measure(&raw_reading(x, y, z), &cfg).unwrap();
                    assert!(value(angles.pitch).abs() <= 90.0);
                    assert!(value(angles.roll).abs() <= 180.0);
                    let mut set = cfg;
                    set.pitch_offset = angles.pitch;
                    set.roll_offset = angles.roll;
                    let angles = measure(&raw_reading(x, y, z), &set).unwrap();
                    assert_eq!((value(angles.pitch), value(angles.roll)), (0.0, 0.0));
                }
            }
        }
    }
    assert_eq!(HALF_PI, std::f32::consts::FRAC_PI_2.to_bits());
    assert_eq!(PI, std::f32::consts::PI.to_bits());
}

#[test]
fn zero_reference_shows_zero() {
    let mut cfg = DeviceConfig::default();
    let raw = raw_reading(1200, -700, 16000);
    let before = measure(&raw, &cfg).unwrap();
    assert!(value(before.pitch) != 0.0);
    cfg.pitch_offset = before.pitch;
    cfg.roll_offset = before.roll;
    let after = measure(&raw, &cfg).unwrap();
    assert_eq!((value(after.pitch), value(after.roll)), (0.0, 0.0));
}

#[test]
fn degrees_in_a_radian() {
    assert_eq!(RAD_TO_DEG, (180.0f32 / std::f32::consts::PI).to_bits());
}

#[test]
fn angles_are_sent_little_endian() {
    let angles = Angles { pitch: number(1.5), roll: number(-2.0) };
    assert_eq!(angles.to_bytes(), [0x00, 0x00, 0xC0, 0x3F, 0x00, 0x00, 0x00, 0xC0]);
}
