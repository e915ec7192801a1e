//! The registers of the LSM6DS3 accelerometer.
use vstd::prelude::*;

verus! {

/// The accelerometer's address on the bus.
pub const LSM6DS3_ADDRESS: u8 = 0x6A;

/// The register that identifies the chip.
pub const LSM6DS3_WHO_AM_I_REG: u8 = 0x0F;

/// The register that sets output rate, scale and bandwidth.
pub const LSM6DS3_CTRL1_XL: u8 = 0x10;

/// The register that sets the digital filter.
pub const LSM6DS3_CTRL8_XL: u8 = 0x17;

/// The first of the six output registers.
pub const LSM6DS3_OUTX_L_XL: u8 = 0x28;

/// The register writes that set the accelerometer up, in order: an output rate of 104 Hz
/// (0100), a scale of +/- 2 g (00) and a bandwidth of 50 Hz (10), and the digital
/// low-pass filter against mechanical vibration.
pub fn init_accelerometer() -> (r: [[u8; 2]; 2])
    ensures
        r@.len() == 2,
        r@[0]@ == seq![LSM6DS3_CTRL1_XL, 0x42u8],
        r@[0]@[1] >> 4 == 0b0100,
        (r@[0]@[1] >> 2) & 0b11 == 0b00,
        r@[0]@[1] & 0b11 == 0b10,
        r@[1]@ == seq![LSM6DS3_CTRL8_XL, 0x09u8],
{
    let writes: [[u8; 2]; 2] = [[LSM6DS3_CTRL1_XL, 0x42], [LSM6DS3_CTRL8_XL, 0x09]];
    assert(writes@[0]@ =~= seq![LSM6DS3_CTRL1_XL, 0x42u8]);
    assert(writes@[1]@ =~= seq![LSM6DS3_CTRL8_XL, 0x09u8]);
    assert(0x42u8 >> 4 == 0b0100 && (0x42u8 >> 2) & 0b11 == 0b00 && 0x42u8 & 0b11 == 0b10)
        by (bit_vector);
    writes
}

} // verus!
