//! The device configuration and the records that hold it.
use crate::arithmetic;
use crate::binary32;
use crate::binary32::Binary32;
use crate::bytes;
use crate::bytes::{put_le32, read_le32, read_le_i16};
use crate::mounting;
use crate::rounding;
use vstd::arithmetic::power2::*;
use vstd::prelude::*;

verus! {

/// The bit pattern of the threshold that stands in for one that is not positive: 1.5 degrees.
pub const DEFAULT_THRESHOLD: u32 = 0x3FC0_0000;

/// How the sensor is mounted, where level is, and how far from it counts as level.
#[derive(Clone, Copy, Debug)]
pub struct DeviceConfig {
    pub usbc_dir: u8,
    pub top_dir: u8,
    pub pitch_offset: Binary32,
    pub roll_offset: Binary32,
    pub th_front: Binary32,
    pub th_rear: Binary32,
    pub th_left: Binary32,
    pub th_right: Binary32,
}

/// The number with the bit pattern at a position of a record.
pub open spec fn number_at(s: Seq<u8>, at: int) -> Binary32 {
    Binary32 { bits: bytes::le32(s, at) as u32 }
}

/// The hundredths at a position of a record, as a number.
pub open spec fn hundredths_at(s: Seq<u8>, at: int) -> Binary32 {
    Binary32::of_hundredths(bytes::signed16(bytes::le16(s, at)))
}

/// A threshold as it is kept: the default where it is not positive.
pub open spec fn threshold(value: Binary32) -> Binary32 {
    if value.is_positive() {
        value
    } else {
        Binary32 { bits: DEFAULT_THRESHOLD }
    }
}

/// The configuration in a record.
///
/// A record is at least 26 bytes long; one of exactly 18 bytes is of the legacy
/// form, with thresholds in hundredths of a degree.
pub open spec fn parsed(s: Seq<u8>) -> Option<DeviceConfig> {
    if s.len() != 18 && s.len() < 26 {
        None
    } else if !mounting::is_direction(s[0] as int) || !mounting::is_direction(s[1] as int) {
        None
    } else {
        Some(
            DeviceConfig {
                usbc_dir: s[0],
                top_dir: s[1],
                pitch_offset: number_at(s, 2),
                roll_offset: number_at(s, 6),
                th_front: threshold(
                    if s.len() == 18 {
                        hundredths_at(s, 10)
                    } else {
                        number_at(s, 10)
                    },
                ),
                th_rear: threshold(
                    if s.len() == 18 {
                        hundredths_at(s, 12)
                    } else {
                        number_at(s, 14)
                    },
                ),
                th_left: threshold(
                    if s.len() == 18 {
                        hundredths_at(s, 14)
                    } else {
                        number_at(s, 18)
                    },
                ),
                th_right: threshold(
                    if s.len() == 18 {
                        hundredths_at(s, 16)
                    } else {
                        number_at(s, 22)
                    },
                ),
            },
        )
    }
}

fn kept_threshold(value: Binary32) -> (r: Binary32)
    ensures
        r == threshold(value),
{
    if value.positive() {
        value
    } else {
        Binary32 { bits: DEFAULT_THRESHOLD }
    }
}

fn read_number(record: &[u8], at: usize) -> (r: Binary32)
    requires
        at + 4 <= record@.len(),
    ensures
        r == number_at(record@, at as int),
{
    Binary32 { bits: read_le32(record, at) }
}

impl DeviceConfig {
    /// The configuration of a device that was never configured: the port to the
    /// rear, the label up.
    pub open spec fn initial() -> DeviceConfig {
        DeviceConfig {
            usbc_dir: 2,
            top_dir: 5,
            pitch_offset: Binary32 { bits: 0 },
            roll_offset: Binary32 { bits: 0 },
            th_front: Binary32 { bits: DEFAULT_THRESHOLD },
            th_rear: Binary32 { bits: DEFAULT_THRESHOLD },
            th_left: Binary32 { bits: DEFAULT_THRESHOLD },
            th_right: Binary32 { bits: DEFAULT_THRESHOLD },
        }
    }

    /// Whether directions are cardinal and thresholds positive, as in every
    /// configuration that a record gives.
    pub open spec fn valid(self) -> bool {
        &&& mounting::is_direction(self.usbc_dir as int)
        &&& mounting::is_direction(self.top_dir as int)
        &&& self.th_front.is_positive()
        &&& self.th_rear.is_positive()
        &&& self.th_left.is_positive()
        &&& self.th_right.is_positive()
    }

    /// Equal in value, field by field.
    pub open spec fn equals(self, other: DeviceConfig) -> bool {
        &&& self.usbc_dir == other.usbc_dir
        &&& self.top_dir == other.top_dir
        &&& self.pitch_offset.equals(other.pitch_offset)
        &&& self.roll_offset.equals(other.roll_offset)
        &&& self.th_front.equals(other.th_front)
        &&& self.th_rear.equals(other.th_rear)
        &&& self.th_left.equals(other.th_left)
        &&& self.th_right.equals(other.th_right)
    }

    /// Whether the 26 bytes are the record of the configuration.
    pub open spec fn recorded(self, s: Seq<u8>) -> bool {
        &&& s.len() == 26
        &&& s[0] == self.usbc_dir
        &&& s[1] == self.top_dir
        &&& number_at(s, 2) == self.pitch_offset
        &&& number_at(s, 6) == self.roll_offset
        &&& number_at(s, 10) == self.th_front
        &&& number_at(s, 14) == self.th_rear
        &&& number_at(s, 18) == self.th_left
        &&& number_at(s, 22) == self.th_right
    }

    /// The record of the configuration.
    pub fn to_bytes(&self) -> (r: [u8; 26])
        ensures
            self.recorded(r@),
    {
        let mut record: [u8; 26] = [0u8;26];
        record[0] = self.usbc_dir;
        record[1] = self.top_dir;
        put_le32(&mut record, 2, self.pitch_offset.bits);
        put_le32(&mut record, 6, self.roll_offset.bits);
        put_le32(&mut record, 10, self.th_front.bits);
        put_le32(&mut record, 14, self.th_rear.bits);
        put_le32(&mut record, 18, self.th_left.bits);
        put_le32(&mut record, 22, self.th_right.bits);
        record
    }

    /// The configuration in a record.
    pub fn from_bytes(record: &[u8]) -> (r: Option<DeviceConfig>)
        ensures
            r == parsed(record@),
    {
        if record.len() >= 26 {
            let usbc_dir: u8 = record[0];
            let top_dir: u8 = record[1];
            if usbc_dir < 1 || usbc_dir > 6 || top_dir < 1 || top_dir > 6 {
                return None;
            }
            Some(
                DeviceConfig {
                    usbc_dir,
                    top_dir,
                    pitch_offset: read_number(record, 2),
                    roll_offset: read_number(record, 6),
                    th_front: kept_threshold(read_number(record, 10)),
                    th_rear: kept_threshold(read_number(record, 14)),
                    th_left: kept_threshold(read_number(record, 18)),
                    th_right: kept_threshold(read_number(record, 22)),
                },
            )
        } else if record.len() == 18 {
            let usbc_dir: u8 = record[0];
            let top_dir: u8 = record[1];
            if usbc_dir < 1 || usbc_dir > 6 || top_dir < 1 || top_dir > 6 {
                return None;
            }
            Some(
                DeviceConfig {
                    usbc_dir,
                    top_dir,
                    pitch_offset: read_number(record, 2),
                    roll_offset: read_number(record, 6),
                    th_front: kept_threshold(Binary32::from_hundredths(read_le_i16(record, 10))),
                    th_rear: kept_threshold(Binary32::from_hundredths(read_le_i16(record, 12))),
                    th_left: kept_threshold(Binary32::from_hundredths(read_le_i16(record, 14))),
                    th_right: kept_threshold(Binary32::from_hundredths(read_le_i16(record, 16))),
                },
            )
        } else {
            None
        }
    }
}

/// The configuration of a device that was never configured.
impl Default for DeviceConfig {
    fn default() -> (r: DeviceConfig)
        ensures
            r == DeviceConfig::initial(),
    {
        DeviceConfig {
            usbc_dir: 2,
            top_dir: 5,
            pitch_offset: Binary32 { bits: 0 },
            roll_offset: Binary32 { bits: 0 },
            th_front: Binary32 { bits: DEFAULT_THRESHOLD },
            th_rear: Binary32 { bits: DEFAULT_THRESHOLD },
            th_left: Binary32 { bits: DEFAULT_THRESHOLD },
            th_right: Binary32 { bits: DEFAULT_THRESHOLD },
        }
    }
}

/// Configurations compare by their fields' values.
impl PartialEq for DeviceConfig {
    fn eq(&self, other: &DeviceConfig) -> (r: bool) {
        self.usbc_dir == other.usbc_dir && self.top_dir == other.top_dir && self.pitch_offset
            == other.pitch_offset && self.roll_offset == other.roll_offset && self.th_front
            == other.th_front && self.th_rear == other.th_rear && self.th_left == other.th_left
            && self.th_right == other.th_right
    }
}

impl vstd::std_specs::cmp::PartialEqSpecImpl for DeviceConfig {
    open spec fn obeys_eq_spec() -> bool {
        true
    }

    open spec fn eq_spec(&self, other: &DeviceConfig) -> bool {
        self.equals(*other)
    }
}

/// Every configuration that a record gives is valid.
pub proof fn law_parsed_valid(s: Seq<u8>)
    ensures
        parsed(s) matches Some(config) ==> config.valid(),
{
}

/// A valid configuration is read back from its record as it was written.
pub proof fn law_record_round_trip(config: DeviceConfig, s: Seq<u8>)
    requires
        config.valid(),
        config.recorded(s),
    ensures
        parsed(s) == Some(config),
{
}

/// A configuration has one record.
pub proof fn law_record_unique(config: DeviceConfig, s: Seq<u8>, t: Seq<u8>)
    requires
        config.recorded(s),
        config.recorded(t),
    ensures
        s == t,
{
    lemma_number_bytes(s, t, 2);
    lemma_number_bytes(s, t, 6);
    lemma_number_bytes(s, t, 10);
    lemma_number_bytes(s, t, 14);
    lemma_number_bytes(s, t, 18);
    lemma_number_bytes(s, t, 22);
    assert(s =~= t);
}

/// Equal numbers in records have equal bytes.
proof fn lemma_number_bytes(s: Seq<u8>, t: Seq<u8>, at: int)
    requires
        number_at(s, at) == number_at(t, at),
    ensures
        s[at] == t[at],
        s[at + 1] == t[at + 1],
        s[at + 2] == t[at + 2],
        s[at + 3] == t[at + 3],
{
}

/// A record of either form, rewritten, gives the same configuration.
pub proof fn law_record_rewritten(s: Seq<u8>, config: DeviceConfig, t: Seq<u8>)
    requires
        parsed(s) == Some(config),
        config.recorded(t),
    ensures
        parsed(t) == Some(config),
{
}

/// What follows the first 26 bytes of a record does not matter.
pub proof fn law_trailing_bytes(s: Seq<u8>)
    requires
        s.len() >= 26,
    ensures
        parsed(s) == parsed(s.take(26)),
{
}

/// A legacy threshold is kept, in degrees, where it is positive.
pub proof fn law_legacy_threshold(hundredths: int)
    requires
        -0x8000 <= hundredths < 0x8000,
    ensures
        threshold(Binary32::of_hundredths(hundredths)) == if hundredths > 0 {
            Binary32::of_hundredths(hundredths)
        } else {
            DeviceConfig::initial().th_front
        },
{
    let num = vstd::math::abs(hundredths) * binary32::one();
    lemma_pow2_pos(149);
    assert(num >= 0) by (nonlinear_arith)
        requires
            num == vstd::math::abs(hundredths) * binary32::one(),
            binary32::one() > 0,
    ;
    rounding::law_rounding_total(num, 100);
    let code = rounding::rounded(num, 100);
    if hundredths == 0 {
        assert(0 * binary32::one() == 0) by (nonlinear_arith);
        assert(rounding::magnitude(0) == 0);
        rounding::lemma_rounded_exact(0, 100);
    } else if code == 0 {
        lemma2_to64();
        lemma_pow2_adds(8, 141);
        lemma_pow2_pos(141);
        assert(rounding::magnitude(0) == 0 && rounding::magnitude(1) == 1);
        assert(num >= 0x100) by (nonlinear_arith)
            requires
                num == vstd::math::abs(hundredths) * binary32::one(),
                vstd::math::abs(hundredths) >= 1,
                binary32::one() >= 0x100,
        ;
    }
}

/// The threshold that stands in for one that is not positive is one and a half.
pub proof fn law_default_threshold()
    ensures
        2 * (Binary32 { bits: DEFAULT_THRESHOLD }).scaled() == 3 * binary32::one(),
        DeviceConfig::initial().valid(),
{
    rounding::lemma_magnitude_of_significand(0xC0_0000, 126);
    lemma_pow2_adds(23, 126);
    lemma2_to64();
}

/// Configurations are equal exactly where the directions are the same and each offset and
/// each threshold has the same value.
pub proof fn law_equal_fields(a: DeviceConfig, b: DeviceConfig)
    ensures
        vstd::std_specs::cmp::PartialEqSpec::eq_spec(&a, &b) <==> {
            &&& a.usbc_dir == b.usbc_dir
            &&& a.top_dir == b.top_dir
            &&& arithmetic::same_value(a.pitch_offset, b.pitch_offset)
            &&& arithmetic::same_value(a.roll_offset, b.roll_offset)
            &&& arithmetic::same_value(a.th_front, b.th_front)
            &&& arithmetic::same_value(a.th_rear, b.th_rear)
            &&& arithmetic::same_value(a.th_left, b.th_left)
            &&& arithmetic::same_value(a.th_right, b.th_right)
        },
{
    arithmetic::law_equal_values(a.pitch_offset, b.pitch_offset);
    arithmetic::law_equal_values(a.roll_offset, b.roll_offset);
    arithmetic::law_equal_values(a.th_front, b.th_front);
    arithmetic::law_equal_values(a.th_rear, b.th_rear);
    arithmetic::law_equal_values(a.th_left, b.th_left);
    arithmetic::law_equal_values(a.th_right, b.th_right);
}

/// The device starts with the port to the rear, the label up, no offsets and thresholds of
/// one and a half degrees.
pub proof fn law_default(r: DeviceConfig)
    requires
        call_ensures(DeviceConfig::default, (), r),
    ensures
        r.usbc_dir == 2,
        r.top_dir == 5,
        r.pitch_offset.bits == 0,
        r.roll_offset.bits == 0,
        r.th_front.is_finite() && 2 * r.th_front.scaled() == 3 * pow2(149),
        r.th_rear.is_finite() && 2 * r.th_rear.scaled() == 3 * pow2(149),
        r.th_left.is_finite() && 2 * r.th_left.scaled() == 3 * pow2(149),
        r.th_right.is_finite() && 2 * r.th_right.scaled() == 3 * pow2(149),
{
    law_default_threshold();
}

/// A record holds the two directions and then the bits of the pitch and the roll offset and
/// of the front, rear, left and right thresholds, least significant byte first.
pub proof fn law_record_written(config: &DeviceConfig, r: [u8; 26])
    requires
        call_ensures(DeviceConfig::to_bytes, (config,), r),
    ensures
        r@[0] == config.usbc_dir,
        r@[1] == config.top_dir,
        ({
            let holds = |at: int, bits: u32|
                {
                    &&& r@[at] == bits & 0xFF
                    &&& r@[at + 1] == (bits >> 8) & 0xFF
                    &&& r@[at + 2] == (bits >> 16) & 0xFF
                    &&& r@[at + 3] == bits >> 24
                };
            &&& holds(2, config.pitch_offset.bits)
            &&& holds(6, config.roll_offset.bits)
            &&& holds(10, config.th_front.bits)
            &&& holds(14, config.th_rear.bits)
            &&& holds(18, config.th_left.bits)
            &&& holds(22, config.th_right.bits)
        }),
{
    bytes::law_bytes_of_32(r@, 2, config.pitch_offset.bits);
    bytes::law_bytes_of_32(r@, 6, config.roll_offset.bits);
    bytes::law_bytes_of_32(r@, 10, config.th_front.bits);
    bytes::law_bytes_of_32(r@, 14, config.th_rear.bits);
    bytes::law_bytes_of_32(r@, 18, config.th_left.bits);
    bytes::law_bytes_of_32(r@, 22, config.th_right.bits);
}

/// There is a configuration in a record exactly where its length is 18 or at least 26 and
/// its first two bytes are directions, 1 to 6. Directions and offsets stand at the same
/// place in records of either length.
pub proof fn law_record_read(record: &[u8], r: Option<DeviceConfig>)
    requires
        call_ensures(DeviceConfig::from_bytes, (record,), r),
    ensures
        r is Some <==> {
            &&& record@.len() == 18 || record@.len() >= 26
            &&& 1 <= record@[0] <= 6
            &&& 1 <= record@[1] <= 6
        },
        r is Some ==> {
            let s = record@;
            &&& r->0.usbc_dir == s[0]
            &&& r->0.top_dir == s[1]
            &&& r->0.pitch_offset.bits == s[2] + 0x100 * s[3] + 0x1_0000 * s[4] + 0x100_0000 * s[5]
            &&& r->0.roll_offset.bits == s[6] + 0x100 * s[7] + 0x1_0000 * s[8] + 0x100_0000 * s[9]
        },
{
}

/// The thresholds of a record of at least 26 bytes stand at bytes 10, 14, 18 and 22: front,
/// rear, left and right. One that is not greater than zero is read as one and a half.
pub proof fn law_thresholds_read(record: &[u8], r: Option<DeviceConfig>)
    requires
        call_ensures(DeviceConfig::from_bytes, (record,), r),
        record@.len() >= 26,
    ensures
        r is Some ==> {
            let kept = |at: int, th: Binary32|
                {
                    let s = record@;
                    let bits = s[at] + 0x100 * s[at + 1] + 0x1_0000 * s[at + 2] + 0x100_0000 * s[at
                        + 3];
                    if 0 < bits <= 0x7F80_0000 {
                        th.bits == bits
                    } else {
                        th.is_finite() && 2 * th.scaled() == 3 * pow2(149)
                    }
                };
            &&& kept(10, r->0.th_front)
            &&& kept(14, r->0.th_rear)
            &&& kept(18, r->0.th_left)
            &&& kept(22, r->0.th_right)
        },
{
    law_default_threshold();
}

/// Whether a threshold is the number nearest to so many hundredths of a degree, no farther
/// from them than `other`, or one and a half where they are not greater than zero.
pub open spec fn nearest_hundredths(th: Binary32, n: int, other: Binary32) -> bool {
    let exact = n * pow2(149);
    &&& th.is_finite()
    &&& n <= 0 ==> 2 * th.scaled() == 3 * pow2(149)
    &&& n > 0 ==> !th.is_negative()
    &&& n > 0 ==> arithmetic::distance(th, exact, 100) <= arithmetic::distance(other, exact, 100)
    &&& n > 0 && arithmetic::distance(th, exact, 100) == arithmetic::distance(other, exact, 100)
        && th.scaled() != other.scaled() ==> th.code() % 2 == 0
}

/// The thresholds of a record of 18 bytes are signed hundredths of a degree, two bytes each,
/// least significant first, from byte 10 on: front, rear, left and right.
pub proof fn law_legacy_read(
    record: &[u8],
    front: i16,
    rear: i16,
    left: i16,
    right: i16,
    r: Option<DeviceConfig>,
    other: Binary32,
)
    requires
        record@.len() == 18,
        record@[10] + 0x100 * record@[11] == front as int % 0x1_0000,
        record@[12] + 0x100 * record@[13] == rear as int % 0x1_0000,
        record@[14] + 0x100 * record@[15] == left as int % 0x1_0000,
        record@[16] + 0x100 * record@[17] == right as int % 0x1_0000,
        call_ensures(DeviceConfig::from_bytes, (record,), r),
        other.is_finite(),
    ensures
        r is Some ==> {
            &&& nearest_hundredths(r->0.th_front, front as int, other)
            &&& nearest_hundredths(r->0.th_rear, rear as int, other)
            &&& nearest_hundredths(r->0.th_left, left as int, other)
            &&& nearest_hundredths(r->0.th_right, right as int, other)
        },
{
    lemma_side(front as int, other);
    lemma_side(rear as int, other);
    lemma_side(left as int, other);
    lemma_side(right as int, other);
}

proof fn lemma_side(n: int, other: Binary32)
    requires
        -0x8000 <= n < 0x8000,
        other.is_finite(),
    ensures
        bytes::signed16(n % 0x1_0000) == n,
        nearest_hundredths(threshold(Binary32::of_hundredths(n)), n, other),
{
    law_legacy_threshold(n);
    law_default_threshold();
    arithmetic::lemma_hundredths_nearest(n, other);
}

} // verus!
