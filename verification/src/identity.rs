//! What tells one device from another: its address and its name.
use crate::bytes;
use crate::bytes::put_le32;
use vstd::prelude::*;

verus! {

/// The character of a hexadecimal digit.
pub open spec fn hex_digit(digit: int) -> u8 {
    if digit < 10 {
        (0x30 + digit) as u8
    } else {
        (0x41 + digit - 10) as u8
    }
}

/// The word "Leveler" and a space, with which a name starts.
pub open spec fn name_prefix() -> Seq<u8> {
    seq![0x4Cu8, 0x65u8, 0x76u8, 0x65u8, 0x6Cu8, 0x65u8, 0x72u8, 0x20u8]
}

/// The name of the device with the given identifier: the prefix and the last three
/// hexadecimal digits of the identifier.
pub open spec fn named(dev_id: int) -> Seq<u8> {
    name_prefix() + seq![
        hex_digit(dev_id / 0x100 % 0x10),
        hex_digit(dev_id / 0x10 % 0x10),
        hex_digit(dev_id % 0x10),
    ]
}

/// The device's Bluetooth address, least significant byte first, from its two address
/// registers. The two highest bits are set, as they are in every static random address.
pub fn device_address(addr0: u32, addr1: u32) -> (r: [u8; 6])
    ensures
        bytes::le32(r@, 0) == addr0,
        r@[4] == addr1 % 0x100,
        r@[5] == 0xC0 + addr1 / 0x100 % 0x40,
{
    let mut address: [u8; 6] = [0u8;6];
    put_le32(&mut address, 0, addr0);
    let high: u8 = (addr1 / 0x100 % 0x100) as u8;
    address[4] = (addr1 % 0x100) as u8;
    address[5] = high | 0xC0;
    assert(high | 0xC0 == 0xC0 + high % 0x40) by (bit_vector);
    address
}

fn hex_character(digit: u8) -> (r: u8)
    requires
        digit < 0x10,
    ensures
        r == hex_digit(digit as int),
{
    if digit < 10 {
        0x30 + digit
    } else {
        0x41 + (digit - 10)
    }
}

/// The device's name.
pub fn device_name(dev_id: u32) -> (r: [u8; 11])
    ensures
        r@ == named(dev_id as int),
{
    let name: [u8; 11] = [
        0x4C,
        0x65,
        0x76,
        0x65,
        0x6C,
        0x65,
        0x72,
        0x20,
        hex_character((dev_id / 0x100 % 0x10) as u8),
        hex_character((dev_id / 0x10 % 0x10) as u8),
        hex_character((dev_id % 0x10) as u8),
    ];
    assert(name@ =~= named(dev_id as int));
    name
}

/// A name is made of ASCII characters, so it is valid UTF-8.
pub proof fn law_name_ascii(dev_id: int, i: int)
    requires
        0 <= dev_id,
        0 <= i < named(dev_id).len(),
    ensures
        named(dev_id)[i] < 0x80,
{
}

/// Devices whose identifiers differ in the last three hexadecimal digits have
/// different names.
pub proof fn law_names_differ(a: int, b: int)
    requires
        0 <= a,
        0 <= b,
        a % 0x1000 != b % 0x1000,
    ensures
        named(a) != named(b),
{
    let (s, t) = (named(a), named(b));
    lemma_three_digits(a);
    lemma_three_digits(b);
    if s == t {
        assert(s[8] == hex_digit(a / 0x100 % 0x10) && t[8] == hex_digit(b / 0x100 % 0x10));
        assert(s[9] == hex_digit(a / 0x10 % 0x10) && t[9] == hex_digit(b / 0x10 % 0x10));
        assert(s[10] == hex_digit(a % 0x10) && t[10] == hex_digit(b % 0x10));
        lemma_digits_differ(a / 0x100 % 0x10, b / 0x100 % 0x10);
        lemma_digits_differ(a / 0x10 % 0x10, b / 0x10 % 0x10);
        lemma_digits_differ(a % 0x10, b % 0x10);
    }
}

proof fn lemma_digits_differ(a: int, b: int)
    requires
        0 <= a < 0x10,
        0 <= b < 0x10,
    ensures
        hex_digit(a) == hex_digit(b) ==> a == b,
{
}

proof fn lemma_three_digits(n: int)
    requires
        0 <= n,
    ensures
        n % 0x1000 == 0x100 * (n / 0x100 % 0x10) + 0x10 * (n / 0x10 % 0x10) + n % 0x10,
{
    assert(n / 0x100 == n / 0x10 / 0x10);
    assert(n / 0x1000 == n / 0x100 / 0x10);
}

/// A name is the word "Leveler", a space and three upper-case hexadecimal digits that are
/// worth the lowest twelve bits of the identifier.
pub proof fn law_name_spelled(dev_id: u32, r: [u8; 11])
    requires
        call_ensures(device_name, (dev_id,), r),
    ensures
        forall|i: int| 0 <= i < 8 ==> #[trigger] r@[i] as int == "Leveler "@[i] as int,
        forall|i: int|
            8 <= i < 11 ==> {
                ||| 0x30 <= #[trigger] r@[i] <= 0x39
                ||| 0x41 <= r@[i] <= 0x46
            },
        ({
            let worth = |c: u8|
                if c <= 0x39 {
                    c - 0x30
                } else {
                    c - 0x41 + 10
                };
            0x100 * worth(r@[8]) + 0x10 * worth(r@[9]) + worth(r@[10]) == dev_id % 0x1000
        }),
{
    reveal_strlit("Leveler ");
    lemma_three_digits(dev_id as int);
}

/// An address has the lowest 46 bits of the registers, and the two above them set.
pub proof fn law_address(addr0: u32, addr1: u32, r: [u8; 6])
    requires
        call_ensures(device_address, (addr0, addr1), r),
    ensures
        r@[0] == addr0 & 0xFF,
        r@[1] == (addr0 >> 8) & 0xFF,
        r@[2] == (addr0 >> 16) & 0xFF,
        r@[3] == addr0 >> 24,
        r@[4] == addr1 & 0xFF,
        r@[5] == (addr1 >> 8) & 0x3F | 0xC0,
{
    bytes::law_bytes_of_32(r@, 0, addr0);
    assert(addr1 & 0xFF == addr1 % 0x100) by (bit_vector);
    assert((addr1 >> 8) & 0x3F | 0xC0 == 0xC0 + addr1 / 0x100 % 0x40) by (bit_vector);
}

} // verus!
