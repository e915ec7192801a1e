//! The checksum that verifies an experiment transfer.
use vstd::prelude::*;

verus! {

/// The generator polynomial of CRC-32, lowest power in the highest bit.
pub const POLYNOMIAL: u32 = 0xEDB8_8320;

/// Multiplies the remainder by x, modulo the generator polynomial.
pub open spec fn shifted(register: u32) -> u32 {
    if register & 1 != 0 {
        (register >> 1) ^ POLYNOMIAL
    } else {
        register >> 1
    }
}

/// A bit of a byte sequence, each byte's lowest bit first.
pub open spec fn bit(data: Seq<u8>, n: int) -> u32 {
    ((data[n / 8] as u32) >> ((n % 8) as u32)) & 1
}

/// The remainder after the first `n` bits, starting from all ones.
pub open spec fn remainder(data: Seq<u8>, n: nat) -> u32
    decreases n,
{
    if n == 0 {
        0xFFFF_FFFF
    } else {
        shifted(remainder(data, (n - 1) as nat) ^ bit(data, n - 1))
    }
}

/// The CRC-32 of a byte sequence: the complement of the remainder after all bits.
pub open spec fn crc32(data: Seq<u8>) -> u32 {
    !remainder(data, 8 * data.len())
}

/// CRC32 calculation for Phyphox experiment transfer verification.
pub fn calculate_crc32(data: &[u8]) -> (r: u32)
    ensures
        r == crc32(data@),
{
    let mut crc: u32 = 0xFFFF_FFFF;
    let mut i: usize = 0;
    while i < data.len()
        invariant
            i <= data@.len(),
            crc == remainder(data@, 8 * i as nat),
        decreases data@.len() - i,
    {
        let byte: u32 = data[i] as u32;
        crc = crc ^ byte;
        let mut k: u32 = 0;
        assert(byte >> 0 == byte) by (bit_vector);
        while k < 8
            invariant
                i < data@.len(),
                byte == data@[i as int],
                k <= 8,
                crc == remainder(data@, (8 * i + k) as nat) ^ (byte >> k),
            decreases 8 - k,
        {
            proof {
                let before = remainder(data@, (8 * i + k) as nat);
                let n = 8 * i + k;
                assert(n / 8 == i && n % 8 == k);
                lemma_shift_feeds(before, byte >> k);
                assert((byte >> k) >> 1 == byte >> ((k + 1) as u32)) by (bit_vector)
                    requires
                        k < 8,
                ;
            }
            if crc & 1 != 0 {
                crc = (crc >> 1) ^ POLYNOMIAL;
            } else {
                crc = crc >> 1;
            }
            k = k + 1;
        }
        proof {
            let after = remainder(data@, (8 * i + 8) as nat);
            assert(after ^ (byte >> 8) == after) by (bit_vector)
                requires
                    byte < 0x100,
            ;
        }
        i = i + 1;
    }
    !crc
}

/// Shifting a register that holds all coming bits feeds in the lowest of them.
proof fn lemma_shift_feeds(register: u32, coming: u32)
    ensures
        shifted(register ^ coming) == shifted(register ^ (coming & 1)) ^ (coming >> 1),
{
    assert(shifted(register ^ coming) == shifted(register ^ (coming & 1)) ^ (coming >> 1))
        by (bit_vector);
}

/// The register after a number of shifts.
spec fn shifted_times(register: u32, n: nat) -> u32
    decreases n,
{
    if n == 0 {
        register
    } else {
        shifted(shifted_times(register, (n - 1) as nat))
    }
}

/// Shifts lose nothing.
proof fn lemma_shifts_injective(a: u32, b: u32, n: nat)
    requires
        a != b,
    ensures
        shifted_times(a, n) != shifted_times(b, n),
    decreases n,
{
    if n > 0 {
        lemma_shifts_injective(a, b, (n - 1) as nat);
        let x = shifted_times(a, (n - 1) as nat);
        let y = shifted_times(b, (n - 1) as nat);
        assert(x != y ==> shifted(x) != shifted(y)) by (bit_vector);
    }
}

/// The bits of a word that are left after the first `n`.
spec fn unfed(word: u32, n: nat) -> u32 {
    if n < 32 {
        word >> (n as u32)
    } else {
        0
    }
}

/// Feeding in `n` bits of a word one by one comes to the same as adding the word and
/// shifting `n` times.
proof fn lemma_word_fed(data: Seq<u8>, start: nat, word: u32, n: nat)
    requires
        n <= 32,
        forall|j: int| 0 <= j < n ==> #[trigger] bit(data, start + j) == (word >> (j as u32)) & 1,
    ensures
        remainder(data, start + n) ^ unfed(word, n) == shifted_times(
            remainder(data, start) ^ word,
            n,
        ),
    decreases n,
{
    if n == 0 {
        assert(word >> 0 == word) by (bit_vector);
    } else {
        let m = (n - 1) as nat;
        lemma_word_fed(data, start, word, m);
        let before = remainder(data, start + m);
        let k = m as u32;
        lemma_shift_feeds(before, word >> k);
        assert(bit(data, start + m as int) == (word >> k) & 1);
        assert(k < 31 ==> (word >> k) >> 1 == word >> ((k + 1) as u32)) by (bit_vector);
        assert((word >> 31) >> 1 == 0) by (bit_vector);
    }
}

/// Equal bits leave equal remainders.
proof fn lemma_same_bits(a: Seq<u8>, b: Seq<u8>, n: nat)
    requires
        forall|j: int| 0 <= j < n ==> #[trigger] bit(a, j) == bit(b, j),
    ensures
        remainder(a, n) == remainder(b, n),
    decreases n,
{
    if n > 0 {
        lemma_same_bits(a, b, (n - 1) as nat);
        assert(bit(a, n - 1) == bit(b, n - 1));
    }
}

/// Different remainders stay different over equal bits.
proof fn lemma_difference_stays(a: Seq<u8>, b: Seq<u8>, start: nat, n: nat)
    requires
        remainder(a, start) != remainder(b, start),
        forall|j: int| start <= j < start + n ==> #[trigger] bit(a, j) == bit(b, j),
    ensures
        remainder(a, start + n) != remainder(b, start + n),
    decreases n,
{
    if n > 0 {
        lemma_difference_stays(a, b, start, (n - 1) as nat);
        let x = remainder(a, (start + n - 1) as nat);
        let y = remainder(b, (start + n - 1) as nat);
        let fed = bit(a, start + n - 1);
        assert(fed == bit(b, start + n - 1));
        assert(x != y ==> shifted(x ^ fed) != shifted(y ^ fed)) by (bit_vector);
    }
}

/// Data that differ in some of `count` bytes alone, fed as two words, have different
/// checksums.
proof fn lemma_words_detected(
    a: Seq<u8>,
    b: Seq<u8>,
    at: nat,
    count: nat,
    word_a: u32,
    word_b: u32,
)
    requires
        a.len() == b.len(),
        count <= 4,
        at + count <= a.len(),
        forall|i: int| 0 <= i < a.len() && !(at <= i < at + count) ==> a[i] == b[i],
        word_a != word_b,
        unfed(word_a, 8 * count) == 0,
        unfed(word_b, 8 * count) == 0,
        forall|j: int|
            0 <= j < 8 * count ==> #[trigger] bit(a, 8 * at + j) == (word_a >> (j as u32)) & 1,
        forall|j: int|
            0 <= j < 8 * count ==> #[trigger] bit(b, 8 * at + j) == (word_b >> (j as u32)) & 1,
    ensures
        crc32(a) != crc32(b),
{
    let start = 8 * at;
    let end = start + 8 * count;
    assert forall|j: int| 0 <= j < start implies #[trigger] bit(a, j) == bit(b, j) by {
        assert(a[j / 8] == b[j / 8]);
    }
    lemma_same_bits(a, b, start);
    lemma_word_fed(a, start, word_a, 8 * count);
    lemma_word_fed(b, start, word_b, 8 * count);
    let base = remainder(a, start);
    assert(word_a != word_b ==> base ^ word_a != base ^ word_b) by (bit_vector);
    lemma_shifts_injective(base ^ word_a, base ^ word_b, 8 * count);
    let (x, y) = (remainder(a, end), remainder(b, end));
    assert(x ^ 0 == x && y ^ 0 == y) by (bit_vector);
    assert forall|j: int| end <= j < end + 8 * (a.len() - at - count) implies #[trigger] bit(a, j)
        == bit(b, j) by {
        assert(a[j / 8] == b[j / 8]);
    }
    lemma_difference_stays(a, b, end, (8 * (a.len() - at - count)) as nat);
    let (p, q) = (remainder(a, 8 * a.len()), remainder(b, 8 * b.len()));
    assert(p != q ==> !p != !q) by (bit_vector);
}

/// A byte of a window of `count` bytes, zero behind its end.
spec fn window_byte(data: Seq<u8>, at: int, count: int, k: int) -> u32 {
    if k < count {
        data[at + k] as u32
    } else {
        0
    }
}

/// Up to four bytes as a word, the first in the lowest bits.
spec fn word(data: Seq<u8>, at: int, count: int) -> u32 {
    window_byte(data, at, count, 0) | (window_byte(data, at, count, 1) << 8) | (window_byte(
        data,
        at,
        count,
        2,
    ) << 16) | (window_byte(data, at, count, 3) << 24)
}

proof fn lemma_word_bits(data: Seq<u8>, at: nat, count: nat, j: int)
    requires
        count <= 4,
        0 <= j < 8 * count,
        at + count <= data.len(),
    ensures
        bit(data, 8 * at + j) == (word(data, at as int, count as int) >> (j as u32)) & 1,
{
    let (i, n) = (at as int, count as int);
    let (b0, b1) = (window_byte(data, i, n, 0), window_byte(data, i, n, 1));
    let (b2, b3) = (window_byte(data, i, n, 2), window_byte(data, i, n, 3));
    let k = j as u32;
    let w = word(data, i, n);
    assert((8 * at + j) / 8 == at + j / 8 && (8 * at + j) % 8 == j % 8);
    assert((w >> k) & 1 == if k < 8 {
        (b0 >> k) & 1
    } else if k < 16 {
        (b1 >> (k - 8) as u32) & 1
    } else if k < 24 {
        (b2 >> (k - 16) as u32) & 1
    } else {
        (b3 >> (k - 24) as u32) & 1
    }) by (bit_vector)
        requires
            b0 < 0x100,
            b1 < 0x100,
            b2 < 0x100,
            b3 < 0x100,
            k < 32,
            w == b0 | (b1 << 8) | (b2 << 16) | (b3 << 24),
    ;
}

/// A word of `count` bytes has no bits behind them.
proof fn lemma_word_ends(data: Seq<u8>, at: int, count: nat)
    requires
        count <= 4,
    ensures
        unfed(word(data, at, count as int), 8 * count) == 0,
{
    let n = count as int;
    let (b0, b1) = (window_byte(data, at, n, 0), window_byte(data, at, n, 1));
    let (b2, b3) = (window_byte(data, at, n, 2), window_byte(data, at, n, 3));
    let k = count as u32;
    let w = word(data, at, n);
    if count < 4 {
        assert(w >> ((8 * k) as u32) == 0) by (bit_vector)
            requires
                k < 4,
                b0 < 0x100,
                b1 < 0x100,
                b2 < 0x100,
                k <= 0 ==> b0 == 0,
                k <= 1 ==> b1 == 0,
                k <= 2 ==> b2 == 0,
                b3 == 0,
                w == b0 | (b1 << 8) | (b2 << 16) | (b3 << 24),
        ;
    }
}

/// Windows with equal words have equal bytes.
proof fn lemma_word_bytes(a: Seq<u8>, b: Seq<u8>, at: int, count: int, k: int)
    requires
        word(a, at, count) == word(b, at, count),
        0 <= k < count <= 4,
    ensures
        a[at + k] == b[at + k],
{
    let (a0, a1) = (window_byte(a, at, count, 0), window_byte(a, at, count, 1));
    let (a2, a3) = (window_byte(a, at, count, 2), window_byte(a, at, count, 3));
    let (b0, b1) = (window_byte(b, at, count, 0), window_byte(b, at, count, 1));
    let (b2, b3) = (window_byte(b, at, count, 2), window_byte(b, at, count, 3));
    assert(a0 == b0 && a1 == b1 && a2 == b2 && a3 == b3) by (bit_vector)
        requires
            a0 < 0x100,
            a1 < 0x100,
            a2 < 0x100,
            a3 < 0x100,
            b0 < 0x100,
            b1 < 0x100,
            b2 < 0x100,
            b3 < 0x100,
            a0 | (a1 << 8) | (a2 << 16) | (a3 << 24) == b0 | (b1 << 8) | (b2 << 16) | (b3 << 24),
    ;
}

/// A change within four bytes in a row, or fewer, changes the checksum.
pub proof fn law_burst_detected(a: Seq<u8>, b: Seq<u8>, at: int, count: int)
    requires
        a.len() == b.len(),
        0 <= at,
        0 <= count <= 4,
        at + count <= a.len(),
        forall|i: int| 0 <= i < a.len() && !(at <= i < at + count) ==> a[i] == b[i],
        a != b,
    ensures
        crc32(a) != crc32(b),
{
    let (x, y) = (word(a, at, count), word(b, at, count));
    if x == y {
        assert forall|i: int| 0 <= i < a.len() implies a[i] == b[i] by {
            if at <= i < at + count {
                lemma_word_bytes(a, b, at, count, i - at);
            }
        }
        assert(a =~= b);
    }
    assert forall|j: int| 0 <= j < 8 * count implies #[trigger] bit(a, 8 * at as nat + j) == (x >> (
    j as u32)) & 1 by {
        lemma_word_bits(a, at as nat, count as nat, j);
    }
    assert forall|j: int| 0 <= j < 8 * count implies #[trigger] bit(b, 8 * at as nat + j) == (y >> (
    j as u32)) & 1 by {
        lemma_word_bits(b, at as nat, count as nat, j);
    }
    lemma_word_ends(a, at, count as nat);
    lemma_word_ends(b, at, count as nat);
    lemma_words_detected(a, b, at as nat, count as nat, x, y);
}

/// A change of a single byte changes the checksum.
pub proof fn law_byte_change_detected(a: Seq<u8>, b: Seq<u8>, at: int)
    requires
        a.len() == b.len(),
        0 <= at < a.len(),
        forall|i: int| 0 <= i < a.len() && i != at ==> a[i] == b[i],
        a[at] != b[at],
    ensures
        crc32(a) != crc32(b),
{
    law_burst_detected(a, b, at, 1);
}

/// The checksum of no data is zero.
pub proof fn law_checksum_empty(data: &[u8], r: u32)
    requires
        data@.len() == 0,
        call_ensures(calculate_crc32, (data,), r),
    ensures
        r == 0,
{
    let ones = 0xFFFF_FFFFu32;
    assert(!ones == 0) by (bit_vector)
        requires
            ones == 0xFFFF_FFFF,
    ;
}

/// One more byte is divided into the complement of the checksum, bit by bit. As the
/// checksum of no data is zero, this gives the checksum of data of every length.
pub proof fn law_checksum_extended(data: &[u8], sum: u32, byte: u8, longer: &[u8], r: u32)
    requires
        call_ensures(calculate_crc32, (data,), sum),
        longer@ == data@.push(byte),
        call_ensures(calculate_crc32, (longer,), r),
    ensures
        ({
            let f = |x: u32|
                if x & 1 != 0 {
                    (x >> 1) ^ 0xEDB8_8320
                } else {
                    x >> 1
                };
            !r == f(f(f(f(f(f(f(f(!sum ^ byte as u32))))))))
        }),
{
    let (a, b) = (data@, longer@);
    let start = 8 * a.len();
    let word = byte as u32;
    assert forall|j: int| 0 <= j < start implies #[trigger] bit(a, j) == bit(b, j) by {
        assert(a[j / 8] == b[j / 8]);
    }
    lemma_same_bits(a, b, start);
    assert forall|j: int| 0 <= j < 8 implies #[trigger] bit(b, start + j) == (word >> (j as u32))
        & 1 by {
        assert((start + j) / 8 == a.len() && (start + j) % 8 == j);
    }
    lemma_word_fed(b, start, word, 8);
    let (p, q) = (remainder(a, start), remainder(b, start + 8));
    assert(word < 0x100 ==> word >> 8 == 0) by (bit_vector);
    assert(q ^ 0 == q && !(!p) == p && !(!q) == q) by (bit_vector);
    reveal_with_fuel(shifted_times, 9);
}

/// The register after 32 bits that find it full of ones and leave it to itself.
proof fn lemma_ones_shifted()
    ensures
        shifted_times(0xFFFF_FFFF, 32) == 0xDEBB_20E3,
{
    assert(shifted(0xFFFF_FFFFu32) == 0x9247_7CDFu32
        && shifted(0x9247_7CDFu32) == 0xA49B_3D4Fu32
        && shifted(0xA49B_3D4Fu32) == 0xBFF5_1D87u32
        && shifted(0xBFF5_1D87u32) == 0xB242_0DE3u32
        && shifted(0xB242_0DE3u32) == 0xB499_85D1u32
        && shifted(0xB499_85D1u32) == 0xB7F4_41C8u32
        && shifted(0xB7F4_41C8u32) == 0x5BFA_20E4u32
        && shifted(0x5BFA_20E4u32) == 0x2DFD_1072u32
        && shifted(0x2DFD_1072u32) == 0x16FE_8839u32
        && shifted(0x16FE_8839u32) == 0xE6C7_C73Cu32
        && shifted(0xE6C7_C73Cu32) == 0x7363_E39Eu32
        && shifted(0x7363_E39Eu32) == 0x39B1_F1CFu32
        && shifted(0x39B1_F1CFu32) == 0xF160_7BC7u32
        && shifted(0xF160_7BC7u32) == 0x9508_BEC3u32
        && shifted(0x9508_BEC3u32) == 0xA73C_DC41u32
        && shifted(0xA73C_DC41u32) == 0xBE26_ED00u32
        && shifted(0xBE26_ED00u32) == 0x5F13_7680u32
        && shifted(0x5F13_7680u32) == 0x2F89_BB40u32
        && shifted(0x2F89_BB40u32) == 0x17C4_DDA0u32
        && shifted(0x17C4_DDA0u32) == 0x0BE2_6ED0u32
        && shifted(0x0BE2_6ED0u32) == 0x05F1_3768u32
        && shifted(0x05F1_3768u32) == 0x02F8_9BB4u32
        && shifted(0x02F8_9BB4u32) == 0x017C_4DDAu32
        && shifted(0x017C_4DDAu32) == 0x00BE_26EDu32
        && shifted(0x00BE_26EDu32) == 0xEDE7_9056u32
        && shifted(0xEDE7_9056u32) == 0x76F3_C82Bu32
        && shifted(0x76F3_C82Bu32) == 0xD6C1_6735u32
        && shifted(0xD6C1_6735u32) == 0x86D8_30BAu32
        && shifted(0x86D8_30BAu32) == 0x436C_185Du32
        && shifted(0x436C_185Du32) == 0xCC0E_8F0Eu32
        && shifted(0xCC0E_8F0Eu32) == 0x6607_4787u32
        && shifted(0x6607_4787u32) == 0xDEBB_20E3u32)
        by (bit_vector);
    reveal_with_fuel(shifted_times, 33);
}

/// Data followed by their checksum, least significant byte first, have one and the same
/// checksum, whatever the data: the complement of the residue 0xDEBB20E3.
pub proof fn law_checksum_residue(data: &[u8], sum: u32, sent: &[u8], r: u32)
    requires
        call_ensures(calculate_crc32, (data,), sum),
        sent@ == data@ + seq![
            (sum & 0xFF) as u8,
            ((sum >> 8) & 0xFF) as u8,
            ((sum >> 16) & 0xFF) as u8,
            (sum >> 24) as u8,
        ],
        call_ensures(calculate_crc32, (sent,), r),
    ensures
        r == 0x2144_DF1C,
        remainder(sent@, 8 * sent@.len()) == 0xDEBB_20E3,
{
    let (a, b) = (data@, sent@);
    let n = a.len();
    let start = 8 * n;
    assert forall|j: int| 0 <= j < start implies #[trigger] bit(a, j) == bit(b, j) by {
        assert(a[j / 8] == b[j / 8]);
    }
    lemma_same_bits(a, b, start);
    assert forall|j: int| 0 <= j < 32 implies #[trigger] bit(b, 8 * n + j) == (sum >> (j as u32))
        & 1 by {
        lemma_word_bits(b, n, 4, j);
        lemma_word_of_bytes(b, n as int, sum);
    }
    lemma_word_fed(b, start, sum, 32);
    lemma_ones_shifted();
    let (p, q) = (remainder(a, start), remainder(b, start + 32));
    assert(p ^ !p == 0xFFFF_FFFF && q ^ 0 == q) by (bit_vector);
    assert(!0xDEBB_20E3u32 == 0x2144_DF1C) by (bit_vector);
}

proof fn lemma_word_of_bytes(data: Seq<u8>, at: int, sum: u32)
    requires
        data[at] == (sum & 0xFF) as u8,
        data[at + 1] == ((sum >> 8) & 0xFF) as u8,
        data[at + 2] == ((sum >> 16) & 0xFF) as u8,
        data[at + 3] == (sum >> 24) as u8,
    ensures
        word(data, at, 4) == sum,
{
    assert(((sum & 0xFF) as u8) as u32 | ((((sum >> 8) & 0xFF) as u8) as u32) << 8 | ((((sum >> 16)
        & 0xFF) as u8) as u32) << 16 | (((sum >> 24) as u8) as u32) << 24 == sum) by (bit_vector);
}

} // verus!
