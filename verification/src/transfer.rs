//! The transfer of the experiment file to the phone, packet by packet.
use crate::bytes;
use crate::bytes::put_be32;
use crate::crc;
use crate::crc::calculate_crc32;
use vstd::prelude::*;

verus! {

/// The bytes of a file that a packet holds.
pub const PACKET: usize = 20;

/// The pause after the header, in milliseconds.
pub const HEADER_PAUSE: u64 = 20;

/// The pause after each other packet, in milliseconds.
pub const PACKET_PAUSE: u64 = 15;

/// A packet to notify, and how long to pause after it.
#[derive(Clone, Copy, Debug)]
pub struct Transmission {
    pub packet: [u8; 20],
    pub pause_millis: u64,
}

/// The word "phyphox", with which a header starts.
pub open spec fn magic() -> Seq<u8> {
    seq![0x70u8, 0x68u8, 0x79u8, 0x70u8, 0x68u8, 0x6Fu8, 0x78u8]
}

/// Whether a packet is the header of a file: the word "phyphox", the length and the
/// checksum, most significant byte first, and five zeros.
pub open spec fn is_header(packet: Seq<u8>, file: Seq<u8>) -> bool {
    &&& packet.len() == PACKET
    &&& packet.take(7) == magic()
    &&& bytes::be32(packet, 7) == file.len() % 0x1_0000_0000
    &&& bytes::be32(packet, 11) == crc::crc32(file)
    &&& forall|i: int| 15 <= i < 20 ==> packet[i] == 0
}

/// The packet with the bytes of a file from a multiple of its size on, filled up
/// with zeros.
pub open spec fn chunk(file: Seq<u8>, index: int) -> Seq<u8> {
    Seq::new(
        PACKET as nat,
        |i: int|
            if PACKET * index + i < file.len() {
                file[PACKET * index + i]
            } else {
                0
            },
    )
}

/// The number of packets that a file fills.
pub open spec fn chunk_count(file: Seq<u8>) -> int {
    (file.len() + PACKET - 1) / PACKET as int
}

/// The header of a file.
pub fn transfer_header(file: &[u8]) -> (r: [u8; 20])
    ensures
        is_header(r@, file@),
{
    let checksum: u32 = calculate_crc32(file);
    let mut header: [u8; 20] = [0u8;20];
    header[0] = 0x70;
    header[1] = 0x68;
    header[2] = 0x79;
    header[3] = 0x70;
    header[4] = 0x68;
    header[5] = 0x6F;
    header[6] = 0x78;
    let length: u32 = (file.len() as u64 % 0x1_0000_0000) as u32;
    put_be32(&mut header, 7, length);
    put_be32(&mut header, 11, checksum);
    assert(header@.take(7) =~= magic());
    header
}

/// The packet with the bytes of a file from `start` on, filled up with zeros.
fn filled_packet(file: &[u8], start: usize) -> (r: [u8; 20])
    requires
        start <= file@.len(),
    ensures
        forall|i: int|
            0 <= i < 20 ==> r@[i] == if start + i < file@.len() {
                file@[start + i]
            } else {
                0
            },
{
    let mut packet: [u8; 20] = [0u8;20];
    let mut i: usize = 0;
    while i < PACKET && i < file.len() - start
        invariant
            i <= PACKET,
            start + i <= file@.len(),
            forall|k: int| 0 <= k < i ==> packet@[k] == file@[start + k],
            forall|k: int| i <= k < 20 ==> packet@[k] == 0,
        decreases PACKET - i,
    {
        packet[i] = file[start + i];
        i = i + 1;
    }
    packet
}

/// The step with the given number of the transfer of a file: the header first, then
/// the file in packets, then nothing.
pub fn transfer_phyphox_experiment(file: &[u8], step: usize) -> (r: Option<Transmission>)
    ensures
        r is Some <==> step <= chunk_count(file@),
        r matches Some(t) ==> {
            if step == 0 {
                is_header(t.packet@, file@) && t.pause_millis == HEADER_PAUSE
            } else {
                t.packet@ == chunk(file@, step - 1) && t.pause_millis == PACKET_PAUSE
            }
        },
{
    if step == 0 {
        return Some(
            Transmission { packet: transfer_header(file), pause_millis: HEADER_PAUSE },
        );
    }
    let index: usize = step - 1;
    if index > file.len() / PACKET || index * PACKET >= file.len() {
        return None;
    }
    let packet: [u8; 20] = filled_packet(file, index * PACKET);
    assert(packet@ =~= chunk(file@, index as int));
    Some(Transmission { packet, pause_millis: PACKET_PAUSE })
}

/// The first `n` packets of a file, joined.
pub open spec fn joined(file: Seq<u8>, n: nat) -> Seq<u8>
    decreases n,
{
    if n == 0 {
        Seq::empty()
    } else {
        joined(file, (n - 1) as nat) + chunk(file, n - 1)
    }
}

proof fn lemma_joined(file: Seq<u8>, n: nat)
    ensures
        joined(file, n).len() == PACKET * n,
        forall|i: int|
            0 <= i < PACKET * n ==> joined(file, n)[i] == if i < file.len() {
                file[i]
            } else {
                0
            },
    decreases n,
{
    if n > 0 {
        lemma_joined(file, (n - 1) as nat);
    }
}

/// The packets of a file, joined and cut to the length that the header announces,
/// are the file.
pub proof fn law_file_received(file: Seq<u8>, header: Seq<u8>)
    requires
        is_header(header, file),
        file.len() < 0x1_0000_0000,
    ensures
        joined(file, chunk_count(file) as nat).take(bytes::be32(header, 7)) == file,
{
    let n = chunk_count(file) as nat;
    lemma_joined(file, n);
    assert(file.len() <= PACKET * n);
    assert(bytes::be32(header, 7) == file.len());
    assert(joined(file, chunk_count(file) as nat).take(file.len() as int) =~= file);
}

/// A file that arrives changed within four bytes in a row, or fewer, does not have the
/// checksum that the header announces.
pub proof fn law_corruption_noticed(
    file: Seq<u8>,
    header: Seq<u8>,
    received: Seq<u8>,
    at: int,
    count: int,
)
    requires
        is_header(header, file),
        received.len() == file.len(),
        0 <= at,
        0 <= count <= 4,
        at + count <= file.len(),
        forall|i: int| 0 <= i < file.len() && !(at <= i < at + count) ==> received[i] == file[i],
        received != file,
    ensures
        crc::crc32(received) != bytes::be32(header, 11),
{
    crc::law_burst_detected(file, received, at, count);
}

/// A header is the word "phyphox", the length and the checksum of the file, each most
/// significant byte first, and zeros.
pub proof fn law_header(file: &[u8], r: [u8; 20], sum: u32)
    requires
        call_ensures(transfer_header, (file,), r),
        call_ensures(calculate_crc32, (file,), sum),
    ensures
        forall|i: int| 0 <= i < 7 ==> #[trigger] r@[i] as int == "phyphox"@[i] as int,
        ({
            let length = (file@.len() % 0x1_0000_0000) as u32;
            &&& r@[7] == length >> 24
            &&& r@[8] == (length >> 16) & 0xFF
            &&& r@[9] == (length >> 8) & 0xFF
            &&& r@[10] == length & 0xFF
        }),
        r@[11] == sum >> 24,
        r@[12] == (sum >> 16) & 0xFF,
        r@[13] == (sum >> 8) & 0xFF,
        r@[14] == sum & 0xFF,
        forall|i: int| 15 <= i < 20 ==> #[trigger] r@[i] == 0,
{
    reveal_strlit("phyphox");
    assert forall|i: int| 0 <= i < 7 implies #[trigger] r@[i] as int == "phyphox"@[i] as int by {
        assert(r@[i] == r@.take(7)[i]);
    }
    bytes::law_bytes_of_32(r@, 7, (file@.len() % 0x1_0000_0000) as u32);
    bytes::law_bytes_of_32(r@, 11, sum);
}

/// The header comes first; after it the file goes twenty bytes at a time, the last packet
/// filled up with zeros, until none of its bytes is left.
pub proof fn law_packets(file: &[u8], step: usize, r: Option<Transmission>, header: [u8; 20])
    requires
        call_ensures(transfer_phyphox_experiment, (file, step), r),
        call_ensures(transfer_header, (file,), header),
    ensures
        r is Some <==> step == 0 || 20 * (step - 1) < file@.len(),
        step == 0 ==> r->0.packet@ == header@ && r->0.pause_millis == 20,
        r is Some && step > 0 ==> {
            let start = 20 * (step - 1);
            &&& r->0.pause_millis == 15
            &&& forall|i: int|
                0 <= i < 20 && start + i < file@.len() ==> #[trigger] r->0.packet@[i]
                    == file@[start + i]
            &&& forall|i: int|
                0 <= i < 20 && start + i >= file@.len() ==> #[trigger] r->0.packet@[i] == 0
        },
{
    if step == 0 {
        let packet = r->0.packet;
        bytes::law_bytes_of_32(header@, 7, (file@.len() % 0x1_0000_0000) as u32);
        bytes::law_bytes_of_32(packet@, 7, (file@.len() % 0x1_0000_0000) as u32);
        bytes::law_bytes_of_32(header@, 11, crc::crc32(file@));
        bytes::law_bytes_of_32(packet@, 11, crc::crc32(file@));
        assert forall|i: int| 0 <= i < 20 implies packet@[i] == header@[i] by {
            if i < 7 {
                assert(packet@[i] == packet@.take(7)[i] && header@[i] == header@.take(7)[i]);
            }
        }
        assert(packet@ =~= header@);
    }
}

} // verus!
