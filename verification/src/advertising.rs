//! The advertisement and the scan response.
use crate::identity;
use trouble_host::advertise::AdStructure;
use vstd::prelude::*;

verus! {

/// The flag of a device that can be discovered at any time.
pub const LE_GENERAL_DISCOVERABLE: u8 = 0x02;

/// The flag of a device without classic Bluetooth.
pub const BR_EDR_NOT_SUPPORTED: u8 = 0x04;

/// The most bytes that an advertisement or a scan response holds.
pub const AD_CAPACITY: usize = 31;

/// A field of an advertisement. UUIDs have their least significant byte first.
#[derive(Clone, Copy, Debug)]
pub enum AdField<'a> {
    Flags(u8),
    CompleteServiceUuid128([u8; 16]),
    CompleteLocalName(&'a [u8]),
}

/// The bytes of an advertisement or a scan response.
#[derive(Clone, Copy, Debug)]
pub struct AdData {
    pub bytes: [u8; 31],
    pub len: usize,
}

/// Both payloads.
#[derive(Clone, Copy, Debug)]
pub struct Advertisement {
    pub adv: AdData,
    pub scan: AdData,
}

/// Why there is no advertisement.
#[derive(Clone, Copy, Debug, PartialEq, Eq, Structural)]
pub enum AdvertiseError {
    /// The device's name is too long for the scan response.
    InsufficientSpace,
}

/// The UUID of the leveling service, a0000001-4493-41db-9609-eb926bd307c7.
pub open spec fn leveling_uuid() -> Seq<u8> {
    seq![
        0xC7u8, 0x07u8, 0xD3u8, 0x6Bu8, 0x92u8, 0xEBu8, 0x09u8, 0x96u8,
        0xDBu8, 0x41u8, 0x93u8, 0x44u8, 0x01u8, 0x00u8, 0x00u8, 0xA0u8,
    ]
}

/// The UUID of the Phyphox service, cddf0001-30f7-4671-8b43-5e40ba53514a.
pub open spec fn phyphox_uuid() -> Seq<u8> {
    seq![
        0x4Au8, 0x51u8, 0x53u8, 0xBAu8, 0x40u8, 0x5Eu8, 0x43u8, 0x8Bu8,
        0x71u8, 0x46u8, 0xF7u8, 0x30u8, 0x01u8, 0x00u8, 0xDFu8, 0xCDu8,
    ]
}

impl<'a> AdField<'a> {
    /// The field as it is sent: the number of bytes that follow, its type, its value.
    pub open spec fn encoded(self) -> Seq<u8> {
        match self {
            AdField::Flags(flags) => seq![2u8, 0x01u8, flags],
            AdField::CompleteServiceUuid128(uuid) => seq![17u8, 0x07u8] + uuid@,
            AdField::CompleteLocalName(name) => seq![(name@.len() + 1) as u8, 0x09u8] + name@,
        }
    }
}

impl AdData {
    /// The bytes that are sent.
    pub open spec fn sent(self) -> Seq<u8> {
        self.bytes@.take(self.len as int)
    }
}

/// The bytes of the advertisement: the flags and the leveling service.
pub open spec fn adv_bytes() -> Seq<u8> {
    seq![2u8, 0x01u8, 0x06u8, 17u8, 0x07u8] + leveling_uuid()
}

/// The bytes of the scan response: the Phyphox service and the name.
pub open spec fn scan_bytes(name: Seq<u8>) -> Seq<u8> {
    seq![17u8, 0x07u8] + phyphox_uuid() + seq![(name.len() + 1) as u8, 0x09u8] + name
}

/// The UUID of the leveling service, least significant byte first.
pub fn leveling_service_uuid() -> (r: [u8; 16])
    ensures
        r@ == leveling_uuid(),
{
    let uuid: [u8; 16] = [
        0xC7, 0x07, 0xD3, 0x6B, 0x92, 0xEB, 0x09, 0x96,
        0xDB, 0x41, 0x93, 0x44, 0x01, 0x00, 0x00, 0xA0,
    ];
    assert(uuid@ =~= leveling_uuid());
    uuid
}

/// The UUID of the Phyphox service, least significant byte first.
pub fn phyphox_service_uuid() -> (r: [u8; 16])
    ensures
        r@ == phyphox_uuid(),
{
    let uuid: [u8; 16] = [
        0x4A, 0x51, 0x53, 0xBA, 0x40, 0x5E, 0x43, 0x8B,
        0x71, 0x46, 0xF7, 0x30, 0x01, 0x00, 0xDF, 0xCD,
    ];
    assert(uuid@ =~= phyphox_uuid());
    uuid
}

/// Calls `AdStructure::encode_slice` of `trouble_host`.
///
/// It writes the fields one after the other to the start of `dest`, leaves the rest of
/// `dest` as it was, and returns how many bytes it wrote. Where they do not fit it
/// returns an error, and what `dest` then holds is left open.
#[verifier::external_body]
fn encode_slice(fields: &[AdField; 2], dest: &mut [u8; 31]) -> (r: Option<usize>)
    ensures
        ({
            let written = fields@[0].encoded() + fields@[1].encoded();
            if written.len() <= AD_CAPACITY {
                &&& r == Some(written.len() as usize)
                &&& final(dest)@ == written + old(dest)@.skip(written.len() as int)
            } else {
                r is None
            }
        }),
{
    let structures = fields.each_ref().map(
        |field|
            match field {
                AdField::Flags(flags) => AdStructure::Flags(*flags),
                AdField::CompleteServiceUuid128(uuid) => {
                    AdStructure::CompleteServiceUuids128(core::slice::from_ref(uuid))
                },
                AdField::CompleteLocalName(name) => AdStructure::CompleteLocalName(name),
            },
    );
    AdStructure::encode_slice(&structures, dest).ok()
}

/// Encodes two fields, if they fit.
pub fn encode_fields(fields: &[AdField; 2]) -> (r: Option<AdData>)
    ensures
        ({
            let written = fields@[0].encoded() + fields@[1].encoded();
            if written.len() <= AD_CAPACITY {
                r matches Some(data) && data.len == written.len() && data.sent() == written
                    && forall|i: int| data.len <= i < AD_CAPACITY ==> data.bytes@[i] == 0
            } else {
                r is None
            }
        }),
{
    let mut bytes: [u8; 31] = [0u8;31];
    let ghost blank = bytes@;
    match encode_slice(fields, &mut bytes) {
        Some(len) => {
            let data = AdData { bytes, len };
            proof {
                let written = fields@[0].encoded() + fields@[1].encoded();
                assert(data.sent() =~= written);
                assert forall|i: int| data.len <= i < AD_CAPACITY implies data.bytes@[i] == 0 by {
                    assert(data.bytes@[i] == blank.skip(len as int)[i - len]);
                }
            }
            Some(data)
        },
        None => None,
    }
}

/// The payloads with which a device of the given name is advertised.
///
/// The advertisement holds the flags and the leveling service, the scan response the
/// Phyphox service and the name, which can be up to eleven bytes long.
pub fn advertise(name: &[u8]) -> (r: Result<Advertisement, AdvertiseError>)
    ensures
        r is Ok <==> name@.len() <= 11,
        r matches Ok(ad) ==> ad.adv.sent() == adv_bytes() && ad.scan.sent() == scan_bytes(name@),
        r matches Ok(ad) ==> ad.adv.len == 21 && ad.scan.len == 20 + name@.len(),
        r matches Err(e) ==> e == AdvertiseError::InsufficientSpace,
{
    let flags: u8 = LE_GENERAL_DISCOVERABLE | BR_EDR_NOT_SUPPORTED;
    assert(0x02u8 | 0x04u8 == 0x06u8) by (bit_vector);
    let adv_fields = [
        AdField::Flags(flags),
        AdField::CompleteServiceUuid128(leveling_service_uuid()),
    ];
    let scan_fields = [
        AdField::CompleteServiceUuid128(phyphox_service_uuid()),
        AdField::CompleteLocalName(name),
    ];
    assert(adv_fields@[0].encoded() + adv_fields@[1].encoded() =~= adv_bytes());
    assert(scan_fields@[0].encoded() + scan_fields@[1].encoded() =~= scan_bytes(name@));
    match (encode_fields(&adv_fields), encode_fields(&scan_fields)) {
        (Some(adv), Some(scan)) => Ok(Advertisement { adv, scan }),
        _ => Err(AdvertiseError::InsufficientSpace),
    }
}

/// The name of every device fits, to the last byte.
pub proof fn law_device_name_fits(dev_id: int)
    ensures
        scan_bytes(identity::named(dev_id)).len() == AD_CAPACITY,
{
}

/// The advertisement is three bytes of flags, general discoverability without classic
/// Bluetooth, and the leveling service; the scan response is the Phyphox service and the
/// name, each field with its length and its type ahead. UUIDs go from the last digits to
/// the first.
pub proof fn law_advertised(name: &[u8], r: Result<Advertisement, AdvertiseError>)
    requires
        call_ensures(advertise, (name,), r),
    ensures
        r is Ok <==> name@.len() <= 11,
        r is Ok ==> {
            let adv = r->Ok_0.adv.sent();
            let scan = r->Ok_0.scan.sent();
            let leveling = 0xa0000001_4493_41db_9609_eb926bd307c7u128;
            let phyphox = 0xcddf0001_30f7_4671_8b43_5e40ba53514au128;
            &&& adv.len() == 21
            &&& adv[0] == 2 && adv[1] == 0x01 && adv[2] == 0x02 | 0x04u8
            &&& adv[3] == 17 && adv[4] == 0x07
            &&& forall|i: int|
                0 <= i < 16 ==> #[trigger] adv[5 + i] == (leveling >> ((8 * i) as u128)) & 0xFF
            &&& scan.len() == 20 + name@.len()
            &&& scan[0] == 17 && scan[1] == 0x07
            &&& forall|i: int|
                0 <= i < 16 ==> #[trigger] scan[2 + i] == (phyphox >> ((8 * i) as u128)) & 0xFF
            &&& scan[18] == name@.len() + 1 && scan[19] == 0x09
            &&& forall|i: int| 0 <= i < name@.len() ==> #[trigger] scan[20 + i] == name@[i]
        },
{
    if r is Ok {
        let leveling = 0xa0000001_4493_41db_9609_eb926bd307c7u128;
        let phyphox = 0xcddf0001_30f7_4671_8b43_5e40ba53514au128;
        assert(0x02u8 | 0x04u8 == 0x06u8) by (bit_vector);
        assert((leveling >> 0u128) & 0xFF == 0xC7
            && (leveling >> 8u128) & 0xFF == 0x07
            && (leveling >> 16u128) & 0xFF == 0xD3
            && (leveling >> 24u128) & 0xFF == 0x6B
            && (leveling >> 32u128) & 0xFF == 0x92
            && (leveling >> 40u128) & 0xFF == 0xEB
            && (leveling >> 48u128) & 0xFF == 0x09
            && (leveling >> 56u128) & 0xFF == 0x96
            && (leveling >> 64u128) & 0xFF == 0xDB
            && (leveling >> 72u128) & 0xFF == 0x41
            && (leveling >> 80u128) & 0xFF == 0x93
            && (leveling >> 88u128) & 0xFF == 0x44
            && (leveling >> 96u128) & 0xFF == 0x01
            && (leveling >> 104u128) & 0xFF == 0x00
            && (leveling >> 112u128) & 0xFF == 0x00
            && (leveling >> 120u128) & 0xFF == 0xA0)
            by (bit_vector)
            requires
                leveling == 0xa0000001_4493_41db_9609_eb926bd307c7u128,
        ;
        assert((phyphox >> 0u128) & 0xFF == 0x4A
            && (phyphox >> 8u128) & 0xFF == 0x51
            && (phyphox >> 16u128) & 0xFF == 0x53
            && (phyphox >> 24u128) & 0xFF == 0xBA
            && (phyphox >> 32u128) & 0xFF == 0x40
            && (phyphox >> 40u128) & 0xFF == 0x5E
            && (phyphox >> 48u128) & 0xFF == 0x43
            && (phyphox >> 56u128) & 0xFF == 0x8B
            && (phyphox >> 64u128) & 0xFF == 0x71
            && (phyphox >> 72u128) & 0xFF == 0x46
            && (phyphox >> 80u128) & 0xFF == 0xF7
            && (phyphox >> 88u128) & 0xFF == 0x30
            && (phyphox >> 96u128) & 0xFF == 0x01
            && (phyphox >> 104u128) & 0xFF == 0x00
            && (phyphox >> 112u128) & 0xFF == 0xDF
            && (phyphox >> 120u128) & 0xFF == 0xCD)
            by (bit_vector)
            requires
                phyphox == 0xcddf0001_30f7_4671_8b43_5e40ba53514au128,
        ;
    }
}

/// The number of bytes that a field takes up.
pub open spec fn field_size(field: AdField) -> int {
    match field {
        AdField::Flags(_) => 3,
        AdField::CompleteServiceUuid128(_) => 18,
        AdField::CompleteLocalName(name) => 2 + name@.len() as int,
    }
}

/// Whether a field stands at a position: the number of bytes that follow, its type and its
/// value.
pub open spec fn stands_at(bytes: Seq<u8>, at: int, field: AdField) -> bool {
    &&& bytes[at] == field_size(field) - 1
    &&& match field {
        AdField::Flags(flags) => bytes[at + 1] == 0x01 && bytes[at + 2] == flags,
        AdField::CompleteServiceUuid128(uuid) => {
            &&& bytes[at + 1] == 0x07
            &&& forall|i: int| 0 <= i < 16 ==> bytes[at + 2 + i] == #[trigger] uuid@[i]
        },
        AdField::CompleteLocalName(name) => {
            &&& bytes[at + 1] == 0x09
            &&& forall|i: int| 0 <= i < name@.len() ==> bytes[at + 2 + i] == #[trigger] name@[i]
        },
    }
}

/// Two fields are encoded where their sizes come to at most 31 bytes, the second behind the
/// first, and zeros behind both.
pub proof fn law_fields_encoded(fields: &[AdField; 2], r: Option<AdData>)
    requires
        call_ensures(encode_fields, (fields,), r),
    ensures
        r is Some <==> field_size(fields@[0]) + field_size(fields@[1]) <= 31,
        r is Some ==> {
            let data = r->0;
            &&& data.len == field_size(fields@[0]) + field_size(fields@[1])
            &&& stands_at(data.bytes@, 0, fields@[0])
            &&& stands_at(data.bytes@, field_size(fields@[0]), fields@[1])
            &&& forall|i: int| data.len <= i < 31 ==> #[trigger] data.bytes@[i] == 0
        },
{
    lemma_encoded_size(fields@[0]);
    lemma_encoded_size(fields@[1]);
    if r is Some {
        let data = r->0;
        let (first, second) = (fields@[0].encoded(), fields@[1].encoded());
        let written = first + second;
        assert forall|i: int| 0 <= i < first.len() implies data.bytes@[0 + i] == #[trigger] first[i]
            by {
            assert(data.sent()[i] == written[i]);
        }
        assert forall|i: int| 0 <= i < second.len() implies data.bytes@[first.len() + i]
            == #[trigger] second[i] by {
            assert(data.sent()[first.len() + i] == written[first.len() + i]);
        }
        lemma_stands(data.bytes@, 0, fields@[0]);
        lemma_stands(data.bytes@, first.len() as int, fields@[1]);
    }
}

proof fn lemma_encoded_size(field: AdField)
    ensures
        field.encoded().len() == field_size(field),
{
}

/// The bytes of a field that is encoded at a position.
proof fn lemma_stands(bytes: Seq<u8>, at: int, field: AdField)
    requires
        field_size(field) <= 31,
        forall|i: int|
            0 <= i < field.encoded().len() ==> bytes[at + i] == #[trigger] field.encoded()[i],
    ensures
        stands_at(bytes, at, field),
{
    let encoded = field.encoded();
    lemma_encoded_size(field);
    assert(bytes[at + 0] == encoded[0] && bytes[at + 1] == encoded[1]);
    match field {
        AdField::Flags(flags) => {
            assert(bytes[at + 2] == encoded[2]);
        },
        AdField::CompleteServiceUuid128(uuid) => {
            assert forall|i: int| 0 <= i < 16 implies bytes[at + 2 + i] == #[trigger] uuid@[i] by {
                assert(bytes[at + (2 + i)] == encoded[2 + i]);
            }
        },
        AdField::CompleteLocalName(name) => {
            assert forall|i: int| 0 <= i < name@.len() implies bytes[at + 2 + i]
                == #[trigger] name@[i] by {
                assert(bytes[at + (2 + i)] == encoded[2 + i]);
            }
        },
    }
}

} // verus!
