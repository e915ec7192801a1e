use ble_leveler::accelerometer::init_accelerometer;
use ble_leveler::advertising::{
    advertise, encode_fields, leveling_service_uuid, phyphox_service_uuid, AdField, AdvertiseError,
    BR_EDR_NOT_SUPPORTED, LE_GENERAL_DISCOVERABLE,
};
use ble_leveler::identity::{device_address, device_name};
use ble_leveler::measuring::{after_measurement, MeasureStep};

#[test]
fn names_end_in_three_hexadecimal_digits() {
    assert_eq!(&device_name(0), b"Leveler 000");
    assert_eq!(&device_name(0x1234_5ABC), b"Leveler ABC");
    assert_eq!(&device_name(0xFFFF_F90F), b"Leveler 90F");
}

#[test]
fn names_are_text_and_differ() {
    let mut seen: Vec<String> = Vec::new();
    for id in 0..0x1000u32 {
        seen.push(std::str::from_utf8(&device_name(id)).unwrap().to_string());
    }
    seen.sort();
    seen.dedup();
    assert_eq!(seen.len(), 0x1000);
}

#[test]
fn addresses_are_static_random() {
    assert_eq!(device_address(0x4433_2211, 0x0000_6655), [0x11, 0x22, 0x33, 0x44, 0x55, 0xE6]);
    for addr1 in 0..=0xFFFFu32 {
        let address = device_address(7, addr1);
        assert_eq!(address[5], (addr1 >> 8) as u8 | 0xC0);
        assert_eq!(address[4], addr1 as u8);
    }
    assert_eq!(device_address(0, 0xFFFF_0000)[5], 0xC0);
}

#[test]
fn advertisement_bytes() {
    let ad = advertise(b"Leveler 0AF").unwrap();
    let mut adv = vec![2, 1, 6, 17, 7];
    adv.extend_from_slice(&0xa0000001_4493_41db_9609_eb926bd307c7u128.to_le_bytes());
    assert_eq!(&ad.adv.bytes[..ad.adv.len], &adv[..]);
    assert_eq!(ad.adv.bytes[ad.adv.len..], [0; 10]);
    let mut scan = vec![17, 7];
    scan.extend_from_slice(&0xcddf0001_30f7_4671_8b43_5e40ba53514au128.to_le_bytes());
    scan.extend_from_slice(&[12, 9]);
    scan.extend_from_slice(b"Leveler 0AF");
    assert_eq!(&ad.scan.bytes[..ad.scan.len], &scan[..]);
    assert_eq!(ad.scan.len, 31);
}

#[test]
fn names_that_do_not_fit_are_refused() {
    assert_eq!(advertise(b"").unwrap().scan.len, 20);
    assert_eq!(advertise(b"twelve bytes").err(), Some(AdvertiseError::InsufficientSpace));
    assert_eq!(advertise(&[b'x'; 300]).err(), Some(AdvertiseError::InsufficientSpace));
}

#[test]
fn fields_encode_in_order() {
    let data = encode_fields(&[AdField::CompleteLocalName(b"ab"), AdField::Flags(5)]).unwrap();
    assert_eq!(data.bytes[..data.len], [3, 9, b'a', b'b', 2, 1, 5]);
    let uuid = leveling_service_uuid();
    assert!(encode_fields(&[
        AdField::CompleteServiceUuid128(uuid),
        AdField::CompleteServiceUuid128(uuid),
    ])
    .is_none());
}

#[test]
fn assigned_numbers() {
    assert_eq!(LE_GENERAL_DISCOVERABLE, trouble_host::advertise::LE_GENERAL_DISCOVERABLE);
    assert_eq!(BR_EDR_NOT_SUPPORTED, trouble_host::advertise::BR_EDR_NOT_SUPPORTED);
    assert_eq!(
        leveling_service_uuid(),
        0xa0000001_4493_41db_9609_eb926bd307c7u128.to_le_bytes()
    );
    assert_eq!(
        phyphox_service_uuid(),
        0xcddf0001_30f7_4671_8b43_5e40ba53514au128.to_le_bytes()
    );
}

#[test]
fn accelerometer_setup() {
    assert_eq!(init_accelerometer(), [[0x10, 0x42], [0x17, 0x09]]);
}

#[test]
fn measuring_ends_when_angles_cannot_be_sent() {
    let again = MeasureStep::Again { pause_millis: 50 };
    assert_eq!(after_measurement(Some(true)), again);
    assert_eq!(after_measurement(None), again);
    assert_eq!(after_measurement(Some(false)), MeasureStep::Stop);
}
