use ble_leveler::crc::calculate_crc32;
use ble_leveler::transfer::{transfer_header, transfer_phyphox_experiment};

fn file(len: usize) -> Vec<u8> {
    (0..len).map(|i| (i * 37 + 11) as u8).collect()
}

#[test]
fn crc32_check_values() {
    assert_eq!(calculate_crc32(b"123456789"), 0xCBF4_3926);
    assert_eq!(calculate_crc32(b""), 0);
    assert_eq!(calculate_crc32(b"The quick brown fox jumps over the lazy dog"), 0x414F_A339);
}

#[test]
fn crc32_notices_changes() {
    let data = file(100);
    let sum = calculate_crc32(&data);
    for i in 0..data.len() {
        for flip in [0x01u8, 0x80, 0xFF] {
            let mut changed = data.clone();
            changed[i] ^= flip;
            assert!(calculate_crc32(&changed) != sum);
        }
    }
    for i in 0..data.len() - 3 {
        let mut changed = data.clone();
        for k in 0..4 {
            changed[i + k] = !changed[i + k];
        }
        assert!(calculate_crc32(&changed) != sum);
    }
}

#[test]
fn crc32_notices_changes_of_short_data() {
    for len in 1..=4usize {
        let data = file(len);
        let changed: Vec<u8> = data.iter().map(|b| b ^ 0xA5).collect();
        assert!(calculate_crc32(&changed) != calculate_crc32(&data));
    }
}

#[test]
fn header_layout() {
    let header = transfer_header(b"123456789");
    assert_eq!(&header[0..7], b"phyphox");
    assert_eq!(header[7..11], [0, 0, 0, 9]);
    assert_eq!(header[11..15], [0xCB, 0xF4, 0x39, 0x26]);
    assert_eq!(header[15..20], [0; 5]);
    assert_eq!(transfer_header(&file(0x1_0203))[7..11], [0, 1, 2, 3]);
}

#[test]
fn file_is_received_from_its_packets() {
    for len in [0usize, 1, 19, 20, 21, 40, 399, 400, 401] {
        let data = file(len);
        let first = transfer_phyphox_experiment(&data, 0).unwrap();
        assert_eq!(first.packet, transfer_header(&data));
        assert_eq!(first.pause_millis, 20);
        let mut received: Vec<u8> = Vec::new();
        let mut step = 1;
        while let Some(t) = transfer_phyphox_experiment(&data, step) {
            assert_eq!(t.pause_millis, 15);
            received.extend_from_slice(&t.packet);
            step += 1;
        }
        assert_eq!(step - 1, (len + 19) / 20);
        assert!(received[len..].iter().all(|&b| b == 0));
        received.truncate(len);
        assert_eq!(received, data);
    }
}

#[test]
fn nothing_follows_the_last_packet() {
    let data = file(25);
    assert!(transfer_phyphox_experiment(&data, 2).is_some());
    assert!(transfer_phyphox_experiment(&data, 3).is_none());
    assert!(transfer_phyphox_experiment(&data, usize::MAX).is_none());
    assert!(transfer_phyphox_experiment(&[], 1).is_none());
}
