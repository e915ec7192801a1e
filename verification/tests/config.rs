use ble_leveler::binary32::Binary32;
use ble_leveler::config::DeviceConfig;
use ble_leveler::storage::{load_config, save_config, SaveStep, CONFIG_KEY, STORAGE_END, STORAGE_START};

fn number(value: f32) -> Binary32 {
    Binary32 { bits: value.to_bits() }
}

fn sample() -> DeviceConfig {
    DeviceConfig {
        usbc_dir: 3,
        top_dir: 6,
        pitch_offset: number(-1.25),
        roll_offset: number(0.1),
        th_front: number(0.5),
        th_rear: number(2.0),
        th_left: number(3.25),
        th_right: number(f32::INFINITY),
    }
}

fn sample_record() -> [u8; 26] {
    let mut record = [0u8; 26];
    record[0] = 3;
    record[1] = 6;
    let values = [-1.25f32, 0.1, 0.5, 2.0, 3.25, f32::INFINITY];
    for (i, v) in values.iter().enumerate() {
        record[2 + 4 * i..6 + 4 * i].copy_from_slice(&v.to_le_bytes());
    }
    record
}

fn legacy(thresholds: [i16; 4]) -> [u8; 18] {
    let mut record = [0u8; 18];
    record[0] = 1;
    record[1] = 4;
    record[2..6].copy_from_slice(&7.5f32.to_le_bytes());
    record[6..10].copy_from_slice(&(-3.0f32).to_le_bytes());
    for (i, t) in thresholds.iter().enumerate() {
        record[10 + 2 * i..12 + 2 * i].copy_from_slice(&t.to_le_bytes());
    }
    record
}

#[test]
fn default_configuration() {
    let cfg = DeviceConfig::default();
    assert_eq!((cfg.usbc_dir, cfg.top_dir), (2, 5));
    assert_eq!(cfg.pitch_offset, number(0.0));
    assert_eq!(cfg.roll_offset, number(0.0));
    for th in [cfg.th_front, cfg.th_rear, cfg.th_left, cfg.th_right] {
        assert_eq!(th, number(1.5));
    }
}

#[test]
fn record_layout() {
    assert_eq!(sample().to_bytes(), sample_record());
}

#[test]
fn record_round_trip() {
    assert_eq!(DeviceConfig::from_bytes(&sample().to_bytes()), Some(sample()));
    let default = DeviceConfig::default();
    assert_eq!(DeviceConfig::from_bytes(&default.to_bytes()), Some(default));
}

#[test]
fn trailing_bytes_are_ignored() {
    let mut long = [0xFFu8; 64];
    long[..26].copy_from_slice(&sample_record());
    assert_eq!(DeviceConfig::from_bytes(&long), Some(sample()));
}

#[test]
fn records_of_other_lengths_are_refused() {
    let record = sample_record();
    for len in 0..26 {
        let parsed = DeviceConfig::from_bytes(&record[..len]);
        assert_eq!(parsed.is_some(), len == 18, "{}", len);
    }
}

#[test]
fn directions_out_of_range_are_refused() {
    for (usbc, top) in [(0u8, 5u8), (7, 5), (2, 0), (2, 7), (255, 255)] {
        let mut record = sample_record();
        record[0] = usbc;
        record[1] = top;
        assert_eq!(DeviceConfig::from_bytes(&record), None);
        let mut old = legacy([100, 100, 100, 100]);
        old[0] = usbc;
        old[1] = top;
        assert_eq!(DeviceConfig::from_bytes(&old), None);
    }
}

#[test]
fn thresholds_that_are_not_positive_become_the_default() {
    for bad in [0.0f32, -0.0, -1.0, f32::NAN, f32::NEG_INFINITY] {
        let mut record = sample_record();
        for at in [10, 14, 18, 22] {
            record[at..at + 4].copy_from_slice(&bad.to_le_bytes());
        }
        let cfg = DeviceConfig::from_bytes(&record).unwrap();
        for th in [cfg.th_front, cfg.th_rear, cfg.th_left, cfg.th_right] {
            assert_eq!(th.bits, 1.5f32.to_bits());
        }
    }
}

#[test]
fn legacy_record() {
    let cfg = DeviceConfig::from_bytes(&legacy([123, 0, -50, 32767])).unwrap();
    assert_eq!((cfg.usbc_dir, cfg.top_dir), (1, 4));
    assert_eq!(cfg.pitch_offset, number(7.5));
    assert_eq!(cfg.roll_offset, number(-3.0));
    assert_eq!(cfg.th_front, number(1.23));
    assert_eq!(cfg.th_rear, number(1.5));
    assert_eq!(cfg.th_left, number(1.5));
    assert_eq!(cfg.th_right, number(327.67));
}

#[test]
fn legacy_record_rewritten() {
    let cfg = DeviceConfig::from_bytes(&legacy([1, 99, 150, 1000])).unwrap();
    assert_eq!(DeviceConfig::from_bytes(&cfg.to_bytes()), Some(cfg));
}

#[test]
fn nan_offset_differs_from_itself() {
    let mut cfg = sample();
    assert!(cfg == cfg);
    cfg.pitch_offset = number(f32::NAN);
    assert!(cfg != cfg);
}

#[test]
fn zeros_of_either_sign_compare_equal() {
    let (mut a, mut b) = (sample(), sample());
    a.roll_offset = number(0.0);
    b.roll_offset = number(-0.0);
    assert!(a == b);
}

#[test]
fn loading_what_was_saved() {
    let record = sample().to_bytes();
    assert_eq!(load_config(Some(&record)), sample());
}

#[test]
fn loading_nothing_or_rubbish_gives_the_default() {
    assert_eq!(load_config(None), DeviceConfig::default());
    assert_eq!(load_config(Some(&[])), DeviceConfig::default());
    assert_eq!(load_config(Some(&[9; 26])), DeviceConfig::default());
}

#[test]
fn saving_is_tried_five_times() {
    let mut attempt: u8 = 1;
    let mut made = 0;
    loop {
        made += 1;
        match save_config(attempt, false) {
            SaveStep::Saved => panic!("not stored"),
            SaveStep::Retry { attempt: next, pause_millis } => {
                assert_eq!((next, pause_millis), (attempt + 1, 50));
                attempt = next;
            }
            SaveStep::GiveUp { pause_millis } => {
                assert_eq!(pause_millis, 50);
                break;
            }
        }
    }
    assert_eq!(made, 5);
    assert_eq!(save_config(3, true), SaveStep::Saved);
}

#[test]
fn storage_sector() {
    assert_eq!(STORAGE_END - STORAGE_START, 8 * 1024);
    assert_eq!(CONFIG_KEY, 1);
}
