use ble_leveler::binary32::Binary32;
use ble_leveler::config::DeviceConfig;
use ble_leveler::gatt::{react, react_to_write, take_over, Action, Event, Handles};
use ble_leveler::storage::load_config;

const HANDLES: Handles = Handles {
    experiment_ctrl: 10,
    experiment_data_cccd: Some(11),
    config: 20,
    config_cccd: Some(21),
    angles_cccd: Some(22),
};

fn write(handle: u16, data: &[u8]) -> Action {
    react(&HANDLES, &Event::Write { handle, data }, &DeviceConfig::default())
}

#[test]
fn control_byte_starts_the_transfer() {
    assert!(matches!(write(10, &[1]), Action::Transfer));
    assert!(matches!(write(10, &[1, 0, 0]), Action::Transfer));
    assert!(matches!(write(10, &[0]), Action::Accept));
    assert!(matches!(write(10, &[2]), Action::Accept));
    assert!(matches!(write(10, &[]), Action::Accept));
}

#[test]
fn subscriptions() {
    assert!(matches!(write(11, &[1, 0]), Action::Transfer));
    assert!(matches!(write(11, &[0, 1]), Action::Transfer));
    assert!(matches!(write(11, &[0, 0]), Action::Accept));
    assert!(matches!(write(21, &[2, 0]), Action::SendConfig));
    assert!(matches!(write(22, &[1, 0]), Action::SendConfig));
    assert!(matches!(write(21, &[0, 0]), Action::Accept));
    assert!(matches!(write(22, &[]), Action::Accept));
    assert!(matches!(write(99, &[1, 1]), Action::Accept));
}

#[test]
fn absent_descriptor_matches_no_handle() {
    let mut handles = HANDLES;
    handles.config_cccd = None;
    let action = react_to_write(&handles, 21, &[1, 0], &DeviceConfig::default());
    assert!(matches!(action, Action::Accept));
}

#[test]
fn other_events() {
    let cfg = DeviceConfig::default();
    assert!(matches!(react(&HANDLES, &Event::Disconnected, &cfg), Action::Stop));
    assert!(matches!(react(&HANDLES, &Event::Request, &cfg), Action::Accept));
    assert!(matches!(react(&HANDLES, &Event::Other, &cfg), Action::Wait));
}

#[test]
fn new_configuration_is_taken_over() {
    let mut current = DeviceConfig::default();
    let mut wanted = current;
    wanted.usbc_dir = 4;
    let record = wanted.to_bytes();
    match react_to_write(&HANDLES, 20, &record, &current) {
        Action::TakeOver(new) => {
            assert_eq!(new, wanted);
            assert_eq!(take_over(&mut current, new), Some(record));
        }
        _ => panic!("not taken over"),
    }
    assert_eq!(current, wanted);
    assert!(matches!(react_to_write(&HANDLES, 20, &record, &current), Action::Accept));
    assert_eq!(take_over(&mut current, wanted), None);
    assert_eq!(current, wanted);
}

#[test]
fn bad_record_is_ignored() {
    assert!(matches!(write(20, &[1, 2, 3]), Action::Accept));
    assert!(matches!(write(20, &[0; 26]), Action::Accept));
}

#[test]
fn nan_offset_is_taken_over_again() {
    let mut current = DeviceConfig::default();
    current.roll_offset = Binary32 { bits: f32::NAN.to_bits() };
    let record = current.to_bytes();
    let action = react_to_write(&HANDLES, 20, &record, &current);
    assert!(matches!(action, Action::TakeOver(_)));
}

#[test]
fn calibration_survives_a_restart() {
    let mut current = load_config(None);
    let mut stored = current.to_bytes();
    let mut wanted = current;
    wanted.top_dir = 6;
    wanted.roll_offset = Binary32 { bits: 2.25f32.to_bits() };
    let rubbish = [9u8; 26];
    let writes: [(u16, &[u8]); 4] =
        [(11, &[1, 0]), (20, &rubbish), (20, &wanted.to_bytes()), (20, &[1, 5])];
    for (handle, data) in writes {
        if let Action::TakeOver(new) = react_to_write(&HANDLES, handle, data, &current) {
            if let Some(record) = take_over(&mut current, new) {
                stored = record;
            }
        }
    }
    assert!(current == wanted);
    assert!(load_config(Some(&stored)) == wanted);
}
