//! What the device does when the phone reads or writes an attribute.
use crate::arithmetic;
use crate::binary32::Binary32;
use crate::config;
use crate::config::DeviceConfig;
use vstd::prelude::*;

verus! {

/// The attribute handles that a write can be meant for. A characteristic that cannot
/// be subscribed to has no configuration descriptor (CCCD).
#[derive(Clone, Copy, Debug)]
pub struct Handles {
    pub experiment_ctrl: u16,
    pub experiment_data_cccd: Option<u16>,
    pub config: u16,
    pub config_cccd: Option<u16>,
    pub angles_cccd: Option<u16>,
}

/// What happens on a connection.
#[derive(Clone, Copy, Debug)]
pub enum Event<'a> {
    /// The phone is gone.
    Disconnected,
    /// The phone writes an attribute.
    Write { handle: u16, data: &'a [u8] },
    /// The phone makes another request, such as a read.
    Request,
    /// Anything else.
    Other,
}

/// What the device does about it. Requests are accepted before anything is sent.
#[derive(Clone, Copy, Debug)]
pub enum Action {
    /// End the connection.
    Stop,
    /// Wait for the next event.
    Wait,
    /// Accept the request, no more.
    Accept,
    /// Accept the request and send the configuration.
    SendConfig,
    /// Accept the request and transfer the experiment.
    Transfer,
    /// Accept the request and take over a configuration.
    TakeOver(DeviceConfig),
}

/// Whether what is written to a descriptor subscribes: it holds a byte that is not zero.
pub open spec fn subscribes(data: Seq<u8>) -> bool {
    exists|i: int| 0 <= i < data.len() && data[i] != 0
}

/// The action on a write.
///
/// Handles are told apart in this order: experiment control, configuration, and the
/// descriptors of experiment data, configuration and angles.
pub open spec fn action_on_write(
    handles: Handles,
    handle: u16,
    data: Seq<u8>,
    current: DeviceConfig,
) -> Action {
    if handle == handles.experiment_ctrl {
        if data.len() > 0 && data[0] == 1 {
            Action::Transfer
        } else {
            Action::Accept
        }
    } else if handle == handles.config {
        match config::parsed(data) {
            Some(new) => if new.equals(current) {
                Action::Accept
            } else {
                Action::TakeOver(new)
            },
            None => Action::Accept,
        }
    } else if Some(handle) == handles.experiment_data_cccd {
        if subscribes(data) {
            Action::Transfer
        } else {
            Action::Accept
        }
    } else if Some(handle) == handles.config_cccd || Some(handle) == handles.angles_cccd {
        if subscribes(data) {
            Action::SendConfig
        } else {
            Action::Accept
        }
    } else {
        Action::Accept
    }
}

/// The action on an event.
pub open spec fn action_on(handles: Handles, event: Event, current: DeviceConfig) -> Action {
    match event {
        Event::Disconnected => Action::Stop,
        Event::Write { handle, data } => action_on_write(handles, handle, data@, current),
        Event::Request => Action::Accept,
        Event::Other => Action::Wait,
    }
}

fn is_subscription(data: &[u8]) -> (r: bool)
    ensures
        r == subscribes(data@),
{
    let mut i: usize = 0;
    while i < data.len()
        invariant
            i <= data@.len(),
            forall|k: int| 0 <= k < i ==> data@[k] == 0,
        decreases data@.len() - i,
    {
        if data[i] != 0 {
            return true;
        }
        i = i + 1;
    }
    false
}

fn is_handle(handle: u16, optional: Option<u16>) -> (r: bool)
    ensures
        r == (Some(handle) == optional),
{
    match optional {
        Some(other) => handle == other,
        None => false,
    }
}

/// The action on a write.
pub fn react_to_write(
    handles: &Handles,
    handle: u16,
    data: &[u8],
    current: &DeviceConfig,
) -> (r: Action)
    ensures
        r == action_on_write(*handles, handle, data@, *current),
{
    if handle == handles.experiment_ctrl {
        if data.len() > 0 && data[0] == 1 {
            Action::Transfer
        } else {
            Action::Accept
        }
    } else if handle == handles.config {
        match DeviceConfig::from_bytes(data) {
            Some(new) => if new != *current {
                Action::TakeOver(new)
            } else {
                Action::Accept
            },
            None => Action::Accept,
        }
    } else if is_handle(handle, handles.experiment_data_cccd) {
        if is_subscription(data) {
            Action::Transfer
        } else {
            Action::Accept
        }
    } else if is_handle(handle, handles.config_cccd) || is_handle(handle, handles.angles_cccd) {
        if is_subscription(data) {
            Action::SendConfig
        } else {
            Action::Accept
        }
    } else {
        Action::Accept
    }
}

/// The action on an event, with the configuration that is current.
pub fn react(handles: &Handles, event: &Event, current: &DeviceConfig) -> (r: Action)
    ensures
        r == action_on(*handles, *event, *current),
{
    match event {
        Event::Disconnected => Action::Stop,
        Event::Write { handle, data } => react_to_write(handles, *handle, data, current),
        Event::Request => Action::Accept,
        Event::Other => Action::Wait,
    }
}

/// Whether a number is the one that was to be taken over, or one of the same value.
pub open spec fn has_taken(number: Binary32, new: Binary32) -> bool {
    number.bits == new.bits || arithmetic::same_value(number, new)
}

/// What is of the same value from one side is so from the other.
proof fn lemma_has_taken(new: DeviceConfig, current: DeviceConfig)
    requires
        new.equals(current),
    ensures
        has_taken(current.pitch_offset, new.pitch_offset),
        has_taken(current.roll_offset, new.roll_offset),
        has_taken(current.th_front, new.th_front),
        has_taken(current.th_rear, new.th_rear),
        has_taken(current.th_left, new.th_left),
        has_taken(current.th_right, new.th_right),
{
    config::law_equal_fields(new, current);
}

/// Takes over a configuration. Where it differs from the current one, gives the record
/// that is then to be published, stored and sent.
pub fn take_over(current: &mut DeviceConfig, new: DeviceConfig) -> (r: Option<[u8; 26]>)
    ensures
        r is Some <==> !new.equals(*old(current)),
        r matches Some(record) ==> new.recorded(record@),
        *final(current) == if new.equals(*old(current)) {
            *old(current)
        } else {
            new
        },
        final(current).usbc_dir == new.usbc_dir,
        final(current).top_dir == new.top_dir,
        has_taken(final(current).pitch_offset, new.pitch_offset),
        has_taken(final(current).roll_offset, new.roll_offset),
        has_taken(final(current).th_front, new.th_front),
        has_taken(final(current).th_rear, new.th_rear),
        has_taken(final(current).th_left, new.th_left),
        has_taken(final(current).th_right, new.th_right),
        r is None ==> *final(current) == *old(current),
        r is Some ==> *final(current) == new,
        r is None <==> {
            &&& new.usbc_dir == old(current).usbc_dir
            &&& new.top_dir == old(current).top_dir
            &&& arithmetic::same_value(new.pitch_offset, old(current).pitch_offset)
            &&& arithmetic::same_value(new.roll_offset, old(current).roll_offset)
            &&& arithmetic::same_value(new.th_front, old(current).th_front)
            &&& arithmetic::same_value(new.th_rear, old(current).th_rear)
            &&& arithmetic::same_value(new.th_left, old(current).th_left)
            &&& arithmetic::same_value(new.th_right, old(current).th_right)
        },
        r matches Some(record) ==> call_ensures(DeviceConfig::to_bytes, (&new,), record),
{
    proof {
        config::law_equal_fields(new, *current);
        if new.equals(*current) {
            lemma_has_taken(new, *current);
        }
    }
    if new != *current {
        *current = new;
        Some(new.to_bytes())
    } else {
        None
    }
}

/// Writing the record of the current configuration changes nothing, unless an offset
/// is a NaN.
pub proof fn law_rewrite_ignored(handles: Handles, current: DeviceConfig, record: Seq<u8>)
    requires
        handles.config != handles.experiment_ctrl,
        current.valid(),
        current.recorded(record),
        !current.pitch_offset.is_nan(),
        !current.roll_offset.is_nan(),
    ensures
        action_on_write(handles, handles.config, record, current) == Action::Accept,
{
    config::law_record_round_trip(current, record);
}

/// Only a configuration that a record gives is taken over, so directions stay cardinal
/// and thresholds positive.
pub proof fn law_taken_over_valid(
    handles: Handles,
    handle: u16,
    data: Seq<u8>,
    current: DeviceConfig,
)
    ensures
        action_on_write(handles, handle, data, current) matches Action::TakeOver(new) ==> {
            &&& handle == handles.config
            &&& config::parsed(data) == Some(new)
            &&& new.valid()
        },
{
    config::law_parsed_valid(data);
}

/// What the phone reads after a configuration was taken over is what it wrote.
pub proof fn law_write_read_back(
    handles: Handles,
    data: Seq<u8>,
    current: DeviceConfig,
    new: DeviceConfig,
    record: Seq<u8>,
)
    requires
        action_on_write(handles, handles.config, data, current) == Action::TakeOver(new),
        new.recorded(record),
    ensures
        config::parsed(record) == config::parsed(data),
        new.recorded(data) ==> record == data,
{
    law_taken_over_valid(handles, handles.config, data, current);
    config::law_record_round_trip(new, record);
    if new.recorded(data) {
        config::law_record_unique(new, data, record);
    }
}

/// The configuration after a write.
pub open spec fn config_after(
    handles: Handles,
    handle: u16,
    data: Seq<u8>,
    current: DeviceConfig,
) -> DeviceConfig {
    match action_on_write(handles, handle, data, current) {
        Action::TakeOver(new) => if new.equals(current) {
            current
        } else {
            new
        },
        _ => current,
    }
}

/// The configuration after a series of writes, each to a handle.
pub open spec fn config_after_all(
    handles: Handles,
    writes: Seq<(u16, Seq<u8>)>,
    start: DeviceConfig,
) -> DeviceConfig
    decreases writes.len(),
{
    if writes.len() == 0 {
        start
    } else {
        let (handle, data) = writes.last();
        config_after(handles, handle, data, config_after_all(handles, writes.drop_last(), start))
    }
}

/// Whatever the phone writes, a valid configuration stays valid.
pub proof fn law_config_stays_valid(
    handles: Handles,
    writes: Seq<(u16, Seq<u8>)>,
    start: DeviceConfig,
)
    requires
        start.valid(),
    ensures
        config_after_all(handles, writes, start).valid(),
    decreases writes.len(),
{
    if writes.len() > 0 {
        law_config_stays_valid(handles, writes.drop_last(), start);
        let (handle, data) = writes.last();
        let current = config_after_all(handles, writes.drop_last(), start);
        law_taken_over_valid(handles, handle, data, current);
    }
}

/// A record that parses takes effect: the configuration after it has its values.
pub proof fn law_write_takes_effect(
    handles: Handles,
    data: Seq<u8>,
    current: DeviceConfig,
    new: DeviceConfig,
)
    requires
        handles.config != handles.experiment_ctrl,
        config::parsed(data) == Some(new),
    ensures
        ({
            let after = config_after(handles, handles.config, data, current);
            after == new || after.equals(new)
        }),
{
}

/// A record that does not parse is accepted and ignored.
pub proof fn law_bad_record_ignored(handles: Handles, data: Seq<u8>, current: DeviceConfig)
    requires
        config::parsed(data) is None,
        handles.config != handles.experiment_ctrl,
    ensures
        action_on_write(handles, handles.config, data, current) == Action::Accept,
{
}

/// A record that the phone writes takes effect in every field: the directions are then
/// those of the record, and both offsets and each of the four thresholds have its values.
/// It is taken over exactly where some value differs. What is no record is ignored.
pub proof fn law_record_lands(
    handles: &Handles,
    data: &[u8],
    current: &DeviceConfig,
    r: Action,
    read: Option<DeviceConfig>,
)
    requires
        handles.config != handles.experiment_ctrl,
        call_ensures(react_to_write, (handles, handles.config, data, current), r),
        call_ensures(DeviceConfig::from_bytes, (data,), read),
    ensures
        read is None ==> r is Accept,
        read is Some ==> {
            let new = read->0;
            let after = match r {
                Action::TakeOver(taken) => taken,
                _ => *current,
            };
            &&& r is TakeOver || r is Accept
            &&& r is TakeOver <==> {
                ||| new.usbc_dir != current.usbc_dir
                ||| new.top_dir != current.top_dir
                ||| !arithmetic::same_value(new.pitch_offset, current.pitch_offset)
                ||| !arithmetic::same_value(new.roll_offset, current.roll_offset)
                ||| !arithmetic::same_value(new.th_front, current.th_front)
                ||| !arithmetic::same_value(new.th_rear, current.th_rear)
                ||| !arithmetic::same_value(new.th_left, current.th_left)
                ||| !arithmetic::same_value(new.th_right, current.th_right)
            }
            &&& after.usbc_dir == new.usbc_dir
            &&& after.top_dir == new.top_dir
            &&& has_taken(after.pitch_offset, new.pitch_offset)
            &&& has_taken(after.roll_offset, new.roll_offset)
            &&& has_taken(after.th_front, new.th_front)
            &&& has_taken(after.th_rear, new.th_rear)
            &&& has_taken(after.th_left, new.th_left)
            &&& has_taken(after.th_right, new.th_right)
        },
{
    if read is Some {
        config::law_equal_fields(read->0, *current);
        if read->0.equals(*current) {
            lemma_has_taken(read->0, *current);
        }
    }
}

/// A one as the first byte that is written to the experiment control, and nothing else
/// there, asks for the experiment.
pub proof fn law_control(handles: &Handles, data: &[u8], current: &DeviceConfig, r: Action)
    requires
        call_ensures(react_to_write, (handles, handles.experiment_ctrl, data, current), r),
    ensures
        data@.len() > 0 && data@[0] == 1 ==> r is Transfer,
        data@.len() == 0 || data@[0] != 1 ==> r is Accept,
{
}

/// Any byte that is not zero, written to a descriptor, subscribes: to the experiment, which
/// is then transferred, or to the configuration or the angles, whereupon the configuration
/// is sent. Zeros do not, nor does a write to any other handle.
pub proof fn law_subscription(
    handles: &Handles,
    handle: u16,
    data: &[u8],
    current: &DeviceConfig,
    r: Action,
    at: int,
)
    requires
        handle != handles.experiment_ctrl,
        handle != handles.config,
        call_ensures(react_to_write, (handles, handle, data, current), r),
    ensures
        0 <= at < data@.len() && data@[at] != 0 ==> {
            let to_experiment = handles.experiment_data_cccd == Some(handle);
            let to_config = handles.config_cccd == Some(handle);
            let to_angles = handles.angles_cccd == Some(handle);
            &&& to_experiment ==> r is Transfer
            &&& !to_experiment && (to_config || to_angles) ==> r is SendConfig
            &&& !to_experiment && !to_config && !to_angles ==> r is Accept
        },
        (forall|i: int| 0 <= i < data@.len() ==> data@[i] == 0) ==> r is Accept,
{
}

/// A write is answered by what is written, any other request is accepted, and the end of
/// the connection ends the answering.
pub proof fn law_events(
    handles: &Handles,
    event: &Event,
    current: &DeviceConfig,
    r: Action,
    handle: u16,
    data: &[u8],
    written: Action,
)
    requires
        call_ensures(react, (handles, event, current), r),
        call_ensures(react_to_write, (handles, handle, data, current), written),
    ensures
        *event is Disconnected ==> r is Stop,
        *event is Request ==> r is Accept,
        *event is Other ==> r is Wait,
        *event == (Event::Write { handle, data }) ==> r == written,
{
}

} // verus!
