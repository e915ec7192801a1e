//! Keeping the configuration in flash.
use crate::config;
use crate::config::DeviceConfig;
use crate::gatt;
use crate::gatt::Handles;
use vstd::prelude::*;

verus! {

/// The first address of the dedicated 8 KB storage sector.
pub const STORAGE_START: u32 = 0x000F_E000;

/// The address after the last of the storage sector.
pub const STORAGE_END: u32 = 0x0010_0000;

/// The key under which the configuration is stored.
pub const CONFIG_KEY: u8 = 1;

/// How often storing the configuration is tried.
pub const SAVE_ATTEMPTS: u8 = 5;

/// The pause after an attempt that failed, in milliseconds.
pub const SAVE_PAUSE: u64 = 50;

/// What follows an attempt to store the configuration.
#[derive(Clone, Copy, Debug, PartialEq, Eq, Structural)]
pub enum SaveStep {
    /// It is stored.
    Saved,
    /// Pause, then make the attempt with the given number.
    Retry { attempt: u8, pause_millis: u64 },
    /// Pause, then leave it at that.
    GiveUp { pause_millis: u64 },
}

/// The configuration to start with, given what flash holds under its key.
pub open spec fn loaded(fetched: Option<Seq<u8>>) -> DeviceConfig {
    match fetched {
        Some(record) => match config::parsed(record) {
            Some(config) => config,
            None => DeviceConfig::initial(),
        },
        None => DeviceConfig::initial(),
    }
}

/// The configuration to start with, given what flash holds under its key. Nothing is
/// fetched where nothing is stored or flash cannot be read.
pub fn load_config(fetched: Option<&[u8]>) -> (r: DeviceConfig)
    ensures
        r == loaded(
            match fetched {
                Some(record) => Some(record@),
                None => None,
            },
        ),
{
    match fetched {
        Some(record) => match DeviceConfig::from_bytes(record) {
            Some(config) => config,
            None => DeviceConfig::default(),
        },
        None => DeviceConfig::default(),
    }
}

/// What follows the attempt with the given number, counted from one.
pub open spec fn after_attempt(attempt: int, stored: bool) -> SaveStep {
    if stored {
        SaveStep::Saved
    } else if attempt < SAVE_ATTEMPTS {
        SaveStep::Retry { attempt: (attempt + 1) as u8, pause_millis: SAVE_PAUSE }
    } else {
        SaveStep::GiveUp { pause_millis: SAVE_PAUSE }
    }
}

/// What follows an attempt to store the configuration.
///
/// Flash operations share radio timeslots, so that an attempt can fail while the radio
/// is busy; it is repeated after a pause.
pub fn save_config(attempt: u8, stored: bool) -> (r: SaveStep)
    ensures
        r == after_attempt(attempt as int, stored),
{
    if stored {
        SaveStep::Saved
    } else if attempt < SAVE_ATTEMPTS {
        SaveStep::Retry { attempt: attempt + 1, pause_millis: SAVE_PAUSE }
    } else {
        SaveStep::GiveUp { pause_millis: SAVE_PAUSE }
    }
}

/// How saving ends that has come to the given attempt, where `outcome` tells of each
/// attempt whether it stores: whether the configuration is stored, and the last attempt.
pub open spec fn saving(outcome: spec_fn(int) -> bool, attempt: int) -> (bool, int)
    decreases SAVE_ATTEMPTS - attempt,
{
    match after_attempt(attempt, outcome(attempt)) {
        SaveStep::Saved => (true, attempt),
        SaveStep::Retry { .. } => saving(outcome, attempt + 1),
        SaveStep::GiveUp { .. } => (false, attempt),
    }
}

/// Saving makes at most five attempts, and succeeds with the first that stores.
pub proof fn law_save_attempts(outcome: spec_fn(int) -> bool)
    ensures
        1 <= saving(outcome, 1).1 <= SAVE_ATTEMPTS,
        forall|k: int| 1 <= k < saving(outcome, 1).1 ==> !#[trigger] outcome(k),
        saving(outcome, 1).0 <==> outcome(saving(outcome, 1).1),
        !saving(outcome, 1).0 ==> saving(outcome, 1).1 == SAVE_ATTEMPTS,
{
    lemma_saving(outcome, 1);
}

proof fn lemma_saving(outcome: spec_fn(int) -> bool, attempt: int)
    requires
        1 <= attempt <= SAVE_ATTEMPTS,
    ensures
        attempt <= saving(outcome, attempt).1 <= SAVE_ATTEMPTS,
        forall|k: int| attempt <= k < saving(outcome, attempt).1 ==> !#[trigger] outcome(k),
        saving(outcome, attempt).0 <==> outcome(saving(outcome, attempt).1),
        !saving(outcome, attempt).0 ==> saving(outcome, attempt).1 == SAVE_ATTEMPTS,
    decreases SAVE_ATTEMPTS - attempt,
{
    if attempt < SAVE_ATTEMPTS {
        lemma_saving(outcome, attempt + 1);
    }
}

/// A valid configuration survives a restart: what is stored is loaded.
pub proof fn law_config_persists(config: DeviceConfig, record: Seq<u8>)
    requires
        config.valid(),
        config.recorded(record),
    ensures
        loaded(Some(record)) == config,
{
    config::law_record_round_trip(config, record);
}

/// Whatever flash holds, the configuration to start with is valid.
pub proof fn law_loaded_valid(fetched: Option<Seq<u8>>)
    ensures
        loaded(fetched).valid(),
{
    if let Some(record) = fetched {
        config::law_parsed_valid(record);
    }
}

/// Whatever flash held at the start and whatever the phone then wrote, once the record
/// of the configuration is stored, the device starts with that configuration again.
pub proof fn law_calibration_survives(
    fetched: Option<Seq<u8>>,
    handles: Handles,
    writes: Seq<(u16, Seq<u8>)>,
    record: Seq<u8>,
)
    requires
        gatt::config_after_all(handles, writes, loaded(fetched)).recorded(record),
    ensures
        loaded(Some(record)) == gatt::config_after_all(handles, writes, loaded(fetched)),
{
    law_loaded_valid(fetched);
    gatt::law_config_stays_valid(handles, writes, loaded(fetched));
    law_config_persists(gatt::config_after_all(handles, writes, loaded(fetched)), record);
}

/// What flash holds is used where it is a record, and the default configuration where it
/// is none or nothing is held.
pub proof fn law_load(
    fetched: Option<&[u8]>,
    r: DeviceConfig,
    record: &[u8],
    read: Option<DeviceConfig>,
    default: DeviceConfig,
)
    requires
        call_ensures(load_config, (fetched,), r),
        call_ensures(DeviceConfig::from_bytes, (record,), read),
        call_ensures(DeviceConfig::default, (), default),
    ensures
        fetched is None ==> r == default,
        fetched == Some(record) ==> r == if read is Some {
            read->0
        } else {
            default
        },
{
}

/// An attempt that failed is repeated 50 milliseconds later, up to the fifth.
pub proof fn law_save(attempt: u8, stored: bool, r: SaveStep)
    requires
        call_ensures(save_config, (attempt, stored), r),
    ensures
        r is Saved <==> stored,
        r is Retry <==> !stored && attempt <= 4,
        r matches SaveStep::Retry { attempt: next, pause_millis } ==> next == attempt + 1
            && pause_millis == 50,
        r matches SaveStep::GiveUp { pause_millis } ==> pause_millis == 50,
{
}

} // verus!
