//! The pace of measuring while a phone is connected.
use vstd::prelude::*;

verus! {

/// The pause before each measurement, in milliseconds.
pub const MEASURE_PAUSE: u64 = 50;

/// What follows a measurement.
#[derive(Clone, Copy, Debug, PartialEq, Eq, Structural)]
pub enum MeasureStep {
    /// Pause, then measure again.
    Again { pause_millis: u64 },
    /// Measure no more.
    Stop,
}

/// What follows a measurement, given whether its angles could be sent. Nothing is sent
/// of a measurement that gives no angles.
///
/// Measuring goes on until angles could not be sent.
pub fn after_measurement(sent: Option<bool>) -> (r: MeasureStep)
    ensures
        r == if sent == Some(false) {
            MeasureStep::Stop
        } else {
            MeasureStep::Again { pause_millis: MEASURE_PAUSE }
        },
{
    match sent {
        Some(false) => MeasureStep::Stop,
        _ => MeasureStep::Again { pause_millis: MEASURE_PAUSE },
    }
}

/// Measuring goes on, after a pause, unless angles were refused.
pub proof fn law_measuring(sent: Option<bool>, r: MeasureStep)
    requires
        call_ensures(after_measurement, (sent,), r),
    ensures
        r is Stop <==> sent is Some && !sent->0,
        r matches MeasureStep::Again { pause_millis } ==> pause_millis == 50,
{
}

} // verus!
