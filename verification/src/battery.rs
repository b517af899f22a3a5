//! The battery state taken from one reading of the power sources: which source
//! is the battery, and how its fields become the `Battery` shown to the user.
use vstd::prelude::*;
use crate::parsers::{Battery, ChargingState};

verus! {

/// What the remaining battery time means.
#[derive(Debug, Clone, Copy, PartialEq, Eq, Structural)]
pub enum RuntimeEstimate {
    /// Seconds left.
    Seconds(u64),
    /// The system cannot estimate the time left.
    Unknown,
    /// On external power: the time left is not limited.
    Unlimited,
    /// The power information could not be read at all.
    Unavailable,
}

/// One reading of the power sources.
#[derive(Debug, Clone, Copy, PartialEq, Eq, Structural)]
pub struct PowerSnapshot {
    /// The battery, as the window title shows it.
    pub battery: Battery,
    /// The remaining time, as the popup shows it.
    pub runtime: RuntimeEstimate,
}

/// The fields of one power source description that decide the battery state.
/// A field that the description lacks is `None`.
#[derive(Debug, Clone, Copy, PartialEq, Eq, Structural)]
pub struct PowerSource {
    /// Its `Type` is `InternalBattery`.
    pub is_internal_battery: bool,
    /// `Is Present`.
    pub is_present: Option<bool>,
    /// `Current Capacity`, read as a signed 64-bit number.
    pub current_capacity: Option<i64>,
    /// `Is Charging`.
    pub is_charging: Option<bool>,
    /// `Is Charged`.
    pub is_charged: Option<bool>,
    /// Its `Power Source State` is `Battery Power`.
    pub on_battery_power: bool,
}

pub open spec fn spec_map_charging_state(charging: bool, charged: bool, on_battery: bool) -> ChargingState {
    if charging {
        ChargingState::Charging
    } else if charged || !on_battery {
        ChargingState::Charged
    } else {
        ChargingState::Discharging
    }
}

/// Charging wins; otherwise charged, or not running on the battery, means
/// charged; otherwise discharging.
pub fn map_charging_state(charging: bool, charged: bool, on_battery: bool) -> (s: ChargingState)
    ensures
        s == spec_map_charging_state(charging, charged, on_battery),
{
    if charging {
        ChargingState::Charging
    } else if charged || !on_battery {
        ChargingState::Charged
    } else {
        ChargingState::Discharging
    }
}

pub open spec fn spec_battery_from_fields(
    current_capacity: i64,
    charging: bool,
    charged: bool,
    on_battery: bool,
) -> Option<Battery> {
    if 0 <= current_capacity <= 255 {
        Some(
            Battery::Present {
                percent: if current_capacity > 100 { 100 } else { current_capacity as u8 },
                state: spec_map_charging_state(charging, charged, on_battery),
            },
        )
    } else {
        None
    }
}

/// The battery from the raw fields of a power source: the capacity must fit a
/// `u8` and is capped at 100.
pub fn battery_from_fields(current_capacity: i64, charging: bool, charged: bool, on_battery: bool) -> (r: Option<Battery>)
    ensures
        r == spec_battery_from_fields(current_capacity, charging, charged, on_battery),
{
    if current_capacity < 0 || current_capacity > 255 {
        return None;
    }
    let raw = current_capacity as u8;
    let percent = if raw > 100 { 100 } else { raw };
    let state = map_charging_state(charging, charged, on_battery);
    Some(Battery::Present { percent, state })
}

/// The battery that a source's description gives: `Absent` when it has no
/// capacity or the capacity does not fit a `u8`; a missing charging or charged
/// flag counts as false.
pub open spec fn spec_battery_from_source(src: PowerSource) -> Battery {
    match src.current_capacity {
        None => Battery::Absent,
        Some(current) => match spec_battery_from_fields(
            current,
            src.is_charging == Some(true),
            src.is_charged == Some(true),
            src.on_battery_power,
        ) {
            Some(b) => b,
            None => Battery::Absent,
        },
    }
}

/// The battery that a source's description gives.
pub fn battery_from_source(src: &PowerSource) -> (b: Battery)
    ensures
        b == spec_battery_from_source(*src),
{
    match src.current_capacity {
        None => Battery::Absent,
        Some(current) => {
            let charging = match src.is_charging {
                Some(v) => v,
                None => false,
            };
            let charged = match src.is_charged {
                Some(v) => v,
                None => false,
            };
            match battery_from_fields(current, charging, charged, src.on_battery_power) {
                Some(b) => b,
                None => Battery::Absent,
            }
        },
    }
}

/// A source is the battery when its description could be read, it is the
/// internal battery, and it is marked present.
pub open spec fn is_battery_source(s: Option<PowerSource>) -> bool {
    match s {
        Some(src) => src.is_internal_battery && src.is_present == Some(true),
        None => false,
    }
}

/// The battery of the first source, from index `i` on, that is the internal
/// battery and present; `Absent` when there is none.
pub open spec fn battery_from(sources: Seq<Option<PowerSource>>, i: int) -> Battery
    decreases sources.len() - i,
{
    if i >= sources.len() {
        Battery::Absent
    } else if is_battery_source(sources[i]) {
        spec_battery_from_source(sources[i]->0)
    } else {
        battery_from(sources, i + 1)
    }
}

/// Picks the internal battery among the power sources: an external source or
/// a battery that is not connected would show a wrong charge.
pub fn select_battery(sources: &Vec<Option<PowerSource>>) -> (b: Battery)
    ensures
        b == battery_from(sources@, 0),
{
    let mut i: usize = 0;
    while i < sources.len()
        invariant
            i <= sources@.len(),
            battery_from(sources@, 0) == battery_from(sources@, i as int),
        decreases sources@.len() - i,
    {
        match &sources[i] {
            Some(src) => {
                if src.is_internal_battery && src.is_present == Some(true) {
                    return battery_from_source(src);
                }
            },
            None => {},
        }
        i = i + 1;
    }
    Battery::Absent
}

/// The remaining time kept in a snapshot: the estimate when it was asked for,
/// otherwise `Unavailable`.
pub fn runtime_for_snapshot(include_runtime: bool, estimate: RuntimeEstimate) -> (r: RuntimeEstimate)
    ensures
        r == (if include_runtime { estimate } else { RuntimeEstimate::Unavailable }),
{
    if include_runtime {
        estimate
    } else {
        RuntimeEstimate::Unavailable
    }
}

/// The snapshot of one reading, over the list of sources (`None` when the
/// power information could not be read).
pub open spec fn spec_snapshot(sources: Option<Seq<Option<PowerSource>>>, estimate: RuntimeEstimate) -> PowerSnapshot {
    match sources {
        None => PowerSnapshot { battery: Battery::Absent, runtime: RuntimeEstimate::Unavailable },
        Some(list) => PowerSnapshot { battery: battery_from(list, 0), runtime: estimate },
    }
}

/// The battery alone, over the list of sources.
pub open spec fn spec_battery(sources: Option<Seq<Option<PowerSource>>>) -> Battery {
    match sources {
        None => Battery::Absent,
        Some(list) => battery_from(list, 0),
    }
}

/// The list of sources held by an optional vector.
pub open spec fn source_list(sources: Option<Vec<Option<PowerSource>>>) -> Option<Seq<Option<PowerSource>>> {
    match sources {
        None => None,
        Some(v) => Some(v@),
    }
}

/// The snapshot of one reading: `sources` is `None` when the power information
/// could not be read (then the battery is absent and the time unavailable),
/// otherwise the list of sources, each `None` when its description is missing;
/// `estimate` is the system's estimate of the time left.
pub fn get_snapshot(sources: &Option<Vec<Option<PowerSource>>>, estimate: RuntimeEstimate) -> (s: PowerSnapshot)
    ensures
        s == spec_snapshot(source_list(*sources), estimate),
{
    match sources {
        None => PowerSnapshot { battery: Battery::Absent, runtime: RuntimeEstimate::Unavailable },
        Some(list) => PowerSnapshot {
            battery: select_battery(list),
            runtime: runtime_for_snapshot(true, estimate),
        },
    }
}

/// The battery alone, for the window title: the same choice of source as
/// `get_snapshot`, without the remaining time.
pub fn get(sources: &Option<Vec<Option<PowerSource>>>) -> (b: Battery)
    ensures
        b == spec_battery(source_list(*sources)),
{
    match sources {
        None => Battery::Absent,
        Some(list) => select_battery(list),
    }
}


/// The window title and the popup read the battery from the same reading the
/// same way: the battery alone is the snapshot's battery, whatever the time
/// estimate.
pub proof fn lemma_battery_matches_snapshot(
    sources: Option<Seq<Option<PowerSource>>>,
    estimate: RuntimeEstimate,
)
    ensures
        spec_battery(sources) == spec_snapshot(sources, estimate).battery,
{
}

/// Without power information the time left is `Unavailable`, never a number
/// of seconds, and the battery is absent.
pub proof fn lemma_no_power_information(estimate: RuntimeEstimate)
    ensures
        spec_snapshot(None, estimate).runtime == RuntimeEstimate::Unavailable,
        spec_snapshot(None, estimate).battery == Battery::Absent,
{
}

/// A battery that is shown has a charge of at most 100 percent.
pub proof fn lemma_battery_percent_at_most_100(sources: Seq<Option<PowerSource>>, i: int)
    ensures
        battery_from(sources, i) matches Battery::Present { percent, .. } ==> percent <= 100,
    decreases sources.len() - i,
{
    if i < sources.len() && !is_battery_source(sources[i]) {
        lemma_battery_percent_at_most_100(sources, i + 1);
    }
}

} // verus!
