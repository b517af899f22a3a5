use herdr_activity_monitor::battery::{
    battery_from_fields, get, get_snapshot, map_charging_state, PowerSource, RuntimeEstimate,
};
use herdr_activity_monitor::parsers::{Battery, ChargingState};

fn internal_battery(capacity: i64) -> PowerSource {
    PowerSource {
        is_internal_battery: true,
        is_present: Some(true),
        current_capacity: Some(capacity),
        is_charging: Some(false),
        is_charged: Some(false),
        on_battery_power: true,
    }
}

#[test]
fn non_macos_fallback_is_unavailable() {
    // With no power information at all, the time left is unavailable.
    assert_eq!(
        get_snapshot(&None, RuntimeEstimate::Unknown).runtime,
        RuntimeEstimate::Unavailable
    );
}

#[test]
fn runtime_states_are_not_collapsed_to_zero() {
    assert_ne!(RuntimeEstimate::Unknown, RuntimeEstimate::Seconds(0));
    assert_ne!(RuntimeEstimate::Unlimited, RuntimeEstimate::Seconds(0));
}

#[test]
fn maps_power_source_state_without_pmset_text() {
    assert_eq!(
        map_charging_state(true, false, true),
        ChargingState::Charging
    );
    assert_eq!(
        map_charging_state(false, false, true),
        ChargingState::Discharging
    );
    assert_eq!(
        map_charging_state(false, true, true),
        ChargingState::Charged
    );
    assert_eq!(
        map_charging_state(false, false, false),
        ChargingState::Charged
    );
}

#[test]
fn converts_power_source_fields_to_existing_battery_contract() {
    assert_eq!(
        battery_from_fields(81, false, false, true),
        Some(Battery::Present {
            percent: 81,
            state: ChargingState::Discharging,
        })
    );
    assert_eq!(
        battery_from_fields(100, false, true, false),
        Some(Battery::Present {
            percent: 100,
            state: ChargingState::Charged,
        })
    );
    assert_eq!(battery_from_fields(-1, false, false, true), None);
}

#[test]
fn iopower_sources_snapshot_is_safe_to_read() {
    let sources = Some(vec![None, Some(internal_battery(42))]);
    let snapshot = get_snapshot(&sources, RuntimeEstimate::Seconds(60));
    assert!(matches!(
        snapshot.runtime,
        RuntimeEstimate::Seconds(_)
            | RuntimeEstimate::Unknown
            | RuntimeEstimate::Unlimited
            | RuntimeEstimate::Unavailable
    ));
}

#[test]
fn capacity_above_hundred_is_capped_and_beyond_a_byte_is_absent() {
    assert_eq!(
        battery_from_fields(200, true, false, false),
        Some(Battery::Present {
            percent: 100,
            state: ChargingState::Charging,
        })
    );
    assert_eq!(battery_from_fields(256, false, false, true), None);
}

#[test]
fn first_present_internal_battery_is_chosen() {
    let mut external = internal_battery(10);
    external.is_internal_battery = false;
    let mut unplugged = internal_battery(20);
    unplugged.is_present = Some(false);
    let mut no_flag = internal_battery(30);
    no_flag.is_present = None;
    let sources = Some(vec![
        Some(external),
        Some(unplugged),
        Some(no_flag),
        None,
        Some(internal_battery(83)),
        Some(internal_battery(50)),
    ]);
    let expected = Battery::Present {
        percent: 83,
        state: ChargingState::Discharging,
    };
    assert_eq!(get(&sources), expected);
    let snapshot = get_snapshot(&sources, RuntimeEstimate::Unlimited);
    assert_eq!(snapshot.battery, expected);
    assert_eq!(snapshot.runtime, RuntimeEstimate::Unlimited);
}

#[test]
fn battery_without_capacity_is_absent() {
    let mut b = internal_battery(0);
    b.current_capacity = None;
    assert_eq!(get(&Some(vec![Some(b)])), Battery::Absent);
    assert_eq!(get(&Some(vec![])), Battery::Absent);
    assert_eq!(get(&None), Battery::Absent);
}
