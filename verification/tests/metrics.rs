use herdr_activity_monitor::battery::RuntimeEstimate;
use herdr_activity_monitor::metrics::{
    aggregate_cpu_ticks, calculate_cpu_utilization, format_bytes, format_cpu,
    format_popup_lines, format_runtime, pressure_from_level, pressure_level,
    sample_utilization, thermal_state_from_raw, truncate_name, CpuShare, CpuTicks,
    CpuUtilization, MemoryPressure, PopupSnapshot, SwapUsage, ThermalState,
};
use herdr_activity_monitor::parsers::{Battery, ChargingState, MemInfo};
use herdr_activity_monitor::processes::ProcessMemory;

fn snapshot() -> PopupSnapshot {
    PopupSnapshot {
        memory: Some(MemInfo {
            used_bytes: 8_000_000_000,
            total_bytes: 16_000_000_000,
            percent: 50,
        }),
        pressure: MemoryPressure::Critical,
        swap: Some(SwapUsage {
            used_bytes: 1_000_000_000,
            total_bytes: 2_000_000_000,
        }),
        processes: vec![ProcessMemory {
            pid: 42,
            name: "local-llm".to_string(),
            bytes: 3_000_000_000,
        }],
        cpu: CpuUtilization::Percent(CpuShare::new(1234, 10000).unwrap()),
        thermal: ThermalState::Serious,
        battery: Battery::Present {
            percent: 80,
            state: ChargingState::Discharging,
        },
        runtime: RuntimeEstimate::Seconds(3_750),
    }
}

fn percent(s: CpuShare) -> f64 {
    s.busy() as f64 / s.total() as f64 * 100.0
}

#[test]
fn cpu_delta_is_unavailable_for_invalid_or_empty_delta() {
    let ticks = CpuTicks {
        busy: 10,
        total: 20,
    };
    assert_eq!(calculate_cpu_utilization(ticks, ticks), None);
    assert_eq!(
        calculate_cpu_utilization(ticks, CpuTicks { busy: 9, total: 30 }),
        None
    );
}

#[test]
fn cpu_delta_returns_busy_percentage() {
    let share = calculate_cpu_utilization(
        CpuTicks {
            busy: 20,
            total: 100,
        },
        CpuTicks {
            busy: 50,
            total: 200,
        },
    );
    assert_eq!(share.map(percent), Some(30.0));
}

#[test]
fn popup_has_fixed_sections_and_explicit_states() {
    let lines = format_popup_lines(&snapshot());
    assert_eq!(lines[0], "Activity Monitor");
    assert_eq!(lines[1], "Memory   8.00 GB / 16.00 GB 50%");
    assert!(lines.iter().any(|line| line == "Memory Pressure  critical"));
    assert!(lines.iter().any(|line| line == "CPU              12.3%"));
    assert!(lines.iter().any(|line| line == "Thermal          serious"));
    assert!(lines.iter().any(|line| line == "Battery runtime  1h 02m"));
    assert!(lines.iter().any(|line| line.contains("PID     42")));
}

#[test]
fn popup_does_not_turn_unavailable_runtime_into_zero() {
    let mut value = snapshot();
    value.runtime = RuntimeEstimate::Unavailable;
    let lines = format_popup_lines(&value);
    assert!(lines
        .iter()
        .any(|line| line == "Battery runtime  unavailable"));
    assert!(!lines.iter().any(|line| line == "Battery runtime  0m"));
}

#[test]
fn long_process_names_are_truncated() {
    let mut value = snapshot();
    value.processes[0].name = "a".repeat(64);
    let lines = format_popup_lines(&value);
    assert!(lines
        .iter()
        .any(|line| line.contains("a".repeat(32).as_str())));
    assert!(!lines.iter().any(|line| line.contains(&"a".repeat(64))));
}

#[test]
fn popup_lines_are_in_fixed_order() {
    let lines = format_popup_lines(&snapshot());
    let expected = vec![
        "Activity Monitor",
        "Memory   8.00 GB / 16.00 GB 50%",
        "Memory Pressure  critical",
        "Swap             1.00 GB / 2.00 GB",
        "",
        "Top 3 Available Processes (physical footprint)",
        "  local-llm                        PID     42 3.00 GB",
        "",
        "CPU              12.3%",
        "Thermal          serious",
        "",
        "Battery  80% discharging",
        "Battery runtime  1h 02m",
    ];
    assert_eq!(lines, expected);
    let mut empty = snapshot();
    empty.processes.clear();
    empty.swap = None;
    empty.cpu = CpuUtilization::Unavailable;
    let lines = format_popup_lines(&empty);
    assert_eq!(lines[3], "Swap             unavailable");
    assert_eq!(lines[6], "  unavailable");
    assert_eq!(lines[8], "CPU              unavailable");
    assert_eq!(lines.len(), 13);
}

#[test]
fn runtime_texts() {
    assert_eq!(format_runtime(&RuntimeEstimate::Seconds(59)), "0m");
    assert_eq!(format_runtime(&RuntimeEstimate::Seconds(3599)), "59m");
    assert_eq!(format_runtime(&RuntimeEstimate::Seconds(3600)), "1h 00m");
    assert_eq!(format_runtime(&RuntimeEstimate::Seconds(36_000 + 540)), "10h 09m");
    assert_eq!(format_runtime(&RuntimeEstimate::Unknown), "unknown");
    assert_eq!(format_runtime(&RuntimeEstimate::Unlimited), "unlimited");
}

#[test]
fn byte_texts() {
    assert_eq!(format_bytes(0), "0 MB");
    assert_eq!(format_bytes(2_500_000), "2 MB");
    assert_eq!(format_bytes(3_500_000), "4 MB");
    assert_eq!(format_bytes(999_999_999), "1000 MB");
    assert_eq!(format_bytes(1_000_000_000), "1.00 GB");
    assert_eq!(format_bytes(12_345_678_901), "12.35 GB");
    assert_eq!(format!("{:.0} MB", 2_500_000f64 / 1e6), format_bytes(2_500_000));
}

#[test]
fn cpu_texts() {
    assert_eq!(format_cpu(CpuUtilization::Unavailable), "unavailable");
    assert_eq!(format_cpu(CpuUtilization::Percent(CpuShare::new(1, 3).unwrap())), "33.3%");
    assert_eq!(format_cpu(CpuUtilization::Percent(CpuShare::new(2, 3).unwrap())), "66.7%");
    assert_eq!(format_cpu(CpuUtilization::Percent(CpuShare::new(7, 7).unwrap())), "100.0%");
    assert!(CpuShare::new(3, 2).is_none());
    assert!(CpuShare::new(0, 0).is_none());
}

#[test]
fn names_are_cut_with_an_ellipsis() {
    assert_eq!(truncate_name("abcdef", 3), "abc…");
    assert_eq!(truncate_name("abc", 3), "abc");
    assert_eq!(truncate_name("日本語テキスト", 2), "日本…");
}

#[test]
fn samples_far_apart_are_unavailable() {
    let a = Some(CpuTicks { busy: 0, total: 0 });
    let b = Some(CpuTicks { busy: 5, total: 10 });
    let five = 5_000_000_000u128;
    assert!(matches!(sample_utilization(a, b, five, Some(five)), CpuUtilization::Percent(_)));
    assert_eq!(sample_utilization(a, b, five + 1, Some(1)), CpuUtilization::Unavailable);
    assert_eq!(sample_utilization(a, b, 1, Some(five + 1)), CpuUtilization::Unavailable);
    assert_eq!(sample_utilization(a, b, 1, None), CpuUtilization::Unavailable);
    assert_eq!(sample_utilization(None, b, 1, Some(1)), CpuUtilization::Unavailable);
    assert_eq!(sample_utilization(a, None, 1, Some(1)), CpuUtilization::Unavailable);
}

#[test]
fn ticks_are_summed_per_processor() {
    let values = [10, 20, 30, 40, 1, -5, 2, 3, 100, 100, 100];
    let t = aggregate_cpu_ticks(&values, 8);
    assert_eq!(t, CpuTicks { busy: 10 + 20 + 40 + 1 + 3, total: 10 + 20 + 40 + 1 + 3 + 30 + 2 });
    let t = aggregate_cpu_ticks(&values, 1);
    assert_eq!(t, CpuTicks { busy: 70, total: 100 });
}

#[test]
fn raw_states_map_to_words() {
    assert_eq!(thermal_state_from_raw(0), ThermalState::Nominal);
    assert_eq!(thermal_state_from_raw(3), ThermalState::Critical);
    assert_eq!(thermal_state_from_raw(4), ThermalState::Unavailable);
    assert_eq!(thermal_state_from_raw(-1), ThermalState::Unavailable);
    assert_eq!(pressure_level(0x1 | 0x4), 3);
    assert_eq!(pressure_level(0x2 | 0x1), 2);
    assert_eq!(pressure_level(0x1), 1);
    assert_eq!(pressure_level(0x8), 0);
    assert_eq!(pressure_from_level(0), MemoryPressure::Unavailable);
    assert_eq!(pressure_from_level(2), MemoryPressure::Warn);
}
