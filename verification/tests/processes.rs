use herdr_activity_monitor::processes::{
    next_scan_step, parse_phys_footprint, parse_process_line, scan_result, top_three,
    Measurement, ProcessMemory, ScanState, ScanStep,
};

#[test]
fn parses_physical_footprint() {
    assert_eq!(
        parse_phys_footprint("pid: 42\nphys_footprint: 1,234,567\n"),
        Some(1_234_567)
    );
}

#[test]
fn missing_physical_footprint_is_unavailable() {
    assert_eq!(parse_phys_footprint("resident_size: 123\n"), None);
}

#[test]
fn sorts_and_limits_to_three_processes() {
    let processes = (0..4)
        .map(|index| ProcessMemory {
            pid: index,
            name: format!("p{index}"),
            bytes: index as u64 * 10,
        })
        .collect();
    let top = top_three(processes);
    assert_eq!(top.iter().map(|p| p.pid).collect::<Vec<_>>(), vec![3, 2, 1]);
}

#[test]
fn process_churn_can_produce_empty_result_without_panicking() {
    assert!(top_three(Vec::new()).is_empty());
}

#[test]
fn equal_footprints_are_ordered_by_pid() {
    let p = |pid: u32, bytes: u64| ProcessMemory {
        pid,
        name: format!("n{pid}"),
        bytes,
    };
    let top = top_three(vec![p(9, 5), p(4, 5), p(7, 1), p(2, 5), p(1, 0)]);
    assert_eq!(top.iter().map(|p| p.pid).collect::<Vec<_>>(), vec![2, 4, 9]);
    let two = top_three(vec![p(3, 1), p(8, 7)]);
    assert_eq!(two.iter().map(|p| p.pid).collect::<Vec<_>>(), vec![8, 3]);
    assert_eq!(two[0].name, "n8");
}

#[test]
fn footprint_takes_the_first_readable_value() {
    let out = "  phys_footprint : 12x\nphys_footprint:   7,000  \nphys_footprint: 9\n";
    assert_eq!(parse_phys_footprint(out), Some(7000));
    assert_eq!(parse_phys_footprint("phys_footprint_peak: 5\n"), None);
}

#[test]
fn process_lines_give_pid_and_joined_name() {
    assert_eq!(
        parse_process_line("  412 /usr/bin/some   tool "),
        Some((412, "/usr/bin/some tool".to_string()))
    );
    assert_eq!(parse_process_line("412"), None);
    assert_eq!(parse_process_line("x12 name"), None);
    assert_eq!(parse_process_line("   "), None);
    assert_eq!(parse_process_line("4294967296 big"), None);
}

#[test]
fn scan_steps_follow_cancel_deadline_and_parse() {
    assert_eq!(next_scan_step("12 a", true, false), ScanStep::Stop);
    assert_eq!(next_scan_step("12 a", false, true), ScanStep::Stop);
    assert_eq!(next_scan_step("junk", false, false), ScanStep::Skip);
    assert_eq!(
        next_scan_step(" 12 Google Chrome", false, false),
        ScanStep::Measure(12, "Google Chrome".to_string())
    );
}

#[test]
fn a_running_scan_shows_nothing_until_it_finishes() {
    let p = |pid: u32| ProcessMemory {
        pid,
        name: "x".to_string(),
        bytes: 1,
    };
    let mut state = ScanState::new();
    assert!(state.needs_request());
    assert!(state.receive(vec![]).is_empty());
    state.request_sent();
    assert!(!state.needs_request());
    assert!(state.receive(vec![]).is_empty());
    let shown = state.receive(vec![vec![p(1)], vec![p(2), p(3)]]);
    assert_eq!(shown.iter().map(|p| p.pid).collect::<Vec<_>>(), vec![2, 3]);
    assert!(state.needs_request());
    assert!(state.receive(vec![]).is_empty());
}

#[test]
fn top_three_matches_a_stable_sort() {
    let p = |pid: u32, bytes: u64, tag: &str| ProcessMemory {
        pid,
        name: tag.to_string(),
        bytes,
    };
    let input = vec![
        p(5, 10, "a"),
        p(5, 10, "b"),
        p(3, 40, "c"),
        p(9, 10, "d"),
        p(1, 10, "e"),
        p(5, 10, "f"),
    ];
    let mut sorted = input.clone();
    sorted.sort_by(|l, r| r.bytes.cmp(&l.bytes).then_with(|| l.pid.cmp(&r.pid)));
    sorted.truncate(3);
    let top = top_three(input);
    assert_eq!(top, sorted);
    assert_eq!(
        top.iter().map(|p| p.name.as_str()).collect::<Vec<_>>(),
        vec!["c", "e", "a"]
    );
}

#[test]
fn a_failed_measurement_leaves_only_its_process_out() {
    let m = |pid: u32, bytes: Option<u64>| Measurement {
        pid,
        name: format!("p{pid}"),
        bytes,
    };
    let top = scan_result(true, vec![m(1, None), m(2, Some(5)), m(3, None), m(4, Some(9))]);
    assert_eq!(top.iter().map(|p| p.pid).collect::<Vec<_>>(), vec![4, 2]);
    assert!(scan_result(false, vec![m(2, Some(5))]).is_empty());
    assert!(scan_result(true, vec![m(1, None)]).is_empty());
    let many = scan_result(true, (1..=6).map(|pid| m(pid, Some(pid as u64))).collect());
    assert_eq!(many.iter().map(|p| p.pid).collect::<Vec<_>>(), vec![6, 5, 4]);
}
