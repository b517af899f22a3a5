use herdr_activity_monitor::parsers::{
    compute_memory, format_lines, format_window_title, parse_pages, parse_vm_stat, Battery,
    ChargingState, MemInfo, VmStat,
};

/// A xorshift64 generator over a fixed seed, for the randomized tests.
struct Lcg(u64);

impl Lcg {
    fn new(seed: u64) -> Self {
        Lcg(seed | 1)
    }

    fn next(&mut self) -> u64 {
        let mut x = self.0;
        x ^= x << 13;
        x ^= x >> 7;
        x ^= x << 17;
        self.0 = x;
        x
    }

    /// A string of `n` characters drawn from digits, space and colon.
    fn str_n(&mut self, n: usize) -> String {
        const AL: [u8; 12] = *b": 0123456789";
        let len = AL.len() as u64;
        let bytes: Vec<u8> = (0..n).map(|_| AL[(self.next() % len) as usize]).collect();
        String::from_utf8(bytes).unwrap()
    }
}

fn gb(bytes: u128) -> f64 {
    bytes as f64 / 1e9
}

#[test]
fn parses_pages_free() {
    assert_eq!(parse_pages("Pages free:     152673"), Some(152673));
}

#[test]
fn parse_pages_missing_is_none() {
    assert_eq!(parse_pages("Pages wired down: 1"), Some(1));
    assert_eq!(parse_pages("Pages free: notanumber"), None);
    assert_eq!(parse_pages("NoColonHere"), None);
}

#[test]
fn parses_full_vm_stat() {
    let s = "Page size of 16384 bytes\n\
             Pages free:     152673\n\
             Pages inactive: 121622\n\
             Pages speculative:  2118\n\
             Pages purgeable:    2168\n\
             Pages wired down: 1456763\n";
    let v = parse_vm_stat(s).unwrap();
    assert_eq!(
        (v.free, v.inactive, v.speculative, v.purgeable),
        (152673, 121622, 2118, 2168)
    );
}

#[test]
fn parse_vm_stat_missing_is_err() {
    assert!(parse_vm_stat("garbage\n").is_err());
}

#[test]
fn parse_vm_stat_trailing_dot_ok() {
    let raw = "Mach Virtual Memory Statistics: (page size of 16384 bytes)\n\
                   Pages free:                                     49914.\n\
                   Pages inactive:                                127020.\n\
                   Pages speculative:                              24820.\n\
                   Pages purgeable:                                 3656.\n\
                   Pages wired down:                              1667782.\n";
    let v = parse_vm_stat(raw).expect("トレイリングドットを許容");
    assert_eq!(
        (v.free, v.inactive, v.speculative, v.purgeable),
        (49914, 127020, 24820, 3656)
    );
}

#[test]
fn fuzz_parse_pages_never_panic() {
    let mut r = Lcg::new(0x51ed);
    for _ in 0..5000 {
        let n = (r.next() % 32) as usize;
        let s = r.str_n(n);
        let _ = parse_pages(&s);
    }
}

#[test]
fn fuzz_parse_vm_stat_never_panic() {
    let mut r = Lcg::new(0xF00DBA);
    for _ in 0..5000 {
        let n = (r.next() % 64) as usize;
        let s = r.str_n(n);
        let _ = parse_vm_stat(&s);
    }
}

#[test]
fn fuzz_compute_memory_bounds() {
    let mut r = Lcg::new(0xD2);
    for _ in 0..5000 {
        let tp = r.next();
        let ps = r.next() | 1;
        let free = r.next();
        let inactive = r.next();
        let speculative = r.next();
        let purgeable = r.next();
        let vm = VmStat {
            free,
            inactive,
            speculative,
            purgeable,
        };
        if let Ok(m) = compute_memory(tp, ps, vm) {
            assert!((0..=100).contains(&m.percent));
            assert!(gb(m.used_bytes) <= gb(m.total_bytes) + 1e-6);
            assert!(gb(m.used_bytes) >= 0.0);
        }
    }
}

#[test]
fn fuzz_format_lines_three_lines_never_panic() {
    let mut r = Lcg::new(0xF4);
    for _ in 0..5000 {
        let m = if r.next() % 2 == 0 {
            Some(MemInfo {
                used_bytes: r.next() as u128 * 1000,
                total_bytes: r.next() as u128 * 1000,
                percent: (r.next() % 101) as i32 - 50,
            })
        } else {
            None
        };
        let b = if r.next() % 2 == 0 {
            Battery::Present {
                percent: r.next() as u8,
                state: ChargingState::Charging,
            }
        } else {
            Battery::Absent
        };
        let lines = format_lines(&m, &b);
        assert_eq!(lines.len(), 3);
    }
}

#[test]
fn computes_used_gb_and_percent() {
    let vm = VmStat {
        free: 152673,
        inactive: 121622,
        speculative: 2118,
        purgeable: 2168,
    };
    let m = compute_memory(2097152, 16384, vm).unwrap();
    assert!((gb(m.total_bytes) - 34.359738368).abs() < 0.01);
    assert!((gb(m.used_bytes) - 29.80).abs() < 0.05);
    assert_eq!(m.percent, 87);
}

#[test]
fn total_less_than_freed_is_err() {
    let vm = VmStat {
        free: 999999999,
        inactive: 0,
        speculative: 0,
        purgeable: 0,
    };
    assert!(compute_memory(100, 16384, vm).is_err());
}

#[test]
fn renders_present_battery() {
    let m = MemInfo {
        used_bytes: 29_800_000_000,
        total_bytes: 34_360_000_000,
        percent: 87,
    };
    let b = Battery::Present {
        percent: 83,
        state: ChargingState::Discharging,
    };
    let lines = format_lines(&Some(m), &b);
    assert_eq!(lines.len(), 3);
    assert_eq!(lines[0], "Activity Monitor");
    assert_eq!(lines[1], "Memory   29.80 GB / 34.36 GB 87%");
    assert_eq!(lines[2], "Battery  83% discharging");
}

#[test]
fn renders_memory_missing_as_question() {
    let b = Battery::Present {
        percent: 83,
        state: ChargingState::Charged,
    };
    let lines = format_lines(&None, &b);
    assert_eq!(lines.len(), 3);
    assert_eq!(lines[0], "Activity Monitor");
    assert_eq!(lines[1], "Memory   ?");
}

#[test]
fn renders_battery_absent_as_na() {
    let m = MemInfo {
        used_bytes: 1_000_000_000,
        total_bytes: 2_000_000_000,
        percent: 50,
    };
    let lines = format_lines(&Some(m), &Battery::Absent);
    assert_eq!(lines.len(), 3);
    assert_eq!(lines[0], "Activity Monitor");
    assert_eq!(lines[1], "Memory   1.00 GB / 2.00 GB 50%");
    assert_eq!(lines[2], "Battery  n/a");
}

#[test]
fn present() {
    let m = MemInfo {
        used_bytes: 29_800_000_000,
        total_bytes: 34_360_000_000,
        percent: 87,
    };
    let b = Battery::Present {
        percent: 83,
        state: ChargingState::Discharging,
    };
    assert_eq!(
        format_window_title(&Some(m), &b),
        "🧠 29.80/34.36GB 87% | 🔋 83% discharging"
    );
}

#[test]
fn memory_missing() {
    let b = Battery::Present {
        percent: 83,
        state: ChargingState::Discharging,
    };
    assert_eq!(
        format_window_title(&None, &b),
        "🧠 n/a | 🔋 83% discharging"
    );
}

#[test]
fn battery_absent() {
    let m = MemInfo {
        used_bytes: 29_800_000_000,
        total_bytes: 34_360_000_000,
        percent: 87,
    };
    assert_eq!(
        format_window_title(&Some(m), &Battery::Absent),
        "🧠 29.80/34.36GB 87% | 🔋 n/a"
    );
}
