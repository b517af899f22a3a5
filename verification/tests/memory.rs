use herdr_activity_monitor::memory::{get, parse_sysctl_uint};
use herdr_activity_monitor::parsers::{compute_memory, parse_vm_stat, VmStat};

const VM_STAT: &str = "Mach Virtual Memory Statistics: (page size of 16384 bytes)\r\n\
                       Pages free:                                     49914.\r\n\
                       Pages inactive:                                127020.\r\n\
                       Pages speculative:                              24820.\r\n\
                       Pages purgeable:                                 3656.\r\n";

#[test]
fn sysctl_output_is_trimmed_and_read() {
    assert_eq!(parse_sysctl_uint("hw.pagesize", " 16384\n"), Ok(16384));
    assert_eq!(parse_sysctl_uint("hw.memsize", "+34359738368"), Ok(34359738368));
}

#[test]
fn sysctl_errors_name_the_key_and_the_reason() {
    assert_eq!(
        parse_sysctl_uint("hw.pagesize", "\n"),
        Err("parse hw.pagesize: cannot parse integer from empty string".to_string())
    );
    assert_eq!(
        parse_sysctl_uint("hw.pagesize", "12a"),
        Err("parse hw.pagesize: invalid digit found in string".to_string())
    );
    assert_eq!(
        parse_sysctl_uint("hw.memsize", "18446744073709551616"),
        Err("parse hw.memsize: number too large to fit in target type".to_string())
    );
    assert_eq!(
        parse_sysctl_uint("x", "-1"),
        Err("parse x: invalid digit found in string".to_string())
    );
    let std_reason = "".parse::<u64>().unwrap_err().to_string();
    assert_eq!(
        parse_sysctl_uint("k", ""),
        Err(format!("parse k: {std_reason}"))
    );
}

#[test]
fn memory_from_command_outputs() {
    let m = get(16384, 34_359_738_368, VM_STAT).unwrap();
    let freed: u64 = 49914 + 127020 + 24820 + 3656;
    assert_eq!(m.total_bytes, 34_359_738_368);
    assert_eq!(m.used_bytes, (2_097_152 - freed) as u128 * 16384);
    assert_eq!(m.percent, 90);
    assert_eq!(get(16384, 34_359_738_368, "nothing"), Err("vm_stat parse failed".to_string()));
}

#[test]
fn crlf_lines_are_read_like_plain_ones() {
    let v = parse_vm_stat(VM_STAT).unwrap();
    assert_eq!(
        v,
        VmStat {
            free: 49914,
            inactive: 127020,
            speculative: 24820,
            purgeable: 3656
        }
    );
}

#[test]
fn a_later_line_replaces_an_earlier_one() {
    let s = "Pages free: 1\nPages inactive: 2\nPages speculative: 3\nPages purgeable: 4\nPages free: 9\n";
    assert_eq!(parse_vm_stat(s).unwrap().free, 9);
    let broken = "Pages free: 1\nPages inactive: 2\nPages speculative: 3\nPages purgeable: 4\nPages free: x\n";
    assert!(parse_vm_stat(broken).is_err());
}

#[test]
fn memory_errors_say_why() {
    let big = VmStat {
        free: u64::MAX,
        inactive: 1,
        speculative: 0,
        purgeable: 0,
    };
    assert_eq!(compute_memory(10, 4096, big), Err("freed overflow".to_string()));
    let more = VmStat {
        free: 11,
        inactive: 0,
        speculative: 0,
        purgeable: 0,
    };
    assert_eq!(compute_memory(10, 4096, more), Err("used_pages underflow".to_string()));
}

#[test]
fn percent_rounds_half_up_and_empty_memory_is_zero() {
    let vm = |free| VmStat {
        free,
        inactive: 0,
        speculative: 0,
        purgeable: 0,
    };
    assert_eq!(compute_memory(200, 1, vm(199)).unwrap().percent, 1);
    assert_eq!(compute_memory(3, 1, vm(1)).unwrap().percent, 67);
    assert_eq!(compute_memory(0, 4096, vm(0)).unwrap().percent, 0);
    assert_eq!(compute_memory(7, 4096, vm(0)).unwrap().percent, 100);
}

#[test]
fn zero_page_size_is_an_error() {
    assert_eq!(get(0, 34_359_738_368, VM_STAT), Err("page size is zero".to_string()));
    assert_eq!(get(0, 0, "nothing"), Err("page size is zero".to_string()));
}
