//! The popup's detailed metrics: how raw readings become states, how CPU use
//! is computed from two tick samples, and the text of every popup line.
use vstd::prelude::*;
use vstd::string::*;
use crate::battery::RuntimeEstimate;
use crate::parsers::{battery_line, format_lines, memory_line, texts, Battery, MemInfo};
use crate::processes::ProcessMemory;
use crate::text::{
    chars_of, decimal, digit, digit_char, hundredths, push_decimal, push_hundredths, push_tenths,
    round_half_even, rounded_div, tenths,
};

verus! {

/// The memory pressure the system last reported.
#[derive(Debug, Clone, Copy, PartialEq, Eq, Structural)]
pub enum MemoryPressure {
    /// No notification source, or no notification yet.
    Unavailable,
    /// Normal pressure.
    Normal,
    /// Warning level.
    Warn,
    /// Critical level.
    Critical,
}

/// The thermal state the system reports.
#[derive(Debug, Clone, Copy, PartialEq, Eq, Structural)]
pub enum ThermalState {
    /// The state could not be read.
    Unavailable,
    /// Nominal.
    Nominal,
    /// Fair.
    Fair,
    /// Serious.
    Serious,
    /// Critical.
    Critical,
}

/// Swap in use and swap in total, in bytes.
#[derive(Debug, Clone, Copy, PartialEq, Eq, Structural)]
pub struct SwapUsage {
    /// Swap in use.
    pub used_bytes: u64,
    /// Swap in total.
    pub total_bytes: u64,
}

/// Cumulative CPU ticks: busy (user, system, nice) and total (busy and idle).
#[derive(Debug, Clone, Copy, PartialEq, Eq, Structural)]
pub struct CpuTicks {
    /// User, system and nice ticks.
    pub busy: u64,
    /// Busy and idle ticks.
    pub total: u64,
}

/// The busy share of the ticks between two samples: `busy` of `total` ticks,
/// with `total` positive and `busy` no greater.
#[derive(Debug, Clone, Copy, PartialEq, Eq)]
pub struct CpuShare {
    busy: u64,
    total: u64,
}

impl CpuShare {
    #[verifier::type_invariant]
    spec fn well_formed(self) -> bool {
        0 < self.total && self.busy <= self.total
    }

    pub closed spec fn busy_ticks(self) -> nat {
        self.busy as nat
    }

    pub closed spec fn total_ticks(self) -> nat {
        self.total as nat
    }

    /// The share `busy` of `total`; `None` unless `0 < total` and `busy <= total`.
    pub fn new(busy: u64, total: u64) -> (r: Option<CpuShare>)
        ensures
            r is Some <==> 0 < total && busy <= total,
            r matches Some(s) ==> s.busy_ticks() == busy && s.total_ticks() == total,
    {
        if 0 < total && busy <= total {
            Some(CpuShare { busy, total })
        } else {
            None
        }
    }

    /// Busy ticks.
    pub fn busy(&self) -> (b: u64)
        ensures
            b == self.busy_ticks(),
    {
        self.busy
    }

    /// Total ticks.
    pub fn total(&self) -> (t: u64)
        ensures
            t == self.total_ticks(),
            0 < t,
            self.busy_ticks() <= t,
    {
        proof {
            use_type_invariant(self);
        }
        self.total
    }
}

/// CPU use between two samples.
#[derive(Debug, Clone, Copy, PartialEq, Eq)]
pub enum CpuUtilization {
    /// First sample, a failed reading, or samples too far apart to compare.
    Unavailable,
    /// The busy share of the ticks.
    Percent(CpuShare),
}

// ---------------------------------------------------------------------------
// CPU use
// ---------------------------------------------------------------------------
/// The share of busy ticks between two samples: `None` when a counter went
/// back, no tick passed, or more ticks were busy than passed.
pub open spec fn spec_cpu_utilization(previous: CpuTicks, current: CpuTicks) -> Option<(nat, nat)> {
    if current.total < previous.total || current.busy < previous.busy {
        None
    } else {
        let total = (current.total - previous.total) as nat;
        let busy = (current.busy - previous.busy) as nat;
        if total == 0 || busy > total {
            None
        } else {
            Some((busy, total))
        }
    }
}

/// The busy share of the ticks between two samples.
pub fn calculate_cpu_utilization(previous: CpuTicks, current: CpuTicks) -> (r: Option<CpuShare>)
    ensures
        match r {
            None => spec_cpu_utilization(previous, current) is None,
            Some(s) => spec_cpu_utilization(previous, current) == Some(
                (s.busy_ticks(), s.total_ticks()),
            ),
        },
        r is Some <==> previous.total <= current.total && previous.busy <= current.busy
            && current.total - previous.total > 0 && current.busy - previous.busy
            <= current.total - previous.total,
        r matches Some(s) ==> s.busy_ticks() == current.busy - previous.busy && s.total_ticks()
            == current.total - previous.total,
{
    let total_delta = match current.total.checked_sub(previous.total) {
        Some(d) => d,
        None => {
            return None;
        },
    };
    let busy_delta = match current.busy.checked_sub(previous.busy) {
        Some(d) => d,
        None => {
            return None;
        },
    };
    if total_delta == 0 || busy_delta > total_delta {
        return None;
    }
    CpuShare::new(busy_delta, total_delta)
}

/// The longest time between two samples that still gives a CPU share, in
/// nanoseconds (five seconds).
pub open spec fn max_sample_gap() -> nat {
    5_000_000_000
}

/// What `sample_utilization` gives.
pub open spec fn spec_sample_utilization(
    previous: Option<CpuTicks>,
    current: Option<CpuTicks>,
    elapsed_nanos: u128,
    wall_elapsed_nanos: Option<u128>,
) -> Option<(nat, nat)> {
    match (previous, current) {
        (Some(p), Some(c)) => {
            if elapsed_nanos > max_sample_gap() {
                None
            } else {
                match wall_elapsed_nanos {
                    None => None,
                    Some(w) => if w > max_sample_gap() {
                        None
                    } else {
                        spec_cpu_utilization(p, c)
                    },
                }
            }
        },
        _ => None,
    }
}

/// CPU use from the previous and the current tick sample and the time between
/// them, on the monotonic clock and on the wall clock (`None` when the wall
/// clock went back). Samples more than five seconds apart on either clock
/// (after a sleep, say) give `Unavailable` rather than a misleading share.
pub fn sample_utilization(
    previous: Option<CpuTicks>,
    current: Option<CpuTicks>,
    elapsed_nanos: u128,
    wall_elapsed_nanos: Option<u128>,
) -> (u: CpuUtilization)
    ensures
        match u {
            CpuUtilization::Unavailable => spec_sample_utilization(
                previous,
                current,
                elapsed_nanos,
                wall_elapsed_nanos,
            ) is None,
            CpuUtilization::Percent(s) => spec_sample_utilization(
                previous,
                current,
                elapsed_nanos,
                wall_elapsed_nanos,
            ) == Some((s.busy_ticks(), s.total_ticks())),
        },
        u is Percent <==> previous is Some && current is Some && elapsed_nanos <= 5_000_000_000
            && wall_elapsed_nanos is Some && wall_elapsed_nanos->0 <= 5_000_000_000
            && previous->0.total <= current->0.total && previous->0.busy <= current->0.busy
            && current->0.total - previous->0.total > 0 && current->0.busy - previous->0.busy
            <= current->0.total - previous->0.total,
        u matches CpuUtilization::Percent(s) ==> s.busy_ticks() == current->0.busy
            - previous->0.busy && s.total_ticks() == current->0.total - previous->0.total,
{
    let current = match current {
        Some(c) => c,
        None => {
            return CpuUtilization::Unavailable;
        },
    };
    let previous = match previous {
        Some(p) => p,
        None => {
            return CpuUtilization::Unavailable;
        },
    };
    let too_long = match wall_elapsed_nanos {
        None => true,
        Some(w) => w > 5_000_000_000,
    };
    if elapsed_nanos > 5_000_000_000 || too_long {
        return CpuUtilization::Unavailable;
    }
    match calculate_cpu_utilization(previous, current) {
        Some(s) => CpuUtilization::Percent(s),
        None => CpuUtilization::Unavailable,
    }
}

/// Two samples taken at most five seconds apart on both clocks give the busy
/// ticks that passed between them out of all the ticks that passed, whenever
/// both counters went forward and no more ticks were busy than passed; any
/// other pair gives no share.
pub proof fn lemma_sample_share_is_busy_of_total(
    previous: Option<CpuTicks>,
    current: Option<CpuTicks>,
    elapsed_nanos: u128,
    wall_elapsed_nanos: Option<u128>,
)
    ensures
        spec_sample_utilization(previous, current, elapsed_nanos, wall_elapsed_nanos) is Some
            <==> previous is Some && current is Some && elapsed_nanos <= 5_000_000_000
            && wall_elapsed_nanos is Some && wall_elapsed_nanos->0 <= 5_000_000_000
            && previous->0.total <= current->0.total && previous->0.busy <= current->0.busy
            && current->0.total - previous->0.total > 0 && current->0.busy - previous->0.busy
            <= current->0.total - previous->0.total,
        spec_sample_utilization(previous, current, elapsed_nanos, wall_elapsed_nanos) matches Some(
            (busy, total),
        ) ==> busy == current->0.busy - previous->0.busy && total == current->0.total
            - previous->0.total,
{
}

/// The value of a tick counter: negative counts as zero.
pub open spec fn tick_value(v: i32) -> nat {
    if v < 0 {
        0
    } else {
        v as nat
    }
}

/// The sum of field `f` (0 user, 1 system, 2 idle, 3 nice) over the first `m`
/// processors of `values`, four counters per processor.
pub open spec fn field_sum(values: Seq<i32>, m: int, f: int) -> nat
    decreases m,
{
    if m <= 0 {
        0
    } else {
        field_sum(values, m - 1, f) + tick_value(values[4 * (m - 1) + f])
    }
}

/// The number of processors counted: whole groups of four counters, at most
/// `processor_count`.
pub open spec fn counted_processors(values: Seq<i32>, processor_count: u32) -> int {
    let groups = values.len() / 4;
    if groups < processor_count {
        groups as int
    } else {
        processor_count as int
    }
}

/// `v` capped at `u64::MAX`.
pub open spec fn saturated(v: nat) -> u64 {
    if v > u64::MAX {
        u64::MAX
    } else {
        v as u64
    }
}

/// The ticks of all processors, adding up without overflow (a sum that would
/// pass `u64::MAX` stays there).
pub open spec fn spec_aggregate(values: Seq<i32>, processor_count: u32) -> CpuTicks {
    let m = counted_processors(values, processor_count);
    let user = field_sum(values, m, 0);
    let system = field_sum(values, m, 1);
    let idle = field_sum(values, m, 2);
    let nice = field_sum(values, m, 3);
    CpuTicks { busy: saturated(user + system + nice), total: saturated(user + system + nice + idle) }
}

proof fn lemma_field_sum_prefix(values: Seq<i32>, extra: Seq<i32>, m: int, f: int)
    requires
        0 <= f < 4,
        4 * m <= values.len(),
    ensures
        field_sum(values + extra, m, f) == field_sum(values, m, f),
    decreases m,
{
    if m > 0 {
        lemma_field_sum_prefix(values, extra, m - 1, f);
        assert((values + extra)[4 * (m - 1) + f] == values[4 * (m - 1) + f]);
    }
}

/// Busy ticks never exceed the total, and each further processor adds its
/// own ticks: its user, system and nice ticks to the busy ones and all four
/// to the total (negative counters as zero), as long as the sums stay within
/// `u64`; counters of processors past `processor_count` change nothing.
pub proof fn lemma_aggregate_adds_each_processor(
    values: Seq<i32>,
    processor_count: u32,
    user: i32,
    system: i32,
    idle: i32,
    nice: i32,
)
    requires
        values.len() % 4 == 0,
    ensures
        spec_aggregate(values, processor_count).busy <= spec_aggregate(
            values,
            processor_count,
        ).total,
        values.len() / 4 < processor_count && spec_aggregate(values, processor_count).total
            + tick_value(user) + tick_value(system) + tick_value(idle) + tick_value(nice)
            <= u64::MAX ==> {
            let next = spec_aggregate(values + seq![user, system, idle, nice], processor_count);
            &&& next.busy == spec_aggregate(values, processor_count).busy + tick_value(user)
                + tick_value(system) + tick_value(nice)
            &&& next.total == spec_aggregate(values, processor_count).total + tick_value(user)
                + tick_value(system) + tick_value(idle) + tick_value(nice)
        },
        values.len() / 4 >= processor_count ==> spec_aggregate(
            values + seq![user, system, idle, nice],
            processor_count,
        ) == spec_aggregate(values, processor_count),
{
    let extra = seq![user, system, idle, nice];
    let w = values + extra;
    let m = counted_processors(values, processor_count);
    assert(w.len() / 4 == values.len() / 4 + 1);
    assert(4 * m <= values.len());
    lemma_field_sum_prefix(values, extra, m, 0);
    lemma_field_sum_prefix(values, extra, m, 1);
    lemma_field_sum_prefix(values, extra, m, 2);
    lemma_field_sum_prefix(values, extra, m, 3);
    if values.len() / 4 < processor_count {
        assert(m == values.len() / 4);
        assert(counted_processors(w, processor_count) == m + 1);
        assert(4 * m == values.len());
        assert(w[4 * m] == user);
        assert(w[4 * m + 1] == system);
        assert(w[4 * m + 2] == idle);
        assert(w[4 * m + 3] == nice);
    } else {
        assert(counted_processors(w, processor_count) == m);
    }
}

/// Sums the per-processor counters (user, system, idle, nice) that the host
/// reports, into busy and total ticks.
pub fn aggregate_cpu_ticks(values: &[i32], processor_count: u32) -> (t: CpuTicks)
    ensures
        t == spec_aggregate(values@, processor_count),
{
    let groups = values.len() / 4;
    let m: usize = if groups < processor_count as usize { groups } else { processor_count as usize };
    let ghost mm = m as int;
    assert(mm == counted_processors(values@, processor_count));
    let mut user: u64 = 0;
    let mut system: u64 = 0;
    let mut idle: u64 = 0;
    let mut nice: u64 = 0;
    let mut k: usize = 0;
    while k < m
        invariant
            k <= m,
            m <= values@.len() / 4,
            user == saturated(field_sum(values@, k as int, 0)),
            system == saturated(field_sum(values@, k as int, 1)),
            idle == saturated(field_sum(values@, k as int, 2)),
            nice == saturated(field_sum(values@, k as int, 3)),
        decreases m - k,
    {
        let len = values.len();
        assert(4 * k + 3 < len) by (nonlinear_arith)
            requires
                k < m,
                m <= len / 4,
        ;
        let base = 4 * k;
        let u = if values[base] < 0 { 0u64 } else { values[base] as u64 };
        let s = if values[base + 1] < 0 { 0u64 } else { values[base + 1] as u64 };
        let i = if values[base + 2] < 0 { 0u64 } else { values[base + 2] as u64 };
        let n = if values[base + 3] < 0 { 0u64 } else { values[base + 3] as u64 };
        user = user.saturating_add(u);
        system = system.saturating_add(s);
        idle = idle.saturating_add(i);
        nice = nice.saturating_add(n);
        k = k + 1;
    }
    let busy = user.saturating_add(system).saturating_add(nice);
    CpuTicks { busy, total: busy.saturating_add(idle) }
}

// ---------------------------------------------------------------------------
// Raw states
// ---------------------------------------------------------------------------
/// The thermal state for the raw value the system reports (0 to 3).
pub fn thermal_state_from_raw(state: isize) -> (t: ThermalState)
    ensures
        t == (if state == 0 {
            ThermalState::Nominal
        } else if state == 1 {
            ThermalState::Fair
        } else if state == 2 {
            ThermalState::Serious
        } else if state == 3 {
            ThermalState::Critical
        } else {
            ThermalState::Unavailable
        }),
{
    match state {
        0 => ThermalState::Nominal,
        1 => ThermalState::Fair,
        2 => ThermalState::Serious,
        3 => ThermalState::Critical,
        _ => ThermalState::Unavailable,
    }
}

/// The level kept for a memory pressure event: the most severe flag set
/// (critical 0x4, warn 0x2, normal 0x1) as 3, 2 or 1, else 0.
pub fn pressure_level(data: usize) -> (level: u8)
    ensures
        level == (if data & 4 != 0 {
            3u8
        } else if data & 2 != 0 {
            2u8
        } else if data & 1 != 0 {
            1u8
        } else {
            0u8
        }),
{
    if data & 4 != 0 {
        3
    } else if data & 2 != 0 {
        2
    } else if data & 1 != 0 {
        1
    } else {
        0
    }
}

/// The memory pressure for a kept level.
pub fn pressure_from_level(level: u8) -> (p: MemoryPressure)
    ensures
        p == (if level == 1 {
            MemoryPressure::Normal
        } else if level == 2 {
            MemoryPressure::Warn
        } else if level == 3 {
            MemoryPressure::Critical
        } else {
            MemoryPressure::Unavailable
        }),
{
    match level {
        1 => MemoryPressure::Normal,
        2 => MemoryPressure::Warn,
        3 => MemoryPressure::Critical,
        _ => MemoryPressure::Unavailable,
    }
}


// ---------------------------------------------------------------------------
// Text of the popup
// ---------------------------------------------------------------------------
pub open spec fn pressure_text(p: MemoryPressure) -> Seq<char> {
    match p {
        MemoryPressure::Unavailable => "unavailable"@,
        MemoryPressure::Normal => "normal"@,
        MemoryPressure::Warn => "warn"@,
        MemoryPressure::Critical => "critical"@,
    }
}

/// The memory pressure as a word.
pub fn format_memory_pressure(value: MemoryPressure) -> (s: &'static str)
    ensures
        s@ == pressure_text(value),
{
    match value {
        MemoryPressure::Unavailable => "unavailable",
        MemoryPressure::Normal => "normal",
        MemoryPressure::Warn => "warn",
        MemoryPressure::Critical => "critical",
    }
}

pub open spec fn thermal_text(t: ThermalState) -> Seq<char> {
    match t {
        ThermalState::Unavailable => "unavailable"@,
        ThermalState::Nominal => "nominal"@,
        ThermalState::Fair => "fair"@,
        ThermalState::Serious => "serious"@,
        ThermalState::Critical => "critical"@,
    }
}

/// The thermal state as a word.
pub fn format_thermal(value: ThermalState) -> (s: &'static str)
    ensures
        s@ == thermal_text(value),
{
    match value {
        ThermalState::Unavailable => "unavailable",
        ThermalState::Nominal => "nominal",
        ThermalState::Fair => "fair",
        ThermalState::Serious => "serious",
        ThermalState::Critical => "critical",
    }
}

/// CPU use in percent with one decimal, the last digit rounded to the nearest
/// (a tie to the even digit).
pub open spec fn cpu_text(c: CpuUtilization) -> Seq<char> {
    match c {
        CpuUtilization::Unavailable => "unavailable"@,
        CpuUtilization::Percent(s) => tenths(round_half_even(1000 * s.busy_ticks(), s.total_ticks()))
            + "%"@,
    }
}

/// The CPU use for the popup.
pub fn format_cpu(value: CpuUtilization) -> (s: String)
    ensures
        s@ == cpu_text(value),
{
    match value {
        CpuUtilization::Unavailable => String::from_str("unavailable"),
        CpuUtilization::Percent(share) => {
            let total = share.total();
            let busy = share.busy();
            let t = rounded_div(1000 * (busy as u128), total as u128);
            let mut s = String::new();
            push_tenths(&mut s, t);
            s.append("%");
            s
        },
    }
}

/// Minutes as two digits.
pub open spec fn two_digits(m: nat) -> Seq<char> {
    seq![digit_char(m / 10), digit_char(m % 10)]
}

/// The remaining battery time: `Hh MMm` from one hour on, `Mm` below, or the
/// word for a time that is not a number of seconds.
pub open spec fn runtime_text(r: RuntimeEstimate) -> Seq<char> {
    match r {
        RuntimeEstimate::Seconds(secs) => {
            let hours = secs / 3600;
            let minutes = secs % 3600 / 60;
            if hours > 0 {
                decimal(hours as nat) + "h "@ + two_digits(minutes as nat) + "m"@
            } else {
                decimal(minutes as nat) + "m"@
            }
        },
        RuntimeEstimate::Unknown => "unknown"@,
        RuntimeEstimate::Unlimited => "unlimited"@,
        RuntimeEstimate::Unavailable => "unavailable"@,
    }
}

/// The remaining battery time for the popup.
pub fn format_runtime(value: &RuntimeEstimate) -> (s: String)
    ensures
        s@ == runtime_text(*value),
{
    match value {
        RuntimeEstimate::Seconds(seconds) => {
            let hours = *seconds / 3600;
            let minutes = *seconds % 3600 / 60;
            let mut s = String::new();
            if hours > 0 {
                push_decimal(&mut s, hours as u128);
                s.append("h ");
                s.push(digit((minutes / 10) as u8));
                s.push(digit((minutes % 10) as u8));
                s.append("m");
            } else {
                push_decimal(&mut s, minutes as u128);
                s.append("m");
            }
            proof {
                assert(s@ =~= runtime_text(*value));
            }
            s
        },
        RuntimeEstimate::Unknown => String::from_str("unknown"),
        RuntimeEstimate::Unlimited => String::from_str("unlimited"),
        RuntimeEstimate::Unavailable => String::from_str("unavailable"),
    }
}

/// A byte count in decimal units: gigabytes with two decimals from 10^9 bytes
/// on, whole megabytes below; the last digit rounded to the nearest (a tie to
/// the even digit).
pub open spec fn bytes_text(bytes: u64) -> Seq<char> {
    if bytes >= 1_000_000_000 {
        hundredths(round_half_even(bytes as nat, 10_000_000)) + " GB"@
    } else {
        decimal(round_half_even(bytes as nat, 1_000_000)) + " MB"@
    }
}

/// A byte count for the popup.
pub fn format_bytes(bytes: u64) -> (s: String)
    ensures
        s@ == bytes_text(bytes),
{
    let mut s = String::new();
    if bytes >= 1_000_000_000 {
        push_hundredths(&mut s, rounded_div(bytes as u128, 10_000_000));
        s.append(" GB");
    } else {
        push_decimal(&mut s, rounded_div(bytes as u128, 1_000_000));
        s.append(" MB");
    }
    s
}

/// `name` cut to `max` characters, with `…` added when something was cut.
pub open spec fn truncated(name: Seq<char>, max: nat) -> Seq<char> {
    if name.len() > max {
        name.take(max as int).push('\u{2026}')
    } else {
        name
    }
}

/// Cuts `name` to `max_chars` characters, marking the cut with `…`.
pub fn truncate_name(name: &str, max_chars: usize) -> (s: String)
    ensures
        s@ == truncated(name@, max_chars as nat),
{
    let cs = chars_of(name);
    let mut s = String::new();
    let mut i: usize = 0;
    while i < cs.len() && i < max_chars
        invariant
            cs@ == name@,
            i <= cs@.len(),
            i <= max_chars,
            s@ == cs@.take(i as int),
        decreases cs@.len() - i,
    {
        s.push(cs[i]);
        i = i + 1;
        assert(s@ =~= cs@.take(i as int));
    }
    if i < cs.len() {
        s.push('\u{2026}');
    } else {
        assert(cs@.take(i as int) =~= cs@);
    }
    s
}

/// `n` spaces.
pub open spec fn spaces(n: nat) -> Seq<char> {
    Seq::new(n, |i: int| ' ')
}

/// `s` followed by spaces up to `width` characters (`{:<width}`).
pub open spec fn pad_right(s: Seq<char>, width: nat) -> Seq<char> {
    if s.len() < width {
        s + spaces((width - s.len()) as nat)
    } else {
        s
    }
}

/// `s` preceded by spaces up to `width` characters (`{:>width}`).
pub open spec fn pad_left(s: Seq<char>, width: nat) -> Seq<char> {
    if s.len() < width {
        spaces((width - s.len()) as nat) + s
    } else {
        s
    }
}

fn push_spaces(out: &mut String, n: usize)
    ensures
        final(out)@ == old(out)@ + spaces(n as nat),
{
    let mut i: usize = 0;
    while i < n
        invariant
            i <= n,
            out@ == old(out)@ + spaces(i as nat),
        decreases n - i,
    {
        out.push(' ');
        i = i + 1;
        assert(out@ =~= old(out)@ + spaces(i as nat));
    }
}

/// The popup line of one process: name cut and padded to 32 characters, pid
/// right-aligned in 6, footprint.
pub open spec fn process_line(p: ProcessMemory) -> Seq<char> {
    "  "@ + pad_right(truncated(p.name@, 32), 32) + " PID "@ + pad_left(decimal(p.pid as nat), 6)
        + " "@ + bytes_text(p.bytes)
}

fn char_count(s: &String) -> (n: usize)
    ensures
        n == s@.len(),
{
    let cs = chars_of(s.as_str());
    cs.len()
}

fn process_text(p: &ProcessMemory) -> (s: String)
    ensures
        s@ == process_line(*p),
{
    let mut s = String::from_str("  ");
    let name = truncate_name(p.name.as_str(), 32);
    s.append(name.as_str());
    let n = char_count(&name);
    if n < 32 {
        push_spaces(&mut s, 32 - n);
    }
    s.append(" PID ");
    let mut pid = String::new();
    push_decimal(&mut pid, p.pid as u128);
    let w = char_count(&pid);
    if w < 6 {
        push_spaces(&mut s, 6 - w);
    }
    s.append(pid.as_str());
    s.append(" ");
    let b = format_bytes(p.bytes);
    s.append(b.as_str());
    proof {
        assert(s@ =~= process_line(*p));
    }
    s
}

/// The swap line of the popup.
pub open spec fn swap_line(swap: Option<SwapUsage>) -> Seq<char> {
    match swap {
        Some(u) => "Swap             "@ + bytes_text(u.used_bytes) + " / "@ + bytes_text(
            u.total_bytes,
        ),
        None => "Swap             unavailable"@,
    }
}

/// The process lines of the popup: one per process, or `unavailable`.
pub open spec fn process_lines(ps: Seq<ProcessMemory>) -> Seq<Seq<char>> {
    if ps.len() == 0 {
        seq!["  unavailable"@]
    } else {
        ps.map_values(|p: ProcessMemory| process_line(p))
    }
}

/// Everything the popup shows at one refresh.
#[derive(Debug)]
pub struct PopupSnapshot {
    /// Used memory; `None` when it could not be read.
    pub memory: Option<MemInfo>,
    /// Memory pressure.
    pub pressure: MemoryPressure,
    /// Swap use; `None` when it could not be read.
    pub swap: Option<SwapUsage>,
    /// The processes with the largest physical footprint.
    pub processes: Vec<ProcessMemory>,
    /// CPU use.
    pub cpu: CpuUtilization,
    /// Thermal state.
    pub thermal: ThermalState,
    /// Battery.
    pub battery: Battery,
    /// Remaining battery time.
    pub runtime: RuntimeEstimate,
}

/// The popup lines, in their fixed order: title, memory, memory pressure,
/// swap, blank, process heading, processes, blank, CPU, thermal state, blank,
/// battery, remaining time.
pub open spec fn popup_lines(s: PopupSnapshot) -> Seq<Seq<char>> {
    seq![
        "Activity Monitor"@,
        memory_line(s.memory),
        "Memory Pressure  "@ + pressure_text(s.pressure),
        swap_line(s.swap),
        Seq::empty(),
        "Top 3 Available Processes (physical footprint)"@,
    ] + process_lines(s.processes@) + seq![
        Seq::empty(),
        "CPU              "@ + cpu_text(s.cpu),
        "Thermal          "@ + thermal_text(s.thermal),
        Seq::empty(),
        battery_line(s.battery),
        "Battery runtime  "@ + runtime_text(s.runtime),
    ]
}

fn push_line(lines: &mut Vec<String>, line: String)
    ensures
        texts(final(lines)@) == texts(old(lines)@).push(line@),
{
    lines.push(line);
    assert(texts(final(lines)@) =~= texts(old(lines)@).push(line@));
}

/// The popup shows one line per process of the snapshot, in the snapshot's
/// order, right after the heading (line 5), and a single `  unavailable` line
/// when there is none; the six lines before and the six after are fixed.
pub proof fn lemma_popup_one_line_per_process(s: PopupSnapshot)
    ensures
        popup_lines(s).len() == 12 + if s.processes@.len() == 0 {
            1
        } else {
            s.processes@.len()
        },
        popup_lines(s)[5] == "Top 3 Available Processes (physical footprint)"@,
        forall|i: int|
            0 <= i < s.processes@.len() ==> #[trigger] popup_lines(s)[6 + i] == process_line(
                s.processes@[i],
            ),
        s.processes@.len() == 0 ==> popup_lines(s)[6] == "  unavailable"@,
        popup_lines(s).last() == "Battery runtime  "@ + runtime_text(s.runtime),
{
    let n = s.processes@.len();
    let head = seq![
        "Activity Monitor"@,
        memory_line(s.memory),
        "Memory Pressure  "@ + pressure_text(s.pressure),
        swap_line(s.swap),
        Seq::<char>::empty(),
        "Top 3 Available Processes (physical footprint)"@,
    ];
    let tail = seq![
        Seq::<char>::empty(),
        "CPU              "@ + cpu_text(s.cpu),
        "Thermal          "@ + thermal_text(s.thermal),
        Seq::<char>::empty(),
        battery_line(s.battery),
        "Battery runtime  "@ + runtime_text(s.runtime),
    ];
    let mid = process_lines(s.processes@);
    assert(popup_lines(s) == head + mid + tail);
    assert forall|i: int| 0 <= i < n implies #[trigger] popup_lines(s)[6 + i] == process_line(
        s.processes@[i],
    ) by {
        assert((head + mid + tail)[6 + i] == mid[i]);
    }
}

/// The popup lines for one snapshot, in a fixed order.
pub fn format_popup_lines(snapshot: &PopupSnapshot) -> (lines: Vec<String>)
    ensures
        texts(lines@) == popup_lines(*snapshot),
        lines@.len() == 12 + if snapshot.processes@.len() == 0 {
            1
        } else {
            snapshot.processes@.len()
        },
        forall|i: int|
            0 <= i < snapshot.processes@.len() ==> #[trigger] lines@[6 + i]@ == process_line(
                snapshot.processes@[i],
            ),
{
    let existing = format_lines(&snapshot.memory, &snapshot.battery);
    assert(texts(existing@).len() == 3);
    assert(existing@.len() == 3);
    assert(texts(existing@)[0] == existing@[0]@);
    assert(texts(existing@)[1] == existing@[1]@);
    assert(texts(existing@)[2] == existing@[2]@);
    let mut lines: Vec<String> = Vec::new();
    push_line(&mut lines, existing[0].clone());
    push_line(&mut lines, existing[1].clone());
    let mut l = String::from_str("Memory Pressure  ");
    l.append(format_memory_pressure(snapshot.pressure));
    push_line(&mut lines, l);
    match snapshot.swap {
        Some(swap) => {
            let mut l = String::from_str("Swap             ");
            let u = format_bytes(swap.used_bytes);
            l.append(u.as_str());
            l.append(" / ");
            let t = format_bytes(swap.total_bytes);
            l.append(t.as_str());
            push_line(&mut lines, l);
        },
        None => push_line(&mut lines, String::from_str("Swap             unavailable")),
    }
    push_line(&mut lines, String::new());
    push_line(&mut lines, String::from_str("Top 3 Available Processes (physical footprint)"));
    let ghost head = texts(lines@);
    if snapshot.processes.len() == 0 {
        push_line(&mut lines, String::from_str("  unavailable"));
    } else {
        let mut k: usize = 0;
        while k < snapshot.processes.len()
            invariant
                k <= snapshot.processes@.len(),
                texts(lines@) == head + snapshot.processes@.take(k as int).map_values(
                    |p: ProcessMemory| process_line(p),
                ),
            decreases snapshot.processes@.len() - k,
        {
            let line = process_text(&snapshot.processes[k]);
            push_line(&mut lines, line);
            k = k + 1;
            assert(texts(lines@) =~= head + snapshot.processes@.take(k as int).map_values(
                |p: ProcessMemory| process_line(p),
            ));
        }
        assert(snapshot.processes@.take(k as int) =~= snapshot.processes@);
    }
    push_line(&mut lines, String::new());
    let mut l = String::from_str("CPU              ");
    let c = format_cpu(snapshot.cpu);
    l.append(c.as_str());
    push_line(&mut lines, l);
    let mut l = String::from_str("Thermal          ");
    l.append(format_thermal(snapshot.thermal));
    push_line(&mut lines, l);
    push_line(&mut lines, String::new());
    push_line(&mut lines, existing[2].clone());
    let mut l = String::from_str("Battery runtime  ");
    let r = format_runtime(&snapshot.runtime);
    l.append(r.as_str());
    push_line(&mut lines, l);
    proof {
        assert(texts(lines@) =~= popup_lines(*snapshot));
        lemma_popup_one_line_per_process(*snapshot);
        assert forall|i: int| 0 <= i < snapshot.processes@.len() implies #[trigger] lines@[6
            + i]@ == process_line(snapshot.processes@[i]) by {
            assert(texts(lines@)[6 + i] == lines@[6 + i]@);
        }
    }
    lines
}


/// The shown CPU use never exceeds 100.0%: a share of busy ticks no greater
/// than the total rounds to at most 1000 tenths of a percent.
pub proof fn lemma_cpu_tenths_at_most_1000(busy: nat, total: nat)
    requires
        0 < total,
        busy <= total,
    ensures
        round_half_even(1000 * busy, total) <= 1000,
{
    let q = (1000 * busy) / total;
    let r = (1000 * busy) % total;
    assert(q * total + r == 1000 * busy && 0 <= r < total) by (nonlinear_arith)
        requires
            q == (1000 * busy) / total,
            r == (1000 * busy) % total,
            0 < total,
    ;
    assert(q <= 1000) by (nonlinear_arith)
        requires
            q * total + r == 1000 * busy,
            0 <= r,
            busy <= total,
            0 < total,
    ;
    if q == 1000 {
        assert(r == 0) by (nonlinear_arith)
            requires
                q * total + r == 1000 * busy,
                q == 1000,
                busy <= total,
                0 <= r,
        ;
    }
}

/// A remaining time that is not a number of seconds keeps its word: the text
/// of `Unknown`, `Unlimited` or `Unavailable` is never that of any number of
/// seconds (which always ends in `m`), so a failed reading never reads as
/// `0m`.
pub proof fn lemma_runtime_states_keep_their_words(r: RuntimeEstimate, secs: u64)
    requires
        !(r is Seconds),
    ensures
        runtime_text(r) != runtime_text(RuntimeEstimate::Seconds(secs)),
{
    reveal_strlit("unknown");
    reveal_strlit("unlimited");
    reveal_strlit("unavailable");
    reveal_strlit("m");
    let t = runtime_text(RuntimeEstimate::Seconds(secs));
    let hours = secs / 3600;
    let minutes = secs % 3600 / 60;
    if hours > 0 {
        let head = decimal(hours as nat) + "h "@ + two_digits(minutes as nat);
        assert(t =~= head + "m"@);
    } else {
        assert(t =~= decimal(minutes as nat) + "m"@);
    }
    assert(t.last() == 'm');
    assert(runtime_text(r).last() != 'm');
}

} // verus!
