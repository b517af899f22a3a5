//! Parsing of `vm_stat` output, the used-memory computation, and the text of
//! the popup lines and of the window title.
use vstd::prelude::*;
use vstd::string::*;
use crate::text::{
    chars_of, find_char, find_char_from, find_non_ws, find_non_ws_from, find_ws, find_ws_from,
    has_prefix, lemma_find_char_from_bounds, lemma_lines_append_line, lemma_find_non_ws_from_bounds,
    lemma_find_ws_from_bounds, lines, lines_of, parse_u64, parse_u64_chars, slice_to_vec,
    starts_with, trim_start, views, decimal, signed_decimal, hundredths, round_half_even,
    push_decimal, push_signed, push_hundredths, rounded_div,
};

verus! {

/// The four page counters of `vm_stat` that count as free memory.
#[derive(Debug, Clone, Copy, PartialEq, Eq, Structural)]
pub struct VmStat {
    /// Free pages.
    pub free: u64,
    /// Inactive pages.
    pub inactive: u64,
    /// Speculative pages.
    pub speculative: u64,
    /// Purgeable pages.
    pub purgeable: u64,
}

/// Charging state of the battery.
#[derive(Debug, Clone, Copy, PartialEq, Eq, Structural)]
pub enum ChargingState {
    /// Charging.
    Charging,
    /// Running on the battery.
    Discharging,
    /// Fully charged, or on external power.
    Charged,
}

/// The battery: its charge and state, or `Absent`.
#[derive(Debug, Clone, Copy, PartialEq, Eq, Structural)]
pub enum Battery {
    /// A battery is present, with its charge in percent and its state.
    Present { percent: u8, state: ChargingState },
    /// No battery, or its state could not be read.
    Absent,
}

/// Used and total memory, in bytes, and the share used in whole percent.
#[derive(Debug, Clone, Copy, PartialEq, Eq, Structural)]
pub struct MemInfo {
    /// Used memory in bytes.
    pub used_bytes: u128,
    /// Physical memory in bytes.
    pub total_bytes: u128,
    /// Share of the pages in use, in percent (0 to 100 when computed).
    pub percent: i32,
}

impl ChargingState {
    pub open spec fn spec_as_str(&self) -> Seq<char> {
        match self {
            ChargingState::Charging => "charging"@,
            ChargingState::Discharging => "discharging"@,
            ChargingState::Charged => "charged"@,
        }
    }

    /// The state as a fixed lower-case English word.
    pub fn as_str(&self) -> (s: &'static str)
        ensures
            s@ == self.spec_as_str(),
    {
        match self {
            ChargingState::Charging => "charging",
            ChargingState::Discharging => "discharging",
            ChargingState::Charged => "charged",
        }
    }
}

// ---------------------------------------------------------------------------
// vm_stat
// ---------------------------------------------------------------------------
/// The page count on a `vm_stat` line: the text between the first and the
/// second `:`, its first whitespace-separated token, the part of that token
/// before its first `.`, read as a `u64`.
pub open spec fn spec_parse_pages(line: Seq<char>) -> Option<u64> {
    let c1 = find_char_from(line, ':', 0);
    if c1 >= line.len() {
        None
    } else {
        let field = line.subrange(c1 + 1, find_char_from(line, ':', c1 + 1));
        let a = find_non_ws_from(field, 0);
        if a >= field.len() {
            None
        } else {
            let token = field.subrange(a, find_ws_from(field, a));
            match parse_u64(token.take(find_char_from(token, '.', 0))) {
                Ok(v) => Some(v),
                Err(_) => None,
            }
        }
    }
}

pub fn parse_pages_chars(line: &[char]) -> (r: Option<u64>)
    ensures
        r == spec_parse_pages(line@),
{
    let c1 = find_char(line, ':', 0);
    proof {
        lemma_find_char_from_bounds(line@, ':', 0);
    }
    if c1 >= line.len() {
        return None;
    }
    let c2 = find_char(line, ':', c1 + 1);
    proof {
        lemma_find_char_from_bounds(line@, ':', c1 + 1);
    }
    let field = slice_to_vec(line, c1 + 1, c2);
    let a = find_non_ws(field.as_slice(), 0);
    if a >= field.len() {
        return None;
    }
    let b = find_ws(field.as_slice(), a);
    proof {
        lemma_find_ws_from_bounds(field@, a as int);
    }
    let token = slice_to_vec(field.as_slice(), a, b);
    let dot = find_char(token.as_slice(), '.', 0);
    proof {
        lemma_find_char_from_bounds(token@, '.', 0);
    }
    let number = slice_to_vec(token.as_slice(), 0, dot);
    assert(number@ == token@.take(dot as int));
    match parse_u64_chars(number.as_slice()) {
        Ok(v) => Some(v),
        Err(_) => None,
    }
}

/// The page count on one `vm_stat` line (`None` when there is no `:` or no
/// number after it).
pub fn parse_pages(line: &str) -> (r: Option<u64>)
    ensures
        r == spec_parse_pages(line@),
{
    let cs = chars_of(line);
    parse_pages_chars(cs.as_slice())
}

/// The counters read so far: for each of free, inactive, speculative and
/// purgeable, the count on the last line that starts with its label.
pub open spec fn scan_vm_lines(ls: Seq<Seq<char>>) -> (Option<u64>, Option<u64>, Option<u64>, Option<u64>)
    decreases ls.len(),
{
    if ls.len() == 0 {
        (None, None, None, None)
    } else {
        let (f, i, s, p) = scan_vm_lines(ls.drop_last());
        let t = trim_start(ls.last());
        if starts_with(t, "Pages free:"@) {
            (spec_parse_pages(t), i, s, p)
        } else if starts_with(t, "Pages inactive:"@) {
            (f, spec_parse_pages(t), s, p)
        } else if starts_with(t, "Pages speculative:"@) {
            (f, i, spec_parse_pages(t), p)
        } else if starts_with(t, "Pages purgeable:"@) {
            (f, i, s, spec_parse_pages(t))
        } else {
            (f, i, s, p)
        }
    }
}

/// What `parse_vm_stat` gives for the text `s`.
pub open spec fn spec_parse_vm_stat(s: Seq<char>) -> Option<VmStat> {
    match scan_vm_lines(lines(s)) {
        (Some(f), Some(i), Some(sp), Some(p)) => Some(
            VmStat { free: f, inactive: i, speculative: sp, purgeable: p },
        ),
        _ => None,
    }
}

/// Whether `t` starts with one of the four labels that `vm_stat` output is
/// read for.
pub open spec fn has_vm_label(t: Seq<char>) -> bool {
    ||| starts_with(t, "Pages free:"@)
    ||| starts_with(t, "Pages inactive:"@)
    ||| starts_with(t, "Pages speculative:"@)
    ||| starts_with(t, "Pages purgeable:"@)
}

proof fn lemma_vm_labels_exclusive(t: Seq<char>)
    ensures
        starts_with(t, "Pages free:"@) ==> t[6] == 'f',
        starts_with(t, "Pages inactive:"@) ==> t[6] == 'i',
        starts_with(t, "Pages speculative:"@) ==> t[6] == 's',
        starts_with(t, "Pages purgeable:"@) ==> t[6] == 'p',
{
    reveal_strlit("Pages free:");
    reveal_strlit("Pages inactive:");
    reveal_strlit("Pages speculative:");
    reveal_strlit("Pages purgeable:");
    if starts_with(t, "Pages free:"@) {
        assert(t.take(11)[6] == t[6]);
    }
    if starts_with(t, "Pages inactive:"@) {
        assert(t.take(15)[6] == t[6]);
    }
    if starts_with(t, "Pages speculative:"@) {
        assert(t.take(18)[6] == t[6]);
    }
    if starts_with(t, "Pages purgeable:"@) {
        assert(t.take(16)[6] == t[6]);
    }
}

/// A line whose text, after its leading whitespace, starts with none of the
/// four full labels `Pages free:`, `Pages inactive:`, `Pages speculative:`
/// and `Pages purgeable:` (such as `Pages purged: 2143632.`) changes nothing
/// that is read from the output.
pub proof fn lemma_vm_stat_other_lines_ignored(s: Seq<char>, l: Seq<char>)
    requires
        s.len() == 0 || s.last() == '\n',
        forall|k: int| 0 <= k < l.len() ==> l[k] != '\n' && l[k] != '\r',
        !starts_with(trim_start(l), "Pages free:"@),
        !starts_with(trim_start(l), "Pages inactive:"@),
        !starts_with(trim_start(l), "Pages speculative:"@),
        !starts_with(trim_start(l), "Pages purgeable:"@),
    ensures
        spec_parse_vm_stat(s + l + seq!['\n']) == spec_parse_vm_stat(s),
{
    lemma_lines_append_line(s, l);
    assert(lines(s).push(l).drop_last() =~= lines(s));
}

/// Each counter is the page count on the last line that starts (after
/// leading whitespace) with its own full label: a further line with the
/// label `Pages free:` sets the free count to the count on that line and
/// keeps the other three, and so on for `Pages inactive:`,
/// `Pages speculative:` and `Pages purgeable:`.
pub proof fn lemma_vm_stat_last_labelled_line_counts(s: Seq<char>, l: Seq<char>)
    requires
        s.len() == 0 || s.last() == '\n',
        forall|k: int| 0 <= k < l.len() ==> l[k] != '\n' && l[k] != '\r',
    ensures
        spec_parse_vm_stat(s + l + seq!['\n']) matches Some(w) ==> has_vm_label(trim_start(l))
            ==> Some(if starts_with(trim_start(l), "Pages free:"@) {
            w.free
        } else if starts_with(trim_start(l), "Pages inactive:"@) {
            w.inactive
        } else if starts_with(trim_start(l), "Pages speculative:"@) {
            w.speculative
        } else {
            w.purgeable
        }) == spec_parse_pages(trim_start(l)),
        spec_parse_vm_stat(s) matches Some(v) ==> {
            let t = trim_start(l);
            let r = spec_parse_vm_stat(s + l + seq!['\n']);
            &&& starts_with(t, "Pages free:"@) ==> r == match spec_parse_pages(t) {
                Some(n) => Some(
                    VmStat { free: n, inactive: v.inactive, speculative: v.speculative, purgeable: v.purgeable },
                ),
                None => None::<VmStat>,
            }
            &&& starts_with(t, "Pages inactive:"@) ==> r == match spec_parse_pages(t) {
                Some(n) => Some(
                    VmStat { free: v.free, inactive: n, speculative: v.speculative, purgeable: v.purgeable },
                ),
                None => None::<VmStat>,
            }
            &&& starts_with(t, "Pages speculative:"@) ==> r == match spec_parse_pages(t) {
                Some(n) => Some(
                    VmStat { free: v.free, inactive: v.inactive, speculative: n, purgeable: v.purgeable },
                ),
                None => None::<VmStat>,
            }
            &&& starts_with(t, "Pages purgeable:"@) ==> r == match spec_parse_pages(t) {
                Some(n) => Some(
                    VmStat { free: v.free, inactive: v.inactive, speculative: v.speculative, purgeable: n },
                ),
                None => None::<VmStat>,
            }
        },
{
    lemma_lines_append_line(s, l);
    assert(lines(s).push(l).drop_last() =~= lines(s));
    lemma_vm_labels_exclusive(trim_start(l));
}

fn trim_start_chars(s: &[char]) -> (v: Vec<char>)
    ensures
        v@ == trim_start(s@),
{
    let a = find_non_ws(s, 0);
    proof {
        lemma_find_non_ws_from_bounds(s@, 0);
    }
    slice_to_vec(s, a, s.len())
}

/// Reads the free, inactive, speculative and purgeable page counts from the
/// output of `vm_stat`; an error unless all four are there.
pub fn parse_vm_stat(s: &str) -> (r: Result<VmStat, String>)
    ensures
        r matches Ok(v) ==> spec_parse_vm_stat(s@) == Some(v),
        r matches Err(e) ==> spec_parse_vm_stat(s@) is None && e@ == "vm_stat parse failed"@,
{
    let cs = chars_of(s);
    let ls = lines_of(cs.as_slice());
    let free_label = chars_of("Pages free:");
    let inactive_label = chars_of("Pages inactive:");
    let speculative_label = chars_of("Pages speculative:");
    let purgeable_label = chars_of("Pages purgeable:");
    let mut free: Option<u64> = None;
    let mut inactive: Option<u64> = None;
    let mut speculative: Option<u64> = None;
    let mut purgeable: Option<u64> = None;
    let mut k: usize = 0;
    while k < ls.len()
        invariant
            k <= ls@.len(),
            views(ls@) == lines(s@),
            free_label@ == "Pages free:"@,
            inactive_label@ == "Pages inactive:"@,
            speculative_label@ == "Pages speculative:"@,
            purgeable_label@ == "Pages purgeable:"@,
            scan_vm_lines(views(ls@).take(k as int)) == (free, inactive, speculative, purgeable),
        decreases ls@.len() - k,
    {
        assert(views(ls@).take(k + 1).drop_last() =~= views(ls@).take(k as int));
        assert(views(ls@).take(k + 1).last() == ls@[k as int]@);
        let t = trim_start_chars(ls[k].as_slice());
        if has_prefix(t.as_slice(), free_label.as_slice()) {
            free = parse_pages_chars(t.as_slice());
        } else if has_prefix(t.as_slice(), inactive_label.as_slice()) {
            inactive = parse_pages_chars(t.as_slice());
        } else if has_prefix(t.as_slice(), speculative_label.as_slice()) {
            speculative = parse_pages_chars(t.as_slice());
        } else if has_prefix(t.as_slice(), purgeable_label.as_slice()) {
            purgeable = parse_pages_chars(t.as_slice());
        }
        k = k + 1;
    }
    assert(views(ls@).take(ls@.len() as int) =~= views(ls@));
    match (free, inactive, speculative, purgeable) {
        (Some(f), Some(i), Some(sp), Some(p)) => Ok(
            VmStat { free: f, inactive: i, speculative: sp, purgeable: p },
        ),
        _ => Err(String::from_str("vm_stat parse failed")),
    }
}


// ---------------------------------------------------------------------------
// Used memory
// ---------------------------------------------------------------------------
/// The pages counted as free: free, inactive, speculative and purgeable.
pub open spec fn freed_pages(vm: VmStat) -> int {
    vm.free + vm.inactive + vm.speculative + vm.purgeable
}

/// `used` out of `total` in whole percent, rounded half up; 0 when `total` is 0.
pub open spec fn percent_of(used: nat, total: nat) -> int {
    if total == 0 {
        0
    } else {
        ((200 * used + total) / (2 * total)) as int
    }
}

proof fn lemma_percent_bounds(used: nat, total: nat)
    requires
        used <= total,
    ensures
        0 <= percent_of(used, total) <= 100,
{
    if total > 0 {
        assert((200 * used + total) / (2 * total) <= 100) by (nonlinear_arith)
            requires
                used <= total,
                total > 0,
        ;
    }
}

proof fn lemma_product_fits(a: u64, b: u64)
    ensures
        a as int * b as int <= u128::MAX,
{
    assert(a as int * b as int <= u64::MAX as int * u64::MAX as int) by (nonlinear_arith)
        requires
            a <= u64::MAX,
            b <= u64::MAX,
            0 <= a,
            0 <= b,
    ;
}

/// What `compute_memory` gives: an error when the freed pages overflow a
/// `u64` or exceed the total, otherwise the used and total bytes and the share
/// of used pages.
pub open spec fn spec_compute_memory(total_pages: u64, psize: u64, vm: VmStat) -> Result<MemInfo, Seq<char>> {
    if freed_pages(vm) > u64::MAX {
        Err("freed overflow"@)
    } else if freed_pages(vm) > total_pages {
        Err("used_pages underflow"@)
    } else {
        let used = (total_pages - freed_pages(vm)) as nat;
        Ok(
            MemInfo {
                used_bytes: (used * psize) as u128,
                total_bytes: (total_pages * psize) as u128,
                percent: percent_of(used, total_pages as nat) as i32,
            },
        )
    }
}

/// Used memory accounts for every page: the used bytes and the bytes of the
/// freed pages (free, inactive, speculative, purgeable) add up to the total
/// bytes, and the share is the used pages out of the total in whole percent,
/// the nearest one. Success exactly when the freed pages do not exceed the
/// total; an overflow of their sum is reported as such.
pub proof fn lemma_compute_memory_accounts(total_pages: u64, psize: u64, vm: VmStat)
    ensures
        spec_compute_memory(total_pages, psize, vm) is Ok <==> vm.free + vm.inactive
            + vm.speculative + vm.purgeable <= total_pages,
        spec_compute_memory(total_pages, psize, vm) matches Err(e) ==> e == if vm.free
            + vm.inactive + vm.speculative + vm.purgeable > u64::MAX {
            "freed overflow"@
        } else {
            "used_pages underflow"@
        },
        spec_compute_memory(total_pages, psize, vm) matches Ok(m) ==> {
            let freed = vm.free + vm.inactive + vm.speculative + vm.purgeable;
            let used = total_pages - freed;
            &&& m.total_bytes == total_pages * psize
            &&& m.used_bytes + freed * psize == m.total_bytes
            &&& total_pages == 0 ==> m.percent == 0
            &&& total_pages > 0 ==> 2 * m.percent * total_pages - total_pages <= 200 * used
                < 2 * m.percent * total_pages + total_pages
        },
{
    let freed = vm.free + vm.inactive + vm.speculative + vm.purgeable;
    if freed <= total_pages {
        let used: nat = (total_pages - freed) as nat;
        let t: nat = total_pages as nat;
        lemma_percent_bounds(used, t);
        lemma_product_fits(total_pages, psize);
        assert(used * psize + freed * psize == total_pages * psize) by (nonlinear_arith)
            requires
                used == total_pages - freed,
        ;
        assert(used * psize <= total_pages * psize) by (nonlinear_arith)
            requires
                used <= total_pages,
        ;
        if t > 0 {
            let q = (200 * used + t) / (2 * t);
            assert(2 * q * t - t <= 200 * used < 2 * q * t + t) by (nonlinear_arith)
                requires
                    q == (200 * used + t) / (2 * t),
                    t > 0,
            ;
            assert(percent_of(used, t) == q);
        }
    }
}

/// A result with its error taken by its text.
pub open spec fn result_view<T>(r: Result<T, String>) -> Result<T, Seq<char>> {
    match r {
        Ok(v) => Ok(v),
        Err(e) => Err(e@),
    }
}

/// Used memory from the total page count, the page size and the `vm_stat`
/// counters: used pages are the total less the freed ones. An error when the
/// freed pages overflow a `u64` or exceed the total. On success the share is
/// between 0 and 100 and the used bytes do not exceed the total.
pub fn compute_memory(total_pages: u64, psize: u64, vm: VmStat) -> (r: Result<MemInfo, String>)
    ensures
        result_view(r) == spec_compute_memory(total_pages, psize, vm),
        r matches Ok(m) ==> 0 <= m.percent <= 100 && m.used_bytes <= m.total_bytes,
{
    let freed = match vm.free.checked_add(vm.inactive) {
        None => None,
        Some(a) => match a.checked_add(vm.speculative) {
            None => None,
            Some(b) => b.checked_add(vm.purgeable),
        },
    };
    let freed = match freed {
        Some(f) => f,
        None => {
            return Err(String::from_str("freed overflow"));
        },
    };
    if total_pages < freed {
        return Err(String::from_str("used_pages underflow"));
    }
    let used_pages = total_pages - freed;
    proof {
        lemma_product_fits(used_pages, psize);
        lemma_product_fits(total_pages, psize);
    }
    let used_bytes = used_pages as u128 * psize as u128;
    let total_bytes = total_pages as u128 * psize as u128;
    proof {
        lemma_percent_bounds(used_pages as nat, total_pages as nat);
        assert(used_pages as u128 * psize as u128 <= total_pages as u128 * psize as u128)
            by (nonlinear_arith)
            requires
                used_pages <= total_pages,
        ;
    }
    let percent: i32 = if total_pages == 0 {
        0
    } else {
        let p = (200 * (used_pages as u128) + total_pages as u128) / (2 * (total_pages as u128));
        p as i32
    };
    Ok(MemInfo { used_bytes, total_bytes, percent })
}

// ---------------------------------------------------------------------------
// Text of the popup lines and of the window title
// ---------------------------------------------------------------------------
/// `bytes` in decimal gigabytes with two decimals, the last one rounded to
/// the nearest (a tie to the even digit).
pub open spec fn gb_text(bytes: nat) -> Seq<char> {
    hundredths(round_half_even(bytes, 10_000_000))
}

/// The memory line of the popup.
pub open spec fn memory_line(m: Option<MemInfo>) -> Seq<char> {
    match m {
        Some(x) => "Memory   "@ + gb_text(x.used_bytes as nat) + " GB / "@ + gb_text(
            x.total_bytes as nat,
        ) + " GB "@ + signed_decimal(x.percent as int) + "%"@,
        None => "Memory   ?"@,
    }
}

/// The battery line of the popup.
pub open spec fn battery_line(b: Battery) -> Seq<char> {
    match b {
        Battery::Present { percent, state } => "Battery  "@ + decimal(percent as nat) + "% "@
            + state.spec_as_str(),
        Battery::Absent => "Battery  n/a"@,
    }
}

/// The texts held by a list of strings.
pub open spec fn texts(v: Seq<String>) -> Seq<Seq<char>> {
    v.map_values(|l: String| l@)
}

/// Appends `bytes` in gigabytes with two decimals.
fn push_gb(out: &mut String, bytes: u128)
    ensures
        final(out)@ == old(out)@ + gb_text(bytes as nat),
{
    let h = rounded_div(bytes, 10_000_000);
    push_hundredths(out, h);
}

fn memory_text(m: &Option<MemInfo>) -> (s: String)
    ensures
        s@ == memory_line(*m),
{
    match m {
        Some(x) => {
            let mut s = String::from_str("Memory   ");
            push_gb(&mut s, x.used_bytes);
            s.append(" GB / ");
            push_gb(&mut s, x.total_bytes);
            s.append(" GB ");
            push_signed(&mut s, x.percent as i64);
            s.append("%");
            s
        },
        None => String::from_str("Memory   ?"),
    }
}

fn battery_text(b: &Battery) -> (s: String)
    ensures
        s@ == battery_line(*b),
{
    match b {
        Battery::Present { percent, state } => {
            let mut s = String::from_str("Battery  ");
            push_decimal(&mut s, *percent as u128);
            s.append("% ");
            s.append(state.as_str());
            s
        },
        Battery::Absent => String::from_str("Battery  n/a"),
    }
}

/// The three lines of the popup: title, memory, battery. Labels are padded so
/// that the values start in the same column; a missing value shows as `?` or
/// `n/a`.
pub fn format_lines(m: &Option<MemInfo>, b: &Battery) -> (lines: Vec<String>)
    ensures
        texts(lines@) == seq!["Activity Monitor"@, memory_line(*m), battery_line(*b)],
{
    let mut lines: Vec<String> = Vec::new();
    lines.push(String::from_str("Activity Monitor"));
    lines.push(memory_text(m));
    lines.push(battery_text(b));
    assert(texts(lines@) =~= seq!["Activity Monitor"@, memory_line(*m), battery_line(*b)]);
    lines
}

/// The memory part of the window title.
pub open spec fn title_memory(m: Option<MemInfo>) -> Seq<char> {
    match m {
        Some(x) => gb_text(x.used_bytes as nat) + "/"@ + gb_text(x.total_bytes as nat) + "GB "@
            + signed_decimal(x.percent as int) + "%"@,
        None => "n/a"@,
    }
}

/// The battery part of the window title.
pub open spec fn title_battery(b: Battery) -> Seq<char> {
    match b {
        Battery::Present { percent, state } => decimal(percent as nat) + "% "@
            + state.spec_as_str(),
        Battery::Absent => "n/a"@,
    }
}

/// The window title: brain emoji, memory part, `|`, battery emoji, battery part.
pub open spec fn window_title(m: Option<MemInfo>, b: Battery) -> Seq<char> {
    "\u{1F9E0} "@ + title_memory(m) + " | \u{1F50B} "@ + title_battery(b)
}

/// The battery part of the title is the charge in percent, `% ` and the
/// state's word: `charging`, `discharging` or `charged`; `n/a` without a
/// battery.
pub proof fn lemma_title_battery_words(b: Battery)
    ensures
        b matches Battery::Present { percent, state: ChargingState::Charging } ==> title_battery(b)
            == decimal(percent as nat) + "% charging"@,
        b matches Battery::Present { percent, state: ChargingState::Discharging } ==> title_battery(
            b,
        ) == decimal(percent as nat) + "% discharging"@,
        b matches Battery::Present { percent, state: ChargingState::Charged } ==> title_battery(b)
            == decimal(percent as nat) + "% charged"@,
        b is Absent ==> title_battery(b) == "n/a"@,
{
    reveal_strlit("% ");
    reveal_strlit("charging");
    reveal_strlit("discharging");
    reveal_strlit("charged");
    reveal_strlit("% charging");
    reveal_strlit("% discharging");
    reveal_strlit("% charged");
    match b {
        Battery::Present { percent, state } => {
            let d = decimal(percent as nat);
            match state {
                ChargingState::Charging => {
                    assert(d + "% "@ + "charging"@ =~= d + "% charging"@);
                },
                ChargingState::Discharging => {
                    assert(d + "% "@ + "discharging"@ =~= d + "% discharging"@);
                },
                ChargingState::Charged => {
                    assert(d + "% "@ + "charged"@ =~= d + "% charged"@);
                },
            }
        },
        Battery::Absent => {},
    }
}

/// The title shows the battery as the popup's battery line does, without
/// that line's nine-character label: the same charge, state word or `n/a`.
pub proof fn lemma_title_battery_is_popup_battery(m: Option<MemInfo>, b: Battery)
    ensures
        title_battery(b) == battery_line(b).skip(9),
        window_title(m, b) == "\u{1F9E0} "@ + title_memory(m) + " | \u{1F50B} "@ + battery_line(
            b,
        ).skip(9),
{
    reveal_strlit("Battery  ");
    reveal_strlit("Battery  n/a");
    reveal_strlit("n/a");
    match b {
        Battery::Present { percent, state } => {
            let rest = decimal(percent as nat) + "% "@ + state.spec_as_str();
            assert(battery_line(b) =~= "Battery  "@ + rest);
            assert(("Battery  "@ + rest).skip(9) =~= rest);
        },
        Battery::Absent => {
            assert(battery_line(b).skip(9) =~= "n/a"@);
        },
    }
}

/// The one-line window title, `🧠 USED/TOTALGB PERCENT% | 🔋 PERCENT% STATE`,
/// with `n/a` for a missing part.
pub fn format_window_title(m: &Option<MemInfo>, b: &Battery) -> (t: String)
    ensures
        t@ == window_title(*m, *b),
        t@ == "\u{1F9E0} "@ + title_memory(*m) + " | \u{1F50B} "@ + battery_line(*b).skip(9),
{
    let mut t = String::from_str("\u{1F9E0} ");
    match m {
        Some(x) => {
            push_gb(&mut t, x.used_bytes);
            t.append("/");
            push_gb(&mut t, x.total_bytes);
            t.append("GB ");
            push_signed(&mut t, x.percent as i64);
            t.append("%");
        },
        None => {
            t.append("n/a");
        },
    }
    t.append(" | \u{1F50B} ");
    match b {
        Battery::Present { percent, state } => {
            push_decimal(&mut t, *percent as u128);
            t.append("% ");
            t.append(state.as_str());
        },
        Battery::Absent => {
            t.append("n/a");
        },
    }
    proof {
        assert(t@ =~= window_title(*m, *b));
        lemma_title_battery_is_popup_battery(*m, *b);
    }
    t
}


/// The memory and battery lines start their values in the same column: both
/// labels, padded, take nine characters, whether a value is there or not.
pub proof fn lemma_labels_align(m: Option<MemInfo>, b: Battery)
    ensures
        memory_line(m).len() > 9,
        memory_line(m).take(9) == "Memory   "@,
        battery_line(b).len() > 9,
        battery_line(b).take(9) == "Battery  "@,
        "Memory   "@.len() == 9,
        "Battery  "@.len() == 9,
{
    reveal_strlit("Memory   ");
    reveal_strlit("Battery  ");
    reveal_strlit("Memory   ?");
    reveal_strlit("Battery  n/a");
    reveal_strlit(" GB / ");
    reveal_strlit("% ");
    match m {
        Some(x) => {
            let rest = gb_text(x.used_bytes as nat) + " GB / "@ + gb_text(x.total_bytes as nat)
                + " GB "@ + signed_decimal(x.percent as int) + "%"@;
            assert(memory_line(m) =~= "Memory   "@ + rest);
            assert(memory_line(m).take(9) =~= "Memory   "@);
        },
        None => {
            assert(memory_line(m).take(9) =~= "Memory   "@);
        },
    }
    match b {
        Battery::Present { percent, state } => {
            let rest = decimal(percent as nat) + "% "@ + state.spec_as_str();
            assert(battery_line(b) =~= "Battery  "@ + rest);
            assert(battery_line(b).take(9) =~= "Battery  "@);
        },
        Battery::Absent => {
            assert(battery_line(b).take(9) =~= "Battery  "@);
        },
    }
}

} // verus!
