//! Character-level text model shared by the parsers and formatters: how text is
//! searched, split into lines and fields, how decimal numbers are read, and how
//! numbers are written out.
use vstd::prelude::*;
use vstd::string::*;

verus! {

/// Trusted: std's `String::push`. The contract claims that after the call the
/// string holds its former characters followed by `ch`, as std documents
/// ("Appends the given char to the end of this String"); nothing else is
/// claimed.
pub assume_specification[ String::push ](string: &mut String, ch: char)
    ensures
        final(string)@ == old(string)@.push(ch),
;

// ---------------------------------------------------------------------------
// Character classes
// ---------------------------------------------------------------------------
/// Unicode `White_Space`, the class that `char::is_whitespace` tests.
pub open spec fn is_ws(c: char) -> bool {
    let x = c as u32;
    ||| 0x9 <= x <= 0xd
    ||| x == 0x20
    ||| x == 0x85
    ||| x == 0xa0
    ||| x == 0x1680
    ||| 0x2000 <= x <= 0x200a
    ||| x == 0x2028
    ||| x == 0x2029
    ||| x == 0x202f
    ||| x == 0x205f
    ||| x == 0x3000
}

pub open spec fn is_digit(c: char) -> bool {
    '0' <= c && c <= '9'
}

pub open spec fn digit_value(c: char) -> nat {
    (c as u32 - '0' as u32) as nat
}

pub open spec fn digit_char(d: nat) -> char {
    (d + 48) as char
}

pub fn is_whitespace(c: char) -> (b: bool)
    ensures
        b == is_ws(c),
{
    let x = c as u32;
    (0x9 <= x && x <= 0xd) || x == 0x20 || x == 0x85 || x == 0xa0 || x == 0x1680 || (0x2000 <= x
        && x <= 0x200a) || x == 0x2028 || x == 0x2029 || x == 0x202f || x == 0x205f || x == 0x3000
}

/// The character of the decimal digit `d`.
pub fn digit(d: u8) -> (c: char)
    requires
        d < 10,
    ensures
        c == digit_char(d as nat),
        is_digit(c),
        digit_value(c) == d,
{
    (d + 48) as char
}

// ---------------------------------------------------------------------------
// Reading the characters of a string
// ---------------------------------------------------------------------------
/// The characters of `s`, in order.
pub fn chars_of(s: &str) -> (v: Vec<char>)
    ensures
        v@ == s@,
{
    let mut v: Vec<char> = Vec::new();
    for c in it: s.chars()
        invariant
            v@ == it.seq().take(it.index() as int),
            it.seq() == s@,
    {
        v.push(c);
    }
    v
}

// ---------------------------------------------------------------------------
// Searching
// ---------------------------------------------------------------------------
/// The first index at or after `i` that holds `c`, or the length of `s`.
pub open spec fn find_char_from(s: Seq<char>, c: char, i: int) -> int
    decreases s.len() - i,
{
    if i >= s.len() {
        s.len() as int
    } else if s[i] == c {
        i
    } else {
        find_char_from(s, c, i + 1)
    }
}

/// The first index at or after `i` that holds whitespace, or the length of `s`.
pub open spec fn find_ws_from(s: Seq<char>, i: int) -> int
    decreases s.len() - i,
{
    if i >= s.len() {
        s.len() as int
    } else if is_ws(s[i]) {
        i
    } else {
        find_ws_from(s, i + 1)
    }
}

/// The first index at or after `i` that holds a non-whitespace character, or the
/// length of `s`.
pub open spec fn find_non_ws_from(s: Seq<char>, i: int) -> int
    decreases s.len() - i,
{
    if i >= s.len() {
        s.len() as int
    } else if !is_ws(s[i]) {
        i
    } else {
        find_non_ws_from(s, i + 1)
    }
}

/// One past the last non-whitespace character among the first `j`, or 0.
pub open spec fn end_non_ws(s: Seq<char>, j: int) -> int
    decreases j,
{
    if j <= 0 {
        0
    } else if is_ws(s[j - 1]) {
        end_non_ws(s, j - 1)
    } else {
        j
    }
}

pub proof fn lemma_find_char_from_bounds(s: Seq<char>, c: char, i: int)
    requires
        0 <= i <= s.len(),
    ensures
        i <= find_char_from(s, c, i) <= s.len(),
        find_char_from(s, c, i) < s.len() ==> s[find_char_from(s, c, i)] == c,
        forall|k: int| i <= k < find_char_from(s, c, i) ==> s[k] != c,
    decreases s.len() - i,
{
    if i < s.len() && s[i] != c {
        lemma_find_char_from_bounds(s, c, i + 1);
    }
}

pub proof fn lemma_find_ws_from_bounds(s: Seq<char>, i: int)
    requires
        0 <= i <= s.len(),
    ensures
        i <= find_ws_from(s, i) <= s.len(),
        find_ws_from(s, i) < s.len() ==> is_ws(s[find_ws_from(s, i)]),
        forall|k: int| i <= k < find_ws_from(s, i) ==> !is_ws(s[k]),
    decreases s.len() - i,
{
    if i < s.len() && !is_ws(s[i]) {
        lemma_find_ws_from_bounds(s, i + 1);
    }
}

pub proof fn lemma_find_non_ws_from_bounds(s: Seq<char>, i: int)
    requires
        0 <= i <= s.len(),
    ensures
        i <= find_non_ws_from(s, i) <= s.len(),
        find_non_ws_from(s, i) < s.len() ==> !is_ws(s[find_non_ws_from(s, i)]),
        forall|k: int| i <= k < find_non_ws_from(s, i) ==> is_ws(s[k]),
    decreases s.len() - i,
{
    if i < s.len() && is_ws(s[i]) {
        lemma_find_non_ws_from_bounds(s, i + 1);
    }
}

pub fn find_char(s: &[char], c: char, start: usize) -> (k: usize)
    requires
        start <= s@.len(),
    ensures
        k == find_char_from(s@, c, start as int),
{
    let mut i = start;
    while i < s.len() && s[i] != c
        invariant
            start <= i <= s@.len(),
            find_char_from(s@, c, start as int) == find_char_from(s@, c, i as int),
        decreases s@.len() - i,
    {
        i = i + 1;
    }
    i
}

pub fn find_ws(s: &[char], start: usize) -> (k: usize)
    requires
        start <= s@.len(),
    ensures
        k == find_ws_from(s@, start as int),
{
    let mut i = start;
    while i < s.len() && !is_whitespace(s[i])
        invariant
            start <= i <= s@.len(),
            find_ws_from(s@, start as int) == find_ws_from(s@, i as int),
        decreases s@.len() - i,
    {
        i = i + 1;
    }
    i
}

pub fn find_non_ws(s: &[char], start: usize) -> (k: usize)
    requires
        start <= s@.len(),
    ensures
        k == find_non_ws_from(s@, start as int),
{
    let mut i = start;
    while i < s.len() && is_whitespace(s[i])
        invariant
            start <= i <= s@.len(),
            find_non_ws_from(s@, start as int) == find_non_ws_from(s@, i as int),
        decreases s@.len() - i,
    {
        i = i + 1;
    }
    i
}

pub fn end_of_non_ws(s: &[char]) -> (k: usize)
    ensures
        k == end_non_ws(s@, s@.len() as int),
{
    let mut j = s.len();
    while j > 0 && is_whitespace(s[j - 1])
        invariant
            j <= s@.len(),
            end_non_ws(s@, s@.len() as int) == end_non_ws(s@, j as int),
        decreases j,
    {
        j = j - 1;
    }
    j
}

/// The characters of `s` from `from` up to `to`.
pub fn slice_to_vec(s: &[char], from: usize, to: usize) -> (v: Vec<char>)
    requires
        from <= to <= s@.len(),
    ensures
        v@ == s@.subrange(from as int, to as int),
{
    let mut v: Vec<char> = Vec::new();
    let mut i = from;
    while i < to
        invariant
            from <= i <= to <= s@.len(),
            v@ == s@.subrange(from as int, i as int),
        decreases to - i,
    {
        v.push(s[i]);
        i = i + 1;
        assert(v@ =~= s@.subrange(from as int, i as int));
    }
    v
}

/// Whether `t` begins with `p`.
pub open spec fn starts_with(t: Seq<char>, p: Seq<char>) -> bool {
    p.len() <= t.len() && t.take(p.len() as int) == p
}

pub fn has_prefix(t: &[char], p: &[char]) -> (b: bool)
    ensures
        b == starts_with(t@, p@),
{
    if p.len() > t.len() {
        return false;
    }
    let mut i: usize = 0;
    while i < p.len()
        invariant
            i <= p@.len() <= t@.len(),
            forall|k: int| 0 <= k < i ==> t@[k] == p@[k],
        decreases p@.len() - i,
    {
        if t[i] != p[i] {
            assert(t@.take(p@.len() as int)[i as int] != p@[i as int]);
            return false;
        }
        i = i + 1;
    }
    assert(t@.take(p@.len() as int) =~= p@);
    true
}

// ---------------------------------------------------------------------------
// Trimming
// ---------------------------------------------------------------------------
/// `s` without its leading whitespace (`str::trim_start`).
pub open spec fn trim_start(s: Seq<char>) -> Seq<char> {
    s.skip(find_non_ws_from(s, 0))
}

/// `s` without its leading and trailing whitespace (`str::trim`).
pub open spec fn trim(s: Seq<char>) -> Seq<char> {
    let a = find_non_ws_from(s, 0);
    if a >= s.len() {
        Seq::empty()
    } else {
        s.subrange(a, end_non_ws(s, s.len() as int))
    }
}


pub fn trim_chars(s: &[char]) -> (v: Vec<char>)
    ensures
        v@ == trim(s@),
{
    let a = find_non_ws(s, 0);
    if a >= s.len() {
        return Vec::new();
    }
    let b = end_of_non_ws(s);
    proof {
        lemma_find_non_ws_from_bounds(s@, 0);
        lemma_end_non_ws_above(s@, s@.len() as int, a as int);
    }
    slice_to_vec(s, a, b)
}

/// A non-whitespace character at `a` keeps the trimmed end past it.
pub proof fn lemma_end_non_ws_above(s: Seq<char>, j: int, a: int)
    requires
        0 <= a < j <= s.len(),
        !is_ws(s[a]),
    ensures
        a < end_non_ws(s, j) <= j,
    decreases j,
{
    if is_ws(s[j - 1]) {
        lemma_end_non_ws_above(s, j - 1, a);
    }
}

// ---------------------------------------------------------------------------
// Lines
// ---------------------------------------------------------------------------
/// A line without the carriage return that preceded its newline.
pub open spec fn strip_cr(l: Seq<char>) -> Seq<char> {
    if l.len() > 0 && l.last() == '\r' {
        l.drop_last()
    } else {
        l
    }
}

/// The lines completed so far and the partial line, after reading `s`.
pub open spec fn split_state(s: Seq<char>) -> (Seq<Seq<char>>, Seq<char>)
    decreases s.len(),
{
    if s.len() == 0 {
        (Seq::empty(), Seq::empty())
    } else {
        let (done, cur) = split_state(s.drop_last());
        if s.last() == '\n' {
            (done.push(strip_cr(cur)), Seq::empty())
        } else {
            (done, cur.push(s.last()))
        }
    }
}

/// The lines of `s` as `str::lines` yields them: `s` is cut after each `'\n'`,
/// each piece loses that `'\n'` and one `'\r'` just before it, and a last piece
/// without `'\n'` is kept as it is when it is not empty.
pub open spec fn lines(s: Seq<char>) -> Seq<Seq<char>> {
    let (done, cur) = split_state(s);
    if cur.len() == 0 {
        done
    } else {
        done.push(cur)
    }
}

fn strip_cr_vec(l: Vec<char>) -> (r: Vec<char>)
    ensures
        r@ == strip_cr(l@),
{
    let mut l = l;
    if l.len() > 0 && l[l.len() - 1] == '\r' {
        l.pop();
    }
    l
}

proof fn lemma_split_state_append(a: Seq<char>, b: Seq<char>)
    requires
        split_state(a).1.len() == 0,
        forall|k: int| 0 <= k < b.len() ==> b[k] != '\n',
    ensures
        split_state(a + b) == (split_state(a).0, b),
    decreases b.len(),
{
    if b.len() == 0 {
        assert(a + b =~= a);
    } else {
        lemma_split_state_append(a, b.drop_last());
        assert((a + b).drop_last() =~= a + b.drop_last());
        assert((a + b).last() == b.last());
        assert(b.drop_last().push(b.last()) =~= b);
    }
}

/// Text that ends with a complete line (or is empty), followed by one more
/// line `l` and its `'\n'`, has the lines of the text and then `l`.
pub proof fn lemma_lines_append_line(s: Seq<char>, l: Seq<char>)
    requires
        s.len() == 0 || s.last() == '\n',
        forall|k: int| 0 <= k < l.len() ==> l[k] != '\n' && l[k] != '\r',
    ensures
        lines(s + l + seq!['\n']) == lines(s).push(l),
{
    assert(split_state(s).1.len() == 0);
    lemma_split_state_append(s, l);
    let t = s + l + seq!['\n'];
    assert(t.drop_last() =~= s + l);
    assert(t.last() == '\n');
    assert(l.len() == 0 || l.last() != '\r');
    assert(strip_cr(l) == l);
}

/// The character sequences held by a list of character vectors.
pub open spec fn views(v: Seq<Vec<char>>) -> Seq<Seq<char>> {
    v.map_values(|l: Vec<char>| l@)
}

/// The lines of `s` (`str::lines`).
pub fn lines_of(s: &[char]) -> (ls: Vec<Vec<char>>)
    ensures
        views(ls@) == lines(s@),
{
    let mut done: Vec<Vec<char>> = Vec::new();
    let mut cur: Vec<char> = Vec::new();
    let mut i: usize = 0;
    while i < s.len()
        invariant
            i <= s@.len(),
            split_state(s@.take(i as int)) == (views(done@), cur@),
        decreases s@.len() - i,
    {
        let c = s[i];
        assert(s@.take(i + 1).drop_last() =~= s@.take(i as int));
        if c == '\n' {
            let line = strip_cr_vec(cur);
            let ghost before = done@;
            done.push(line);
            cur = Vec::new();
            assert(views(done@) =~= views(before).push(line@));
        } else {
            cur.push(c);
        }
        i = i + 1;
    }
    assert(s@.take(s@.len() as int) =~= s@);
    if cur.len() > 0 {
        let ghost before = done@;
        let ghost last = cur@;
        done.push(cur);
        assert(views(done@) =~= views(before).push(last));
    }
    done
}

// ---------------------------------------------------------------------------
// Reading unsigned decimal numbers
// ---------------------------------------------------------------------------
/// Why a text is not a `u64`, as `core::num::IntErrorKind` tells it.
#[derive(Debug, Clone, Copy, PartialEq, Eq)]
pub enum IntErrorKind {
    Empty,
    InvalidDigit,
    PosOverflow,
}

impl IntErrorKind {
    /// The message that `ParseIntError` displays for this kind.
    pub fn message(&self) -> (m: &'static str)
        ensures
            m@ == self.spec_message(),
    {
        match self {
            IntErrorKind::Empty => "cannot parse integer from empty string",
            IntErrorKind::InvalidDigit => "invalid digit found in string",
            IntErrorKind::PosOverflow => "number too large to fit in target type",
        }
    }

    pub open spec fn spec_message(&self) -> Seq<char> {
        match self {
            IntErrorKind::Empty => "cannot parse integer from empty string"@,
            IntErrorKind::InvalidDigit => "invalid digit found in string"@,
            IntErrorKind::PosOverflow => "number too large to fit in target type"@,
        }
    }
}

/// Reads the digits of `s` from index `i` on, after the value `acc` of those
/// before: the first character that is not an ASCII digit, or the first digit
/// that takes the value past `max`, decides the error.
pub open spec fn scan_digits(s: Seq<char>, i: int, acc: nat, max: nat) -> Result<nat, IntErrorKind>
    decreases s.len() - i,
{
    if i >= s.len() {
        Ok(acc)
    } else if !is_digit(s[i]) {
        Err(IntErrorKind::InvalidDigit)
    } else if acc * 10 + digit_value(s[i]) > max {
        Err(IntErrorKind::PosOverflow)
    } else {
        scan_digits(s, i + 1, acc * 10 + digit_value(s[i]), max)
    }
}

/// `s` read as an unsigned number no greater than `max` the way `str::parse`
/// reads it: one optional `+`, then ASCII decimal digits.
pub open spec fn parse_uint(s: Seq<char>, max: nat) -> Result<nat, IntErrorKind> {
    if s.len() == 0 {
        Err(IntErrorKind::Empty)
    } else if s.len() == 1 && (s[0] == '+' || s[0] == '-') {
        Err(IntErrorKind::InvalidDigit)
    } else if s[0] == '+' {
        scan_digits(s, 1, 0, max)
    } else {
        scan_digits(s, 0, 0, max)
    }
}

/// `s` read as a `u64` (`str::parse::<u64>`).
pub open spec fn parse_u64(s: Seq<char>) -> Result<u64, IntErrorKind> {
    match parse_uint(s, u64::MAX as nat) {
        Ok(v) => Ok(v as u64),
        Err(k) => Err(k),
    }
}

/// `s` read as a `u32` (`str::parse::<u32>`).
pub open spec fn parse_u32(s: Seq<char>) -> Result<u32, IntErrorKind> {
    match parse_uint(s, u32::MAX as nat) {
        Ok(v) => Ok(v as u32),
        Err(k) => Err(k),
    }
}

pub fn parse_uint_chars(s: &[char], max: u64) -> (r: Result<u64, IntErrorKind>)
    ensures
        match r {
            Ok(v) => parse_uint(s@, max as nat) == Ok::<nat, IntErrorKind>(v as nat),
            Err(k) => parse_uint(s@, max as nat) == Err::<nat, IntErrorKind>(k),
        },
        r matches Ok(v) ==> v <= max,
{
    if s.len() == 0 {
        return Err(IntErrorKind::Empty);
    }
    if s.len() == 1 && (s[0] == '+' || s[0] == '-') {
        return Err(IntErrorKind::InvalidDigit);
    }
    let mut i: usize = if s[0] == '+' { 1 } else { 0 };
    let mut acc: u64 = 0;
    while i < s.len()
        invariant
            i <= s@.len(),
            acc <= max,
            parse_uint(s@, max as nat) == scan_digits(s@, i as int, acc as nat, max as nat),
        decreases s@.len() - i,
    {
        let c = s[i];
        if !('0' <= c && c <= '9') {
            return Err(IntErrorKind::InvalidDigit);
        }
        let d = (c as u32 - '0' as u32) as u64;
        assert(d == digit_value(c));
        match acc.checked_mul(10) {
            None => {
                return Err(IntErrorKind::PosOverflow);
            },
            Some(m) => match m.checked_add(d) {
                None => {
                    return Err(IntErrorKind::PosOverflow);
                },
                Some(v) => {
                    if v > max {
                        return Err(IntErrorKind::PosOverflow);
                    }
                    acc = v;
                },
            },
        }
        i = i + 1;
    }
    Ok(acc)
}

pub fn parse_u64_chars(s: &[char]) -> (r: Result<u64, IntErrorKind>)
    ensures
        r == parse_u64(s@),
{
    parse_uint_chars(s, u64::MAX)
}

pub fn parse_u32_chars(s: &[char]) -> (r: Result<u32, IntErrorKind>)
    ensures
        r == parse_u32(s@),
{
    match parse_uint_chars(s, u32::MAX as u64) {
        Ok(v) => Ok(v as u32),
        Err(k) => Err(k),
    }
}

// ---------------------------------------------------------------------------
// Words
// ---------------------------------------------------------------------------
/// The whitespace-separated words of `s` from index `i` on
/// (`str::split_whitespace`).
pub open spec fn words_from(s: Seq<char>, i: int) -> Seq<Seq<char>>
    decreases s.len() - i,
{
    if i < 0 || i >= s.len() {
        Seq::empty()
    } else {
        let a = find_non_ws_from(s, i);
        if a >= s.len() {
            Seq::empty()
        } else {
            let b = find_ws_from(s, a);
            proof {
                lemma_find_non_ws_from_bounds(s, i);
                lemma_find_ws_from_bounds(s, a);
            }
            seq![s.subrange(a, b)] + words_from(s, b)
        }
    }
}

/// The whitespace-separated words of `s`.
pub open spec fn words(s: Seq<char>) -> Seq<Seq<char>> {
    words_from(s, 0)
}

/// The whitespace-separated words of `s` (`str::split_whitespace`).
pub fn words_of(s: &[char]) -> (ws: Vec<Vec<char>>)
    ensures
        views(ws@) == words(s@),
{
    let mut ws: Vec<Vec<char>> = Vec::new();
    let mut i: usize = 0;
    while i < s.len()
        invariant
            i <= s@.len(),
            words(s@) == views(ws@) + words_from(s@, i as int),
        decreases s@.len() - i,
    {
        let a = find_non_ws(s, i);
        proof {
            lemma_find_non_ws_from_bounds(s@, i as int);
        }
        if a >= s.len() {
            assert(words_from(s@, i as int) =~= Seq::<Seq<char>>::empty());
            assert(words(s@) =~= views(ws@));
            return ws;
        }
        let b = find_ws(s, a);
        proof {
            lemma_find_ws_from_bounds(s@, a as int);
        }
        let w = slice_to_vec(s, a, b);
        let ghost before = ws@;
        ws.push(w);
        assert(views(ws@) =~= views(before).push(w@));
        assert(words(s@) =~= views(ws@) + words_from(s@, b as int));
        i = b;
    }
    assert(words_from(s@, i as int) =~= Seq::<Seq<char>>::empty());
    assert(words(s@) =~= views(ws@));
    ws
}

/// `ws` joined with single spaces.
pub open spec fn join_spaced(ws: Seq<Seq<char>>) -> Seq<char>
    decreases ws.len(),
{
    if ws.len() == 0 {
        Seq::empty()
    } else if ws.len() == 1 {
        ws[0]
    } else {
        join_spaced(ws.drop_last()) + seq![' '] + ws.last()
    }
}

/// `s` without any `c`.
pub open spec fn without_char(s: Seq<char>, c: char) -> Seq<char>
    decreases s.len(),
{
    if s.len() == 0 {
        s
    } else if s.last() == c {
        without_char(s.drop_last(), c)
    } else {
        without_char(s.drop_last(), c).push(s.last())
    }
}

pub fn remove_char(s: &[char], c: char) -> (v: Vec<char>)
    ensures
        v@ == without_char(s@, c),
{
    let mut v: Vec<char> = Vec::new();
    let mut i: usize = 0;
    while i < s.len()
        invariant
            i <= s@.len(),
            v@ == without_char(s@.take(i as int), c),
        decreases s@.len() - i,
    {
        assert(s@.take(i + 1).drop_last() =~= s@.take(i as int));
        if s[i] != c {
            v.push(s[i]);
        }
        i = i + 1;
    }
    assert(s@.take(s@.len() as int) =~= s@);
    v
}

// ---------------------------------------------------------------------------
// Writing numbers
// ---------------------------------------------------------------------------
/// The decimal digits of `n`, without leading zeros (`"0"` for zero).
pub open spec fn decimal(n: nat) -> Seq<char>
    decreases n,
{
    if n < 10 {
        seq![digit_char(n)]
    } else {
        decimal(n / 10).push(digit_char(n % 10))
    }
}

/// `i` in decimal, with a leading `-` when it is negative.
pub open spec fn signed_decimal(i: int) -> Seq<char> {
    if i < 0 {
        seq!['-'] + decimal((-i) as nat)
    } else {
        decimal(i as nat)
    }
}

/// `num / den` rounded to the nearest integer, a tie going to the even one.
pub open spec fn round_half_even(num: nat, den: nat) -> nat {
    let q = num / den;
    let r = num % den;
    if 2 * r > den {
        q + 1
    } else if 2 * r < den {
        q
    } else if q % 2 == 0 {
        q
    } else {
        q + 1
    }
}

/// The fixed-point text of `h` hundredths: integer part, `.`, two digits.
pub open spec fn hundredths(h: nat) -> Seq<char> {
    decimal(h / 100) + seq!['.', digit_char((h % 100) / 10), digit_char(h % 10)]
}

/// The fixed-point text of `t` tenths: integer part, `.`, one digit.
pub open spec fn tenths(t: nat) -> Seq<char> {
    decimal(t / 10) + seq!['.', digit_char(t % 10)]
}

pub fn rounded_div(num: u128, den: u128) -> (q: u128)
    requires
        0 < den <= u64::MAX,
    ensures
        q == round_half_even(num as nat, den as nat),
{
    let q = num / den;
    let r = num % den;
    if 2 * r > den {
        assert(q < u128::MAX) by (nonlinear_arith)
            requires
                q == num / den,
                den >= 2,
                num <= u128::MAX,
        ;
        q + 1
    } else if 2 * r < den {
        q
    } else if q % 2 == 0 {
        q
    } else {
        assert(q < u128::MAX) by (nonlinear_arith)
            requires
                q == num / den,
                den >= 2,
                num <= u128::MAX,
        ;
        q + 1
    }
}

/// Appends the decimal digits of `n`.
pub fn push_decimal(out: &mut String, n: u128)
    ensures
        final(out)@ == old(out)@ + decimal(n as nat),
    decreases n,
{
    if n >= 10 {
        push_decimal(out, n / 10);
    }
    out.push(digit((n % 10) as u8));
    assert(final(out)@ =~= old(out)@ + decimal(n as nat));
}

/// Appends `i` in decimal, with a leading `-` when it is negative.
pub fn push_signed(out: &mut String, i: i64)
    ensures
        final(out)@ == old(out)@ + signed_decimal(i as int),
{
    if i < 0 {
        out.push('-');
        let m: u128 = (0 - (i as i128)) as u128;
        push_decimal(out, m);
        assert(final(out)@ =~= old(out)@ + signed_decimal(i as int));
    } else {
        push_decimal(out, i as u128);
    }
}

/// Appends the fixed-point text of `h` hundredths.
pub fn push_hundredths(out: &mut String, h: u128)
    ensures
        final(out)@ == old(out)@ + hundredths(h as nat),
{
    push_decimal(out, h / 100);
    out.push('.');
    out.push(digit(((h % 100) / 10) as u8));
    out.push(digit((h % 10) as u8));
    assert(final(out)@ =~= old(out)@ + hundredths(h as nat));
}

/// Appends the fixed-point text of `t` tenths.
pub fn push_tenths(out: &mut String, t: u128)
    ensures
        final(out)@ == old(out)@ + tenths(t as nat),
{
    push_decimal(out, t / 10);
    out.push('.');
    out.push(digit((t % 10) as u8));
    assert(final(out)@ =~= old(out)@ + tenths(t as nat));
}

} // verus!
