//! The processes with the largest physical footprint: reading `ps` and
//! `footprint` output, and choosing the top three.
use vstd::prelude::*;
use vstd::string::*;
use crate::text::{
    chars_of, find_char, find_char_from, join_spaced, lemma_find_char_from_bounds, lines,
    lines_of, parse_u32_chars, parse_u64, parse_u64_chars, parse_u32, remove_char,
    slice_to_vec, trim, trim_chars, views, without_char, words, words_of,
};

verus! {

/// The physical footprint of one process.
#[derive(Debug, Clone, PartialEq, Eq)]
pub struct ProcessMemory {
    /// Process id.
    pub pid: u32,
    /// Name as `ps` shows it.
    pub name: String,
    /// Physical footprint in bytes.
    pub bytes: u64,
}

/// Whether two character sequences are equal.
fn same_chars(a: &[char], b: &[char]) -> (r: bool)
    ensures
        r == (a@ == b@),
{
    if a.len() != b.len() {
        return false;
    }
    let mut i: usize = 0;
    while i < a.len()
        invariant
            i <= a@.len() == b@.len(),
            forall|k: int| 0 <= k < i ==> a@[k] == b@[k],
        decreases a@.len() - i,
    {
        if a[i] != b[i] {
            return false;
        }
        i = i + 1;
    }
    assert(a@ =~= b@);
    true
}

// ---------------------------------------------------------------------------
// footprint
// ---------------------------------------------------------------------------
/// The footprint on one line of `footprint` output: the line, trimmed, has a
/// `:`; the text before it, trimmed, is `phys_footprint`; the text after it,
/// trimmed and without its commas, is a `u64`.
pub open spec fn footprint_of_line(l: Seq<char>) -> Option<u64> {
    let t = trim(l);
    let c = find_char_from(t, ':', 0);
    if c >= t.len() {
        None
    } else if trim(t.take(c)) != "phys_footprint"@ {
        None
    } else {
        match parse_u64(without_char(trim(t.skip(c + 1)), ',')) {
            Ok(v) => Some(v),
            Err(_) => None,
        }
    }
}

/// The footprint on the first line, from index `i` on, that gives one.
pub open spec fn first_footprint(ls: Seq<Seq<char>>, i: int) -> Option<u64>
    decreases ls.len() - i,
{
    if i < 0 || i >= ls.len() {
        None
    } else {
        match footprint_of_line(ls[i]) {
            Some(v) => Some(v),
            None => first_footprint(ls, i + 1),
        }
    }
}

fn footprint_line(l: &[char], label: &[char]) -> (r: Option<u64>)
    requires
        label@ == "phys_footprint"@,
    ensures
        r == footprint_of_line(l@),
{
    let t = trim_chars(l);
    let c = find_char(t.as_slice(), ':', 0);
    proof {
        lemma_find_char_from_bounds(t@, ':', 0);
    }
    if c >= t.len() {
        return None;
    }
    let head = slice_to_vec(t.as_slice(), 0, c);
    assert(head@ == t@.take(c as int));
    let name = trim_chars(head.as_slice());
    if !same_chars(name.as_slice(), label) {
        return None;
    }
    let tail = slice_to_vec(t.as_slice(), c + 1, t.len());
    assert(tail@ == t@.skip(c + 1));
    let value = trim_chars(tail.as_slice());
    let digits = remove_char(value.as_slice(), ',');
    match parse_u64_chars(digits.as_slice()) {
        Ok(v) => Some(v),
        Err(_) => None,
    }
}

/// The physical footprint in the output of `footprint -p PID`: the value on
/// the first `phys_footprint:` line that holds a number.
pub fn parse_phys_footprint(output: &str) -> (r: Option<u64>)
    ensures
        r == first_footprint(lines(output@), 0),
{
    let cs = chars_of(output);
    let ls = lines_of(cs.as_slice());
    let label = chars_of("phys_footprint");
    let mut i: usize = 0;
    while i < ls.len()
        invariant
            i <= ls@.len(),
            views(ls@) == lines(output@),
            label@ == "phys_footprint"@,
            first_footprint(lines(output@), 0) == first_footprint(lines(output@), i as int),
        decreases ls@.len() - i,
    {
        match footprint_line(ls[i].as_slice(), label.as_slice()) {
            Some(v) => {
                return Some(v);
            },
            None => {},
        }
        i = i + 1;
    }
    None
}

// ---------------------------------------------------------------------------
// ps
// ---------------------------------------------------------------------------
/// A line of `ps -axo pid=,comm=`: its first word is the pid, the other words
/// joined by single spaces are the name, which must not be empty.
pub open spec fn spec_parse_process_line(line: Seq<char>) -> Option<(u32, Seq<char>)> {
    let ws = words(line);
    if ws.len() == 0 {
        None
    } else {
        match parse_u32(ws[0]) {
            Err(_) => None,
            Ok(pid) => {
                let name = join_spaced(ws.skip(1));
                if name.len() == 0 {
                    None
                } else {
                    Some((pid, name))
                }
            },
        }
    }
}

fn push_chars(out: &mut String, v: &[char])
    ensures
        final(out)@ == old(out)@ + v@,
{
    let mut i: usize = 0;
    while i < v.len()
        invariant
            i <= v@.len(),
            out@ == old(out)@ + v@.take(i as int),
        decreases v@.len() - i,
    {
        out.push(v[i]);
        i = i + 1;
        assert(out@ =~= old(out)@ + v@.take(i as int));
    }
    assert(v@.take(v@.len() as int) =~= v@);
}

/// The pid and name on one line of `ps -axo pid=,comm=`.
pub fn parse_process_line(line: &str) -> (r: Option<(u32, String)>)
    ensures
        match r {
            None => spec_parse_process_line(line@) is None,
            Some((pid, name)) => spec_parse_process_line(line@) == Some((pid, name@)),
        },
{
    let cs = chars_of(line);
    let ws = words_of(cs.as_slice());
    if ws.len() == 0 {
        return None;
    }
    let pid = match parse_u32_chars(ws[0].as_slice()) {
        Ok(p) => p,
        Err(_) => {
            return None;
        },
    };
    let ghost rest = views(ws@).skip(1);
    let mut name = String::new();
    let mut k: usize = 1;
    while k < ws.len()
        invariant
            1 <= k <= ws@.len(),
            rest == views(ws@).skip(1),
            name@ == join_spaced(rest.take(k - 1)),
        decreases ws@.len() - k,
    {
        assert(rest.take(k as int).drop_last() =~= rest.take(k - 1));
        if k > 1 {
            name.push(' ');
        } else {
            assert(rest.take(0) =~= Seq::<Seq<char>>::empty());
        }
        push_chars(&mut name, ws[k].as_slice());
        assert(rest.take(k as int).last() == ws@[k as int]@);
        assert(name@ =~= join_spaced(rest.take(k as int)));
        k = k + 1;
    }
    assert(rest.take(rest.len() as int) =~= rest);
    if name.as_str().is_empty() {
        return None;
    }
    Some((pid, name))
}


// ---------------------------------------------------------------------------
// Top three
// ---------------------------------------------------------------------------
/// `a` sorts strictly before `b`: a larger footprint, or the same footprint
/// and a smaller pid.
pub open spec fn sorts_before(a: ProcessMemory, b: ProcessMemory) -> bool {
    a.bytes > b.bytes || (a.bytes == b.bytes && a.pid < b.pid)
}

/// The first position from `i` on whose process `x` sorts before, or the
/// length of `s`: where `x` goes, after every process it does not sort before.
pub open spec fn insert_pos(x: ProcessMemory, s: Seq<ProcessMemory>, i: int) -> int
    decreases s.len() - i,
{
    if i >= s.len() {
        s.len() as int
    } else if sorts_before(x, s[i]) {
        i
    } else {
        insert_pos(x, s, i + 1)
    }
}

/// `s` with `x` inserted after every process that `x` does not sort before.
pub open spec fn insert_sorted(x: ProcessMemory, s: Seq<ProcessMemory>) -> Seq<ProcessMemory> {
    s.insert(insert_pos(x, s, 0), x)
}

/// `p` sorted by footprint, largest first, then by pid, keeping the input
/// order of processes that compare equal (a stable sort, written as an
/// insertion sort).
pub open spec fn stable_sort(p: Seq<ProcessMemory>) -> Seq<ProcessMemory>
    decreases p.len(),
{
    if p.len() == 0 {
        Seq::empty()
    } else {
        insert_sorted(p.last(), stable_sort(p.drop_last()))
    }
}

/// How many processes are kept: three, or all when there are fewer.
pub open spec fn kept(n: nat) -> nat {
    if n < 3 {
        n
    } else {
        3
    }
}

/// The processes shown: the first `kept` of the stable sort.
pub open spec fn spec_top_three(p: Seq<ProcessMemory>) -> Seq<ProcessMemory> {
    stable_sort(p).take(kept(p.len()) as int)
}

proof fn lemma_insert_pos_bounds(x: ProcessMemory, s: Seq<ProcessMemory>, i: int)
    requires
        0 <= i <= s.len(),
    ensures
        i <= insert_pos(x, s, i) <= s.len(),
        insert_pos(x, s, i) < s.len() ==> sorts_before(x, s[insert_pos(x, s, i)]),
        forall|k: int| i <= k < insert_pos(x, s, i) ==> !sorts_before(x, #[trigger] s[k]),
    decreases s.len() - i,
{
    if i < s.len() && !sorts_before(x, s[i]) {
        lemma_insert_pos_bounds(x, s, i + 1);
    }
}

proof fn lemma_insert_pos_prefix(x: ProcessMemory, s: Seq<ProcessMemory>, k: int, i: int)
    requires
        0 <= i <= k <= s.len(),
    ensures
        insert_pos(x, s.take(k), i) == if insert_pos(x, s, i) < k {
            insert_pos(x, s, i)
        } else {
            k
        },
    decreases k - i,
{
    lemma_insert_pos_bounds(x, s, i);
    if i < k {
        assert(s.take(k)[i] == s[i]);
        if !sorts_before(x, s[i]) {
            lemma_insert_pos_prefix(x, s, k, i + 1);
        }
    }
}

/// Only the first `k` processes decide the first `k` after an insertion.
proof fn lemma_insert_then_take(x: ProcessMemory, s: Seq<ProcessMemory>, k: int)
    requires
        0 <= k <= s.len(),
    ensures
        insert_sorted(x, s).take(k) == insert_sorted(x, s.take(k)).take(k),
{
    lemma_insert_pos_bounds(x, s, 0);
    lemma_insert_pos_prefix(x, s, k, 0);
    let pos = insert_pos(x, s, 0);
    if pos < k {
        assert(insert_sorted(x, s).take(k) =~= insert_sorted(x, s.take(k)).take(k));
    } else {
        assert(insert_sorted(x, s).take(k) =~= s.take(k));
        assert(insert_sorted(x, s.take(k)).take(k) =~= s.take(k));
    }
}

/// The sort keeps every process: same length, same multiset of processes.
pub proof fn lemma_stable_sort_permutes(p: Seq<ProcessMemory>)
    ensures
        stable_sort(p).len() == p.len(),
        stable_sort(p).to_multiset() == p.to_multiset(),
    decreases p.len(),
{
    broadcast use vstd::seq_lib::group_to_multiset_ensures;

    if p.len() > 0 {
        lemma_stable_sort_permutes(p.drop_last());
        let s = stable_sort(p.drop_last());
        lemma_insert_pos_bounds(p.last(), s, 0);
        assert(p =~= p.drop_last().push(p.last()));
    }
}

/// The sort is ordered: no process sorts strictly before one placed ahead of
/// it.
pub proof fn lemma_stable_sort_ordered(p: Seq<ProcessMemory>)
    ensures
        forall|i: int, j: int|
            0 <= i < j < stable_sort(p).len() ==> !sorts_before(
                #[trigger] stable_sort(p)[j],
                #[trigger] stable_sort(p)[i],
            ),
    decreases p.len(),
{
    if p.len() > 0 {
        lemma_stable_sort_ordered(p.drop_last());
        lemma_stable_sort_permutes(p.drop_last());
        let s = stable_sort(p.drop_last());
        let x = p.last();
        lemma_insert_pos_bounds(x, s, 0);
        let pos = insert_pos(x, s, 0);
        let t = stable_sort(p);
        assert(t == s.insert(pos, x));
        assert forall|i: int, j: int| 0 <= i < j < t.len() implies !sorts_before(
            #[trigger] t[j],
            #[trigger] t[i],
        ) by {
            if j < pos {
                assert(t[i] == s[i] && t[j] == s[j]);
            } else if j == pos {
                assert(t[i] == s[i]);
            } else if i < pos {
                assert(t[i] == s[i] && t[j] == s[j - 1]);
            } else if i == pos {
                assert(t[j] == s[j - 1]);
                assert(sorts_before(x, s[pos]));
                assert(!sorts_before(s[j - 1], s[pos]) || j - 1 == pos);
            } else {
                assert(t[i] == s[i - 1] && t[j] == s[j - 1]);
            }
        }
    }
}

/// Process `i` of `p` goes before process `j`: it sorts strictly before it,
/// or the two compare equal and `i` came first in the input.
pub open spec fn ranks_before(p: Seq<ProcessMemory>, i: int, j: int) -> bool {
    sorts_before(p[i], p[j]) || (!sorts_before(p[j], p[i]) && i < j)
}

/// The first position from `i` on of `s` (positions in `p`) whose process
/// `p[x]` sorts before, or the length of `s`.
pub open spec fn insert_pos_at(p: Seq<ProcessMemory>, x: int, s: Seq<int>, i: int) -> int
    decreases s.len() - i,
{
    if i >= s.len() {
        s.len() as int
    } else if sorts_before(p[x], p[s[i]]) {
        i
    } else {
        insert_pos_at(p, x, s, i + 1)
    }
}

/// The positions in `p` of its first `n` processes, in the order the stable
/// sort puts them.
pub open spec fn sort_positions(p: Seq<ProcessMemory>, n: int) -> Seq<int>
    decreases n,
{
    if n <= 0 {
        Seq::empty()
    } else {
        let s = sort_positions(p, n - 1);
        s.insert(insert_pos_at(p, n - 1, s, 0), n - 1)
    }
}

/// The processes of `p` at the positions `s`.
pub open spec fn at_positions(p: Seq<ProcessMemory>, s: Seq<int>) -> Seq<ProcessMemory> {
    s.map_values(|i: int| p[i])
}

proof fn lemma_insert_pos_at_matches(p: Seq<ProcessMemory>, x: int, s: Seq<int>, i: int)
    requires
        0 <= i <= s.len(),
    ensures
        insert_pos_at(p, x, s, i) == insert_pos(p[x], at_positions(p, s), i),
        i <= insert_pos_at(p, x, s, i) <= s.len(),
        insert_pos_at(p, x, s, i) < s.len() ==> sorts_before(p[x], p[s[insert_pos_at(p, x, s, i)]]),
        forall|k: int| i <= k < insert_pos_at(p, x, s, i) ==> !sorts_before(p[x], #[trigger] p[s[k]]),
    decreases s.len() - i,
{
    if i < s.len() {
        assert(at_positions(p, s)[i] == p[s[i]]);
        if !sorts_before(p[x], p[s[i]]) {
            lemma_insert_pos_at_matches(p, x, s, i + 1);
        }
    }
}

proof fn lemma_sort_positions_shape(p: Seq<ProcessMemory>, n: int)
    requires
        0 <= n <= p.len(),
    ensures
        sort_positions(p, n).len() == n,
        forall|k: int| 0 <= k < n ==> 0 <= #[trigger] sort_positions(p, n)[k] < n,
    decreases n,
{
    if n > 0 {
        lemma_sort_positions_shape(p, n - 1);
        let s = sort_positions(p, n - 1);
        lemma_insert_pos_at_matches(p, n - 1, s, 0);
        let pos = insert_pos_at(p, n - 1, s, 0);
        assert forall|k: int| 0 <= k < n implies 0 <= #[trigger] sort_positions(p, n)[k] < n by {
            if k < pos {
                assert(sort_positions(p, n)[k] == s[k]);
            } else if k > pos {
                assert(sort_positions(p, n)[k] == s[k - 1]);
            }
        }
    }
}

proof fn lemma_sort_positions_stable(p: Seq<ProcessMemory>, n: int)
    requires
        0 <= n <= p.len(),
    ensures
        at_positions(p, sort_positions(p, n)) == stable_sort(p.take(n)),
        forall|a: int, b: int|
            0 <= a < b < n ==> ranks_before(
                p,
                #[trigger] sort_positions(p, n)[a],
                #[trigger] sort_positions(p, n)[b],
            ),
    decreases n,
{
    lemma_sort_positions_shape(p, n);
    if n == 0 {
        assert(at_positions(p, sort_positions(p, n)) =~= stable_sort(p.take(n)));
    } else {
        lemma_sort_positions_stable(p, n - 1);
        lemma_sort_positions_shape(p, n - 1);
        let s = sort_positions(p, n - 1);
        let x = n - 1;
        lemma_insert_pos_at_matches(p, x, s, 0);
        let pos = insert_pos_at(p, x, s, 0);
        let t = sort_positions(p, n);
        assert(t == s.insert(pos, x));
        // the processes
        assert(p.take(n).drop_last() =~= p.take(n - 1));
        assert(p.take(n).last() == p[x]);
        assert(at_positions(p, t) =~= at_positions(p, s).insert(pos, p[x]));
        // the order
        assert forall|a: int, b: int| 0 <= a < b < n implies ranks_before(
            p,
            #[trigger] t[a],
            #[trigger] t[b],
        ) by {
            if b < pos {
                assert(t[a] == s[a] && t[b] == s[b]);
            } else if b == pos {
                assert(t[a] == s[a] && t[b] == x);
                assert(!sorts_before(p[x], p[s[a]]));
                assert(s[a] < x);
            } else if a < pos {
                assert(t[a] == s[a] && t[b] == s[b - 1]);
            } else if a == pos {
                assert(t[a] == x && t[b] == s[b - 1]);
                assert(sorts_before(p[x], p[s[pos]]));
                if b - 1 > pos {
                    assert(ranks_before(p, s[pos], s[b - 1]));
                }
                assert(sorts_before(p[x], p[s[b - 1]]));
            } else {
                assert(t[a] == s[a - 1] && t[b] == s[b - 1]);
            }
        }
    }
}

/// The sort is stable: the processes come out in an order of their input
/// positions in which each one sorts before the next, or compares equal to
/// it and came earlier in the input. So processes with the same footprint and
/// pid keep their input order, and every input position appears once.
pub proof fn lemma_stable_sort_keeps_input_order(p: Seq<ProcessMemory>)
    ensures
        sort_positions(p, p.len() as int).len() == p.len(),
        forall|k: int|
            0 <= k < p.len() ==> 0 <= #[trigger] sort_positions(p, p.len() as int)[k] < p.len(),
        stable_sort(p) == at_positions(p, sort_positions(p, p.len() as int)),
        forall|a: int, b: int|
            0 <= a < b < p.len() ==> ranks_before(
                p,
                #[trigger] sort_positions(p, p.len() as int)[a],
                #[trigger] sort_positions(p, p.len() as int)[b],
            ),
        forall|a: int, b: int|
            0 <= a < b < p.len() && !sorts_before(
                p[#[trigger] sort_positions(p, p.len() as int)[a]],
                p[#[trigger] sort_positions(p, p.len() as int)[b]],
            ) ==> sort_positions(p, p.len() as int)[a] < sort_positions(p, p.len() as int)[b],
{
    lemma_sort_positions_shape(p, p.len() as int);
    lemma_sort_positions_stable(p, p.len() as int);
    assert(p.take(p.len() as int) =~= p);
    let s = sort_positions(p, p.len() as int);
    assert forall|a: int, b: int|
        0 <= a < b < p.len() && !sorts_before(p[#[trigger] s[a]], p[#[trigger] s[b]]) implies s[a]
        < s[b] by {
        assert(ranks_before(p, s[a], s[b]));
    }
}

/// The processes shown are the largest: three of them, or all when there
/// are fewer; each is one of the input's (as often as it occurs there at
/// most); they come by footprint, largest first, equal footprints by pid;
/// and every input process left out has a footprint no larger than the last
/// one shown.
pub proof fn lemma_top_three_are_the_largest(p: Seq<ProcessMemory>)
    ensures
        spec_top_three(p).len() == kept(p.len()),
        spec_top_three(p).to_multiset().subset_of(p.to_multiset()),
        forall|i: int| 0 <= i < spec_top_three(p).len() ==> p.contains(#[trigger] spec_top_three(p)[i]),
        forall|i: int, j: int|
            0 <= i < j < spec_top_three(p).len() ==> (#[trigger] spec_top_three(p)[i]).bytes
                >= (#[trigger] spec_top_three(p)[j]).bytes,
        forall|i: int, j: int|
            0 <= i < j < spec_top_three(p).len() && (#[trigger] spec_top_three(p)[i]).bytes == (
            #[trigger] spec_top_three(p)[j]).bytes ==> spec_top_three(p)[i].pid <= spec_top_three(
                p,
            )[j].pid,
        forall|x: ProcessMemory|
            #![trigger p.to_multiset().count(x)]
            p.to_multiset().count(x) > spec_top_three(p).to_multiset().count(x) ==> x.bytes
                <= spec_top_three(p).last().bytes,
        forall|k: int|
            0 <= k < p.len() && !spec_top_three(p).contains(#[trigger] p[k]) ==> p[k].bytes
                <= spec_top_three(p).last().bytes,
{
    broadcast use vstd::seq_lib::group_to_multiset_ensures;

    let s = stable_sort(p);
    let n = kept(p.len()) as int;
    let t = spec_top_three(p);
    let rest = s.skip(n);
    lemma_stable_sort_permutes(p);
    lemma_stable_sort_ordered(p);
    assert(s =~= t + rest);
    vstd::seq_lib::lemma_multiset_commutative(t, rest);
    assert(p.to_multiset() == t.to_multiset().add(rest.to_multiset()));
    assert forall|i: int| 0 <= i < t.len() implies p.contains(#[trigger] t[i]) by {
        assert(t.to_multiset().count(t[i]) > 0);
        assert(p.to_multiset().count(t[i]) > 0);
    }
    assert forall|i: int, j: int| 0 <= i < j < t.len() implies (#[trigger] t[i]).bytes >= (
    #[trigger] t[j]).bytes by {
        assert(t[i] == s[i] && t[j] == s[j]);
        assert(!sorts_before(s[j], s[i]));
    }
    assert forall|i: int, j: int|
        0 <= i < j < t.len() && (#[trigger] t[i]).bytes == (#[trigger] t[j]).bytes implies t[i].pid
        <= t[j].pid by {
        assert(t[i] == s[i] && t[j] == s[j]);
        assert(!sorts_before(s[j], s[i]));
    }
    assert forall|x: ProcessMemory|
        #![trigger p.to_multiset().count(x)]
        p.to_multiset().count(x) > t.to_multiset().count(x) implies x.bytes <= t.last().bytes by {
        assert(rest.to_multiset().count(x) > 0);
        assert(rest.contains(x));
        let m = choose|m: int| 0 <= m < rest.len() && rest[m] == x;
        assert(s[n + m] == x);
        assert(n >= 1);
        assert(t.last() == s[n - 1]);
        assert(!sorts_before(s[n + m], s[n - 1]));
    }
    assert forall|k: int|
        0 <= k < p.len() && !t.contains(#[trigger] p[k]) implies p[k].bytes <= t.last().bytes by {
        assert(p.to_multiset().count(p[k]) > 0);
        assert(t.to_multiset().count(p[k]) == 0);
        assert(p.to_multiset().count(p[k]) > t.to_multiset().count(p[k]));
    }
}

/// Sorts the processes by footprint, largest first, ties by pid (a stable
/// sort), and keeps at most three.
pub fn top_three(processes: Vec<ProcessMemory>) -> (top: Vec<ProcessMemory>)
    ensures
        top@ == spec_top_three(processes@),
        top@.len() == kept(processes@.len()),
        forall|i: int, j: int|
            0 <= i < j < top@.len() ==> (#[trigger] top@[i]).bytes >= (#[trigger] top@[j]).bytes,
        forall|k: int|
            0 <= k < processes@.len() && !top@.contains(#[trigger] processes@[k])
                ==> processes@[k].bytes <= top@.last().bytes,
        top@.to_multiset().subset_of(processes@.to_multiset()),
{
    let ghost p = processes@;
    let mut top: Vec<ProcessMemory> = Vec::new();
    let mut i: usize = 0;
    while i < processes.len()
        invariant
            p == processes@,
            i <= p.len(),
            stable_sort(p.take(i as int)).len() == i,
            top@ == stable_sort(p.take(i as int)).take(kept(i as nat) as int),
        decreases p.len() - i,
    {
        let src = &processes[i];
        let x = ProcessMemory { pid: src.pid, name: src.name.clone(), bytes: src.bytes };
        assert(x == p[i as int]);
        let mut pos: usize = 0;
        while pos < top.len() && !(x.bytes > top[pos].bytes || (x.bytes == top[pos].bytes
            && x.pid < top[pos].pid))
            invariant
                pos <= top@.len(),
                insert_pos(x, top@, 0) == insert_pos(x, top@, pos as int),
            decreases top@.len() - pos,
        {
            pos = pos + 1;
        }
        let ghost before = top@;
        top.insert(pos, x);
        top.truncate(3);
        proof {
            let s = stable_sort(p.take(i as int));
            assert(p.take(i + 1).drop_last() =~= p.take(i as int));
            assert(p.take(i + 1).last() == x);
            assert(stable_sort(p.take(i + 1)) == insert_sorted(x, s));
            lemma_insert_pos_bounds(x, s, 0);
            if i < 3 {
                assert(before =~= s);
                assert(top@ =~= insert_sorted(x, s).take(kept((i + 1) as nat) as int));
            } else {
                lemma_insert_then_take(x, s, 3);
                assert(top@ =~= insert_sorted(x, s).take(3));
            }
        }
        i = i + 1;
    }
    assert(p.take(p.len() as int) =~= p);
    proof {
        lemma_top_three_are_the_largest(p);
    }
    top
}

// ---------------------------------------------------------------------------
// Scanning
// ---------------------------------------------------------------------------
/// Copies a list of processes.
pub fn copy_processes(v: &Vec<ProcessMemory>) -> (r: Vec<ProcessMemory>)
    ensures
        r@ == v@,
{
    let mut r: Vec<ProcessMemory> = Vec::new();
    let mut k: usize = 0;
    while k < v.len()
        invariant
            k <= v@.len(),
            r@ == v@.take(k as int),
        decreases v@.len() - k,
    {
        let p = &v[k];
        r.push(ProcessMemory { pid: p.pid, name: p.name.clone(), bytes: p.bytes });
        k = k + 1;
        assert(r@ =~= v@.take(k as int));
    }
    assert(v@.take(v@.len() as int) =~= v@);
    r
}

/// What the scan does with one line of `ps` output.
#[derive(Debug, PartialEq, Eq)]
pub enum ScanStep {
    /// Stop scanning and keep what was measured so far.
    Stop,
    /// Not a process line: go on with the next one.
    Skip,
    /// Measure the footprint of this process.
    Measure(u32, String),
}

/// The next step of a footprint scan at one line of `ps` output: stop when
/// the scan was cancelled or its time is up, skip a line that is not a
/// process, measure otherwise.
pub fn next_scan_step(line: &str, cancelled: bool, past_deadline: bool) -> (step: ScanStep)
    ensures
        (cancelled || past_deadline) ==> step == ScanStep::Stop,
        !(cancelled || past_deadline) ==> match step {
            ScanStep::Stop => false,
            ScanStep::Skip => spec_parse_process_line(line@) is None,
            ScanStep::Measure(pid, name) => spec_parse_process_line(line@) == Some((pid, name@)),
        },
{
    if cancelled || past_deadline {
        return ScanStep::Stop;
    }
    match parse_process_line(line) {
        None => ScanStep::Skip,
        Some((pid, name)) => ScanStep::Measure(pid, name),
    }
}

/// One process line of the scan and its measured footprint (`None` when the
/// measurement failed: the process was gone, not permitted, too slow, or its
/// output unreadable).
pub struct Measurement {
    /// Process id.
    pub pid: u32,
    /// Name as `ps` shows it.
    pub name: String,
    /// Physical footprint in bytes, when it could be measured.
    pub bytes: Option<u64>,
}

/// The processes whose footprint was measured, in scan order.
pub open spec fn measured(ms: Seq<Measurement>) -> Seq<ProcessMemory>
    decreases ms.len(),
{
    if ms.len() == 0 {
        Seq::empty()
    } else {
        let rest = measured(ms.drop_last());
        match ms.last().bytes {
            Some(b) => rest.push(ProcessMemory { pid: ms.last().pid, name: ms.last().name, bytes: b }),
            None => rest,
        }
    }
}

/// The result of a whole footprint scan: nothing when the process list could
/// not be had (`listed` false), otherwise the top three of the processes
/// whose footprint was measured, in scan order before sorting. A failed
/// measurement only leaves its own process out.
pub fn scan_result(listed: bool, measurements: Vec<Measurement>) -> (top: Vec<ProcessMemory>)
    ensures
        !listed ==> top@.len() == 0,
        listed ==> top@ == spec_top_three(measured(measurements@)),
        listed ==> top@.len() == kept(measured(measurements@).len()),
{
    if !listed {
        return Vec::new();
    }
    let mut found: Vec<ProcessMemory> = Vec::new();
    let mut k: usize = 0;
    while k < measurements.len()
        invariant
            k <= measurements@.len(),
            found@ == measured(measurements@.take(k as int)),
        decreases measurements@.len() - k,
    {
        let m = &measurements[k];
        assert(measurements@.take(k + 1).drop_last() =~= measurements@.take(k as int));
        assert(measurements@.take(k + 1).last() == measurements@[k as int]);
        match m.bytes {
            Some(b) => {
                found.push(ProcessMemory { pid: m.pid, name: m.name.clone(), bytes: b });
            },
            None => {},
        }
        k = k + 1;
    }
    assert(measurements@.take(measurements@.len() as int) =~= measurements@);
    top_three(found)
}

/// One successful measurement is enough for a non-empty scan result: failed
/// measurements of other processes never empty it.
pub proof fn lemma_one_success_is_shown(ms: Seq<Measurement>, i: int)
    requires
        0 <= i < ms.len(),
        ms[i].bytes is Some,
    ensures
        measured(ms).len() > 0,
        kept(measured(ms).len()) > 0,
    decreases ms.len(),
{
    if i < ms.len() - 1 {
        lemma_one_success_is_shown(ms.drop_last(), i);
    }
}

/// What the popup knows of the background footprint scans: the last finished
/// result, and whether a scan is running.
pub struct ScanState {
    latest: Vec<ProcessMemory>,
    in_flight: bool,
}

impl ScanState {
    /// The last finished result.
    pub closed spec fn latest(&self) -> Seq<ProcessMemory> {
        self.latest@
    }

    /// Whether a scan has been asked for and has not finished.
    pub closed spec fn is_in_flight(&self) -> bool {
        self.in_flight
    }

    /// No result yet, no scan running.
    pub fn new() -> (s: ScanState)
        ensures
            s.latest() == Seq::<ProcessMemory>::empty(),
            !s.is_in_flight(),
    {
        ScanState { latest: Vec::new(), in_flight: false }
    }

    /// Takes the results of the scans that finished since the last refresh,
    /// oldest first, and gives the processes to show now: the newest result
    /// when one finished, otherwise nothing (a running scan's previous result
    /// would pass for the current process list).
    pub fn receive(&mut self, finished: Vec<Vec<ProcessMemory>>) -> (shown: Vec<ProcessMemory>)
        ensures
            finished@.len() == 0 ==> shown@.len() == 0 && final(self).latest() == old(self).latest()
                && final(self).is_in_flight() == old(self).is_in_flight(),
            finished@.len() > 0 ==> final(self).latest() == finished@.last()@,
            finished@.len() > 0 ==> !final(self).is_in_flight(),
            finished@.len() > 0 ==> shown@ == finished@.last()@,
    {
        let mut finished = finished;
        match finished.pop() {
            None => Vec::new(),
            Some(last) => {
                self.latest = last;
                self.in_flight = false;
                copy_processes(&self.latest)
            },
        }
    }

    /// Whether a new scan should be asked for: only when none is running.
    pub fn needs_request(&self) -> (b: bool)
        ensures
            b == !self.is_in_flight(),
    {
        !self.in_flight
    }

    /// Records that a scan was asked for.
    pub fn request_sent(&mut self)
        ensures
            final(self).is_in_flight(),
            final(self).latest() == old(self).latest(),
    {
        self.in_flight = true;
    }
}

} // verus!
