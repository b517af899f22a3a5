//! The JSON-RPC requests that set and clear the Herdr window title.
use vstd::prelude::*;
use vstd::string::*;
use crate::text::{chars_of, digit_char};

verus! {

/// `c.is_ascii_control()`: U+0000 to U+001F and U+007F.
pub open spec fn is_ascii_control(c: char) -> bool {
    (c as u32) < 0x20 || c as u32 == 0x7f
}

/// The lower-case hexadecimal digit of `d`.
pub open spec fn hex_char(d: nat) -> char {
    if d < 10 {
        digit_char(d)
    } else {
        (d - 10 + 97) as char
    }
}

/// Whether `c` is written as a `\u00XX` escape.
pub open spec fn needs_escape(c: char) -> bool {
    c == '"' || c == '\\' || is_ascii_control(c)
}

/// The text that stands for `c` in the escaped string.
pub open spec fn escape_char(c: char) -> Seq<char> {
    if needs_escape(c) {
        seq!['\\', 'u', '0', '0', hex_char((c as u32 / 16) as nat), hex_char((c as u32 % 16) as nat)]
    } else {
        seq![c]
    }
}

/// `s` escaped for the inside of a JSON string literal: `"`, `\` and the ASCII
/// control characters become `\u00XX` (lower-case hex), everything else stays.
pub open spec fn json_escaped(s: Seq<char>) -> Seq<char>
    decreases s.len(),
{
    if s.len() == 0 {
        Seq::empty()
    } else {
        json_escaped(s.drop_last()) + escape_char(s.last())
    }
}

fn hex(d: u32) -> (c: char)
    requires
        d < 16,
    ensures
        c == hex_char(d as nat),
{
    if d < 10 {
        ((d + 48) as u8) as char
    } else {
        ((d - 10 + 97) as u8) as char
    }
}

/// Escapes `s` for the inside of a JSON string literal (no quotes added).
pub fn json_escape(s: &str) -> (out: String)
    ensures
        out@ == json_escaped(s@),
{
    let cs = chars_of(s);
    let mut out = String::new();
    let mut i: usize = 0;
    while i < cs.len()
        invariant
            i <= cs@.len(),
            cs@ == s@,
            out@ == json_escaped(cs@.take(i as int)),
        decreases cs@.len() - i,
    {
        let c = cs[i];
        let x = c as u32;
        assert(cs@.take(i + 1).drop_last() =~= cs@.take(i as int));
        if c == '"' || c == '\\' || x < 0x20 || x == 0x7f {
            out.push('\\');
            out.push('u');
            out.push('0');
            out.push('0');
            out.push(hex(x / 16));
            out.push(hex(x % 16));
        } else {
            out.push(c);
        }
        i = i + 1;
    }
    assert(cs@.take(cs@.len() as int) =~= cs@);
    out
}

/// The request that sets the window title, up to the title.
pub open spec fn set_request_head() -> Seq<char> {
    "{\"jsonrpc\":\"2.0\",\"id\":\"window_title_set\",\"method\":\"client.window_title.set\",\"params\":{\"title\":\""@
}

/// The request that sets the window title, after the title.
pub open spec fn set_request_tail() -> Seq<char> {
    "\"}}"@
}

/// The `client.window_title.set` JSON-RPC request, on one line.
pub fn set_request(title: &str) -> (r: String)
    ensures
        r@ == set_request_head() + json_escaped(title@) + set_request_tail(),
{
    let mut r = String::from_str(
        "{\"jsonrpc\":\"2.0\",\"id\":\"window_title_set\",\"method\":\"client.window_title.set\",\"params\":{\"title\":\"",
    );
    let e = json_escape(title);
    r.append(e.as_str());
    r.append("\"}}");
    r
}

/// The `client.window_title.clear` request.
pub open spec fn clear_request_text() -> Seq<char> {
    "{\"jsonrpc\":\"2.0\",\"id\":\"window_title_clear\",\"method\":\"client.window_title.clear\",\"params\":{}}"@
}

/// The `client.window_title.clear` JSON-RPC request, on one line with empty
/// parameters.
pub fn clear_request() -> (r: String)
    ensures
        r@ == clear_request_text(),
{
    String::from_str(
        "{\"jsonrpc\":\"2.0\",\"id\":\"window_title_clear\",\"method\":\"client.window_title.clear\",\"params\":{}}",
    )
}


// ---------------------------------------------------------------------------
// What the escaping guarantees
// ---------------------------------------------------------------------------
/// The value of a lower-case hexadecimal digit.
pub open spec fn hex_value(c: char) -> nat {
    if '0' <= c && c <= '9' {
        (c as u32 - 48) as nat
    } else if 'a' <= c && c <= 'f' {
        (c as u32 - 87) as nat
    } else {
        0
    }
}

/// The character whose code is `v`.
pub open spec fn char_of_code(v: nat) -> char {
    choose|c: char| #[trigger] code_of(c) == v
}

/// The code of `c`.
pub open spec fn code_of(c: char) -> nat {
    c as u32 as nat
}

/// Reads the inside of a JSON string literal back: each `\uXXXX` stands for the
/// character with that code, every other character for itself.
pub open spec fn json_unescaped(t: Seq<char>) -> Seq<char>
    decreases t.len(),
{
    if t.len() == 0 {
        Seq::empty()
    } else if t.len() >= 6 && t[0] == '\\' && t[1] == 'u' {
        seq![
            char_of_code(
                hex_value(t[2]) * 4096 + hex_value(t[3]) * 256 + hex_value(t[4]) * 16 + hex_value(
                    t[5],
                ),
            ),
        ] + json_unescaped(t.skip(6))
    } else {
        seq![t[0]] + json_unescaped(t.skip(1))
    }
}

proof fn lemma_escaped_cons(c: char, s: Seq<char>)
    ensures
        json_escaped(seq![c] + s) == escape_char(c) + json_escaped(s),
    decreases s.len(),
{
    if s.len() == 0 {
        assert((seq![c] + s).drop_last() =~= Seq::<char>::empty());
        assert((seq![c] + s).last() == c);
        assert(json_escaped(Seq::<char>::empty()) =~= Seq::<char>::empty());
        assert(json_escaped(seq![c] + s) =~= escape_char(c));
    } else {
        lemma_escaped_cons(c, s.drop_last());
        assert((seq![c] + s).drop_last() =~= seq![c] + s.drop_last());
        assert((seq![c] + s).last() == s.last());
        assert(json_escaped(seq![c] + s) =~= escape_char(c) + json_escaped(s));
    }
}

proof fn lemma_char_code(a: char, b: char)
    requires
        a as u32 == b as u32,
    ensures
        a == b,
{
}

proof fn lemma_hex_round_trip(d: nat)
    requires
        d < 16,
    ensures
        hex_value(hex_char(d)) == d,
        hex_char(d) != '\\',
{
}

/// Escaping loses nothing: reading the escaped text back gives the same
/// text, whatever it holds.
pub proof fn lemma_json_escape_round_trip(s: Seq<char>)
    ensures
        json_unescaped(json_escaped(s)) == s,
    decreases s.len(),
{
    if s.len() > 0 {
        let c = s[0];
        let rest = s.skip(1);
        assert(s =~= seq![c] + rest);
        lemma_escaped_cons(c, rest);
        lemma_json_escape_round_trip(rest);
        let t = json_escaped(s);
        if needs_escape(c) {
            let x = c as u32;
            lemma_hex_round_trip((x / 16) as nat);
            lemma_hex_round_trip((x % 16) as nat);
            assert(t[0] == '\\' && t[1] == 'u');
            assert(t.skip(6) =~= json_escaped(rest));
            assert(hex_value(t[2]) == 0 && hex_value(t[3]) == 0);
            assert(hex_value(t[4]) * 16 + hex_value(t[5]) == x);
            assert(c as u32 == x);
            assert(code_of(c) == x);
            let d = char_of_code(x as nat);
            assert(code_of(d) == x);
            lemma_char_code(d, c);
            assert(json_unescaped(t) =~= seq![c] + rest);
        } else {
            assert(t[0] == c);
            assert(t.skip(1) =~= json_escaped(rest));
            assert(json_unescaped(t) =~= seq![c] + rest);
        }
    }
}

/// No character of an escaped text is a double quote or an ASCII control
/// character, so it cannot end the string literal nor break the line.
pub proof fn lemma_json_escape_no_quote_or_control(s: Seq<char>)
    ensures
        forall|i: int|
            0 <= i < json_escaped(s).len() ==> #[trigger] json_escaped(s)[i] != '"'
                && !is_ascii_control(json_escaped(s)[i]),
    decreases s.len(),
{
    if s.len() > 0 {
        lemma_json_escape_no_quote_or_control(s.drop_last());
        let c = s.last();
        if needs_escape(c) {
            let x = c as u32;
            assert(hex_char((x / 16) as nat) != '"');
        }
        assert forall|i: int| 0 <= i < json_escaped(s).len() implies #[trigger] json_escaped(s)[i]
            != '"' && !is_ascii_control(json_escaped(s)[i]) by {
            let n = json_escaped(s.drop_last()).len();
            if i >= n {
                assert(json_escaped(s)[i] == escape_char(c)[i - n]);
            } else {
                assert(json_escaped(s)[i] == json_escaped(s.drop_last())[i]);
            }
        }
    }
}

/// A lower-case hexadecimal digit.
pub open spec fn is_lower_hex(c: char) -> bool {
    ('0' <= c && c <= '9') || ('a' <= c && c <= 'f')
}

/// Every backslash of an escaped text starts a `\u00XX` escape with two
/// lower-case hexadecimal digits, so any JSON decoder reads the text as
/// `json_unescaped` does.
pub proof fn lemma_json_escape_backslashes(s: Seq<char>)
    ensures
        forall|i: int|
            0 <= i < json_escaped(s).len() && #[trigger] json_escaped(s)[i] == '\\' ==> {
                &&& i + 5 < json_escaped(s).len()
                &&& json_escaped(s)[i + 1] == 'u'
                &&& json_escaped(s)[i + 2] == '0'
                &&& json_escaped(s)[i + 3] == '0'
                &&& is_lower_hex(json_escaped(s)[i + 4])
                &&& is_lower_hex(json_escaped(s)[i + 5])
            },
    decreases s.len(),
{
    if s.len() > 0 {
        lemma_json_escape_backslashes(s.drop_last());
        let c = s.last();
        let h = json_escaped(s.drop_last());
        let e = escape_char(c);
        let t = json_escaped(s);
        assert(t == h + e);
        if needs_escape(c) {
            let x = c as u32;
            lemma_hex_round_trip((x / 16) as nat);
            lemma_hex_round_trip((x % 16) as nat);
        }
        assert forall|i: int| 0 <= i < t.len() && #[trigger] t[i] == '\\' implies {
            &&& i + 5 < t.len()
            &&& t[i + 1] == 'u'
            &&& t[i + 2] == '0'
            &&& t[i + 3] == '0'
            &&& is_lower_hex(t[i + 4])
            &&& is_lower_hex(t[i + 5])
        } by {
            if i < h.len() {
                assert(t[i] == h[i]);
                assert(t[i + 1] == h[i + 1] && t[i + 2] == h[i + 2] && t[i + 3] == h[i + 3]);
                assert(t[i + 4] == h[i + 4] && t[i + 5] == h[i + 5]);
            } else {
                assert(t[i] == e[i - h.len()]);
                assert(i == h.len());
            }
        }
    }
}

/// The set request is one line whatever the title holds: it has no newline.
pub proof fn lemma_set_request_single_line(title: Seq<char>)
    ensures
        forall|i: int|
            0 <= i < (set_request_head() + json_escaped(title) + set_request_tail()).len()
                ==> #[trigger] (set_request_head() + json_escaped(title) + set_request_tail())[i]
                != '\n',
{
    reveal_strlit(
        "{\"jsonrpc\":\"2.0\",\"id\":\"window_title_set\",\"method\":\"client.window_title.set\",\"params\":{\"title\":\"",
    );
    reveal_strlit("\"}}");
    lemma_json_escape_no_quote_or_control(title);
    let h = set_request_head();
    let e = json_escaped(title);
    let r = h + e + set_request_tail();
    assert forall|i: int| 0 <= i < r.len() implies #[trigger] r[i] != '\n' by {
        if i < h.len() {
            assert(r[i] == h[i]);
        } else if i < h.len() + e.len() {
            assert(r[i] == e[i - h.len()]);
        } else {
            assert(r[i] == set_request_tail()[i - h.len() - e.len()]);
        }
    }
}

} // verus!
