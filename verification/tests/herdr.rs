use herdr_activity_monitor::herdr::{clear_request, json_escape, set_request};

#[test]
fn set_request_shape() {
    let s = set_request("abc");
    assert!(s.contains("client.window_title.set"));
    assert!(s.contains(r#""id":"window_title_set""#));
    assert!(s.contains("params"));
    assert!(s.contains("abc"));
}

#[test]
fn clear_request_shape() {
    let s = clear_request();
    assert!(s.contains("client.window_title.clear"));
    assert!(s.contains(r#""id":"window_title_clear""#));
    assert!(s.contains("params"));
}

#[test]
fn set_request_escapes_special_chars_single_line() {
    let s = set_request("a\"b\\c\nd");
    assert!(!s.contains('\n'));
    assert!(s.contains("\\u0022"));
    assert!(s.contains("\\u005c"));
    assert!(s.contains("\\u000a"));
}

#[test]
fn escaping_writes_unicode_escapes_and_keeps_other_text() {
    assert_eq!(json_escape("a\"b\\c\nd"), "a\\u0022b\\u005cc\\u000ad");
    assert_eq!(json_escape("\u{7f}\u{1}"), "\\u007f\\u0001");
    assert_eq!(json_escape("🧠 ok é"), "🧠 ok é");
}

#[test]
fn set_request_is_exact() {
    assert_eq!(
        set_request("t\"x"),
        r#"{"jsonrpc":"2.0","id":"window_title_set","method":"client.window_title.set","params":{"title":"t\u0022x"}}"#
    );
    assert_eq!(
        clear_request(),
        r#"{"jsonrpc":"2.0","id":"window_title_clear","method":"client.window_title.clear","params":{}}"#
    );
}

#[test]
fn escaped_title_reads_back_as_the_title() {
    // Reading the request's title back with a JSON decoder gives the title.
    let title = "a\"b\\c\nd\te";
    let req = set_request(title);
    let start = req.find("\"title\":\"").unwrap() + "\"title\":\"".len();
    let body = &req[start..req.len() - 3];
    let mut out = String::new();
    let mut chars = body.chars();
    while let Some(c) = chars.next() {
        if c == '\\' {
            assert_eq!(chars.next(), Some('u'));
            let hex: String = chars.by_ref().take(4).collect();
            out.push(char::from_u32(u32::from_str_radix(&hex, 16).unwrap()).unwrap());
        } else {
            out.push(c);
        }
    }
    assert_eq!(out, title);
}
