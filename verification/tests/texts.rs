//! The text functions against the standard library's.

use coxagent_presentation::clock::{rfc3339_secs, whole_seconds};
use coxagent_presentation::downloads::{key_ok, mime_of, sanitize_name, UPLOAD_MAX};
use coxagent_presentation::order::{distinct_sorted, sort, text_leq};
use coxagent_presentation::reply::{internal_error, json, not_found, plain};
use coxagent_presentation::security::{
    base64_std, disposition_of, is_active_content_ext, origin_ok, security_headers,
    turn_credential,
};
use coxagent_presentation::text::{
    after_last, any_control, ascii_lower, ascii_upper, contains, decimal, decimal_wide, dedup,
    distinct, ends_with, find, has_name, head, hex_fixed, hexadecimal, html_escape, is_blank,
    is_control, is_white_space, join_with, lines, nonblank, parse_number, replace, same, split,
    split_once, starts_with, strip_prefix, strip_prefixes, trim, trim_char, trim_end_char,
    trim_start_char, trimmed, words,
};

const SAMPLES: [&str; 12] = [
    "",
    " ",
    "a",
    "  padded\t\n",
    "\u{a0}no-break\u{2003}",
    "a/b//c/",
    "line one\nline two\r\nline three",
    "trailing\n",
    "naïve Ünïcode ß",
    "key=value=more",
    "\u{feff}bom",
    "日本語 テスト",
];

fn strings(list: &[&str]) -> Vec<String> {
    list.iter().map(|s| (*s).to_owned()).collect()
}

#[test]
fn white_space_and_control_agree_for_every_character() {
    for c in '\0'..=char::MAX {
        assert_eq!(is_white_space(c), c.is_whitespace(), "{c:?}");
        assert_eq!(is_control(c), c.is_control(), "{c:?}");
    }
}

#[test]
fn texts_are_cut_as_the_standard_library_cuts_them() {
    for s in SAMPLES {
        assert_eq!(trim(s), s.trim());
        assert_eq!(is_blank(s), s.trim().is_empty());
        assert_eq!(split(s, '/'), strings(&s.split('/').collect::<Vec<_>>()));
        assert_eq!(lines(s), strings(&s.lines().collect::<Vec<_>>()));
        assert_eq!(words(s), strings(&s.split_whitespace().collect::<Vec<_>>()));
        assert_eq!(ascii_lower(s), s.to_ascii_lowercase());
        assert_eq!(ascii_upper(s), s.to_ascii_uppercase());
        assert_eq!(trim_end_char(s, '/'), s.trim_end_matches('/'));
        assert_eq!(trim_start_char(s, 'a'), s.trim_start_matches('a'));
        assert_eq!(trim_char(s, '/'), s.trim_matches('/'));
        assert_eq!(after_last(s, '/'), s.rsplit('/').next().unwrap_or(""));
        assert_eq!(
            split_once(s, '='),
            s.split_once('=').map(|(a, b)| (a.to_owned(), b.to_owned()))
        );
        assert_eq!(replace(s, "li", "LI!"), s.replace("li", "LI!"));
        assert_eq!(any_control(s), s.chars().any(char::is_control));
        for t in SAMPLES {
            assert_eq!(same(s, t), s == t);
            assert_eq!(starts_with(s, t), s.starts_with(t));
            assert_eq!(ends_with(s, t), s.ends_with(t));
            assert_eq!(contains(s, t), s.contains(t));
            assert_eq!(text_leq(s, t), s <= t);
            assert_eq!(strip_prefix(s, t), s.strip_prefix(t).map(str::to_owned));
        }
    }
    assert_eq!(find("abcabc", "ca"), Some(2));
    assert_eq!(find("abc", "x"), None);
    assert_eq!(strip_prefixes("ababx", "ab"), "x");
    assert_eq!(replace("aaa", "aa", "b"), "ba");
    assert_eq!(head("日本語", 2), "日本");
    assert_eq!(head("ab", 5), "ab");
    assert_eq!(nonblank(&Some("  ".to_owned())), None);
    assert_eq!(nonblank(&Some(" a ".to_owned())), Some(" a ".to_owned()));
    assert_eq!(trimmed(&Some(" a ".to_owned())), Some("a".to_owned()));
    assert!(has_name(&strings(&["Bob"]), "bOB"));
}

#[test]
fn numbers_are_written_and_read() {
    for n in [0u64, 7, 10, 12345, u64::MAX] {
        assert_eq!(decimal(n), n.to_string());
        assert_eq!(decimal_wide(u128::from(n)), n.to_string());
        assert_eq!(hexadecimal(u128::from(n)), format!("{n:x}"));
        assert_eq!(parse_number(&n.to_string(), u64::MAX), Some(n));
    }
    assert_eq!(hexadecimal(u128::MAX), format!("{:x}", u128::MAX));
    assert_eq!(hex_fixed(0xab, 4), "00ab");
    for bad in ["", "-1", "1.0", " 1", "18446744073709551616", "+", "1_0"] {
        assert_eq!(parse_number(bad, u64::MAX), bad.parse::<u64>().ok(), "{bad:?}");
    }
    assert_eq!(parse_number("+5", 10), Some(5));
    assert_eq!(parse_number("11", 10), None);
}

#[test]
fn lists_are_joined_sorted_and_thinned() {
    let list = strings(&["b", "a", "b", "b", "c", "a"]);
    assert_eq!(join_with(&list, ", "), "b, a, b, b, c, a");
    assert_eq!(dedup(&list), strings(&["b", "a", "b", "c", "a"]));
    assert_eq!(distinct(&list), strings(&["b", "a", "c"]));
    assert_eq!(distinct_sorted(&list), strings(&["a", "b", "c"]));
    assert_eq!(sort(list), strings(&["a", "a", "b", "b", "b", "c"]));
}

#[test]
fn escaped_text_holds_no_markup() {
    assert_eq!(
        html_escape("<a href=\"x\">&'</a>"),
        "&lt;a href=&quot;x&quot;&gt;&amp;&#39;&lt;/a&gt;"
    );
}

#[test]
fn base64_matches_the_known_vectors() {
    for (plain, coded) in [
        ("", ""),
        ("f", "Zg=="),
        ("fo", "Zm8="),
        ("foo", "Zm9v"),
        ("foob", "Zm9vYg=="),
        ("fooba", "Zm9vYmE="),
        ("foobar", "Zm9vYmFy"),
    ] {
        assert_eq!(base64_std(plain.as_bytes()), coded);
    }
    assert_eq!(base64_std(&[0xff, 0xef, 0xbe]), "/+++");
}

#[test]
fn a_turn_credential_is_the_coded_digest() {
    assert_eq!(
        turn_credential(b"Jefe", b"what do ya want for nothing?"),
        "7/zfauXrL6LSdBbV8YTfnCWafHk="
    );
}

#[test]
fn an_origin_has_to_be_the_host() {
    assert!(origin_ok(None, None));
    assert!(origin_ok(Some("https://hub.example:8443"), Some("hub.example:8443")));
    assert!(!origin_ok(Some("https://evil.example"), Some("hub.example")));
    assert!(!origin_ok(Some("https://hub.example"), None));
    assert!(origin_ok(Some("hub.example"), Some("hub.example")));
}

#[test]
fn what_a_browser_would_run_is_only_downloaded() {
    for name in ["a.svg", "A.HTML", "x.htm", "y.xhtml", "z.xml"] {
        assert!(is_active_content_ext(name), "{name}");
        assert_eq!(disposition_of(name), Some("attachment"));
    }
    for name in ["a.png", "a.svg.png", "noext"] {
        assert!(!is_active_content_ext(name), "{name}");
        assert_eq!(disposition_of(name), None);
    }
    assert_eq!(security_headers().len(), 3);
    assert_eq!(security_headers()[1], ("X-Frame-Options", "DENY"));
}

#[test]
fn files_get_a_type_and_a_safe_name() {
    assert_eq!(mime_of("a.PNG"), "image/png");
    assert_eq!(mime_of("b.jpeg"), "image/jpeg");
    assert_eq!(mime_of("notes.md"), "text/plain; charset=utf-8");
    assert_eq!(mime_of("x.bin"), "application/octet-stream");
    assert_eq!(sanitize_name("../a b/ü?.png"), ".._a_b_ü_.png");
    assert!(key_ok("proj/a/b.png"));
    assert!(!key_ok("proj/../b.png"));
    assert_eq!(UPLOAD_MAX, 26_214_400);
}

#[test]
fn instants_are_read_in_whole_seconds() {
    assert_eq!(rfc3339_secs("1970-01-01T00:00:00Z"), Some(0));
    assert_eq!(rfc3339_secs("1970-01-01T01:00:01.5+01:00"), Some(1));
    assert_eq!(rfc3339_secs("yesterday"), None);
    assert_eq!(whole_seconds(-1), -1);
    assert_eq!(whole_seconds(1_999_999_999), 1);
}

#[test]
fn refusals_say_how_they_are_sent() {
    let e = not_found();
    assert_eq!((e.status, e.text.as_str(), e.as_json), (404, "no such project", false));
    assert!(internal_error("x").as_json && internal_error("x").status == 500);
    assert!(!plain(400, "x").as_json);
    assert!(json(409, "x").as_json);
}
