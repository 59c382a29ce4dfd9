use pulldown_cmark_html::escape::{escape_href, escape_html};
use pulldown_cmark_html::number::push_decimal;

fn html(t: &str) -> String {
    let mut out = String::new();
    escape_html(&mut out, t);
    out
}

fn href(t: &str) -> String {
    let mut out = String::new();
    escape_href(&mut out, t);
    out
}

#[test]
fn escape_html_replaces_the_four_markup_characters() {
    assert_eq!(html("a<b & \"c\">'d'"), "a&lt;b &amp; &quot;c&quot;&gt;'d'");
    assert_eq!(html(""), "");
    assert_eq!(html("\u{e9}t\u{e9}"), "\u{e9}t\u{e9}");
}

#[test]
fn escape_html_appends() {
    let mut out = String::from("x");
    escape_html(&mut out, "&");
    assert_eq!(out, "x&amp;");
}

#[test]
fn escape_html_distributes_over_concatenation() {
    let a = "<a href=\"";
    let b = "x\">&";
    assert_eq!(html(&format!("{}{}", a, b)), format!("{}{}", html(a), html(b)));
}

#[test]
fn escaped_text_has_no_markup_characters() {
    let all: String = (0u8..128).map(|b| b as char).collect();
    let out = html(&all);
    assert!(!out.contains('<') && !out.contains('>') && !out.contains('"'));
}

#[test]
fn escape_href_keeps_safe_bytes() {
    let safe = "!#$%()*+,-./0123456789:;=?@ABCDEFGHIJKLMNOPQRSTUVWXYZ_abcdefghijklmnopqrstuvwxyz";
    assert_eq!(href(safe), safe);
}

#[test]
fn escape_href_encodes_other_bytes() {
    assert_eq!(href(" \"<>[\\]^`{|}~"), "%20%22%3C%3E%5B%5C%5D%5E%60%7B%7C%7D%7E");
    assert_eq!(href("&'"), "&amp;&#x27;");
    assert_eq!(href("\u{e9}\u{1F600}"), "%C3%A9%F0%9F%98%80");
    assert_eq!(href("\n\t\u{7f}"), "%0A%09%7F");
}

#[test]
fn escaped_href_is_ascii_without_quotes() {
    let all: String = (0u32..0x300).filter_map(char::from_u32).collect();
    let out = href(&all);
    assert!(out.is_ascii());
    assert!(!out.contains('<') && !out.contains('>') && !out.contains('"'));
}

#[test]
fn escape_href_distributes_over_concatenation() {
    let a = "a b\u{e9}";
    let b = "&c";
    assert_eq!(href(&format!("{}{}", a, b)), format!("{}{}", href(a), href(b)));
}

#[test]
fn decimal_numbers() {
    let mut out = String::new();
    push_decimal(&mut out, 0);
    out.push(' ');
    push_decimal(&mut out, 7);
    out.push(' ');
    push_decimal(&mut out, 10);
    out.push(' ');
    push_decimal(&mut out, u64::MAX);
    assert_eq!(out, "0 7 10 18446744073709551615");
}
