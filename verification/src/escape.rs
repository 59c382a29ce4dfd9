use vstd::prelude::*;
use vstd::string::StringExecFns;
use vstd::string::StringSliceAdditionalSpecFns;

verus! {

/// The text that `escape_html` writes for one character of its input.
pub open spec fn html_escaped_char(c: char) -> Seq<char> {
    if c == '"' {
        "&quot;"@
    } else if c == '&' {
        "&amp;"@
    } else if c == '<' {
        "&lt;"@
    } else if c == '>' {
        "&gt;"@
    } else {
        seq![c]
    }
}

/// HTML-escaped form of a text: each character replaced by its escape.
pub open spec fn html_escaped(s: Seq<char>) -> Seq<char>
    decreases s.len(),
{
    if s.len() == 0 {
        Seq::empty()
    } else {
        html_escaped(s.drop_last()) + html_escaped_char(s.last())
    }
}

/// Appends one character to a string (`String::push`).
#[verifier::external_body]
pub(crate) fn push_char(s: &mut String, c: char)
    ensures
        final(s)@ == old(s)@.push(c),
{
    s.push(c);
}

/// Writes `s` to `w`, replacing `"`, `&`, `<` and `>` by their HTML entities.
pub fn escape_html(w: &mut String, s: &str)
    ensures
        final(w)@ == old(w)@ + html_escaped(s@),
{
    broadcast use vstd::string::axiom_spec_iter;
    let ghost start = w@;
    for c in it: s.chars()
        invariant
            it.seq() == s@,
            w@ == start + html_escaped(s@.take(it.index())),
    {
        assert(s@.take(it.index() + 1).drop_last() =~= s@.take(it.index()));
        if c == '"' {
            w.append("&quot;");
        } else if c == '&' {
            w.append("&amp;");
        } else if c == '<' {
            w.append("&lt;");
        } else if c == '>' {
            w.append("&gt;");
        } else {
            push_char(w, c);
        }
    }
    assert(s@.take(s@.len() as int) =~= s@);
}

/// Whether a byte is written unchanged inside an `href` attribute.
pub open spec fn href_safe(b: u8) -> bool {
    ||| b == 0x21
    ||| 0x23 <= b <= 0x25
    ||| 0x28 <= b <= 0x3b
    ||| b == 0x3d
    ||| 0x3f <= b <= 0x5a
    ||| b == 0x5f
    ||| 0x61 <= b <= 0x7a
}

/// Upper-case hexadecimal digit for a value below 16.
pub open spec fn hex_digit(d: u8) -> char {
    if d < 10 {
        (48 + d) as char
    } else {
        (55 + d) as char
    }
}

/// The text that `escape_href` writes for one byte of the UTF-8 input.
pub open spec fn href_escaped_byte(b: u8) -> Seq<char> {
    if href_safe(b) {
        seq![b as char]
    } else if b == 0x26 {
        "&amp;"@
    } else if b == 0x27 {
        "&#x27;"@
    } else {
        seq!['%', hex_digit(b / 16), hex_digit(b % 16)]
    }
}

/// Escaped form of a UTF-8 byte sequence for use as a URL in an attribute.
pub open spec fn href_escaped(bs: Seq<u8>) -> Seq<char>
    decreases bs.len(),
{
    if bs.len() == 0 {
        Seq::empty()
    } else {
        href_escaped(bs.drop_last()) + href_escaped_byte(bs.last())
    }
}

fn is_href_safe(b: u8) -> (r: bool)
    ensures
        r == href_safe(b),
{
    b == 0x21 || (0x23 <= b && b <= 0x25) || (0x28 <= b && b <= 0x3b) || b == 0x3d || (0x3f <= b
        && b <= 0x5a) || b == 0x5f || (0x61 <= b && b <= 0x7a)
}

fn hex_char(d: u8) -> (c: char)
    requires
        d < 16,
    ensures
        c == hex_digit(d),
{
    if d < 10 {
        (48 + d) as char
    } else {
        (55 + d) as char
    }
}

/// Writes the UTF-8 bytes of `s` to `w` for use inside an `href` attribute: safe ASCII
/// bytes unchanged, `&` and `'` as entities, every other byte as `%XX`.
pub fn escape_href(w: &mut String, s: &str)
    ensures
        final(w)@ == old(w)@ + href_escaped(s.spec_bytes()),
{
    let bytes = s.as_bytes();
    let ghost start = w@;
    let mut i: usize = 0;
    while i < bytes.len()
        invariant
            i <= bytes@.len(),
            bytes@ == s.spec_bytes(),
            w@ == start + href_escaped(bytes@.take(i as int)),
        decreases bytes@.len() - i,
    {
        let b = bytes[i];
        assert(bytes@.take(i + 1).drop_last() =~= bytes@.take(i as int));
        if is_href_safe(b) {
            push_char(w, b as char);
        } else if b == 0x26 {
            w.append("&amp;");
        } else if b == 0x27 {
            w.append("&#x27;");
        } else {
            push_char(w, '%');
            push_char(w, hex_char(b / 16));
            push_char(w, hex_char(b % 16));
            assert(seq!['%', hex_digit(b / 16), hex_digit(b % 16)] =~= seq!['%'].push(
                hex_digit(b / 16),
            ).push(hex_digit(b % 16)));
        }
        i = i + 1;
    }
    assert(bytes@.take(bytes@.len() as int) =~= bytes@);
}

} // verus!
