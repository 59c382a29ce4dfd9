use vstd::prelude::*;
use vstd::utf8::{decode_utf8, encode_utf8, valid_utf8};

use crate::escape::{href_escaped, href_escaped_byte, href_safe, html_escaped, html_escaped_char};
use crate::event::{Alignment, CodeBlockKind, Event, LinkType, Tag};
use crate::number::decimal;
use crate::model::{
    alt_text_write,
    end_tag, ends_nl, first_word, footnote_number, html, lemma_word_len, word_len, html_with_destinations, initial_state,
    lemma_process_pos, lemma_raw_text_frame, link_queries, process, raw_text, run_from, start_tag,
    with_footnote, WriterState,
};

verus! {

/// Whether a character is one that HTML escaping replaces.
pub open spec fn is_html_special(c: char) -> bool {
    c == '"' || c == '&' || c == '<' || c == '>'
}

/// Whether a character may stand inside a double-quoted attribute value without ending it
/// or opening a tag.
pub open spec fn attribute_safe(c: char) -> bool {
    c != '"' && c != '<' && c != '>'
}

proof fn lemma_entity_chars()
    ensures
        forall|i: int| 0 <= i < "&quot;"@.len() ==> attribute_safe(#[trigger] "&quot;"@[i]),
        forall|i: int| 0 <= i < "&amp;"@.len() ==> attribute_safe(#[trigger] "&amp;"@[i]),
        forall|i: int| 0 <= i < "&lt;"@.len() ==> attribute_safe(#[trigger] "&lt;"@[i]),
        forall|i: int| 0 <= i < "&gt;"@.len() ==> attribute_safe(#[trigger] "&gt;"@[i]),
        forall|i: int| 0 <= i < "&#x27;"@.len() ==> attribute_safe(#[trigger] "&#x27;"@[i]),
        forall|i: int| 0 <= i < "&amp;"@.len() ==> ("&amp;"@[i] as u32) < 0x80,
        forall|i: int| 0 <= i < "&#x27;"@.len() ==> ("&#x27;"@[i] as u32) < 0x80,
{
    reveal_strlit("&quot;");
    reveal_strlit("&amp;");
    reveal_strlit("&lt;");
    reveal_strlit("&gt;");
    reveal_strlit("&#x27;");
}

/// HTML escaping distributes over concatenation: escaping two texts one after the other
/// gives the escape of the whole.
pub proof fn html_escape_concat(a: Seq<char>, b: Seq<char>)
    ensures
        html_escaped(a + b) == html_escaped(a) + html_escaped(b),
    decreases b.len(),
{
    if b.len() == 0 {
        assert(a + b =~= a);
        assert(html_escaped(a) + html_escaped(b) =~= html_escaped(a));
    } else {
        html_escape_concat(a, b.drop_last());
        assert((a + b).drop_last() =~= a + b.drop_last());
        assert((a + b).last() == b.last());
    }
}

/// A text with none of `"`, `&`, `<`, `>` is written unchanged by HTML escaping.
pub proof fn html_escape_plain_text(s: Seq<char>)
    requires
        forall|i: int| 0 <= i < s.len() ==> !is_html_special(#[trigger] s[i]),
    ensures
        html_escaped(s) == s,
    decreases s.len(),
{
    if s.len() > 0 {
        html_escape_plain_text(s.drop_last());
        assert(html_escaped_char(s.last()) == seq![s.last()]);
        assert(s.drop_last().push(s.last()) =~= s);
    }
}

/// HTML-escaped text never holds `"`, `<` or `>`: it can neither end an attribute value
/// nor open or close a tag.
pub proof fn html_escape_is_attribute_safe(s: Seq<char>)
    ensures
        forall|i: int| 0 <= i < html_escaped(s).len() ==> attribute_safe(#[trigger] html_escaped(s)[i]),
    decreases s.len(),
{
    if s.len() > 0 {
        html_escape_is_attribute_safe(s.drop_last());
        lemma_entity_chars();
        let p = html_escaped(s.drop_last());
        let q = html_escaped_char(s.last());
        assert forall|i: int| 0 <= i < html_escaped(s).len() implies attribute_safe(
            #[trigger] html_escaped(s)[i],
        ) by {
            if i < p.len() {
                assert(html_escaped(s)[i] == p[i]);
            } else {
                assert(html_escaped(s)[i] == q[i - p.len()]);
            }
        }
    }
}

/// URL escaping distributes over concatenation of the byte sequences.
pub proof fn href_escape_concat(a: Seq<u8>, b: Seq<u8>)
    ensures
        href_escaped(a + b) == href_escaped(a) + href_escaped(b),
    decreases b.len(),
{
    if b.len() == 0 {
        assert(a + b =~= a);
        assert(href_escaped(a) + href_escaped(b) =~= href_escaped(a));
    } else {
        href_escape_concat(a, b.drop_last());
        assert((a + b).drop_last() =~= a + b.drop_last());
        assert((a + b).last() == b.last());
    }
}

proof fn lemma_href_byte_safe(b: u8)
    ensures
        forall|i: int|
            0 <= i < href_escaped_byte(b).len() ==> attribute_safe(#[trigger] href_escaped_byte(b)[i])
                && (href_escaped_byte(b)[i] as u32) < 0x80,
{
    lemma_entity_chars();
    if href_safe(b) {
        assert(href_escaped_byte(b) == seq![b as char]);
    } else if b != 0x26 && b != 0x27 {
        assert(b / 16 < 16);
        assert(b % 16 < 16);
    }
}

/// URL-escaped text is plain ASCII without `"`, `<` or `>`, whatever bytes the URL held.
pub proof fn href_escape_is_attribute_safe(bs: Seq<u8>)
    ensures
        forall|i: int|
            0 <= i < href_escaped(bs).len() ==> attribute_safe(#[trigger] href_escaped(bs)[i])
                && (href_escaped(bs)[i] as u32) < 0x80,
    decreases bs.len(),
{
    if bs.len() > 0 {
        href_escape_is_attribute_safe(bs.drop_last());
        lemma_href_byte_safe(bs.last());
        let p = href_escaped(bs.drop_last());
        let q = href_escaped_byte(bs.last());
        assert forall|i: int| 0 <= i < href_escaped(bs).len() implies attribute_safe(
            #[trigger] href_escaped(bs)[i],
        ) && (href_escaped(bs)[i] as u32) < 0x80 by {
            if i < p.len() {
                assert(href_escaped(bs)[i] == p[i]);
            } else {
                assert(href_escaped(bs)[i] == q[i - p.len()]);
            }
        }
    }
}


/// Labels that are already known keep their footnote number when another label is given one.
pub proof fn footnote_number_stable(names: Seq<Seq<char>>, x: Seq<char>, y: Seq<char>)
    requires
        names.no_duplicates(),
        names.contains(y),
    ensures
        footnote_number(with_footnote(names, x), y) == footnote_number(names, y),
{
    let i = names.index_of(y);
    assert(names[i] == y);
    if !names.contains(x) {
        let names2 = names.push(x);
        assert(names2[i] == y);
        assert(names2.contains(y));
        let j = names2.index_of(y);
        assert(names2[j] == y);
        if j != i {
            assert(j < names.len());
            assert(names[j] == y);
        }
    }
}

/// The number written for a footnote label is the number the label keeps from then on,
/// and the known labels stay free of repeats.
pub proof fn footnote_number_kept(names: Seq<Seq<char>>, x: Seq<char>)
    requires
        names.no_duplicates(),
    ensures
        footnote_number(with_footnote(names, x), x) == footnote_number(names, x),
        with_footnote(names, x).no_duplicates(),
{
    if !names.contains(x) {
        let names2 = names.push(x);
        assert(names2[names.len() as int] == x);
        assert(names2.contains(x));
        let j = names2.index_of(x);
        assert(names2[j] == x);
        if j < names.len() {
            assert(names[j] == x);
        }
        assert forall|a: int, b: int|
            0 <= a < names2.len() && 0 <= b < names2.len() && a != b implies names2[a]
            != names2[b] by {
            if a == names.len() {
                assert(names2[b] == names[b]);
            } else if b == names.len() {
                assert(names2[a] == names[a]);
            }
        }
    }
}

/// Different known footnote labels have different numbers, between 1 and the number of
/// known labels, and a new label gets the number after the last one given.
pub proof fn footnote_numbers_distinct(names: Seq<Seq<char>>, x: Seq<char>, y: Seq<char>)
    requires
        names.no_duplicates(),
        x != y,
    ensures
        names.contains(x) && names.contains(y) ==> footnote_number(names, x) != footnote_number(
            names,
            y,
        ),
        names.contains(y) ==> 1 <= footnote_number(names, y) <= names.len(),
        !names.contains(x) ==> footnote_number(names, x) == names.len() + 1,
{
    if names.contains(x) {
        let i = names.index_of(x);
        assert(names[i] == x);
    }
    if names.contains(y) {
        let j = names.index_of(y);
        assert(names[j] == y);
    }
}

/// The bytes `write_html` writes are valid UTF-8 and decode to exactly the text
/// `push_html` appends for the same events.
pub proof fn written_bytes_decode_to_html(events: Seq<Event>)
    ensures
        valid_utf8(encode_utf8(html(events))),
        decode_utf8(encode_utf8(html(events))) == html(events),
{
    vstd::utf8::encode_utf8_valid_utf8(html(events));
    vstd::utf8::encode_utf8_decode_utf8(html(events));
}

/// Whether `e` starts a non-email link to `dest`.
spec fn starts_link_to(e: Event, dest: Seq<char>) -> bool {
    match e {
        Event::Start(Tag::Link(kind, d, _)) => kind != LinkType::Email && d@ == dest,
        _ => false,
    }
}

spec fn starts_link(e: Event) -> bool {
    match e {
        Event::Start(Tag::Link(kind, _, _)) => kind != LinkType::Email,
        _ => false,
    }
}

proof fn lemma_process_queries(
    events: Seq<Event>,
    dests: Option<Seq<Seq<char>>>,
    e: Event,
    st: WriterState,
)
    requires
        0 <= st.pos <= events.len(),
    ensures
        starts_link(e) ==> exists|d: Seq<char>|
            starts_link_to(e, d) && process(events, dests, e, st).queries == st.queries.push(d),
        !starts_link(e) ==> process(events, dests, e, st).queries == st.queries,
{
    match e {
        Event::Start(tag) => match tag {
            Tag::Link(kind, d, _) => {
                if kind != LinkType::Email {
                    assert(starts_link_to(e, d@));
                }
            },
            Tag::Image(_, dest, _) => {
                let st1 = st.write("<img src=\""@).put(href_escaped(encode_utf8(dest@))).write(
                    "\" alt=\""@,
                );
                lemma_raw_text_frame(events, st1, 0);
            },
            _ => {},
        },
        _ => {},
    }
}

proof fn lemma_process_dests(events: Seq<Event>, q: Seq<Seq<char>>, e: Event, st: WriterState)
    requires
        forall|d: Seq<char>|
            starts_link_to(e, d) && st.queries.len() < q.len() ==> q[st.queries.len() as int] == d,
    ensures
        process(events, Some(q), e, st) == process(events, None, e, st),
{
    match e {
        Event::Start(tag) => match tag {
            Tag::Link(kind, d, _) => {
                if kind != LinkType::Email {
                    assert(starts_link_to(e, d@));
                }
            },
            _ => {},
        },
        _ => {},
    }
}

/// The state after taking the next event from the source, before writing it.
spec fn taken(st: WriterState) -> WriterState {
    WriterState { pos: st.pos + 1, ..st }
}

proof fn lemma_run_queries_prefix(events: Seq<Event>, st: WriterState)
    requires
        0 <= st.pos <= events.len(),
    ensures
        st.queries.is_prefix_of(run_from(events, None, st).queries),
    decreases events.len() - st.pos,
{
    if st.pos < events.len() {
        let s1 = taken(st);
        let s2 = process(events, None, events[st.pos], s1);
        lemma_process_pos(events, None, events[st.pos], s1);
        lemma_process_queries(events, None, events[st.pos], s1);
        lemma_run_queries_prefix(events, s2);
        let fin = run_from(events, None, s2).queries;
        assert(st.queries.is_prefix_of(s2.queries));
        assert(fin.subrange(0, st.queries.len() as int) =~= s2.queries.subrange(
            0,
            st.queries.len() as int,
        ));
    }
}

proof fn lemma_identity_run(events: Seq<Event>, q: Seq<Seq<char>>, st: WriterState)
    requires
        0 <= st.pos <= events.len(),
        q == run_from(events, None, st).queries,
    ensures
        run_from(events, Some(q), st) == run_from(events, None, st),
    decreases events.len() - st.pos,
{
    if st.pos < events.len() {
        let e = events[st.pos];
        let s1 = taken(st);
        let s2 = process(events, None, e, s1);
        lemma_process_pos(events, None, e, s1);
        lemma_process_queries(events, None, e, s1);
        lemma_run_queries_prefix(events, s2);
        assert forall|d: Seq<char>|
            starts_link_to(e, d) && s1.queries.len() < q.len() implies q[s1.queries.len() as int]
            == d by {
            let d2 = choose|d2: Seq<char>|
                starts_link_to(e, d2) && s2.queries == s1.queries.push(d2);
            assert(d2 == d);
            assert(s2.queries[s1.queries.len() as int] == d);
            assert(q.subrange(0, s2.queries.len() as int) =~= s2.queries);
            assert(q[s1.queries.len() as int] == q.subrange(0, s2.queries.len() as int)[s1.queries.len() as int]);
        }
        lemma_process_dests(events, q, e, s1);
        lemma_identity_run(events, q, s2);
    }
}

/// Replacing the destination of every non-email link by itself changes nothing: the
/// output with the destinations `link_destinations` reports equals the plain output.
pub proof fn identity_destinations_change_nothing(events: Seq<Event>)
    ensures
        html_with_destinations(events, link_queries(events)) == html(events),
{
    lemma_identity_run(events, link_queries(events), initial_state());
}

/// The text of a text event, empty for any other event.
pub open spec fn text_of(e: Event) -> Seq<char> {
    match e {
        Event::Text(t) => t@,
        _ => Seq::empty(),
    }
}

/// The texts of the events from index `i` on, one after the other.
pub open spec fn texts_from(events: Seq<Event>, i: int) -> Seq<char>
    decreases events.len() - i,
{
    if i < 0 || i >= events.len() {
        Seq::empty()
    } else {
        text_of(events[i]) + texts_from(events, i + 1)
    }
}

/// Whether every event is a text event.
pub open spec fn all_text(events: Seq<Event>) -> bool {
    forall|i: int| 0 <= i < events.len() ==> #[trigger] events[i] is Text
}

proof fn lemma_run_text(events: Seq<Event>, dests: Option<Seq<Seq<char>>>, st: WriterState)
    requires
        all_text(events),
        0 <= st.pos <= events.len(),
    ensures
        run_from(events, dests, st).out == st.out + html_escaped(texts_from(events, st.pos)),
    decreases events.len() - st.pos,
{
    if st.pos < events.len() {
        let e = events[st.pos];
        assert(e is Text);
        let s1 = taken(st);
        let s2 = process(events, dests, e, s1);
        lemma_process_pos(events, dests, e, s1);
        lemma_run_text(events, dests, s2);
        let t = text_of(e);
        let rest = texts_from(events, st.pos + 1);
        html_escape_concat(t, rest);
        assert(s2.out == st.out + html_escaped(t));
        assert(texts_from(events, st.pos) == t + rest);
    } else {
        assert(st.out + html_escaped(Seq::empty()) =~= st.out);
    }
}

/// A document made only of text events is written as its texts, one after the other,
/// HTML-escaped, with nothing added.
pub proof fn text_document_is_escaped_text(events: Seq<Event>)
    requires
        all_text(events),
    ensures
        html(events) == html_escaped(texts_from(events, 0)),
{
    lemma_run_text(events, None, initial_state());
    assert(Seq::<char>::empty() + html_escaped(texts_from(events, 0)) =~= html_escaped(
        texts_from(events, 0),
    ));
}


/// Whether `after` writes a non-empty text after the output of `before`, and its newline
/// flag says whether the output now ends a line.
pub open spec fn flag_follows_write(before: WriterState, after: WriterState) -> bool {
    &&& before.out.len() < after.out.len()
    &&& after.out.subrange(0, before.out.len() as int) == before.out
    &&& after.end_newline == ends_nl(after.out)
}

proof fn lemma_tag_literals()
    ensures
        "<p>"@.len() > 0 && "<p>"@.last() != '\n',
        "\n<p>"@.len() > 0 && "\n<p>"@.last() != '\n',
        ">"@.len() > 0 && ">"@.last() != '\n',
        "<table>"@.len() > 0 && "<table>"@.last() != '\n',
        "<thead><tr>"@.len() > 0 && "<thead><tr>"@.last() != '\n',
        "<tr>"@.len() > 0 && "<tr>"@.last() != '\n',
        " align=\"left\">"@.len() > 0 && " align=\"left\">"@.last() != '\n',
        " align=\"center\">"@.len() > 0 && " align=\"center\">"@.last() != '\n',
        " align=\"right\">"@.len() > 0 && " align=\"right\">"@.last() != '\n',
        "<blockquote>\n"@.len() > 0 && "<blockquote>\n"@.last() == '\n',
        "\n<blockquote>\n"@.len() > 0 && "\n<blockquote>\n"@.last() == '\n',
        "<pre><code>"@.len() > 0 && "<pre><code>"@.last() != '\n',
        "\">"@.len() > 0 && "\">"@.last() != '\n',
        "<ol>\n"@.len() > 0 && "<ol>\n"@.last() == '\n',
        "\n<ol>\n"@.len() > 0 && "\n<ol>\n"@.last() == '\n',
        "\">\n"@.len() > 0 && "\">\n"@.last() == '\n',
        "<ul>\n"@.len() > 0 && "<ul>\n"@.last() == '\n',
        "\n<ul>\n"@.len() > 0 && "\n<ul>\n"@.last() == '\n',
        "<li>"@.len() > 0 && "<li>"@.last() != '\n',
        "\n<li>"@.len() > 0 && "\n<li>"@.last() != '\n',
        "<em>"@.len() > 0 && "<em>"@.last() != '\n',
        "<strong>"@.len() > 0 && "<strong>"@.last() != '\n',
        "<del>"@.len() > 0 && "<del>"@.last() != '\n',
        "\" />"@.len() > 0 && "\" />"@.last() != '\n',
        "</sup>"@.len() > 0 && "</sup>"@.last() != '\n',
        "</p>\n"@.len() > 0 && "</p>\n"@.last() == '\n',
        ">\n"@.len() > 0 && ">\n"@.last() == '\n',
        "</tbody></table>\n"@.len() > 0 && "</tbody></table>\n"@.last() == '\n',
        "</tr></thead><tbody>\n"@.len() > 0 && "</tr></thead><tbody>\n"@.last() == '\n',
        "</tr>\n"@.len() > 0 && "</tr>\n"@.last() == '\n',
        "</td>"@.len() > 0 && "</td>"@.last() != '\n',
        "</th>"@.len() > 0 && "</th>"@.last() != '\n',
        "</blockquote>\n"@.len() > 0 && "</blockquote>\n"@.last() == '\n',
        "</code></pre>\n"@.len() > 0 && "</code></pre>\n"@.last() == '\n',
        "</ol>\n"@.len() > 0 && "</ol>\n"@.last() == '\n',
        "</ul>\n"@.len() > 0 && "</ul>\n"@.last() == '\n',
        "</li>\n"@.len() > 0 && "</li>\n"@.last() == '\n',
        "</em>"@.len() > 0 && "</em>"@.last() != '\n',
        "</strong>"@.len() > 0 && "</strong>"@.last() != '\n',
        "</del>"@.len() > 0 && "</del>"@.last() != '\n',
        "</a>"@.len() > 0 && "</a>"@.last() != '\n',
        "</div>\n"@.len() > 0 && "</div>\n"@.last() == '\n',
{
    reveal_strlit("<p>");
    reveal_strlit("\n<p>");
    reveal_strlit(">");
    reveal_strlit("<table>");
    reveal_strlit("<thead><tr>");
    reveal_strlit("<tr>");
    reveal_strlit(" align=\"left\">");
    reveal_strlit(" align=\"center\">");
    reveal_strlit(" align=\"right\">");
    reveal_strlit("<blockquote>\n");
    reveal_strlit("\n<blockquote>\n");
    reveal_strlit("<pre><code>");
    reveal_strlit("\">");
    reveal_strlit("<ol>\n");
    reveal_strlit("\n<ol>\n");
    reveal_strlit("\">\n");
    reveal_strlit("<ul>\n");
    reveal_strlit("\n<ul>\n");
    reveal_strlit("<li>");
    reveal_strlit("\n<li>");
    reveal_strlit("<em>");
    reveal_strlit("<strong>");
    reveal_strlit("<del>");
    reveal_strlit("\" />");
    reveal_strlit("</sup>");
    reveal_strlit("</p>\n");
    reveal_strlit(">\n");
    reveal_strlit("</tbody></table>\n");
    reveal_strlit("</tr></thead><tbody>\n");
    reveal_strlit("</tr>\n");
    reveal_strlit("</td>");
    reveal_strlit("</th>");
    reveal_strlit("</blockquote>\n");
    reveal_strlit("</code></pre>\n");
    reveal_strlit("</ol>\n");
    reveal_strlit("</ul>\n");
    reveal_strlit("</li>\n");
    reveal_strlit("</em>");
    reveal_strlit("</strong>");
    reveal_strlit("</del>");
    reveal_strlit("</a>");
    reveal_strlit("</div>\n");
}

/// The start of every container writes a non-empty text, after which the newline flag
/// says whether the output ends a line.
pub proof fn start_tag_sets_newline_flag(
    events: Seq<Event>,
    dests: Option<Seq<Seq<char>>>,
    tag: Tag,
    st: WriterState,
)
    requires
        0 <= st.pos <= events.len(),
    ensures
        flag_follows_write(st, start_tag(events, dests, tag, st)),
{
    lemma_tag_literals();
    let r = start_tag(events, dests, tag, st);
    match tag {
        Tag::Image(_, dest, title) => {
            let st1 = st.write("<img src=\""@).put(href_escaped(encode_utf8(dest@))).write(
                "\" alt=\""@,
            );
            lemma_raw_text_frame(events, st1, 0);
            let rt = raw_text(events, st1, 0);
            let rt2 = rt.title_attr(title@);
            assert(st1.out.subrange(0, st.out.len() as int) =~= st.out);
            assert(rt.out.subrange(0, st.out.len() as int) =~= rt.out.subrange(
                0,
                st1.out.len() as int,
            ).subrange(0, st.out.len() as int));
            assert(rt2.out.subrange(0, st.out.len() as int) =~= st.out);
            assert(r.out.subrange(0, st.out.len() as int) =~= st.out);
        },
        Tag::Link(_, _, _) => {
            assert(r.out.subrange(0, st.out.len() as int) =~= st.out);
        },
        Tag::FootnoteDefinition(_) => {
            assert(r.out.subrange(0, st.out.len() as int) =~= st.out);
        },
        Tag::CodeBlock(kind) => {
            match kind {
                CodeBlockKind::Fenced(_) => {
                    assert(r.out.subrange(0, st.out.len() as int) =~= st.out);
                },
                CodeBlockKind::Indented => {
                    assert(r.out.subrange(0, st.out.len() as int) =~= st.out);
                },
            }
        },
        Tag::List(_) => {
            assert(r.out.subrange(0, st.out.len() as int) =~= st.out);
        },
        Tag::Heading(_) => {
            assert(r.out.subrange(0, st.out.len() as int) =~= st.out);
        },
        Tag::TableCell => {
            assert(r.out.subrange(0, st.out.len() as int) =~= st.out);
        },
        _ => {
            assert(r.out.subrange(0, st.out.len() as int) =~= st.out);
        },
    }
}

/// The end of every container but an image writes a non-empty text, after which the
/// newline flag says whether the output ends a line; the end of an image writes nothing.
pub proof fn end_tag_sets_newline_flag(tag: Tag, st: WriterState)
    ensures
        !(tag is Image) ==> flag_follows_write(st, end_tag(tag, st)),
        tag is Image ==> end_tag(tag, st) == st,
{
    lemma_tag_literals();
    assert(end_tag(tag, st).out.subrange(0, st.out.len() as int) =~= st.out);
}


proof fn lemma_escaped_last(t: Seq<char>)
    requires
        t.len() > 0,
    ensures
        html_escaped(t).len() > 0,
        ends_nl(html_escaped(t)) == ends_nl(t),
{
    reveal_strlit("&quot;");
    reveal_strlit("&amp;");
    reveal_strlit("&lt;");
    reveal_strlit("&gt;");
    let q = html_escaped_char(t.last());
    assert(q.len() > 0);
    assert(html_escaped(t).last() == q.last());
}

/// Whether an event writes a non-empty text: all do but an empty text, an empty piece of
/// raw HTML and the end of an image.
pub open spec fn writes_text(e: Event) -> bool {
    match e {
        Event::Text(t) => t@.len() > 0,
        Event::Html(h) => h@.len() > 0,
        Event::End(Tag::Image(_, _, _)) => false,
        _ => true,
    }
}

/// After every event that writes a non-empty text, the newline flag says whether the
/// output ends a line. An empty text, an empty raw HTML text and the end of an image
/// change nothing.
pub proof fn event_sets_newline_flag(
    events: Seq<Event>,
    dests: Option<Seq<Seq<char>>>,
    e: Event,
    st: WriterState,
)
    requires
        0 <= st.pos <= events.len(),
    ensures
        writes_text(e) ==> flag_follows_write(st, process(events, dests, e, st)),
        !writes_text(e) ==> process(events, dests, e, st) == st,
{
    lemma_tag_literals();
    reveal_strlit("\n");
    reveal_strlit("</code>");
    reveal_strlit("<br />\n");
    reveal_strlit("<hr />\n");
    reveal_strlit("\n<hr />\n");
    reveal_strlit("</a></sup>");
    reveal_strlit("<input disabled=\"\" type=\"checkbox\" checked=\"\"/>\n");
    reveal_strlit("<input disabled=\"\" type=\"checkbox\"/>\n");
    let r = process(events, dests, e, st);
    match e {
        Event::Start(tag) => start_tag_sets_newline_flag(events, dests, tag, st),
        Event::End(tag) => end_tag_sets_newline_flag(tag, st),
        Event::Text(t) => {
            if t@.len() > 0 {
                lemma_escaped_last(t@);
            }
            assert(r.out.subrange(0, st.out.len() as int) =~= st.out);

        },
        Event::Html(h) => {
            assert(r.out.subrange(0, st.out.len() as int) =~= st.out);
            assert(h@.len() == 0 ==> r.out =~= st.out);
            assert(h@.len() == 0 ==> r == st);
        },
        _ => {
            assert(r.out.subrange(0, st.out.len() as int) =~= st.out);
        },
    }
}



/// Whether `s` ends with `suffix`.
pub open spec fn ends_with(s: Seq<char>, suffix: Seq<char>) -> bool {
    suffix.len() <= s.len() && s.subrange(s.len() - suffix.len(), s.len() as int) == suffix
}

/// A footnote definition writes the number its label has among the labels seen so far (the
/// next number when the label is new) and records the label; every label keeps its number.
pub proof fn footnote_definition_numbering(
    events: Seq<Event>,
    dests: Option<Seq<Seq<char>>>,
    name: String,
    st: WriterState,
    y: Seq<char>,
)
    requires
        st.names.no_duplicates(),
    ensures
        ({
            let r = start_tag(events, dests, Tag::FootnoteDefinition(name), st);
            &&& r.names == with_footnote(st.names, name@)
            &&& r.names.no_duplicates()
            &&& ends_with(r.out, decimal(footnote_number(st.names, name@) as nat) + "</sup>"@)
            &&& footnote_number(r.names, name@) == footnote_number(st.names, name@)
            &&& st.names.contains(y) ==> footnote_number(r.names, y) == footnote_number(st.names, y)
        }),
{
    let r = start_tag(events, dests, Tag::FootnoteDefinition(name), st);
    let suffix = decimal(footnote_number(st.names, name@) as nat) + "</sup>"@;
    assert(r.out.subrange(r.out.len() - suffix.len(), r.out.len() as int) =~= suffix);
    footnote_number_kept(st.names, name@);
    if st.names.contains(y) {
        footnote_number_stable(st.names, name@, y);
    }
}

/// A footnote reference writes the number its label has among the labels seen so far (the
/// next number when the label is new) and records the label; every label keeps its number.
pub proof fn footnote_reference_numbering(
    events: Seq<Event>,
    dests: Option<Seq<Seq<char>>>,
    name: String,
    st: WriterState,
    y: Seq<char>,
)
    requires
        st.names.no_duplicates(),
    ensures
        ({
            let r = process(events, dests, Event::FootnoteReference(name), st);
            &&& r.names == with_footnote(st.names, name@)
            &&& r.names.no_duplicates()
            &&& ends_with(r.out, decimal(footnote_number(st.names, name@) as nat) + "</a></sup>"@)
            &&& footnote_number(r.names, name@) == footnote_number(st.names, name@)
            &&& st.names.contains(y) ==> footnote_number(r.names, y) == footnote_number(st.names, y)
        }),
{
    let r = process(events, dests, Event::FootnoteReference(name), st);
    let suffix = decimal(footnote_number(st.names, name@) as nat) + "</a></sup>"@;
    assert(r.out.subrange(r.out.len() - suffix.len(), r.out.len() as int) =~= suffix);
    footnote_number_kept(st.names, name@);
    if st.names.contains(y) {
        footnote_number_stable(st.names, name@, y);
    }
}


/// Whether `s` holds `p` starting at index `i`.
pub open spec fn holds_at(s: Seq<char>, i: int, p: Seq<char>) -> bool {
    0 <= i && i + p.len() <= s.len() && s.subrange(i, i + p.len()) == p
}

/// The language of a fenced code block is its info string up to the first space: a prefix
/// of the info string without a space, which ends where the info string ends or where a
/// space follows. An info string without a space is its own language.
pub proof fn first_word_is_text_before_first_space(s: Seq<char>)
    ensures
        first_word(s).len() <= s.len(),
        first_word(s) == s.take(first_word(s).len() as int),
        forall|j: int| 0 <= j < first_word(s).len() ==> s[j] != ' ',
        first_word(s).len() == s.len() || s[first_word(s).len() as int] == ' ',
        !s.contains(' ') ==> first_word(s) == s,
{
    lemma_word_len_props(s);
    let k = word_len(s);
    if !s.contains(' ') {
        assert(k == s.len()) by {
            if k < s.len() {
                assert(s[k] == ' ');
            }
        }
        assert(s.take(k) =~= s);
    }
}

proof fn lemma_word_len_props(s: Seq<char>)
    ensures
        0 <= word_len(s) <= s.len(),
        forall|j: int| 0 <= j < word_len(s) ==> s[j] != ' ',
        word_len(s) == s.len() || s[word_len(s)] == ' ',
    decreases s.len(),
{
    if s.len() > 0 && s[0] != ' ' {
        let t = s.drop_first();
        lemma_word_len_props(t);
        assert forall|j: int| 0 <= j < word_len(s) implies s[j] != ' ' by {
            if j > 0 {
                assert(s[j] == t[j - 1]);
            }
        }
        if word_len(t) < t.len() {
            assert(s[word_len(s)] == t[word_len(t)]);
        }
    }
}

/// A fenced code block whose info string starts with a word (the text before the first
/// space, or the whole info string when it has no space) is written with that word,
/// escaped, as its `language-` class; one whose info string is empty or starts with a space
/// gets no class.
pub proof fn fenced_code_block_language(
    events: Seq<Event>,
    dests: Option<Seq<Seq<char>>>,
    info: String,
    st: WriterState,
    k: int,
)
    requires
        0 <= k <= info@.len(),
        forall|j: int| 0 <= j < k ==> info@[j] != ' ',
        k == info@.len() || info@[k] == ' ',
    ensures
        ({
            let r = start_tag(events, dests, Tag::CodeBlock(CodeBlockKind::Fenced(info)), st);
            &&& k > 0 ==> ends_with(
                r.out,
                "<pre><code class=\"language-"@ + html_escaped(info@.take(k)) + "\">"@,
            )
            &&& k == 0 ==> ends_with(r.out, "<pre><code>"@)
        }),
{
    lemma_word_len(info@, k);
    let r = start_tag(events, dests, Tag::CodeBlock(CodeBlockKind::Fenced(info)), st);
    let suffix = if k > 0 {
        "<pre><code class=\"language-"@ + html_escaped(info@.take(k)) + "\">"@
    } else {
        "<pre><code>"@
    };
    assert(r.out.subrange(r.out.len() - suffix.len(), r.out.len() as int) =~= suffix);
}

/// A link that is not an email address is written with the `k`-th replacement
/// destination, escaped, when a `k`-th replacement is given (`k` counting the non-email
/// links before it), and with its own destination otherwise; its destination is recorded.
/// An email link is written as a `mailto:` link to its own destination and is not counted.
pub proof fn link_destination_written(
    events: Seq<Event>,
    dests: Option<Seq<Seq<char>>>,
    kind: LinkType,
    d: String,
    t: String,
    st: WriterState,
)
    ensures
        ({
            let r = start_tag(events, dests, Tag::Link(kind, d, t), st);
            let k = st.queries.len() as int;
            &&& kind != LinkType::Email ==> r.queries == st.queries.push(d@)
            &&& (kind != LinkType::Email && dests is Some && k < dests->0.len()) ==> holds_at(
                r.out,
                st.out.len() as int,
                "<a href=\""@ + href_escaped(encode_utf8(dests->0[k])) + "\""@,
            )
            &&& (kind != LinkType::Email && (dests is None || k >= dests->0.len())) ==> holds_at(
                r.out,
                st.out.len() as int,
                "<a href=\""@ + href_escaped(encode_utf8(d@)) + "\""@,
            )
            &&& kind == LinkType::Email ==> r.queries == st.queries && holds_at(
                r.out,
                st.out.len() as int,
                "<a href=\"mailto:"@ + href_escaped(encode_utf8(d@)) + "\""@,
            )
        }),
{
    reveal_strlit("<a href=\"");
    reveal_strlit("<a href=\"mailto:");
    reveal_strlit("\"");
    reveal_strlit("\" title=\"");
    reveal_strlit("\">");
    let r = start_tag(events, dests, Tag::Link(kind, d, t), st);
    let k = st.queries.len() as int;
    let target = if kind == LinkType::Email {
        "<a href=\"mailto:"@ + href_escaped(encode_utf8(d@))
    } else if dests is Some && k < dests->0.len() {
        "<a href=\""@ + href_escaped(encode_utf8(dests->0[k]))
    } else {
        "<a href=\""@ + href_escaped(encode_utf8(d@))
    };
    let p = target + "\""@;
    assert(r.out.subrange(st.out.len() as int, (st.out.len() + target.len()) as int) =~= target);
    assert(r.out[(st.out.len() + target.len()) as int] == '"');
    assert(r.out.subrange(st.out.len() as int, (st.out.len() + p.len()) as int) =~= p);
}

/// The start of a table head makes the cells that follow head cells (`th`), starting at the
/// first column, whatever state came before; the end of a table head makes the cells that
/// follow body cells (`td`). A cell writes `<th` or `<td` as it is a head or body cell.
pub proof fn table_head_cells_are_head_cells(
    events: Seq<Event>,
    dests: Option<Seq<Seq<char>>>,
    st: WriterState,
)
    ensures
        !start_tag(events, dests, Tag::TableHead, st).in_body,
        start_tag(events, dests, Tag::TableHead, st).cell == 0,
        start_tag(events, dests, Tag::TableHead, st).aligns == st.aligns,
        end_tag(Tag::TableHead, st).in_body,
        !st.in_body ==> holds_at(
            start_tag(events, dests, Tag::TableCell, st).out,
            st.out.len() as int,
            "<th"@,
        ),
        st.in_body ==> holds_at(
            start_tag(events, dests, Tag::TableCell, st).out,
            st.out.len() as int,
            "<td"@,
        ),
        start_tag(events, dests, Tag::TableRow, st).cell == 0,
        start_tag(events, dests, Tag::TableRow, st).in_body == st.in_body,
{
    let r = start_tag(events, dests, Tag::TableCell, st);
    let p = if st.in_body {
        "<td"@
    } else {
        "<th"@
    };
    assert(r.out.subrange(st.out.len() as int, (st.out.len() + p.len()) as int) =~= p);
}

/// An ordered list starting at 1 opens with a bare `<ol>`; one starting at any other number
/// opens with a `start` attribute holding that number; a bullet list opens with `<ul>`.
pub proof fn ordered_list_start(
    events: Seq<Event>,
    dests: Option<Seq<Seq<char>>>,
    start: u64,
    st: WriterState,
)
    ensures
        start == 1 ==> ends_with(start_tag(events, dests, Tag::List(Some(start)), st).out, "<ol>\n"@),
        start != 1 ==> ends_with(
            start_tag(events, dests, Tag::List(Some(start)), st).out,
            "<ol start=\""@ + decimal(start as nat) + "\">\n"@,
        ),
        ends_with(start_tag(events, dests, Tag::List(None), st).out, "<ul>\n"@),
{
    reveal_strlit("<ol start=\"");
    reveal_strlit("\n<ol start=\"");
    reveal_strlit("<ol>\n");
    reveal_strlit("\n<ol>\n");
    reveal_strlit("<ul>\n");
    reveal_strlit("\n<ul>\n");
    let r1 = start_tag(events, dests, Tag::List(Some(start)), st);
    let r2 = start_tag(events, dests, Tag::List(None), st);
    let s1 = if start == 1 {
        "<ol>\n"@
    } else {
        "<ol start=\""@ + decimal(start as nat) + "\">\n"@
    };
    assert(r1.out.subrange(r1.out.len() - s1.len(), r1.out.len() as int) =~= s1);
    assert(r2.out.subrange(r2.out.len() - "<ul>\n"@.len(), r2.out.len() as int) =~= "<ul>\n"@);
}

/// The number of `Start` events among `events[i..j]`.
pub open spec fn starts_in(events: Seq<Event>, i: int, j: int) -> int
    decreases j - i,
{
    if i >= j || i < 0 || i >= events.len() {
        0
    } else {
        (if events[i] is Start {
            1int
        } else {
            0int
        }) + starts_in(events, i + 1, j)
    }
}

/// The number of `End` events among `events[i..j]`.
pub open spec fn ends_in(events: Seq<Event>, i: int, j: int) -> int
    decreases j - i,
{
    if i >= j || i < 0 || i >= events.len() {
        0
    } else {
        (if events[i] is End {
            1int
        } else {
            0int
        }) + ends_in(events, i + 1, j)
    }
}

/// The alternative text of an image, taken inside `nest` open containers, ends right
/// after the `End` that closes them all and the image: before each event taken the ends
/// taken never outnumber the starts (plus `nest`), and the last event taken is the one
/// `End` too many, unless the source runs out first.
pub proof fn alt_text_ends_at_matching_end(events: Seq<Event>, st: WriterState, nest: int)
    requires
        0 <= st.pos <= events.len(),
        nest >= 0,
    ensures
        ({
            let r = raw_text(events, st, nest);
            &&& st.pos <= r.pos <= events.len()
            &&& forall|m: int|
                st.pos <= m < r.pos ==> #[trigger] ends_in(events, st.pos, m) <= nest + starts_in(
                    events,
                    st.pos,
                    m,
                )
            &&& (r.pos > st.pos && ends_in(events, st.pos, r.pos) == nest + starts_in(
                events,
                st.pos,
                r.pos,
            ) + 1) || (r.pos == events.len() && ends_in(events, st.pos, r.pos) <= nest
                + starts_in(events, st.pos, r.pos))
        }),
    decreases events.len() - st.pos,
{
    let p = st.pos;
    if p < events.len() {
        let st1 = WriterState { pos: p + 1, ..st };
        let e = events[p];
        let (next, next_nest) = match e {
            Event::Start(_) => (st1, nest + 1),
            Event::End(_) => (st1, nest - 1),
            _ => (alt_text_write(e, st1), nest),
        };
        if !(e is End && nest == 0) {
            alt_text_ends_at_matching_end(events, next, next_nest);
            let r = raw_text(events, next, next_nest);
            assert(r == raw_text(events, st, nest));
            assert forall|m: int| p < m <= r.pos implies #[trigger] ends_in(events, p, m) == (if e is End {
                1int
            } else {
                0int
            }) + ends_in(events, p + 1, m) && starts_in(events, p, m) == (if e is Start {
                1int
            } else {
                0int
            }) + starts_in(events, p + 1, m) by {}
            assert forall|m: int| p <= m < r.pos implies #[trigger] ends_in(events, p, m) <= nest
                + starts_in(events, p, m) by {
                if m > p {
                    assert(ends_in(events, p + 1, m) <= next_nest + starts_in(events, p + 1, m));
                }
            }
        } else {
            assert(ends_in(events, p + 1, p + 1) == 0);
            assert(starts_in(events, p + 1, p + 1) == 0);
        }
    }
}


/// The texts of the events `events[i..j]`, one after the other.
pub open spec fn texts_between(events: Seq<Event>, i: int, j: int) -> Seq<char>
    decreases j - i,
{
    if i >= j || i < 0 || i >= events.len() {
        Seq::empty()
    } else {
        text_of(events[i]) + texts_between(events, i + 1, j)
    }
}

/// Whether the events from index `i` on are texts, starts and ends only.
pub open spec fn texts_and_containers(events: Seq<Event>, i: int) -> bool {
    forall|m: int| i <= m < events.len() ==> (#[trigger] events[m] is Text || events[m] is Start
        || events[m] is End)
}

proof fn lemma_alt_plain_text(events: Seq<Event>, st: WriterState, nest: int)
    requires
        0 <= st.pos <= events.len(),
        texts_and_containers(events, st.pos),
    ensures
        st.pos <= raw_text(events, st, nest).pos,
        raw_text(events, st, nest).out == st.out + html_escaped(
            texts_between(events, st.pos, raw_text(events, st, nest).pos),
        ),
    decreases events.len() - st.pos,
{
    let p = st.pos;
    if p < events.len() {
        let st1 = WriterState { pos: p + 1, ..st };
        let e = events[p];
        assert(e is Text || e is Start || e is End);
        if e is End && nest == 0 {
            assert(texts_between(events, p + 1, p + 1) == Seq::<char>::empty());
            assert(texts_between(events, p, p + 1) =~= Seq::<char>::empty());
            assert(st.out + html_escaped(Seq::empty()) =~= st.out);
        } else {
            let next = match e {
                Event::Start(_) => st1,
                Event::End(_) => st1,
                _ => alt_text_write(e, st1),
            };
            let next_nest = match e {
                Event::Start(_) => nest + 1,
                Event::End(_) => nest - 1,
                _ => nest,
            };
            assert(raw_text(events, st, nest) == raw_text(events, next, next_nest));
            lemma_alt_plain_text(events, next, next_nest);
            let r = raw_text(events, next, next_nest);
            let t = text_of(e);
            let rest = texts_between(events, p + 1, r.pos);
            assert(texts_between(events, p, r.pos) == t + rest);
            html_escape_concat(t, rest);
            assert(next.out == st.out + html_escaped(t)) by {
                assert(st.out + html_escaped(Seq::empty()) =~= st.out);
            }
            assert(r.out =~= st.out + html_escaped(t + rest));
        }
    }
}

/// An image is written as `<img src="..." alt="..." />` with its own destination escaped
/// (replacement destinations are for links only), its title when it has one, and as
/// alternative text the texts of the events up to the `End` that closes it, escaped,
/// whatever containers they stand in; the markup of those containers is left out. The
/// image takes the events up to that `End`, or all of them when the source runs out.
pub proof fn image_written(
    events: Seq<Event>,
    dests: Option<Seq<Seq<char>>>,
    kind: LinkType,
    dest: String,
    title: String,
    st: WriterState,
)
    requires
        0 <= st.pos <= events.len(),
        texts_and_containers(events, st.pos),
    ensures
        ({
            let r = start_tag(events, dests, Tag::Image(kind, dest, title), st);
            let alt = html_escaped(texts_between(events, st.pos, r.pos));
            let head = st.out + "<img src=\""@ + href_escaped(encode_utf8(dest@)) + "\" alt=\""@
                + alt;
            &&& st.pos <= r.pos <= events.len()
            &&& (r.pos > st.pos && ends_in(events, st.pos, r.pos) == starts_in(events, st.pos, r.pos)
                + 1) || (r.pos == events.len() && ends_in(events, st.pos, r.pos) <= starts_in(
                events,
                st.pos,
                r.pos,
            ))
            &&& title@.len() == 0 ==> r.out == head + "\" />"@
            &&& title@.len() > 0 ==> r.out == head + "\" title=\""@ + html_escaped(title@)
                + "\" />"@
            &&& r.queries == st.queries
        }),
{
    let st1 = st.write("<img src=\""@).put(href_escaped(encode_utf8(dest@))).write("\" alt=\""@);
    assert(st1.pos == st.pos);
    lemma_alt_plain_text(events, st1, 0);
    lemma_raw_text_frame(events, st1, 0);
    alt_text_ends_at_matching_end(events, st1, 0);
    let a = raw_text(events, st1, 0);
    let r = start_tag(events, dests, Tag::Image(kind, dest, title), st);
    assert(r.pos == a.pos);
    let alt = html_escaped(texts_between(events, st.pos, r.pos));
    assert(a.out =~= st.out + "<img src=\""@ + href_escaped(encode_utf8(dest@)) + "\" alt=\""@ + alt);
}


/// A table cell opens as `<th` in a table head and `<td` in a table body, followed by the
/// alignment of its column (`left`, `center` or `right`) when the column has one, and `>`;
/// a cell beyond the known columns has no alignment. Its end closes it the same way and
/// moves to the next column.
pub proof fn table_cell_written(events: Seq<Event>, dests: Option<Seq<Seq<char>>>, st: WriterState)
    ensures
        ({
            let r = start_tag(events, dests, Tag::TableCell, st);
            let open = if st.in_body {
                "<td"@
            } else {
                "<th"@
            };
            let has_col = 0 <= st.cell < st.aligns.len();
            &&& has_col && st.aligns[st.cell] == Alignment::Left ==> r.out == st.out + open
                + " align=\"left\">"@
            &&& has_col && st.aligns[st.cell] == Alignment::Center ==> r.out == st.out + open
                + " align=\"center\">"@
            &&& has_col && st.aligns[st.cell] == Alignment::Right ==> r.out == st.out + open
                + " align=\"right\">"@
            &&& has_col && st.aligns[st.cell] == Alignment::Unaligned ==> r.out == st.out + open
                + ">"@
            &&& !has_col ==> r.out == st.out + open + ">"@
            &&& r.cell == st.cell && r.in_body == st.in_body && r.aligns == st.aligns
        }),
        ({
            let r = end_tag(Tag::TableCell, st);
            &&& r.cell == st.cell + 1
            &&& r.in_body == st.in_body
            &&& r.out == st.out + (if st.in_body {
                "</td>"@
            } else {
                "</th>"@
            })
        }),
{
}

/// A table keeps the alignments of its columns for its cells and opens with `<table>`; a
/// table head opens a row in `<thead>`, and its end opens the `<tbody>`; a row opens with
/// `<tr>`; the table closes the body and itself.
pub proof fn table_written(
    events: Seq<Event>,
    dests: Option<Seq<Seq<char>>>,
    aligns: Vec<Alignment>,
    st: WriterState,
)
    ensures
        start_tag(events, dests, Tag::Table(aligns), st).aligns == aligns@,
        start_tag(events, dests, Tag::Table(aligns), st).out == st.out + "<table>"@,
        start_tag(events, dests, Tag::TableHead, st).out == st.out + "<thead><tr>"@,
        end_tag(Tag::TableHead, st).out == st.out + "</tr></thead><tbody>\n"@,
        start_tag(events, dests, Tag::TableRow, st).out == st.out + "<tr>"@,
        end_tag(Tag::TableRow, st).out == st.out + "</tr>\n"@,
        end_tag(Tag::Table(aligns), st).out == st.out + "</tbody></table>\n"@,
{
}

/// A heading of level `n` is written as `<hn>` ... `</hn>`, on a line of its own.
pub proof fn heading_written(
    events: Seq<Event>,
    dests: Option<Seq<Seq<char>>>,
    level: u32,
    st: WriterState,
)
    ensures
        st.end_newline ==> start_tag(events, dests, Tag::Heading(level), st).out == st.out
            + "<h"@ + decimal(level as nat) + ">"@,
        !st.end_newline ==> start_tag(events, dests, Tag::Heading(level), st).out == st.out
            + "\n<h"@ + decimal(level as nat) + ">"@,
        end_tag(Tag::Heading(level), st).out == st.out + "</h"@ + decimal(level as nat) + ">\n"@,
{
}

/// A link that is not an email address is written as `<a href="...">` with its
/// destination (the `k`-th replacement when one is given, `k` counting the non-email links
/// before it), escaped, and a `title` attribute holding its escaped title when the title is
/// not empty; an email link is written as a `mailto:` link in the same way. The end of a
/// link writes `</a>`.
pub proof fn link_written(
    events: Seq<Event>,
    dests: Option<Seq<Seq<char>>>,
    kind: LinkType,
    d: String,
    t: String,
    st: WriterState,
)
    ensures
        ({
            let r = start_tag(events, dests, Tag::Link(kind, d, t), st);
            let k = st.queries.len() as int;
            let target = if kind == LinkType::Email {
                d@
            } else if dests is Some && k < dests->0.len() {
                dests->0[k]
            } else {
                d@
            };
            let prefix = if kind == LinkType::Email {
                "<a href=\"mailto:"@
            } else {
                "<a href=\""@
            };
            let title = if t@.len() > 0 {
                "\" title=\""@ + html_escaped(t@)
            } else {
                Seq::empty()
            };
            r.out == st.out + prefix + href_escaped(encode_utf8(target)) + title + "\">"@
        }),
        end_tag(Tag::Link(kind, d, t), st).out == st.out + "</a>"@,
{
    let r = start_tag(events, dests, Tag::Link(kind, d, t), st);
    if t@.len() == 0 {
        assert(r.out =~= r.out + Seq::<char>::empty());
    }
}

/// Inline markup and the simple events are written as their fixed HTML: emphasis as
/// `<em>`, strong emphasis as `<strong>`, strikethrough as `<del>`, code as escaped text in
/// `<code>`, raw HTML as it is, a soft break as a line feed, a hard break as `<br />`, and
/// task list markers as checked or unchecked disabled checkboxes.
pub proof fn inline_events_written(
    events: Seq<Event>,
    dests: Option<Seq<Seq<char>>>,
    t: String,
    st: WriterState,
)
    ensures
        process(events, dests, Event::Start(Tag::Emphasis), st).out == st.out + "<em>"@,
        process(events, dests, Event::End(Tag::Emphasis), st).out == st.out + "</em>"@,
        process(events, dests, Event::Start(Tag::Strong), st).out == st.out + "<strong>"@,
        process(events, dests, Event::End(Tag::Strong), st).out == st.out + "</strong>"@,
        process(events, dests, Event::Start(Tag::Strikethrough), st).out == st.out + "<del>"@,
        process(events, dests, Event::End(Tag::Strikethrough), st).out == st.out + "</del>"@,
        process(events, dests, Event::Code(t), st).out == st.out + "<code>"@ + html_escaped(t@)
            + "</code>"@,
        process(events, dests, Event::Html(t), st).out == st.out + t@,
        process(events, dests, Event::Text(t), st).out == st.out + html_escaped(t@),
        process(events, dests, Event::SoftBreak, st).out == st.out + "\n"@,
        process(events, dests, Event::HardBreak, st).out == st.out + "<br />\n"@,
        process(events, dests, Event::TaskListMarker(true), st).out == st.out
            + "<input disabled=\"\" type=\"checkbox\" checked=\"\"/>\n"@,
        process(events, dests, Event::TaskListMarker(false), st).out == st.out
            + "<input disabled=\"\" type=\"checkbox\"/>\n"@,
{
    if t@.len() == 0 {
        assert(st.out + html_escaped(t@) =~= st.out);
    }
}

/// The ends of blocks close them and end the line: `</p>`, `</blockquote>`,
/// `</code></pre>`, `</ol>`, `</ul>`, `</li>`, and `</div>` for a footnote definition.
pub proof fn block_ends_written(st: WriterState, kind: CodeBlockKind, start: u64, name: String)
    ensures
        end_tag(Tag::Paragraph, st).out == st.out + "</p>\n"@,
        end_tag(Tag::BlockQuote, st).out == st.out + "</blockquote>\n"@,
        end_tag(Tag::CodeBlock(kind), st).out == st.out + "</code></pre>\n"@,
        end_tag(Tag::List(Some(start)), st).out == st.out + "</ol>\n"@,
        end_tag(Tag::List(None), st).out == st.out + "</ul>\n"@,
        end_tag(Tag::Item, st).out == st.out + "</li>\n"@,
        end_tag(Tag::FootnoteDefinition(name), st).out == st.out + "</div>\n"@,
{
}

/// Whether a container is a block that starts on a line of its own.
pub open spec fn is_block(tag: Tag) -> bool {
    tag is Paragraph || tag is Heading || tag is BlockQuote || tag is CodeBlock || tag is List
        || tag is Item || tag is FootnoteDefinition
}

/// A block, or a rule, starts on a line of its own: when the output does not end a line, a
/// line feed comes first; when it does, the block's tag comes at once.
pub proof fn blocks_start_on_fresh_line(
    events: Seq<Event>,
    dests: Option<Seq<Seq<char>>>,
    tag: Tag,
    st: WriterState,
)
    requires
        is_block(tag),
    ensures
        ({
            let r = start_tag(events, dests, tag, st);
            &&& r.out.len() > st.out.len()
            &&& r.out.subrange(0, st.out.len() as int) == st.out
            &&& !st.end_newline ==> r.out[st.out.len() as int] == '\n'
            &&& st.end_newline ==> r.out[st.out.len() as int] == '<'
        }),
        ({
            let r = process(events, dests, Event::Rule, st);
            &&& r.out.len() > st.out.len()
            &&& r.out.subrange(0, st.out.len() as int) == st.out
            &&& !st.end_newline ==> r.out[st.out.len() as int] == '\n'
            &&& st.end_newline ==> r.out[st.out.len() as int] == '<'
        }),
{
    reveal_strlit("<p>");
    reveal_strlit("\n<p>");
    reveal_strlit("<h");
    reveal_strlit("\n<h");
    reveal_strlit("<blockquote>\n");
    reveal_strlit("\n<blockquote>\n");
    reveal_strlit("\n");
    reveal_strlit("<pre><code>");
    reveal_strlit("<pre><code class=\"language-");
    reveal_strlit("<ol>\n");
    reveal_strlit("\n<ol>\n");
    reveal_strlit("<ol start=\"");
    reveal_strlit("\n<ol start=\"");
    reveal_strlit("<ul>\n");
    reveal_strlit("\n<ul>\n");
    reveal_strlit("<li>");
    reveal_strlit("\n<li>");
    reveal_strlit("<div class=\"footnote-definition\" id=\"");
    reveal_strlit("\n<div class=\"footnote-definition\" id=\"");
    reveal_strlit("<hr />\n");
    reveal_strlit("\n<hr />\n");
    let n = st.out.len() as int;
    let r = start_tag(events, dests, tag, st);
    let first = if st.end_newline {
        match tag {
            Tag::Paragraph => "<p>"@,
            Tag::Heading(_) => "<h"@,
            Tag::BlockQuote => "<blockquote>\n"@,
            Tag::CodeBlock(_) => "<pre><code>"@,
            Tag::List(Some(start)) => if start == 1 {
                "<ol>\n"@
            } else {
                "<ol start=\""@
            },
            Tag::List(None) => "<ul>\n"@,
            Tag::Item => "<li>"@,
            _ => "<div class=\"footnote-definition\" id=\""@,
        }
    } else {
        match tag {
            Tag::Paragraph => "\n<p>"@,
            Tag::Heading(_) => "\n<h"@,
            Tag::BlockQuote => "\n<blockquote>\n"@,
            Tag::CodeBlock(_) => "\n"@,
            Tag::List(Some(start)) => if start == 1 {
                "\n<ol>\n"@
            } else {
                "\n<ol start=\""@
            },
            Tag::List(None) => "\n<ul>\n"@,
            Tag::Item => "\n<li>"@,
            _ => "\n<div class=\"footnote-definition\" id=\""@,
        }
    };
    if let Tag::CodeBlock(kind) = tag {
        if st.end_newline {
            if let CodeBlockKind::Fenced(info) = kind {
                if first_word(info@).len() > 0 {
                    let q = "<pre><code class=\"language-"@;
                    assert(r.out.subrange(n, n + q.len()) =~= q);
                    assert(r.out[n] == q[0]);
                } else {
                    assert(r.out.subrange(n, n + first.len()) =~= first);
                    assert(r.out[n] == first[0]);
                }
            } else {
                assert(r.out.subrange(n, n + first.len()) =~= first);
                assert(r.out[n] == first[0]);
            }
        } else {
            assert(r.out.subrange(n, n + 1) =~= "\n"@);
            assert(r.out[n] == '\n');
        }
    } else {
        assert(r.out.subrange(n, n + first.len()) =~= first);
        assert(r.out[n] == first[0]);
    }
    assert(r.out.subrange(0, n) =~= st.out);
    let rr = process(events, dests, Event::Rule, st);
    let h = if st.end_newline {
        "<hr />\n"@
    } else {
        "\n<hr />\n"@
    };
    assert(rr.out.subrange(n, n + h.len()) =~= h);
    assert(rr.out[n] == h[0]);
    assert(rr.out.subrange(0, n) =~= st.out);
}

} // verus!
