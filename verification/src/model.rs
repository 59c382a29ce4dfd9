use vstd::prelude::*;
use vstd::utf8::encode_utf8;

use crate::escape::{href_escaped, html_escaped};
use crate::event::{Alignment, CodeBlockKind, Event, LinkType, Tag};
use crate::number::decimal;

verus! {

/// The state of the renderer between two writes, as mathematical values.
pub struct WriterState {
    /// Index of the next event to take from the source.
    pub pos: int,
    /// Everything written so far.
    pub out: Seq<char>,
    /// Whether the last non-empty write ended with a line feed.
    pub end_newline: bool,
    /// Whether table cells are body cells (`td`) rather than head cells (`th`).
    pub in_body: bool,
    /// Column alignments of the current table.
    pub aligns: Seq<Alignment>,
    /// Index of the current table cell in its row.
    pub cell: int,
    /// Footnote labels in the order they were first seen; label `names[i]` has number `i + 1`.
    pub names: Seq<Seq<char>>,
    /// Destinations of the non-email links started so far, in order.
    pub queries: Seq<Seq<char>>,
}

/// Whether a text ends with a line feed.
pub open spec fn ends_nl(s: Seq<char>) -> bool {
    s.len() > 0 && s.last() == '\n'
}

/// The number of a footnote label: its position among the labels seen so far, or the
/// next free number when it is new.
pub open spec fn footnote_number(names: Seq<Seq<char>>, name: Seq<char>) -> int {
    if names.contains(name) {
        names.index_of(name) + 1
    } else {
        names.len() + 1int
    }
}

/// The labels known after `name` has been given its number.
pub open spec fn with_footnote(names: Seq<Seq<char>>, name: Seq<char>) -> Seq<Seq<char>> {
    if names.contains(name) {
        names
    } else {
        names.push(name)
    }
}

impl WriterState {
    /// A write straight to the output, which leaves the newline flag as it is.
    pub open spec fn put(self, s: Seq<char>) -> WriterState {
        WriterState { out: self.out + s, ..self }
    }

    /// A tracked write: a non-empty text sets the newline flag to whether it ends in `\n`.
    pub open spec fn write(self, s: Seq<char>) -> WriterState {
        WriterState {
            out: self.out + s,
            end_newline: if s.len() > 0 {
                s.last() == '\n'
            } else {
                self.end_newline
            },
            ..self
        }
    }

    /// A line feed, after which the output is known to end a line.
    pub open spec fn newline(self) -> WriterState {
        WriterState { out: self.out + "\n"@, end_newline: true, ..self }
    }

    /// The same state with the newline flag set to `b`.
    pub open spec fn set_newline(self, b: bool) -> WriterState {
        WriterState { end_newline: b, ..self }
    }

    /// The number of footnote `name`, written straight to the output.
    pub open spec fn footnote(self, name: Seq<char>) -> WriterState {
        WriterState {
            out: self.out + decimal(footnote_number(self.names, name) as nat),
            names: with_footnote(self.names, name),
            ..self
        }
    }

    /// The ` title="..."` part of a link or image, present when the title is not empty.
    pub open spec fn title_attr(self, title: Seq<char>) -> WriterState {
        if title.len() > 0 {
            self.write("\" title=\""@).put(html_escaped(title))
        } else {
            self
        }
    }

    /// A text written as HTML-escaped characters; a non-empty text sets the newline flag to
    /// whether it ends with a line feed, an empty one writes nothing.
    pub open spec fn text(self, t: Seq<char>) -> WriterState {
        if t.len() > 0 {
            self.put(html_escaped(t)).set_newline(ends_nl(t))
        } else {
            self
        }
    }
}

/// Length of the first space-separated word of a text.
pub open spec fn word_len(s: Seq<char>) -> int
    decreases s.len(),
{
    if s.len() == 0 || s[0] == ' ' {
        0
    } else {
        1 + word_len(s.drop_first())
    }
}

/// The first word ends at the first space, or at the end of the text.
pub proof fn lemma_word_len(s: Seq<char>, k: int)
    requires
        0 <= k <= s.len(),
        forall|j: int| 0 <= j < k ==> s[j] != ' ',
        k == s.len() || s[k] == ' ',
    ensures
        word_len(s) == k,
    decreases k,
{
    if k > 0 {
        lemma_word_len(s.drop_first(), k - 1);
    }
}

/// The first space-separated word of a text (the language of a fenced code block).
pub open spec fn first_word(s: Seq<char>) -> Seq<char> {
    s.take(word_len(s))
}

/// The `align` attribute and closing `>` of a table cell in column `cell`.
pub open spec fn align_attr(aligns: Seq<Alignment>, cell: int) -> Seq<char> {
    if 0 <= cell < aligns.len() {
        match aligns[cell] {
            Alignment::Left => " align=\"left\">"@,
            Alignment::Center => " align=\"center\">"@,
            Alignment::Right => " align=\"right\">"@,
            Alignment::Unaligned => ">"@,
        }
    } else {
        ">"@
    }
}

/// The destination written for the `k`-th non-email link: the replacement given for it,
/// if there is one, else its own destination.
pub open spec fn link_target(dests: Option<Seq<Seq<char>>>, k: int, dest: Seq<char>) -> Seq<char> {
    match dests {
        Some(ds) => if 0 <= k < ds.len() {
            ds[k]
        } else {
            dest
        },
        None => dest,
    }
}

/// An opening `<` tag written with a line feed in front unless the output ends a line.
pub open spec fn block_open(st: WriterState, s: Seq<char>, nl_s: Seq<char>) -> WriterState {
    if st.end_newline {
        st.write(s)
    } else {
        st.write(nl_s)
    }
}

/// What one event of an image's alternative text writes: texts and code as escaped text,
/// breaks and rules as a space, footnote references as `[n]`, task markers as `[x]` or `[ ]`.
pub open spec fn alt_text_write(e: Event, st: WriterState) -> WriterState {
    match e {
        Event::Html(t) => st.text(t@),
        Event::Code(t) => st.text(t@),
        Event::Text(t) => st.text(t@),
        Event::SoftBreak => st.write(" "@),
        Event::HardBreak => st.write(" "@),
        Event::Rule => st.write(" "@),
        Event::FootnoteReference(name) => st.put("["@).footnote(name@).put("]"@),
        Event::TaskListMarker(b) => if b {
            st.write("[x]"@)
        } else {
            st.write("[ ]"@)
        },
        Event::Start(_) => st,
        Event::End(_) => st,
    }
}

/// The alternative text of an image: the events after its start are taken from the source
/// up to and including the `End` that closes the image, and written as plain text.
pub open spec fn raw_text(events: Seq<Event>, st: WriterState, nest: int) -> WriterState
    decreases events.len() - st.pos,
{
    if st.pos < 0 || st.pos >= events.len() {
        st
    } else {
        let st1 = WriterState { pos: st.pos + 1, ..st };
        match events[st.pos] {
            Event::Start(_) => raw_text(events, st1, nest + 1),
            Event::End(_) => if nest == 0 {
                st1
            } else {
                raw_text(events, st1, nest - 1)
            },
            _ => raw_text(events, alt_text_write(events[st.pos], st1), nest),
        }
    }
}

/// What the start of a container writes.
pub open spec fn start_tag(
    events: Seq<Event>,
    dests: Option<Seq<Seq<char>>>,
    tag: Tag,
    st: WriterState,
) -> WriterState {
    match tag {
        Tag::Paragraph => block_open(st, "<p>"@, "\n<p>"@),
        Tag::Heading(level) => {
            let st1 = if st.end_newline {
                st.set_newline(false).put("<h"@)
            } else {
                st.put("\n<h"@)
            };
            st1.put(decimal(level as nat)).put(">"@)
        },
        Tag::Table(aligns) => WriterState { aligns: aligns@, ..st }.write("<table>"@),
        Tag::TableHead => WriterState { in_body: false, cell: 0, ..st }.write("<thead><tr>"@),
        Tag::TableRow => WriterState { cell: 0, ..st }.write("<tr>"@),
        Tag::TableCell => {
            let st1 = if st.in_body {
                st.write("<td"@)
            } else {
                st.write("<th"@)
            };
            st1.write(align_attr(st1.aligns, st1.cell))
        },
        Tag::BlockQuote => block_open(st, "<blockquote>\n"@, "\n<blockquote>\n"@),
        Tag::CodeBlock(kind) => {
            let st1 = if st.end_newline {
                st
            } else {
                st.newline()
            };
            match kind {
                CodeBlockKind::Fenced(info) => {
                    let lang = first_word(info@);
                    if lang.len() == 0 {
                        st1.write("<pre><code>"@)
                    } else {
                        st1.write("<pre><code class=\"language-"@).put(html_escaped(lang)).write(
                            "\">"@,
                        )
                    }
                },
                CodeBlockKind::Indented => st1.write("<pre><code>"@),
            }
        },
        Tag::List(Some(start)) => if start == 1 {
            block_open(st, "<ol>\n"@, "\n<ol>\n"@)
        } else {
            block_open(st, "<ol start=\""@, "\n<ol start=\""@).put(decimal(start as nat)).write(
                "\">\n"@,
            )
        },
        Tag::List(None) => block_open(st, "<ul>\n"@, "\n<ul>\n"@),
        Tag::Item => block_open(st, "<li>"@, "\n<li>"@),
        Tag::Emphasis => st.write("<em>"@),
        Tag::Strong => st.write("<strong>"@),
        Tag::Strikethrough => st.write("<del>"@),
        Tag::Link(kind, dest, title) => if kind == LinkType::Email {
            st.write("<a href=\"mailto:"@).put(href_escaped(encode_utf8(dest@))).title_attr(
                title@,
            ).write("\">"@)
        } else {
            let target = link_target(dests, st.queries.len() as int, dest@);
            let st1 = st.write("<a href=\""@).put(href_escaped(encode_utf8(target)));
            WriterState { queries: st1.queries.push(dest@), ..st1 }.title_attr(title@).write(
                "\">"@,
            )
        },
        Tag::Image(_, dest, title) => {
            let st1 = st.write("<img src=\""@).put(href_escaped(encode_utf8(dest@))).write(
                "\" alt=\""@,
            );
            raw_text(events, st1, 0).title_attr(title@).write("\" />"@)
        },
        Tag::FootnoteDefinition(name) => block_open(
            st,
            "<div class=\"footnote-definition\" id=\""@,
            "\n<div class=\"footnote-definition\" id=\""@,
        ).put(html_escaped(name@)).write("\"><sup class=\"footnote-definition-label\">"@).footnote(
            name@,
        ).write("</sup>"@),
    }
}

/// What the end of a container writes.
pub open spec fn end_tag(tag: Tag, st: WriterState) -> WriterState {
    match tag {
        Tag::Paragraph => st.write("</p>\n"@),
        Tag::Heading(level) => st.write("</h"@).put(decimal(level as nat)).write(">\n"@),
        Tag::Table(_) => st.write("</tbody></table>\n"@),
        Tag::TableHead => WriterState { in_body: true, ..st.write("</tr></thead><tbody>\n"@) },
        Tag::TableRow => st.write("</tr>\n"@),
        Tag::TableCell => {
            let st1 = if st.in_body {
                st.write("</td>"@)
            } else {
                st.write("</th>"@)
            };
            WriterState { cell: st1.cell + 1, ..st1 }
        },
        Tag::BlockQuote => st.write("</blockquote>\n"@),
        Tag::CodeBlock(_) => st.write("</code></pre>\n"@),
        Tag::List(Some(_)) => st.write("</ol>\n"@),
        Tag::List(None) => st.write("</ul>\n"@),
        Tag::Item => st.write("</li>\n"@),
        Tag::Emphasis => st.write("</em>"@),
        Tag::Strong => st.write("</strong>"@),
        Tag::Strikethrough => st.write("</del>"@),
        Tag::Link(_, _, _) => st.write("</a>"@),
        Tag::Image(_, _, _) => st,
        Tag::FootnoteDefinition(_) => st.write("</div>\n"@),
    }
}

/// What one event taken from the source writes.
pub open spec fn process(
    events: Seq<Event>,
    dests: Option<Seq<Seq<char>>>,
    e: Event,
    st: WriterState,
) -> WriterState {
    match e {
        Event::Start(tag) => start_tag(events, dests, tag, st),
        Event::End(tag) => end_tag(tag, st),
        Event::Text(t) => st.text(t@),
        Event::Code(t) => st.write("<code>"@).put(html_escaped(t@)).write("</code>"@),
        Event::Html(h) => st.write(h@),
        Event::SoftBreak => st.newline(),
        Event::HardBreak => st.write("<br />\n"@),
        Event::Rule => block_open(st, "<hr />\n"@, "\n<hr />\n"@),
        Event::FootnoteReference(name) => st.write(
            "<sup class=\"footnote-reference\"><a href=\"#"@,
        ).put(html_escaped(name@)).write("\">"@).footnote(name@).write("</a></sup>"@),
        Event::TaskListMarker(b) => if b {
            st.write("<input disabled=\"\" type=\"checkbox\" checked=\"\"/>\n"@)
        } else {
            st.write("<input disabled=\"\" type=\"checkbox\"/>\n"@)
        },
    }
}

/// One turn of the main loop: take the next event from the source and write it.
pub open spec fn step(
    events: Seq<Event>,
    dests: Option<Seq<Seq<char>>>,
    st: WriterState,
) -> WriterState {
    process(events, dests, events[st.pos], WriterState { pos: st.pos + 1, ..st })
}

/// The main loop, run until the source is exhausted.
pub open spec fn run_from(
    events: Seq<Event>,
    dests: Option<Seq<Seq<char>>>,
    st: WriterState,
) -> WriterState
    decreases events.len() - st.pos,
    when 0 <= st.pos
    via run_from_decreases
{
    if st.pos < events.len() {
        run_from(events, dests, step(events, dests, st))
    } else {
        st
    }
}

/// Taking an alternative text moves the source forward only, and leaves the table state
/// and the link destinations as they are.
pub proof fn lemma_raw_text_frame(events: Seq<Event>, st: WriterState, nest: int)
    requires
        0 <= st.pos <= events.len(),
    ensures
        st.pos <= raw_text(events, st, nest).pos <= events.len(),
        raw_text(events, st, nest).queries == st.queries,
        raw_text(events, st, nest).cell == st.cell,
        raw_text(events, st, nest).in_body == st.in_body,
        raw_text(events, st, nest).aligns == st.aligns,
        st.out.is_prefix_of(raw_text(events, st, nest).out),
    decreases events.len() - st.pos,
{
    if st.pos < events.len() {
        let st1 = WriterState { pos: st.pos + 1, ..st };
        let next = match events[st.pos] {
            Event::Start(_) => st1,
            Event::End(_) => st1,
            _ => alt_text_write(events[st.pos], st1),
        };
        let next_nest = match events[st.pos] {
            Event::Start(_) => nest + 1,
            Event::End(_) => nest - 1,
            _ => nest,
        };
        assert(next.out.subrange(0, st.out.len() as int) =~= st.out);
        if !(events[st.pos] is End && nest == 0) {
            lemma_raw_text_frame(events, next, next_nest);
            let fin = raw_text(events, next, next_nest).out;
            assert(fin.subrange(0, st.out.len() as int) =~= fin.subrange(
                0,
                next.out.len() as int,
            ).subrange(0, st.out.len() as int));
        }
    }
}

/// Processing an event moves the source forward only.
pub proof fn lemma_process_pos(
    events: Seq<Event>,
    dests: Option<Seq<Seq<char>>>,
    e: Event,
    st: WriterState,
)
    requires
        0 <= st.pos <= events.len(),
    ensures
        st.pos <= process(events, dests, e, st).pos <= events.len(),
{
    if let Event::Start(Tag::Image(_, dest, title)) = e {
        let st1 = st.write("<img src=\""@).put(href_escaped(encode_utf8(dest@))).write(
            "\" alt=\""@,
        );
        lemma_raw_text_frame(events, st1, 0);
    }
}

#[via_fn]
proof fn run_from_decreases(
    events: Seq<Event>,
    dests: Option<Seq<Seq<char>>>,
    st: WriterState,
) {
    if 0 <= st.pos < events.len() {
        lemma_process_pos(events, dests, events[st.pos], WriterState { pos: st.pos + 1, ..st });
    }
}

/// The renderer's state before it has taken any event.
pub open spec fn initial_state() -> WriterState {
    WriterState {
        pos: 0,
        out: Seq::empty(),
        end_newline: true,
        in_body: false,
        aligns: Seq::empty(),
        cell: 0,
        names: Seq::empty(),
        queries: Seq::empty(),
    }
}

/// The final state of a whole run over `events`, the `k`-th non-email link written with
/// `dests[k]` when `dests` gives one.
pub open spec fn render(events: Seq<Event>, dests: Option<Seq<Seq<char>>>) -> WriterState {
    run_from(events, dests, initial_state())
}

/// The HTML text of a sequence of events.
pub open spec fn html(events: Seq<Event>) -> Seq<char> {
    render(events, None).out
}

/// The HTML text of a sequence of events, with the given replacements for the
/// destinations of non-email links.
pub open spec fn html_with_destinations(events: Seq<Event>, dests: Seq<Seq<char>>) -> Seq<char> {
    render(events, Some(dests)).out
}

/// The destinations of the non-email links that a run meets, in the order it meets them.
pub open spec fn link_queries(events: Seq<Event>) -> Seq<Seq<char>> {
    render(events, None).queries
}

} // verus!
