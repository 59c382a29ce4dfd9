use vstd::prelude::*;
use vstd::string::StringExecFns;
use vstd::string::StringSliceAdditionalSpecFns;
use vstd::utf8::encode_utf8;

use crate::escape::{escape_href, escape_html, push_char};
use crate::event::{Alignment, CodeBlockKind, Event, LinkType, Tag};
use crate::model::{
    block_open, end_tag, ends_nl, first_word, html, html_with_destinations, initial_state,
    link_queries, process, raw_text, run_from, start_tag, step, lemma_word_len, WriterState,
};
use crate::number::push_decimal;

verus! {

/// Whether table cells are currently head cells or body cells.
enum TableState {
    Head,
    Body,
}

/// Renders a sequence of events as HTML text.
///
/// The renderer takes the events from its source in order; an image takes the events of
/// its alternative text, up to the end of the image, straight from the source.
pub struct HtmlWriter<'a> {
    /// The event source.
    events: &'a [Event],
    /// Replacements for the destinations of non-email links, in order.
    dests: Option<&'a [String]>,
    /// Index of the next event to take from the source.
    pos: usize,
    /// The text written so far.
    writer: String,
    /// Whether the last non-empty write ended with a line feed.
    end_newline: bool,
    table_state: TableState,
    table_alignments: &'a [Alignment],
    table_cell_index: usize,
    /// Footnote labels in order of first appearance; label `i` has number `i + 1`.
    numbers: Vec<&'a String>,
    /// Destinations of the non-email links started so far.
    link_dests: Vec<&'a String>,
}

/// Bounds that keep the renderer's counters from overflowing: each counter grows by at
/// most one for each event still in the source, plus `extra`.
pub open spec fn counters_fit(len: int, st: WriterState, extra: int) -> bool {
    let room = len - st.pos + extra;
    &&& 0 <= st.pos <= len
    &&& 0 <= st.cell
    &&& st.cell + room <= usize::MAX
    &&& st.names.len() + room <= usize::MAX
    &&& st.queries.len() + room <= usize::MAX
    &&& st.names.no_duplicates()
}

/// Whether a text ends with a line feed.
fn ends_with_newline(s: &str) -> (r: bool)
    ensures
        r == ends_nl(s@),
{
    broadcast use vstd::string::axiom_spec_iter;

    let mut last_nl = false;
    for c in it: s.chars()
        invariant
            it.seq() == s@,
            last_nl == (it.index() > 0 && s@[it.index() - 1] == '\n'),
    {
        last_nl = c == '\n';
    }
    last_nl
}

/// The first space-separated word of a text.
fn first_word_of(s: &str) -> (w: String)
    ensures
        w@ == first_word(s@),
{
    broadcast use vstd::string::axiom_spec_iter;

    let mut w = String::new();
    let mut done = false;
    for c in it: s.chars()
        invariant
            it.seq() == s@,
            w@.len() <= it.index(),
            w@ == s@.take(w@.len() as int),
            forall|j: int| 0 <= j < w@.len() ==> s@[j] != ' ',
            !done ==> w@.len() == it.index(),
            done ==> w@.len() < s@.len() && s@[w@.len() as int] == ' ',
    {
        if !done {
            if c == ' ' {
                done = true;
            } else {
                push_char(&mut w, c);
                assert(w@ =~= s@.take(w@.len() as int));
            }
        }
    }
    proof {
        lemma_word_len(s@, w@.len() as int);
    }
    w
}

impl<'a> HtmlWriter<'a> {
    /// The renderer's state as mathematical values.
    pub closed spec fn state(&self) -> WriterState {
        WriterState {
            pos: self.pos as int,
            out: self.writer@,
            end_newline: self.end_newline,
            in_body: self.table_state is Body,
            aligns: self.table_alignments@,
            cell: self.table_cell_index as int,
            names: self.numbers@.map_values(|s: &String| s@),
            queries: self.link_dests@.map_values(|s: &String| s@),
        }
    }

    /// The events the renderer reads.
    pub closed spec fn source(&self) -> Seq<Event> {
        self.events@
    }

    /// The replacement destinations the renderer was given, if any.
    pub closed spec fn replacements(&self) -> Option<Seq<Seq<char>>> {
        match self.dests {
            Some(ds) => Some(ds@.map_values(|d: String| d@)),
            None => None,
        }
    }

    /// The renderer's invariant.
    pub closed spec fn wf(&self) -> bool {
        counters_fit(self.events@.len() as int, self.state(), 0)
    }

    spec fn same_source(&self, other: &Self) -> bool {
        self.events == other.events && self.dests == other.dests
    }

    /// A renderer over `events` that writes every link destination as it is.
    pub fn new(events: &'a [Event]) -> (w: Self)
        ensures
            w.wf(),
            w.source() == events@,
            w.replacements() == None::<Seq<Seq<char>>>,
            w.state() == initial_state(),
    {
        let w = HtmlWriter {
            events,
            dests: None,
            pos: 0,
            writer: String::new(),
            end_newline: true,
            table_state: TableState::Head,
            table_alignments: &[],
            table_cell_index: 0,
            numbers: Vec::new(),
            link_dests: Vec::new(),
        };
        assert(events@.len() == events.len());
        assert(w.state().names =~= Seq::<Seq<char>>::empty());
        assert(w.state().queries =~= Seq::<Seq<char>>::empty());
        assert(w.state().aligns =~= Seq::<Alignment>::empty());
        w
    }

    /// A renderer over `events` that writes `dests[k]` as the destination of the `k`-th
    /// non-email link, when there is such an entry.
    pub fn new_manip(events: &'a [Event], dests: &'a [String]) -> (w: Self)
        ensures
            w.wf(),
            w.source() == events@,
            w.replacements() == Some(dests@.map_values(|d: String| d@)),
            w.state() == initial_state(),
    {
        let w = HtmlWriter {
            events,
            dests: Some(dests),
            pos: 0,
            writer: String::new(),
            end_newline: true,
            table_state: TableState::Head,
            table_alignments: &[],
            table_cell_index: 0,
            numbers: Vec::new(),
            link_dests: Vec::new(),
        };
        assert(events@.len() == events.len());
        assert(w.state().names =~= Seq::<Seq<char>>::empty());
        assert(w.state().queries =~= Seq::<Seq<char>>::empty());
        assert(w.state().aligns =~= Seq::<Alignment>::empty());
        w
    }

    /// Writes a text, leaving the newline flag as it is.
    fn put(&mut self, s: &str)
        ensures
            final(self).state() == old(self).state().put(s@),
            final(self).same_source(old(self)),
    {
        self.writer.append(s);
    }

    /// Writes a text and records whether it ended a line.
    fn write(&mut self, s: &str)
        ensures
            final(self).state() == old(self).state().write(s@),
            final(self).same_source(old(self)),
    {
        self.writer.append(s);
        if !s.is_empty() {
            self.end_newline = ends_with_newline(s);
        }
    }

    /// Writes a line feed.
    fn write_newline(&mut self)
        ensures
            final(self).state() == old(self).state().newline(),
            final(self).same_source(old(self)),
    {
        self.end_newline = true;
        self.writer.append("\n");
    }

    /// Writes a text escaped for HTML; the newline flag follows the text.
    fn text(&mut self, t: &String)
        ensures
            final(self).state() == old(self).state().text(t@),
            final(self).same_source(old(self)),
    {
        if !t.as_str().is_empty() {
            escape_html(&mut self.writer, t.as_str());
            self.end_newline = ends_with_newline(t.as_str());
        }
    }

    /// Writes a text escaped for HTML.
    fn put_escaped(&mut self, t: &str)
        ensures
            final(self).state() == old(self).state().put(crate::escape::html_escaped(t@)),
            final(self).same_source(old(self)),
    {
        escape_html(&mut self.writer, t);
    }

    /// Writes a URL escaped for an attribute.
    fn put_href(&mut self, t: &String)
        ensures
            final(self).state() == old(self).state().put(
                crate::escape::href_escaped(encode_utf8(t@)),
            ),
            final(self).same_source(old(self)),
    {
        escape_href(&mut self.writer, t.as_str());
    }

    /// Writes a number in decimal.
    fn put_number(&mut self, n: u64)
        ensures
            final(self).state() == old(self).state().put(crate::number::decimal(n as nat)),
            final(self).same_source(old(self)),
    {
        push_decimal(&mut self.writer, n);
    }

    /// Writes a block opening, after a line feed unless the output ends a line.
    fn block_open(&mut self, s: &str, nl_s: &str)
        ensures
            final(self).state() == block_open(old(self).state(), s@, nl_s@),
            final(self).same_source(old(self)),
    {
        if self.end_newline {
            self.write(s);
        } else {
            self.write(nl_s);
        }
    }

    /// Writes the ` title="..."` part of a link or image.
    fn title_attr(&mut self, title: &String)
        ensures
            final(self).state() == old(self).state().title_attr(title@),
            final(self).same_source(old(self)),
    {
        if !title.as_str().is_empty() {
            self.write("\" title=\"");
            self.put_escaped(title.as_str());
        }
    }

    /// Writes the number of footnote `name`, giving it the next number when it is new.
    fn footnote(&mut self, name: &'a String)
        requires
            old(self).state().names.no_duplicates(),
            old(self).numbers@.len() < usize::MAX,
        ensures
            final(self).state() == old(self).state().footnote(name@),
            final(self).state().names.no_duplicates(),
            final(self).same_source(old(self)),
    {
        let ghost names = self.state().names;
        let len = self.numbers.len();
        let mut i: usize = 0;
        let mut found = false;
        while i < len
            invariant_except_break
                len == self.numbers@.len(),
                names == self.numbers@.map_values(|s: &String| s@),
                i <= len,
                !found,
                forall|j: int| 0 <= j < i ==> names[j] != name@,
            ensures
                i <= len,
                forall|j: int| 0 <= j < i ==> names[j] != name@,
                found ==> i < len && names[i as int] == name@,
                !found ==> i == len,
            decreases len - i,
        {
            let known: &String = self.numbers[i];
            if known.eq(name) {
                found = true;
                break;
            }
            i = i + 1;
        }
        let number: usize = if found {
            assert(names.contains(name@));
            assert(names.index_of(name@) == i);
            i + 1
        } else {
            assert(!names.contains(name@));
            self.numbers.push(name);
            assert(self.state().names =~= names.push(name@));
            len + 1
        };
        push_decimal(&mut self.writer, number as u64);
    }

    /// Takes the events of an image's alternative text from the source and writes them as
    /// plain text, up to and including the `End` that closes the image.
    fn raw_text(&mut self)
        requires
            counters_fit(old(self).events@.len() as int, old(self).state(), 1),
        ensures
            final(self).state() == raw_text(old(self).events@, old(self).state(), 0),
            counters_fit(old(self).events@.len() as int, final(self).state(), 1),
            final(self).same_source(old(self)),
    {
        let ghost events = self.events@;
        let ghost target = raw_text(events, self.state(), 0);
        let ghost start = *self;
        let mut nest: usize = 0;
        loop
            invariant_except_break
                self.same_source(&start),
                events == self.events@,
                raw_text(events, self.state(), nest as int) == target,
                counters_fit(events.len() as int, self.state(), 1),
                nest <= self.pos,
            ensures
                self.same_source(&start),
                self.state() == target,
                counters_fit(events.len() as int, self.state(), 1),
            decreases events.len() - self.pos,
        {
            let evs = self.events;
            if self.pos >= evs.len() {
                break;
            }
            let e: &'a Event = &evs[self.pos];
            self.pos = self.pos + 1;
            match e {
                Event::Start(_) => {
                    nest = nest + 1;
                },
                Event::End(_) => {
                    if nest == 0 {
                        break;
                    }
                    nest = nest - 1;
                },
                Event::Html(t) => {
                    self.text(t);
                },
                Event::Code(t) => {
                    self.text(t);
                },
                Event::Text(t) => {
                    self.text(t);
                },
                Event::SoftBreak => {
                    self.write(" ");
                },
                Event::HardBreak => {
                    self.write(" ");
                },
                Event::Rule => {
                    self.write(" ");
                },
                Event::FootnoteReference(name) => {
                    self.put("[");
                    self.footnote(name);
                    self.put("]");
                },
                Event::TaskListMarker(b) => {
                    if *b {
                        self.write("[x]");
                    } else {
                        self.write("[ ]");
                    }
                },
            }
        }
    }

    /// Writes the start of a container.
    fn start_tag(&mut self, tag: &'a Tag)
        requires
            counters_fit(old(self).events@.len() as int, old(self).state(), 1),
        ensures
            final(self).state() == start_tag(
                old(self).events@,
                old(self).replacements(),
                *tag,
                old(self).state(),
            ),
            counters_fit(old(self).events@.len() as int, final(self).state(), 0),
            final(self).same_source(old(self)),
    {
        match tag {
            Tag::Paragraph => self.block_open("<p>", "\n<p>"),
            Tag::Heading(level) => {
                if self.end_newline {
                    self.end_newline = false;
                    self.put("<h");
                } else {
                    self.put("\n<h");
                }
                self.put_number(*level as u64);
                self.put(">");
            },
            Tag::Table(aligns) => {
                self.table_alignments = aligns.as_slice();
                self.write("<table>");
            },
            Tag::TableHead => {
                self.table_state = TableState::Head;
                self.table_cell_index = 0;
                self.write("<thead><tr>");
            },
            Tag::TableRow => {
                self.table_cell_index = 0;
                self.write("<tr>");
            },
            Tag::TableCell => {
                match self.table_state {
                    TableState::Head => self.write("<th"),
                    TableState::Body => self.write("<td"),
                }
                if self.table_cell_index < self.table_alignments.len() {
                    match self.table_alignments[self.table_cell_index] {
                        Alignment::Left => self.write(" align=\"left\">"),
                        Alignment::Center => self.write(" align=\"center\">"),
                        Alignment::Right => self.write(" align=\"right\">"),
                        Alignment::Unaligned => self.write(">"),
                    }
                } else {
                    self.write(">");
                }
            },
            Tag::BlockQuote => self.block_open("<blockquote>\n", "\n<blockquote>\n"),
            Tag::CodeBlock(kind) => {
                if !self.end_newline {
                    self.write_newline();
                }
                match kind {
                    CodeBlockKind::Fenced(info) => {
                        let lang = first_word_of(info.as_str());
                        if lang.as_str().is_empty() {
                            self.write("<pre><code>");
                        } else {
                            self.write("<pre><code class=\"language-");
                            self.put_escaped(lang.as_str());
                            self.write("\">");
                        }
                    },
                    CodeBlockKind::Indented => self.write("<pre><code>"),
                }
            },
            Tag::List(Some(start)) => {
                if *start == 1 {
                    self.block_open("<ol>\n", "\n<ol>\n");
                } else {
                    self.block_open("<ol start=\"", "\n<ol start=\"");
                    self.put_number(*start);
                    self.write("\">\n");
                }
            },
            Tag::List(None) => self.block_open("<ul>\n", "\n<ul>\n"),
            Tag::Item => self.block_open("<li>", "\n<li>"),
            Tag::Emphasis => self.write("<em>"),
            Tag::Strong => self.write("<strong>"),
            Tag::Strikethrough => self.write("<del>"),
            Tag::Link(kind, dest, title) => {
                match kind {
                    LinkType::Email => {
                        self.write("<a href=\"mailto:");
                        self.put_href(dest);
                    },
                    _ => {
                        self.write("<a href=\"");
                        let k = self.link_dests.len();
                        let target: &String = match self.dests {
                            Some(ds) => if k < ds.len() {
                                &ds[k]
                            } else {
                                dest
                            },
                            None => dest,
                        };
                        self.put_href(target);
                        let ghost before = self.state();
                        self.link_dests.push(dest);
                        assert(self.state().queries =~= before.queries.push(dest@));
                    },
                }
                self.title_attr(title);
                self.write("\">");
            },
            Tag::Image(_, dest, title) => {
                self.write("<img src=\"");
                self.put_href(dest);
                self.write("\" alt=\"");
                self.raw_text();
                self.title_attr(title);
                self.write("\" />");
            },
            Tag::FootnoteDefinition(name) => {
                self.block_open(
                    "<div class=\"footnote-definition\" id=\"",
                    "\n<div class=\"footnote-definition\" id=\"",
                );
                self.put_escaped(name.as_str());
                self.write("\"><sup class=\"footnote-definition-label\">");
                self.footnote(name);
                self.write("</sup>");
            },
        }
    }

    /// Writes the end of a container.
    fn end_tag(&mut self, tag: &'a Tag)
        requires
            counters_fit(old(self).events@.len() as int, old(self).state(), 1),
        ensures
            final(self).state() == end_tag(*tag, old(self).state()),
            counters_fit(old(self).events@.len() as int, final(self).state(), 0),
            final(self).same_source(old(self)),
    {
        match tag {
            Tag::Paragraph => self.write("</p>\n"),
            Tag::Heading(level) => {
                self.write("</h");
                self.put_number(*level as u64);
                self.write(">\n");
            },
            Tag::Table(_) => self.write("</tbody></table>\n"),
            Tag::TableHead => {
                self.write("</tr></thead><tbody>\n");
                self.table_state = TableState::Body;
            },
            Tag::TableRow => self.write("</tr>\n"),
            Tag::TableCell => {
                match self.table_state {
                    TableState::Head => self.write("</th>"),
                    TableState::Body => self.write("</td>"),
                }
                self.table_cell_index = self.table_cell_index + 1;
            },
            Tag::BlockQuote => self.write("</blockquote>\n"),
            Tag::CodeBlock(_) => self.write("</code></pre>\n"),
            Tag::List(Some(_)) => self.write("</ol>\n"),
            Tag::List(None) => self.write("</ul>\n"),
            Tag::Item => self.write("</li>\n"),
            Tag::Emphasis => self.write("</em>"),
            Tag::Strong => self.write("</strong>"),
            Tag::Strikethrough => self.write("</del>"),
            Tag::Link(_, _, _) => self.write("</a>"),
            Tag::Image(_, _, _) => {},
            Tag::FootnoteDefinition(_) => self.write("</div>\n"),
        }
    }

    /// Writes one event.
    fn process(&mut self, c: usize)
        requires
            c < old(self).events@.len(),
            counters_fit(old(self).events@.len() as int, old(self).state(), 1),
        ensures
            final(self).state() == process(
                old(self).events@,
                old(self).replacements(),
                old(self).events@[c as int],
                old(self).state(),
            ),
            counters_fit(old(self).events@.len() as int, final(self).state(), 0),
            final(self).same_source(old(self)),
    {
        let evs = self.events;
        match &evs[c] {
            Event::Start(tag) => self.start_tag(tag),
            Event::End(tag) => self.end_tag(tag),
            Event::Text(t) => self.text(t),
            Event::Code(t) => {
                self.write("<code>");
                self.put_escaped(t.as_str());
                self.write("</code>");
            },
            Event::Html(h) => self.write(h.as_str()),
            Event::SoftBreak => self.write_newline(),
            Event::HardBreak => self.write("<br />\n"),
            Event::Rule => self.block_open("<hr />\n", "\n<hr />\n"),
            Event::FootnoteReference(name) => {
                self.write("<sup class=\"footnote-reference\"><a href=\"#");
                self.put_escaped(name.as_str());
                self.write("\">");
                self.footnote(name);
                self.write("</a></sup>");
            },
            Event::TaskListMarker(b) => {
                if *b {
                    self.write("<input disabled=\"\" type=\"checkbox\" checked=\"\"/>\n");
                } else {
                    self.write("<input disabled=\"\" type=\"checkbox\"/>\n");
                }
            },
        }
    }

    /// Runs the main loop until the source is exhausted.
    fn run_all(&mut self)
        requires
            old(self).wf(),
        ensures
            final(self).wf(),
            final(self).state() == run_from(
                old(self).events@,
                old(self).replacements(),
                old(self).state(),
            ),
            final(self).same_source(old(self)),
    {
        let ghost events = self.events@;
        let ghost dests = self.replacements();
        let ghost start = *self;
        let ghost target = run_from(events, dests, self.state());
        while self.pos < self.events.len()
            invariant
                self.wf(),
                self.same_source(&start),
                events == self.events@,
                dests == self.replacements(),
                run_from(events, dests, self.state()) == target,
            decreases events.len() - self.pos,
        {
            let ghost before = self.state();
            let c = self.pos;
            self.pos = self.pos + 1;
            self.process(c);
            proof {
                crate::model::lemma_process_pos(
                    events,
                    dests,
                    events[c as int],
                    WriterState { pos: before.pos + 1, ..before },
                );
            }
            assert(self.state() == step(events, dests, before));
        }
    }

    /// Writes the HTML of all the events of the source and hands back the text written.
    pub fn run(self) -> (out: String)
        requires
            self.wf(),
        ensures
            out@ == run_from(self.source(), self.replacements(), self.state()).out,
    {
        let mut w = self;
        w.run_all();
        w.writer
    }
}


/// Appends the UTF-8 bytes of a text to a byte buffer.
fn push_bytes(writer: &mut Vec<u8>, s: &str)
    ensures
        final(writer)@ == old(writer)@ + encode_utf8(s@),
{
    let bytes = s.as_bytes();
    let mut i: usize = 0;
    while i < bytes.len()
        invariant
            i <= bytes@.len(),
            bytes@ == s.spec_bytes(),
            writer@ == old(writer)@ + bytes@.take(i as int),
        decreases bytes@.len() - i,
    {
        writer.push(bytes[i]);
        i = i + 1;
        assert(writer@ =~= old(writer)@ + bytes@.take(i as int));
    }
    assert(bytes@.take(bytes@.len() as int) =~= bytes@);
}

/// Generates the HTML of a sequence of events and appends it to a `String`.
pub fn push_html(s: &mut String, events: &[Event])
    ensures
        final(s)@ == old(s)@ + html(events@),
{
    let w = HtmlWriter::new(events);
    let out = w.run();
    s.append(out.as_str());
}

/// Generates the HTML of a sequence of events and appends it to a `String`, writing
/// `dests[k]` as the destination of the `k`-th non-email link when `dests` has such an
/// entry.
pub fn push_html_with_destinations(s: &mut String, events: &[Event], dests: &[String])
    ensures
        final(s)@ == old(s)@ + html_with_destinations(
            events@,
            dests@.map_values(|d: String| d@),
        ),
{
    let w = HtmlWriter::new_manip(events, dests);
    let out = w.run();
    s.append(out.as_str());
}

/// Generates the HTML of a sequence of events and appends its UTF-8 bytes to a buffer.
pub fn write_html(writer: &mut Vec<u8>, events: &[Event])
    ensures
        final(writer)@ == old(writer)@ + encode_utf8(html(events@)),
{
    let mut out = String::new();
    push_html(&mut out, events);
    push_bytes(writer, out.as_str());
}

/// The destinations of the non-email links of a sequence of events, in the order in which
/// the renderer meets them.
pub fn link_destinations(events: &[Event]) -> (ds: Vec<String>)
    ensures
        ds@.map_values(|d: String| d@) == link_queries(events@),
{
    let mut w = HtmlWriter::new(events);
    w.run_all();
    let ghost queries = w.state().queries;
    let mut ds: Vec<String> = Vec::new();
    let mut i: usize = 0;
    while i < w.link_dests.len()
        invariant
            i <= w.link_dests@.len(),
            queries == w.link_dests@.map_values(|s: &String| s@),
            ds@.map_values(|d: String| d@) == queries.take(i as int),
        decreases w.link_dests@.len() - i,
    {
        let d: String = w.link_dests[i].clone();
        assert(d@ == queries[i as int]);
        let ghost prev = ds@;
        ds.push(d);
        assert(ds@ == prev.push(d));
        assert(ds@.map_values(|d: String| d@) =~= prev.map_values(|d: String| d@).push(d@));
        assert(queries.take(i + 1) =~= queries.take(i as int).push(queries[i as int]));
        i = i + 1;
    }
    assert(queries.take(i as int) =~= queries);
    ds
}

/// Whether a string slice holds the given text.
pub open spec fn has_text(a: &str, t: Seq<char>) -> bool {
    a@ == t
}

/// Whether `r` is a text that `url_manip` may return when it is called on a slice holding `q`.
pub open spec fn manip_result<F: Fn(&str) -> String>(url_manip: F, q: Seq<char>, r: String) -> bool {
    exists|a: &str| has_text(a, q) && #[trigger] url_manip.ensures((a,), r)
}

/// Whether `m` holds, for each of `queries`, a text that `url_manip` may return for it.
pub open spec fn manip_results<F: Fn(&str) -> String>(
    url_manip: F,
    queries: Seq<Seq<char>>,
    m: Seq<String>,
) -> bool {
    &&& m.len() == queries.len()
    &&& forall|k: int| 0 <= k < m.len() ==> #[trigger] manip_result(url_manip, queries[k], m[k])
}

/// Generates the HTML of a sequence of events and appends its UTF-8 bytes to a buffer,
/// with the destination of every non-email link replaced by what `url_manip` returns for it.
pub fn write_html_manip<F: Fn(&str) -> String>(writer: &mut Vec<u8>, events: &[Event], url_manip: F)
    requires
        forall|a: &str| url_manip.requires((a,)),
    ensures
        exists|m: Seq<String>|
            manip_results(url_manip, link_queries(events@), m) && final(writer)@ == old(writer)@
                + encode_utf8(html_with_destinations(events@, m.map_values(|d: String| d@))),
{
    let queries = link_destinations(events);
    let ghost qs = link_queries(events@);
    let mut results: Vec<String> = Vec::new();
    let ghost mut args: Seq<&str> = Seq::empty();
    let mut i: usize = 0;
    while i < queries.len()
        invariant
            i <= queries@.len(),
            queries@.map_values(|d: String| d@) == qs,
            results@.len() == i,
            args.len() == i,
            forall|a: &str| url_manip.requires((a,)),
            forall|k: int| 0 <= k < i ==> #[trigger] has_text(args[k], queries@[k]@),
            forall|k: int| 0 <= k < i ==> url_manip.ensures((args[k],), #[trigger] results@[k]),
        decreases queries@.len() - i,
    {
        let a: &str = queries[i].as_str();
        let r = url_manip(a);
        proof {
            args = args.push(a);
        }
        assert(has_text(args[i as int], queries@[i as int]@));
        let ghost old_results = results@;
        results.push(r);
        assert forall|k: int| 0 <= k < i + 1 implies url_manip.ensures(
            (args[k],),
            #[trigger] results@[k],
        ) by {
            if k < i {
                assert(old_results[k] == results@[k]);
            }
        }
        i = i + 1;
    }
    let mut out = String::new();
    push_html_with_destinations(&mut out, events, results.as_slice());
    push_bytes(writer, out.as_str());
    assert forall|k: int| 0 <= k < results@.len() implies #[trigger] manip_result(
        url_manip,
        qs[k],
        results@[k],
    ) by {
        assert(has_text(args[k], queries@[k]@));
        assert(qs[k] == queries@[k]@);
        assert(has_text(args[k], qs[k]) && url_manip.ensures((args[k],), results@[k]));
    }
    assert(manip_results(url_manip, qs, results@));
}

} // verus!
