use pulldown_cmark_html::event::{Alignment, CodeBlockKind, Event, LinkType, Tag};
use pulldown_cmark_html::html::{
    link_destinations, push_html, push_html_with_destinations, write_html, write_html_manip,
    HtmlWriter,
};

fn s(t: &str) -> String {
    t.to_string()
}

fn render(events: &[Event]) -> String {
    let mut out = String::new();
    push_html(&mut out, events);
    out
}

fn heading_and_list() -> Vec<Event> {
    vec![
        Event::Start(Tag::Heading(1)),
        Event::Text(s("hello")),
        Event::End(Tag::Heading(1)),
        Event::Start(Tag::List(None)),
        Event::Start(Tag::Item),
        Event::Text(s("alpha")),
        Event::End(Tag::Item),
        Event::Start(Tag::Item),
        Event::Text(s("beta")),
        Event::End(Tag::Item),
        Event::End(Tag::List(None)),
    ]
}

const HEADING_AND_LIST_HTML: &str = "<h1>hello</h1>\n<ul>\n<li>alpha</li>\n<li>beta</li>\n</ul>\n";

#[test]
fn push_html_heading_and_list() {
    let mut html_buf = String::new();
    push_html(&mut html_buf, &heading_and_list());
    assert_eq!(html_buf, HEADING_AND_LIST_HTML);
}

#[test]
fn write_html_heading_and_list() {
    let mut bytes = Vec::new();
    write_html(&mut bytes, &heading_and_list());
    assert_eq!(&String::from_utf8_lossy(&bytes)[..], HEADING_AND_LIST_HTML);
}

#[test]
fn run_writes_the_same_as_push_html() {
    let events = heading_and_list();
    let out = HtmlWriter::new(&events).run();
    assert_eq!(out, HEADING_AND_LIST_HTML);
}

#[test]
fn push_html_appends() {
    let mut out = String::from("<!-- head -->\n");
    push_html(&mut out, &[Event::Text(s("a"))]);
    assert_eq!(out, "<!-- head -->\na");
}

#[test]
fn empty_document() {
    assert_eq!(render(&[]), "");
}

#[test]
fn paragraph_after_text_gets_newline() {
    let events = vec![
        Event::Text(s("a")),
        Event::Start(Tag::Paragraph),
        Event::Text(s("b")),
        Event::End(Tag::Paragraph),
        Event::Start(Tag::Paragraph),
        Event::Text(s("c")),
        Event::End(Tag::Paragraph),
    ];
    assert_eq!(render(&events), "a\n<p>b</p>\n<p>c</p>\n");
}

#[test]
fn heading_after_text_and_large_level() {
    let events = vec![
        Event::Text(s("a")),
        Event::Start(Tag::Heading(2)),
        Event::Text(s("b")),
        Event::End(Tag::Heading(2)),
        Event::Start(Tag::Heading(10)),
        Event::End(Tag::Heading(10)),
    ];
    assert_eq!(render(&events), "a\n<h2>b</h2>\n<h10></h10>\n");
}

#[test]
fn text_is_escaped() {
    let events = vec![Event::Text(s("1 < 2 & \"x\" > 'y'"))];
    assert_eq!(render(&events), "1 &lt; 2 &amp; &quot;x&quot; &gt; 'y'");
}

#[test]
fn inline_code_and_raw_html() {
    let events = vec![Event::Code(s("a<b")), Event::Html(s("<span>\n")), Event::Rule];
    assert_eq!(render(&events), "<code>a&lt;b</code><span>\n<hr />\n");
}

#[test]
fn rule_after_text() {
    assert_eq!(render(&[Event::Text(s("a")), Event::Rule]), "a\n<hr />\n");
    assert_eq!(render(&[Event::Rule]), "<hr />\n");
}

#[test]
fn breaks() {
    let events = vec![
        Event::Text(s("a")),
        Event::SoftBreak,
        Event::Text(s("b")),
        Event::HardBreak,
        Event::Text(s("c")),
    ];
    assert_eq!(render(&events), "a\nb<br />\nc");
}

#[test]
fn task_list_markers() {
    let events = vec![Event::TaskListMarker(true), Event::TaskListMarker(false)];
    assert_eq!(
        render(&events),
        "<input disabled=\"\" type=\"checkbox\" checked=\"\"/>\n<input disabled=\"\" type=\"checkbox\"/>\n"
    );
}

#[test]
fn inline_containers_in_block_quote() {
    let events = vec![
        Event::Start(Tag::BlockQuote),
        Event::Start(Tag::Paragraph),
        Event::Start(Tag::Emphasis),
        Event::Text(s("a")),
        Event::End(Tag::Emphasis),
        Event::Start(Tag::Strong),
        Event::Text(s("b")),
        Event::End(Tag::Strong),
        Event::Start(Tag::Strikethrough),
        Event::Text(s("c")),
        Event::End(Tag::Strikethrough),
        Event::End(Tag::Paragraph),
        Event::End(Tag::BlockQuote),
    ];
    assert_eq!(
        render(&events),
        "<blockquote>\n<p><em>a</em><strong>b</strong><del>c</del></p>\n</blockquote>\n"
    );
}

#[test]
fn block_quote_after_text() {
    let events = vec![
        Event::Text(s("a")),
        Event::Start(Tag::BlockQuote),
        Event::End(Tag::BlockQuote),
    ];
    assert_eq!(render(&events), "a\n<blockquote>\n</blockquote>\n");
}

#[test]
fn ordered_lists() {
    let events = vec![
        Event::Start(Tag::List(Some(3))),
        Event::Start(Tag::Item),
        Event::Text(s("a")),
        Event::End(Tag::Item),
        Event::End(Tag::List(Some(3))),
        Event::Start(Tag::List(Some(1))),
        Event::Start(Tag::Item),
        Event::Text(s("b")),
        Event::End(Tag::Item),
        Event::End(Tag::List(Some(1))),
    ];
    assert_eq!(
        render(&events),
        "<ol start=\"3\">\n<li>a</li>\n</ol>\n<ol>\n<li>b</li>\n</ol>\n"
    );
}

#[test]
fn lists_and_items_after_text() {
    let events = vec![
        Event::Text(s("x")),
        Event::Start(Tag::List(Some(1234567))),
        Event::Text(s("y")),
        Event::Start(Tag::Item),
        Event::End(Tag::Item),
        Event::Text(s("z")),
        Event::Start(Tag::List(None)),
        Event::End(Tag::List(None)),
    ];
    assert_eq!(
        render(&events),
        "x\n<ol start=\"1234567\">\ny\n<li></li>\nz\n<ul>\n</ul>\n"
    );
}

#[test]
fn fenced_code_block_language() {
    let events = vec![
        Event::Start(Tag::CodeBlock(CodeBlockKind::Fenced(s("rust ignore")))),
        Event::Text(s("fn main() {}\n")),
        Event::End(Tag::CodeBlock(CodeBlockKind::Fenced(s("rust ignore")))),
    ];
    assert_eq!(
        render(&events),
        "<pre><code class=\"language-rust\">fn main() {}\n</code></pre>\n"
    );
}

#[test]
fn fenced_code_block_escaped_language() {
    let events = vec![Event::Start(Tag::CodeBlock(CodeBlockKind::Fenced(s("a<b\" c"))))];
    assert_eq!(render(&events), "<pre><code class=\"language-a&lt;b&quot;\">");
}

#[test]
fn code_block_without_language() {
    let empty = vec![Event::Start(Tag::CodeBlock(CodeBlockKind::Fenced(s(""))))];
    assert_eq!(render(&empty), "<pre><code>");
    let leading_space = vec![Event::Start(Tag::CodeBlock(CodeBlockKind::Fenced(s(" rust"))))];
    assert_eq!(render(&leading_space), "<pre><code>");
    let indented = vec![
        Event::Text(s("a")),
        Event::Start(Tag::CodeBlock(CodeBlockKind::Indented)),
        Event::Text(s("b")),
        Event::End(Tag::CodeBlock(CodeBlockKind::Indented)),
    ];
    assert_eq!(render(&indented), "a\n<pre><code>b</code></pre>\n");
}

#[test]
fn table_with_alignments() {
    let aligns = vec![Alignment::Left, Alignment::Center, Alignment::Right];
    let cell = |t: &str| {
        vec![Event::Start(Tag::TableCell), Event::Text(s(t)), Event::End(Tag::TableCell)]
    };
    let mut events = vec![Event::Start(Tag::Table(aligns.clone())), Event::Start(Tag::TableHead)];
    events.extend(cell("a"));
    events.extend(cell("b"));
    events.push(Event::End(Tag::TableHead));
    events.push(Event::Start(Tag::TableRow));
    for t in ["c", "d", "e", "f"] {
        events.extend(cell(t));
    }
    events.push(Event::End(Tag::TableRow));
    events.push(Event::End(Tag::Table(aligns)));
    assert_eq!(
        render(&events),
        "<table><thead><tr><th align=\"left\">a</th><th align=\"center\">b</th></tr></thead><tbody>\n\
         <tr><td align=\"left\">c</td><td align=\"center\">d</td><td align=\"right\">e</td><td>f</td></tr>\n\
         </tbody></table>\n"
    );
}

#[test]
fn table_unaligned_column_and_row_reset() {
    let events = vec![
        Event::Start(Tag::Table(vec![Alignment::Unaligned, Alignment::Right])),
        Event::Start(Tag::TableRow),
        Event::Start(Tag::TableCell),
        Event::End(Tag::TableCell),
        Event::Start(Tag::TableCell),
        Event::End(Tag::TableCell),
        Event::End(Tag::TableRow),
        Event::Start(Tag::TableRow),
        Event::Start(Tag::TableCell),
        Event::End(Tag::TableCell),
        Event::End(Tag::TableRow),
    ];
    assert_eq!(
        render(&events),
        "<table><tr><th></th><th align=\"right\"></th></tr>\n<tr><th></th></tr>\n"
    );
}

#[test]
fn footnotes_are_numbered_in_order_of_first_appearance() {
    let events = vec![
        Event::Start(Tag::Paragraph),
        Event::Text(s("x")),
        Event::FootnoteReference(s("n")),
        Event::FootnoteReference(s("m")),
        Event::FootnoteReference(s("n")),
        Event::End(Tag::Paragraph),
        Event::Start(Tag::FootnoteDefinition(s("m"))),
        Event::Start(Tag::Paragraph),
        Event::Text(s("y")),
        Event::End(Tag::Paragraph),
        Event::End(Tag::FootnoteDefinition(s("m"))),
        Event::Start(Tag::FootnoteDefinition(s("k<"))),
        Event::End(Tag::FootnoteDefinition(s("k<"))),
    ];
    assert_eq!(
        render(&events),
        "<p>x<sup class=\"footnote-reference\"><a href=\"#n\">1</a></sup>\
         <sup class=\"footnote-reference\"><a href=\"#m\">2</a></sup>\
         <sup class=\"footnote-reference\"><a href=\"#n\">1</a></sup></p>\n\
         <div class=\"footnote-definition\" id=\"m\"><sup class=\"footnote-definition-label\">2</sup>\n\
         <p>y</p>\n</div>\n\
         <div class=\"footnote-definition\" id=\"k&lt;\"><sup class=\"footnote-definition-label\">3</sup></div>\n"
    );
}

#[test]
fn links() {
    let events = vec![
        Event::Start(Tag::Link(LinkType::Inline, s("https://a.b/c d"), s("T\"1"))),
        Event::Text(s("x")),
        Event::End(Tag::Link(LinkType::Inline, s("https://a.b/c d"), s("T\"1"))),
        Event::Start(Tag::Link(LinkType::Email, s("me@x.org"), s(""))),
        Event::Text(s("me@x.org")),
        Event::End(Tag::Link(LinkType::Email, s("me@x.org"), s(""))),
    ];
    assert_eq!(
        render(&events),
        "<a href=\"https://a.b/c%20d\" title=\"T&quot;1\">x</a><a href=\"mailto:me@x.org\">me@x.org</a>"
    );
}

#[test]
fn link_destination_bytes_are_percent_encoded() {
    let events = vec![Event::Start(Tag::Link(
        LinkType::Autolink,
        s("http://x.org/a b?q=1&r='\u{e9}'<>"),
        s(""),
    ))];
    assert_eq!(
        render(&events),
        "<a href=\"http://x.org/a%20b?q=1&amp;r=&#x27;%C3%A9&#x27;%3C%3E\">"
    );
}

#[test]
fn image_takes_its_alt_text_from_the_source() {
    let events = vec![
        Event::Start(Tag::Image(LinkType::Inline, s("i"), s(""))),
        Event::Text(s("skip")),
        Event::Start(Tag::Emphasis),
        Event::Text(s("e")),
        Event::End(Tag::Emphasis),
        Event::SoftBreak,
        Event::FootnoteReference(s("f")),
        Event::TaskListMarker(true),
        Event::TaskListMarker(false),
        Event::Code(s("<")),
        Event::End(Tag::Image(LinkType::Inline, s("i"), s(""))),
        Event::Text(s("z")),
    ];
    assert_eq!(render(&events), "<img src=\"i\" alt=\"skipe [1][x][ ]&lt;\" />z");
}

#[test]
fn image_alt_text_is_its_content() {
    let events = vec![
        Event::Start(Tag::Image(LinkType::Inline, s("i.png"), s("t"))),
        Event::Text(s("a")),
        Event::Text(s("b")),
        Event::End(Tag::Image(LinkType::Inline, s("i.png"), s("t"))),
    ];
    assert_eq!(render(&events), "<img src=\"i.png\" alt=\"ab\" title=\"t\" />");
}

#[test]
fn text_after_an_image_follows_it() {
    let image = Tag::Image(LinkType::Inline, s("a.png"), s(""));
    let events = vec![
        Event::Start(image.clone()),
        Event::Text(s("foo")),
        Event::End(image),
        Event::Text(s("bar")),
    ];
    assert_eq!(render(&events), "<img src=\"a.png\" alt=\"foo\" />bar");
}

#[test]
fn empty_image_in_a_paragraph() {
    let image = Tag::Image(LinkType::Inline, s("a.png"), s(""));
    let events = vec![
        Event::Start(Tag::Paragraph),
        Event::Start(image.clone()),
        Event::End(image),
        Event::Text(s("bar")),
        Event::End(Tag::Paragraph),
    ];
    assert_eq!(render(&events), "<p><img src=\"a.png\" alt=\"\" />bar</p>\n");
}

#[test]
fn image_at_the_end_of_the_source() {
    let events = vec![Event::Start(Tag::Image(LinkType::Inline, s("i"), s("")))];
    assert_eq!(render(&events), "<img src=\"i\" alt=\"\" />");
}

#[test]
fn write_html_manip_replaces_non_email_destinations() {
    let events = vec![
        Event::Start(Tag::Link(LinkType::Inline, s("x"), s(""))),
        Event::Text(s("t")),
        Event::End(Tag::Link(LinkType::Inline, s("x"), s(""))),
        Event::Start(Tag::Link(LinkType::Email, s("a@b"), s(""))),
        Event::End(Tag::Link(LinkType::Email, s("a@b"), s(""))),
        Event::Start(Tag::Link(LinkType::Reference, s("y z"), s(""))),
        Event::End(Tag::Link(LinkType::Reference, s("y z"), s(""))),
        Event::Start(Tag::Image(LinkType::Inline, s("img"), s(""))),
        Event::End(Tag::Image(LinkType::Inline, s("img"), s(""))),
    ];
    let mut bytes = Vec::new();
    write_html_manip(&mut bytes, &events, |d: &str| format!("/base/{}", d));
    assert_eq!(
        String::from_utf8(bytes).unwrap(),
        "<a href=\"/base/x\">t</a><a href=\"mailto:a@b\"></a><a href=\"/base/y%20z\"></a><img src=\"img\" alt=\"\" />"
    );
    assert_eq!(link_destinations(&events), vec![s("x"), s("y z")]);
}

#[test]
fn missing_replacement_keeps_the_destination() {
    let events = vec![
        Event::Start(Tag::Link(LinkType::Inline, s("a"), s(""))),
        Event::Start(Tag::Link(LinkType::Inline, s("b"), s(""))),
    ];
    let mut out = String::new();
    push_html_with_destinations(&mut out, &events, &[s("A")]);
    assert_eq!(out, "<a href=\"A\"><a href=\"b\">");
}

#[test]
fn identity_manipulation_changes_nothing() {
    let events = vec![
        Event::Start(Tag::Paragraph),
        Event::Start(Tag::Link(LinkType::Inline, s("q r"), s("t"))),
        Event::Text(s("x")),
        Event::End(Tag::Link(LinkType::Inline, s("q r"), s("t"))),
        Event::End(Tag::Paragraph),
    ];
    let mut plain = Vec::new();
    write_html(&mut plain, &events);
    let mut manip = Vec::new();
    write_html_manip(&mut manip, &events, |d: &str| d.to_string());
    assert_eq!(plain, manip);
    let mut with_dests = String::new();
    push_html_with_destinations(&mut with_dests, &events, &link_destinations(&events));
    assert_eq!(with_dests.as_bytes(), &plain[..]);
}

#[test]
fn written_bytes_decode_to_pushed_text() {
    let events = vec![Event::Text(s("h\u{e9}llo \u{1F600} <")), Event::SoftBreak];
    let mut bytes = Vec::new();
    write_html(&mut bytes, &events);
    assert_eq!(String::from_utf8(bytes).unwrap(), render(&events));
    assert_eq!(render(&events), "h\u{e9}llo \u{1F600} &lt;\n");
}

#[test]
fn text_document_is_its_escaped_texts() {
    let events = vec![Event::Text(s("a<")), Event::Text(s("")), Event::Text(s("b\n&c"))];
    assert_eq!(render(&events), "a&lt;b\n&amp;c");
}

#[test]
fn writer_with_replacements() {
    let events = vec![
        Event::Start(Tag::Link(LinkType::Shortcut, s("a"), s(""))),
        Event::End(Tag::Link(LinkType::Shortcut, s("a"), s(""))),
    ];
    let dests = vec![s("b&c")];
    let out = HtmlWriter::new_manip(&events, &dests).run();
    assert_eq!(out, "<a href=\"b&amp;c\"></a>");
}

#[test]
fn empty_text_keeps_the_newline_flag() {
    let events = vec![Event::Text(s("a\n")), Event::Text(s("")), Event::Start(Tag::Paragraph)];
    assert_eq!(render(&events), "a\n<p>");
    let after_tag = vec![Event::Start(Tag::Emphasis), Event::Text(s("")), Event::Start(Tag::Item)];
    assert_eq!(render(&after_tag), "<em>\n<li>");
    let html = vec![Event::Text(s("a\n")), Event::Html(s("")), Event::Start(Tag::Paragraph)];
    assert_eq!(render(&html), "a\n<p>");
}

#[test]
fn newline_flag_follows_tags() {
    let events = vec![
        Event::Start(Tag::Emphasis),
        Event::Start(Tag::Paragraph),
        Event::End(Tag::Paragraph),
        Event::Start(Tag::Item),
        Event::End(Tag::Emphasis),
        Event::Start(Tag::BlockQuote),
    ];
    assert_eq!(render(&events), "<em>\n<p></p>\n<li></em>\n<blockquote>\n");
}
