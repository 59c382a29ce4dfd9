use vstd::prelude::*;

verus! {

/// Alignment of a table column.
#[derive(Clone, Copy, Debug, PartialEq, Eq)]
pub enum Alignment {
    /// No alignment given for the column.
    Unaligned,
    Left,
    Center,
    Right,
}

/// How a link or image destination was written in the source.
#[derive(Clone, Copy, Debug, PartialEq, Eq)]
pub enum LinkType {
    Inline,
    Reference,
    ReferenceUnknown,
    Collapsed,
    CollapsedUnknown,
    Shortcut,
    ShortcutUnknown,
    Autolink,
    Email,
}

/// Kind of a code block: indented, or fenced with its info string.
#[derive(Clone, Debug)]
pub enum CodeBlockKind {
    Indented,
    Fenced(String),
}

/// A tag that opens (`Event::Start`) or closes (`Event::End`) a container.
#[derive(Clone, Debug)]
pub enum Tag {
    Paragraph,
    /// A heading with its level.
    Heading(u32),
    BlockQuote,
    CodeBlock(CodeBlockKind),
    /// A list, ordered with its first number when `Some`.
    List(Option<u64>),
    Item,
    /// A footnote definition with its label.
    FootnoteDefinition(String),
    /// A table with the alignment of each column.
    Table(Vec<Alignment>),
    TableHead,
    TableRow,
    TableCell,
    Emphasis,
    Strong,
    Strikethrough,
    /// A link: kind, destination and title.
    Link(LinkType, String, String),
    /// An image: kind, source and title. Its content is the alternative text.
    Image(LinkType, String, String),
}

/// One event of a parsed document, in document order.
#[derive(Clone, Debug)]
pub enum Event {
    Start(Tag),
    End(Tag),
    Text(String),
    Code(String),
    Html(String),
    FootnoteReference(String),
    SoftBreak,
    HardBreak,
    Rule,
    TaskListMarker(bool),
}

} // verus!
