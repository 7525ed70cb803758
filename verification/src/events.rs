//! The markup events that the conversion consumes, and the flattening of a
//! nested range of events into plain text.

use vstd::prelude::*;

verus! {

/// How a block of code was written in the source.
#[derive(Debug, PartialEq, Clone)]
pub enum CodeBlockKind {
    /// Indented by four spaces: the language is not known.
    Indented,
    /// Fenced, with the language written after the opening fence.
    Fenced(String),
}

/// The value of a [`CodeBlockKind`].
pub enum CodeBlockKindView {
    Indented,
    Fenced(Seq<char>),
}

impl CodeBlockKindView {
    /// The language of the block: the one on the fence, or plain text.
    pub open spec fn language(self) -> Seq<char> {
        match self {
            CodeBlockKindView::Indented => "plain_text"@,
            CodeBlockKindView::Fenced(language) => language,
        }
    }
}

impl View for CodeBlockKind {
    type V = CodeBlockKindView;

    open spec fn view(&self) -> CodeBlockKindView {
        match self {
            CodeBlockKind::Indented => CodeBlockKindView::Indented,
            CodeBlockKind::Fenced(language) => CodeBlockKindView::Fenced(language@),
        }
    }
}

/// The kind of element that a start or an end event speaks of.
#[derive(Debug, PartialEq, Clone)]
pub enum Tag {
    Paragraph,
    /// A heading with its level.
    Heading(u32),
    BlockQuote,
    CodeBlock(CodeBlockKind),
    /// A list, and whether it is ordered.
    List(bool),
    Item,
    FootnoteDefinition,
    Table,
    TableHead,
    TableRow,
    TableCell,
    Emphasis,
    Strong,
    Strikethrough,
    /// A link with its target and its title.
    Link(String, String),
    /// An image with its reference and its title.
    Image(String, String),
}

/// The value of a [`Tag`].
pub enum TagView {
    Paragraph,
    Heading(u32),
    BlockQuote,
    CodeBlock(CodeBlockKindView),
    List(bool),
    Item,
    FootnoteDefinition,
    Table,
    TableHead,
    TableRow,
    TableCell,
    Emphasis,
    Strong,
    Strikethrough,
    Link(Seq<char>, Seq<char>),
    Image(Seq<char>, Seq<char>),
}

impl View for Tag {
    type V = TagView;

    open spec fn view(&self) -> TagView {
        match self {
            Tag::Paragraph => TagView::Paragraph,
            Tag::Heading(level) => TagView::Heading(*level),
            Tag::BlockQuote => TagView::BlockQuote,
            Tag::CodeBlock(kind) => TagView::CodeBlock(kind@),
            Tag::List(ordered) => TagView::List(*ordered),
            Tag::Item => TagView::Item,
            Tag::FootnoteDefinition => TagView::FootnoteDefinition,
            Tag::Table => TagView::Table,
            Tag::TableHead => TagView::TableHead,
            Tag::TableRow => TagView::TableRow,
            Tag::TableCell => TagView::TableCell,
            Tag::Emphasis => TagView::Emphasis,
            Tag::Strong => TagView::Strong,
            Tag::Strikethrough => TagView::Strikethrough,
            Tag::Link(href, title) => TagView::Link(href@, title@),
            Tag::Image(href, title) => TagView::Image(href@, title@),
        }
    }
}

/// One event of the markup stream.
#[derive(Debug, PartialEq, Clone)]
pub enum Event {
    Start(Tag),
    End(Tag),
    Text(String),
    Code(String),
    Html(String),
    FootnoteReference,
    SoftBreak,
    HardBreak,
    Rule,
    TaskListMarker,
}

/// The value of an [`Event`].
pub enum EventView {
    Start(TagView),
    End(TagView),
    Text(Seq<char>),
    Code(Seq<char>),
    Html(Seq<char>),
    FootnoteReference,
    SoftBreak,
    HardBreak,
    Rule,
    TaskListMarker,
}

impl View for Event {
    type V = EventView;

    open spec fn view(&self) -> EventView {
        match self {
            Event::Start(tag) => EventView::Start(tag@),
            Event::End(tag) => EventView::End(tag@),
            Event::Text(text) => EventView::Text(text@),
            Event::Code(code) => EventView::Code(code@),
            Event::Html(html) => EventView::Html(html@),
            Event::FootnoteReference => EventView::FootnoteReference,
            Event::SoftBreak => EventView::SoftBreak,
            Event::HardBreak => EventView::HardBreak,
            Event::Rule => EventView::Rule,
            Event::TaskListMarker => EventView::TaskListMarker,
        }
    }
}

impl DeepView for Event {
    type V = EventView;

    open spec fn deep_view(&self) -> EventView {
        self@
    }
}

/// What an inner range of events flattens to, and where it ends.
pub struct Inner {
    /// The text of the range.
    pub text: Seq<char>,
    /// The place of the first event after the range.
    pub next: int,
}

impl EventView {
    /// What one event adds to the text of an inner range: its own text, a
    /// single space for a break or a rule, nothing otherwise.
    pub open spec fn flat_text(self) -> Seq<char> {
        match self {
            EventView::Html(text) => text,
            EventView::Code(text) => text,
            EventView::Text(text) => text,
            EventView::SoftBreak => seq![' '],
            EventView::HardBreak => seq![' '],
            EventView::Rule => seq![' '],
            _ => Seq::empty(),
        }
    }

    /// The nesting depth after this event, when it was `nest` before it.
    pub open spec fn nest_after(self, nest: nat) -> nat {
        match self {
            EventView::Start(_) => nest + 1,
            EventView::End(_) => (nest - 1) as nat,
            _ => nest,
        }
    }
}

/// The inner range that starts at `start`, `nest` elements deep: it runs up
/// to and including the end event that closes the element around it (an end
/// at depth zero), or to the end of the stream where no such event comes. Its
/// text is the events' flat text, in order.
pub open spec fn inner(events: Seq<EventView>, start: int, nest: nat) -> Inner
    decreases events.len() - start,
{
    if start < 0 || start >= events.len() {
        Inner { text: Seq::empty(), next: start }
    } else if events[start] is End && nest == 0 {
        Inner { text: Seq::empty(), next: start + 1 }
    } else {
        let rest = inner(events, start + 1, events[start].nest_after(nest));
        Inner { text: events[start].flat_text() + rest.text, next: rest.next }
    }
}

/// An inner range ends after its start and within the stream.
pub proof fn lemma_inner_bounds(events: Seq<EventView>, start: int, nest: nat)
    requires
        0 <= start <= events.len(),
    ensures
        start <= inner(events, start, nest).next <= events.len(),
        start < events.len() ==> start < inner(events, start, nest).next,
    decreases events.len() - start,
{
    if start < events.len() && !(events[start] is End && nest == 0) {
        lemma_inner_bounds(events, start + 1, events[start].nest_after(nest));
    }
}

} // verus!
