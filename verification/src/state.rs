//! The conversion as mathematics: the state of the writer, what each event
//! does to it, and what a whole stream of events converts to.

use vstd::prelude::*;
use crate::document::{BlockView, ListItemType, MarkDefView, PictureView, SpanView};
use crate::events::{inner, lemma_inner_bounds, EventView, TagView};
use crate::keys::{is_key, no_longer_than_needed, KEY_LENGTH};
use crate::marks::Mark;
use crate::resolver::Options;
use crate::text::decimal;

verus! {

/// Why a conversion failed, and at which event of the stream.
#[derive(Debug, PartialEq, Eq, Clone, Copy, Structural)]
pub enum ConversionError {
    /// An end event closes a mark or a list that is not open, or an item
    /// starts outside any list.
    StructuralImbalance { position: usize },
    /// The end of a link finds no definition with its target in the open block.
    UnresolvedMarkReference { position: usize },
}

/// What the writer holds between two events.
pub struct State {
    /// The blocks written so far.
    pub blocks: Seq<BlockView>,
    /// Whether the last block still takes spans and mark definitions.
    pub open: bool,
    /// The kinds of the lists that are open, the outermost first.
    pub lists: Seq<ListItemType>,
    /// The marks that are active, the outermost first.
    pub marks: Seq<Mark>,
}

/// What came from outside while one event was handled: a key, and for an
/// image what the resolver returned.
pub struct Draw {
    pub key: Seq<char>,
    pub src: Seq<char>,
    pub picture: PictureView,
}

/// The state after one event, or the error, and the place of the next event.
pub struct Step {
    pub result: Result<State, ConversionError>,
    pub next: int,
}

/// The style of a heading: the letter h and the level in decimal.
pub open spec fn heading_style(level: u32) -> Seq<char> {
    seq!['h'] + decimal(level as nat)
}

/// The kind of list that a list tag opens.
pub open spec fn list_kind(ordered: bool) -> ListItemType {
    if ordered {
        ListItemType::Numbered
    } else {
        ListItemType::Bullit
    }
}

/// Whether a definition is a link to the given target.
pub open spec fn links_to(def: MarkDefView, href: Seq<char>) -> bool {
    def matches MarkDefView::Link { href: target, .. } && target == href
}

/// For each definition, whether it is a link to the given target.
pub open spec fn link_hits(defs: Seq<MarkDefView>, href: Seq<char>) -> Seq<bool> {
    Seq::new(defs.len(), |i: int| links_to(defs[i], href))
}

/// The key of the first link to `href` among the definitions.
pub open spec fn link_key(defs: Seq<MarkDefView>, href: Seq<char>) -> Option<Seq<char>> {
    match link_hits(defs, href).index_of_first(true) {
        Some(index) => Some(defs[index].key()),
        None => None,
    }
}

impl State {
    /// The state before the first event.
    pub open spec fn initial() -> State {
        State { blocks: Seq::empty(), open: false, lists: Seq::empty(), marks: Seq::empty() }
    }

    /// Whether there is a block that takes spans and mark definitions.
    pub open spec fn has_open_block(self) -> bool {
        self.open && self.blocks.len() > 0
    }

    /// The open block.
    pub open spec fn current(self) -> BlockView
        recommends
            self.has_open_block(),
    {
        self.blocks.last()
    }

    /// The state with `block` in place of the last block.
    pub open spec fn replace_current(self, block: BlockView) -> State
        recommends
            self.blocks.len() > 0,
    {
        State { blocks: self.blocks.update(self.blocks.len() - 1, block), ..self }
    }

    /// Appends a block and opens it.
    pub open spec fn write(self, block: BlockView) -> State {
        State { blocks: self.blocks.push(block), open: true, ..self }
    }

    /// Appends a block of code. It is sealed at once: its end is part of the
    /// inner range that is its body.
    pub open spec fn write_code(self, language: Seq<char>, code: Seq<char>) -> State {
        self.write(BlockView::code_block(language, code)).close_block()
    }

    /// Opens a paragraph unless a block is open already.
    pub open spec fn open_paragraph(self) -> State {
        if self.open {
            self
        } else {
            self.write(BlockView::prose("normal"@))
        }
    }

    /// Seals the open block. Its content stays.
    pub open spec fn close_block(self) -> State {
        State { open: false, ..self }
    }

    /// Appends a span of the given kind, carrying the active marks, to the
    /// open block. Without an open block nothing changes.
    pub open spec fn add_span_with_type(self, text: Seq<char>, kind: Seq<char>) -> State {
        if self.has_open_block() {
            let span = SpanView { kind, text, marks: self.marks };
            self.replace_current(
                BlockView { children: self.current().children.push(span), ..self.current() },
            )
        } else {
            self
        }
    }

    /// Appends an ordinary span.
    pub open spec fn add_span(self, text: Seq<char>) -> State {
        self.add_span_with_type(text, "span"@)
    }

    /// Whether the open block has a span.
    pub open spec fn has_last_span(self) -> bool {
        self.has_open_block() && self.current().children.len() > 0
    }

    /// The last span of the open block.
    pub open spec fn last_span(self) -> SpanView
        recommends
            self.has_last_span(),
    {
        self.current().children.last()
    }

    /// Extends the text of the last span of the open block. Without such a
    /// span nothing changes.
    pub open spec fn add_text(self, suffix: Seq<char>) -> State {
        if self.has_last_span() {
            let spans = self.current().children;
            let span = SpanView { text: self.last_span().text + suffix, ..self.last_span() };
            self.replace_current(
                BlockView { children: spans.update(spans.len() - 1, span), ..self.current() },
            )
        } else {
            self
        }
    }

    /// Whether a text event extends the last span: no mark is active, and the
    /// last span of the open block has none either.
    pub open spec fn merges_text(self) -> bool {
        self.marks.len() == 0 && self.has_last_span() && self.last_span().marks.len() == 0
    }

    /// A text event: the text extends the last span where it merges, and is a
    /// span of its own otherwise.
    pub open spec fn text(self, text: Seq<char>) -> State {
        if self.merges_text() {
            self.add_text(text)
        } else {
            self.add_span(text)
        }
    }

    /// A soft break: one space after the text of the last span.
    pub open spec fn soft_break(self) -> State {
        self.add_text(seq![' '])
    }

    /// Registers a mark definition with the open block. Without an open
    /// block nothing changes.
    pub open spec fn add_mark_def(self, def: MarkDefView) -> State {
        if self.has_open_block() {
            self.replace_current(
                BlockView { mark_defs: self.current().mark_defs.push(def), ..self.current() },
            )
        } else {
            self
        }
    }

    /// Makes a mark active, inside all that are active already.
    pub open spec fn mark_start(self, mark: Mark) -> State {
        State { marks: self.marks.push(mark), ..self }
    }

    /// Takes the first active mark that equals `mark` out of the active
    /// marks, whatever was started after it. The others keep their order.
    pub open spec fn mark_stop(self, mark: Mark) -> Option<State> {
        if self.marks.contains(mark) {
            Some(State { marks: self.marks.remove_value(mark), ..self })
        } else {
            None
        }
    }

    /// Appends a span that carries `mark` inside the active marks, and leaves
    /// the active marks without the first that equals `mark`: as they were,
    /// where `mark` was not active before.
    pub open spec fn add_marked_span(self, mark: Mark, text: Seq<char>, kind: Seq<char>) -> State {
        let written = self.mark_start(mark).add_span_with_type(text, kind);
        State { marks: written.marks.remove_value(mark), ..written }
    }

    /// An inline code event: a span of its own that carries the code mark.
    pub open spec fn inline_code(self, code: Seq<char>) -> State {
        self.add_marked_span(Mark::Code, code, "span"@)
    }

    /// The start of a link: its definition goes to the open block, and its
    /// reference becomes active.
    pub open spec fn start_link(self, key: Seq<char>, href: Seq<char>) -> State {
        self.add_mark_def(MarkDefView::link(key, href)).mark_start(Mark::LinkReference(key))
    }

    /// An image: its definition goes to the open block, and its alternative
    /// text becomes a figure span that carries the reference to it. Without
    /// an open block nothing changes.
    pub open spec fn image(
        self,
        key: Seq<char>,
        src: Seq<char>,
        picture: PictureView,
        title: Seq<char>,
        alt: Seq<char>,
    ) -> State {
        if self.has_open_block() {
            self.add_mark_def(MarkDefView::image(key, src, picture, title)).add_marked_span(
                Mark::AssetReference(key),
                alt,
                "figure"@,
            )
        } else {
            self
        }
    }

    /// The start of a list: one more list is open.
    pub open spec fn start_list(self, ordered: bool) -> State {
        State { lists: self.lists.push(list_kind(ordered)), ..self }
    }

    /// The start of a list item: a block at the depth of the open lists, of
    /// the kind of the innermost.
    pub open spec fn start_item(self) -> Option<State> {
        if self.lists.len() > 0 {
            Some(self.write(BlockView::list_entry(self.lists.len(), self.lists.last())))
        } else {
            None
        }
    }

    /// The end of a list: the innermost list is closed.
    pub open spec fn end_list(self) -> Option<State> {
        if self.lists.len() > 0 {
            Some(State { lists: self.lists.drop_last(), ..self })
        } else {
            None
        }
    }

    /// The key of the first link to `href` that the open block defines.
    pub open spec fn open_link_key(self, href: Seq<char>) -> Option<Seq<char>> {
        if self.has_open_block() {
            link_key(self.current().mark_defs, href)
        } else {
            None
        }
    }

    /// The end of a mark at the event `position`.
    pub open spec fn stop(self, mark: Mark, position: int) -> Result<State, ConversionError> {
        match self.mark_stop(mark) {
            Some(state) => Ok(state),
            None => Err(ConversionError::StructuralImbalance { position: position as usize }),
        }
    }

    /// What the start of `tag` at the event `position` does. A block of code
    /// and an image take the inner range after them, and the end event that
    /// closes it, with them.
    pub open spec fn start_tag(
        self,
        events: Seq<EventView>,
        position: int,
        tag: TagView,
        draw: Draw,
    ) -> Step {
        let after = position + 1;
        match tag {
            TagView::Paragraph => Step { result: Ok(self.open_paragraph()), next: after },
            TagView::BlockQuote => Step {
                result: Ok(self.write(BlockView::prose("blockquote"@))),
                next: after,
            },
            TagView::CodeBlock(kind) => {
                let body = inner(events, after, 0);
                Step {
                    result: Ok(self.write_code(kind.language(), body.text)),
                    next: body.next,
                }
            },
            TagView::Heading(level) => Step {
                result: Ok(self.write(BlockView::prose(heading_style(level)))),
                next: after,
            },
            TagView::List(ordered) => Step { result: Ok(self.start_list(ordered)), next: after },
            TagView::Item => Step {
                result: match self.start_item() {
                    Some(state) => Ok(state),
                    None => Err(
                        ConversionError::StructuralImbalance { position: position as usize },
                    ),
                },
                next: after,
            },
            TagView::Link(href, _) => Step {
                result: Ok(self.start_link(draw.key, href)),
                next: after,
            },
            TagView::Image(_, title) => {
                let alt = inner(events, after, 0);
                Step {
                    result: Ok(self.image(draw.key, draw.src, draw.picture, title, alt.text)),
                    next: alt.next,
                }
            },
            TagView::Strong => Step { result: Ok(self.mark_start(Mark::Strong)), next: after },
            TagView::Emphasis => Step { result: Ok(self.mark_start(Mark::Emphasis)), next: after },
            TagView::Strikethrough => Step {
                result: Ok(self.mark_start(Mark::Strike)),
                next: after,
            },
            _ => Step { result: Ok(self), next: after },
        }
    }

    /// What the end of `tag` at the event `position` does.
    pub open spec fn end_tag(self, position: int, tag: TagView) -> Result<State, ConversionError> {
        match tag {
            TagView::Strong => self.stop(Mark::Strong, position),
            TagView::Emphasis => self.stop(Mark::Emphasis, position),
            TagView::Strikethrough => self.stop(Mark::Strike, position),
            TagView::Link(href, _) => match self.open_link_key(href) {
                Some(key) => self.stop(Mark::LinkReference(key), position),
                None => Err(
                    ConversionError::UnresolvedMarkReference { position: position as usize },
                ),
            },
            TagView::List(_) => match self.end_list() {
                Some(state) => Ok(state),
                None => Err(ConversionError::StructuralImbalance { position: position as usize }),
            },
            TagView::FootnoteDefinition => Ok(self),
            TagView::Table => Ok(self),
            TagView::TableHead => Ok(self),
            TagView::TableRow => Ok(self),
            TagView::TableCell => Ok(self),
            _ => Ok(self.close_block()),
        }
    }

    /// What the event at `position` does.
    pub open spec fn dispatch(self, events: Seq<EventView>, position: int, draw: Draw) -> Step
        recommends
            0 <= position < events.len(),
    {
        let after = position + 1;
        match events[position] {
            EventView::Start(tag) => self.start_tag(events, position, tag, draw),
            EventView::End(tag) => Step { result: self.end_tag(position, tag), next: after },
            EventView::Text(text) => Step { result: Ok(self.text(text)), next: after },
            EventView::Code(code) => Step { result: Ok(self.inline_code(code)), next: after },
            EventView::SoftBreak => Step { result: Ok(self.soft_break()), next: after },
            _ => Step { result: Ok(self), next: after },
        }
    }

    /// Whether `key` can be given to a new definition: it is a key, the
    /// open block has no definition with it, and it is no longer than it has
    /// to be for that.
    pub open spec fn accepts_key(self, key: Seq<char>) -> bool {
        &&& is_key(key)
        &&& if self.has_open_block() {
            !self.current().defines(key) && no_longer_than_needed(self.current().mark_defs, key)
        } else {
            key.len() == KEY_LENGTH
        }
    }

    /// Whether `draw` is what can come from outside while the event at
    /// `position` is handled: for a link a key that the open block does not
    /// use yet; for an image such a key, and what the resolver can return for
    /// its reference and its alternative text.
    pub open spec fn allows(
        self,
        options: Options<'_>,
        events: Seq<EventView>,
        position: int,
        draw: Draw,
    ) -> bool
        recommends
            0 <= position < events.len(),
    {
        match events[position] {
            EventView::Start(TagView::Link(_, _)) => self.accepts_key(draw.key),
            EventView::Start(TagView::Image(href, _)) => {
                &&& self.accepts_key(draw.key)
                &&& options.asset_resolver.may_resolve_to(href, draw.src)
                &&& options.asset_resolver.may_describe(
                    href,
                    inner(events, position + 1, 0).text,
                    draw.picture,
                )
            },
            _ => true,
        }
    }
}

/// The state after as many events of the stream as there are draws, one
/// draw for each event that is dispatched, starting with the event at
/// `start` in the state `state`. An error ends the conversion, and so does
/// the end of the stream.
pub open spec fn convert(state: State, events: Seq<EventView>, start: int, draws: Seq<Draw>) -> Step
    decreases draws.len(),
{
    if draws.len() == 0 {
        Step { result: Ok(state), next: start }
    } else {
        let before = convert(state, events, start, draws.drop_last());
        match before.result {
            Ok(reached) => if before.next < events.len() {
                reached.dispatch(events, before.next, draws.last())
            } else {
                before
            },
            Err(_) => before,
        }
    }
}

/// Whether each draw is one that the state it is used in allows.
pub open spec fn allowed(
    options: Options<'_>,
    state: State,
    events: Seq<EventView>,
    start: int,
    draws: Seq<Draw>,
) -> bool
    decreases draws.len(),
{
    if draws.len() == 0 {
        true
    } else {
        let before = convert(state, events, start, draws.drop_last());
        &&& allowed(options, state, events, start, draws.drop_last())
        &&& match before.result {
            Ok(reached) => before.next < events.len() ==> reached.allows(
                options,
                events,
                before.next,
                draws.last(),
            ),
            Err(_) => true,
        }
    }
}

/// Whether `outcome` is what the events from `start` on convert to in the
/// state `state`, with the given draws: the blocks after the last event, or
/// the first error.
pub open spec fn converts_to(
    options: Options<'_>,
    state: State,
    events: Seq<EventView>,
    start: int,
    draws: Seq<Draw>,
    outcome: Result<Seq<BlockView>, ConversionError>,
) -> bool {
    let end = convert(state, events, start, draws);
    &&& allowed(options, state, events, start, draws)
    &&& match end.result {
        Ok(reached) => end.next >= events.len() && outcome == Ok::<
            Seq<BlockView>,
            ConversionError,
        >(reached.blocks),
        Err(error) => outcome == Err::<Seq<BlockView>, ConversionError>(error),
    }
}

/// Every event moves the conversion forward, and never past the end of the
/// stream.
pub proof fn lemma_dispatch_advances(
    state: State,
    events: Seq<EventView>,
    position: int,
    draw: Draw,
)
    requires
        0 <= position < events.len(),
    ensures
        position < state.dispatch(events, position, draw).next <= events.len(),
{
    lemma_inner_bounds(events, position + 1, 0);
}

/// Whether `after` and `pushed` are what converting `events` leaves of the
/// blocks `before`: on success the blocks of the events after the blocks that
/// were there, on failure the first error and the blocks as they were.
pub open spec fn pushes(
    options: Options<'_>,
    events: Seq<EventView>,
    draws: Seq<Draw>,
    before: Seq<BlockView>,
    after: Seq<BlockView>,
    pushed: Result<(), ConversionError>,
) -> bool {
    match pushed {
        Ok(_) => {
            &&& before.len() <= after.len()
            &&& after.take(before.len() as int) == before
            &&& converts_to(
                options,
                State::initial(),
                events,
                0,
                draws,
                Ok(after.skip(before.len() as int)),
            )
        },
        Err(error) => {
            &&& after == before
            &&& converts_to(options, State::initial(), events, 0, draws, Err(error))
        },
    }
}

} // verus!
