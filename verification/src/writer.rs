//! The writer: it walks the events once and builds the blocks.

use vstd::prelude::*;
use vstd::string::StringExecFns;
use crate::document::{
    all_well_shaped, BlockNode, BlockView, ListItemType, MarkDef, MarkDefImage, MarkDefLink,
    Picture, SpanNode,
};
use crate::events::{inner, lemma_inner_bounds, CodeBlockKind, Event, EventView, Tag};
use crate::keys::{fresh_key, random_key};
use crate::laws::lemma_blocks_well_shaped;
use crate::marks::{copy_marks, position_of, Decorators, Mark};
use crate::resolver::{AssetReferenceResolver, Options};
use crate::state::{
    allowed, convert, converts_to, heading_style, lemma_dispatch_advances, link_hits, pushes,
    ConversionError, Draw, State, Step,
};
use crate::text::decimal_string;

verus! {

/// The value of what a conversion returns: the blocks, or the error.
pub open spec fn written(blocks: Result<Vec<BlockNode>, ConversionError>) -> Result<
    Seq<BlockView>,
    ConversionError,
> {
    match blocks {
        Ok(blocks) => Ok(blocks.deep_view()),
        Err(error) => Err(error),
    }
}

/// Walks a stream of events and builds the blocks that it converts to.
pub struct PortabletextWriter<'a> {
    /// The events, and the place of the next one to take.
    iter: &'a [Event],
    position: usize,
    /// The blocks written so far, and whether the last of them is open.
    writer: Vec<BlockNode>,
    open_block: bool,
    /// The kinds of the open lists, the outermost first, and their number.
    active_list_item: Vec<ListItemType>,
    list_item_level: usize,
    /// The active decorators, the outermost first.
    active_markers: Vec<Decorators>,
    options: Options<'a>,
}

impl<'a> PortabletextWriter<'a> {
    /// What the writer holds: the blocks, whether the last is open, the open
    /// lists and the active marks.
    pub closed spec fn state(&self) -> State {
        State {
            blocks: self.writer.deep_view(),
            open: self.open_block,
            lists: self.active_list_item@,
            marks: self.active_markers.deep_view(),
        }
    }

    /// The stream that the writer walks.
    pub closed spec fn events(&self) -> Seq<EventView> {
        self.iter.deep_view()
    }

    /// The place of the next event that the writer takes.
    pub closed spec fn position(&self) -> int {
        self.position as int
    }

    /// The options that the writer was made with.
    pub closed spec fn options(&self) -> Options<'a> {
        self.options
    }

    /// The writer's invariant: the level counts the open lists, an open
    /// block exists, and the place is within the stream.
    pub closed spec fn wf(&self) -> bool {
        &&& self.list_item_level == self.active_list_item.len()
        &&& self.open_block ==> self.writer.len() > 0
        &&& self.position <= self.iter.len()
    }

    /// Whether `self` is `before` but for its state, which is `state`.
    spec fn reached(&self, before: &Self, state: State) -> bool {
        &&& self.wf()
        &&& self.state() == state
        &&& self.events() == before.events()
        &&& self.position() == before.position()
        &&& self.options() == before.options()
    }

    /// A writer at the start of `iter`, with nothing written.
    pub fn new(iter: &'a [Event], options: Options<'a>) -> (writer: Self)
        ensures
            writer.wf(),
            writer.state() == State::initial(),
            writer.events() == iter.deep_view(),
            writer.position() == 0,
            writer.options() == options,
    {
        let writer = PortabletextWriter {
            iter,
            position: 0,
            writer: Vec::new(),
            options,
            open_block: false,
            active_markers: Vec::with_capacity(3),
            active_list_item: Vec::with_capacity(5),
            list_item_level: 0,
        };
        assert(writer.state().blocks =~= Seq::empty());
        assert(writer.state().marks =~= Seq::empty());
        writer
    }

    /// Appends a block and opens it.
    fn write(&mut self, block: BlockNode)
        requires
            old(self).wf(),
        ensures
            final(self).reached(old(self), old(self).state().write(block@)),
    {
        self.open_block = true;
        self.writer.push(block);
        assert(self.writer.deep_view() =~= old(self).writer.deep_view().push(block@));
    }

    /// Seals the open block.
    fn close_block(&mut self)
        requires
            old(self).wf(),
        ensures
            final(self).reached(old(self), old(self).state().close_block()),
    {
        self.open_block = false;
    }

    /// Whether the two writers agree in all but their blocks.
    spec fn differs_in_blocks_only(&self, other: &Self) -> bool {
        &&& self.iter == other.iter
        &&& self.position == other.position
        &&& self.open_block == other.open_block
        &&& self.active_list_item == other.active_list_item
        &&& self.list_item_level == other.list_item_level
        &&& self.active_markers == other.active_markers
        &&& self.options == other.options
    }

    /// Whether the two writers agree in everything.
    spec fn same_as(&self, other: &Self) -> bool {
        self.differs_in_blocks_only(other) && self.writer@ =~= other.writer@
    }

    /// The open block.
    fn last_block(&mut self) -> (block: Option<&mut BlockNode>)
        requires
            old(self).wf(),
        ensures
            match block {
                Some(block) => {
                    &&& old(self).state().has_open_block()
                    &&& *block == old(self).writer@.last()
                    &&& final(self).writer@ == old(self).writer@.update(
                        old(self).writer@.len() - 1,
                        *final(block),
                    )
                    &&& final(self).differs_in_blocks_only(old(self))
                },
                None => !old(self).state().has_open_block() && final(self).same_as(old(self)),
            },
    {
        if self.open_block && self.writer.len() > 0 {
            let last = self.writer.len() - 1;
            Some(&mut self.writer[last])
        } else {
            None
        }
    }

    /// The last span of the open block.
    fn last_span(&mut self) -> (span: Option<&mut SpanNode>)
        requires
            old(self).wf(),
        ensures
            match span {
                Some(span) => {
                    let last = old(self).writer@.len() - 1;
                    let spans = old(self).writer@.last().children@;
                    &&& old(self).state().has_last_span()
                    &&& *span == spans.last()
                    &&& final(self).writer@.len() == old(self).writer@.len()
                    &&& forall|i: int|
                        0 <= i < last ==> final(self).writer@[i] == old(self).writer@[i]
                    &&& final(self).writer@[last].children@ == spans.update(
                        spans.len() - 1,
                        *final(span),
                    )
                    &&& final(self).writer@[last]._type == old(self).writer@[last]._type
                    &&& final(self).writer@[last].style == old(self).writer@[last].style
                    &&& final(self).writer@[last].mark_defs == old(self).writer@[last].mark_defs
                    &&& final(self).writer@[last].level == old(self).writer@[last].level
                    &&& final(self).writer@[last].list_item == old(self).writer@[last].list_item
                    &&& final(self).writer@[last].language == old(self).writer@[last].language
                    &&& final(self).writer@[last].code == old(self).writer@[last].code
                    &&& final(self).differs_in_blocks_only(old(self))
                },
                None => !old(self).state().has_last_span() && final(self).same_as(old(self)),
            },
    {
        match self.last_block() {
            Some(last_block) => {
                let last_block_children_length = last_block.children.len();
                if last_block_children_length == 0 {
                    None
                } else {
                    Some(&mut last_block.children[last_block_children_length - 1])
                }
            },
            None => None,
        }
    }

    /// Extends the text of the last span of the open block.
    fn add_text(&mut self, text: &str)
        requires
            old(self).wf(),
        ensures
            final(self).reached(old(self), old(self).state().add_text(text@)),
    {
        if let Some(last_span) = self.last_span() {
            last_span.text.append(text);
        }
        proof {
            if old(self).state().has_last_span() {
                let last = old(self).writer@.len() - 1;
                let spans = old(self).writer@[last].children;
                assert(self.writer@[last].children.deep_view() =~= spans.deep_view().update(
                    spans@.len() - 1,
                    self.writer@[last].children@.last()@,
                ));
            }
            assert(self.writer.deep_view() =~= old(self).state().add_text(text@).blocks);
        }
    }

    /// Appends an ordinary span with the active marks to the open block.
    fn add_span(&mut self, text: String)
        requires
            old(self).wf(),
        ensures
            final(self).reached(old(self), old(self).state().add_span(text@)),
    {
        self.add_span_with_type(text, "span".to_owned())
    }

    /// Appends a span of the given kind with the active marks to the open
    /// block.
    fn add_span_with_type(&mut self, text: String, _type: String)
        requires
            old(self).wf(),
        ensures
            final(self).reached(old(self), old(self).state().add_span_with_type(text@, _type@)),
    {
        let marks = copy_marks(&self.active_markers);
        let ghost span = SpanNode { _type, text, marks };
        if let Some(current_node) = self.last_block() {
            current_node.children.push(SpanNode { _type, text, marks });
        }
        proof {
            if old(self).state().has_open_block() {
                let last = old(self).writer@.len() - 1;
                assert(self.writer@[last].children.deep_view() =~= old(
                    self,
                ).writer@[last].children.deep_view().push(span@));
            }
            assert(self.writer.deep_view() =~= old(self).state().add_span_with_type(
                text@,
                _type@,
            ).blocks);
        }
    }

    /// Registers a mark definition with the open block.
    fn add_mark_def(&mut self, mark_def: MarkDef)
        requires
            old(self).wf(),
        ensures
            final(self).reached(old(self), old(self).state().add_mark_def(mark_def@)),
    {
        if let Some(last_block) = self.last_block() {
            last_block.mark_defs.push(mark_def);
        }
        proof {
            if old(self).state().has_open_block() {
                let last = old(self).writer@.len() - 1;
                assert(self.writer@[last].mark_defs.deep_view() =~= old(
                    self,
                ).writer@[last].mark_defs.deep_view().push(mark_def@));
            }
            assert(self.writer.deep_view() =~= old(self).state().add_mark_def(mark_def@).blocks);
        }
    }

    /// Makes a decorator active.
    fn mark_start(&mut self, decorator: Decorators)
        requires
            old(self).wf(),
        ensures
            final(self).reached(old(self), old(self).state().mark_start(decorator@)),
    {
        self.active_markers.push(decorator);
        assert(self.active_markers.deep_view() =~= old(self).active_markers.deep_view().push(
            decorator@,
        ));
    }

    /// Takes the first active decorator that equals `decorator` out of the
    /// active ones. Fails where none does.
    fn mark_stop(&mut self, decorator: &Decorators) -> (stopped: Result<(), ConversionError>)
        requires
            old(self).wf(),
            old(self).position() >= 1,
        ensures
            match old(self).state().stop(decorator@, old(self).position() - 1) {
                Ok(state) => stopped is Ok && final(self).reached(old(self), state),
                Err(error) => stopped == Err::<(), ConversionError>(error),
            },
    {
        match position_of(&self.active_markers, decorator) {
            Some(index) => {
                proof {
                    self.active_markers.deep_view().index_of_first_ensures(decorator@);
                }
                self.active_markers.remove(index);
                assert(self.active_markers.deep_view() =~= old(
                    self,
                ).active_markers.deep_view().remove(index as int));
                Ok(())
            },
            None => Err(ConversionError::StructuralImbalance { position: self.position - 1 }),
        }
    }

    /// Whether `self` is what handling one event made of `before`: in the
    /// state and at the place that `step` gives, or failed with its error.
    spec fn follows(
        &self,
        before: &Self,
        outcome: Result<(), ConversionError>,
        step: Step,
    ) -> bool {
        match step.result {
            Ok(state) => {
                &&& outcome is Ok
                &&& self.wf()
                &&& self.state() == state
                &&& self.events() == before.events()
                &&& self.options() == before.options()
                &&& self.position() == step.next
            },
            Err(error) => outcome == Err::<(), ConversionError>(error),
        }
    }

    /// Whether `self` is what the event before the place of `before` made of
    /// it, with `draw` for what came from outside.
    spec fn handled(
        &self,
        before: &Self,
        outcome: Result<(), ConversionError>,
        draw: Draw,
    ) -> bool {
        let position = before.position() - 1;
        &&& before.state().allows(before.options(), before.events(), position, draw)
        &&& self.follows(before, outcome, before.state().dispatch(before.events(), position, draw))
    }

    /// Flattens the inner range that starts at the writer's place into its
    /// text, and moves the writer past it.
    fn consume_inner(&mut self) -> (text: String)
        requires
            old(self).wf(),
        ensures
            final(self).wf(),
            final(self).state() == old(self).state(),
            final(self).events() == old(self).events(),
            final(self).options() == old(self).options(),
            text@ == inner(old(self).events(), old(self).position(), 0).text,
            final(self).position() == inner(old(self).events(), old(self).position(), 0).next,
    {
        let events = self.iter;
        let ghost stream = self.events();
        let ghost start = self.position as int;
        let mut nest: usize = 0;
        let mut buffer = String::new();
        while self.position < events.len()
            invariant
                self.wf(),
                self.state() == old(self).state(),
                self.options() == old(self).options(),
                self.iter == events,
                stream == old(self).events(),
                stream == events.deep_view(),
                start == old(self).position(),
                0 <= start <= self.position <= events.len(),
                nest <= self.position - start,
                inner(stream, start, 0).text == buffer@ + inner(
                    stream,
                    self.position as int,
                    nest as nat,
                ).text,
                inner(stream, start, 0).next == inner(
                    stream,
                    self.position as int,
                    nest as nat,
                ).next,
            decreases events.len() - self.position,
        {
            let event = &events[self.position];
            self.position += 1;
            match event {
                Event::Start(_) => {
                    nest += 1;
                },
                Event::End(_) => {
                    if nest == 0 {
                        return buffer;
                    }
                    nest -= 1;
                },
                Event::Html(text) => {
                    buffer.append(text.as_str());
                },
                Event::Code(text) => {
                    buffer.append(text.as_str());
                },
                Event::Text(text) => {
                    buffer.append(text.as_str());
                },
                Event::SoftBreak => {
                    buffer.push(' ');
                },
                Event::HardBreak => {
                    buffer.push(' ');
                },
                Event::Rule => {
                    buffer.push(' ');
                },
                _ => {},
            }
        }
        buffer
    }

    /// A key for a new mark definition of the open block.
    fn new_key(&self) -> (key: String)
        requires
            self.wf(),
        ensures
            self.state().accepts_key(key@),
    {
        if self.open_block && self.writer.len() > 0 {
            fresh_key(&self.writer[self.writer.len() - 1].mark_defs)
        } else {
            random_key()
        }
    }

    /// The start of a link with the given key.
    fn start_link(&mut self, key: String, href: &str)
        requires
            old(self).wf(),
        ensures
            final(self).reached(old(self), old(self).state().start_link(key@, href@)),
    {
        let mark_def = MarkDef::Link(
            MarkDefLink { _type: "link".to_owned(), _key: key.clone(), href: href.to_owned() },
        );
        self.add_mark_def(mark_def);
        self.mark_start(Decorators::LinkReference(key));
    }

    /// An image with the given key, and with the source and the picture that
    /// the resolver gave for it.
    fn start_image(&mut self, key: String, src: String, picture: Picture, title: &str, alt: String)
        requires
            old(self).wf(),
            old(self).position() >= 1,
        ensures
            final(self).reached(
                old(self),
                old(self).state().image(key@, src@, picture@, title@, alt@),
            ),
    {
        if self.open_block && self.writer.len() > 0 {
            let caption = if !title.is_empty() {
                Some(title.to_owned())
            } else {
                None
            };
            let asset = Decorators::AssetReference(key.clone());
            self.add_mark_def(
                MarkDef::Image(
                    MarkDefImage { _key: key, _type: "image".to_owned(), src, picture, caption },
                ),
            );
            self.mark_start(asset.duplicate());
            self.add_span_with_type(alt, "figure".to_owned());
            assert(self.state().marks.last() == asset@);
            let stopped = self.mark_stop(&asset);
            assert(stopped is Ok);
        }
    }

    /// An inline code event.
    fn inline_code(&mut self, code: &str)
        requires
            old(self).wf(),
            old(self).position() >= 1,
        ensures
            final(self).reached(old(self), old(self).state().inline_code(code@)),
    {
        self.mark_start(Decorators::Code);
        self.add_span(code.to_owned());
        assert(self.state().marks.last() == Mark::Code);
        let stopped = self.mark_stop(&Decorators::Code);
        assert(stopped is Ok);
    }

    /// The key of the first link to `href` that the open block defines.
    fn open_link_key(&self, href: &String) -> (key: Option<String>)
        requires
            self.wf(),
        ensures
            key.deep_view() == self.state().open_link_key(href@),
    {
        if !(self.open_block && self.writer.len() > 0) {
            return None;
        }
        let defs = &self.writer[self.writer.len() - 1].mark_defs;
        let ghost hits = link_hits(defs.deep_view(), href@);
        let mut i: usize = 0;
        while i < defs.len()
            invariant
                i <= defs.len(),
                hits == link_hits(defs.deep_view(), href@),
                self.state().has_open_block(),
                self.state().current().mark_defs == defs.deep_view(),
                forall|j: int| 0 <= j < i ==> !hits[j],
            decreases defs.len() - i,
        {
            match &defs[i] {
                MarkDef::Link(link) => {
                    if link.href == *href {
                        proof {
                            assert(hits[i as int]);
                            hits.index_of_first_ensures(true);
                        }
                        return Some(link._key.clone());
                    }
                },
                MarkDef::Image(_) => {},
            }
            i += 1;
        }
        proof {
            hits.index_of_first_ensures(true);
        }
        None
    }

    /// Handles the start of `tag`, the event before the writer's place. For a
    /// link it draws a key; for an image it draws a key and asks the
    /// resolver.
    fn start_tag(&mut self, tag: &Tag) -> (started: Result<(), ConversionError>)
        requires
            old(self).wf(),
            1 <= old(self).position() <= old(self).events().len(),
            old(self).events()[old(self).position() - 1] == EventView::Start(tag@),
        ensures
            exists|draw: Draw| final(self).handled(old(self), started, draw),
    {
        let ghost mut draw = Draw {
            key: Seq::empty(),
            src: Seq::empty(),
            picture: arbitrary(),
        };
        let started = match tag {
            Tag::Paragraph => {
                if !self.open_block {
                    self.write(BlockNode::default("normal".to_owned()));
                }
                Ok(())
            },
            Tag::BlockQuote => {
                self.write(BlockNode::default("blockquote".to_owned()));
                Ok(())
            },
            Tag::CodeBlock(kind) => {
                let language = match kind {
                    CodeBlockKind::Fenced(syntax) => syntax.clone(),
                    CodeBlockKind::Indented => "plain_text".to_owned(),
                };
                let code = self.consume_inner();
                self.write(BlockNode::code(language, code));
                self.close_block();
                Ok(())
            },
            Tag::Heading(level) => {
                let mut styling = "h".to_owned();
                styling.append(decimal_string(*level).as_str());
                proof {
                    reveal_strlit("h");
                    assert(styling@ =~= heading_style(*level));
                }
                self.write(BlockNode::default(styling));
                Ok(())
            },
            Tag::List(ordered) => {
                if *ordered {
                    self.active_list_item.push(ListItemType::Numbered);
                } else {
                    self.active_list_item.push(ListItemType::Bullit);
                }
                self.list_item_level = self.active_list_item.len();
                Ok(())
            },
            Tag::Item => {
                if self.active_list_item.len() == 0 {
                    Err(ConversionError::StructuralImbalance { position: self.position - 1 })
                } else {
                    let list_item = self.active_list_item[self.active_list_item.len() - 1];
                    let level = self.list_item_level;
                    self.write(BlockNode::default_list_item(level, list_item));
                    Ok(())
                }
            },
            Tag::Link(href, _) => {
                let key = self.new_key();
                proof {
                    draw = Draw { key: key@, ..draw };
                }
                self.start_link(key, href.as_str());
                Ok(())
            },
            Tag::Image(href, title) => {
                let key = self.new_key();
                let alt = self.consume_inner();
                let src = self.options.asset_resolver.resolve(href.clone());
                let picture = self.options.asset_resolver.resolve_picture(
                    href.clone(),
                    alt.clone(),
                );
                proof {
                    draw = Draw { key: key@, src: src@, picture: picture@ };
                    lemma_inner_bounds(old(self).events(), old(self).position(), 0);
                }
                self.start_image(key, src, picture, title.as_str(), alt);
                Ok(())
            },
            Tag::Strong => {
                self.mark_start(Decorators::Strong);
                Ok(())
            },
            Tag::Emphasis => {
                self.mark_start(Decorators::Emphasis);
                Ok(())
            },
            Tag::Strikethrough => {
                self.mark_start(Decorators::Strike);
                Ok(())
            },
            Tag::FootnoteDefinition => Ok(()),
            Tag::Table => Ok(()),
            Tag::TableHead => Ok(()),
            Tag::TableRow => Ok(()),
            Tag::TableCell => Ok(()),
        };
        assert(self.handled(old(self), started, draw));
        started
    }

    /// Handles the end of `tag`, the event before the writer's place.
    fn end_tag(&mut self, tag: &Tag) -> (ended: Result<(), ConversionError>)
        requires
            old(self).wf(),
            1 <= old(self).position() <= old(self).events().len(),
        ensures
            final(self).follows(
                old(self),
                ended,
                Step {
                    result: old(self).state().end_tag(old(self).position() - 1, tag@),
                    next: old(self).position(),
                },
            ),
    {
        match tag {
            Tag::Strong => self.mark_stop(&Decorators::Strong),
            Tag::Emphasis => self.mark_stop(&Decorators::Emphasis),
            Tag::Strikethrough => self.mark_stop(&Decorators::Strike),
            Tag::Link(href, _) => {
                match self.open_link_key(href) {
                    Some(key) => self.mark_stop(&Decorators::LinkReference(key)),
                    None => Err(
                        ConversionError::UnresolvedMarkReference { position: self.position - 1 },
                    ),
                }
            },
            Tag::List(_) => {
                if self.active_list_item.len() == 0 {
                    Err(ConversionError::StructuralImbalance { position: self.position - 1 })
                } else {
                    self.active_list_item.pop();
                    self.list_item_level = self.list_item_level - 1;
                    Ok(())
                }
            },
            Tag::FootnoteDefinition => Ok(()),
            Tag::Table => Ok(()),
            Tag::TableHead => Ok(()),
            Tag::TableRow => Ok(()),
            Tag::TableCell => Ok(()),
            _ => {
                self.close_block();
                Ok(())
            },
        }
    }

    /// Handles the event at the writer's place, and moves past it and past
    /// the inner range that it takes with it.
    fn dispatch(&mut self) -> (done: Result<(), ConversionError>)
        requires
            old(self).wf(),
            old(self).position() < old(self).events().len(),
        ensures
            exists|draw: Draw|
                {
                    &&& old(self).state().allows(
                        old(self).options(),
                        old(self).events(),
                        old(self).position(),
                        draw,
                    )
                    &&& final(self).follows(
                        old(self),
                        done,
                        #[trigger] old(self).state().dispatch(
                            old(self).events(),
                            old(self).position(),
                            draw,
                        ),
                    )
                },
    {
        let events = self.iter;
        let event = &events[self.position];
        self.position += 1;
        let ghost moved = *self;
        let ghost any = Draw { key: Seq::empty(), src: Seq::empty(), picture: arbitrary() };
        let ghost at = old(self).position();
        match event {
            Event::Start(tag) => {
                let started = self.start_tag(tag);
                proof {
                    let draw = choose|draw: Draw| self.handled(&moved, started, draw);
                    assert(self.follows(
                        old(self),
                        started,
                        old(self).state().dispatch(old(self).events(), at, draw),
                    ));
                }
                started
            },
            Event::End(tag) => {
                let ended = self.end_tag(tag);
                assert(self.follows(
                    old(self),
                    ended,
                    old(self).state().dispatch(old(self).events(), at, any),
                ));
                ended
            },
            Event::Text(text) => {
                let no_marks = self.active_markers.is_empty();
                let merges = match self.last_span() {
                    Some(last_span) => last_span.marks.is_empty() && no_marks,
                    None => false,
                };
                proof {
                    if moved.state().has_last_span() {
                        let last = moved.writer@.len() - 1;
                        assert(self.writer@[last].children.deep_view()
                            =~= moved.writer@[last].children.deep_view());
                    }
                    assert(self.writer.deep_view() =~= moved.writer.deep_view());
                }
                if merges {
                    self.add_text(text.as_str());
                } else {
                    self.add_span(text.clone());
                }
                assert(self.follows(
                    old(self),
                    Ok(()),
                    old(self).state().dispatch(old(self).events(), at, any),
                ));
                Ok(())
            },
            Event::Code(code) => {
                self.inline_code(code.as_str());
                assert(self.follows(
                    old(self),
                    Ok(()),
                    old(self).state().dispatch(old(self).events(), at, any),
                ));
                Ok(())
            },
            Event::SoftBreak => {
                proof {
                    reveal_strlit(" ");
                    assert(" "@ =~= seq![' ']);
                }
                self.add_text(" ");
                assert(self.follows(
                    old(self),
                    Ok(()),
                    old(self).state().dispatch(old(self).events(), at, any),
                ));
                Ok(())
            },
            _ => {
                assert(self.follows(
                    old(self),
                    Ok(()),
                    old(self).state().dispatch(old(self).events(), at, any),
                ));
                Ok(())
            },
        }
    }

    /// Converts the events from the writer's place on, and returns the
    /// blocks: those that the writer held, and after them those of the
    /// events. The first error ends the conversion.
    pub fn run(self) -> (blocks: Result<Vec<BlockNode>, ConversionError>)
        requires
            self.wf(),
        ensures
            exists|draws: Seq<Draw>|
                #[trigger] converts_to(
                    self.options(),
                    self.state(),
                    self.events(),
                    self.position(),
                    draws,
                    written(blocks),
                ),
            blocks matches Ok(made) ==> (all_well_shaped(self.state().blocks) ==> all_well_shaped(
                made.deep_view(),
            )),
    {
        let ghost first = self;
        let ghost mut draws: Seq<Draw> = Seq::empty();
        let mut writer = self;
        while writer.position < writer.iter.len()
            invariant
                first == self,
                writer.wf(),
                writer.events() == first.events(),
                writer.options() == first.options(),
                allowed(
                    first.options(),
                    first.state(),
                    first.events(),
                    first.position(),
                    draws,
                ),
                convert(first.state(), first.events(), first.position(), draws) == (Step {
                    result: Ok(writer.state()),
                    next: writer.position(),
                }),
            decreases writer.iter.len() - writer.position,
        {
            let ghost before = writer;
            let done = writer.dispatch();
            proof {
                let draw = choose|draw: Draw|
                    {
                        &&& before.state().allows(
                            before.options(),
                            before.events(),
                            before.position(),
                            draw,
                        )
                        &&& writer.follows(
                            &before,
                            done,
                            #[trigger] before.state().dispatch(
                                before.events(),
                                before.position(),
                                draw,
                            ),
                        )
                    };
                lemma_dispatch_advances(
                    before.state(),
                    before.events(),
                    before.position(),
                    draw,
                );
                assert(draws.push(draw).drop_last() =~= draws);
                draws = draws.push(draw);
            }
            match done {
                Ok(()) => {},
                Err(error) => {
                    assert(converts_to(
                        first.options(),
                        first.state(),
                        first.events(),
                        first.position(),
                        draws,
                        written(Err(error)),
                    ));
                    return Err(error);
                },
            }
        }
        proof {
            assert(converts_to(
                first.options(),
                first.state(),
                first.events(),
                first.position(),
                draws,
                written(Ok(writer.writer)),
            ));
            if all_well_shaped(first.state().blocks) {
                lemma_blocks_well_shaped(first.state(), first.events(), first.position(), draws);
            }
        }
        Ok(writer.writer)
    }
}

/// Converts the events and appends their blocks to `output`, with the
/// identity resolver for the images. On failure `output` stays as it was.
pub fn push_portabletext<'a>(output: &mut Vec<BlockNode>, parser: &'a [Event]) -> (pushed: Result<
    (),
    ConversionError,
>)
    ensures
        exists|draws: Seq<Draw>| #[trigger]
            pushes(
                Options::identity(),
                parser.deep_view(),
                draws,
                old(output).deep_view(),
                final(output).deep_view(),
                pushed,
            ),
        pushed is Ok ==> final(output)@.take(old(output)@.len() as int) == old(output)@,
        pushed is Ok ==> all_well_shaped(final(output).deep_view().skip(old(output)@.len() as int)),
        pushed is Err ==> final(output)@ == old(output)@,
{
    push_portabletext_with_opts(output, parser, Options::default())
}

/// Converts the events and appends their blocks to `output`, with the
/// resolver of `options` for the images. On failure `output` stays as it was.
pub fn push_portabletext_with_opts<'a>(
    output: &mut Vec<BlockNode>,
    parser: &'a [Event],
    options: Options<'a>,
) -> (pushed: Result<(), ConversionError>)
    ensures
        exists|draws: Seq<Draw>| #[trigger]
            pushes(
                options,
                parser.deep_view(),
                draws,
                old(output).deep_view(),
                final(output).deep_view(),
                pushed,
            ),
        pushed is Ok ==> final(output)@.take(old(output)@.len() as int) == old(output)@,
        pushed is Ok ==> all_well_shaped(final(output).deep_view().skip(old(output)@.len() as int)),
        pushed is Err ==> final(output)@ == old(output)@,
{
    let writer = PortabletextWriter::new(parser, options);
    match writer.run() {
        Ok(blocks) => {
            let mut blocks = blocks;
            let ghost draws = choose|draws: Seq<Draw>| #[trigger]
                converts_to(
                    options,
                    State::initial(),
                    parser.deep_view(),
                    0,
                    draws,
                    written(Ok(blocks)),
                );
            let ghost new = blocks.deep_view();
            output.append(&mut blocks);
            proof {
                assert(output.deep_view().take(old(output)@.len() as int) =~= old(
                    output,
                ).deep_view());
                assert(output.deep_view().skip(old(output)@.len() as int) =~= new);
                assert(pushes(
                    options,
                    parser.deep_view(),
                    draws,
                    old(output).deep_view(),
                    output.deep_view(),
                    Ok(()),
                ));
            }
            Ok(())
        },
        Err(error) => {
            proof {
                let draws = choose|draws: Seq<Draw>| #[trigger]
                    converts_to(
                        options,
                        State::initial(),
                        parser.deep_view(),
                        0,
                        draws,
                        written(Err(error)),
                    );
                assert(pushes(
                    options,
                    parser.deep_view(),
                    draws,
                    old(output).deep_view(),
                    output.deep_view(),
                    Err(error),
                ));
            }
            Err(error)
        },
    }
}

} // verus!
