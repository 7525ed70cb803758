//! What holds of every conversion.

use vstd::prelude::*;
use crate::document::{all_well_shaped, key_in_use, BlockView, MarkDefView, SpanView};
use crate::events::{inner, EventView, TagView};
use crate::marks::Mark;
use crate::resolver::Options;
use crate::state::{
    allowed, convert, heading_style, lemma_dispatch_advances, pushes, ConversionError, Draw,
    State, Step,
};

verus! {

/// Events are taken strictly in their order: a conversion is what its first
/// event does, and then the conversion of what comes after it.
pub proof fn lemma_convert_first_then_rest(
    state: State,
    events: Seq<EventView>,
    start: int,
    draws: Seq<Draw>,
)
    requires
        0 <= start < events.len(),
        draws.len() > 0,
    ensures
        convert(state, events, start, draws) == ({
            let first = state.dispatch(events, start, draws.first());
            match first.result {
                Ok(reached) => convert(reached, events, first.next, draws.drop_first()),
                Err(_) => first,
            }
        }),
    decreases draws.len(),
{
    let first = state.dispatch(events, start, draws.first());
    if draws.len() == 1 {
        assert(draws.drop_last() =~= Seq::empty());
        assert(draws.drop_first() =~= Seq::empty());
        assert(draws.last() == draws.first());
    } else {
        lemma_convert_first_then_rest(state, events, start, draws.drop_last());
        assert(draws.drop_last().first() == draws.first());
        assert(draws.drop_last().drop_first() =~= draws.drop_first().drop_last());
        assert(draws.drop_first().last() == draws.last());
    }
}

/// What is drawn is allowed in the same order: the first draw by the state
/// at the start, the others by the conversion of what comes after the first
/// event.
pub proof fn lemma_allowed_first_then_rest(
    options: Options<'_>,
    state: State,
    events: Seq<EventView>,
    start: int,
    draws: Seq<Draw>,
)
    requires
        0 <= start < events.len(),
        draws.len() > 0,
        allowed(options, state, events, start, draws),
    ensures
        state.allows(options, events, start, draws.first()),
        state.dispatch(events, start, draws.first()).result matches Ok(reached) ==> allowed(
            options,
            reached,
            events,
            state.dispatch(events, start, draws.first()).next,
            draws.drop_first(),
        ),
    decreases draws.len(),
{
    let first = state.dispatch(events, start, draws.first());
    if draws.len() == 1 {
        assert(draws.drop_last() =~= Seq::empty());
        assert(draws.drop_first() =~= Seq::empty());
        assert(draws.last() == draws.first());
    } else {
        lemma_allowed_first_then_rest(options, state, events, start, draws.drop_last());
        assert(draws.drop_last().first() == draws.first());
        assert(draws.drop_last().drop_first() =~= draws.drop_first().drop_last());
        assert(draws.drop_first().last() == draws.last());
        if let Ok(reached) = first.result {
            lemma_convert_first_then_rest(state, events, start, draws.drop_last());
        }
    }
}

/// After the last event nothing changes, whatever is drawn.
pub proof fn lemma_convert_past_the_end(
    state: State,
    events: Seq<EventView>,
    start: int,
    draws: Seq<Draw>,
)
    requires
        start >= events.len(),
    ensures
        convert(state, events, start, draws) == (Step { result: Ok(state), next: start }),
    decreases draws.len(),
{
    if draws.len() > 0 {
        lemma_convert_past_the_end(state, events, start, draws.drop_last());
    }
}

/// Without a draw nothing is converted.
pub proof fn lemma_convert_nothing(state: State, events: Seq<EventView>, start: int)
    ensures
        convert(state, events, start, Seq::empty()) == (Step { result: Ok(state), next: start }),
{
}

/// While no mark is active, two text events in a row leave what one text
/// event with both texts leaves. Where the first of them starts a span, that
/// one span holds their concatenation.
pub proof fn lemma_text_merges(state: State, first: Seq<char>, second: Seq<char>)
    requires
        state.marks.len() == 0,
    ensures
        state.text(first).text(second) == state.text(first + second),
        state.has_open_block() && !state.merges_text() ==> state.text(first).text(
            second,
        ).current().children == state.current().children.push(
            SpanView { kind: "span"@, text: first + second, marks: Seq::empty() },
        ),
{
    let once = state.text(first);
    let twice = once.text(second);
    let both = state.text(first + second);
    if state.has_open_block() {
        let spans = state.current().children;
        if state.merges_text() {
            assert(once.merges_text());
            assert(state.last_span().text + first + second =~= state.last_span().text + (first
                + second));
            assert(twice.current().children =~= both.current().children);
            assert(twice.blocks =~= both.blocks);
        } else {
            assert(state.marks =~= Seq::empty());
            assert(once.current().children.last().marks.len() == 0);
            assert(once.merges_text());
            assert(twice.current().children =~= spans.push(
                SpanView { kind: "span"@, text: first + second, marks: Seq::empty() },
            ));
            assert(twice.current().children =~= both.current().children);
            assert(twice.blocks =~= both.blocks);
        }
    }
}

/// A span carries the marks that are active when it is written, the one
/// that was started first in front. So with `outer` started before `inner`,
/// the marks of the span end in `outer`, `inner`.
pub proof fn lemma_marks_outer_to_inner(state: State, outer: Mark, inner: Mark, text: Seq<char>)
    requires
        state.has_open_block(),
    ensures
        state.add_span(text).last_span().marks == state.marks,
        state.mark_start(outer).mark_start(inner).add_span(text).last_span().marks
            == state.marks.push(outer).push(inner),
{
}

/// Stopping a mark takes out the first active mark that equals it, and
/// leaves the others in their order.
pub proof fn lemma_mark_stop_keeps_order(state: State, mark: Mark)
    requires
        state.marks.contains(mark),
    ensures
        state.mark_stop(mark) is Some,
        exists|index: int|
            {
                &&& 0 <= index < state.marks.len()
                &&& state.marks[index] == mark
                &&& forall|earlier: int| 0 <= earlier < index ==> state.marks[earlier] != mark
                &&& #[trigger] state.marks.remove(index) == state.mark_stop(mark)->0.marks
            },
{
    state.marks.index_of_first_ensures(mark);
    let index = state.marks.index_of_first(mark)->0;
    assert(state.marks.remove(index) == state.mark_stop(mark)->0.marks);
}

/// A span with a mark of its own leaves the active marks as they were,
/// where that mark was not active before.
pub proof fn lemma_marked_span_keeps_marks(
    state: State,
    mark: Mark,
    text: Seq<char>,
    kind: Seq<char>,
)
    requires
        !state.marks.contains(mark),
    ensures
        state.add_marked_span(mark, text, kind).marks == state.marks,
        state.add_marked_span(mark, text, kind).blocks == state.mark_start(
            mark,
        ).add_span_with_type(text, kind).blocks,
{
    let pushed = state.marks.push(mark);
    pushed.index_of_first_ensures(mark);
    assert(pushed[state.marks.len() as int] == mark);
    let index = pushed.index_of_first(mark)->0;
    if index < state.marks.len() {
        assert(state.marks[index] == mark);
    }
    assert(pushed.remove(index) =~= state.marks);
}

/// An item that starts while some lists are open becomes a block whose
/// level is their number, and whose kind is that of the innermost list.
pub proof fn lemma_item_level_is_depth(
    state: State,
    events: Seq<EventView>,
    position: int,
    draw: Draw,
)
    requires
        0 <= position < events.len(),
        events[position] == EventView::Start(TagView::Item),
        state.lists.len() > 0,
    ensures
        state.dispatch(events, position, draw).result == Ok::<State, ConversionError>(
            state.write(BlockView::list_entry(state.lists.len(), state.lists.last())),
        ),
        state.dispatch(events, position, draw).result->Ok_0.current().level == Some(
            state.lists.len(),
        ),
{
}

/// The number of open lists changes with the start and the end of a list
/// only, by one. No other event changes it, however many items came before.
pub proof fn lemma_depth_counts_lists(
    state: State,
    events: Seq<EventView>,
    position: int,
    draw: Draw,
)
    requires
        0 <= position < events.len(),
        state.dispatch(events, position, draw).result is Ok,
    ensures
        ({
            let after = state.dispatch(events, position, draw).result->Ok_0;
            match events[position] {
                EventView::Start(TagView::List(_)) => after.lists.len() == state.lists.len() + 1
                    && after.lists.take(state.lists.len() as int) == state.lists,
                EventView::End(TagView::List(_)) => after.lists.len() == state.lists.len() - 1
                    && after.lists == state.lists.take(after.lists.len() as int),
                _ => after.lists == state.lists,
            }
        }),
{
    let after = state.dispatch(events, position, draw).result->Ok_0;
    match events[position] {
        EventView::Start(TagView::List(_)) => {
            assert(after.lists.take(state.lists.len() as int) =~= state.lists);
        },
        EventView::End(TagView::List(_)) => {
            assert(after.lists =~= state.lists.take(after.lists.len() as int));
        },
        _ => {},
    }
}

/// A block that is either prose or code does not have both a style and code.
pub proof fn lemma_well_shaped_is_exclusive(block: BlockView)
    requires
        block.well_shaped(),
    ensures
        block.exclusive(),
{
}

/// No event makes a block that is both prose and code, or that is neither.
pub proof fn lemma_dispatch_keeps_shape(
    state: State,
    events: Seq<EventView>,
    position: int,
    draw: Draw,
)
    requires
        0 <= position < events.len(),
        all_well_shaped(state.blocks),
    ensures
        state.dispatch(events, position, draw).result matches Ok(after) ==> all_well_shaped(
            after.blocks,
        ),
{
}

/// Whatever the events and whatever comes from outside, every block of a
/// conversion is either prose or code.
pub proof fn lemma_blocks_well_shaped(
    state: State,
    events: Seq<EventView>,
    start: int,
    draws: Seq<Draw>,
)
    requires
        0 <= start <= events.len(),
        all_well_shaped(state.blocks),
    ensures
        start <= convert(state, events, start, draws).next <= events.len(),
        convert(state, events, start, draws).result matches Ok(after) ==> all_well_shaped(
            after.blocks,
        ),
    decreases draws.len(),
{
    if draws.len() > 0 {
        lemma_blocks_well_shaped(state, events, start, draws.drop_last());
        let before = convert(state, events, start, draws.drop_last());
        if before.result is Ok && before.next < events.len() {
            lemma_dispatch_advances(before.result->Ok_0, events, before.next, draws.last());
            lemma_dispatch_keeps_shape(before.result->Ok_0, events, before.next, draws.last());
        }
    }
}

/// Whether no two of the definitions have the same key.
pub open spec fn keys_distinct(defs: Seq<MarkDefView>) -> bool {
    forall|i: int, j: int| 0 <= i < j < defs.len() ==> defs[i].key() != defs[j].key()
}

/// Whether each reference among the marks has a definition with its key.
pub open spec fn references_defined(marks: Seq<Mark>, defs: Seq<MarkDefView>) -> bool {
    forall|j: int|
        0 <= j < marks.len() && (#[trigger] marks[j]).is_reference() ==> key_in_use(
            defs,
            marks[j].key(),
        )
}

/// Whether none of the marks is a reference.
pub open spec fn no_reference(marks: Seq<Mark>) -> bool {
    forall|j: int| 0 <= j < marks.len() ==> !(#[trigger] marks[j]).is_reference()
}

/// Whether the block binds its references: its definitions have distinct
/// keys, and each reference in one of its spans has a definition.
pub open spec fn binds_references(block: BlockView) -> bool {
    &&& keys_distinct(block.mark_defs)
    &&& forall|i: int|
        0 <= i < block.children.len() ==> references_defined(
            (#[trigger] block.children[i]).marks,
            block.mark_defs,
        )
}

/// Whether every block binds its references, and the open block has a
/// definition for each reference that is active.
pub open spec fn all_bound(state: State) -> bool {
    &&& forall|i: int| 0 <= i < state.blocks.len() ==> binds_references(#[trigger] state.blocks[i])
    &&& state.has_open_block() ==> references_defined(state.marks, state.current().mark_defs)
}

/// Whether the event makes the state open a new block.
pub open spec fn opens_block(state: State, event: EventView) -> bool {
    match event {
        EventView::Start(TagView::Paragraph) => !state.open,
        EventView::Start(TagView::BlockQuote) => true,
        EventView::Start(TagView::Heading(_)) => true,
        EventView::Start(TagView::Item) => state.lists.len() > 0,
        _ => false,
    }
}

/// Whether the references nest in the blocks at this event: it opens no
/// block while a reference is active.
pub open spec fn references_nest(state: State, event: EventView) -> bool {
    opens_block(state, event) ==> no_reference(state.marks)
}

/// In a block that binds its references, a reference in a span has exactly
/// one definition.
pub proof fn lemma_bound_reference_has_one_definition(block: BlockView, span: int, mark: int)
    requires
        binds_references(block),
        0 <= span < block.children.len(),
        0 <= mark < block.children[span].marks.len(),
        block.children[span].marks[mark].is_reference(),
    ensures
        exists|i: int|
            {
                &&& 0 <= i < block.mark_defs.len()
                &&& (#[trigger] block.mark_defs[i]).key() == block.children[span].marks[mark].key()
                &&& forall|j: int|
                    0 <= j < block.mark_defs.len() && (#[trigger] block.mark_defs[j]).key()
                        == block.children[span].marks[mark].key() ==> j == i
            },
{
    let key = block.children[span].marks[mark].key();
    assert(references_defined(block.children[span].marks, block.mark_defs));
    assert(key_in_use(block.mark_defs, key));
    let i = choose|i: int|
        0 <= i < block.mark_defs.len() && (#[trigger] block.mark_defs[i]).key() == key;
    assert forall|j: int|
        0 <= j < block.mark_defs.len() && (#[trigger] block.mark_defs[j]).key() == key implies j
        == i by {
        if j < i {
            assert(block.mark_defs[j].key() != block.mark_defs[i].key());
        } else if i < j {
            assert(block.mark_defs[i].key() != block.mark_defs[j].key());
        }
    }
}

/// One more definition takes no definition away.
proof fn lemma_defined_after_push(marks: Seq<Mark>, defs: Seq<MarkDefView>, def: MarkDefView)
    requires
        references_defined(marks, defs),
    ensures
        references_defined(marks, defs.push(def)),
{
    assert forall|j: int|
        0 <= j < marks.len() && (#[trigger] marks[j]).is_reference() implies key_in_use(
        defs.push(def),
        marks[j].key(),
    ) by {
        let i = choose|i: int| 0 <= i < defs.len() && (#[trigger] defs[i]).key() == marks[j].key();
        assert(defs.push(def)[i].key() == marks[j].key());
    }
}

/// A definition with a key that is not in use keeps the keys distinct.
proof fn lemma_distinct_after_push(defs: Seq<MarkDefView>, def: MarkDefView)
    requires
        keys_distinct(defs),
        !key_in_use(defs, def.key()),
    ensures
        keys_distinct(defs.push(def)),
        key_in_use(defs.push(def), def.key()),
{
    assert(defs.push(def)[defs.len() as int].key() == def.key());
    assert forall|i: int, j: int| 0 <= i < j < defs.push(def).len() implies defs.push(def)[i].key()
        != defs.push(def)[j].key() by {
        if j == defs.len() {
            assert(defs[i].key() != def.key());
        }
    }
}

/// What is left of the marks when one is taken out still has its definitions.
proof fn lemma_defined_after_removal(marks: Seq<Mark>, mark: Mark, defs: Seq<MarkDefView>)
    requires
        references_defined(marks, defs),
    ensures
        references_defined(marks.remove_value(mark), defs),
{
    marks.index_of_first_ensures(mark);
    if marks.contains(mark) {
        let index = marks.index_of_first(mark)->0;
        let rest = marks.remove(index);
        assert forall|j: int|
            0 <= j < rest.len() && (#[trigger] rest[j]).is_reference() implies key_in_use(
            defs,
            rest[j].key(),
        ) by {
            if j < index {
                assert(rest[j] == marks[j]);
            } else {
                assert(rest[j] == marks[j + 1]);
            }
        }
    }
}

/// A new block without spans and definitions binds its references, as
/// long as no reference is active when it opens.
proof fn lemma_write_keeps_bound(state: State, block: BlockView)
    requires
        all_bound(state),
        no_reference(state.marks),
        block.children.len() == 0,
        block.mark_defs.len() == 0,
    ensures
        all_bound(state.write(block)),
{
    let after = state.write(block);
    assert forall|i: int| 0 <= i < after.blocks.len() implies binds_references(
        #[trigger] after.blocks[i],
    ) by {
        if i < state.blocks.len() {
            assert(after.blocks[i] == state.blocks[i]);
        }
    }
}

/// A new block without spans and definitions that is sealed at once binds
/// its references, whatever is active.
proof fn lemma_sealed_block_keeps_bound(state: State, block: BlockView)
    requires
        all_bound(state),
        block.children.len() == 0,
        block.mark_defs.len() == 0,
    ensures
        all_bound(state.write(block).close_block()),
{
    let after = state.write(block).close_block();
    assert forall|i: int| 0 <= i < after.blocks.len() implies binds_references(
        #[trigger] after.blocks[i],
    ) by {
        if i < state.blocks.len() {
            assert(after.blocks[i] == state.blocks[i]);
        }
    }
}

/// A span takes the active marks, which the open block defines.
proof fn lemma_span_keeps_bound(state: State, text: Seq<char>, kind: Seq<char>)
    requires
        all_bound(state),
    ensures
        all_bound(state.add_span_with_type(text, kind)),
{
    let after = state.add_span_with_type(text, kind);
    if state.has_open_block() {
        let block = after.current();
        assert forall|i: int| 0 <= i < block.children.len() implies references_defined(
            (#[trigger] block.children[i]).marks,
            block.mark_defs,
        ) by {
            if i < state.current().children.len() {
                assert(block.children[i] == state.current().children[i]);
            }
        }
        assert forall|i: int| 0 <= i < after.blocks.len() implies binds_references(
            #[trigger] after.blocks[i],
        ) by {
            if i < state.blocks.len() - 1 {
                assert(after.blocks[i] == state.blocks[i]);
            }
        }
    }
}

/// More text in the last span changes no mark.
proof fn lemma_text_keeps_bound(state: State, suffix: Seq<char>)
    requires
        all_bound(state),
    ensures
        all_bound(state.add_text(suffix)),
{
    let after = state.add_text(suffix);
    if state.has_last_span() {
        let block = after.current();
        let last = state.current().children.len() - 1;
        assert forall|i: int| 0 <= i < block.children.len() implies references_defined(
            (#[trigger] block.children[i]).marks,
            block.mark_defs,
        ) by {
            if i < last {
                assert(block.children[i] == state.current().children[i]);
            } else {
                assert(block.children[i].marks == state.current().children[last].marks);
            }
        }
        assert forall|i: int| 0 <= i < after.blocks.len() implies binds_references(
            #[trigger] after.blocks[i],
        ) by {
            if i < state.blocks.len() - 1 {
                assert(after.blocks[i] == state.blocks[i]);
            }
        }
    }
}

/// A definition with a key that the open block does not use yet keeps it bound.
proof fn lemma_definition_keeps_bound(state: State, def: MarkDefView)
    requires
        all_bound(state),
        state.has_open_block() ==> !state.current().defines(def.key()),
    ensures
        all_bound(state.add_mark_def(def)),
        state.has_open_block() ==> state.add_mark_def(def).current().defines(def.key()),
{
    let after = state.add_mark_def(def);
    if state.has_open_block() {
        let block = after.current();
        let defs = state.current().mark_defs;
        lemma_distinct_after_push(defs, def);
        lemma_defined_after_push(state.marks, defs, def);
        assert forall|i: int| 0 <= i < block.children.len() implies references_defined(
            (#[trigger] block.children[i]).marks,
            block.mark_defs,
        ) by {
            assert(block.children[i] == state.current().children[i]);
            lemma_defined_after_push(block.children[i].marks, defs, def);
        }
        assert forall|i: int| 0 <= i < after.blocks.len() implies binds_references(
            #[trigger] after.blocks[i],
        ) by {
            if i < state.blocks.len() - 1 {
                assert(after.blocks[i] == state.blocks[i]);
            }
        }
    }
}

/// A mark that is no reference, or whose key the open block defines, can
/// become active.
proof fn lemma_mark_start_keeps_bound(state: State, mark: Mark)
    requires
        all_bound(state),
        state.has_open_block() && mark.is_reference() ==> state.current().defines(mark.key()),
    ensures
        all_bound(state.mark_start(mark)),
{
}

/// Taking a mark out of the active marks keeps the state bound.
proof fn lemma_removal_keeps_bound(state: State, mark: Mark)
    requires
        all_bound(state),
    ensures
        all_bound(State { marks: state.marks.remove_value(mark), ..state }),
{
    if state.has_open_block() {
        lemma_defined_after_removal(state.marks, mark, state.current().mark_defs);
    }
}

/// An event keeps every reference bound to exactly one definition of its
/// block, where the key that is drawn for it is not in use in the open block,
/// and where the event opens no block while a reference is active.
pub proof fn lemma_dispatch_keeps_bound(
    options: Options<'_>,
    state: State,
    events: Seq<EventView>,
    position: int,
    draw: Draw,
)
    requires
        0 <= position < events.len(),
        all_bound(state),
        state.allows(options, events, position, draw),
        references_nest(state, events[position]),
    ensures
        state.dispatch(events, position, draw).result matches Ok(after) ==> all_bound(after),
{
    match events[position] {
        EventView::Start(tag) => {
            match tag {
                TagView::Paragraph => {
                    if !state.open {
                        lemma_write_keeps_bound(state, BlockView::prose("normal"@));
                    }
                },
                TagView::BlockQuote => {
                    lemma_write_keeps_bound(state, BlockView::prose("blockquote"@));
                },
                TagView::CodeBlock(kind) => {
                    lemma_sealed_block_keeps_bound(
                        state,
                        BlockView::code_block(
                            kind.language(),
                            inner(events, position + 1, 0).text,
                        ),
                    );
                },
                TagView::Heading(level) => {
                    lemma_write_keeps_bound(state, BlockView::prose(heading_style(level)));
                },
                TagView::Item => {
                    if state.lists.len() > 0 {
                        lemma_write_keeps_bound(
                            state,
                            BlockView::list_entry(state.lists.len(), state.lists.last()),
                        );
                    }
                },
                TagView::Link(href, _) => {
                    let def = MarkDefView::link(draw.key, href);
                    lemma_definition_keeps_bound(state, def);
                    lemma_mark_start_keeps_bound(
                        state.add_mark_def(def),
                        Mark::LinkReference(draw.key),
                    );
                },
                TagView::Image(_, title) => {
                    if state.has_open_block() {
                        let alt = inner(events, position + 1, 0).text;
                        let def = MarkDefView::image(draw.key, draw.src, draw.picture, title);
                        let mark = Mark::AssetReference(draw.key);
                        lemma_definition_keeps_bound(state, def);
                        let defined = state.add_mark_def(def);
                        lemma_mark_start_keeps_bound(defined, mark);
                        lemma_span_keeps_bound(defined.mark_start(mark), alt, "figure"@);
                        lemma_removal_keeps_bound(
                            defined.mark_start(mark).add_span_with_type(alt, "figure"@),
                            mark,
                        );
                    }
                },
                TagView::Strong => {
                    lemma_mark_start_keeps_bound(state, Mark::Strong);
                },
                TagView::Emphasis => {
                    lemma_mark_start_keeps_bound(state, Mark::Emphasis);
                },
                TagView::Strikethrough => {
                    lemma_mark_start_keeps_bound(state, Mark::Strike);
                },
                _ => {},
            }
        },
        EventView::End(tag) => {
            match tag {
                TagView::Strong => {
                    lemma_removal_keeps_bound(state, Mark::Strong);
                },
                TagView::Emphasis => {
                    lemma_removal_keeps_bound(state, Mark::Emphasis);
                },
                TagView::Strikethrough => {
                    lemma_removal_keeps_bound(state, Mark::Strike);
                },
                TagView::Link(href, _) => {
                    if let Some(key) = state.open_link_key(href) {
                        lemma_removal_keeps_bound(state, Mark::LinkReference(key));
                    }
                },
                _ => {},
            }
        },
        EventView::Text(text) => {
            if state.merges_text() {
                lemma_text_keeps_bound(state, text);
            } else {
                lemma_span_keeps_bound(state, text, "span"@);
            }
        },
        EventView::Code(code) => {
            lemma_mark_start_keeps_bound(state, Mark::Code);
            lemma_span_keeps_bound(state.mark_start(Mark::Code), code, "span"@);
            lemma_removal_keeps_bound(
                state.mark_start(Mark::Code).add_span_with_type(code, "span"@),
                Mark::Code,
            );
        },
        EventView::SoftBreak => {
            lemma_text_keeps_bound(state, seq![' ']);
        },
        _ => {},
    }
}

/// Whether the references nest in the blocks all through the conversion: no
/// event of it opens a block while a reference is active.
pub open spec fn references_nested(
    state: State,
    events: Seq<EventView>,
    start: int,
    draws: Seq<Draw>,
) -> bool
    decreases draws.len(),
{
    if draws.len() == 0 {
        true
    } else {
        let before = convert(state, events, start, draws.drop_last());
        &&& references_nested(state, events, start, draws.drop_last())
        &&& match before.result {
            Ok(reached) => before.next < events.len() ==> references_nest(
                reached,
                events[before.next],
            ),
            Err(_) => true,
        }
    }
}

/// After a conversion every reference in a span has exactly one definition
/// with its key in the same block, where each key that was drawn was not in
/// use in the open block, and where the references nest in the blocks.
pub proof fn lemma_references_bound(
    options: Options<'_>,
    state: State,
    events: Seq<EventView>,
    start: int,
    draws: Seq<Draw>,
)
    requires
        0 <= start <= events.len(),
        all_bound(state),
        allowed(options, state, events, start, draws),
        references_nested(state, events, start, draws),
    ensures
        start <= convert(state, events, start, draws).next <= events.len(),
        convert(state, events, start, draws).result matches Ok(after) ==> all_bound(after),
    decreases draws.len(),
{
    if draws.len() > 0 {
        lemma_references_bound(options, state, events, start, draws.drop_last());
        let before = convert(state, events, start, draws.drop_last());
        if before.result is Ok && before.next < events.len() {
            lemma_dispatch_advances(before.result->Ok_0, events, before.next, draws.last());
            lemma_dispatch_keeps_bound(
                options,
                before.result->Ok_0,
                events,
                before.next,
                draws.last(),
            );
        }
    }
}

/// Whether `later` is `earlier` grown: it keeps every definition of it and
/// every span but the last, in their places, and of the last span at least
/// its kind, its marks and the beginning of its text.
pub open spec fn grown_from(later: BlockView, earlier: BlockView) -> bool {
    &&& later.kind == earlier.kind
    &&& later.style == earlier.style
    &&& later.level == earlier.level
    &&& later.list_item == earlier.list_item
    &&& later.language == earlier.language
    &&& later.code == earlier.code
    &&& earlier.mark_defs.is_prefix_of(later.mark_defs)
    &&& earlier.children.len() <= later.children.len()
    &&& forall|i: int|
        0 <= i < earlier.children.len() - 1 ==> later.children[i] == earlier.children[i]
    &&& earlier.children.len() > 0 ==> {
        let before = earlier.children.last();
        let after = later.children[earlier.children.len() - 1];
        &&& after.kind == before.kind
        &&& after.marks == before.marks
        &&& before.text.is_prefix_of(after.text)
    }
}

/// Nothing that was written is taken back: an event leaves every block that
/// is not the open one exactly as it was, and of the open block all but the
/// text of its last span, which can only get longer. What an event adds
/// comes after.
pub proof fn lemma_dispatch_only_adds(
    state: State,
    events: Seq<EventView>,
    position: int,
    draw: Draw,
)
    requires
        0 <= position < events.len(),
        state.dispatch(events, position, draw).result is Ok,
    ensures
        ({
            let after = state.dispatch(events, position, draw).result->Ok_0;
            &&& state.blocks.len() <= after.blocks.len() <= state.blocks.len() + 1
            &&& forall|i: int|
                0 <= i < state.blocks.len() && !(state.open && i == state.blocks.len() - 1)
                    ==> after.blocks[i] == state.blocks[i]
            &&& state.has_open_block() ==> grown_from(
                after.blocks[state.blocks.len() - 1],
                state.current(),
            )
        }),
{
    let after = state.dispatch(events, position, draw).result->Ok_0;
    if state.has_open_block() {
        let earlier = state.current();
        let later = after.blocks[state.blocks.len() - 1];
        assert(earlier.mark_defs.is_prefix_of(earlier.mark_defs));
        match events[position] {
            EventView::Start(TagView::Link(href, _)) => {
                assert(earlier.mark_defs.is_prefix_of(later.mark_defs));
            },
            EventView::Start(TagView::Image(_, _)) => {
                assert(earlier.mark_defs.is_prefix_of(later.mark_defs));
            },
            EventView::Text(text) => {
                if earlier.children.len() > 0 {
                    assert(earlier.children.last().text.is_prefix_of(
                        earlier.children.last().text + text,
                    ));
                }
            },
            EventView::SoftBreak => {
                if earlier.children.len() > 0 {
                    assert(earlier.children.last().text.is_prefix_of(
                        earlier.children.last().text + seq![' '],
                    ));
                }
            },
            _ => {},
        }
        if earlier.children.len() > 0 {
            assert(earlier.children.last().text.is_prefix_of(earlier.children.last().text));
        }
    }
}

/// Whether no two spans in a row are both without marks.
pub open spec fn plain_spans_apart(block: BlockView) -> bool {
    forall|i: int|
        0 <= i < block.children.len() - 1 ==> (#[trigger] block.children[i]).marks.len() > 0
            || block.children[i + 1].marks.len() > 0
}

/// Whether in every block no two spans in a row are both without marks.
pub open spec fn all_plain_spans_apart(blocks: Seq<BlockView>) -> bool {
    forall|i: int| 0 <= i < blocks.len() ==> plain_spans_apart(#[trigger] blocks[i])
}

/// A span with a mark, or after a span with a mark, or first in its block,
/// keeps the spans without marks apart.
proof fn lemma_span_keeps_apart(state: State, text: Seq<char>, kind: Seq<char>)
    requires
        all_plain_spans_apart(state.blocks),
        state.marks.len() > 0 || !state.has_last_span() || state.last_span().marks.len() > 0,
    ensures
        all_plain_spans_apart(state.add_span_with_type(text, kind).blocks),
{
    let after = state.add_span_with_type(text, kind);
    if state.has_open_block() {
        let earlier = state.current();
        let later = after.current();
        assert(plain_spans_apart(earlier));
        assert forall|j: int| 0 <= j < later.children.len() - 1 implies (
        #[trigger] later.children[j]).marks.len() > 0 || later.children[j + 1].marks.len()
            > 0 by {
            if j < earlier.children.len() - 1 {
                assert(earlier.children[j].marks.len() > 0 || earlier.children[j + 1].marks.len()
                    > 0);
            }
        }
        assert forall|i: int| 0 <= i < after.blocks.len() implies plain_spans_apart(
            #[trigger] after.blocks[i],
        ) by {
            if i < state.blocks.len() - 1 {
                assert(plain_spans_apart(state.blocks[i]));
            }
        }
    }
}

/// More text in the last span keeps the spans without marks apart.
proof fn lemma_text_keeps_apart(state: State, suffix: Seq<char>)
    requires
        all_plain_spans_apart(state.blocks),
    ensures
        all_plain_spans_apart(state.add_text(suffix).blocks),
{
    let after = state.add_text(suffix);
    if state.has_last_span() {
        let earlier = state.current();
        let later = after.current();
        assert(plain_spans_apart(earlier));
        assert forall|j: int| 0 <= j < later.children.len() - 1 implies (
        #[trigger] later.children[j]).marks.len() > 0 || later.children[j + 1].marks.len()
            > 0 by {
            assert(earlier.children[j].marks.len() > 0 || earlier.children[j + 1].marks.len() > 0);
        }
        assert forall|i: int| 0 <= i < after.blocks.len() implies plain_spans_apart(
            #[trigger] after.blocks[i],
        ) by {
            if i < state.blocks.len() - 1 {
                assert(plain_spans_apart(state.blocks[i]));
            }
        }
    }
}

/// A definition changes no span.
proof fn lemma_definition_keeps_apart(state: State, def: MarkDefView)
    requires
        all_plain_spans_apart(state.blocks),
    ensures
        all_plain_spans_apart(state.add_mark_def(def).blocks),
{
    let after = state.add_mark_def(def);
    if state.has_open_block() {
        assert(plain_spans_apart(state.current()));
        assert forall|i: int| 0 <= i < after.blocks.len() implies plain_spans_apart(
            #[trigger] after.blocks[i],
        ) by {
            if i < state.blocks.len() - 1 {
                assert(plain_spans_apart(state.blocks[i]));
            }
        }
    }
}

/// A block without spans keeps the spans without marks apart.
proof fn lemma_write_keeps_apart(state: State, block: BlockView)
    requires
        all_plain_spans_apart(state.blocks),
        block.children.len() == 0,
    ensures
        all_plain_spans_apart(state.write(block).blocks),
{
    let after = state.write(block);
    assert forall|i: int| 0 <= i < after.blocks.len() implies plain_spans_apart(
        #[trigger] after.blocks[i],
    ) by {
        if i < state.blocks.len() {
            assert(plain_spans_apart(state.blocks[i]));
        }
    }
}

/// No event leaves two spans in a row that are both without marks.
pub proof fn lemma_dispatch_keeps_plain_spans_apart(
    state: State,
    events: Seq<EventView>,
    position: int,
    draw: Draw,
)
    requires
        0 <= position < events.len(),
        all_plain_spans_apart(state.blocks),
    ensures
        state.dispatch(events, position, draw).result matches Ok(after) ==> all_plain_spans_apart(
            after.blocks,
        ),
{
    match events[position] {
        EventView::Start(tag) => {
            match tag {
                TagView::Paragraph => {
                    lemma_write_keeps_apart(state, BlockView::prose("normal"@));
                },
                TagView::BlockQuote => {
                    lemma_write_keeps_apart(state, BlockView::prose("blockquote"@));
                },
                TagView::CodeBlock(kind) => {
                    lemma_write_keeps_apart(
                        state,
                        BlockView::code_block(
                            kind.language(),
                            inner(events, position + 1, 0).text,
                        ),
                    );
                },
                TagView::Heading(level) => {
                    lemma_write_keeps_apart(state, BlockView::prose(heading_style(level)));
                },
                TagView::Item => {
                    lemma_write_keeps_apart(
                        state,
                        BlockView::list_entry(state.lists.len(), state.lists.last()),
                    );
                },
                TagView::Link(href, _) => {
                    lemma_definition_keeps_apart(state, MarkDefView::link(draw.key, href));
                },
                TagView::Image(_, title) => {
                    let def = MarkDefView::image(draw.key, draw.src, draw.picture, title);
                    lemma_definition_keeps_apart(state, def);
                    lemma_span_keeps_apart(
                        state.add_mark_def(def).mark_start(Mark::AssetReference(draw.key)),
                        inner(events, position + 1, 0).text,
                        "figure"@,
                    );
                },
                _ => {},
            }
        },
        EventView::Text(text) => {
            if state.merges_text() {
                lemma_text_keeps_apart(state, text);
            } else {
                lemma_span_keeps_apart(state, text, "span"@);
            }
        },
        EventView::Code(code) => {
            lemma_span_keeps_apart(state.mark_start(Mark::Code), code, "span"@);
        },
        EventView::SoftBreak => {
            lemma_text_keeps_apart(state, seq![' ']);
        },
        _ => {},
    }
}

/// Whatever the events, a conversion leaves no two spans in a row that are
/// both without marks.
pub proof fn lemma_plain_spans_apart(
    state: State,
    events: Seq<EventView>,
    start: int,
    draws: Seq<Draw>,
)
    requires
        0 <= start <= events.len(),
        all_plain_spans_apart(state.blocks),
    ensures
        start <= convert(state, events, start, draws).next <= events.len(),
        convert(state, events, start, draws).result matches Ok(after) ==> all_plain_spans_apart(
            after.blocks,
        ),
    decreases draws.len(),
{
    if draws.len() > 0 {
        lemma_plain_spans_apart(state, events, start, draws.drop_last());
        let before = convert(state, events, start, draws.drop_last());
        if before.result is Ok && before.next < events.len() {
            lemma_dispatch_advances(before.result->Ok_0, events, before.next, draws.last());
            lemma_dispatch_keeps_plain_spans_apart(
                before.result->Ok_0,
                events,
                before.next,
                draws.last(),
            );
        }
    }
}

/// In each block that a conversion appends, every reference in a span has
/// exactly one definition with its key, where the references nest in the
/// blocks.
pub proof fn lemma_pushed_blocks_bound(
    options: Options<'_>,
    events: Seq<EventView>,
    draws: Seq<Draw>,
    before: Seq<BlockView>,
    after: Seq<BlockView>,
)
    requires
        pushes(options, events, draws, before, after, Ok(())),
        references_nested(State::initial(), events, 0, draws),
    ensures
        forall|i: int| before.len() <= i < after.len() ==> binds_references(#[trigger] after[i]),
{
    lemma_references_bound(options, State::initial(), events, 0, draws);
    let reached = convert(State::initial(), events, 0, draws).result->Ok_0;
    assert forall|i: int| before.len() <= i < after.len() implies binds_references(
        #[trigger] after[i],
    ) by {
        assert(after[i] == reached.blocks[i - before.len()]);
    }
}

/// In each block that a conversion appends, no two spans in a row are both
/// without marks.
pub proof fn lemma_pushed_spans_apart(
    options: Options<'_>,
    events: Seq<EventView>,
    draws: Seq<Draw>,
    before: Seq<BlockView>,
    after: Seq<BlockView>,
)
    requires
        pushes(options, events, draws, before, after, Ok(())),
    ensures
        forall|i: int| before.len() <= i < after.len() ==> plain_spans_apart(#[trigger] after[i]),
{
    lemma_plain_spans_apart(State::initial(), events, 0, draws);
    let reached = convert(State::initial(), events, 0, draws).result->Ok_0;
    assert forall|i: int| before.len() <= i < after.len() implies plain_spans_apart(
        #[trigger] after[i],
    ) by {
        assert(after[i] == reached.blocks[i - before.len()]);
    }
}

} // verus!
