use portabletext::{
    push_portabletext, push_portabletext_with_opts, AssetReferenceResolver, BlockNode,
    CodeBlockKind, ConversionError, Decorators, Event, ListItemType, MarkDef, Options, Picture,
    PortabletextWriter, SpanNode, Tag,
};

fn text(text: &str) -> Event {
    Event::Text(text.to_string())
}

fn span(text: &str, marks: Vec<Decorators>) -> SpanNode {
    SpanNode { _type: "span".to_string(), text: text.to_string(), marks }
}

fn link(href: &str) -> Tag {
    Tag::Link(href.to_string(), String::new())
}

fn image(href: &str, title: &str) -> Tag {
    Tag::Image(href.to_string(), title.to_string())
}

fn convert(events: Vec<Event>) -> Vec<BlockNode> {
    let mut output = vec![];
    push_portabletext(&mut output, &events).unwrap();
    output
}

fn failure(events: Vec<Event>) -> ConversionError {
    let mut output = vec![];
    push_portabletext(&mut output, &events).unwrap_err()
}

fn key_of(def: &MarkDef) -> &String {
    match def {
        MarkDef::Link(link) => &link._key,
        MarkDef::Image(image) => &image._key,
    }
}

#[test]
fn consecutive_plain_texts_merge_into_one_span() {
    let blocks = convert(vec![
        Event::Start(Tag::Paragraph),
        text("Hello, "),
        text("world"),
        Event::End(Tag::Paragraph),
    ]);
    assert_eq!(1, blocks.len());
    assert_eq!(vec![span("Hello, world", vec![])], blocks[0].children);
}

#[test]
fn two_texts_convert_like_their_concatenation() {
    let apart = convert(vec![
        Event::Start(Tag::Heading(2)),
        Event::Start(Tag::Strong),
        text("bold"),
        Event::End(Tag::Strong),
        text("one"),
        text(" two"),
    ]);
    let joined = convert(vec![
        Event::Start(Tag::Heading(2)),
        Event::Start(Tag::Strong),
        text("bold"),
        Event::End(Tag::Strong),
        text("one two"),
    ]);
    assert_eq!(joined, apart);
    assert_eq!(
        vec![span("bold", vec![Decorators::Strong]), span("one two", vec![])],
        apart[0].children
    );
}

#[test]
fn texts_do_not_merge_while_a_mark_is_active() {
    let blocks = convert(vec![
        Event::Start(Tag::Paragraph),
        Event::Start(Tag::Strong),
        text("a"),
        text("b"),
        Event::End(Tag::Strong),
        Event::End(Tag::Paragraph),
    ]);
    assert_eq!(
        vec![span("a", vec![Decorators::Strong]), span("b", vec![Decorators::Strong])],
        blocks[0].children
    );
}

#[test]
fn marks_are_listed_outer_to_inner() {
    let strong_first = convert(vec![
        Event::Start(Tag::Paragraph),
        Event::Start(Tag::Strong),
        Event::Start(Tag::Emphasis),
        text("x"),
    ]);
    assert_eq!(
        vec![Decorators::Strong, Decorators::Emphasis],
        strong_first[0].children[0].marks
    );

    let emphasis_first = convert(vec![
        Event::Start(Tag::Paragraph),
        Event::Start(Tag::Emphasis),
        Event::Start(Tag::Strikethrough),
        Event::Start(Tag::Strong),
        text("x"),
    ]);
    assert_eq!(
        vec![Decorators::Emphasis, Decorators::Strike, Decorators::Strong],
        emphasis_first[0].children[0].marks
    );
}

#[test]
fn a_mark_that_ends_out_of_order_leaves_the_others_in_place() {
    let blocks = convert(vec![
        Event::Start(Tag::Paragraph),
        Event::Start(Tag::Strong),
        Event::Start(Tag::Emphasis),
        Event::Start(Tag::Strikethrough),
        Event::End(Tag::Emphasis),
        text("x"),
        Event::End(Tag::Strong),
        text("y"),
    ]);
    assert_eq!(
        vec![
            span("x", vec![Decorators::Strong, Decorators::Strike]),
            span("y", vec![Decorators::Strike]),
        ],
        blocks[0].children
    );
}

#[test]
fn ending_a_mark_takes_out_the_first_of_its_kind() {
    let blocks = convert(vec![
        Event::Start(Tag::Paragraph),
        Event::Start(Tag::Strong),
        Event::Start(Tag::Emphasis),
        Event::Start(Tag::Strong),
        Event::End(Tag::Strong),
        text("x"),
    ]);
    assert_eq!(
        vec![span("x", vec![Decorators::Emphasis, Decorators::Strong])],
        blocks[0].children
    );
}

#[test]
fn list_items_carry_the_depth_of_their_list() {
    let blocks = convert(vec![
        Event::Start(Tag::List(true)),
        Event::Start(Tag::Item),
        text("one"),
        Event::End(Tag::Item),
        Event::Start(Tag::Item),
        text("two"),
        Event::Start(Tag::List(false)),
        Event::Start(Tag::Item),
        text("two a"),
        Event::End(Tag::Item),
        Event::Start(Tag::Item),
        text("two b"),
        Event::Start(Tag::List(true)),
        Event::Start(Tag::Item),
        text("deep"),
        Event::End(Tag::Item),
        Event::End(Tag::List(true)),
        Event::End(Tag::Item),
        Event::Start(Tag::Item),
        text("two c"),
        Event::End(Tag::Item),
        Event::End(Tag::List(false)),
        Event::End(Tag::Item),
        Event::Start(Tag::Item),
        text("three"),
        Event::End(Tag::Item),
        Event::End(Tag::List(true)),
    ]);
    let shape: Vec<(Option<usize>, Option<ListItemType>, String)> = blocks
        .iter()
        .map(|block| (block.level, block.list_item, block.children[0].text.clone()))
        .collect();
    assert_eq!(
        vec![
            (Some(1), Some(ListItemType::Numbered), "one".to_string()),
            (Some(1), Some(ListItemType::Numbered), "two".to_string()),
            (Some(2), Some(ListItemType::Bullit), "two a".to_string()),
            (Some(2), Some(ListItemType::Bullit), "two b".to_string()),
            (Some(3), Some(ListItemType::Numbered), "deep".to_string()),
            (Some(2), Some(ListItemType::Bullit), "two c".to_string()),
            (Some(1), Some(ListItemType::Numbered), "three".to_string()),
        ],
        shape
    );
    assert_eq!(
        BlockNode::default_list_item(3, ListItemType::Numbered)
            .with_children(vec![span("deep", vec![])]),
        blocks[4]
    );
}

#[test]
fn every_reference_has_exactly_one_definition() {
    let blocks = convert(vec![
        Event::Start(Tag::Paragraph),
        Event::Start(link("https://one.example")),
        text("one"),
        Event::End(link("https://one.example")),
        Event::Start(link("https://two.example")),
        Event::Start(image("/two.png", "")),
        text("two"),
        Event::End(image("/two.png", "")),
        Event::End(link("https://two.example")),
        Event::End(Tag::Paragraph),
        Event::Start(Tag::Paragraph),
        Event::Start(image("/three.png", "three")),
        Event::End(image("/three.png", "three")),
        Event::End(Tag::Paragraph),
    ]);
    assert_eq!(2, blocks.len());
    assert_eq!(3, blocks[0].mark_defs.len());
    assert_eq!(1, blocks[1].mark_defs.len());
    let mut references = 0;
    for block in &blocks {
        for span in &block.children {
            for mark in &span.marks {
                let key = match mark {
                    Decorators::LinkReference(key) => key,
                    Decorators::AssetReference(key) => key,
                    _ => continue,
                };
                references += 1;
                let definitions =
                    block.mark_defs.iter().filter(|def| key_of(def) == key).count();
                assert_eq!(1, definitions);
            }
        }
    }
    assert_eq!(4, references);
}

#[test]
fn keys_are_twelve_letters_or_digits_and_differ() {
    let blocks = convert(vec![
        Event::Start(Tag::Paragraph),
        Event::Start(link("https://one.example")),
        Event::End(link("https://one.example")),
        Event::Start(link("https://two.example")),
        Event::End(link("https://two.example")),
        Event::Start(image("/three.png", "")),
        Event::End(image("/three.png", "")),
    ]);
    let keys: Vec<&String> = blocks[0].mark_defs.iter().map(key_of).collect();
    assert_eq!(3, keys.len());
    for key in &keys {
        assert_eq!(12, key.chars().count());
        assert!(key.chars().all(|c| c.is_ascii_alphanumeric()));
    }
    assert_ne!(keys[0], keys[1]);
    assert_ne!(keys[0], keys[2]);
    assert_ne!(keys[1], keys[2]);
}

#[test]
fn no_block_has_both_style_and_code() {
    let blocks = convert(vec![
        Event::Start(Tag::Heading(1)),
        text("title"),
        Event::End(Tag::Heading(1)),
        Event::Start(Tag::CodeBlock(CodeBlockKind::Fenced("rust".to_string()))),
        text("fn main() {}\n"),
        Event::End(Tag::CodeBlock(CodeBlockKind::Fenced("rust".to_string()))),
        Event::Start(Tag::BlockQuote),
        text("quote"),
        Event::End(Tag::BlockQuote),
        Event::Start(Tag::List(false)),
        Event::Start(Tag::Item),
        text("item"),
        Event::End(Tag::Item),
        Event::End(Tag::List(false)),
        Event::Start(Tag::CodeBlock(CodeBlockKind::Indented)),
        text("plain"),
        Event::End(Tag::CodeBlock(CodeBlockKind::Indented)),
    ]);
    assert_eq!(5, blocks.len());
    for block in &blocks {
        assert!(!(block.style.is_some() && block.code.is_some()));
        assert_eq!(block.code.is_some(), block.language.is_some());
        assert!(block.style.is_some() || block.code.is_some());
    }
    assert_eq!(BlockNode::code("rust".to_string(), "fn main() {}\n".to_string()), blocks[1]);
}

#[test]
fn a_link_inside_emphasis_is_marked_em_then_key() {
    let blocks = convert(vec![
        Event::Start(Tag::Paragraph),
        Event::Start(Tag::Emphasis),
        Event::Start(link("https://example.com")),
        text("a link"),
        Event::End(link("https://example.com")),
        Event::End(Tag::Emphasis),
        Event::End(Tag::Paragraph),
    ]);
    assert_eq!(1, blocks[0].mark_defs.len());
    let definition = match &blocks[0].mark_defs[0] {
        MarkDef::Link(link) => link,
        _ => panic!(),
    };
    assert_eq!("link", definition._type);
    assert_eq!("https://example.com", definition.href);
    assert_eq!(
        vec![span(
            "a link",
            vec![Decorators::Emphasis, Decorators::LinkReference(definition._key.clone())]
        )],
        blocks[0].children
    );
    let values: Vec<String> =
        blocks[0].children[0].marks.iter().map(|mark| mark.mark_value()).collect();
    assert_eq!(vec!["em".to_string(), definition._key.clone()], values);
}

#[test]
fn a_soft_break_joins_the_lines_with_one_space() {
    let blocks = convert(vec![
        Event::Start(Tag::Paragraph),
        text("new line"),
        Event::SoftBreak,
        text("continues"),
        Event::End(Tag::Paragraph),
    ]);
    assert_eq!(vec![span("new line continues", vec![])], blocks[0].children);
}

#[test]
fn a_soft_break_extends_a_marked_span_too() {
    let blocks = convert(vec![
        Event::Start(Tag::Paragraph),
        Event::Start(Tag::Strong),
        text("bold"),
        Event::End(Tag::Strong),
        Event::SoftBreak,
        text("plain"),
    ]);
    assert_eq!(
        vec![span("bold ", vec![Decorators::Strong]), span("plain", vec![])],
        blocks[0].children
    );
}

#[test]
fn a_soft_break_without_a_span_changes_nothing() {
    let blocks = convert(vec![Event::SoftBreak, Event::Start(Tag::Paragraph), Event::SoftBreak]);
    assert_eq!(vec![BlockNode::default("normal".to_string())], blocks);
}

#[test]
fn an_image_with_a_title_has_it_as_caption() {
    let blocks = convert(vec![
        Event::Start(Tag::Paragraph),
        Event::Start(image("/assets/rock.jpg", "A rock")),
        text("An old rock"),
        Event::End(image("/assets/rock.jpg", "A rock")),
        Event::End(Tag::Paragraph),
    ]);
    let definition = match &blocks[0].mark_defs[0] {
        MarkDef::Image(image) => image,
        _ => panic!(),
    };
    assert_eq!("image", definition._type);
    assert_eq!(Some("A rock".to_string()), definition.caption);
    assert_eq!("/assets/rock.jpg", definition.src);
    assert_eq!(
        Picture {
            src: "/assets/rock.jpg".to_string(),
            alt: "An old rock".to_string(),
            width: 999,
            height: 999,
            sources: vec![],
        },
        definition.picture
    );
    assert_eq!(
        vec![SpanNode {
            _type: "figure".to_string(),
            text: "An old rock".to_string(),
            marks: vec![Decorators::AssetReference(definition._key.clone())],
        }],
        blocks[0].children
    );
}

#[test]
fn an_image_without_a_title_has_no_caption() {
    let blocks = convert(vec![
        Event::Start(Tag::Paragraph),
        Event::Start(image("/assets/rock.jpg", "")),
        text("alt"),
        Event::End(image("/assets/rock.jpg", "")),
    ]);
    match &blocks[0].mark_defs[0] {
        MarkDef::Image(image) => assert_eq!(None, image.caption),
        _ => panic!(),
    }
}

#[test]
fn an_image_leaves_the_active_marks_as_they_were() {
    let blocks = convert(vec![
        Event::Start(Tag::Paragraph),
        Event::Start(Tag::Strong),
        Event::Start(image("/a.png", "")),
        text("alt"),
        Event::End(image("/a.png", "")),
        text("after"),
    ]);
    let key = key_of(&blocks[0].mark_defs[0]).clone();
    assert_eq!(
        vec![
            SpanNode {
                _type: "figure".to_string(),
                text: "alt".to_string(),
                marks: vec![Decorators::Strong, Decorators::AssetReference(key)],
            },
            span("after", vec![Decorators::Strong]),
        ],
        blocks[0].children
    );
}

#[test]
fn an_image_outside_any_block_is_dropped_with_its_alternative_text() {
    let blocks = convert(vec![
        Event::Start(image("/a.png", "title")),
        text("alt"),
        Event::End(image("/a.png", "title")),
        Event::Start(Tag::Paragraph),
        text("after"),
    ]);
    assert_eq!(
        vec![BlockNode::default("normal".to_string()).with_children(vec![span("after", vec![])])],
        blocks
    );
}

#[test]
fn alternative_text_flattens_what_is_nested_in_the_image() {
    let blocks = convert(vec![
        Event::Start(Tag::Paragraph),
        Event::Start(image("/a.png", "")),
        text("an "),
        Event::Start(Tag::Emphasis),
        text("old"),
        Event::End(Tag::Emphasis),
        Event::SoftBreak,
        Event::Code("rock".to_string()),
        Event::HardBreak,
        Event::Html("<b>".to_string()),
        Event::Rule,
        Event::TaskListMarker,
        Event::FootnoteReference,
        Event::End(image("/a.png", "")),
        text(" after"),
        Event::End(Tag::Paragraph),
    ]);
    assert_eq!(2, blocks[0].children.len());
    assert_eq!("figure", blocks[0].children[0]._type);
    assert_eq!("an old rock <b> ", blocks[0].children[0].text);
    assert_eq!(span(" after", vec![]), blocks[0].children[1]);
}

#[test]
fn a_code_block_takes_its_body_and_its_end_with_it() {
    let fence = || Tag::CodeBlock(CodeBlockKind::Fenced("sh".to_string()));
    let blocks = convert(vec![
        Event::Start(fence()),
        text("ls\n"),
        text("pwd\n"),
        Event::End(fence()),
        Event::Start(Tag::BlockQuote),
        text("said"),
        Event::End(Tag::BlockQuote),
    ]);
    assert_eq!(
        vec![
            BlockNode::code("sh".to_string(), "ls\npwd\n".to_string()),
            BlockNode::default("blockquote".to_string())
                .with_children(vec![span("said", vec![])]),
        ],
        blocks
    );
}

#[test]
fn a_code_block_is_sealed_when_it_is_written() {
    let fence = || Tag::CodeBlock(CodeBlockKind::Fenced("sh".to_string()));
    let blocks = convert(vec![
        Event::Start(fence()),
        text("ls\n"),
        Event::End(fence()),
        text("dropped"),
        Event::Start(Tag::Paragraph),
        text("after"),
        Event::End(Tag::Paragraph),
    ]);
    assert_eq!(
        vec![
            BlockNode::code("sh".to_string(), "ls\n".to_string()),
            BlockNode::default("normal".to_string()).with_children(vec![span("after", vec![])]),
        ],
        blocks
    );
}

#[test]
fn an_indented_code_block_is_plain_text() {
    let blocks = convert(vec![
        Event::Start(Tag::CodeBlock(CodeBlockKind::Indented)),
        text("x = 1\n"),
        Event::End(Tag::CodeBlock(CodeBlockKind::Indented)),
    ]);
    assert_eq!(vec![BlockNode::code("plain_text".to_string(), "x = 1\n".to_string())], blocks);
    assert_eq!("code", blocks[0]._type);
    assert_eq!(None, blocks[0].style);
}

#[test]
fn an_inner_range_without_its_end_runs_to_the_end_of_the_stream() {
    let blocks = convert(vec![
        Event::Start(Tag::CodeBlock(CodeBlockKind::Indented)),
        text("a"),
        Event::Start(Tag::Paragraph),
        text("b"),
        Event::End(Tag::Paragraph),
        text("c"),
    ]);
    assert_eq!(vec![BlockNode::code("plain_text".to_string(), "abc".to_string())], blocks);
}

#[test]
fn heading_style_is_h_and_the_level_in_decimal() {
    let blocks = convert(vec![
        Event::Start(Tag::Heading(1)),
        Event::End(Tag::Heading(1)),
        Event::Start(Tag::Heading(6)),
        Event::End(Tag::Heading(6)),
        Event::Start(Tag::Heading(12)),
        Event::End(Tag::Heading(12)),
        Event::Start(Tag::Heading(0)),
        Event::End(Tag::Heading(0)),
        Event::Start(Tag::Heading(4294967295)),
        Event::End(Tag::Heading(4294967295)),
    ]);
    let styles: Vec<Option<String>> = blocks.iter().map(|block| block.style.clone()).collect();
    assert_eq!(
        vec![
            Some("h1".to_string()),
            Some("h6".to_string()),
            Some("h12".to_string()),
            Some("h0".to_string()),
            Some("h4294967295".to_string()),
        ],
        styles
    );
}

#[test]
fn a_paragraph_inside_an_open_block_opens_nothing() {
    let blocks = convert(vec![
        Event::Start(Tag::BlockQuote),
        Event::Start(Tag::Paragraph),
        text("first"),
        Event::End(Tag::Paragraph),
        Event::Start(Tag::Paragraph),
        text("second"),
        Event::End(Tag::Paragraph),
        Event::End(Tag::BlockQuote),
    ]);
    assert_eq!(
        vec![
            BlockNode::default("blockquote".to_string())
                .with_children(vec![span("first", vec![])]),
            BlockNode::default("normal".to_string()).with_children(vec![span("second", vec![])]),
        ],
        blocks
    );
}

#[test]
fn a_quotation_opens_a_block_even_inside_an_open_one() {
    let blocks = convert(vec![
        Event::Start(Tag::Paragraph),
        Event::Start(Tag::BlockQuote),
        text("inside"),
    ]);
    assert_eq!(
        vec![
            BlockNode::default("normal".to_string()),
            BlockNode::default("blockquote".to_string())
                .with_children(vec![span("inside", vec![])]),
        ],
        blocks
    );
}

#[test]
fn text_outside_any_block_is_dropped() {
    let blocks = convert(vec![
        text("before"),
        Event::Code("before".to_string()),
        Event::Start(Tag::Paragraph),
        text("inside"),
        Event::End(Tag::Paragraph),
        text("after"),
        Event::Code("after".to_string()),
        Event::SoftBreak,
    ]);
    assert_eq!(
        vec![BlockNode::default("normal".to_string()).with_children(vec![span("inside", vec![])])],
        blocks
    );
}

#[test]
fn ignored_events_change_nothing() {
    let blocks = convert(vec![
        Event::Start(Tag::Paragraph),
        text("a"),
        Event::Html("<br>".to_string()),
        Event::FootnoteReference,
        Event::Rule,
        Event::HardBreak,
        Event::TaskListMarker,
        Event::Start(Tag::FootnoteDefinition),
        Event::Start(Tag::Table),
        Event::Start(Tag::TableHead),
        Event::Start(Tag::TableRow),
        Event::Start(Tag::TableCell),
        Event::End(Tag::TableCell),
        Event::End(Tag::TableRow),
        Event::End(Tag::TableHead),
        Event::End(Tag::Table),
        Event::End(Tag::FootnoteDefinition),
        text("b"),
    ]);
    assert_eq!(
        vec![BlockNode::default("normal".to_string()).with_children(vec![span("ab", vec![])])],
        blocks
    );
}

#[test]
fn inline_code_is_a_span_of_its_own_inside_the_active_marks() {
    let blocks = convert(vec![
        Event::Start(Tag::Paragraph),
        text("a"),
        Event::Code("b".to_string()),
        Event::Code("c".to_string()),
        Event::Start(Tag::Strong),
        Event::Code("d".to_string()),
        text("e"),
    ]);
    assert_eq!(
        vec![
            span("a", vec![]),
            span("b", vec![Decorators::Code]),
            span("c", vec![Decorators::Code]),
            span("d", vec![Decorators::Strong, Decorators::Code]),
            span("e", vec![Decorators::Strong]),
        ],
        blocks[0].children
    );
}

#[test]
fn the_end_of_a_mark_that_is_not_active_is_a_structural_imbalance() {
    assert_eq!(
        ConversionError::StructuralImbalance { position: 0 },
        failure(vec![Event::End(Tag::Strong)])
    );
    assert_eq!(
        ConversionError::StructuralImbalance { position: 2 },
        failure(vec![
            Event::Start(Tag::Paragraph),
            Event::Start(Tag::Strong),
            Event::End(Tag::Emphasis),
            text("never reached"),
        ])
    );
    assert_eq!(
        ConversionError::StructuralImbalance { position: 3 },
        failure(vec![
            Event::Start(Tag::Paragraph),
            Event::Start(Tag::Strikethrough),
            Event::End(Tag::Strikethrough),
            Event::End(Tag::Strikethrough),
        ])
    );
}

#[test]
fn the_end_of_a_list_that_is_not_open_is_a_structural_imbalance() {
    assert_eq!(
        ConversionError::StructuralImbalance { position: 2 },
        failure(vec![
            Event::Start(Tag::List(false)),
            Event::End(Tag::List(false)),
            Event::End(Tag::List(false)),
        ])
    );
}

#[test]
fn an_item_outside_any_list_is_a_structural_imbalance() {
    assert_eq!(
        ConversionError::StructuralImbalance { position: 1 },
        failure(vec![Event::Start(Tag::Paragraph), Event::Start(Tag::Item)])
    );
}

#[test]
fn the_end_of_a_link_without_its_definition_is_an_unresolved_reference() {
    assert_eq!(
        ConversionError::UnresolvedMarkReference { position: 1 },
        failure(vec![Event::Start(Tag::Paragraph), Event::End(link("https://example.com"))])
    );
    assert_eq!(
        ConversionError::UnresolvedMarkReference { position: 1 },
        failure(vec![
            Event::Start(link("https://example.com")),
            Event::End(link("https://example.com")),
        ])
    );
    assert_eq!(
        ConversionError::UnresolvedMarkReference { position: 3 },
        failure(vec![
            Event::Start(Tag::Paragraph),
            Event::Start(link("https://example.com")),
            Event::Start(Tag::Heading(1)),
            Event::End(link("https://example.com")),
        ])
    );
    assert_eq!(
        ConversionError::UnresolvedMarkReference { position: 2 },
        failure(vec![
            Event::Start(Tag::Paragraph),
            Event::Start(link("https://example.com")),
            Event::End(link("https://other.example")),
        ])
    );
}

#[test]
fn the_end_of_a_link_finds_the_first_definition_with_its_target() {
    let again = failure(vec![
        Event::Start(Tag::Paragraph),
        Event::Start(link("https://example.com")),
        text("once"),
        Event::End(link("https://example.com")),
        Event::Start(link("https://example.com")),
        text("twice"),
        Event::End(link("https://example.com")),
    ]);
    assert_eq!(ConversionError::StructuralImbalance { position: 6 }, again);
}

#[test]
fn a_failed_conversion_leaves_the_output_as_it_was() {
    let before = vec![BlockNode::default("h1".to_string()).with_children(vec![span("kept", vec![])])];
    let mut output = before.clone();
    let events = vec![
        Event::Start(Tag::Paragraph),
        text("lost"),
        Event::End(Tag::Paragraph),
        Event::End(Tag::Strong),
    ];
    assert_eq!(
        Err(ConversionError::StructuralImbalance { position: 3 }),
        push_portabletext(&mut output, &events)
    );
    assert_eq!(before, output);
}

#[test]
fn blocks_are_appended_after_what_the_output_holds() {
    let before = vec![BlockNode::default("h1".to_string()).with_children(vec![span("kept", vec![])])];
    let mut output = before.clone();
    let events = vec![text("dropped"), Event::Start(Tag::Paragraph), text("new")];
    assert_eq!(Ok(()), push_portabletext(&mut output, &events));
    assert_eq!(2, output.len());
    assert_eq!(before[0], output[0]);
    assert_eq!(
        BlockNode::default("normal".to_string()).with_children(vec![span("new", vec![])]),
        output[1]
    );
}

#[test]
fn no_events_no_blocks() {
    assert_eq!(Vec::<BlockNode>::new(), convert(vec![]));
}

struct Cdn;

impl AssetReferenceResolver for Cdn {
    fn resolve(&self, reference: String) -> String {
        format!("https://cdn.example{}", reference)
    }

    fn resolve_picture(&self, reference: String, alt: String) -> Picture {
        Picture {
            src: format!("https://cdn.example{}?w=640", reference),
            alt: format!("[{}]", alt),
            width: 640,
            height: 480,
            sources: vec![],
        }
    }
}

#[test]
fn what_the_resolver_returns_goes_into_the_definition() {
    let events = vec![
        Event::Start(Tag::Paragraph),
        Event::Start(image("/rock.jpg", "")),
        text("a "),
        text("rock"),
        Event::End(image("/rock.jpg", "")),
    ];
    let mut output = vec![];
    let pushed = push_portabletext_with_opts(&mut output, &events, Options { asset_resolver: &Cdn });
    assert_eq!(Ok(()), pushed);
    let definition = match &output[0].mark_defs[0] {
        MarkDef::Image(image) => image,
        _ => panic!(),
    };
    assert_eq!("https://cdn.example/rock.jpg", definition.src);
    assert_eq!(
        Picture {
            src: "https://cdn.example/rock.jpg?w=640".to_string(),
            alt: "[a rock]".to_string(),
            width: 640,
            height: 480,
            sources: vec![],
        },
        definition.picture
    );
    assert_eq!("a rock", output[0].children[0].text);
}

#[test]
fn the_default_options_resolve_a_reference_to_itself() {
    let options = Options::default();
    assert_eq!("/a.png", options.asset_resolver.resolve("/a.png".to_string()));
    assert_eq!(
        Picture {
            src: "/a.png".to_string(),
            alt: "alt".to_string(),
            width: 999,
            height: 999,
            sources: vec![],
        },
        options.asset_resolver.resolve_picture("/a.png".to_string(), "alt".to_string())
    );
}

#[test]
fn a_writer_runs_from_the_start_of_its_events() {
    let events = vec![Event::Start(Tag::Heading(3)), text("Hey"), Event::End(Tag::Heading(3))];
    let blocks = PortabletextWriter::new(&events, Options::default()).run();
    assert_eq!(
        Ok(vec![BlockNode::default("h3".to_string()).with_children(vec![span("Hey", vec![])])]),
        blocks
    );
    let failing = vec![Event::End(Tag::List(true))];
    assert_eq!(
        Err(ConversionError::StructuralImbalance { position: 0 }),
        PortabletextWriter::new(&failing, Options::default()).run()
    );
}

#[test]
fn each_decorator_has_its_mark_value() {
    assert_eq!("em", Decorators::Emphasis.mark_value());
    assert_eq!("strong", Decorators::Strong.mark_value());
    assert_eq!("strike", Decorators::Strike.mark_value());
    assert_eq!("underline", Decorators::Underline.mark_value());
    assert_eq!("code", Decorators::Code.mark_value());
    assert_eq!("a23xas", Decorators::LinkReference("a23xas".to_owned()).mark_value());
    assert_eq!("b42", Decorators::AssetReference("b42".to_owned()).mark_value());
}

#[test]
fn decorators_are_the_same_by_variant_and_key() {
    let link = Decorators::LinkReference("k1".to_string());
    assert!(link.same_as(&Decorators::LinkReference("k1".to_string())));
    assert!(!link.same_as(&Decorators::LinkReference("k2".to_string())));
    assert!(!link.same_as(&Decorators::AssetReference("k1".to_string())));
    assert!(Decorators::Strong.same_as(&Decorators::Strong));
    assert!(!Decorators::Strong.same_as(&Decorators::Emphasis));
    assert_eq!(link, link.duplicate());
    assert_eq!(Decorators::Underline, Decorators::Underline.duplicate());
}

#[test]
fn block_constructors_fill_the_fields_of_their_kind() {
    let prose = BlockNode::default("h2".to_string());
    assert_eq!("block", prose._type);
    assert_eq!(Some("h2".to_string()), prose.style);
    assert!(prose.children.is_empty() && prose.mark_defs.is_empty());
    assert_eq!((None, None, None, None), (prose.level, prose.list_item, prose.language, prose.code));

    let code = BlockNode::code("rust".to_string(), "x".to_string());
    assert_eq!("code", code._type);
    assert_eq!(None, code.style);
    assert_eq!(Some("rust".to_string()), code.language);
    assert_eq!(Some("x".to_string()), code.code);
    assert_eq!((None, None), (code.level, code.list_item));

    let item = BlockNode::default_list_item(2, ListItemType::Numbered);
    assert_eq!("block", item._type);
    assert_eq!(Some("normal".to_string()), item.style);
    assert_eq!(Some(2), item.level);
    assert_eq!(Some(ListItemType::Numbered), item.list_item);
    assert_eq!((None, None), (item.language, item.code));

    let filled = BlockNode::default_list_item(2, ListItemType::Numbered)
        .with_children(vec![span("x", vec![])]);
    assert_eq!(vec![span("x", vec![])], filled.children);
    assert_eq!(Some(2), filled.level);
}
