//! The portable-text tree: blocks, their spans and their mark definitions,
//! each with the mathematical value that the contracts speak of.

use vstd::prelude::*;
use crate::marks::{Decorators, Mark};

verus! {

/// One responsive source of a picture.
#[derive(Debug, PartialEq, Clone)]
pub struct Source {
    pub srcset: String,
    pub width: u32,
    pub height: u32,
    pub attr_type: String,
    pub media: Option<String>,
}

/// The value of a [`Source`].
pub struct SourceView {
    pub srcset: Seq<char>,
    pub width: u32,
    pub height: u32,
    pub attr_type: Seq<char>,
    pub media: Option<Seq<char>>,
}

impl View for Source {
    type V = SourceView;

    open spec fn view(&self) -> SourceView {
        SourceView {
            srcset: self.srcset@,
            width: self.width,
            height: self.height,
            attr_type: self.attr_type@,
            media: self.media.deep_view(),
        }
    }
}

impl DeepView for Source {
    type V = SourceView;

    open spec fn deep_view(&self) -> SourceView {
        self@
    }
}

/// What an asset resolver knows of a picture.
#[derive(Debug, PartialEq, Clone)]
pub struct Picture {
    pub src: String,
    pub alt: String,
    pub width: u32,
    pub height: u32,
    pub sources: Vec<Source>,
}

/// The value of a [`Picture`].
pub struct PictureView {
    pub src: Seq<char>,
    pub alt: Seq<char>,
    pub width: u32,
    pub height: u32,
    pub sources: Seq<SourceView>,
}

impl View for Picture {
    type V = PictureView;

    open spec fn view(&self) -> PictureView {
        PictureView {
            src: self.src@,
            alt: self.alt@,
            width: self.width,
            height: self.height,
            sources: self.sources.deep_view(),
        }
    }
}

impl DeepView for Picture {
    type V = PictureView;

    open spec fn deep_view(&self) -> PictureView {
        self@
    }
}

/// The definition of a link that spans refer to by key.
#[derive(Debug, PartialEq, Clone)]
pub struct MarkDefLink {
    pub _key: String,
    pub _type: String,
    pub href: String,
}

/// The definition of an image that spans refer to by key.
#[derive(Debug, PartialEq, Clone)]
pub struct MarkDefImage {
    pub _key: String,
    pub _type: String,
    pub src: String,
    pub picture: Picture,
    pub caption: Option<String>,
}

/// A mark definition of a block.
#[derive(Debug, PartialEq, Clone)]
pub enum MarkDef {
    Link(MarkDefLink),
    Image(MarkDefImage),
}

/// The value of a [`MarkDef`].
pub enum MarkDefView {
    Link { key: Seq<char>, kind: Seq<char>, href: Seq<char> },
    Image {
        key: Seq<char>,
        kind: Seq<char>,
        src: Seq<char>,
        picture: PictureView,
        caption: Option<Seq<char>>,
    },
}

impl MarkDefView {
    /// The key by which spans refer to this definition.
    pub open spec fn key(self) -> Seq<char> {
        match self {
            MarkDefView::Link { key, .. } => key,
            MarkDefView::Image { key, .. } => key,
        }
    }

    /// The definition that a link with the given key and target gets.
    pub open spec fn link(key: Seq<char>, href: Seq<char>) -> MarkDefView {
        MarkDefView::Link { key, kind: "link"@, href }
    }

    /// The definition that an image gets: the resolver's source and picture,
    /// and the title as caption unless it is empty.
    pub open spec fn image(
        key: Seq<char>,
        src: Seq<char>,
        picture: PictureView,
        title: Seq<char>,
    ) -> MarkDefView {
        MarkDefView::Image {
            key,
            kind: "image"@,
            src,
            picture,
            caption: if title.len() == 0 {
                None
            } else {
                Some(title)
            },
        }
    }
}

/// Whether one of the definitions has the given key.
pub open spec fn key_in_use(defs: Seq<MarkDefView>, key: Seq<char>) -> bool {
    exists|i: int| 0 <= i < defs.len() && (#[trigger] defs[i]).key() == key
}

impl View for MarkDefLink {
    type V = MarkDefView;

    open spec fn view(&self) -> MarkDefView {
        MarkDefView::Link { key: self._key@, kind: self._type@, href: self.href@ }
    }
}

impl View for MarkDefImage {
    type V = MarkDefView;

    open spec fn view(&self) -> MarkDefView {
        MarkDefView::Image {
            key: self._key@,
            kind: self._type@,
            src: self.src@,
            picture: self.picture@,
            caption: self.caption.deep_view(),
        }
    }
}

impl View for MarkDef {
    type V = MarkDefView;

    open spec fn view(&self) -> MarkDefView {
        match self {
            MarkDef::Link(link) => link@,
            MarkDef::Image(image) => image@,
        }
    }
}

impl DeepView for MarkDef {
    type V = MarkDefView;

    open spec fn deep_view(&self) -> MarkDefView {
        self@
    }
}

impl MarkDef {
    /// The key by which spans refer to this definition.
    pub fn key(&self) -> (key: &String)
        ensures
            key@ == self@.key(),
    {
        match self {
            MarkDef::Link(link) => &link._key,
            MarkDef::Image(image) => &image._key,
        }
    }
}

/// A reference to an asset together with its source.
#[derive(Debug, PartialEq, Clone)]
pub struct Asset {
    pub _ref: String,
    pub src: String,
}

/// The two kinds of list an item can belong to.
#[derive(Debug, PartialEq, Eq, Clone, Copy, Structural)]
pub enum ListItemType {
    Bullit,
    Numbered,
}

/// One run of text with the decorators that were active when it was written,
/// the outermost first.
#[derive(Debug, PartialEq, Clone)]
pub struct SpanNode {
    pub _type: String,
    pub text: String,
    pub marks: Vec<Decorators>,
}

/// The value of a [`SpanNode`].
pub struct SpanView {
    pub kind: Seq<char>,
    pub text: Seq<char>,
    pub marks: Seq<Mark>,
}

impl View for SpanNode {
    type V = SpanView;

    open spec fn view(&self) -> SpanView {
        SpanView { kind: self._type@, text: self.text@, marks: self.marks.deep_view() }
    }
}

impl DeepView for SpanNode {
    type V = SpanView;

    open spec fn deep_view(&self) -> SpanView {
        self@
    }
}

/// One structural unit of the document: a paragraph, a heading, a quotation,
/// a list item or a block of code.
#[derive(Debug, PartialEq, Clone)]
pub struct BlockNode {
    pub _type: String,
    pub style: Option<String>,
    pub children: Vec<SpanNode>,
    pub mark_defs: Vec<MarkDef>,
    pub level: Option<usize>,
    pub list_item: Option<ListItemType>,
    pub language: Option<String>,
    pub code: Option<String>,
}

/// The value of a [`BlockNode`].
pub struct BlockView {
    pub kind: Seq<char>,
    pub style: Option<Seq<char>>,
    pub children: Seq<SpanView>,
    pub mark_defs: Seq<MarkDefView>,
    pub level: Option<nat>,
    pub list_item: Option<ListItemType>,
    pub language: Option<Seq<char>>,
    pub code: Option<Seq<char>>,
}

impl BlockView {
    /// An empty block of prose in the given style.
    pub open spec fn prose(style: Seq<char>) -> BlockView {
        BlockView {
            kind: "block"@,
            style: Some(style),
            children: Seq::empty(),
            mark_defs: Seq::empty(),
            level: None,
            list_item: None,
            language: None,
            code: None,
        }
    }

    /// A block of code in the given language.
    pub open spec fn code_block(language: Seq<char>, code: Seq<char>) -> BlockView {
        BlockView {
            kind: "code"@,
            style: None,
            children: Seq::empty(),
            mark_defs: Seq::empty(),
            level: None,
            list_item: None,
            language: Some(language),
            code: Some(code),
        }
    }

    /// An empty list item at the given depth of the given kind of list.
    pub open spec fn list_entry(level: nat, list_item: ListItemType) -> BlockView {
        BlockView {
            kind: "block"@,
            style: Some("normal"@),
            children: Seq::empty(),
            mark_defs: Seq::empty(),
            level: Some(level),
            list_item: Some(list_item),
            language: None,
            code: None,
        }
    }

    /// A block is prose when it has a style and neither language nor code.
    /// Where it is a list item, it has both a kind of list and a level, and
    /// the level is at least one.
    pub open spec fn is_prose(self) -> bool {
        &&& self.style is Some
        &&& self.language is None
        &&& self.code is None
        &&& self.level is Some <==> self.list_item is Some
        &&& self.level matches Some(level) ==> level >= 1
    }

    /// A block is code when it has language and code, no style, and nothing
    /// of a list item.
    pub open spec fn is_code(self) -> bool {
        &&& self.style is None
        &&& self.language is Some
        &&& self.code is Some
        &&& self.level is None
        &&& self.list_item is None
    }

    /// Style and code are not both there.
    pub open spec fn exclusive(self) -> bool {
        !(self.style is Some && self.code is Some)
    }

    /// A block is either prose or code, never both.
    pub open spec fn well_shaped(self) -> bool {
        self.is_prose() || self.is_code()
    }

    /// Whether a mark definition of this block has the given key.
    pub open spec fn defines(self, key: Seq<char>) -> bool {
        key_in_use(self.mark_defs, key)
    }
}

/// Whether every block is either prose or code.
pub open spec fn all_well_shaped(blocks: Seq<BlockView>) -> bool {
    forall|i: int| 0 <= i < blocks.len() ==> (#[trigger] blocks[i]).well_shaped()
}

impl View for BlockNode {
    type V = BlockView;

    open spec fn view(&self) -> BlockView {
        BlockView {
            kind: self._type@,
            style: self.style.deep_view(),
            children: self.children.deep_view(),
            mark_defs: self.mark_defs.deep_view(),
            level: match self.level {
                Some(level) => Some(level as nat),
                None => None,
            },
            list_item: self.list_item,
            language: self.language.deep_view(),
            code: self.code.deep_view(),
        }
    }
}

impl DeepView for BlockNode {
    type V = BlockView;

    open spec fn deep_view(&self) -> BlockView {
        self@
    }
}

impl BlockNode {
    /// An empty block of prose in the given style.
    pub fn default(style: String) -> (block: BlockNode)
        ensures
            block@ == BlockView::prose(style@),
    {
        let block = BlockNode {
            _type: "block".to_owned(),
            style: Some(style),
            children: Vec::new(),
            mark_defs: Vec::new(),
            language: None,
            code: None,
            level: None,
            list_item: None,
        };
        assert(block@.children =~= Seq::empty());
        assert(block@.mark_defs =~= Seq::empty());
        block
    }

    /// A block of code in the given language.
    pub fn code(language: String, code: String) -> (block: BlockNode)
        ensures
            block@ == BlockView::code_block(language@, code@),
    {
        let block = BlockNode {
            _type: "code".to_owned(),
            style: None,
            children: Vec::new(),
            mark_defs: Vec::new(),
            language: Some(language),
            code: Some(code),
            level: None,
            list_item: None,
        };
        assert(block@.children =~= Seq::empty());
        assert(block@.mark_defs =~= Seq::empty());
        block
    }

    /// An empty list item at the given depth of the given kind of list.
    pub fn default_list_item(level: usize, list_item: ListItemType) -> (block: BlockNode)
        ensures
            block@ == BlockView::list_entry(level as nat, list_item),
    {
        let block = BlockNode {
            _type: "block".to_owned(),
            style: Some("normal".to_owned()),
            level: Some(level),
            list_item: Some(list_item),
            children: Vec::with_capacity(2),
            mark_defs: Vec::new(),
            language: None,
            code: None,
        };
        assert(block@.children =~= Seq::empty());
        assert(block@.mark_defs =~= Seq::empty());
        block
    }

    /// The same block with the given spans in place of its own.
    pub fn with_children(self, children: Vec<SpanNode>) -> (block: BlockNode)
        ensures
            block@ == (BlockView { children: children.deep_view(), ..self@ }),
    {
        let mut block = self;
        block.children = children;
        block
    }
}

} // verus!
