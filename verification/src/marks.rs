//! Decorators: the inline formatting that a span of text carries.

use vstd::prelude::*;

verus! {

/// An inline decorator. The static ones stand for a style; a reference carries
/// the key of a mark definition of the block that holds the span.
#[derive(Debug, PartialEq, Clone)]
pub enum Decorators {
    Emphasis,
    Strong,
    Strike,
    Underline,
    Code,
    LinkReference(String),
    AssetReference(String),
}

/// The mathematical value of a decorator: two decorators are the same mark
/// exactly when they are the same variant with the same key.
pub enum Mark {
    Emphasis,
    Strong,
    Strike,
    Underline,
    Code,
    LinkReference(Seq<char>),
    AssetReference(Seq<char>),
}

impl Mark {
    /// Whether the mark refers to a mark definition by key.
    pub open spec fn is_reference(self) -> bool {
        self is LinkReference || self is AssetReference
    }

    /// The key a reference carries; empty for a static mark.
    pub open spec fn key(self) -> Seq<char> {
        match self {
            Mark::LinkReference(key) => key,
            Mark::AssetReference(key) => key,
            _ => Seq::empty(),
        }
    }

    /// The text by which a mark is written in a span's list of marks: a fixed
    /// word for a static mark, the key for a reference.
    pub open spec fn value(self) -> Seq<char> {
        match self {
            Mark::Emphasis => "em"@,
            Mark::Strong => "strong"@,
            Mark::Strike => "strike"@,
            Mark::Underline => "underline"@,
            Mark::Code => "code"@,
            Mark::LinkReference(key) => key,
            Mark::AssetReference(key) => key,
        }
    }
}

impl View for Decorators {
    type V = Mark;

    open spec fn view(&self) -> Mark {
        match self {
            Decorators::Emphasis => Mark::Emphasis,
            Decorators::Strong => Mark::Strong,
            Decorators::Strike => Mark::Strike,
            Decorators::Underline => Mark::Underline,
            Decorators::Code => Mark::Code,
            Decorators::LinkReference(key) => Mark::LinkReference(key@),
            Decorators::AssetReference(key) => Mark::AssetReference(key@),
        }
    }
}

impl DeepView for Decorators {
    type V = Mark;

    open spec fn deep_view(&self) -> Mark {
        self@
    }
}

impl Decorators {
    /// The text that stands for this decorator in a serialized span.
    pub fn mark_value(&self) -> (value: String)
        ensures
            value@ == self@.value(),
    {
        match self {
            Decorators::Emphasis => "em".to_owned(),
            Decorators::Strong => "strong".to_owned(),
            Decorators::Strike => "strike".to_owned(),
            Decorators::Underline => "underline".to_owned(),
            Decorators::Code => "code".to_owned(),
            Decorators::LinkReference(key) => key.clone(),
            Decorators::AssetReference(key) => key.clone(),
        }
    }

    /// Whether two decorators are the same mark.
    pub fn same_as(&self, other: &Decorators) -> (same: bool)
        ensures
            same == (self@ == other@),
    {
        match (self, other) {
            (Decorators::Emphasis, Decorators::Emphasis) => true,
            (Decorators::Strong, Decorators::Strong) => true,
            (Decorators::Strike, Decorators::Strike) => true,
            (Decorators::Underline, Decorators::Underline) => true,
            (Decorators::Code, Decorators::Code) => true,
            (Decorators::LinkReference(a), Decorators::LinkReference(b)) => *a == *b,
            (Decorators::AssetReference(a), Decorators::AssetReference(b)) => *a == *b,
            _ => false,
        }
    }

    /// A copy of this decorator.
    pub fn duplicate(&self) -> (copy: Decorators)
        ensures
            copy@ == self@,
    {
        match self {
            Decorators::Emphasis => Decorators::Emphasis,
            Decorators::Strong => Decorators::Strong,
            Decorators::Strike => Decorators::Strike,
            Decorators::Underline => Decorators::Underline,
            Decorators::Code => Decorators::Code,
            Decorators::LinkReference(key) => Decorators::LinkReference(key.clone()),
            Decorators::AssetReference(key) => Decorators::AssetReference(key.clone()),
        }
    }
}

/// A copy of a sequence of decorators, in the same order.
pub fn copy_marks(marks: &Vec<Decorators>) -> (copy: Vec<Decorators>)
    ensures
        copy.deep_view() == marks.deep_view(),
{
    let mut copy: Vec<Decorators> = Vec::new();
    let mut i: usize = 0;
    while i < marks.len()
        invariant
            i <= marks.len(),
            copy.len() == i,
            forall|j: int| 0 <= j < i ==> copy[j]@ == marks[j]@,
        decreases marks.len() - i,
    {
        copy.push(marks[i].duplicate());
        i += 1;
    }
    copy
}

/// The place of the first decorator in `marks` that is the same mark as
/// `decorator`, if there is one.
pub fn position_of(marks: &Vec<Decorators>, decorator: &Decorators) -> (found: Option<usize>)
    ensures
        match found {
            Some(index) => marks.deep_view().index_of_first(decorator@) == Some(index as int),
            None => !marks.deep_view().contains(decorator@),
        },
{
    let ghost all = marks.deep_view();
    let mut i: usize = 0;
    while i < marks.len()
        invariant
            i <= marks.len(),
            all == marks.deep_view(),
            forall|j: int| 0 <= j < i ==> all[j] != decorator@,
        decreases marks.len() - i,
    {
        if marks[i].same_as(decorator) {
            proof {
                assert(all[i as int] == decorator@);
                all.index_of_first_ensures(decorator@);
            }
            return Some(i);
        }
        i += 1;
    }
    None
}

} // verus!
