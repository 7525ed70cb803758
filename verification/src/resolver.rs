//! The capability through which the conversion turns the raw reference of an
//! image into a source and a picture.

use vstd::prelude::*;
use crate::document::{Picture, PictureView};

verus! {

/// Resolves the raw reference of an image. What a resolver returns is its own
/// business, and may differ from call to call: the two spec functions say
/// which results it can give, and the conversion is proved for every such
/// result. A resolver has no way to tell the conversion that it failed: one
/// that must fail defines for itself how.
pub trait AssetReferenceResolver {
    /// Whether `resolve` can return `source` for `reference`. Unless a
    /// resolver says otherwise, it can return anything.
    open spec fn may_resolve_to(&self, reference: Seq<char>, source: Seq<char>) -> bool {
        true
    }

    /// Whether `resolve_picture` can return `picture` for `reference` and
    /// `alt`. Unless a resolver says otherwise, it can return anything.
    open spec fn may_describe(
        &self,
        reference: Seq<char>,
        alt: Seq<char>,
        picture: PictureView,
    ) -> bool {
        true
    }

    /// The source that stands for a raw reference.
    fn resolve(&self, reference: String) -> (source: String)
        ensures
            self.may_resolve_to(reference@, source@),
    ;

    /// The picture that stands for a raw reference with its alternative text.
    fn resolve_picture(&self, reference: String, alt: String) -> (picture: Picture)
        ensures
            self.may_describe(reference@, alt@, picture@),
    ;
}

/// The side of the placeholder picture that the identity resolver gives.
pub const PLACEHOLDER_SIDE: u32 = 999;

/// The picture that the identity resolver gives: the reference itself, the
/// alternative text, a square placeholder size and no sources.
pub open spec fn placeholder_picture(reference: Seq<char>, alt: Seq<char>) -> PictureView {
    PictureView {
        src: reference,
        alt,
        width: PLACEHOLDER_SIDE,
        height: PLACEHOLDER_SIDE,
        sources: Seq::empty(),
    }
}

/// The resolver that hands every reference back unchanged.
pub struct IdentityResolver;

impl AssetReferenceResolver for IdentityResolver {
    open spec fn may_resolve_to(&self, reference: Seq<char>, source: Seq<char>) -> bool {
        source == reference
    }

    open spec fn may_describe(
        &self,
        reference: Seq<char>,
        alt: Seq<char>,
        picture: PictureView,
    ) -> bool {
        picture == placeholder_picture(reference, alt)
    }

    fn resolve(&self, reference: String) -> (source: String) {
        reference
    }

    fn resolve_picture(&self, reference: String, alt: String) -> (picture: Picture) {
        let picture = Picture {
            src: reference,
            alt,
            width: PLACEHOLDER_SIDE,
            height: PLACEHOLDER_SIDE,
            sources: Vec::new(),
        };
        assert(picture@.sources =~= Seq::empty());
        picture
    }
}

/// What a conversion can be given besides the events.
pub struct Options<'a> {
    /// The resolver that every image of the document goes through.
    pub asset_resolver: &'a dyn AssetReferenceResolver,
}

impl<'a> Options<'a> {
    /// The options with the identity resolver.
    pub open spec fn identity() -> Options<'static> {
        Options { asset_resolver: &IdentityResolver {  } }
    }

    /// Whether these options resolve every reference to itself and every
    /// picture to the placeholder.
    pub open spec fn is_identity(self) -> bool {
        &&& forall|reference: Seq<char>, source: Seq<char>|
            #[trigger] self.asset_resolver.may_resolve_to(reference, source) <==> source
                == reference
        &&& forall|reference: Seq<char>, alt: Seq<char>, picture: PictureView|
            #[trigger] self.asset_resolver.may_describe(reference, alt, picture) <==> picture
                == placeholder_picture(reference, alt)
    }
}

/// The options with the identity resolver resolve every reference to itself
/// and every picture to the placeholder.
pub proof fn lemma_identity_options()
    ensures
        Options::identity().is_identity(),
{
}

impl<'a> Default for Options<'a> {
    /// The options with the identity resolver.
    fn default() -> (options: Self)
        ensures
            options == Options::identity(),
            options.is_identity(),
    {
        Options { asset_resolver: &IdentityResolver {  } }
    }
}

} // verus!
