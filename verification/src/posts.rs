//! Posts as they are submitted to the destination.

use crate::body::{body_html, clean, cleaned};
use crate::rewriter::{default_asset_root, pairs, Substitution, ASSET_ROOT};
use crate::text::{decimal_digits, format_u64, from_chars, trimmed};
use crate::transformer::{
    document_html, patterns_accepted, to_html, DEFAULT_THRESHOLD, FIRST_VARIANT, LAST_VARIANT,
};
use vstd::prelude::*;

verus! {

/// The destination's answer to a created post.
#[derive(Debug, PartialEq, Eq)]
pub struct PostReply {
    pub id: String,
    pub title: String,
    pub slug: String,
    pub created_at: String,
    pub updated_at: String,
    pub author_id: String,
}

/// A post. `html` is the body: in a row of the data source the legacy text,
/// in what is submitted the sanitized HTML. `image_url` is the primary
/// image, `tags` the names of the tags, joined by commas.
#[derive(Debug, Clone, PartialEq, Eq)]
pub struct PostData {
    pub id: u64,
    pub title: String,
    pub slug: String,
    pub html: String,
    pub created_at: String,
    pub updated_at: String,
    pub author_id: String,
    pub image_url: Option<String>,
    pub tags: Option<String>,
}

impl PostData {
    /// `self` and `other` differ at most in the body and the primary image.
    pub open spec fn same_post(self, other: PostData) -> bool {
        &&& self.id == other.id
        &&& self.title == other.title
        &&& self.slug == other.slug
        &&& self.created_at == other.created_at
        &&& self.updated_at == other.updated_at
        &&& self.author_id == other.author_id
        &&& self.tags == other.tags
    }

    /// This post with the body made from `content`: the legacy text is
    /// turned into HTML, with the sources of its image tags rewritten after
    /// the substitutions `subs` and the promotional block in a variant drawn
    /// at random, and the HTML is sanitized. An empty body, or one of
    /// nothing but white space, gives the empty body. Where the body holds
    /// more and the engine does not accept the patterns, `content` is
    /// sanitized as it is. What `self` held as its body plays no part.
    pub fn sanitize_with(self, content: String, subs: &[Substitution]) -> (out: Self)
        ensures
            out.same_post(self),
            out.image_url == self.image_url,
            trimmed(content@).len() == 0 ==> out.html@.len() == 0,
            patterns_accepted() ==> exists|variant: nat|
                FIRST_VARIANT <= variant <= LAST_VARIANT && out.html@ == #[trigger] body_html(
                    content@,
                    pairs(subs@),
                    default_asset_root(),
                    DEFAULT_THRESHOLD as nat,
                    variant,
                ),
            !patterns_accepted() && trimmed(content@).len() > 0 ==> out.html@ == cleaned(
                content@,
            ),
    {
        let html = to_html(content.as_str(), subs, ASSET_ROOT);
        proof {
            if patterns_accepted() {
                let variant = choose|variant: nat|
                    FIRST_VARIANT <= variant <= LAST_VARIANT && html@ == #[trigger] document_html(
                        content@,
                        pairs(subs@),
                        default_asset_root(),
                        DEFAULT_THRESHOLD as nat,
                        variant,
                    );
                assert(cleaned(html@) == body_html(
                    content@,
                    pairs(subs@),
                    default_asset_root(),
                    DEFAULT_THRESHOLD as nat,
                    variant,
                ));
            }
        }
        Self { html: clean(html.as_str()), ..self }
    }

    /// This post with the body made from `content`, as `sanitize_with` makes
    /// it without substitutions: image sources are rewritten to paths under
    /// `/content/images`.
    pub fn sanitize(self, content: String) -> (out: Self)
        ensures
            out.same_post(self),
            out.image_url == self.image_url,
            trimmed(content@).len() == 0 ==> out.html@.len() == 0,
            patterns_accepted() ==> exists|variant: nat|
                FIRST_VARIANT <= variant <= LAST_VARIANT && out.html@ == #[trigger] body_html(
                    content@,
                    Seq::empty(),
                    default_asset_root(),
                    DEFAULT_THRESHOLD as nat,
                    variant,
                ),
            !patterns_accepted() && trimmed(content@).len() > 0 ==> out.html@ == cleaned(
                content@,
            ),
    {
        let none: Vec<Substitution> = Vec::new();
        let ghost body = content@;
        let out = self.sanitize_with(content, none.as_slice());
        proof {
            assert(pairs(none@) == Seq::<(Seq<char>, Seq<char>)>::empty());
            if patterns_accepted() {
                let variant = choose|variant: nat|
                    FIRST_VARIANT <= variant <= LAST_VARIANT && out.html@ == #[trigger] body_html(
                        body,
                        pairs(none@),
                        default_asset_root(),
                        DEFAULT_THRESHOLD as nat,
                        variant,
                    );
                assert(out.html@ == body_html(
                    body,
                    Seq::empty(),
                    default_asset_root(),
                    DEFAULT_THRESHOLD as nat,
                    variant,
                ));
            }
        }
        out
    }

    /// This post as it is submitted: the primary image is `reference`, what
    /// the destination gave for the uploaded image, and is absent where
    /// there is none. The legacy URL is never submitted.
    pub fn with_reference(self, reference: Option<String>) -> (out: Self)
        ensures
            out.same_post(self),
            out.html == self.html,
            out.image_url == reference,
    {
        Self { image_url: reference, ..self }
    }

    /// The identifier under which this post's assets are uploaded.
    pub fn owner_id(&self) -> (out: String)
        ensures
            out@ == decimal_digits(self.id as nat),
    {
        from_chars(format_u64(self.id).as_slice())
    }
}

} // verus!
