//! A post body on its way to the destination: the images it embeds, what an
//! upload or the rewriter puts in their place, and the whole pipeline from
//! the legacy text to sanitized HTML.
//!
//! An upload's reference replaces the image wherever the body names it.
//! The rewriter's path replaces an image source in its place, and nothing
//! else.

use crate::bindings::{regex_accepts, sanitize, sanitized};
use crate::image::{ImageReply, UploadFailure};
use crate::matching::{
    found, group_positions, in_order, positions, scan, span_positions, Group,
};
use crate::rewriter::{pairs, rewrite_chars, rewritten_with, substitute, Substitution};
use crate::text::{extend, from_chars, replace, replaced, slice, starts_with, to_chars, trimmed};
use crate::transformer::{document_html, patterns_accepted, transform};
use vstd::prelude::*;

verus! {

/// The pattern of an image tag up to the end of its source, which is its
/// group 1.
pub const IMAGE_PATTERN: &'static str = r#"<img[^>]+src="([^">]+)"#;

/// What stands before the destination's reference where an uploaded image
/// is embedded.
pub const REFERENCE_PREFIX: &'static str = "__GHOST_URL__";

/// The texts of group 1 of the matches `caps` in `text`, in their order; a
/// match in which the group took no part gives none.
pub open spec fn sources_of(text: Seq<char>, caps: Seq<Seq<Group>>) -> Seq<Seq<char>>
    decreases caps.len(),
{
    if caps.len() == 0 {
        Seq::empty()
    } else {
        let before = sources_of(text, caps.drop_last());
        let groups = caps.last();
        if groups.len() > 1 && groups[1] is Some {
            before.push(text.subrange(groups[1].unwrap().0, groups[1].unwrap().1))
        } else {
            before
        }
    }
}

/// The sources of the image tags of `html`, in their order.
pub open spec fn image_sources_of(html: Seq<char>) -> Seq<Seq<char>> {
    sources_of(html, found(IMAGE_PATTERN@, html))
}

/// The texts that the strings of `v` hold.
pub open spec fn strings(v: Seq<String>) -> Seq<Seq<char>> {
    Seq::new(v.len(), |i: int| v[i]@)
}

/// `html` with the image `image_url` replaced, wherever it is named, by the
/// destination's reference `reference` for it.
pub open spec fn embedded(html: Seq<char>, image_url: Seq<char>, reference: Seq<char>) -> Seq<
    char,
> {
    replaced(html, image_url, REFERENCE_PREFIX@ + reference)
}

/// The source is a reference that the destination gave for an uploaded
/// image, and no legacy URL.
pub open spec fn is_reference(source: Seq<char>) -> bool {
    REFERENCE_PREFIX@.is_prefix_of(source)
}

/// What stands in the place of the image source `source`: what the rewriter
/// makes of it. A reference of the destination stays as it is.
pub open spec fn source_target(
    source: Seq<char>,
    subs: Seq<(Seq<char>, Seq<char>)>,
    root: Seq<char>,
) -> Seq<char> {
    if is_reference(source) {
        source
    } else {
        rewritten_with(source, subs, root)
    }
}

/// Where group `g` of each of the matches `caps` lies, in their order; a
/// match in which the group took no part gives none.
pub open spec fn group_spans(caps: Seq<Seq<Group>>, g: int) -> Seq<(int, int)>
    decreases caps.len(),
{
    if caps.len() == 0 {
        Seq::empty()
    } else {
        let before = group_spans(caps.drop_last(), g);
        let groups = caps.last();
        if 0 <= g < groups.len() && groups[g] is Some {
            before.push(groups[g].unwrap())
        } else {
            before
        }
    }
}

/// `html` from `from` on, with what each of `spans` covers replaced by
/// what stands in the place of that source. The spans are taken in order,
/// and nothing outside them changes. A span that begins before `from`, where
/// the span before it ended, or that does not lie within `html`, is passed
/// over.
pub open spec fn rewritten_from(
    html: Seq<char>,
    spans: Seq<(int, int)>,
    from: int,
    subs: Seq<(Seq<char>, Seq<char>)>,
    root: Seq<char>,
) -> Seq<char>
    decreases spans.len(),
{
    if spans.len() == 0 {
        html.subrange(from, html.len() as int)
    } else {
        let span = spans[0];
        if from <= span.0 <= span.1 <= html.len() {
            html.subrange(from, span.0) + source_target(html.subrange(span.0, span.1), subs, root)
                + rewritten_from(html, spans.drop_first(), span.1, subs, root)
        } else {
            rewritten_from(html, spans.drop_first(), from, subs, root)
        }
    }
}

/// `html` with the sources of its image tags rewritten, each in its place.
pub open spec fn images_rewritten(
    html: Seq<char>,
    subs: Seq<(Seq<char>, Seq<char>)>,
    root: Seq<char>,
) -> Seq<char> {
    rewritten_from(html, group_spans(found(IMAGE_PATTERN@, html), 1), 0, subs, root)
}

/// `html` after the sanitizer. The empty document is not handed to it, and
/// stays empty.
pub open spec fn cleaned(html: Seq<char>) -> Seq<char> {
    if html.len() == 0 {
        html
    } else {
        sanitized(html)
    }
}

/// What the legacy body `raw` becomes: its HTML, with the sources of the
/// image tags rewritten, after the sanitizer.
pub open spec fn body_html(
    raw: Seq<char>,
    subs: Seq<(Seq<char>, Seq<char>)>,
    root: Seq<char>,
    threshold: nat,
    variant: nat,
) -> Seq<char> {
    cleaned(document_html(raw, subs, root, threshold, variant))
}

/// The sources of the image tags of `html`, in their order; `None` exactly
/// where the engine does not accept the pattern of an image tag.
pub fn image_sources(html: &str) -> (r: Option<Vec<String>>)
    ensures
        r is Some <==> regex_accepts(IMAGE_PATTERN@),
        r matches Some(sources) ==> strings(sources@) == image_sources_of(html@),
{
    let chars = to_chars(html);
    let caps = match scan(IMAGE_PATTERN, chars.as_slice()) {
        Some(caps) => caps,
        None => {
            return None;
        },
    };
    let ghost all = positions(caps@);
    let mut out: Vec<String> = Vec::new();
    let mut k: usize = 0;
    proof {
        assert(all.take(0) == Seq::<Seq<Group>>::empty());
        assert(strings(out@) == Seq::<Seq<char>>::empty());
    }
    while k < caps.len()
        invariant
            k <= caps.len(),
            all == positions(caps@),
            in_order(all, chars@.len() as int),
            strings(out@) == sources_of(chars@, all.take(k as int)),
        decreases caps.len() - k,
    {
        let groups = &caps[k];
        let ghost before = strings(out@);
        proof {
            assert(all.take(k + 1).drop_last() == all.take(k as int));
            assert(all.take(k + 1).last() == group_positions(groups@));
            assert(all[k as int] == group_positions(groups@));
        }
        if groups.len() > 1 {
            match groups[1] {
                Some(span) => {
                    assert(all[k as int][1] == Some((span.0 as int, span.1 as int)));
                    let source = slice(chars.as_slice(), span.0, span.1);
                    out.push(from_chars(source.as_slice()));
                    assert(strings(out@) == before.push(source@));
                },
                None => {
                    assert(all[k as int][1] is None);
                },
            }
        }
        k += 1;
    }
    proof {
        assert(all.take(caps@.len() as int) == all);
    }
    Some(out)
}

/// `html` after the upload of the image `image_url` that it embeds: where
/// the upload succeeded, the image is replaced by the destination's
/// reference wherever it is named; where it failed, `html` stays as it is.
pub fn after_upload(html: &str, image_url: &str, upload: &Result<ImageReply, UploadFailure>) -> (out:
    String)
    ensures
        match *upload {
            Ok(reply) => out@ == embedded(html@, image_url@, reply.image@),
            Err(_) => out@ == html@,
        },
{
    let chars = to_chars(html);
    match upload {
        Ok(reply) => {
            let mut reference: Vec<char> = to_chars(REFERENCE_PREFIX);
            extend(&mut reference, to_chars(reply.image.as_str()).as_slice());
            let out = replace(
                chars.as_slice(),
                to_chars(image_url).as_slice(),
                reference.as_slice(),
            );
            from_chars(out.as_slice())
        },
        Err(_) => from_chars(chars.as_slice()),
    }
}

/// Where the sources of the image tags of `html` lie, in their order;
/// `None` exactly where the engine does not accept the pattern of an image
/// tag.
pub fn image_source_spans(html: &[char]) -> (r: Option<Vec<(usize, usize)>>)
    ensures
        r is Some <==> regex_accepts(IMAGE_PATTERN@),
        r matches Some(v) ==> span_positions(v@) == group_spans(found(IMAGE_PATTERN@, html@), 1),
{
    let caps = match scan(IMAGE_PATTERN, html) {
        Some(caps) => caps,
        None => {
            return None;
        },
    };
    let ghost all = positions(caps@);
    let mut out: Vec<(usize, usize)> = Vec::new();
    let mut k: usize = 0;
    proof {
        assert(all.take(0) == Seq::<Seq<Group>>::empty());
        assert(span_positions(out@) == Seq::<(int, int)>::empty());
    }
    while k < caps.len()
        invariant
            k <= caps.len(),
            all == positions(caps@),
            span_positions(out@) == group_spans(all.take(k as int), 1),
        decreases caps.len() - k,
    {
        let groups = &caps[k];
        let ghost before = span_positions(out@);
        proof {
            assert(all.take(k + 1).drop_last() == all.take(k as int));
            assert(all.take(k + 1).last() == group_positions(groups@));
        }
        if groups.len() > 1 {
            match groups[1] {
                Some(span) => {
                    assert(group_positions(groups@)[1] == Some((span.0 as int, span.1 as int)));
                    out.push(span);
                    assert(span_positions(out@) == before.push((span.0 as int, span.1 as int)));
                },
                None => {
                    assert(group_positions(groups@)[1] is None);
                },
            }
        }
        k += 1;
    }
    proof {
        assert(all.take(caps@.len() as int) == all);
    }
    Some(out)
}

/// What stands in the place of the image source `source`.
pub fn target_chars(source: &[char], subs: &[Substitution], asset_root: &[char]) -> (out: Vec<char>)
    ensures
        out@ == source_target(source@, pairs(subs@), asset_root@),
{
    let prefix = to_chars(REFERENCE_PREFIX);
    if starts_with(source, prefix.as_slice()) {
        proof {
            assert(source@.subrange(0, source@.len() as int) == source@);
        }
        slice(source, 0, source.len())
    } else {
        let canonical = substitute(source, subs);
        rewrite_chars(canonical.as_slice(), asset_root)
    }
}

/// `html` with what each of `spans` covers, an image source, replaced by
/// what the rewriter makes of it with the substitutions `subs` and the asset
/// root `asset_root`. The spans are taken in order, and nothing outside
/// them changes. A span that begins before the one before it ended, or that
/// does not lie within `html`, is passed over.
pub fn rewrite_at(
    html: &[char],
    spans: &[(usize, usize)],
    subs: &[Substitution],
    asset_root: &[char],
) -> (out: Vec<char>)
    ensures
        out@ == rewritten_from(html@, span_positions(spans@), 0, pairs(subs@), asset_root@),
{
    let ghost sp = span_positions(spans@);
    let ghost goal = rewritten_from(html@, sp, 0, pairs(subs@), asset_root@);
    let mut out: Vec<char> = Vec::new();
    let mut cursor: usize = 0;
    let mut i: usize = 0;
    proof {
        assert(sp.skip(0) == sp);
        assert(out@ + goal == goal);
    }
    while i < spans.len()
        invariant
            i <= spans.len(),
            cursor <= html.len(),
            sp == span_positions(spans@),
            out@ + rewritten_from(html@, sp.skip(i as int), cursor as int, pairs(subs@), asset_root@)
                == goal,
        decreases spans.len() - i,
    {
        let span = spans[i];
        let ghost before = out@;
        let ghost rest = sp.skip(i as int);
        proof {
            assert(rest[0] == (span.0 as int, span.1 as int));
            assert(rest.drop_first() == sp.skip(i + 1));
        }
        if cursor <= span.0 && span.0 <= span.1 && span.1 <= html.len() {
            let kept = slice(html, cursor, span.0);
            let source = slice(html, span.0, span.1);
            let target = target_chars(source.as_slice(), subs, asset_root);
            extend(&mut out, kept.as_slice());
            extend(&mut out, target.as_slice());
            proof {
                let tail = rewritten_from(
                    html@,
                    sp.skip(i + 1),
                    span.1 as int,
                    pairs(subs@),
                    asset_root@,
                );
                assert(out@ + tail == before + (kept@ + target@ + tail));
            }
            cursor = span.1;
        }
        i += 1;
    }
    let kept = slice(html, cursor, html.len());
    extend(&mut out, kept.as_slice());
    out
}

/// `html` with the sources of its image tags rewritten, each in its place,
/// to what the rewriter makes of it with the substitutions `subs` and the
/// asset root `asset_root`. A source that is a reference of the destination
/// stays as it is, and so does everything outside the sources. `None`
/// exactly where the engine does not accept the pattern of an image tag.
pub fn rewrite_image_sources(html: &str, subs: &[Substitution], asset_root: &str) -> (r: Option<
    String,
>)
    ensures
        r is Some <==> regex_accepts(IMAGE_PATTERN@),
        r matches Some(out) ==> out@ == images_rewritten(html@, pairs(subs@), asset_root@),
{
    let chars = to_chars(html);
    let spans = match image_source_spans(chars.as_slice()) {
        Some(spans) => spans,
        None => {
            return None;
        },
    };
    let out = rewrite_at(chars.as_slice(), spans.as_slice(), subs, to_chars(asset_root).as_slice());
    Some(from_chars(out.as_slice()))
}

/// Hands `html` to the sanitizer, which keeps only what its allow-list
/// holds. The empty document is not handed over, and stays empty.
pub fn clean(html: &str) -> (out: String)
    ensures
        out@ == cleaned(html@),
{
    let chars = to_chars(html);
    if chars.len() == 0 {
        from_chars(chars.as_slice())
    } else {
        sanitize(html)
    }
}

/// The whole pipeline for the legacy body `raw`: paragraphs, caption
/// blocks, the sources of the image tags rewritten, and the promotional
/// block in its variant `variant`; then the sanitizer. A body of nothing but
/// white space gives the empty document; `None` exactly where the body
/// holds more and the engine does not accept one of the three patterns that
/// the pipeline needs.
pub fn transform_body(
    raw: &str,
    subs: &[Substitution],
    asset_root: &str,
    threshold: usize,
    variant: u32,
) -> (r: Option<String>)
    ensures
        r is Some <==> trimmed(raw@).len() == 0 || patterns_accepted(),
        r matches Some(out) ==> out@ == body_html(
            raw@,
            pairs(subs@),
            asset_root@,
            threshold as nat,
            variant as nat,
        ),
        trimmed(raw@).len() == 0 ==> (r matches Some(out) && out@.len() == 0),
{
    match transform(raw, subs, asset_root, threshold, variant) {
        Some(html) => Some(clean(html.as_str())),
        None => None,
    }
}

} // verus!
