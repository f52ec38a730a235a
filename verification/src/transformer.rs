//! Turning a legacy post body into destination HTML: paragraphs, caption
//! blocks, rewritten image sources, the promotional block.
//!
//! A document is put together from plain values: the paragraphs of each
//! stretch of plain text and what each special block became
//! (`transform_chars`). `transform` asks the engine where the blocks and the
//! paragraph breaks lie, and hands on what it found.

use crate::bindings::{random_between, regex_accepts};
use crate::body::{images_rewritten, rewrite_image_sources, IMAGE_PATTERN};
use crate::matching::{
    find_spans, found, group_positions, groups_in_bounds, groups_within, ordered, positions, scan,
    span_positions, spans, spans_in_order, Group,
};
use crate::placement::lemma_blank_text_has_no_paragraphs;
use crate::rewriter::{default_asset_root, pairs, Substitution, ASSET_ROOT};
use crate::text::{
    decimal_digits, extend, format_u64, from_chars, lemma_trimmed, slice, starts_with, to_chars,
    trim, trimmed, views,
};
use vstd::prelude::*;
use vstd::string::StringExecFns;

verus! {

/// The pattern of a paragraph break: a line end, optional white space, and
/// another line end.
pub const BREAK_PATTERN: &'static str = r"\n\s*\n";

/// What stands between the spans `spans` of `text`: the text before the
/// first, between each two neighbours, and after the last.
pub open spec fn gaps(text: Seq<char>, spans: Seq<(int, int)>) -> Seq<Seq<char>> {
    Seq::new(
        spans.len() + 1,
        |k: int|
            text.subrange(
                if k == 0 {
                    0
                } else {
                    spans[k - 1].1
                },
                if k == spans.len() {
                    text.len() as int
                } else {
                    spans[k].0
                },
            ),
    )
}

/// The parts of `parts` that hold more than white space, each trimmed, in
/// their order.
pub open spec fn nonblank(parts: Seq<Seq<char>>) -> Seq<Seq<char>>
    decreases parts.len(),
{
    if parts.len() == 0 {
        Seq::empty()
    } else {
        let before = nonblank(parts.drop_last());
        let last = trimmed(parts.last());
        if last.len() > 0 {
            before.push(last)
        } else {
            before
        }
    }
}

/// The paragraphs of `text` where its paragraph breaks are `breaks`.
pub open spec fn paragraphs_at(text: Seq<char>, breaks: Seq<(int, int)>) -> Seq<Seq<char>> {
    nonblank(gaps(text, breaks))
}

/// Where the paragraph breaks of `text` lie: where the engine finds the
/// pattern of a paragraph break, and nowhere in a text of nothing but white
/// space, about which the engine is not asked.
pub open spec fn breaks_of(text: Seq<char>) -> Seq<(int, int)> {
    if trimmed(text).len() == 0 {
        Seq::empty()
    } else {
        spans(BREAK_PATTERN@, text)
    }
}

/// The paragraphs of `text`: what stands between its paragraph breaks,
/// trimmed, without what is empty then.
pub open spec fn paragraphs(text: Seq<char>) -> Seq<Seq<char>> {
    paragraphs_at(text, breaks_of(text))
}

/// One paragraph in its container.
pub open spec fn paragraph_html(paragraph: Seq<char>) -> Seq<char> {
    "<p>"@ + paragraph + "</p>"@
}

/// The paragraphs `paras`, each in its container, one after the other.
pub open spec fn wrapped(paras: Seq<Seq<char>>) -> Seq<char>
    decreases paras.len(),
{
    if paras.len() == 0 {
        Seq::empty()
    } else {
        wrapped(paras.drop_last()) + paragraph_html(paras.last())
    }
}

/// Wraps the paragraphs of `text` in containers, where `breaks` tells where
/// its paragraph breaks lie, and counts them: what stands between the
/// breaks is trimmed, and what is not empty then is wrapped. `None` exactly
/// where the breaks are not in order within the text.
pub fn wrap_paragraphs(text: &[char], breaks: &[(usize, usize)]) -> (r: Option<(Vec<char>, usize)>)
    ensures
        r is Some <==> ordered(span_positions(breaks@), text@.len() as int),
        r matches Some(pair) ==> pair.0@ == wrapped(
            paragraphs_at(text@, span_positions(breaks@)),
        ) && pair.1 == paragraphs_at(text@, span_positions(breaks@)).len(),
{
    if spans_in_order(breaks, text.len()) {
        Some(wrap_ordered(text, breaks))
    } else {
        None
    }
}

/// Wraps the paragraphs of `text` in containers, where `breaks` tells where
/// its paragraph breaks lie, and counts them.
fn wrap_ordered(text: &[char], breaks: &[(usize, usize)]) -> (r: (Vec<char>, usize))
    requires
        ordered(span_positions(breaks@), text@.len() as int),
    ensures
        r.0@ == wrapped(paragraphs_at(text@, span_positions(breaks@))),
        r.1 == paragraphs_at(text@, span_positions(breaks@)).len(),
        r.1 <= text@.len(),
{
    let open = to_chars("<p>");
    let close = to_chars("</p>");
    let ghost sp = span_positions(breaks@);
    let ghost parts = gaps(text@, sp);
    let mut out: Vec<char> = Vec::new();
    let mut count: usize = 0;
    let mut cursor: usize = 0;
    let mut k: usize = 0;
    proof {
        assert(parts.take(0) == Seq::<Seq<char>>::empty());
    }
    while k < breaks.len()
        invariant
            k <= breaks.len(),
            sp == span_positions(breaks@),
            parts == gaps(text@, sp),
            ordered(sp, text@.len() as int),
            cursor == (if k == 0 {
                0
            } else {
                sp[k - 1].1
            }),
            cursor <= text@.len(),
            out@ == wrapped(nonblank(parts.take(k as int))),
            count == nonblank(parts.take(k as int)).len(),
            count <= cursor,
            open@ == "<p>"@,
            close@ == "</p>"@,
        decreases breaks.len() - k,
    {
        let span = breaks[k];
        proof {
            assert(sp[k as int] == (span.0 as int, span.1 as int));
            if k > 0 {
                assert(sp[k - 1].1 <= sp[k as int].0);
            }
            assert(parts.take(k + 1).drop_last() == parts.take(k as int));
            assert(parts.take(k + 1).last() == text@.subrange(cursor as int, span.0 as int));
        }
        let part = slice(text, cursor, span.0);
        let paragraph = trim(part.as_slice());
        if paragraph.len() > 0 {
            proof {
                lemma_trimmed(part@);
            }
            let ghost before = out@;
            let ghost done = nonblank(parts.take(k as int));
            extend(&mut out, open.as_slice());
            extend(&mut out, paragraph.as_slice());
            extend(&mut out, close.as_slice());
            assert(out@ == before + paragraph_html(paragraph@));
            assert(done.push(paragraph@).drop_last() == done);
            count += 1;
        }
        cursor = span.1;
        k += 1;
    }
    proof {
        assert(parts.take(k + 1) == parts);
        assert(parts.drop_last() == parts.take(k as int));
        assert(parts.last() == text@.subrange(cursor as int, text@.len() as int));
    }
    let part = slice(text, cursor, text.len());
    let paragraph = trim(part.as_slice());
    if paragraph.len() > 0 {
        proof {
            lemma_trimmed(part@);
        }
        let ghost before = out@;
        let ghost done = nonblank(parts.drop_last());
        extend(&mut out, open.as_slice());
        extend(&mut out, paragraph.as_slice());
        extend(&mut out, close.as_slice());
        assert(out@ == before + paragraph_html(paragraph@));
        assert(done.push(paragraph@).drop_last() == done);
        count += 1;
    }
    (out, count)
}

/// Where the paragraph breaks of `text` lie, in character positions. A text
/// of nothing but white space has none, and the engine is not asked about
/// it; `None` exactly where the text holds more and the engine does not
/// accept the pattern of a paragraph break.
pub fn find_breaks(text: &[char]) -> (r: Option<Vec<(usize, usize)>>)
    ensures
        r is Some <==> trimmed(text@).len() == 0 || regex_accepts(BREAK_PATTERN@),
        r matches Some(v) ==> span_positions(v@) == breaks_of(text@) && ordered(
            span_positions(v@),
            text@.len() as int,
        ),
{
    if trim(text).len() == 0 {
        let none: Vec<(usize, usize)> = Vec::new();
        assert(span_positions(none@) == Seq::<(int, int)>::empty());
        Some(none)
    } else {
        find_spans(BREAK_PATTERN, text)
    }
}

/// Wraps the paragraphs of `text` in containers and counts them. A text of
/// nothing but white space gives none; `None` exactly where the text holds
/// more and the engine does not accept the pattern of a paragraph break.
pub fn wrap_chars(text: &[char]) -> (r: Option<(Vec<char>, usize)>)
    ensures
        r is Some <==> trimmed(text@).len() == 0 || regex_accepts(BREAK_PATTERN@),
        r matches Some(pair) ==> pair.0@ == wrapped(paragraphs(text@)) && pair.1 == paragraphs(
            text@,
        ).len() && pair.1 <= text@.len(),
        trimmed(text@).len() == 0 ==> (r matches Some(pair) && pair.0@.len() == 0 && pair.1 == 0),
{
    match find_breaks(text) {
        Some(breaks) => {
            proof {
                if trimmed(text@).len() == 0 {
                    lemma_blank_text_has_no_paragraphs(text@, breaks_of(text@));
                }
            }
            Some(wrap_ordered(text, breaks.as_slice()))
        },
        None => None,
    }
}

/// Splits `text` at its paragraph breaks, trims each part, drops the parts
/// that are empty then, and wraps each of the others in a paragraph
/// container. Returns the containers in their order and how many there are.
/// A text of nothing but white space gives no container; `None` exactly
/// where the text holds more and the engine does not accept the pattern of
/// a paragraph break.
pub fn wrap_and_count_paragraphs(text: &str) -> (r: Option<(String, usize)>)
    ensures
        r is Some <==> trimmed(text@).len() == 0 || regex_accepts(BREAK_PATTERN@),
        r matches Some(pair) ==> pair.0@ == wrapped(paragraphs(text@)) && pair.1 == paragraphs(
            text@,
        ).len(),
        trimmed(text@).len() == 0 ==> (r matches Some(pair) && pair.0@.len() == 0 && pair.1 == 0),
{
    let chars = to_chars(text);
    match wrap_chars(chars.as_slice()) {
        Some(pair) => Some((from_chars(pair.0.as_slice()), pair.1)),
        None => None,
    }
}

/// The pattern of a legacy caption block that holds an image: the
/// attachment's number, the image's class, source and alternative text, and
/// the description after the image.
pub const CAPTION_PATTERN: &'static str =
    r#"\[caption[^\]]*id="attachment_(\d+)"[^\]]*\].*?<img[^>]+class="[^"]*wp-image-(\d+)[^"]*"[^>]+src="([^"]+)"[^>]+alt="([^"]*)"[^>]*>([^\[]*)\[/caption\]"#;

/// The pattern of a special block: a heading, a legacy caption block, or an
/// image tag.
pub const BLOCK_PATTERN: &'static str =
    r"(?s)(<h[1-6][^>]*>.*?</h[1-6]>|\[caption[^\]]*\].*?\[/caption\]|<img[^>]+>)";

/// How many paragraphs a document holds before the promotional block goes
/// in, where nothing else is asked for.
pub const DEFAULT_THRESHOLD: usize = 3;

/// The part of `text` that group `i` of `groups` covers; empty where the
/// group is missing or took no part in the match.
pub open spec fn group_text(text: Seq<char>, groups: Seq<Group>, i: int) -> Seq<char> {
    if 0 <= i < groups.len() && groups[i] is Some {
        text.subrange(groups[i].unwrap().0, groups[i].unwrap().1)
    } else {
        Seq::empty()
    }
}

/// The figure element for an image with its caption.
pub open spec fn figure_html(
    id: Seq<char>,
    src: Seq<char>,
    alt: Seq<char>,
    description: Seq<char>,
) -> Seq<char> {
    "<figure id=\"attachment_"@ + id + "\"><picture><img src=\""@ + src + "\" alt=\""@ + alt
        + "\" loading=\"lazy\"></picture><figcaption>"@ + description
        + "</figcaption></figure>"@
}

/// The figure element for the caption block `caption` whose parts are
/// `groups`: group 1 is the attachment's number, group 3 the image's source,
/// group 4 its alternative text, group 5 the description, which is trimmed.
pub open spec fn caption_figure_of(caption: Seq<char>, groups: Seq<Group>) -> Seq<char> {
    figure_html(
        group_text(caption, groups, 1),
        group_text(caption, groups, 3),
        group_text(caption, groups, 4),
        trimmed(group_text(caption, groups, 5)),
    )
}

/// The engine finds the caption pattern in `caption`: the block has every
/// part that a figure element is made from.
pub open spec fn caption_parses(caption: Seq<char>) -> bool {
    regex_accepts(CAPTION_PATTERN@) && found(CAPTION_PATTERN@, caption).len() > 0
}

/// What a caption block becomes: a figure element where the engine finds
/// the caption pattern in it, the block itself where it does not.
pub open spec fn caption_html(caption: Seq<char>) -> Seq<char> {
    if caption_parses(caption) {
        caption_figure_of(caption, found(CAPTION_PATTERN@, caption)[0])
    } else {
        caption
    }
}

/// The part of `text` that group `i` of `groups` covers.
fn group_chars(text: &[char], groups: &[Option<(usize, usize)>], i: usize) -> (out: Vec<char>)
    requires
        groups_within(group_positions(groups@), text@.len() as int),
    ensures
        out@ == group_text(text@, group_positions(groups@), i as int),
{
    if i < groups.len() {
        match groups[i] {
            Some(span) => {
                assert(group_positions(groups@)[i as int] == Some((span.0 as int, span.1 as int)));
                slice(text, span.0, span.1)
            },
            None => {
                assert(group_positions(groups@)[i as int] is None);
                Vec::new()
            },
        }
    } else {
        Vec::new()
    }
}

/// The figure element for the caption block `caption`, where `groups` tells
/// which parts of it the caption pattern's groups cover: group 1 is the
/// attachment's number, group 3 the image's source, group 4 its alternative
/// text, group 5 the description. `None` exactly where a group does not lie
/// within the block.
pub fn caption_figure(caption: &[char], groups: &[Option<(usize, usize)>]) -> (r: Option<Vec<char>>)
    ensures
        r is Some <==> groups_within(group_positions(groups@), caption@.len() as int),
        r matches Some(out) ==> out@ == caption_figure_of(caption@, group_positions(groups@)),
{
    if groups_in_bounds(groups, caption.len()) {
        Some(figure_chars(caption, groups))
    } else {
        None
    }
}

/// The figure element for the caption block `caption`, where `groups` tells
/// which parts of it the caption pattern's groups cover.
fn figure_chars(caption: &[char], groups: &[Option<(usize, usize)>]) -> (out: Vec<char>)
    requires
        groups_within(group_positions(groups@), caption@.len() as int),
    ensures
        out@ == caption_figure_of(caption@, group_positions(groups@)),
{
    let id = group_chars(caption, groups, 1);
    let src = group_chars(caption, groups, 3);
    let alt = group_chars(caption, groups, 4);
    let text = group_chars(caption, groups, 5);
    let description = trim(text.as_slice());
    let mut out: Vec<char> = to_chars("<figure id=\"attachment_");
    extend(&mut out, id.as_slice());
    extend(&mut out, to_chars("\"><picture><img src=\"").as_slice());
    extend(&mut out, src.as_slice());
    extend(&mut out, to_chars("\" alt=\"").as_slice());
    extend(&mut out, alt.as_slice());
    extend(&mut out, to_chars("\" loading=\"lazy\"></picture><figcaption>").as_slice());
    extend(&mut out, description.as_slice());
    extend(&mut out, to_chars("</figcaption></figure>").as_slice());
    out
}

/// The figure element for the caption block `caption`; `None` exactly where
/// the engine does not find the caption pattern in it.
pub fn convert_caption(caption: &[char]) -> (r: Option<Vec<char>>)
    ensures
        r is Some <==> caption_parses(caption@),
        r matches Some(out) ==> out@ == caption_html(caption@),
{
    match scan(CAPTION_PATTERN, caption) {
        Some(matches) => {
            if matches.len() > 0 {
                proof {
                    let all = positions(matches@);
                    assert(all[0] == group_positions(matches@[0]@));
                    assert forall|g: int|
                        0 <= g < all[0].len() && (#[trigger] all[0][g]) is Some implies 0
                        <= all[0][g].unwrap().0 <= all[0][g].unwrap().1 <= caption@.len() by {}
                }
                Some(figure_chars(caption, matches[0].as_slice()))
            } else {
                None
            }
        },
        None => None,
    }
}

/// What the caption block `caption` becomes.
pub fn process_caption_chars(caption: &[char]) -> (out: Vec<char>)
    ensures
        out@ == caption_html(caption@),
{
    match convert_caption(caption) {
        Some(figure) => figure,
        None => slice(caption, 0, caption.len()),
    }
}

/// Converts a legacy caption block to a figure element that holds the image
/// and, as its caption, the trimmed description. A block in which the engine
/// does not find the caption pattern comes back as it is.
pub fn process_caption(caption: &str) -> (out: String)
    ensures
        out@ == caption_html(caption@),
        !caption_parses(caption@) ==> out@ == caption@,
{
    let chars = to_chars(caption);
    let out = process_caption_chars(chars.as_slice());
    from_chars(out.as_slice())
}

/// What comes before the variant's number in the promotional block.
pub const PROMO_HEAD: &'static str =
    "<a href=\"/nos-apoie\" class=\"post-anuncio\"><img src=\"/content/images/2025/05/contribua_v";

/// What comes after the variant's number in the promotional block.
pub const PROMO_TAIL: &'static str =
    ".jpg\" alt=\"contribua com o opinião socialista\" loading=\"lazy\"></a>";

/// The lowest number of a variant of the promotional block.
pub const FIRST_VARIANT: u32 = 1;

/// The highest number of a variant of the promotional block.
pub const LAST_VARIANT: u32 = 3;

/// One piece of a document, in the order of the body it was made from.
pub enum Piece {
    /// A paragraph: its trimmed text.
    Paragraph(Seq<char>),
    /// A special block: what it became.
    Block(Seq<char>),
    /// The promotional block: the number of its variant.
    Promo(nat),
}

/// The block is a legacy caption block.
pub open spec fn is_caption(block: Seq<char>) -> bool {
    "[caption"@.is_prefix_of(block)
}

/// What a special block is converted to: a caption block to its figure
/// element, any other block to itself.
pub open spec fn converted(block: Seq<char>) -> Seq<char> {
    if is_caption(block) {
        caption_html(block)
    } else {
        block
    }
}

/// What a special block becomes. A caption block that lacks a part stays as
/// it is, character for character. Any other block is converted, and the
/// sources of its image tags are rewritten.
pub open spec fn block_html(
    block: Seq<char>,
    subs: Seq<(Seq<char>, Seq<char>)>,
    root: Seq<char>,
) -> Seq<char> {
    if is_caption(block) && !caption_parses(block) {
        block
    } else {
        images_rewritten(converted(block), subs, root)
    }
}

/// The promotional block in its variant `variant`.
pub open spec fn promo_html(variant: nat) -> Seq<char> {
    PROMO_HEAD@ + decimal_digits(variant) + PROMO_TAIL@
}

/// The HTML of one piece.
pub open spec fn piece_html(piece: Piece) -> Seq<char> {
    match piece {
        Piece::Paragraph(text) => paragraph_html(text),
        Piece::Block(html) => html,
        Piece::Promo(variant) => promo_html(variant),
    }
}

/// The HTML of the pieces `pieces`, one after the other.
pub open spec fn render(pieces: Seq<Piece>) -> Seq<char>
    decreases pieces.len(),
{
    if pieces.len() == 0 {
        Seq::empty()
    } else {
        render(pieces.drop_last()) + piece_html(pieces.last())
    }
}

/// How many of `pieces` are paragraphs.
pub open spec fn paragraph_count(pieces: Seq<Piece>) -> nat
    decreases pieces.len(),
{
    if pieces.len() == 0 {
        0
    } else {
        paragraph_count(pieces.drop_last()) + if pieces.last() is Paragraph {
            1nat
        } else {
            0nat
        }
    }
}

/// How many of `pieces` are promotional blocks.
pub open spec fn promo_count(pieces: Seq<Piece>) -> nat
    decreases pieces.len(),
{
    if pieces.len() == 0 {
        0
    } else {
        promo_count(pieces.drop_last()) + if pieces.last() is Promo {
            1nat
        } else {
            0nat
        }
    }
}

/// The paragraphs `paras` as pieces.
pub open spec fn as_paragraphs(paras: Seq<Seq<char>>) -> Seq<Piece> {
    Seq::new(paras.len(), |i: int| Piece::Paragraph(paras[i]))
}

/// The pieces `before` and, after them, the stretch of paragraphs `paras`
/// and, where with them the document reaches `threshold` paragraphs and
/// holds no promotional block yet, the promotional block. An empty stretch
/// adds nothing.
pub open spec fn with_paragraphs(
    before: Seq<Piece>,
    paras: Seq<Seq<char>>,
    threshold: nat,
    variant: nat,
) -> Seq<Piece> {
    let all = before + as_paragraphs(paras);
    if paras.len() > 0 && paragraph_count(all) >= threshold && promo_count(before) == 0 {
        all.push(Piece::Promo(variant))
    } else {
        all
    }
}

/// The pieces of a document up to and with its `k`-th special block:
/// `stretches[i]` holds the paragraphs that stand before the block
/// `blocks[i]`.
pub open spec fn pieces_before(
    stretches: Seq<Seq<Seq<char>>>,
    blocks: Seq<Seq<char>>,
    k: nat,
    threshold: nat,
    variant: nat,
) -> Seq<Piece>
    decreases k,
{
    if k == 0 {
        Seq::empty()
    } else {
        with_paragraphs(
            pieces_before(stretches, blocks, (k - 1) as nat, threshold, variant),
            stretches[k - 1],
            threshold,
            variant,
        ).push(Piece::Block(blocks[k - 1]))
    }
}

/// The pieces of a document: the special blocks `blocks` in their order
/// and, before, between and after them, the stretches of paragraphs
/// `stretches`, of which there is one more than there are blocks.
pub open spec fn pieces_of(
    stretches: Seq<Seq<Seq<char>>>,
    blocks: Seq<Seq<char>>,
    threshold: nat,
    variant: nat,
) -> Seq<Piece> {
    with_paragraphs(
        pieces_before(stretches, blocks, blocks.len(), threshold, variant),
        stretches[blocks.len() as int],
        threshold,
        variant,
    )
}

/// The stretches of paragraphs of `text`, whose special blocks are where
/// `blocks` says: the paragraphs of what stands before, between and after
/// the blocks, `breaks[k]` telling where the paragraph breaks lie in the
/// `k`-th of these.
pub open spec fn stretches_at(
    text: Seq<char>,
    blocks: Seq<(int, int)>,
    breaks: Seq<Seq<(int, int)>>,
) -> Seq<Seq<Seq<char>>> {
    Seq::new(blocks.len() + 1, |k: int| paragraphs_at(gaps(text, blocks)[k], breaks[k]))
}

/// There is one list of paragraph breaks for each stretch of plain text of
/// `text`, and each is in order within its stretch.
pub open spec fn breaks_fit(
    text: Seq<char>,
    blocks: Seq<(int, int)>,
    breaks: Seq<Seq<(int, int)>>,
) -> bool {
    &&& breaks.len() == blocks.len() + 1
    &&& forall|k: int|
        0 <= k < breaks.len() ==> ordered(#[trigger] breaks[k], gaps(text, blocks)[k].len() as int)
}

/// The positions that the vectors of `v` hold.
pub open spec fn break_lists(v: Seq<Vec<(usize, usize)>>) -> Seq<Seq<(int, int)>> {
    Seq::new(v.len(), |k: int| span_positions(v[k]@))
}

/// The pieces of `text`, where its special blocks lie where `blocks` says
/// and become `htmls`, and the paragraph breaks lie where `breaks` says.
pub open spec fn document_pieces_at(
    text: Seq<char>,
    blocks: Seq<(int, int)>,
    breaks: Seq<Seq<(int, int)>>,
    htmls: Seq<Seq<char>>,
    threshold: nat,
    variant: nat,
) -> Seq<Piece> {
    pieces_of(stretches_at(text, blocks, breaks), htmls, threshold, variant)
}

/// Where the paragraph breaks lie in each stretch of plain text of `text`.
pub open spec fn breaks_in(text: Seq<char>, blocks: Seq<(int, int)>) -> Seq<Seq<(int, int)>> {
    Seq::new(blocks.len() + 1, |k: int| breaks_of(gaps(text, blocks)[k]))
}

/// What the special blocks of `text` become, in their order.
pub open spec fn blocks_html(
    text: Seq<char>,
    blocks: Seq<(int, int)>,
    subs: Seq<(Seq<char>, Seq<char>)>,
    root: Seq<char>,
) -> Seq<Seq<char>> {
    Seq::new(
        blocks.len(),
        |k: int| block_html(text.subrange(blocks[k].0, blocks[k].1), subs, root),
    )
}

/// The pieces of the body `text`. A body of nothing but white space has
/// none.
pub open spec fn document_pieces(
    text: Seq<char>,
    subs: Seq<(Seq<char>, Seq<char>)>,
    root: Seq<char>,
    threshold: nat,
    variant: nat,
) -> Seq<Piece> {
    if trimmed(text).len() == 0 {
        Seq::empty()
    } else {
        let blocks = spans(BLOCK_PATTERN@, text);
        document_pieces_at(
            text,
            blocks,
            breaks_in(text, blocks),
            blocks_html(text, blocks, subs, root),
            threshold,
            variant,
        )
    }
}

/// The HTML of the body `text`.
pub open spec fn document_html(
    text: Seq<char>,
    subs: Seq<(Seq<char>, Seq<char>)>,
    root: Seq<char>,
    threshold: nat,
    variant: nat,
) -> Seq<char> {
    render(document_pieces(text, subs, root, threshold, variant))
}

/// The engine accepts the three patterns that a document is made with.
pub open spec fn patterns_accepted() -> bool {
    regex_accepts(BLOCK_PATTERN@) && regex_accepts(BREAK_PATTERN@) && regex_accepts(IMAGE_PATTERN@)
}

/// Rendering, and counting, go piece by piece.
pub proof fn lemma_pieces_append(a: Seq<Piece>, b: Seq<Piece>)
    ensures
        render(a + b) == render(a) + render(b),
        paragraph_count(a + b) == paragraph_count(a) + paragraph_count(b),
        promo_count(a + b) == promo_count(a) + promo_count(b),
    decreases b.len(),
{
    if b.len() == 0 {
        assert(a + b == a);
    } else {
        lemma_pieces_append(a, b.drop_last());
        assert((a + b).drop_last() == a + b.drop_last());
        assert((a + b).last() == b.last());
    }
}

/// Paragraph pieces render as the wrapped paragraphs, and count as
/// paragraphs only.
pub proof fn lemma_as_paragraphs(paras: Seq<Seq<char>>)
    ensures
        render(as_paragraphs(paras)) == wrapped(paras),
        paragraph_count(as_paragraphs(paras)) == paras.len(),
        promo_count(as_paragraphs(paras)) == 0,
    decreases paras.len(),
{
    if paras.len() > 0 {
        lemma_as_paragraphs(paras.drop_last());
        assert(as_paragraphs(paras).drop_last() == as_paragraphs(paras.drop_last()));
    }
}

/// The promotional block in its variant `variant`.
pub fn promo_chars(variant: u32) -> (out: Vec<char>)
    ensures
        out@ == promo_html(variant as nat),
{
    let mut out: Vec<char> = to_chars(PROMO_HEAD);
    extend(&mut out, format_u64(variant as u64).as_slice());
    extend(&mut out, to_chars(PROMO_TAIL).as_slice());
    out
}

/// Appends the promotional block in its variant `variant` to `result`.
pub fn insert_advertisement(result: &mut Vec<char>, variant: u32)
    ensures
        final(result)@ == old(result)@ + promo_html(variant as nat),
{
    let promo = promo_chars(variant);
    extend(result, promo.as_slice());
}

/// Appends to `out` the stretch of paragraphs `paras`, which `html` holds
/// wrapped, and the promotional block where it is due: `count` paragraphs
/// stand in the document so far, and the promotional block if `inserted`.
/// Returns the two for the document with the stretch.
fn push_stretch(
    out: &mut Vec<char>,
    html: &[char],
    added: usize,
    count: usize,
    inserted: bool,
    threshold: usize,
    variant: u32,
    Ghost(before): Ghost<Seq<Piece>>,
    Ghost(paras): Ghost<Seq<Seq<char>>>,
) -> (state: (usize, bool))
    requires
        old(out)@ == render(before),
        html@ == wrapped(paras),
        added == paras.len(),
        count == paragraph_count(before),
        inserted == (promo_count(before) > 0),
        count + added <= usize::MAX,
    ensures
        final(out)@ == render(with_paragraphs(before, paras, threshold as nat, variant as nat)),
        state.0 == paragraph_count(
            with_paragraphs(before, paras, threshold as nat, variant as nat),
        ),
        state.1 == (promo_count(with_paragraphs(before, paras, threshold as nat, variant as nat))
            > 0),
        state.0 == count + added,
{
    let ghost all = before + as_paragraphs(paras);
    proof {
        lemma_as_paragraphs(paras);
        lemma_pieces_append(before, as_paragraphs(paras));
    }
    extend(out, html);
    let total: usize = count + added;
    if added > 0 && total >= threshold && !inserted {
        insert_advertisement(out, variant);
        proof {
            let after = all.push(Piece::Promo(variant as nat));
            assert(after.drop_last() == all);
        }
        (total, true)
    } else {
        (total, inserted)
    }
}

/// What the special block `block` becomes: a caption block that lacks a
/// part stays as it is; any other block is converted and the sources of its
/// image tags are rewritten with the substitutions `subs` and the asset root
/// `asset_root`. `None` exactly where the block is to be rewritten and the
/// engine does not accept the pattern of an image tag.
pub fn block_chars(block: &[char], subs: &[Substitution], asset_root: &str) -> (r: Option<
    Vec<char>,
>)
    ensures
        r is Some <==> regex_accepts(IMAGE_PATTERN@) || (is_caption(block@) && !caption_parses(
            block@,
        )),
        r matches Some(out) ==> out@ == block_html(block@, pairs(subs@), asset_root@),
{
    let opening = to_chars("[caption");
    proof {
        assert(block@.subrange(0, block@.len() as int) == block@);
    }
    let html = if starts_with(block, opening.as_slice()) {
        match convert_caption(block) {
            Some(figure) => figure,
            None => {
                return Some(slice(block, 0, block.len()));
            },
        }
    } else {
        slice(block, 0, block.len())
    };
    assert(html@ == converted(block@));
    let text = from_chars(html.as_slice());
    match rewrite_image_sources(text.as_str(), subs, asset_root) {
        Some(out) => Some(to_chars(out.as_str())),
        None => None,
    }
}

/// The HTML of `text` from what is known of it: `blocks` tells where its
/// special blocks lie, `htmls` what each of them becomes, and `breaks[k]`
/// where the paragraph breaks lie in the `k`-th stretch of plain text, the
/// one before the `k`-th block or, for the last, after all of them. The
/// special blocks come in their order, and between them the paragraphs of
/// the plain text, each in its container. The promotional block in its
/// variant `variant` follows the first stretch of paragraphs with which the
/// document holds `threshold` paragraphs or more. `None` exactly where the
/// blocks are not in order within the text, there is not one HTML for each
/// block, or the breaks do not fit the stretches.
pub fn transform_chars(
    text: &[char],
    blocks: &[(usize, usize)],
    breaks: &[Vec<(usize, usize)>],
    htmls: &[Vec<char>],
    threshold: usize,
    variant: u32,
) -> (r: Option<Vec<char>>)
    ensures
        r is Some <==> ordered(span_positions(blocks@), text@.len() as int) && htmls@.len()
            == blocks@.len() && breaks_fit(
            text@,
            span_positions(blocks@),
            break_lists(breaks@),
        ),
        r matches Some(out) ==> out@ == render(
            document_pieces_at(
                text@,
                span_positions(blocks@),
                break_lists(breaks@),
                views(htmls@),
                threshold as nat,
                variant as nat,
            ),
        ),
{
    if !spans_in_order(blocks, text.len()) || htmls.len() != blocks.len() || breaks.len() == 0
        || breaks.len() - 1 != blocks.len() {
        return None;
    }
    let ghost sp = span_positions(blocks@);
    let ghost bl = break_lists(breaks@);
    let ghost hv = views(htmls@);
    let ghost parts = gaps(text@, sp);
    let ghost stretches = stretches_at(text@, sp, bl);
    let ghost limit = threshold as nat;
    let ghost number = variant as nat;
    let ghost mut pieces: Seq<Piece> = Seq::empty();
    let mut out: Vec<char> = Vec::new();
    let mut count: usize = 0;
    let mut inserted: bool = false;
    let mut cursor: usize = 0;
    let mut k: usize = 0;
    while k < blocks.len()
        invariant
            k <= blocks.len(),
            htmls@.len() == blocks@.len(),
            breaks@.len() == blocks@.len() + 1,
            sp == span_positions(blocks@),
            bl == break_lists(breaks@),
            hv == views(htmls@),
            parts == gaps(text@, sp),
            stretches == stretches_at(text@, sp, bl),
            limit == threshold as nat,
            number == variant as nat,
            ordered(sp, text@.len() as int),
            cursor == (if k == 0 {
                0
            } else {
                sp[k - 1].1
            }),
            cursor <= text@.len(),
            forall|j: int| 0 <= j < k ==> ordered(#[trigger] bl[j], parts[j].len() as int),
            pieces == pieces_before(stretches, hv, k as nat, limit, number),
            out@ == render(pieces),
            count == paragraph_count(pieces),
            inserted == (promo_count(pieces) > 0),
            count <= cursor,
        decreases blocks.len() - k,
    {
        let span = blocks[k];
        proof {
            assert(sp[k as int] == (span.0 as int, span.1 as int));
            if k > 0 {
                assert(sp[k - 1].1 <= sp[k as int].0);
            }
            assert(parts[k as int] == text@.subrange(cursor as int, span.0 as int));
            assert(bl[k as int] == span_positions(breaks@[k as int]@));
        }
        let segment = slice(text, cursor, span.0);
        if !spans_in_order(breaks[k].as_slice(), segment.len()) {
            return None;
        }
        let pair = wrap_ordered(segment.as_slice(), breaks[k].as_slice());
        let ghost paras = stretches[k as int];
        let state = push_stretch(
            &mut out,
            pair.0.as_slice(),
            pair.1,
            count,
            inserted,
            threshold,
            variant,
            Ghost(pieces),
            Ghost(paras),
        );
        let ghost with = with_paragraphs(pieces, paras, limit, number);
        extend(&mut out, htmls[k].as_slice());
        proof {
            assert(hv[k as int] == htmls@[k as int]@);
            let next = with.push(Piece::Block(hv[k as int]));
            assert(next.drop_last() == with);
            assert(next == pieces_before(stretches, hv, (k + 1) as nat, limit, number));
            pieces = next;
        }
        count = state.0;
        inserted = state.1;
        cursor = span.1;
        k += 1;
    }
    proof {
        assert(parts[k as int] == text@.subrange(cursor as int, text@.len() as int));
        assert(bl[k as int] == span_positions(breaks@[k as int]@));
    }
    let segment = slice(text, cursor, text.len());
    if !spans_in_order(breaks[k].as_slice(), segment.len()) {
        return None;
    }
    let pair = wrap_ordered(segment.as_slice(), breaks[k].as_slice());
    push_stretch(
        &mut out,
        pair.0.as_slice(),
        pair.1,
        count,
        inserted,
        threshold,
        variant,
        Ghost(pieces),
        Ghost(stretches[k as int]),
    );
    Some(out)
}

/// Whether the engine accepts the three patterns that a document is made
/// with.
pub fn engine_ready() -> (b: bool)
    ensures
        b == patterns_accepted(),
{
    let nothing: Vec<char> = Vec::new();
    scan(BLOCK_PATTERN, nothing.as_slice()).is_some() && scan(
        BREAK_PATTERN,
        nothing.as_slice(),
    ).is_some() && scan(IMAGE_PATTERN, nothing.as_slice()).is_some()
}

/// The HTML of the body `text`: headings and image tags stay in their
/// places, caption blocks become figure elements, the sources of the image
/// tags are rewritten with the substitutions `subs` and the asset root
/// `asset_root`, and the plain text between the blocks becomes paragraphs.
/// The promotional block in its variant `variant` follows the first stretch
/// of paragraphs with which the document holds `threshold` paragraphs or
/// more. A body of nothing but white space gives the empty document; `None`
/// exactly where the body holds more and the engine does not accept one of
/// its three patterns.
pub fn transform(
    text: &str,
    subs: &[Substitution],
    asset_root: &str,
    threshold: usize,
    variant: u32,
) -> (r: Option<String>)
    ensures
        r is Some <==> trimmed(text@).len() == 0 || patterns_accepted(),
        r matches Some(out) ==> out@ == document_html(
            text@,
            pairs(subs@),
            asset_root@,
            threshold as nat,
            variant as nat,
        ),
        trimmed(text@).len() == 0 ==> (r matches Some(out) && out@.len() == 0),
{
    let chars = to_chars(text);
    if trim(chars.as_slice()).len() == 0 {
        let nothing: Vec<char> = Vec::new();
        return Some(from_chars(nothing.as_slice()));
    }
    if !engine_ready() {
        return None;
    }
    let blocks = match find_spans(BLOCK_PATTERN, chars.as_slice()) {
        Some(blocks) => blocks,
        None => {
            return None;
        },
    };
    let ghost sp = span_positions(blocks@);
    let ghost parts = gaps(text@, sp);
    let mut breaks: Vec<Vec<(usize, usize)>> = Vec::new();
    let mut htmls: Vec<Vec<char>> = Vec::new();
    let mut cursor: usize = 0;
    let mut k: usize = 0;
    while k < blocks.len()
        invariant
            k <= blocks.len(),
            chars@ == text@,
            patterns_accepted(),
            sp == span_positions(blocks@),
            parts == gaps(text@, sp),
            ordered(sp, text@.len() as int),
            cursor == (if k == 0 {
                0
            } else {
                sp[k - 1].1
            }),
            cursor <= text@.len(),
            breaks@.len() == k,
            htmls@.len() == k,
            forall|j: int|
                0 <= j < k ==> span_positions(#[trigger] breaks@[j]@) == breaks_of(parts[j])
                    && ordered(span_positions(breaks@[j]@), parts[j].len() as int),
            forall|j: int|
                0 <= j < k ==> (#[trigger] htmls@[j])@ == block_html(
                    text@.subrange(sp[j].0, sp[j].1),
                    pairs(subs@),
                    asset_root@,
                ),
        decreases blocks.len() - k,
    {
        let span = blocks[k];
        proof {
            assert(sp[k as int] == (span.0 as int, span.1 as int));
            if k > 0 {
                assert(sp[k - 1].1 <= sp[k as int].0);
            }
            assert(parts[k as int] == text@.subrange(cursor as int, span.0 as int));
        }
        let segment = slice(chars.as_slice(), cursor, span.0);
        let found = match find_breaks(segment.as_slice()) {
            Some(found) => found,
            None => {
                return None;
            },
        };
        let block = slice(chars.as_slice(), span.0, span.1);
        let html = match block_chars(block.as_slice(), subs, asset_root) {
            Some(html) => html,
            None => {
                return None;
            },
        };
        breaks.push(found);
        htmls.push(html);
        cursor = span.1;
        k += 1;
    }
    proof {
        assert(parts[k as int] == text@.subrange(cursor as int, text@.len() as int));
    }
    let segment = slice(chars.as_slice(), cursor, chars.len());
    let found = match find_breaks(segment.as_slice()) {
        Some(found) => found,
        None => {
            return None;
        },
    };
    breaks.push(found);
    proof {
        assert(break_lists(breaks@) == breaks_in(text@, sp));
        assert(views(htmls@) == blocks_html(text@, sp, pairs(subs@), asset_root@));
        assert(breaks_fit(text@, sp, break_lists(breaks@)));
    }
    match transform_chars(
        chars.as_slice(),
        blocks.as_slice(),
        breaks.as_slice(),
        htmls.as_slice(),
        threshold,
        variant,
    ) {
        Some(out) => Some(from_chars(out.as_slice())),
        None => None,
    }
}

/// Converts a legacy post body to HTML as `transform` does, with the
/// promotional block in a variant drawn at random after the first stretch
/// of paragraphs with which the document holds three paragraphs or more. A
/// body of nothing but white space gives the empty document. Where the body
/// holds more and the engine does not accept one of its three patterns, the
/// body comes back unchanged.
pub fn to_html(text: &str, subs: &[Substitution], asset_root: &str) -> (out: String)
    ensures
        trimmed(text@).len() == 0 ==> out@.len() == 0,
        patterns_accepted() ==> exists|variant: nat|
            FIRST_VARIANT <= variant <= LAST_VARIANT && out@ == #[trigger] document_html(
                text@,
                pairs(subs@),
                asset_root@,
                DEFAULT_THRESHOLD as nat,
                variant,
            ),
        !patterns_accepted() && trimmed(text@).len() > 0 ==> out@ == text@,
{
    let variant = random_between(FIRST_VARIANT, LAST_VARIANT);
    match transform(text, subs, asset_root, DEFAULT_THRESHOLD, variant) {
        Some(out) => {
            assert(out@ == document_html(
                text@,
                pairs(subs@),
                asset_root@,
                DEFAULT_THRESHOLD as nat,
                variant as nat,
            ));
            out
        },
        None => String::from_str(text),
    }
}

/// Converts a legacy post body to HTML: headings and image tags stay in
/// their places, caption blocks become figure elements, the sources of the
/// image tags are rewritten to paths under `/content/images`, and the plain
/// text between them becomes paragraphs. One promotional block, in a variant
/// drawn at random, follows the first stretch of paragraphs with which the
/// document holds three paragraphs or more. A body of nothing but white
/// space gives the empty document. Where the body holds more and the engine
/// does not accept one of its three patterns, the body comes back unchanged.
pub fn text_to_html_paragraphs(text: &str) -> (out: String)
    ensures
        trimmed(text@).len() == 0 ==> out@.len() == 0,
        patterns_accepted() ==> exists|variant: nat|
            FIRST_VARIANT <= variant <= LAST_VARIANT && out@ == #[trigger] document_html(
                text@,
                Seq::empty(),
                default_asset_root(),
                DEFAULT_THRESHOLD as nat,
                variant,
            ),
        !patterns_accepted() && trimmed(text@).len() > 0 ==> out@ == text@,
{
    let none: Vec<Substitution> = Vec::new();
    let out = to_html(text, none.as_slice(), ASSET_ROOT);
    proof {
        assert(pairs(none@) == Seq::<(Seq<char>, Seq<char>)>::empty());
        if patterns_accepted() {
            let variant = choose|variant: nat|
                FIRST_VARIANT <= variant <= LAST_VARIANT && out@ == #[trigger] document_html(
                    text@,
                    pairs(none@),
                    ASSET_ROOT@,
                    DEFAULT_THRESHOLD as nat,
                    variant,
                );
            assert(out@ == document_html(
                text@,
                Seq::empty(),
                default_asset_root(),
                DEFAULT_THRESHOLD as nat,
                variant,
            ));
        }
    }
    out
}

} // verus!
