//! Where the promotional block stands in a document, and how many
//! paragraphs a text gives: what holds of every document.

use crate::matching::ordered;
use crate::text::{lemma_trimmed, trimmed};
use crate::transformer::{
    as_paragraphs, document_pieces_at, gaps, lemma_as_paragraphs, lemma_pieces_append, nonblank,
    paragraph_count, paragraphs_at, pieces_before, pieces_of, promo_count, stretches_at,
    with_paragraphs, Piece,
};
use vstd::prelude::*;

verus! {

/// A stretch of paragraphs ends before position `j` of `pieces`: a
/// paragraph stands before `j`, and something else at `j`.
pub open spec fn stretch_ends(pieces: Seq<Piece>, j: int) -> bool {
    0 < j < pieces.len() && pieces[j - 1] is Paragraph && !(pieces[j] is Paragraph)
}

/// The promotional block stands at position `i` of `pieces`.
pub open spec fn promo_at(pieces: Seq<Piece>, i: int) -> bool {
    0 <= i < pieces.len() && pieces[i] is Promo
}

/// The promotional block at position `i` is in its place: it is the variant
/// `variant`, it follows a paragraph, the document holds `threshold`
/// paragraphs or more before it, and no stretch of paragraphs before it
/// ended with that many.
pub open spec fn promo_in_place(pieces: Seq<Piece>, i: int, threshold: nat, variant: nat) -> bool {
    &&& i > 0
    &&& pieces[i - 1] is Paragraph
    &&& pieces[i] == Piece::Promo(variant)
    &&& paragraph_count(pieces.take(i)) >= threshold
    &&& forall|j: int|
        j < i && #[trigger] stretch_ends(pieces, j) ==> paragraph_count(pieces.take(j)) < threshold
}

/// What holds of the pieces of a document as they are put together.
spec fn placed(pieces: Seq<Piece>, threshold: nat, variant: nat) -> bool {
    &&& promo_count(pieces) <= 1
    &&& promo_count(pieces) == 0 ==> paragraph_count(pieces) < threshold || paragraph_count(pieces)
        == 0
    &&& promo_count(pieces) >= 1 ==> paragraph_count(pieces) >= threshold && paragraph_count(pieces)
        > 0
    &&& forall|i: int| #[trigger] promo_at(pieces, i) ==> promo_in_place(pieces, i, threshold, variant)
    &&& promo_count(pieces) == 0 ==> forall|j: int| #[trigger]
        stretch_ends(pieces, j) ==> paragraph_count(pieces.take(j)) < threshold
}

/// Pieces without a promotional block hold none at any position.
proof fn lemma_no_promo(pieces: Seq<Piece>, i: int)
    requires
        promo_count(pieces) == 0,
        0 <= i < pieces.len(),
    ensures
        !(pieces[i] is Promo),
    decreases pieces.len(),
{
    if i < pieces.len() - 1 {
        lemma_no_promo(pieces.drop_last(), i);
    }
}

/// Pieces that end with a paragraph hold at least one.
proof fn lemma_last_paragraph_counts(pieces: Seq<Piece>)
    requires
        pieces.len() > 0,
        pieces.last() is Paragraph,
    ensures
        paragraph_count(pieces) >= 1,
{
}

/// A stretch of paragraphs keeps the pieces in their places.
proof fn lemma_stretch_keeps_placed(
    before: Seq<Piece>,
    paras: Seq<Seq<char>>,
    threshold: nat,
    variant: nat,
)
    requires
        placed(before, threshold, variant),
    ensures
        placed(with_paragraphs(before, paras, threshold, variant), threshold, variant),
{
    let added = as_paragraphs(paras);
    let all = before + added;
    let n = before.len() as int;
    let m = all.len() as int;
    lemma_as_paragraphs(paras);
    lemma_pieces_append(before, added);
    assert forall|j: int| 0 <= j <= n implies #[trigger] all.take(j) == before.take(j) by {}
    assert forall|j: int| n <= j < m implies #[trigger] all[j] is Paragraph by {
        assert(all[j] == added[j - n]);
    }
    let after = with_paragraphs(before, paras, threshold, variant);
    if paras.len() > 0 && paragraph_count(all) >= threshold && promo_count(before) == 0 {
        assert(after == all.push(Piece::Promo(variant)));
        assert(after.drop_last() == all);
        assert(after.take(m) == all);
        assert forall|j: int| 0 <= j <= n implies #[trigger] after.take(j) == before.take(j) by {
            assert(after.take(j) == all.take(j));
        }
        assert forall|i: int| #[trigger] promo_at(after, i) implies promo_in_place(
            after,
            i,
            threshold,
            variant,
        ) by {
            if i < n {
                lemma_no_promo(before, i);
                assert(after[i] == before[i]);
            } else if i < m {
                assert(after[i] == all[i]);
            } else {
                assert(after[m - 1] == all[m - 1]);
                assert forall|j: int| j < i && #[trigger] stretch_ends(after, j) implies paragraph_count(
                    after.take(j),
                ) < threshold by {
                    if j >= n {
                        assert(after[j] == all[j]);
                    } else {
                        assert(after[j] == before[j]);
                        assert(after[j - 1] == before[j - 1]);
                        assert(stretch_ends(before, j));
                    }
                }
            }
        }
    } else {
        assert(after == all);
        assert forall|i: int| #[trigger] promo_at(all, i) implies promo_in_place(
            all,
            i,
            threshold,
            variant,
        ) by {
            assert(i < n);
            assert(all[i] == before[i]);
            assert(promo_at(before, i));
            assert(all[i - 1] == before[i - 1]);
            assert forall|j: int| j < i && #[trigger] stretch_ends(all, j) implies paragraph_count(
                all.take(j),
            ) < threshold by {
                assert(all[j] == before[j]);
                assert(all[j - 1] == before[j - 1]);
                assert(stretch_ends(before, j));
            }
        }
        if promo_count(all) == 0 {
            assert forall|j: int| #[trigger] stretch_ends(all, j) implies paragraph_count(
                all.take(j),
            ) < threshold by {
                assert(j < n);
                assert(all[j] == before[j]);
                assert(all[j - 1] == before[j - 1]);
                assert(stretch_ends(before, j));
            }
        }
    }
}

/// A special block keeps the pieces in their places.
proof fn lemma_block_keeps_placed(
    before: Seq<Piece>,
    block: Seq<char>,
    threshold: nat,
    variant: nat,
)
    requires
        placed(before, threshold, variant),
    ensures
        placed(before.push(Piece::Block(block)), threshold, variant),
{
    let after = before.push(Piece::Block(block));
    let n = before.len() as int;
    assert(after.drop_last() == before);
    assert(after.take(n) == before);
    assert forall|j: int| 0 <= j <= n implies #[trigger] after.take(j) == before.take(j) by {}
    assert forall|i: int| #[trigger] promo_at(after, i) implies promo_in_place(
        after,
        i,
        threshold,
        variant,
    ) by {
        assert(i < n);
        assert(after[i] == before[i]);
        assert(promo_at(before, i));
        assert(after[i - 1] == before[i - 1]);
        assert forall|j: int| j < i && #[trigger] stretch_ends(after, j) implies paragraph_count(
            after.take(j),
        ) < threshold by {
            assert(after[j] == before[j]);
            assert(after[j - 1] == before[j - 1]);
            assert(stretch_ends(before, j));
        }
    }
    if promo_count(after) == 0 {
        assert forall|j: int| #[trigger] stretch_ends(after, j) implies paragraph_count(
            after.take(j),
        ) < threshold by {
            assert(after[j - 1] == before[j - 1]);
            if j < n {
                assert(after[j] == before[j]);
                assert(stretch_ends(before, j));
            } else {
                lemma_last_paragraph_counts(before);
            }
        }
    }
}

/// The pieces up to a special block are in their places.
proof fn lemma_pieces_before_placed(
    stretches: Seq<Seq<Seq<char>>>,
    blocks: Seq<Seq<char>>,
    k: nat,
    threshold: nat,
    variant: nat,
)
    ensures
        placed(pieces_before(stretches, blocks, k, threshold, variant), threshold, variant),
    decreases k,
{
    if k > 0 {
        let earlier = pieces_before(stretches, blocks, (k - 1) as nat, threshold, variant);
        lemma_pieces_before_placed(stretches, blocks, (k - 1) as nat, threshold, variant);
        lemma_stretch_keeps_placed(earlier, stretches[k - 1], threshold, variant);
        lemma_block_keeps_placed(
            with_paragraphs(earlier, stretches[k - 1], threshold, variant),
            blocks[k - 1],
            threshold,
            variant,
        );
    }
}

/// A document holds the promotional block at most once. It holds it exactly
/// where it holds at least one paragraph and `threshold` paragraphs or
/// more. Where it holds it, the block is the variant asked for and follows
/// the first stretch of paragraphs with which the document held `threshold`
/// paragraphs or more: no stretch before it ended with that many.
pub proof fn lemma_promo_placement(
    stretches: Seq<Seq<Seq<char>>>,
    blocks: Seq<Seq<char>>,
    threshold: nat,
    variant: nat,
)
    ensures
        ({
            let pieces = pieces_of(stretches, blocks, threshold, variant);
            &&& promo_count(pieces) <= 1
            &&& promo_count(pieces) == 1 <==> paragraph_count(pieces) >= threshold
                && paragraph_count(pieces) >= 1
            &&& forall|i: int| #[trigger]
                promo_at(pieces, i) ==> promo_in_place(pieces, i, threshold, variant)
        }),
{
    lemma_pieces_before_placed(stretches, blocks, blocks.len(), threshold, variant);
    lemma_stretch_keeps_placed(
        pieces_before(stretches, blocks, blocks.len(), threshold, variant),
        stretches[blocks.len() as int],
        threshold,
        variant,
    );
}

/// What the special blocks among `pieces` became, in their order.
pub open spec fn block_texts(pieces: Seq<Piece>) -> Seq<Seq<char>>
    decreases pieces.len(),
{
    if pieces.len() == 0 {
        Seq::empty()
    } else {
        let before = block_texts(pieces.drop_last());
        match pieces.last() {
            Piece::Block(block) => before.push(block),
            _ => before,
        }
    }
}

/// The texts of the paragraphs among `pieces`, in their order.
pub open spec fn paragraph_texts(pieces: Seq<Piece>) -> Seq<Seq<char>>
    decreases pieces.len(),
{
    if pieces.len() == 0 {
        Seq::empty()
    } else {
        let before = paragraph_texts(pieces.drop_last());
        match pieces.last() {
            Piece::Paragraph(text) => before.push(text),
            _ => before,
        }
    }
}

/// The paragraphs of the stretches `stretches`, stretch after stretch.
pub open spec fn all_paragraphs(stretches: Seq<Seq<Seq<char>>>) -> Seq<Seq<char>>
    decreases stretches.len(),
{
    if stretches.len() == 0 {
        Seq::empty()
    } else {
        all_paragraphs(stretches.drop_last()) + stretches.last()
    }
}

/// The texts of blocks and paragraphs go piece by piece.
proof fn lemma_texts_append(a: Seq<Piece>, b: Seq<Piece>)
    ensures
        block_texts(a + b) == block_texts(a) + block_texts(b),
        paragraph_texts(a + b) == paragraph_texts(a) + paragraph_texts(b),
    decreases b.len(),
{
    if b.len() == 0 {
        assert(a + b == a);
        assert(block_texts(a) + block_texts(b) == block_texts(a));
        assert(paragraph_texts(a) + paragraph_texts(b) == paragraph_texts(a));
    } else {
        lemma_texts_append(a, b.drop_last());
        assert((a + b).drop_last() == a + b.drop_last());
        assert((a + b).last() == b.last());
        let blocks = block_texts(a) + block_texts(b.drop_last());
        let paras = paragraph_texts(a) + paragraph_texts(b.drop_last());
        match b.last() {
            Piece::Block(block) => {
                assert(blocks.push(block) == block_texts(a) + block_texts(b.drop_last()).push(
                    block,
                ));
            },
            Piece::Paragraph(text) => {
                assert(paras.push(text) == paragraph_texts(a) + paragraph_texts(
                    b.drop_last(),
                ).push(text));
            },
            Piece::Promo(_) => {},
        }
    }
}

/// Paragraph pieces hold the paragraphs they were made from, and no block.
proof fn lemma_texts_of_paragraphs(paras: Seq<Seq<char>>)
    ensures
        block_texts(as_paragraphs(paras)).len() == 0,
        paragraph_texts(as_paragraphs(paras)) == paras,
    decreases paras.len(),
{
    if paras.len() > 0 {
        lemma_texts_of_paragraphs(paras.drop_last());
        assert(as_paragraphs(paras).drop_last() == as_paragraphs(paras.drop_last()));
        assert(paras.drop_last().push(paras.last()) == paras);
    }
}

/// A stretch of paragraphs adds its paragraphs, and no block.
proof fn lemma_stretch_texts(before: Seq<Piece>, paras: Seq<Seq<char>>, threshold: nat, variant: nat)
    ensures
        block_texts(with_paragraphs(before, paras, threshold, variant)) == block_texts(before),
        paragraph_texts(with_paragraphs(before, paras, threshold, variant)) == paragraph_texts(
            before,
        ) + paras,
{
    let all = before + as_paragraphs(paras);
    lemma_texts_append(before, as_paragraphs(paras));
    lemma_texts_of_paragraphs(paras);
    assert(block_texts(before) + block_texts(as_paragraphs(paras)) == block_texts(before));
    assert(all.push(Piece::Promo(variant)).drop_last() == all);
}

/// Up to its `k`-th special block a document holds the first `k` special
/// blocks and the paragraphs of the stretches before them.
proof fn lemma_texts_before(
    stretches: Seq<Seq<Seq<char>>>,
    blocks: Seq<Seq<char>>,
    k: nat,
    threshold: nat,
    variant: nat,
)
    requires
        k <= blocks.len(),
        stretches.len() == blocks.len() + 1,
    ensures
        block_texts(pieces_before(stretches, blocks, k, threshold, variant)) == blocks.take(
            k as int,
        ),
        paragraph_texts(pieces_before(stretches, blocks, k, threshold, variant)) == all_paragraphs(
            stretches.take(k as int),
        ),
    decreases k,
{
    if k == 0 {
        assert(stretches.take(0) == Seq::<Seq<Seq<char>>>::empty());
        assert(blocks.take(0) == Seq::<Seq<char>>::empty());
    } else {
        let earlier = pieces_before(stretches, blocks, (k - 1) as nat, threshold, variant);
        lemma_texts_before(stretches, blocks, (k - 1) as nat, threshold, variant);
        let with = with_paragraphs(earlier, stretches[k - 1], threshold, variant);
        lemma_stretch_texts(earlier, stretches[k - 1], threshold, variant);
        let after = with.push(Piece::Block(blocks[k - 1]));
        assert(after.drop_last() == with);
        assert(stretches.take(k as int).drop_last() == stretches.take(k - 1));
        assert(stretches.take(k as int).last() == stretches[k - 1]);
        assert(blocks.take(k - 1).push(blocks[k - 1]) == blocks.take(k as int));
    }
}

/// A document keeps the order of its body: its special blocks are the
/// special blocks given, each once and in their order, and its paragraphs
/// are the paragraphs of the stretches before, between and after them, in
/// their order, each once. Nothing is moved, and there are as many
/// paragraph containers as paragraphs.
pub proof fn lemma_document_keeps_order(
    stretches: Seq<Seq<Seq<char>>>,
    blocks: Seq<Seq<char>>,
    threshold: nat,
    variant: nat,
)
    requires
        stretches.len() == blocks.len() + 1,
    ensures
        block_texts(pieces_of(stretches, blocks, threshold, variant)) == blocks,
        paragraph_texts(pieces_of(stretches, blocks, threshold, variant)) == all_paragraphs(
            stretches,
        ),
        paragraph_count(pieces_of(stretches, blocks, threshold, variant)) == all_paragraphs(
            stretches,
        ).len(),
{
    let n = blocks.len();
    lemma_texts_before(stretches, blocks, n, threshold, variant);
    lemma_stretch_texts(
        pieces_before(stretches, blocks, n, threshold, variant),
        stretches[n as int],
        threshold,
        variant,
    );
    assert(blocks.take(n as int) == blocks);
    assert(stretches.drop_last() == stretches.take(n as int));
    assert(stretches.last() == stretches[n as int]);
    lemma_paragraph_texts_count(pieces_of(stretches, blocks, threshold, variant));
}

/// A body without special blocks gives its paragraphs, each once and in
/// their order, and as many paragraph containers: what stands between its
/// paragraph breaks, trimmed, without what is empty then.
pub proof fn lemma_plain_body_paragraphs(
    text: Seq<char>,
    breaks: Seq<(int, int)>,
    threshold: nat,
    variant: nat,
)
    ensures
        paragraph_texts(
            document_pieces_at(text, Seq::empty(), seq![breaks], Seq::empty(), threshold, variant),
        ) == paragraphs_at(text, breaks),
        paragraph_count(
            document_pieces_at(text, Seq::empty(), seq![breaks], Seq::empty(), threshold, variant),
        ) == paragraphs_at(text, breaks).len(),
{
    let none = Seq::<(int, int)>::empty();
    let stretches = stretches_at(text, none, seq![breaks]);
    assert(gaps(text, none)[0] == text.subrange(0, text.len() as int));
    assert(text.subrange(0, text.len() as int) == text);
    assert(stretches == seq![paragraphs_at(text, breaks)]);
    lemma_document_keeps_order(stretches, Seq::empty(), threshold, variant);
    assert(stretches.drop_last() == Seq::<Seq<Seq<char>>>::empty());
    assert(all_paragraphs(stretches.drop_last()) == Seq::<Seq<char>>::empty());
    assert(all_paragraphs(stretches) == Seq::<Seq<char>>::empty() + stretches.last());
}

/// There are as many paragraph texts as paragraphs.
proof fn lemma_paragraph_texts_count(pieces: Seq<Piece>)
    ensures
        paragraph_texts(pieces).len() == paragraph_count(pieces),
    decreases pieces.len(),
{
    if pieces.len() > 0 {
        lemma_paragraph_texts_count(pieces.drop_last());
    }
}

/// A text of nothing but white space gives no paragraph, wherever its
/// paragraph breaks lie.
pub proof fn lemma_blank_text_has_no_paragraphs(text: Seq<char>, breaks: Seq<(int, int)>)
    requires
        ordered(breaks, text.len() as int),
        trimmed(text).len() == 0,
    ensures
        paragraphs_at(text, breaks).len() == 0,
{
    let parts = gaps(text, breaks);
    lemma_trimmed(text);
    assert forall|k: int| 0 <= k < parts.len() implies trimmed(#[trigger] parts[k]).len() == 0 by {
        let part = parts[k];
        let from = if k == 0 {
            0
        } else {
            breaks[k - 1].1
        };
        let to = if k == breaks.len() {
            text.len() as int
        } else {
            breaks[k].0
        };
        if k > 0 {
            assert(0 <= breaks[k - 1].0 <= breaks[k - 1].1 <= text.len());
        }
        if k < breaks.len() {
            assert(0 <= breaks[k].0 <= breaks[k].1 <= text.len());
        }
        if 0 < k < breaks.len() {
            assert(breaks[k - 1].1 <= breaks[k].0);
        }
        lemma_trimmed(part);
        assert forall|c: int| 0 <= c < part.len() implies crate::text::is_space(
            #[trigger] part[c],
        ) by {
            assert(part[c] == text[from + c]);
        }
    }
    lemma_all_blank(parts);
}

/// Parts that all hold nothing but white space give no paragraph.
proof fn lemma_all_blank(parts: Seq<Seq<char>>)
    requires
        forall|k: int| 0 <= k < parts.len() ==> trimmed(#[trigger] parts[k]).len() == 0,
    ensures
        nonblank(parts).len() == 0,
    decreases parts.len(),
{
    if parts.len() > 0 {
        assert forall|k: int| 0 <= k < parts.drop_last().len() implies trimmed(
            #[trigger] parts.drop_last()[k],
        ).len() == 0 by {
            assert(parts.drop_last()[k] == parts[k]);
        }
        lemma_all_blank(parts.drop_last());
    }
}

/// The paragraphs of a text are as many as the parts between its paragraph
/// breaks that hold more than white space, and never more than the parts.
pub proof fn lemma_paragraphs_bounded(parts: Seq<Seq<char>>)
    ensures
        nonblank(parts).len() <= parts.len(),
        forall|i: int|
            0 <= i < nonblank(parts).len() ==> (#[trigger] nonblank(parts)[i]).len() > 0,
    decreases parts.len(),
{
    if parts.len() > 0 {
        lemma_paragraphs_bounded(parts.drop_last());
    }
}

} // verus!
