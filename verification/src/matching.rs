//! Pattern matches in character positions.
//!
//! The engine reports where a pattern matches in bytes of the UTF-8
//! encoding. `scan` asks the engine and converts what it reports to
//! character positions, which is what the rest of the library slices by.

use crate::bindings::{captures_in_order, group_lists, regex_accepts, regex_captures, regex_scan, whole};
use crate::offsets::{char_index, chars_before, lemma_chars_before_bounds, utf8_len};
use crate::text::from_chars;
use vstd::prelude::*;

verus! {

/// A capture group of one match: where it begins and ends, or `None` where
/// the group took no part in the match.
pub type Group = Option<(int, int)>;

/// The byte offsets `span` into `text` as character positions.
pub open spec fn char_span(text: Seq<char>, span: (usize, usize)) -> (int, int) {
    (chars_before(text, span.0 as nat) as int, chars_before(text, span.1 as nat) as int)
}

/// The groups of one match, in character positions.
pub open spec fn char_groups(text: Seq<char>, groups: Seq<Option<(usize, usize)>>) -> Seq<Group> {
    Seq::new(
        groups.len(),
        |g: int|
            match groups[g] {
                Some(span) => Some(char_span(text, span)),
                None => None,
            },
    )
}

/// What the engine finds for `pattern` in `text`: for each match, in order,
/// its capture groups in character positions, group 0 being the whole match.
pub open spec fn found(pattern: Seq<char>, text: Seq<char>) -> Seq<Seq<Group>> {
    let raw = regex_captures(pattern, text);
    Seq::new(raw.len(), |k: int| char_groups(text, raw[k]))
}

/// The positions that `groups` holds.
pub open spec fn group_positions(groups: Seq<Option<(usize, usize)>>) -> Seq<Group> {
    Seq::new(
        groups.len(),
        |g: int|
            match groups[g] {
                Some(span) => Some((span.0 as int, span.1 as int)),
                None => None,
            },
    )
}

/// The positions that the vectors of `v` hold.
pub open spec fn positions(v: Seq<Vec<Option<(usize, usize)>>>) -> Seq<Seq<Group>> {
    Seq::new(v.len(), |k: int| group_positions(v[k]@))
}

/// Where the `k`-th match of `caps` begins and ends.
pub open spec fn span_of(caps: Seq<Seq<Group>>, k: int) -> (int, int) {
    caps[k][0].unwrap()
}

/// Every match has its group 0; every group that took part lies within
/// `0..=limit` and begins before it ends; each match ends before the next
/// begins.
pub open spec fn in_order(caps: Seq<Seq<Group>>, limit: int) -> bool {
    &&& forall|k: int| 0 <= k < caps.len() ==> (#[trigger] caps[k]).len() >= 1 && caps[k][0] is Some
    &&& forall|k: int, g: int|
        0 <= k < caps.len() && 0 <= g < caps[k].len() && (#[trigger] caps[k][g]) is Some ==> 0
            <= caps[k][g].unwrap().0 <= caps[k][g].unwrap().1 <= limit
    &&& forall|k: int, l: int|
        0 <= k < l < caps.len() ==> (#[trigger] span_of(caps, k)).1 <= (#[trigger] span_of(
            caps,
            l,
        )).0
}

/// Byte offsets in order stand for character positions in order.
proof fn lemma_in_order(text: Seq<char>, raw: Seq<Seq<Option<(usize, usize)>>>)
    requires
        captures_in_order(raw, utf8_len(text)),
    ensures
        in_order(Seq::new(raw.len(), |k: int| char_groups(text, raw[k])), text.len() as int),
{
    let caps = Seq::new(raw.len(), |k: int| char_groups(text, raw[k]));
    assert forall|k: int| 0 <= k < caps.len() implies (#[trigger] caps[k]).len() >= 1
        && caps[k][0] is Some by {
        assert(raw[k].len() >= 1 && raw[k][0] is Some);
    }
    assert forall|k: int, g: int|
        0 <= k < caps.len() && 0 <= g < caps[k].len() && (#[trigger] caps[k][g]) is Some implies 0
        <= caps[k][g].unwrap().0 <= caps[k][g].unwrap().1 <= text.len() by {
        assert(raw[k][g] is Some);
        let span = raw[k][g].unwrap();
        lemma_chars_before_bounds(text, span.0 as nat, span.1 as nat);
    }
    assert forall|k: int, l: int| 0 <= k < l < caps.len() implies (#[trigger] span_of(caps, k)).1
        <= (#[trigger] span_of(caps, l)).0 by {
        assert(raw[k].len() >= 1 && raw[k][0] is Some);
        assert(raw[l].len() >= 1 && raw[l][0] is Some);
        assert(whole(raw, k).1 <= whole(raw, l).0);
        lemma_chars_before_bounds(text, whole(raw, k).1 as nat, whole(raw, l).0 as nat);
    }
}

/// The matches of `pattern` in `text` with their capture groups, in
/// character positions; `None` where the engine does not accept the pattern.
pub fn scan(pattern: &str, text: &[char]) -> (r: Option<Vec<Vec<Option<(usize, usize)>>>>)
    ensures
        r is Some <==> regex_accepts(pattern@),
        r matches Some(v) ==> positions(v@) == found(pattern@, text@) && in_order(
            positions(v@),
            text@.len() as int,
        ),
{
    let owned = from_chars(text);
    let raw = match regex_scan(pattern, owned.as_str()) {
        Some(raw) => raw,
        None => {
            return None;
        },
    };
    let ghost goal = found(pattern@, text@);
    let mut out: Vec<Vec<Option<(usize, usize)>>> = Vec::new();
    let mut k: usize = 0;
    while k < raw.len()
        invariant
            k <= raw.len(),
            group_lists(raw@) == regex_captures(pattern@, text@),
            goal == found(pattern@, text@),
            out@.len() == k,
            forall|j: int| 0 <= j < k ==> group_positions(#[trigger] out@[j]@) == goal[j],
        decreases raw.len() - k,
    {
        let groups = &raw[k];
        assert(group_lists(raw@)[k as int] == groups@);
        let mut conv: Vec<Option<(usize, usize)>> = Vec::new();
        let mut g: usize = 0;
        while g < groups.len()
            invariant
                g <= groups.len(),
                conv@.len() == g,
                forall|j: int|
                    0 <= j < g ==> group_positions(conv@)[j] == char_groups(text@, groups@)[j],
            decreases groups.len() - g,
        {
            let ghost before = conv@;
            match groups[g] {
                Some((s, e)) => {
                    conv.push(Some((char_index(text, s), char_index(text, e))));
                },
                None => {
                    conv.push(None);
                },
            }
            proof {
                assert forall|j: int| 0 <= j < g + 1 implies group_positions(conv@)[j]
                    == char_groups(text@, groups@)[j] by {
                    if j < g {
                        assert(conv@[j] == before[j]);
                        assert(group_positions(before)[j] == char_groups(text@, groups@)[j]);
                    }
                }
            }
            g += 1;
        }
        assert(group_positions(conv@) == char_groups(text@, groups@));
        out.push(conv);
        k += 1;
    }
    proof {
        assert(positions(out@) == goal);
        lemma_in_order(text@, regex_captures(pattern@, text@));
    }
    Some(out)
}

/// Where `pattern` matches in `text`: for each match, in order, where it
/// begins and ends, in character positions.
pub open spec fn spans(pattern: Seq<char>, text: Seq<char>) -> Seq<(int, int)> {
    let caps = found(pattern, text);
    Seq::new(caps.len(), |k: int| span_of(caps, k))
}

/// The positions that `v` holds.
pub open spec fn span_positions(v: Seq<(usize, usize)>) -> Seq<(int, int)> {
    Seq::new(v.len(), |k: int| (v[k].0 as int, v[k].1 as int))
}

/// Each span lies within `0..=limit` and begins before it ends, and each
/// ends before the next begins.
pub open spec fn ordered(spans: Seq<(int, int)>, limit: int) -> bool {
    &&& forall|k: int|
        0 <= k < spans.len() ==> 0 <= (#[trigger] spans[k]).0 <= spans[k].1 <= limit
    &&& forall|k: int, l: int|
        0 <= k < l < spans.len() ==> (#[trigger] spans[k]).1 <= (#[trigger] spans[l]).0
}

/// Whether the spans `spans` are in order within `0..=limit`.
pub fn spans_in_order(spans: &[(usize, usize)], limit: usize) -> (b: bool)
    ensures
        b == ordered(span_positions(spans@), limit as int),
{
    let ghost sp = span_positions(spans@);
    let mut i: usize = 0;
    while i < spans.len()
        invariant
            i <= spans.len(),
            sp == span_positions(spans@),
            forall|k: int| 0 <= k < i ==> 0 <= (#[trigger] sp[k]).0 <= sp[k].1 <= limit,
            forall|k: int, l: int| 0 <= k < l < i ==> (#[trigger] sp[k]).1 <= (#[trigger] sp[l]).0,
        decreases spans.len() - i,
    {
        let span = spans[i];
        assert(sp[i as int] == (span.0 as int, span.1 as int));
        if span.0 > span.1 || span.1 > limit {
            return false;
        }
        if i > 0 {
            let before = spans[i - 1];
            assert(sp[i - 1] == (before.0 as int, before.1 as int));
            if before.1 > span.0 {
                return false;
            }
            assert forall|k: int| 0 <= k < i implies (#[trigger] sp[k]).1 <= sp[i as int].0 by {
                if k < i - 1 {
                    assert(sp[k].1 <= sp[i - 1].0);
                }
            }
        }
        i += 1;
    }
    true
}

/// Every group of `groups` that took part lies within `0..=limit` and begins
/// before it ends.
pub open spec fn groups_within(groups: Seq<Group>, limit: int) -> bool {
    forall|g: int|
        0 <= g < groups.len() && (#[trigger] groups[g]) is Some ==> 0 <= groups[g].unwrap().0
            <= groups[g].unwrap().1 <= limit
}

/// Whether every group of `groups` that took part lies within `0..=limit`
/// and begins before it ends.
pub fn groups_in_bounds(groups: &[Option<(usize, usize)>], limit: usize) -> (b: bool)
    ensures
        b == groups_within(group_positions(groups@), limit as int),
{
    let ghost gp = group_positions(groups@);
    let mut i: usize = 0;
    while i < groups.len()
        invariant
            i <= groups.len(),
            gp == group_positions(groups@),
            forall|g: int|
                0 <= g < i && (#[trigger] gp[g]) is Some ==> 0 <= gp[g].unwrap().0
                    <= gp[g].unwrap().1 <= limit,
        decreases groups.len() - i,
    {
        match groups[i] {
            Some(span) => {
                assert(gp[i as int] == Some((span.0 as int, span.1 as int)));
                if span.0 > span.1 || span.1 > limit {
                    return false;
                }
            },
            None => {
                assert(gp[i as int] is None);
            },
        }
        i += 1;
    }
    true
}

/// Where `pattern` matches in `text`, in character positions; `None` where
/// the engine does not accept the pattern.
pub fn find_spans(pattern: &str, text: &[char]) -> (r: Option<Vec<(usize, usize)>>)
    ensures
        r is Some <==> regex_accepts(pattern@),
        r matches Some(v) ==> span_positions(v@) == spans(pattern@, text@) && ordered(
            span_positions(v@),
            text@.len() as int,
        ),
{
    let caps = match scan(pattern, text) {
        Some(caps) => caps,
        None => {
            return None;
        },
    };
    let ghost all = positions(caps@);
    let mut out: Vec<(usize, usize)> = Vec::new();
    let mut k: usize = 0;
    while k < caps.len()
        invariant
            k <= caps.len(),
            all == positions(caps@),
            in_order(all, text@.len() as int),
            out@.len() == k,
            forall|j: int|
                0 <= j < k ==> ((#[trigger] out@[j]).0 as int, out@[j].1 as int) == span_of(all, j),
        decreases caps.len() - k,
    {
        assert(all[k as int].len() >= 1 && all[k as int][0] is Some);
        let groups = &caps[k];
        assert(group_positions(groups@) == all[k as int]);
        match groups[0] {
            Some(span) => {
                out.push(span);
            },
            None => {
                assert(group_positions(groups@)[0] is None);
                assert(false);
            },
        }
        k += 1;
    }
    proof {
        let sp = span_positions(out@);
        assert(sp == spans(pattern@, text@));
        assert forall|j: int| 0 <= j < sp.len() implies 0 <= (#[trigger] sp[j]).0 <= sp[j].1
            <= text@.len() by {
            assert(all[j][0] is Some);
        }
        assert forall|j: int, l: int| 0 <= j < l < sp.len() implies (#[trigger] sp[j]).1 <= (
        #[trigger] sp[l]).0 by {
            assert(span_of(all, j).1 <= span_of(all, l).0);
        }
    }
    Some(out)
}

} // verus!
