//! The calls into other crates: the pattern engine, the HTML sanitizer, the
//! URL parser, the base64 encoder and the random number generator.
//!
//! Nothing in this module is proved. Each function states what the crate it
//! calls documents, and the rest of the library is verified against that.

use crate::offsets::utf8_len;
use rand::Rng;
use vstd::prelude::*;

verus! {

/// Whether `regex::Regex::new` compiles `pattern`.
pub uninterp spec fn regex_accepts(pattern: Seq<char>) -> bool;

/// What `regex::Regex::captures_iter` yields for `pattern` on `text`: for
/// each match, in order, the byte offsets where each capture group begins and
/// ends, group 0 being the whole match.
pub uninterp spec fn regex_captures(pattern: Seq<char>, text: Seq<char>) -> Seq<
    Seq<Option<(usize, usize)>>,
>;

/// What `ammonia::clean` returns for `src`.
pub uninterp spec fn sanitized(src: Seq<char>) -> Seq<char>;

/// The path of the URL that `url::Url::parse` reads from `input`, where it
/// reads one.
pub uninterp spec fn url_path(input: Seq<char>) -> Option<Seq<char>>;

/// What `base64::encode` returns for `bytes`.
pub uninterp spec fn base64_text(bytes: Seq<u8>) -> Seq<char>;

/// The group lists that the vectors of `v` hold.
pub open spec fn group_lists(v: Seq<Vec<Option<(usize, usize)>>>) -> Seq<
    Seq<Option<(usize, usize)>>,
> {
    Seq::new(v.len(), |k: int| v[k]@)
}

/// The whole match of the `k`-th entry of `caps`.
pub open spec fn whole(caps: Seq<Seq<Option<(usize, usize)>>>, k: int) -> (usize, usize) {
    caps[k][0].unwrap()
}

/// Every match has its group 0; every group that took part begins before it
/// ends and ends within `limit`; and each match ends before the next begins.
pub open spec fn captures_in_order(caps: Seq<Seq<Option<(usize, usize)>>>, limit: nat) -> bool {
    &&& forall|k: int| 0 <= k < caps.len() ==> (#[trigger] caps[k]).len() >= 1 && caps[k][0] is Some
    &&& forall|k: int, g: int|
        0 <= k < caps.len() && 0 <= g < caps[k].len() && (#[trigger] caps[k][g]) is Some
            ==> caps[k][g].unwrap().0 <= caps[k][g].unwrap().1 <= limit
    &&& forall|k: int, l: int|
        0 <= k < l < caps.len() ==> (#[trigger] whole(caps, k)).1 <= (#[trigger] whole(caps, l)).0
}

/// Compiles `pattern` with `regex::Regex::new` and, where that succeeds, runs
/// `Regex::captures_iter` over `text`, handing out each match as the byte
/// offsets of its capture groups.
///
/// Believed of the engine: whether it compiles a pattern depends on the
/// pattern alone, and what it finds on the pattern and the text alone; each
/// match comes with its group 0; a group's start is no greater than its end,
/// which lies within the text; successive matches do not overlap.
#[verifier::external_body]
pub(crate) fn regex_scan(pattern: &str, text: &str) -> (r: Option<
    Vec<Vec<Option<(usize, usize)>>>,
>)
    ensures
        r is Some <==> regex_accepts(pattern@),
        r matches Some(v) ==> group_lists(v@) == regex_captures(pattern@, text@)
            && captures_in_order(group_lists(v@), utf8_len(text@)),
{
    regex::Regex::new(pattern).ok().map(
        |re|
            re.captures_iter(text).map(
                |c| c.iter().map(|g| g.map(|m| (m.start(), m.end()))).collect(),
            ).collect(),
    )
}

/// Calls `ammonia::clean`, which parses `src` as an HTML fragment and writes
/// it out again with only the tags and attributes of its default allow-list.
///
/// Believed of the sanitizer: its output depends on its input alone.
#[verifier::external_body]
pub(crate) fn sanitize(src: &str) -> (out: String)
    ensures
        out@ == sanitized(src@),
{
    ammonia::clean(src)
}

/// Parses `input` with `url::Url::parse` and hands out `Url::path` of the
/// result, or `None` where the input is no absolute URL.
///
/// Believed of the parser: its result depends on its input alone.
#[verifier::external_body]
pub(crate) fn parse_url_path(input: &str) -> (r: Option<String>)
    ensures
        match r {
            Some(p) => url_path(input@) == Some(p@),
            None => url_path(input@) is None,
        },
{
    url::Url::parse(input).ok().map(|u| u.path().to_string())
}

/// Calls `base64::encode`, which encodes `bytes` in the standard alphabet
/// with padding.
///
/// Believed of the encoder: its output depends on its input alone.
#[verifier::external_body]
#[allow(deprecated)]
pub(crate) fn encode_base64(bytes: &[u8]) -> (out: String)
    ensures
        out@ == base64_text(bytes@),
{
    base64::encode(bytes)
}

/// Draws a number from `low..=high` with `rand::Rng::gen_range` on the
/// thread's generator.
///
/// Believed of the generator: what it draws lies in the range. Two draws may
/// differ.
#[verifier::external_body]
pub(crate) fn random_between(low: u32, high: u32) -> (r: u32)
    requires
        low <= high,
    ensures
        low <= r <= high,
{
    rand::thread_rng().gen_range(low..=high)
}

} // verus!
