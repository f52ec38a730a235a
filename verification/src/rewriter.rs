//! Rewriting legacy asset URLs to destination paths, and resolving them to
//! files under the legacy content root.
//!
//! The policy: domain substitutions are applied first, in the order given;
//! then a URL that holds the legacy marker `/wp-content/` keeps what follows
//! `/wp-`, with `/content/uploads` renamed to the asset root; any other
//! input is taken as a bare relative path and put under the asset root.
//!
//! Resolving never leaves the content root: a path with a segment `..` names
//! no file.

use crate::bindings::{parse_url_path, url_path};
use crate::text::{
    contains, extend, find, first_occurrence, from_chars, lemma_first_occurrence_from,
    lemma_replaced_without_occurrence, lemma_split_on, occurs_at, replace, replaced, slice, split,
    split_on, strip_leading, to_chars, views, without_leading,
};
use vstd::prelude::*;

verus! {

/// The path segment that marks a URL of the legacy system.
pub open spec fn legacy_marker() -> Seq<char> {
    "/wp-content/"@
}

/// The legacy directory that holds the assets, as it reads once the marker's
/// `/wp-` is cut off.
pub open spec fn legacy_namespace() -> Seq<char> {
    "/content/uploads"@
}

/// The directory of the destination under which assets are kept.
pub const ASSET_ROOT: &'static str = "/content/images";

/// The asset root of the destination.
pub open spec fn default_asset_root() -> Seq<char> {
    ASSET_ROOT@
}

/// The destination path for `url` under the asset root `root`.
pub open spec fn rewritten(url: Seq<char>, root: Seq<char>) -> Seq<char> {
    match first_occurrence(url, legacy_marker()) {
        Some(pos) => replaced(seq!['/'] + url.skip(pos + 4), legacy_namespace(), root),
        None => root + seq!['/'] + url,
    }
}

/// One domain substitution: every occurrence of `pattern` becomes
/// `replacement`.
#[derive(Debug, Clone, PartialEq, Eq)]
pub struct Substitution {
    pub pattern: String,
    pub replacement: String,
}

impl View for Substitution {
    type V = (Seq<char>, Seq<char>);

    open spec fn view(&self) -> (Seq<char>, Seq<char>) {
        (self.pattern@, self.replacement@)
    }
}

/// The pairs that the substitutions of `v` hold.
pub open spec fn pairs(v: Seq<Substitution>) -> Seq<(Seq<char>, Seq<char>)> {
    Seq::new(v.len(), |i: int| v[i]@)
}

/// `url` after the substitutions of `subs`, each applied to the result of
/// the one before it.
pub open spec fn substituted(url: Seq<char>, subs: Seq<(Seq<char>, Seq<char>)>) -> Seq<char>
    decreases subs.len(),
{
    if subs.len() == 0 {
        url
    } else {
        let last = subs.last();
        replaced(substituted(url, subs.drop_last()), last.0, last.1)
    }
}

/// The destination path for `url`: substitutions first, then the rewrite.
pub open spec fn rewritten_with(
    url: Seq<char>,
    subs: Seq<(Seq<char>, Seq<char>)>,
    root: Seq<char>,
) -> Seq<char> {
    rewritten(substituted(url, subs), root)
}

/// The substitutions that the fields `fields` spell: a field of the form
/// `pattern|replacement` gives one, any other field gives none.
pub open spec fn substitutions_of(fields: Seq<Seq<char>>) -> Seq<(Seq<char>, Seq<char>)>
    decreases fields.len(),
{
    if fields.len() == 0 {
        Seq::empty()
    } else {
        let before = substitutions_of(fields.drop_last());
        let parts = split_on(fields.last(), '|');
        if parts.len() == 2 {
            before.push((parts[0], parts[1]))
        } else {
            before
        }
    }
}

/// The substitutions that `list` spells: its fields are separated by commas.
pub open spec fn parsed_substitutions(list: Seq<char>) -> Seq<(Seq<char>, Seq<char>)> {
    substitutions_of(split_on(list, ','))
}

/// `rel` put under the directory `root`: a separator comes between the two
/// unless `root` is empty or ends with one, and an absolute `rel` stands
/// alone.
pub open spec fn joined(root: Seq<char>, rel: Seq<char>) -> Seq<char> {
    if rel.len() > 0 && rel[0] == '/' {
        rel
    } else if root.len() > 0 && root.last() != '/' {
        root + seq!['/'] + rel
    } else {
        root + rel
    }
}

/// The path segment that names the parent directory.
pub open spec fn parent_segment() -> Seq<char> {
    seq!['.', '.']
}

/// One of the segments of `rel`, which `/` separates, names the parent
/// directory.
pub open spec fn has_parent_segment(rel: Seq<char>) -> bool {
    exists|k: int|
        0 <= k < split_on(rel, '/').len() && #[trigger] split_on(rel, '/')[k] == parent_segment()
}

/// The file under `root` that `path` names: `path` without its leading
/// slashes, under `root`. A path with a segment `..` names none.
pub open spec fn under_root(root: Seq<char>, path: Seq<char>) -> Option<Seq<char>> {
    let rel = without_leading(path, '/');
    if has_parent_segment(rel) {
        None
    } else {
        Some(joined(root, rel))
    }
}

/// The path that `text` names: a text that begins with `/` is a path
/// already; of any other text it is the path of the URL that the parser
/// reads from it, where it reads one.
pub open spec fn path_of(text: Seq<char>) -> Option<Seq<char>> {
    if text.len() > 0 && text[0] == '/' {
        Some(text)
    } else {
        url_path(text)
    }
}

/// The file under `root` that `url` names: the path that is left after the
/// substitutions, under `root`. `None` where what is left names no path, or
/// a path with a segment `..`.
pub open spec fn resolved(
    url: Seq<char>,
    root: Seq<char>,
    subs: Seq<(Seq<char>, Seq<char>)>,
) -> Option<Seq<char>> {
    match path_of(substituted(url, subs)) {
        Some(path) => under_root(root, path),
        None => None,
    }
}

/// The destination path for `url` under the asset root `root`.
pub fn rewrite_chars(url: &[char], root: &[char]) -> (out: Vec<char>)
    ensures
        out@ == rewritten(url@, root@),
{
    let marker = to_chars("/wp-content/");
    let namespace = to_chars("/content/uploads");
    let mut out: Vec<char> = Vec::new();
    match find(url, marker.as_slice()) {
        Some(pos) => {
            proof {
                reveal_strlit("/wp-content/");
                assert(marker@.len() == 12);
                assert(occurs_at(url@, marker@, pos as int));
            }
            out.push('/');
            let end = url.len();
            let tail = slice(url, pos + 4, end);
            extend(&mut out, tail.as_slice());
            replace(out.as_slice(), namespace.as_slice(), root)
        },
        None => {
            extend(&mut out, root);
            out.push('/');
            extend(&mut out, url);
            out
        },
    }
}

/// `url` after the substitutions of `subs`.
pub fn substitute(url: &[char], subs: &[Substitution]) -> (out: Vec<char>)
    ensures
        out@ == substituted(url@, pairs(subs@)),
{
    let mut out: Vec<char> = slice(url, 0, url.len());
    let mut i: usize = 0;
    proof {
        assert(url@.subrange(0, url@.len() as int) == url@);
        assert(pairs(subs@).take(0) == Seq::<(Seq<char>, Seq<char>)>::empty());
    }
    while i < subs.len()
        invariant
            i <= subs.len(),
            out@ == substituted(url@, pairs(subs@).take(i as int)),
        decreases subs.len() - i,
    {
        let pattern = to_chars(subs[i].pattern.as_str());
        let replacement = to_chars(subs[i].replacement.as_str());
        proof {
            let next = pairs(subs@).take(i + 1);
            assert(next.drop_last() == pairs(subs@).take(i as int));
            assert(next.last() == subs@[i as int]@);
        }
        if contains(out.as_slice(), pattern.as_slice()) {
            out = replace(out.as_slice(), pattern.as_slice(), replacement.as_slice());
        } else {
            proof {
                lemma_replaced_without_occurrence(out@, pattern@, replacement@);
            }
        }
        i += 1;
    }
    proof {
        assert(pairs(subs@).take(subs@.len() as int) == pairs(subs@));
    }
    out
}

/// Rewrites a legacy asset URL to its destination path under
/// `/content/images`. A URL that holds `/wp-content/` keeps what follows the
/// marker's `/wp-`, with `/content/uploads` renamed to `/content/images`; any
/// other input is put under `/content/images/` as it is.
pub fn process_image_url(image_url: &str) -> (out: String)
    ensures
        out@ == rewritten(image_url@, default_asset_root()),
{
    let url = to_chars(image_url);
    let root = to_chars(ASSET_ROOT);
    let out = rewrite_chars(url.as_slice(), root.as_slice());
    from_chars(out.as_slice())
}

/// Rewrites a legacy asset URL to its destination path under `asset_root`,
/// after the domain substitutions `subs` have been applied to it in order.
pub fn rewrite_asset_url(url: &str, subs: &[Substitution], asset_root: &str) -> (out: String)
    ensures
        out@ == rewritten_with(url@, pairs(subs@), asset_root@),
{
    let chars = to_chars(url);
    let root = to_chars(asset_root);
    let canonical = substitute(chars.as_slice(), subs);
    let out = rewrite_chars(canonical.as_slice(), root.as_slice());
    from_chars(out.as_slice())
}

/// Reads a list of substitutions: fields separated by commas, each of the
/// form `pattern|replacement`. A field with no bar, or with more than one,
/// is passed over.
pub fn parse_substitutions(list: &str) -> (out: Vec<Substitution>)
    ensures
        pairs(out@) == parsed_substitutions(list@),
{
    let chars = to_chars(list);
    let fields = split(chars.as_slice(), ',');
    let mut out: Vec<Substitution> = Vec::new();
    let mut i: usize = 0;
    proof {
        assert(views(fields@).take(0) == Seq::<Seq<char>>::empty());
        assert(pairs(out@) == Seq::<(Seq<char>, Seq<char>)>::empty());
    }
    while i < fields.len()
        invariant
            i <= fields.len(),
            pairs(out@) == substitutions_of(views(fields@).take(i as int)),
        decreases fields.len() - i,
    {
        let ghost before = pairs(out@);
        let parts = split(fields[i].as_slice(), '|');
        proof {
            let next = views(fields@).take(i + 1);
            assert(next.drop_last() == views(fields@).take(i as int));
            assert(next.last() == fields@[i as int]@);
            assert(views(parts@).len() == parts@.len());
        }
        if parts.len() == 2 {
            let pattern = from_chars(parts[0].as_slice());
            let replacement = from_chars(parts[1].as_slice());
            proof {
                assert(views(parts@)[0] == parts@[0]@);
                assert(views(parts@)[1] == parts@[1]@);
            }
            out.push(Substitution { pattern, replacement });
            proof {
                assert(pairs(out@) == before.push((parts@[0]@, parts@[1]@)));
            }
        }
        i += 1;
    }
    proof {
        assert(views(fields@).take(fields@.len() as int) == views(fields@));
    }
    out
}

/// `rel` put under the directory `root`.
pub fn join_path(root: &[char], rel: &[char]) -> (out: Vec<char>)
    ensures
        out@ == joined(root@, rel@),
{
    let mut out: Vec<char> = Vec::new();
    if rel.len() > 0 && rel[0] == '/' {
        extend(&mut out, rel);
    } else {
        extend(&mut out, root);
        if root.len() > 0 && root[root.len() - 1] != '/' {
            out.push('/');
        }
        extend(&mut out, rel);
    }
    out
}

/// Whether one of the segments of `rel` names the parent directory.
pub fn names_parent(rel: &[char]) -> (b: bool)
    ensures
        b == has_parent_segment(rel@),
{
    let segments = split(rel, '/');
    let ghost all = split_on(rel@, '/');
    let mut k: usize = 0;
    while k < segments.len()
        invariant
            k <= segments.len(),
            views(segments@) == all,
            all == split_on(rel@, '/'),
            forall|j: int| 0 <= j < k ==> all[j] != parent_segment(),
        decreases segments.len() - k,
    {
        let segment = &segments[k];
        assert(all[k as int] == segment@);
        if segment.len() == 2 && segment[0] == '.' && segment[1] == '.' {
            assert(segment@ == parent_segment());
            return true;
        }
        k += 1;
    }
    false
}

/// What follows `root` in a path put under it has no more segments `..`
/// than the path had.
proof fn lemma_joined_stays_under(root: Seq<char>, rel: Seq<char>)
    requires
        rel.len() > 0 ==> rel[0] != '/',
        !has_parent_segment(rel),
    ensures
        root.is_prefix_of(joined(root, rel)),
        !has_parent_segment(joined(root, rel).skip(root.len() as int)),
{
    let full = joined(root, rel);
    if root.len() > 0 && root.last() != '/' {
        assert(full.skip(root.len() as int) == seq!['/'] + rel);
        lemma_split_after_separator(rel, '/');
        let segments = split_on(seq!['/'] + rel, '/');
        assert forall|k: int| 0 <= k < segments.len() implies segments[k] != parent_segment() by {
            if k > 0 {
                assert(segments[k] == split_on(rel, '/')[k - 1]);
            }
        }
    } else {
        assert(full.skip(root.len() as int) == rel);
    }
}

/// A text that begins with the separator has an empty first field, and
/// after it the fields of the rest.
proof fn lemma_split_after_separator(rest: Seq<char>, sep: char)
    ensures
        split_on(seq![sep] + rest, sep) == seq![Seq::<char>::empty()] + split_on(rest, sep),
    decreases rest.len(),
{
    let text = seq![sep] + rest;
    if rest.len() == 0 {
        assert(text.drop_last() == Seq::<char>::empty());
        assert(text.last() == sep);
        assert(split_on(text.drop_last(), sep) == seq![Seq::<char>::empty()]);
        assert(rest == Seq::<char>::empty());
        assert(split_on(rest, sep) == seq![Seq::<char>::empty()]);
        assert(seq![Seq::<char>::empty()].push(Seq::<char>::empty()) == seq![
            Seq::<char>::empty(),
        ] + seq![Seq::<char>::empty()]);
    } else {
        lemma_split_after_separator(rest.drop_last(), sep);
        lemma_split_on(rest.drop_last(), sep);
        assert(text.drop_last() == seq![sep] + rest.drop_last());
        assert(text.last() == rest.last());
        let fields = split_on(rest.drop_last(), sep);
        let before = seq![Seq::<char>::empty()] + fields;
        if rest.last() == sep {
            assert(before.push(Seq::empty()) == seq![Seq::<char>::empty()] + fields.push(
                Seq::empty(),
            ));
        } else {
            assert(before.last() == fields.last());
            assert(before.drop_last() == seq![Seq::<char>::empty()] + fields.drop_last());
            assert(before.drop_last().push(fields.last().push(rest.last())) == seq![
                Seq::<char>::empty(),
            ] + fields.drop_last().push(fields.last().push(rest.last())));
        }
    }
}

/// The file under `root` that `path` names: `path` without its leading
/// slashes is put under `root`. `None` exactly where a segment of the path
/// is `..`: what comes back lies under `root`.
pub fn path_under_root(path: &[char], root: &[char]) -> (r: Option<Vec<char>>)
    ensures
        r is Some <==> !has_parent_segment(without_leading(path@, '/')),
        match r {
            Some(p) => under_root(root@, path@) == Some(p@),
            None => under_root(root@, path@) is None,
        },
        r matches Some(p) ==> p@ == joined(root@, without_leading(path@, '/'))
            && root@.is_prefix_of(p@) && !has_parent_segment(p@.skip(root@.len() as int)),
{
    let rel = strip_leading(path, '/');
    if names_parent(rel.as_slice()) {
        None
    } else {
        proof {
            lemma_joined_stays_under(root@, rel@);
        }
        Some(join_path(root, rel.as_slice()))
    }
}

/// Resolves an asset URL to the file under `root_path` that holds it: the
/// substitutions `subs` are applied to the URL, the path of what is left is
/// taken, and the path is put under `root_path`. What is left is a path
/// already where it begins with `/`; otherwise the parser is asked for the
/// path of the URL. `None` exactly where what is left names no path, or a
/// path with a segment `..`: what comes back lies under `root_path`.
pub fn url_to_path(url: &str, root_path: &str, subs: &[Substitution]) -> (out: Option<String>)
    ensures
        match out {
            Some(p) => resolved(url@, root_path@, pairs(subs@)) == Some(p@),
            None => resolved(url@, root_path@, pairs(subs@)) is None,
        },
        out matches Some(p) ==> root_path@.is_prefix_of(p@) && !has_parent_segment(
            p@.skip(root_path@.len() as int),
        ),
{
    let chars = to_chars(url);
    let canonical = substitute(chars.as_slice(), subs);
    let path = if canonical.len() > 0 && canonical[0] == '/' {
        canonical
    } else {
        let canonical_text = from_chars(canonical.as_slice());
        match parse_url_path(canonical_text.as_str()) {
            Some(path) => to_chars(path.as_str()),
            None => {
                return None;
            },
        }
    };
    let root = to_chars(root_path);
    match path_under_root(path.as_slice(), root.as_slice()) {
        Some(full) => Some(from_chars(full.as_slice())),
        None => None,
    }
}

/// A URL that holds the marker is rewritten to what follows the marker's
/// `/wp-`, whatever stands before the marker: scheme and host play no part.
pub proof fn lemma_rewritten_ignores_host(
    before_a: Seq<char>,
    before_b: Seq<char>,
    rest: Seq<char>,
    root: Seq<char>,
)
    requires
        first_occurrence(before_a + legacy_marker() + rest, legacy_marker()) == Some(
            before_a.len() as int,
        ),
        first_occurrence(before_b + legacy_marker() + rest, legacy_marker()) == Some(
            before_b.len() as int,
        ),
    ensures
        rewritten(before_a + legacy_marker() + rest, root) == rewritten(
            before_b + legacy_marker() + rest,
            root,
        ),
        rewritten(before_a + legacy_marker() + rest, root) == replaced(
            "/content/"@ + rest,
            legacy_namespace(),
            root,
        ),
{
    reveal_strlit("/wp-content/");
    reveal_strlit("/content/");
    let m = legacy_marker();
    let a = before_a + m + rest;
    let b = before_b + m + rest;
    assert(seq!['/'] + a.skip(before_a.len() as int + 4) == "/content/"@ + rest);
    assert(seq!['/'] + b.skip(before_b.len() as int + 4) == "/content/"@ + rest);
}

/// A URL whose marker is followed by `uploads/` and a tail that does not
/// name the legacy directory again is rewritten to the tail under the asset
/// root.
pub proof fn lemma_rewritten_marker_suffix(before: Seq<char>, tail: Seq<char>, root: Seq<char>)
    requires
        first_occurrence(before + "/wp-content/uploads/"@ + tail, legacy_marker()) == Some(
            before.len() as int,
        ),
        forall|j: int| !occurs_at(seq!['/'] + tail, legacy_namespace(), j),
    ensures
        rewritten(before + "/wp-content/uploads/"@ + tail, root) == root + seq!['/'] + tail,
{
    reveal_strlit("/wp-content/");
    reveal_strlit("/wp-content/uploads/");
    reveal_strlit("/content/uploads");
    let url = before + "/wp-content/uploads/"@ + tail;
    let ns = legacy_namespace();
    let kept = seq!['/'] + url.skip(before.len() as int + 4);
    assert(kept == ns + (seq!['/'] + tail));
    assert(ns.is_prefix_of(kept)) by {
        assert(kept.subrange(0, ns.len() as int) == ns);
    }
    assert(kept.skip(ns.len() as int) == seq!['/'] + tail);
    lemma_replaced_without_occurrence(seq!['/'] + tail, ns, root);
}

/// An input without the marker is put under the asset root unchanged.
pub proof fn lemma_rewritten_bare_path(url: Seq<char>, root: Seq<char>)
    requires
        forall|j: int| !occurs_at(url, legacy_marker(), j),
    ensures
        rewritten(url, root) == root + seq!['/'] + url,
{
    lemma_first_occurrence_from(url, legacy_marker(), 0);
}

/// With the substitution of `mirror` by `replacement` alone, a text that
/// begins with `mirror` and holds it nowhere else begins with `replacement`
/// instead.
proof fn lemma_substituted_domain(mirror: Seq<char>, replacement: Seq<char>, rest: Seq<char>)
    requires
        mirror.len() > 0,
        forall|j: int| !occurs_at(rest, mirror, j),
    ensures
        substituted(mirror + rest, seq![(mirror, replacement)]) == replacement + rest,
{
    let subs = seq![(mirror, replacement)];
    assert(subs.drop_last() == Seq::<(Seq<char>, Seq<char>)>::empty());
    assert(subs.last() == (mirror, replacement));
    assert(substituted(mirror + rest, subs.drop_last()) == mirror + rest);
    assert(substituted(mirror + rest, subs) == replaced(mirror + rest, mirror, replacement));
    assert(mirror.is_prefix_of(mirror + rest)) by {
        assert((mirror + rest).subrange(0, mirror.len() as int) == mirror);
    }
    assert((mirror + rest).skip(mirror.len() as int) == rest);
    lemma_replaced_without_occurrence(rest, mirror, replacement);
}

/// With the substitution of `mirror` by `replacement` alone, a text that
/// holds `mirror` nowhere stays as it is.
proof fn lemma_substituted_elsewhere(mirror: Seq<char>, replacement: Seq<char>, text: Seq<char>)
    requires
        forall|j: int| !occurs_at(text, mirror, j),
    ensures
        substituted(text, seq![(mirror, replacement)]) == text,
{
    let subs = seq![(mirror, replacement)];
    assert(subs.drop_last() == Seq::<(Seq<char>, Seq<char>)>::empty());
    assert(subs.last() == (mirror, replacement));
    assert(substituted(text, subs.drop_last()) == text);
    lemma_replaced_without_occurrence(text, mirror, replacement);
}

/// What holds no occurrence of `pat` after `before` holds none alone.
proof fn lemma_no_occurrence_in_tail(before: Seq<char>, rest: Seq<char>, pat: Seq<char>)
    requires
        forall|j: int| !occurs_at(before + rest, pat, j),
    ensures
        forall|j: int| !occurs_at(rest, pat, j),
{
    assert forall|j: int| !occurs_at(rest, pat, j) by {
        if occurs_at(rest, pat, j) {
            assert((before + rest).subrange(before.len() + j, before.len() + j + pat.len())
                == rest.subrange(j, j + pat.len()));
            assert(occurs_at(before + rest, pat, before.len() + j));
        }
    }
}

/// With the substitution of `mirror` by `canonical`, a URL on the mirror
/// domain and the same URL on the canonical domain are rewritten to the same
/// path, and resolve to the same file.
pub proof fn lemma_mirror_resolves_as_canonical(
    mirror: Seq<char>,
    canonical: Seq<char>,
    rest: Seq<char>,
    asset_root: Seq<char>,
    file_root: Seq<char>,
)
    requires
        mirror.len() > 0,
        forall|j: int| !occurs_at(canonical + rest, mirror, j),
    ensures
        rewritten_with(mirror + rest, seq![(mirror, canonical)], asset_root) == rewritten_with(
            canonical + rest,
            seq![(mirror, canonical)],
            asset_root,
        ),
        resolved(mirror + rest, file_root, seq![(mirror, canonical)]) == resolved(
            canonical + rest,
            file_root,
            seq![(mirror, canonical)],
        ),
{
    lemma_no_occurrence_in_tail(canonical, rest, mirror);
    lemma_substituted_domain(mirror, canonical, rest);
    lemma_substituted_elsewhere(mirror, canonical, canonical + rest);
}

/// With the substitution that takes the domain `mirror` away, a URL on the
/// mirror domain resolves to what its path `rest` names under the root, and
/// so does the URL with the same path on the domain `canonical`, wherever
/// the parser reads `rest` as the path of that URL. Both are rewritten to the
/// same destination path where the marker stands in `rest` and not before.
pub proof fn lemma_removed_mirror_resolves_as_canonical(
    mirror: Seq<char>,
    canonical: Seq<char>,
    rest: Seq<char>,
    asset_root: Seq<char>,
    file_root: Seq<char>,
)
    requires
        mirror.len() > 0,
        rest.len() > 0 && rest[0] == '/',
        canonical.len() > 0 && canonical[0] != '/',
        forall|j: int| !occurs_at(canonical + rest, mirror, j),
    ensures
        resolved(mirror + rest, file_root, seq![(mirror, Seq::empty())]) == under_root(
            file_root,
            rest,
        ),
        url_path(canonical + rest) == Some(rest) ==> resolved(
            canonical + rest,
            file_root,
            seq![(mirror, Seq::empty())],
        ) == resolved(mirror + rest, file_root, seq![(mirror, Seq::empty())]),
        first_occurrence(rest, legacy_marker()) is Some && first_occurrence(
            canonical + rest,
            legacy_marker(),
        ) == Some(canonical.len() + first_occurrence(rest, legacy_marker()).unwrap())
            ==> rewritten_with(mirror + rest, seq![(mirror, Seq::empty())], asset_root)
            == rewritten_with(canonical + rest, seq![(mirror, Seq::empty())], asset_root),
{
    let nothing = Seq::<char>::empty();
    lemma_no_occurrence_in_tail(canonical, rest, mirror);
    lemma_substituted_domain(mirror, nothing, rest);
    lemma_substituted_elsewhere(mirror, nothing, canonical + rest);
    assert(nothing + rest == rest);
    assert((canonical + rest)[0] == canonical[0]);
    if first_occurrence(rest, legacy_marker()) is Some {
        let pos = first_occurrence(rest, legacy_marker()).unwrap();
        reveal_strlit("/wp-content/");
        lemma_first_occurrence_from(rest, legacy_marker(), 0);
        assert(occurs_at(rest, legacy_marker(), pos));
        assert((canonical + rest).skip(canonical.len() + pos + 4) == rest.skip(pos + 4));
    }
}

} // verus!
