//! Character sequences: searching, replacing, trimming and splitting.
//!
//! Every function here works on a slice of `char` and is specified over
//! `Seq<char>`, the same model Verus gives to `str` and `String`.

use vstd::prelude::*;

verus! {

/// `String::push` appends one character to the end of the string and leaves
/// the characters before it as they were.
pub assume_specification[ String::push ](s: &mut String, ch: char)
    ensures
        final(s)@ == old(s)@.push(ch),
;

/// The characters of `s`, in order.
pub fn to_chars(s: &str) -> (out: Vec<char>)
    ensures
        out@ == s@,
{
    let mut out: Vec<char> = Vec::new();
    for c in it: s.chars()
        invariant
            out@ == it.seq().take(it.index()),
            it.seq() == s@,
    {
        out.push(c);
    }
    out
}

/// The string that holds the characters of `v`, in order.
pub fn from_chars(v: &[char]) -> (out: String)
    ensures
        out@ == v@,
{
    let mut out = String::new();
    let mut i: usize = 0;
    while i < v.len()
        invariant
            i <= v.len(),
            out@ == v@.take(i as int),
        decreases v.len() - i,
    {
        out.push(v[i]);
        i += 1;
    }
    out
}

/// Appends the characters of `src` to `dst`.
pub fn extend(dst: &mut Vec<char>, src: &[char])
    ensures
        final(dst)@ == old(dst)@ + src@,
{
    let mut i: usize = 0;
    while i < src.len()
        invariant
            i <= src.len(),
            dst@ == old(dst)@ + src@.take(i as int),
        decreases src.len() - i,
    {
        dst.push(src[i]);
        i += 1;
    }
    assert(src@.take(src.len() as int) == src@);
}

/// A copy of `src[from..to]`.
pub fn slice(src: &[char], from: usize, to: usize) -> (out: Vec<char>)
    requires
        from <= to <= src.len(),
    ensures
        out@ == src@.subrange(from as int, to as int),
{
    let mut out: Vec<char> = Vec::new();
    let mut i: usize = from;
    while i < to
        invariant
            from <= i <= to <= src.len(),
            out@ == src@.subrange(from as int, i as int),
        decreases to - i,
    {
        out.push(src[i]);
        i += 1;
    }
    out
}

/// `pat` stands in `hay` at index `i`.
pub open spec fn occurs_at(hay: Seq<char>, pat: Seq<char>, i: int) -> bool {
    0 <= i && i + pat.len() <= hay.len() && hay.subrange(i, i + pat.len()) == pat
}

/// The least index at or after `from` where `pat` stands in `hay`.
pub open spec fn first_occurrence_from(hay: Seq<char>, pat: Seq<char>, from: int) -> Option<int>
    decreases hay.len() - from + 1,
{
    if from < 0 || from + pat.len() > hay.len() {
        None
    } else if occurs_at(hay, pat, from) {
        Some(from)
    } else {
        first_occurrence_from(hay, pat, from + 1)
    }
}

/// The least index where `pat` stands in `hay`.
pub open spec fn first_occurrence(hay: Seq<char>, pat: Seq<char>) -> Option<int> {
    first_occurrence_from(hay, pat, 0)
}

/// `first_occurrence_from` finds an occurrence, no occurrence lies between
/// `from` and it, and it answers `None` only when there is none at all.
pub proof fn lemma_first_occurrence_from(hay: Seq<char>, pat: Seq<char>, from: int)
    requires
        0 <= from,
    ensures
        match first_occurrence_from(hay, pat, from) {
            Some(i) => from <= i && occurs_at(hay, pat, i) && forall|j: int|
                from <= j < i ==> !occurs_at(hay, pat, j),
            None => forall|j: int| from <= j ==> !occurs_at(hay, pat, j),
        },
    decreases hay.len() - from + 1,
{
    if from + pat.len() > hay.len() {
    } else if occurs_at(hay, pat, from) {
    } else {
        lemma_first_occurrence_from(hay, pat, from + 1);
    }
}

/// Whether `pat` stands in `hay` at index `i`.
pub fn matches_at(hay: &[char], pat: &[char], i: usize) -> (b: bool)
    ensures
        b == occurs_at(hay@, pat@, i as int),
{
    if pat.len() > hay.len() || i > hay.len() - pat.len() {
        return false;
    }
    let mut k: usize = 0;
    while k < pat.len()
        invariant
            k <= pat.len(),
            i + pat.len() <= hay.len(),
            hay@.subrange(i as int, i + k) == pat@.take(k as int),
        decreases pat.len() - k,
    {
        if hay[i + k] != pat[k] {
            proof {
                let w = hay@.subrange(i as int, i + pat.len());
                assert(w[k as int] != pat@[k as int]);
            }
            return false;
        }
        assert(hay@.subrange(i as int, i + k + 1) == hay@.subrange(i as int, i + k).push(
            hay@[i + k],
        ));
        assert(pat@.take(k + 1) == pat@.take(k as int).push(pat@[k as int]));
        k += 1;
    }
    assert(pat@.take(pat.len() as int) == pat@);
    true
}

/// The least index at or after `from` where `pat` stands in `hay`.
pub fn find_from(hay: &[char], pat: &[char], from: usize) -> (r: Option<usize>)
    ensures
        match r {
            Some(i) => first_occurrence_from(hay@, pat@, from as int) == Some(i as int),
            None => first_occurrence_from(hay@, pat@, from as int) is None,
        },
{
    if pat.len() > hay.len() || from > hay.len() - pat.len() {
        return None;
    }
    let last: usize = hay.len() - pat.len();
    let mut i: usize = from;
    loop
        invariant
            from <= i <= last,
            last == hay.len() - pat.len(),
            first_occurrence_from(hay@, pat@, from as int) == first_occurrence_from(
                hay@,
                pat@,
                i as int,
            ),
        decreases last - i,
    {
        if matches_at(hay, pat, i) {
            return Some(i);
        }
        if i == last {
            assert(first_occurrence_from(hay@, pat@, i + 1) is None);
            return None;
        }
        i += 1;
    }
}

/// The least index where `pat` stands in `hay`: `Some(i)` exactly when `pat`
/// stands at `i` and nowhere before it, `None` exactly when it stands nowhere.
pub fn find(hay: &[char], pat: &[char]) -> (r: Option<usize>)
    ensures
        match r {
            Some(i) => first_occurrence(hay@, pat@) == Some(i as int) && occurs_at(
                hay@,
                pat@,
                i as int,
            ) && forall|j: int| 0 <= j < i ==> !occurs_at(hay@, pat@, j),
            None => first_occurrence(hay@, pat@) is None && forall|j: int| !occurs_at(hay@, pat@, j),
        },
{
    proof {
        lemma_first_occurrence_from(hay@, pat@, 0);
    }
    find_from(hay, pat, 0)
}

/// `pat` is the beginning of `hay`.
pub fn starts_with(hay: &[char], pat: &[char]) -> (b: bool)
    ensures
        b == pat@.is_prefix_of(hay@),
{
    let b = matches_at(hay, pat, 0);
    proof {
        if pat@.len() <= hay@.len() {
            assert(hay@.subrange(0, pat@.len() as int) == hay@.take(pat@.len() as int));
        }
    }
    b
}

/// Whether `pat` stands anywhere in `hay`.
pub fn contains(hay: &[char], pat: &[char]) -> (b: bool)
    ensures
        b == first_occurrence(hay@, pat@).is_some(),
        b == exists|j: int| occurs_at(hay@, pat@, j),
{
    find(hay, pat).is_some()
}

/// `hay` with every occurrence of `pat` replaced by `rep`, the occurrences
/// taken from left to right and never overlapping. The empty pattern occurs
/// before every character and once more at the end.
pub open spec fn replaced(hay: Seq<char>, pat: Seq<char>, rep: Seq<char>) -> Seq<char>
    decreases hay.len(),
{
    if pat.is_prefix_of(hay) {
        if pat.len() > 0 {
            rep + replaced(hay.skip(pat.len() as int), pat, rep)
        } else if hay.len() > 0 {
            rep + seq![hay[0]] + replaced(hay.skip(1), pat, rep)
        } else {
            rep
        }
    } else if hay.len() > 0 {
        seq![hay[0]] + replaced(hay.skip(1), pat, rep)
    } else {
        Seq::empty()
    }
}

/// An occurrence at `i` is a prefix of what is left of `hay` from `i` on.
pub proof fn lemma_occurs_at_is_prefix(hay: Seq<char>, pat: Seq<char>, i: int)
    requires
        0 <= i <= hay.len(),
    ensures
        occurs_at(hay, pat, i) == pat.is_prefix_of(hay.skip(i)),
{
    if i + pat.len() <= hay.len() {
        assert(hay.subrange(i, i + pat.len()) == hay.skip(i).subrange(0, pat.len() as int));
    }
}

/// Where `pat` occurs nowhere in `hay`, replacing changes nothing.
pub proof fn lemma_replaced_without_occurrence(hay: Seq<char>, pat: Seq<char>, rep: Seq<char>)
    requires
        forall|j: int| !occurs_at(hay, pat, j),
    ensures
        replaced(hay, pat, rep) == hay,
    decreases hay.len(),
{
    lemma_occurs_at_is_prefix(hay, pat, 0);
    assert(hay.skip(0) == hay);
    if hay.len() > 0 {
        let rest = hay.skip(1);
        assert forall|j: int| !occurs_at(rest, pat, j) by {
            if occurs_at(rest, pat, j) {
                assert(rest.subrange(j, j + pat.len()) == hay.subrange(j + 1, j + 1 + pat.len()));
                assert(occurs_at(hay, pat, j + 1));
            }
        }
        lemma_replaced_without_occurrence(rest, pat, rep);
        assert(seq![hay[0]] + rest == hay);
    } else {
        assert(hay == Seq::<char>::empty());
    }
}

/// `hay` with every occurrence of `pat` replaced by `rep`.
pub fn replace(hay: &[char], pat: &[char], rep: &[char]) -> (out: Vec<char>)
    ensures
        out@ == replaced(hay@, pat@, rep@),
{
    let mut out: Vec<char> = Vec::new();
    let mut i: usize = 0;
    proof {
        assert(hay@.skip(0) == hay@);
    }
    loop
        invariant
            i <= hay.len(),
            replaced(hay@, pat@, rep@) == out@ + replaced(hay@.skip(i as int), pat@, rep@),
        decreases hay.len() - i,
    {
        let ghost left = hay@.skip(i as int);
        let ghost before = out@;
        proof {
            lemma_occurs_at_is_prefix(hay@, pat@, i as int);
        }
        if matches_at(hay, pat, i) {
            extend(&mut out, rep);
            if pat.len() > 0 {
                proof {
                    assert(left.skip(pat@.len() as int) == hay@.skip(i + pat@.len()));
                    assert(before + (rep@ + replaced(left.skip(pat@.len() as int), pat@, rep@))
                        == before + rep@ + replaced(left.skip(pat@.len() as int), pat@, rep@));
                }
                i += pat.len();
            } else if i < hay.len() {
                out.push(hay[i]);
                proof {
                    assert(left.skip(1) == hay@.skip(i + 1));
                    assert(before + (rep@ + seq![left[0]] + replaced(left.skip(1), pat@, rep@))
                        == (before + rep@).push(hay@[i as int]) + replaced(
                        left.skip(1),
                        pat@,
                        rep@,
                    ));
                }
                i += 1;
            } else {
                return out;
            }
        } else if i < hay.len() {
            out.push(hay[i]);
            proof {
                assert(left.skip(1) == hay@.skip(i + 1));
                assert(before + (seq![left[0]] + replaced(left.skip(1), pat@, rep@))
                    == before.push(hay@[i as int]) + replaced(left.skip(1), pat@, rep@));
            }
            i += 1;
        } else {
            assert(before + Seq::<char>::empty() == before);
            return out;
        }
    }
}

/// A character with the Unicode property White_Space.
pub open spec fn is_space(c: char) -> bool {
    let n = c as u32;
    ||| 0x09 <= n <= 0x0D
    ||| n == 0x20
    ||| n == 0x85
    ||| n == 0xA0
    ||| n == 0x1680
    ||| 0x2000 <= n <= 0x200A
    ||| n == 0x2028
    ||| n == 0x2029
    ||| n == 0x202F
    ||| n == 0x205F
    ||| n == 0x3000
}

/// Whether `c` has the Unicode property White_Space.
pub fn is_space_char(c: char) -> (b: bool)
    ensures
        b == is_space(c),
{
    let n: u32 = c as u32;
    (0x09 <= n && n <= 0x0D) || n == 0x20 || n == 0x85 || n == 0xA0 || n == 0x1680 || (0x2000 <= n
        && n <= 0x200A) || n == 0x2028 || n == 0x2029 || n == 0x202F || n == 0x205F || n == 0x3000
}

/// How many white-space characters `s` begins with.
pub open spec fn leading_spaces(s: Seq<char>) -> nat
    decreases s.len(),
{
    if s.len() > 0 && is_space(s[0]) {
        1 + leading_spaces(s.drop_first())
    } else {
        0
    }
}

/// How many white-space characters `s` ends with.
pub open spec fn trailing_spaces(s: Seq<char>) -> nat
    decreases s.len(),
{
    if s.len() > 0 && is_space(s.last()) {
        1 + trailing_spaces(s.drop_last())
    } else {
        0
    }
}

/// `s` without the white space at its beginning and at its end.
pub open spec fn trimmed(s: Seq<char>) -> Seq<char> {
    let rest = s.skip(leading_spaces(s) as int);
    rest.take(rest.len() - trailing_spaces(rest))
}

/// The leading white space is a run of white-space characters that ends at
/// the first other character, or at the end.
pub proof fn lemma_leading_spaces(s: Seq<char>)
    ensures
        leading_spaces(s) <= s.len(),
        forall|k: int| 0 <= k < leading_spaces(s) ==> is_space(#[trigger] s[k]),
        leading_spaces(s) < s.len() ==> !is_space(s[leading_spaces(s) as int]),
    decreases s.len(),
{
    if s.len() > 0 && is_space(s[0]) {
        let rest = s.drop_first();
        lemma_leading_spaces(rest);
        assert forall|k: int| 0 <= k < leading_spaces(s) implies is_space(#[trigger] s[k]) by {
            if k > 0 {
                assert(s[k] == rest[k - 1]);
            }
        }
        if leading_spaces(s) < s.len() {
            assert(s[leading_spaces(s) as int] == rest[leading_spaces(rest) as int]);
        }
    }
}

/// The trailing white space is a run of white-space characters that begins
/// after the last other character, or at the beginning.
pub proof fn lemma_trailing_spaces(s: Seq<char>)
    ensures
        trailing_spaces(s) <= s.len(),
        forall|k: int| s.len() - trailing_spaces(s) <= k < s.len() ==> is_space(#[trigger] s[k]),
        trailing_spaces(s) < s.len() ==> !is_space(s[s.len() - trailing_spaces(s) - 1]),
    decreases s.len(),
{
    if s.len() > 0 && is_space(s.last()) {
        let rest = s.drop_last();
        lemma_trailing_spaces(rest);
        assert forall|k: int| s.len() - trailing_spaces(s) <= k < s.len() implies is_space(
            #[trigger] s[k],
        ) by {
            if k < s.len() - 1 {
                assert(s[k] == rest[k]);
            }
        }
        if trailing_spaces(s) < s.len() {
            assert(s[s.len() - trailing_spaces(s) - 1] == rest[rest.len() - trailing_spaces(rest)
                - 1]);
        }
    }
}

/// What is left after trimming neither begins nor ends with white space, and
/// `s` is made of white space, the trimmed text, and white space again.
pub proof fn lemma_trimmed(s: Seq<char>)
    ensures
        trimmed(s).len() > 0 ==> !is_space(trimmed(s)[0]) && !is_space(trimmed(s).last()),
        trimmed(s).len() == 0 <==> forall|k: int| 0 <= k < s.len() ==> is_space(#[trigger] s[k]),
        trimmed(s).len() <= s.len(),
        trimmed(s) == s.subrange(
            leading_spaces(s) as int,
            (leading_spaces(s) + trimmed(s).len()) as int,
        ),
{
    lemma_leading_spaces(s);
    let a = leading_spaces(s) as int;
    let rest = s.skip(a);
    lemma_trailing_spaces(rest);
    let t = trimmed(s);
    assert(t == s.subrange(a, a + t.len()));
    if t.len() > 0 {
        assert(t[0] == s[a]);
        assert(t.last() == rest[rest.len() - trailing_spaces(rest) - 1]);
    } else {
        assert forall|k: int| 0 <= k < s.len() implies is_space(#[trigger] s[k]) by {
            if k >= a {
                assert(s[k] == rest[k - a]);
            }
        }
    }
    if forall|k: int| 0 <= k < s.len() ==> is_space(#[trigger] s[k]) {
        if a < s.len() {
            assert(is_space(s[a]));
        }
    }
}

/// `s` without the white space at its beginning and at its end.
pub fn trim(s: &[char]) -> (out: Vec<char>)
    ensures
        out@ == trimmed(s@),
{
    let mut a: usize = 0;
    proof {
        assert(s@.skip(0) == s@);
    }
    while a < s.len() && is_space_char(s[a])
        invariant
            a <= s.len(),
            leading_spaces(s@) == a + leading_spaces(s@.skip(a as int)),
        decreases s.len() - a,
    {
        proof {
            assert(s@.skip(a as int).drop_first() == s@.skip(a + 1));
        }
        a += 1;
    }
    let ghost rest = s@.skip(a as int);
    let mut b: usize = s.len();
    proof {
        assert(rest.take(rest.len() as int) == rest);
    }
    while b > a && is_space_char(s[b - 1])
        invariant
            a <= b <= s.len(),
            rest == s@.skip(a as int),
            trailing_spaces(rest) == (s.len() - b) + trailing_spaces(rest.take(b - a)),
        decreases b,
    {
        proof {
            assert(rest.take(b - a).last() == s@[b - 1]);
            assert(rest.take(b - a).drop_last() == rest.take(b - a - 1));
        }
        b -= 1;
    }
    proof {
        if b > a {
            assert(rest.take(b - a).last() == s@[b - 1]);
        }
        assert(rest.take(b - a) == s@.subrange(a as int, b as int));
    }
    slice(s, a, b)
}

/// How many times in a row `s` begins with `c`.
pub open spec fn leading_run(s: Seq<char>, c: char) -> nat
    decreases s.len(),
{
    if s.len() > 0 && s[0] == c {
        1 + leading_run(s.drop_first(), c)
    } else {
        0
    }
}

/// `s` without the run of `c` that it begins with.
pub open spec fn without_leading(s: Seq<char>, c: char) -> Seq<char> {
    s.skip(leading_run(s, c) as int)
}

/// `s` without the run of `c` that it begins with.
pub fn strip_leading(s: &[char], c: char) -> (out: Vec<char>)
    ensures
        out@ == without_leading(s@, c),
        out@.len() > 0 ==> out@[0] != c,
{
    let mut a: usize = 0;
    proof {
        assert(s@.skip(0) == s@);
    }
    while a < s.len() && s[a] == c
        invariant
            a <= s.len(),
            leading_run(s@, c) == a + leading_run(s@.skip(a as int), c),
        decreases s.len() - a,
    {
        proof {
            assert(s@.skip(a as int).drop_first() == s@.skip(a + 1));
        }
        a += 1;
    }
    slice(s, a, s.len())
}

/// The fields of `s` between the occurrences of `sep`: one more field than
/// there are separators, each possibly empty.
pub open spec fn split_on(s: Seq<char>, sep: char) -> Seq<Seq<char>>
    decreases s.len(),
{
    if s.len() == 0 {
        seq![Seq::empty()]
    } else {
        let before = split_on(s.drop_last(), sep);
        if s.last() == sep {
            before.push(Seq::empty())
        } else {
            before.drop_last().push(before.last().push(s.last()))
        }
    }
}

/// The character sequences that the vectors of `v` hold.
pub open spec fn views(v: Seq<Vec<char>>) -> Seq<Seq<char>> {
    Seq::new(v.len(), |i: int| v[i]@)
}

/// The fields `fields` with `sep` between each two neighbours.
pub open spec fn joined_by(fields: Seq<Seq<char>>, sep: char) -> Seq<char>
    decreases fields.len(),
{
    if fields.len() == 0 {
        Seq::empty()
    } else if fields.len() == 1 {
        fields[0]
    } else {
        joined_by(fields.drop_last(), sep) + seq![sep] + fields.last()
    }
}

/// Splitting loses nothing: there is at least one field, no field holds the
/// separator, and the fields joined by the separator are the text again.
pub proof fn lemma_split_on(s: Seq<char>, sep: char)
    ensures
        split_on(s, sep).len() >= 1,
        forall|k: int, i: int|
            0 <= k < split_on(s, sep).len() && 0 <= i < split_on(s, sep)[k].len() ==> (
            #[trigger] split_on(s, sep)[k][i]) != sep,
        joined_by(split_on(s, sep), sep) == s,
    decreases s.len(),
{
    if s.len() == 0 {
        assert(joined_by(split_on(s, sep), sep) == s);
    } else {
        let init = s.drop_last();
        let c = s.last();
        let before = split_on(init, sep);
        let fields = split_on(s, sep);
        lemma_split_on(init, sep);
        assert(init.push(c) == s);
        if c == sep {
            assert(fields.drop_last() == before);
            assert(init + seq![sep] + Seq::<char>::empty() == s);
            assert forall|k: int, i: int|
                0 <= k < fields.len() && 0 <= i < fields[k].len() implies (#[trigger] fields[k][i])
                != sep by {
                assert(fields[k] == before[k]);
            }
        } else {
            let last = before.last().push(c);
            assert(fields.last() == last);
            assert(fields.drop_last() == before.drop_last());
            if before.len() == 1 {
                assert(before[0] == init);
            } else {
                assert(joined_by(before.drop_last(), sep) + seq![sep] + before.last().push(c) == (
                joined_by(before.drop_last(), sep) + seq![sep] + before.last()).push(c));
            }
            assert forall|k: int, i: int|
                0 <= k < fields.len() && 0 <= i < fields[k].len() implies (#[trigger] fields[k][i])
                != sep by {
                if k < fields.len() - 1 {
                    assert(fields[k] == before[k]);
                } else if i < before.last().len() {
                    assert(fields[k][i] == before[k][i]);
                }
            }
        }
    }
}

/// The fields of `s` between the occurrences of `sep`.
pub fn split(s: &[char], sep: char) -> (out: Vec<Vec<char>>)
    ensures
        views(out@) == split_on(s@, sep),
{
    let mut out: Vec<Vec<char>> = Vec::new();
    let mut cur: Vec<char> = Vec::new();
    let mut i: usize = 0;
    proof {
        assert(s@.take(0) == Seq::<char>::empty());
        assert(views(out@).push(cur@) == seq![Seq::<char>::empty()]);
    }
    while i < s.len()
        invariant
            i <= s.len(),
            views(out@).push(cur@) == split_on(s@.take(i as int), sep),
        decreases s.len() - i,
    {
        let ghost prev = views(out@).push(cur@);
        proof {
            assert(s@.take(i + 1).drop_last() == s@.take(i as int));
            assert(s@.take(i + 1).last() == s@[i as int]);
        }
        if s[i] == sep {
            out.push(cur);
            cur = Vec::new();
            proof {
                assert(views(out@) == prev);
            }
        } else {
            cur.push(s[i]);
            proof {
                assert(prev.drop_last() == views(out@));
                assert(prev.last().push(s@[i as int]) == cur@);
            }
        }
        i += 1;
    }
    proof {
        assert(s@.take(s.len() as int) == s@);
    }
    let ghost fields = views(out@).push(cur@);
    out.push(cur);
    proof {
        assert(views(out@) == fields);
    }
    out
}

/// The character for the decimal digit `d`.
pub open spec fn digit(d: nat) -> char {
    (0x30 + d) as u8 as char
}

/// The decimal digits of `n`, most significant first, without leading zeros.
pub open spec fn decimal_digits(n: nat) -> Seq<char>
    decreases n,
{
    if n < 10 {
        seq![digit(n)]
    } else {
        decimal_digits(n / 10).push(digit(n % 10))
    }
}

/// `n` in decimal, with a minus sign before a negative number.
pub open spec fn decimal(n: int) -> Seq<char> {
    if n < 0 {
        seq!['-'] + decimal_digits((-n) as nat)
    } else {
        decimal_digits(n as nat)
    }
}

/// The decimal digits of `n`.
pub fn format_u64(n: u64) -> (out: Vec<char>)
    ensures
        out@ == decimal_digits(n as nat),
{
    // The digits after the first come out least significant first.
    let mut rev: Vec<char> = Vec::new();
    let mut m: u64 = n;
    proof {
        assert(decimal_digits(m as nat) + rev@.reverse() == decimal_digits(m as nat));
    }
    while m >= 10
        invariant
            decimal_digits(n as nat) == decimal_digits(m as nat) + rev@.reverse(),
        decreases m,
    {
        let d: u8 = (m % 10) as u8;
        let ghost old_rev = rev@;
        let ghost old_m = m;
        rev.push((0x30 + d) as char);
        m = m / 10;
        proof {
            assert(rev@.reverse() == seq![digit((old_m % 10) as nat)] + old_rev.reverse());
            assert(decimal_digits(old_m as nat) == decimal_digits(m as nat).push(
                digit((old_m % 10) as nat),
            ));
            assert(decimal_digits(m as nat).push(digit((old_m % 10) as nat)) + old_rev.reverse()
                == decimal_digits(m as nat) + (seq![digit((old_m % 10) as nat)]
                + old_rev.reverse()));
        }
    }
    let mut out: Vec<char> = Vec::new();
    out.push((0x30 + (m as u8)) as char);
    let mut k: usize = rev.len();
    proof {
        assert(rev@.reverse().take(0) == Seq::<char>::empty());
        assert(out@ + Seq::<char>::empty() == out@);
    }
    while k > 0
        invariant
            k <= rev.len(),
            out@ == decimal_digits(m as nat) + rev@.reverse().take(rev.len() - k),
            m < 10,
        decreases k,
    {
        k -= 1;
        let ghost before = out@;
        out.push(rev[k]);
        proof {
            let r = rev@.reverse();
            assert(r.take(rev.len() - k) == r.take(rev.len() - k - 1).push(rev@[k as int]));
            assert(out@ == decimal_digits(m as nat) + r.take(rev.len() - k));
        }
    }
    proof {
        let r = rev@.reverse();
        assert(r.take(rev.len() as int) == r);
    }
    out
}

/// `n` in decimal.
pub fn format_i64(n: i64) -> (out: Vec<char>)
    ensures
        out@ == decimal(n as int),
{
    if n < 0 {
        let magnitude: u64 = if n == i64::MIN {
            0x8000_0000_0000_0000u64
        } else {
            (-n) as u64
        };
        let mut out: Vec<char> = Vec::new();
        out.push('-');
        let digits = format_u64(magnitude);
        extend(&mut out, digits.as_slice());
        out
    } else {
        format_u64(n as u64)
    }
}

} // verus!
