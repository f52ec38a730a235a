//! Byte offsets into UTF-8 text, and the character positions they stand for.
//!
//! The pattern engine counts in bytes of the UTF-8 encoding; the rest of the
//! library counts in characters. This module converts.

use vstd::prelude::*;

verus! {

/// How many bytes the UTF-8 encoding of `c` takes.
pub open spec fn utf8_width(c: char) -> nat {
    let n = c as u32;
    if n < 0x80 {
        1
    } else if n < 0x800 {
        2
    } else if n < 0x10000 {
        3
    } else {
        4
    }
}

/// How many bytes the UTF-8 encoding of `s` takes.
pub open spec fn utf8_len(s: Seq<char>) -> nat
    decreases s.len(),
{
    if s.len() == 0 {
        0
    } else {
        utf8_len(s.drop_last()) + utf8_width(s.last())
    }
}

/// How many characters of `s` end at or before the byte offset `offset`:
/// the length of the longest prefix of `s` that fits in `offset` bytes.
pub open spec fn chars_before(s: Seq<char>, offset: nat) -> nat
    decreases s.len(),
{
    if s.len() == 0 || utf8_len(s) <= offset {
        s.len()
    } else {
        chars_before(s.drop_last(), offset)
    }
}

/// The bytes of a text are those of its first character and those of the
/// rest.
proof fn lemma_utf8_len_front(s: Seq<char>)
    requires
        s.len() > 0,
    ensures
        utf8_len(s) == utf8_width(s[0]) + utf8_len(s.drop_first()),
    decreases s.len(),
{
    if s.len() == 1 {
        assert(utf8_len(s.drop_last()) == 0);
        assert(utf8_len(s.drop_first()) == 0);
    } else {
        lemma_utf8_len_front(s.drop_last());
        assert(s.drop_last().drop_first() == s.drop_first().drop_last());
        assert(s.drop_first().last() == s.last());
    }
}

/// `utf8_len` counts the bytes of the UTF-8 encoding: it is the length of
/// what `encode_utf8` gives, which is the length that `str::len` reports.
pub proof fn lemma_utf8_len_is_encoded_len(s: Seq<char>)
    ensures
        utf8_len(s) == vstd::utf8::encode_utf8(s).len(),
    decreases s.len(),
{
    if s.len() > 0 {
        lemma_utf8_len_front(s);
        lemma_utf8_len_is_encoded_len(s.drop_first());
        vstd::utf8::char_is_scalar(s[0]);
        assert(vstd::utf8::encode_scalar(s[0] as u32).len() == utf8_width(s[0]));
    }
}

/// A prefix is encoded in no more bytes than the whole.
pub proof fn lemma_utf8_len_prefix(s: Seq<char>, k: int)
    requires
        0 <= k <= s.len(),
    ensures
        utf8_len(s.take(k)) <= utf8_len(s),
        k < s.len() ==> utf8_len(s.take(k)) < utf8_len(s),
    decreases s.len(),
{
    if k == s.len() {
        assert(s.take(k) == s);
    } else {
        assert(s.drop_last().take(k) == s.take(k));
        lemma_utf8_len_prefix(s.drop_last(), k);
    }
}

/// `chars_before` is the one `k` for which the first `k` characters fit in
/// `offset` bytes and one more would not.
pub proof fn lemma_chars_before_is(s: Seq<char>, offset: nat, k: int)
    requires
        0 <= k <= s.len(),
        utf8_len(s.take(k)) <= offset,
        k < s.len() ==> utf8_len(s.take(k + 1)) > offset,
    ensures
        chars_before(s, offset) == k,
    decreases s.len(),
{
    if s.len() == 0 {
    } else if utf8_len(s) <= offset {
        if k < s.len() {
            lemma_utf8_len_prefix(s, k + 1);
        }
    } else {
        if k == s.len() {
            assert(s.take(k) == s);
        }
        let init = s.drop_last();
        assert(init.take(k) == s.take(k));
        if k < init.len() {
            assert(init.take(k + 1) == s.take(k + 1));
        }
        lemma_chars_before_is(init, offset, k);
    }
}

/// `chars_before` never passes the end, what it counts fits in `offset`
/// bytes, and it grows with the offset.
pub proof fn lemma_chars_before_bounds(s: Seq<char>, a: nat, b: nat)
    requires
        a <= b,
    ensures
        chars_before(s, a) <= chars_before(s, b) <= s.len(),
        utf8_len(s.take(chars_before(s, a) as int)) <= a,
    decreases s.len(),
{
    if s.len() == 0 {
        assert(s.take(0) == s);
    } else if utf8_len(s) <= a {
        assert(s.take(s.len() as int) == s);
    } else {
        let init = s.drop_last();
        lemma_chars_before_bounds(init, a, b);
        assert(init.take(chars_before(init, a) as int) == s.take(chars_before(init, a) as int));
    }
}

/// The byte offset at which character `k` of `s` begins is the position of
/// exactly `k` characters.
pub proof fn lemma_chars_before_boundary(s: Seq<char>, k: int)
    requires
        0 <= k <= s.len(),
    ensures
        chars_before(s, utf8_len(s.take(k))) == k,
{
    if k < s.len() {
        assert(s.take(k + 1).drop_last() == s.take(k));
    }
    lemma_chars_before_is(s, utf8_len(s.take(k)), k);
}

/// How many bytes the UTF-8 encoding of `c` takes.
pub fn char_width(c: char) -> (w: usize)
    ensures
        w == utf8_width(c),
        1 <= w <= 4,
{
    let n: u32 = c as u32;
    if n < 0x80 {
        1
    } else if n < 0x800 {
        2
    } else if n < 0x10000 {
        3
    } else {
        4
    }
}

/// The character position that the byte offset `offset` into the UTF-8
/// encoding of `s` stands for. An offset inside a character's encoding
/// stands for that character's position; one past the end, for the end.
pub fn char_index(s: &[char], offset: usize) -> (k: usize)
    ensures
        k == chars_before(s@, offset as nat),
        k <= s.len(),
{
    let mut k: usize = 0;
    let mut used: usize = 0;
    proof {
        assert(s@.take(0) == Seq::<char>::empty());
    }
    while k < s.len()
        invariant
            k <= s.len(),
            used == utf8_len(s@.take(k as int)),
            used <= offset,
        decreases s.len() - k,
    {
        let w = char_width(s[k]);
        proof {
            assert(s@.take(k + 1).drop_last() == s@.take(k as int));
        }
        if w > offset - used {
            proof {
                lemma_chars_before_is(s@, offset as nat, k as int);
            }
            return k;
        }
        used += w;
        k += 1;
    }
    proof {
        lemma_chars_before_is(s@, offset as nat, k as int);
    }
    k
}

} // verus!
