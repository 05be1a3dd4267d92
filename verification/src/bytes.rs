//! Byte offsets into text: how a text is cut at offsets that count the bytes of its
//! UTF-8 encoding.

use vstd::prelude::*;
use vstd::utf8::*;

verus! {

/// How many bytes `c` takes in UTF-8.
pub open spec fn width(c: char) -> int {
    if c <= '\u{7f}' {
        1
    } else if c <= '\u{7ff}' {
        2
    } else if c <= '\u{ffff}' {
        3
    } else {
        4
    }
}

/// How many bytes `s` takes in UTF-8.
pub open spec fn byte_len(s: Seq<char>) -> int
    decreases s.len(),
{
    if s.len() == 0 {
        0
    } else {
        width(s[0]) + byte_len(s.skip(1))
    }
}

/// The position of the character that begins at byte `k` of `s`, the end of `s`
/// included; `None` where `k` falls inside a character or past the end.
pub open spec fn char_at_byte(s: Seq<char>, k: int) -> Option<int>
    decreases s.len(),
{
    if k == 0 {
        Some(0)
    } else if s.len() == 0 || k < width(s[0]) {
        None
    } else {
        match char_at_byte(s.skip(1), k - width(s[0])) {
            Some(i) => Some(i + 1),
            None => None,
        }
    }
}

/// The part of `s` from byte `a` to byte `b`; `None` where `s` cannot be cut there.
pub open spec fn byte_slice(s: Seq<char>, a: int, b: int) -> Option<Seq<char>> {
    match (char_at_byte(s, a), char_at_byte(s, b)) {
        (Some(i), Some(j)) if i <= j => Some(s.subrange(i, j)),
        _ => None,
    }
}

/// A position found for an offset lies in the text, and not behind the offset.
pub proof fn lemma_char_at_byte(s: Seq<char>, k: int)
    ensures
        char_at_byte(s, k) matches Some(i) ==> 0 <= i <= s.len() && i <= k,
    decreases s.len(),
{
    if k != 0 && s.len() > 0 && k >= width(s[0]) {
        lemma_char_at_byte(s.skip(1), k - width(s[0]));
    }
}

/// A slice has no more characters than bytes.
pub proof fn lemma_byte_slice_len(s: Seq<char>, a: int, b: int)
    requires
        0 <= a <= b,
    ensures
        byte_slice(s, a, b) matches Some(t) ==> t.len() <= b - a,
        char_at_byte(s, a) is Some && char_at_byte(s, b) is Some ==> byte_slice(s, a, b) is Some,
    decreases s.len(),
{
    lemma_char_at_byte(s, a);
    lemma_char_at_byte(s, b);
    if a != 0 && s.len() > 0 && a >= width(s[0]) {
        lemma_byte_slice_len(s.skip(1), a - width(s[0]), b - width(s[0]));
        if let (Some(i), Some(j)) = (char_at_byte(s, a), char_at_byte(s, b)) {
            lemma_char_at_byte(s.skip(1), a - width(s[0]));
            lemma_char_at_byte(s.skip(1), b - width(s[0]));
            if i <= j {
                assert(s.skip(1).subrange(i - 1, j - 1) == s.subrange(i, j));
            }
        }
    }
}

/// Where the first `n` characters take one byte each, offsets up to `n` are positions.
pub proof fn lemma_single_bytes(s: Seq<char>, n: int)
    requires
        0 <= n <= s.len(),
        forall|i: int| 0 <= i < n ==> #[trigger] s[i] <= '\u{7f}',
    ensures
        forall|k: int| 0 <= k <= n ==> #[trigger] char_at_byte(s, k) == Some(k),
        forall|a: int, b: int|
            0 <= a <= b <= n ==> #[trigger] byte_slice(s, a, b) == Some(s.subrange(a, b)),
        byte_len(s) >= n,
    decreases n,
{
    if n > 0 {
        let rest = s.skip(1);
        assert forall|i: int| 0 <= i < n - 1 implies #[trigger] rest[i] <= '\u{7f}' by {
            assert(rest[i] == s[i + 1]);
        }
        lemma_single_bytes(rest, n - 1);
        assert forall|k: int| 0 <= k <= n implies #[trigger] char_at_byte(s, k) == Some(k) by {
            if k > 0 {
                assert(s[0] <= '\u{7f}');
                assert(char_at_byte(rest, k - 1) == Some(k - 1));
            }
        }
    } else {
        lemma_byte_len_nonnegative(s);
    }
}

proof fn lemma_byte_len_nonnegative(s: Seq<char>)
    ensures
        byte_len(s) >= 0,
    decreases s.len(),
{
    if s.len() > 0 {
        lemma_byte_len_nonnegative(s.skip(1));
    }
}

/// How many bytes `c` takes in UTF-8.
pub fn width_of(c: char) -> (r: usize)
    ensures
        r == width(c),
{
    if c <= '\u{7f}' {
        1
    } else if c <= '\u{7ff}' {
        2
    } else if c <= '\u{ffff}' {
        3
    } else {
        4
    }
}

/// Whether `s` takes `n` bytes or more.
pub fn has_bytes(s: &[char], n: usize) -> (r: bool)
    ensures
        r == (byte_len(s@) >= n),
{
    let mut i: usize = 0;
    let mut missing: usize = n;
    assert(s@.skip(0) == s@);
    while i < s.len()
        invariant
            i <= s@.len(),
            byte_len(s@) == n - missing + byte_len(s@.skip(i as int)),
        decreases s@.len() - i,
    {
        let w: usize = width_of(s[i]);
        assert(s@.skip(i as int).skip(1) == s@.skip(i + 1));
        proof {
            lemma_byte_len_nonnegative(s@.skip(i + 1));
        }
        if missing <= w {
            return true;
        }
        missing = missing - w;
        i = i + 1;
    }
    missing == 0
}

/// The position of the character that begins at byte `k` of `s`.
pub fn char_at_byte_of(s: &[char], k: usize) -> (r: Option<usize>)
    ensures
        crate::text::position(r) == char_at_byte(s@, k as int),
{
    let mut i: usize = 0;
    let mut left: usize = k;
    assert(s@.skip(0) == s@);
    while left > 0
        invariant
            i <= s@.len(),
            char_at_byte(s@, k as int) == (match char_at_byte(s@.skip(i as int), left as int) {
                Some(j) => Some(j + i),
                None => None,
            }),
        decreases left,
    {
        if i == s.len() {
            return None;
        }
        let w: usize = width_of(s[i]);
        assert(s@.skip(i as int).skip(1) == s@.skip(i + 1));
        if left < w {
            return None;
        }
        left = left - w;
        i = i + 1;
    }
    Some(i)
}

/// The part of `s` from byte `a` to byte `b`.
pub fn byte_slice_of<'a>(s: &'a [char], a: usize, b: usize) -> (r: Option<&'a [char]>)
    ensures
        r is Some <==> byte_slice(s@, a as int, b as int) is Some,
        r matches Some(t) ==> byte_slice(s@, a as int, b as int) == Some(t@),
{
    proof {
        lemma_char_at_byte(s@, a as int);
        lemma_char_at_byte(s@, b as int);
    }
    match (char_at_byte_of(s, a), char_at_byte_of(s, b)) {
        (Some(i), Some(j)) => if i <= j {
            Some(&s[i..j])
        } else {
            None
        },
        _ => None,
    }
}

// ---------------------------------------------------------------------------
// Laws
// ---------------------------------------------------------------------------

proof fn lemma_width(c: char)
    ensures
        encode_scalar(c as u32).len() == width(c),
{
}

/// The byte length is the length of the UTF-8 encoding.
pub proof fn law_byte_len_is_encoded_len(s: Seq<char>)
    ensures
        byte_len(s) == encode_utf8(s).len(),
    decreases s.len(),
{
    if s.len() > 0 {
        lemma_width(s[0]);
        assert(s.skip(1) == s.drop_first());
        law_byte_len_is_encoded_len(s.skip(1));
    }
}

/// A text can be cut at the offsets that are character boundaries of its UTF-8
/// encoding, and at no others; the two parts encode to the two parts of the bytes.
pub proof fn law_cut_at_char_boundary(s: Seq<char>, k: int)
    ensures
        char_at_byte(s, k) is Some <==> is_char_boundary(encode_utf8(s), k),
        char_at_byte(s, k) matches Some(i) ==> {
            &&& 0 <= i <= s.len()
            &&& 0 <= k <= encode_utf8(s).len()
            &&& encode_utf8(s.take(i)) == encode_utf8(s).subrange(0, k)
            &&& encode_utf8(s.skip(i)) == encode_utf8(s).subrange(k, encode_utf8(s).len() as int)
        },
    decreases s.len(),
{
    let bytes = encode_utf8(s);
    encode_utf8_valid_utf8(s);
    if k == 0 {
        assert(s.take(0) == Seq::<char>::empty());
        assert(s.skip(0) == s);
        assert(bytes.subrange(0, 0) == Seq::<u8>::empty());
        assert(bytes.subrange(0, bytes.len() as int) == bytes);
    } else if s.len() == 0 {
    } else {
        lemma_width(s[0]);
        let w = width(s[0]);
        let rest = s.skip(1);
        assert(rest == s.drop_first());
        encode_utf8_first_scalar(s);
        encode_utf8_valid_utf8(rest);
        assert(pop_first_scalar(bytes) == encode_utf8(rest));
        law_cut_at_char_boundary(rest, k - w);
        if k < w {
            if 0 < k {
                assert(!is_char_boundary(encode_utf8(rest), k - w));
            }
        } else if let Some(j) = char_at_byte(rest, k - w) {
            let i = j + 1;
            let first = encode_scalar(s[0] as u32);
            assert(s.take(i).drop_first() == rest.take(j));
            assert(s.skip(i) == rest.skip(j));
            assert(bytes == first + encode_utf8(rest));
            assert(encode_utf8(s.take(i)) == first + encode_utf8(rest.take(j)));
            assert(bytes.subrange(0, k) == first + encode_utf8(rest).subrange(0, k - w));
            assert(bytes.subrange(k, bytes.len() as int) == encode_utf8(rest).subrange(
                k - w,
                encode_utf8(rest).len() as int,
            ));
        }
    }
}

/// A part that is cut out encodes to the bytes between the two offsets, and can be cut
/// out exactly if both are character boundaries, in this order.
pub proof fn law_slice_is_bytes_between(s: Seq<char>, a: int, b: int)
    ensures
        byte_slice(s, a, b) is Some <==> a <= b && is_char_boundary(encode_utf8(s), a)
            && is_char_boundary(encode_utf8(s), b),
        byte_slice(s, a, b) matches Some(t) ==> encode_utf8(t) == encode_utf8(s).subrange(a, b),
{
    encode_utf8_valid_utf8(s);
    law_cut_at_char_boundary(s, a);
    law_cut_at_char_boundary(s, b);
    if let (Some(i), Some(j)) = (char_at_byte(s, a), char_at_byte(s, b)) {
        let bytes = encode_utf8(s);
        if i <= j {
            let tail = s.skip(i);
            let t = s.subrange(i, j);
            assert(tail.take(j - i) == t);
            assert(tail == t + s.skip(j));
            lemma_encode_concat(t, s.skip(j));
            lemma_encode_concat(s.take(i), s.skip(i));
            assert(s.take(i) + s.skip(i) == s);
            assert(a <= b);
            assert(encode_utf8(t) == bytes.subrange(a, b)) by {
                let e = encode_utf8(t);
                let rest = encode_utf8(s.skip(j));
                assert(encode_utf8(tail) == e + rest);
                assert(e.len() == b - a);
                assert forall|k: int| 0 <= k < e.len() implies e[k] == bytes.subrange(a, b)[k] by {
                    assert(encode_utf8(tail)[k] == e[k]);
                    assert(encode_utf8(tail)[k] == bytes.subrange(a, bytes.len() as int)[k]);
                }
            }
        } else {
            let t = s.subrange(j, i);
            assert(s.skip(j) == t + s.skip(i));
            lemma_encode_concat(t, s.skip(i));
            law_byte_len_is_encoded_len(t);
            lemma_some_bytes(t);
            assert(encode_utf8(s.skip(j)).len() == bytes.len() - b);
            assert(encode_utf8(s.skip(i)).len() == bytes.len() - a);
            assert(encode_utf8(t).len() > 0);
            assert(b < a);
        }
    }
}

proof fn lemma_encode_concat(s: Seq<char>, t: Seq<char>)
    ensures
        encode_utf8(s + t) == encode_utf8(s) + encode_utf8(t),
    decreases s.len(),
{
    if s.len() == 0 {
        assert(s + t == t);
        assert(encode_utf8(s) + encode_utf8(t) == encode_utf8(t));
    } else {
        assert((s + t).drop_first() == s.drop_first() + t);
        lemma_encode_concat(s.drop_first(), t);
        assert(encode_utf8(s + t) == encode_utf8(s) + encode_utf8(t));
    }
}

proof fn lemma_some_bytes(s: Seq<char>)
    requires
        s.len() > 0,
    ensures
        byte_len(s) > 0,
{
    lemma_byte_len_nonnegative(s.skip(1));
}

} // verus!
