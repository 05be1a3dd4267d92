//! Text as sequences of characters: searching, splitting into lines and words,
//! trimming, prefixes, and the last occurrence of a character.

use vstd::prelude::*;

verus! {

/// The views of a list of strings.
pub open spec fn texts(v: Seq<String>) -> Seq<Seq<char>> {
    Seq::new(v.len(), |i: int| v[i]@)
}

/// The views of a list of character slices.
pub open spec fn slices(v: Seq<&[char]>) -> Seq<Seq<char>> {
    Seq::new(v.len(), |i: int| v[i]@)
}

/// An optional position as a mathematical one.
pub open spec fn position(i: Option<usize>) -> Option<int> {
    match i {
        Some(i) => Some(i as int),
        None => None,
    }
}

/// `std`'s `String::push`: one character more at the end, nothing else changed.
pub assume_specification[ String::push ](s: &mut String, c: char)
    ensures
        final(s)@ == old(s)@.push(c),
;

/// The characters of `s`.
pub fn chars_of(s: &str) -> (r: Vec<char>)
    ensures
        r@ == s@,
{
    let mut out: Vec<char> = Vec::new();
    for c in it: s.chars()
        invariant
            it.seq() == s@,
            out@ == s@.take(it.index()),
    {
        out.push(c);
    }
    out
}

/// The string with the characters of `s`.
pub fn string_of(s: &[char]) -> (r: String)
    ensures
        r@ == s@,
{
    let mut out: String = String::new();
    let mut i: usize = 0;
    while i < s.len()
        invariant
            i <= s@.len(),
            out@ == s@.take(i as int),
        decreases s@.len() - i,
    {
        out.push(s[i]);
        i = i + 1;
        assert(s@.take(i as int) == s@.take(i - 1).push(s@[i - 1]));
    }
    assert(s@.take(i as int) == s@);
    out
}

/// Whether `a` and `b` hold the same characters.
pub fn same_text(a: &str, b: &str) -> (r: bool)
    ensures
        r == (a@ == b@),
{
    let x: Vec<char> = chars_of(a);
    let y: Vec<char> = chars_of(b);
    assert(a@.subrange(0, a@.len() as int) == a@);
    x.len() == y.len() && matches_at(x.as_slice(), y.as_slice(), 0)
}

// ---------------------------------------------------------------------------
// Searching
// ---------------------------------------------------------------------------

/// `pat` stands in `s` at position `i`.
pub open spec fn occurs_at(s: Seq<char>, pat: Seq<char>, i: int) -> bool {
    &&& 0 <= i
    &&& i + pat.len() <= s.len()
    &&& s.subrange(i, i + pat.len()) == pat
}

/// `pat` stands somewhere in `s`.
pub open spec fn has(s: Seq<char>, pat: Seq<char>) -> bool {
    exists|i: int| occurs_at(s, pat, i)
}

/// `i` is the leftmost position of `pat` in `s`.
pub open spec fn first_at(s: Seq<char>, pat: Seq<char>, i: int) -> bool {
    &&& occurs_at(s, pat, i)
    &&& forall|j: int| 0 <= j < i ==> !#[trigger] occurs_at(s, pat, j)
}

/// The leftmost position of `pat` in `s`.
pub open spec fn find(s: Seq<char>, pat: Seq<char>) -> Option<int> {
    if has(s, pat) {
        Some(choose|i: int| first_at(s, pat, i))
    } else {
        None
    }
}

/// The leftmost position of the character `c` in `s`.
pub open spec fn find_char(s: Seq<char>, c: char) -> Option<int> {
    find(s, seq![c])
}

proof fn lemma_leftmost(s: Seq<char>, pat: Seq<char>, i: int)
    requires
        occurs_at(s, pat, i),
    ensures
        exists|j: int| first_at(s, pat, j),
    decreases i,
{
    if exists|j: int| 0 <= j < i && occurs_at(s, pat, j) {
        let j = choose|j: int| 0 <= j < i && occurs_at(s, pat, j);
        lemma_leftmost(s, pat, j);
    } else {
        assert(first_at(s, pat, i));
    }
}

/// A found position is the leftmost one, and the leftmost position is found.
pub proof fn lemma_find(s: Seq<char>, pat: Seq<char>)
    ensures
        find(s, pat) is Some <==> has(s, pat),
        find(s, pat) matches Some(i) ==> first_at(s, pat, i),
        forall|i: int| #[trigger] first_at(s, pat, i) ==> find(s, pat) == Some(i),
{
    if has(s, pat) {
        let i = choose|i: int| occurs_at(s, pat, i);
        lemma_leftmost(s, pat, i);
        let k = choose|k: int| first_at(s, pat, k);
        assert forall|j: int| #[trigger] first_at(s, pat, j) implies j == k by {
            if j < k {
                assert(!occurs_at(s, pat, j));
            }
            if k < j {
                assert(!occurs_at(s, pat, k));
            }
        }
    }
}

/// A single character occurs exactly where it stands.
pub proof fn lemma_char_occurs(s: Seq<char>, c: char)
    ensures
        forall|i: int| #[trigger]
            occurs_at(s, seq![c], i) <==> 0 <= i < s.len() && s[i] == c,
        has(s, seq![c]) <==> s.contains(c),
{
    assert forall|i: int| #[trigger]
        occurs_at(s, seq![c], i) <==> 0 <= i < s.len() && s[i] == c by {
        if 0 <= i < s.len() {
            assert(s.subrange(i, i + 1) == seq![s[i]]);
            if occurs_at(s, seq![c], i) {
                assert(s.subrange(i, i + 1)[0] == c);
            }
        }
    }
    if s.contains(c) {
        let i = choose|i: int| 0 <= i < s.len() && s[i] == c;
        assert(occurs_at(s, seq![c], i));
    }
    if has(s, seq![c]) {
        let i = choose|i: int| occurs_at(s, seq![c], i);
        assert(s[i] == c);
    }
}

/// Where the leftmost `c` stands.
pub proof fn lemma_find_char(s: Seq<char>, c: char)
    ensures
        find_char(s, c) is Some <==> s.contains(c),
        find_char(s, c) matches Some(i) ==> 0 <= i < s.len() && s[i] == c && !s.take(i).contains(c),
        forall|i: int|
            0 <= i < s.len() && #[trigger] s[i] == c && !s.take(i).contains(c) ==> find_char(s, c)
                == Some(i),
{
    lemma_char_occurs(s, c);
    lemma_find(s, seq![c]);
    if let Some(i) = find_char(s, c) {
        assert(occurs_at(s, seq![c], i));
        if s.take(i).contains(c) {
            let j = choose|j: int| 0 <= j < s.take(i).len() && s.take(i)[j] == c;
            assert(s[j] == c);
            assert(occurs_at(s, seq![c], j));
        }
    }
    assert forall|i: int|
        0 <= i < s.len() && #[trigger] s[i] == c && !s.take(i).contains(c) implies find_char(s, c)
        == Some(i) by {
        assert(occurs_at(s, seq![c], i));
        assert forall|j: int| 0 <= j < i implies !#[trigger] occurs_at(s, seq![c], j) by {
            if occurs_at(s, seq![c], j) {
                assert(s.take(i)[j] == c);
            }
        }
        assert(first_at(s, seq![c], i));
    }
}

/// Whether `pat` stands in `s` at position `i`.
pub fn matches_at(s: &[char], pat: &[char], i: usize) -> (r: bool)
    requires
        i + pat@.len() <= s@.len(),
    ensures
        r == occurs_at(s@, pat@, i as int),
{
    let end: usize = s.len();
    let mut k: usize = 0;
    while k < pat.len()
        invariant
            end == s@.len(),
            k <= pat@.len(),
            i + pat@.len() <= s@.len(),
            forall|j: int| 0 <= j < k ==> s@[i + j] == pat@[j],
        decreases pat@.len() - k,
    {
        if s[i + k] != pat[k] {
            assert(s@.subrange(i as int, i + pat@.len())[k as int] != pat@[k as int]);
            return false;
        }
        k = k + 1;
    }
    assert(s@.subrange(i as int, i + pat@.len()) == pat@);
    true
}

/// The leftmost position of `pat` in `s`.
pub fn find_text(s: &[char], pat: &[char]) -> (r: Option<usize>)
    ensures
        position(r) == find(s@, pat@),
{
    proof {
        lemma_find(s@, pat@);
    }
    if pat.len() > s.len() {
        return None;
    }
    let last: usize = s.len() - pat.len();
    let mut i: usize = 0;
    loop
        invariant
            last == s@.len() - pat@.len(),
            i <= last,
            forall|j: int| 0 <= j < i ==> !#[trigger] occurs_at(s@, pat@, j),
            find(s@, pat@) is Some <==> has(s@, pat@),
            forall|k: int| #[trigger] first_at(s@, pat@, k) ==> find(s@, pat@) == Some(k),
        decreases last - i,
    {
        if matches_at(s, pat, i) {
            assert(first_at(s@, pat@, i as int));
            return Some(i);
        }
        if i == last {
            return None;
        }
        i = i + 1;
    }
}

/// The leftmost position of `c` in `s`.
pub fn find_char_in(s: &[char], c: char) -> (r: Option<usize>)
    ensures
        position(r) == find_char(s@, c),
{
    proof {
        lemma_find_char(s@, c);
    }
    let mut i: usize = 0;
    while i < s.len()
        invariant
            i <= s@.len(),
            !s@.take(i as int).contains(c),
            find_char(s@, c) is Some <==> s@.contains(c),
            forall|i: int|
                0 <= i < s@.len() && #[trigger] s@[i] == c && !s@.take(i).contains(c)
                    ==> find_char(s@, c) == Some(i),
        decreases s@.len() - i,
    {
        if s[i] == c {
            return Some(i);
        }
        i = i + 1;
        assert(s@.take(i as int) == s@.take(i - 1).push(s@[i - 1]));
    }
    assert(s@.take(i as int) == s@);
    None
}

/// Whether `pat` stands somewhere in `s`.
pub fn has_text(s: &[char], pat: &str) -> (r: bool)
    ensures
        r == has(s@, pat@),
{
    let p: Vec<char> = chars_of(pat);
    proof {
        lemma_find(s@, pat@);
    }
    find_text(s, p.as_slice()).is_some()
}

/// Whether the character `c` stands somewhere in `s`.
pub fn has_char(s: &[char], c: char) -> (r: bool)
    ensures
        r == s@.contains(c),
{
    proof {
        lemma_find_char(s@, c);
    }
    find_char_in(s, c).is_some()
}

// ---------------------------------------------------------------------------
// Lines
// ---------------------------------------------------------------------------

/// How many characters stand before the first line feed of `s`.
pub open spec fn line_len(s: Seq<char>) -> nat
    decreases s.len(),
{
    if s.len() == 0 || s[0] == '\n' {
        0
    } else {
        1 + line_len(s.skip(1))
    }
}

/// `s` without one carriage return at its end.
pub open spec fn without_cr(s: Seq<char>) -> Seq<char> {
    if s.len() > 0 && s.last() == '\r' {
        s.drop_last()
    } else {
        s
    }
}

/// The lines of `s`: each ends with a line feed, or a carriage return and a line
/// feed, which do not belong to it. The last line may lack its ending.
pub open spec fn lines(s: Seq<char>) -> Seq<Seq<char>>
    decreases s.len(),
{
    let n = line_len(s) as int;
    if s.len() == 0 {
        seq![]
    } else if n >= s.len() {
        seq![s]
    } else {
        seq![without_cr(s.take(n))] + lines(s.skip(n + 1))
    }
}

/// A line reaches to the first line feed, or to the end.
pub proof fn lemma_line_len(s: Seq<char>)
    ensures
        line_len(s) <= s.len(),
        !s.take(line_len(s) as int).contains('\n'),
        line_len(s) < s.len() ==> s[line_len(s) as int] == '\n',
    decreases s.len(),
{
    if s.len() != 0 && s[0] != '\n' {
        lemma_line_len(s.skip(1));
        let n = line_len(s) as int;
        assert(s.take(n).skip(1) == s.skip(1).take(n - 1));
        assert forall|i: int| 0 <= i < n implies s.take(n)[i] != '\n' by {
            if i > 0 {
                assert(s.skip(1).take(n - 1)[i - 1] == s[i]);
            }
        }
    }
}

/// The first line feed ends the line.
pub proof fn lemma_line_len_unique(s: Seq<char>, n: int)
    requires
        0 <= n <= s.len(),
        !s.take(n).contains('\n'),
        n < s.len() ==> s[n] == '\n',
    ensures
        line_len(s) == n,
{
    lemma_line_len(s);
    let m = line_len(s) as int;
    if m < n {
        assert(s.take(n)[m] == '\n');
    }
    if n < m {
        assert(s.take(m)[n] == '\n');
    }
}

/// A line appended to a text of whole lines becomes its last line.
pub proof fn lemma_lines_push(s: Seq<char>, line: Seq<char>)
    requires
        s.len() == 0 || s.last() == '\n',
        !line.contains('\n'),
    ensures
        lines(s + line + seq!['\n']) == lines(s).push(without_cr(line)),
    decreases s.len(),
{
    let all = s + line + seq!['\n'];
    if s.len() == 0 {
        let n = line.len() as int;
        assert(all.take(n) == line);
        assert(all[n] == '\n');
        lemma_line_len_unique(all, n);
        assert(all.skip(n + 1) == Seq::<char>::empty());
        assert(lines(all.skip(n + 1)) == Seq::<Seq<char>>::empty());
        assert(lines(all) == seq![without_cr(line)]);
    } else {
        lemma_line_len(s);
        let n = line_len(s) as int;
        if n == s.len() {
            assert(s.take(n)[s.len() - 1] == '\n');
        }
        assert(all.take(n) == s.take(n));
        lemma_line_len_unique(all, n);
        let rest = s.skip(n + 1);
        assert(all.skip(n + 1) == rest + line + seq!['\n']);
        lemma_lines_push(rest, line);
        assert(lines(all) == lines(s).push(without_cr(line)));
    }
}

/// The lines of `s`.
pub fn lines_of<'a>(s: &'a [char]) -> (r: Vec<&'a [char]>)
    ensures
        slices(r@) == lines(s@),
{
    let mut out: Vec<&'a [char]> = Vec::new();
    let end: usize = s.len();
    let mut pos: usize = 0;
    assert(s@.skip(0) == s@);
    while pos < end
        invariant
            end == s@.len(),
            pos <= end,
            lines(s@) == slices(out@) + lines(s@.skip(pos as int)),
        decreases end - pos,
    {
        let ghost rest = s@.skip(pos as int);
        let ghost before = slices(out@);
        let mut stop: usize = pos;
        while stop < end && s[stop] != '\n'
            invariant
                end == s@.len(),
                pos <= stop <= end,
                forall|j: int| pos <= j < stop ==> s@[j] != '\n',
            decreases end - stop,
        {
            stop = stop + 1;
        }
        proof {
            let line = rest.take(stop - pos);
            assert forall|j: int| 0 <= j < line.len() implies line[j] != '\n' by {
                assert(line[j] == s@[pos + j]);
            }
            lemma_line_len_unique(rest, stop - pos);
        }
        if stop == end {
            out.push(&s[pos..end]);
            proof {
                assert(s@.subrange(pos as int, end as int) == rest);
                assert(slices(out@) == before.push(rest));
                assert(lines(rest) == seq![rest]);
                assert(slices(out@) + lines(s@.skip(end as int)) == before + lines(rest));
            }
            pos = end;
        } else {
            let cut: usize = if stop > pos && s[stop - 1] == '\r' {
                stop - 1
            } else {
                stop
            };
            out.push(&s[pos..cut]);
            proof {
                let line = rest.take(stop - pos);
                assert(s@.subrange(pos as int, cut as int) == without_cr(line));
                assert(slices(out@) == before.push(without_cr(line)));
                assert(rest.skip(stop - pos + 1) == s@.skip(stop + 1));
                assert(slices(out@) + lines(s@.skip(stop + 1)) == before + lines(rest));
            }
            pos = stop + 1;
        }
    }
    assert(slices(out@) + lines(s@.skip(pos as int)) == slices(out@));
    out
}

// ---------------------------------------------------------------------------
// White space and words
// ---------------------------------------------------------------------------

/// The characters with the Unicode property `White_Space`.
pub open spec fn is_white(c: char) -> bool {
    ||| '\u{9}' <= c <= '\u{d}'
    ||| c == '\u{20}'
    ||| c == '\u{85}'
    ||| c == '\u{a0}'
    ||| c == '\u{1680}'
    ||| '\u{2000}' <= c <= '\u{200a}'
    ||| c == '\u{2028}'
    ||| c == '\u{2029}'
    ||| c == '\u{202f}'
    ||| c == '\u{205f}'
    ||| c == '\u{3000}'
}

/// Whether `c` has the Unicode property `White_Space`.
pub fn is_white_space(c: char) -> (r: bool)
    ensures
        r == is_white(c),
{
    ('\u{9}' <= c && c <= '\u{d}') || c == '\u{20}' || c == '\u{85}' || c == '\u{a0}' || c
        == '\u{1680}' || ('\u{2000}' <= c && c <= '\u{200a}') || c == '\u{2028}' || c == '\u{2029}'
        || c == '\u{202f}' || c == '\u{205f}' || c == '\u{3000}'
}

/// How many characters stand before the first white space of `s`.
pub open spec fn word_len(s: Seq<char>) -> nat
    decreases s.len(),
{
    if s.len() == 0 || is_white(s[0]) {
        0
    } else {
        1 + word_len(s.skip(1))
    }
}

/// The words of `s`: its longest pieces without white space.
pub open spec fn words(s: Seq<char>) -> Seq<Seq<char>>
    decreases s.len(),
{
    if s.len() == 0 {
        seq![]
    } else if is_white(s[0]) {
        words(s.skip(1))
    } else {
        let n = word_len(s) as int;
        if n >= s.len() {
            seq![s]
        } else {
            seq![s.take(n)] + words(s.skip(n))
        }
    }
}

/// A word reaches to the first white space, or to the end.
pub proof fn lemma_word_len_unique(s: Seq<char>, n: int)
    requires
        0 <= n <= s.len(),
        forall|i: int| 0 <= i < n ==> !is_white(#[trigger] s[i]),
        n < s.len() ==> is_white(s[n]),
    ensures
        word_len(s) == n,
    decreases s.len(),
{
    if n > 0 {
        assert forall|i: int| 0 <= i < n - 1 implies !is_white(#[trigger] s.skip(1)[i]) by {
            assert(s.skip(1)[i] == s[i + 1]);
        }
        lemma_word_len_unique(s.skip(1), n - 1);
    }
}

/// The words of `s`.
pub fn words_of<'a>(s: &'a [char]) -> (r: Vec<&'a [char]>)
    ensures
        slices(r@) == words(s@),
{
    let mut out: Vec<&'a [char]> = Vec::new();
    let end: usize = s.len();
    let mut pos: usize = 0;
    assert(s@.skip(0) == s@);
    while pos < end
        invariant
            end == s@.len(),
            pos <= end,
            words(s@) == slices(out@) + words(s@.skip(pos as int)),
        decreases end - pos,
    {
        let ghost rest = s@.skip(pos as int);
        let ghost before = slices(out@);
        if is_white_space(s[pos]) {
            assert(rest.skip(1) == s@.skip(pos + 1));
            pos = pos + 1;
        } else {
            let mut stop: usize = pos + 1;
            while stop < end && !is_white_space(s[stop])
                invariant
                    end == s@.len(),
                    pos < stop <= end,
                    forall|j: int| pos <= j < stop ==> !is_white(s@[j]),
                decreases end - stop,
            {
                stop = stop + 1;
            }
            out.push(&s[pos..stop]);
            proof {
                lemma_word_len_unique(rest, stop - pos);
                let word = s@.subrange(pos as int, stop as int);
                assert(slices(out@) == before.push(word));
                if stop == end {
                    assert(word == rest);
                    assert(words(rest) == seq![rest]);
                } else {
                    assert(word == rest.take(stop - pos));
                    assert(rest.skip(stop - pos) == s@.skip(stop as int));
                }
                assert(slices(out@) + words(s@.skip(stop as int)) == before + words(rest));
            }
            pos = stop;
        }
    }
    assert(slices(out@) + words(s@.skip(pos as int)) == slices(out@));
    out
}

/// `s` without the white space at its start.
pub open spec fn trim_start(s: Seq<char>) -> Seq<char>
    decreases s.len(),
{
    if s.len() > 0 && is_white(s[0]) {
        trim_start(s.skip(1))
    } else {
        s
    }
}

/// `s` without the white space at its end.
pub open spec fn trim_end(s: Seq<char>) -> Seq<char>
    decreases s.len(),
{
    if s.len() > 0 && is_white(s.last()) {
        trim_end(s.drop_last())
    } else {
        s
    }
}

/// `s` without the white space at both ends.
pub open spec fn trim(s: Seq<char>) -> Seq<char> {
    trim_end(trim_start(s))
}

/// White space in front of a text that does not begin with any is what trimming the
/// start takes off.
pub proof fn lemma_trim_start(blanks: Seq<char>, s: Seq<char>)
    requires
        forall|i: int| 0 <= i < blanks.len() ==> is_white(#[trigger] blanks[i]),
        s.len() > 0 ==> !is_white(s[0]),
    ensures
        trim_start(blanks + s) == s,
    decreases blanks.len(),
{
    if blanks.len() > 0 {
        assert(is_white(blanks[0]));
        assert((blanks + s).skip(1) == blanks.skip(1) + s);
        assert forall|i: int| 0 <= i < blanks.skip(1).len() implies is_white(
            #[trigger] blanks.skip(1)[i],
        ) by {
            assert(blanks.skip(1)[i] == blanks[i + 1]);
        }
        lemma_trim_start(blanks.skip(1), s);
    } else {
        assert(blanks + s == s);
    }
}

/// `s` without the white space at its start.
pub fn trimmed_start<'a>(s: &'a [char]) -> (r: &'a [char])
    ensures
        r@ == trim_start(s@),
{
    let end: usize = s.len();
    let mut from: usize = 0;
    assert(s@.skip(0) == s@);
    while from < end && is_white_space(s[from])
        invariant
            end == s@.len(),
            from <= end,
            trim_start(s@) == trim_start(s@.skip(from as int)),
        decreases end - from,
    {
        assert(s@.skip(from as int).skip(1) == s@.skip(from + 1));
        from = from + 1;
    }
    assert(s@.skip(from as int) == s@.subrange(from as int, end as int));
    &s[from..end]
}

/// `s` without the white space at both ends.
pub fn trimmed<'a>(s: &'a [char]) -> (r: &'a [char])
    ensures
        r@ == trim(s@),
{
    let t: &'a [char] = trimmed_start(s);
    let mut to: usize = t.len();
    assert(t@.take(to as int) == t@);
    while to > 0 && is_white_space(t[to - 1])
        invariant
            to <= t@.len(),
            trim_end(t@) == trim_end(t@.take(to as int)),
        decreases to,
    {
        assert(t@.take(to as int).drop_last() == t@.take(to - 1));
        to = to - 1;
    }
    assert(t@.take(to as int) == t@.subrange(0, to as int));
    &t[0..to]
}

// ---------------------------------------------------------------------------
// Prefixes and the last occurrence of a character
// ---------------------------------------------------------------------------

/// What follows `prefix` in `s`, if `s` begins with it.
pub open spec fn after_prefix(s: Seq<char>, prefix: Seq<char>) -> Option<Seq<char>> {
    if occurs_at(s, prefix, 0) {
        Some(s.skip(prefix.len() as int))
    } else {
        None
    }
}

/// What follows `prefix` in `s`, if `s` begins with it.
pub fn strip<'a>(s: &'a [char], prefix: &str) -> (r: Option<&'a [char]>)
    ensures
        r is Some <==> after_prefix(s@, prefix@) is Some,
        r matches Some(t) ==> after_prefix(s@, prefix@) == Some(t@),
{
    let p: Vec<char> = chars_of(prefix);
    if p.len() <= s.len() && matches_at(s, p.as_slice(), 0) {
        let t: &'a [char] = &s[p.len()..s.len()];
        assert(t@ == s@.skip(p@.len() as int));
        Some(t)
    } else {
        None
    }
}

/// The rightmost position of `c` in `s`.
pub open spec fn last_index(s: Seq<char>, c: char) -> Option<int>
    decreases s.len(),
{
    if s.len() == 0 {
        None
    } else if s.last() == c {
        Some(s.len() - 1)
    } else {
        last_index(s.drop_last(), c)
    }
}

/// The part of `s` behind its last `c`; all of `s` where it holds none.
pub open spec fn after_last(s: Seq<char>, c: char) -> Seq<char> {
    match last_index(s, c) {
        Some(i) => s.skip(i + 1),
        None => s,
    }
}

/// Where the rightmost `c` stands.
pub proof fn lemma_last_index(s: Seq<char>, c: char)
    ensures
        last_index(s, c) matches Some(i) ==> 0 <= i < s.len() && s[i] == c && !s.skip(
            i + 1,
        ).contains(c),
        last_index(s, c) is None <==> !s.contains(c),
    decreases s.len(),
{
    if s.len() > 0 && s.last() != c {
        let t = s.drop_last();
        lemma_last_index(t, c);
        if let Some(i) = last_index(t, c) {
            assert(s[i] == t[i]);
            let tail = s.skip(i + 1);
            assert forall|j: int| 0 <= j < tail.len() implies tail[j] != c by {
                if j < t.skip(i + 1).len() {
                    assert(t.skip(i + 1)[j] == tail[j]);
                }
            }
        } else {
            assert forall|j: int| 0 <= j < s.len() implies s[j] != c by {
                if j < t.len() {
                    assert(t[j] == s[j]);
                }
            }
        }
    }
}

/// The position of `c` behind which none follows is the rightmost one.
pub proof fn lemma_last_index_unique(s: Seq<char>, c: char, i: int)
    requires
        0 <= i < s.len(),
        s[i] == c,
        !s.skip(i + 1).contains(c),
    ensures
        last_index(s, c) == Some(i),
{
    lemma_last_index(s, c);
    assert(s.contains(c));
    let k = last_index(s, c)->0;
    if k < i {
        assert(s.skip(k + 1)[i - k - 1] == c);
    }
    if i < k {
        assert(s.skip(i + 1)[k - i - 1] == c);
    }
}

/// The rightmost position of `c` in `s`.
pub fn find_last(s: &[char], c: char) -> (r: Option<usize>)
    ensures
        position(r) == last_index(s@, c),
{
    let mut i: usize = s.len();
    assert(s@.take(i as int) == s@);
    while i > 0
        invariant
            i <= s@.len(),
            last_index(s@, c) == last_index(s@.take(i as int), c),
        decreases i,
    {
        if s[i - 1] == c {
            return Some(i - 1);
        }
        assert(s@.take(i as int).drop_last() == s@.take(i - 1));
        i = i - 1;
    }
    None
}

// ---------------------------------------------------------------------------
// Laws
// ---------------------------------------------------------------------------

/// A text is found wherever it was put, and not behind that place.
pub proof fn law_put_text_is_found(before: Seq<char>, pat: Seq<char>, after: Seq<char>)
    ensures
        has(before + pat + after, pat),
        occurs_at(before + pat + after, pat, before.len() as int),
        find(before + pat + after, pat) matches Some(i) && i <= before.len(),
{
    let s = before + pat + after;
    let n = before.len() as int;
    assert(s.subrange(n, n + pat.len()) == pat);
    assert(occurs_at(s, pat, n));
    lemma_find(s, pat);
    let i = find(s, pat)->0;
    if n < i {
        assert(!occurs_at(s, pat, n));
    }
}

/// Where a text is found, it stands: the text is what lies before it, itself, and what
/// lies behind it. A text that stands nowhere is not found.
pub proof fn law_found_text_stands_there(s: Seq<char>, pat: Seq<char>)
    ensures
        find(s, pat) is Some <==> has(s, pat),
        find(s, pat) matches Some(i) ==> {
            &&& 0 <= i
            &&& i + pat.len() <= s.len()
            &&& s == s.take(i) + pat + s.skip(i + pat.len())
        },
        forall|i: int| #[trigger]
            occurs_at(s, pat, i) ==> {
                &&& 0 <= i
                &&& i + pat.len() <= s.len()
                &&& s == s.take(i) + pat + s.skip(i + pat.len())
            },
        forall|i: int| #[trigger] first_at(s, pat, i) <==> find(s, pat) == Some(i),
{
    lemma_find(s, pat);
    assert forall|i: int| #[trigger] occurs_at(s, pat, i) implies {
        &&& 0 <= i
        &&& i + pat.len() <= s.len()
        &&& s == s.take(i) + pat + s.skip(i + pat.len())
    } by {
        let whole = s.take(i) + pat + s.skip(i + pat.len());
        assert forall|k: int| 0 <= k < s.len() implies s[k] == whole[k] by {
            if i <= k < i + pat.len() {
                assert(s.subrange(i, i + pat.len())[k - i] == pat[k - i]);
            }
        }
        assert(s =~= whole);
    }
    if let Some(i) = find(s, pat) {
        assert(occurs_at(s, pat, i));
    }
}

/// A character is found at its leftmost place.
pub proof fn law_leftmost_char_is_found(before: Seq<char>, c: char, after: Seq<char>)
    ensures
        !before.contains(c) ==> find_char(before + seq![c] + after, c) == Some(
            before.len() as int,
        ),
        !before.contains(c) ==> find_char(before, c) is None,
{
    let s = before + seq![c] + after;
    lemma_find_char(s, c);
    lemma_find_char(before, c);
    let n = before.len() as int;
    assert(s[n] == c);
    assert(s.take(n) == before);
}

proof fn lemma_lines_tail(s: Seq<char>, line: Seq<char>)
    requires
        s.len() == 0 || s.last() == '\n',
        !line.contains('\n'),
        line.len() > 0,
    ensures
        lines(s + line) == lines(s).push(line),
    decreases s.len(),
{
    let all = s + line;
    if s.len() == 0 {
        assert(all == line);
        assert(all.take(all.len() as int) == line);
        lemma_line_len_unique(all, all.len() as int);
        assert(lines(all) == seq![line]);
    } else {
        lemma_line_len(s);
        let n = line_len(s) as int;
        if n == s.len() {
            assert(s.take(n)[s.len() - 1] == '\n');
        }
        assert(all.take(n) == s.take(n));
        lemma_line_len_unique(all, n);
        let rest = s.skip(n + 1);
        assert(all.skip(n + 1) == rest + line);
        lemma_lines_tail(rest, line);
        assert(lines(all) == lines(s).push(line));
    }
}

/// A text of whole lines has one line more when a line is written behind it: ended by a
/// line feed, by a carriage return and a line feed, or not ended. The characters that
/// end it do not belong to it. The empty text has no lines.
pub proof fn law_written_line_is_read(s: Seq<char>, line: Seq<char>)
    requires
        s.len() == 0 || s.last() == '\n',
        !line.contains('\n'),
    ensures
        lines(s + line + seq!['\r', '\n']) == lines(s).push(line),
        line.len() == 0 || line.last() != '\r' ==> lines(s + line + seq!['\n']) == lines(s).push(
            line,
        ),
        line.len() > 0 ==> lines(s + line) == lines(s).push(line),
        lines(Seq::<char>::empty()).len() == 0,
        without_cr(line.push('\r')) == line,
        line.len() == 0 || line.last() != '\r' ==> without_cr(line) == line,
{
    let with_cr = line.push('\r');
    assert(s + line + seq!['\r', '\n'] == s + with_cr + seq!['\n']);
    assert(!with_cr.contains('\n')) by {
        assert forall|i: int| 0 <= i < with_cr.len() implies with_cr[i] != '\n' by {
            if i < line.len() {
                assert(with_cr[i] == line[i]);
            }
        }
    }
    assert(with_cr.drop_last() == line);
    lemma_lines_push(s, with_cr);
    lemma_lines_push(s, line);
    if line.len() > 0 {
        lemma_lines_tail(s, line);
    }
}

proof fn lemma_word_len(s: Seq<char>)
    ensures
        word_len(s) <= s.len(),
        forall|i: int| 0 <= i < word_len(s) ==> !is_white(#[trigger] s[i]),
        word_len(s) < s.len() ==> is_white(s[word_len(s) as int]),
    decreases s.len(),
{
    if s.len() != 0 && !is_white(s[0]) {
        lemma_word_len(s.skip(1));
        assert forall|i: int| 0 <= i < word_len(s) implies !is_white(#[trigger] s[i]) by {
            if i > 0 {
                assert(s.skip(1)[i - 1] == s[i]);
            }
        }
    }
}

/// Two texts that do not run together have the words of the first and then the words of
/// the second.
pub proof fn law_words_of_parts(s: Seq<char>, t: Seq<char>)
    requires
        s.len() == 0 || t.len() == 0 || is_white(s.last()) || is_white(t[0]),
    ensures
        words(s + t) == words(s) + words(t),
    decreases s.len(),
{
    let all = s + t;
    if s.len() == 0 {
        assert(all == t);
        assert(words(s) + words(t) == words(t));
    } else if t.len() == 0 {
        assert(all == s);
        assert(words(s) + words(t) == words(s));
    } else if is_white(s[0]) {
        assert(all.skip(1) == s.skip(1) + t);
        if s.len() > 1 {
            assert(s.skip(1).last() == s.last());
        }
        law_words_of_parts(s.skip(1), t);
    } else {
        let n = word_len(s) as int;
        lemma_word_len(s);
        assert forall|i: int| 0 <= i < n implies !is_white(#[trigger] all[i]) by {
            assert(all[i] == s[i]);
        }
        if n < s.len() {
            assert(all[n] == s[n]);
            lemma_word_len_unique(all, n);
            assert(all.take(n) == s.take(n));
            assert(all.skip(n) == s.skip(n) + t);
            assert(s.skip(n).last() == s.last());
            law_words_of_parts(s.skip(n), t);
            assert(words(all) == words(s) + words(t));
        } else {
            assert(!is_white(s[s.len() - 1]));
            assert(all[n] == t[0]);
            lemma_word_len_unique(all, n);
            assert(all.take(n) == s);
            assert(all.skip(n) == t);
            assert(words(all) == words(s) + words(t));
        }
    }
}

/// A text without white space is one word, and white space holds none.
pub proof fn law_word_is_read(w: Seq<char>)
    ensures
        w.len() > 0 && (forall|i: int| 0 <= i < w.len() ==> !is_white(#[trigger] w[i])) ==> words(w)
            == seq![w],
        (forall|i: int| 0 <= i < w.len() ==> is_white(#[trigger] w[i])) ==> words(w).len() == 0,
    decreases w.len(),
{
    if w.len() > 0 {
        if forall|i: int| 0 <= i < w.len() ==> !is_white(#[trigger] w[i]) {
            lemma_word_len_unique(w, w.len() as int);
        }
        if forall|i: int| 0 <= i < w.len() ==> is_white(#[trigger] w[i]) {
            assert forall|i: int| 0 <= i < w.skip(1).len() implies is_white(
                #[trigger] w.skip(1)[i],
            ) by {
                assert(w.skip(1)[i] == w[i + 1]);
            }
            law_word_is_read(w.skip(1));
        }
    }
}

proof fn lemma_trim_end(s: Seq<char>, blanks: Seq<char>)
    requires
        forall|i: int| 0 <= i < blanks.len() ==> is_white(#[trigger] blanks[i]),
        s.len() > 0 ==> !is_white(s.last()),
    ensures
        trim_end(s + blanks) == s,
    decreases blanks.len(),
{
    if blanks.len() > 0 {
        assert(is_white(blanks[blanks.len() - 1]));
        assert((s + blanks).drop_last() == s + blanks.drop_last());
        assert forall|i: int| 0 <= i < blanks.drop_last().len() implies is_white(
            #[trigger] blanks.drop_last()[i],
        ) by {
            assert(blanks.drop_last()[i] == blanks[i]);
        }
        lemma_trim_end(s, blanks.drop_last());
    } else {
        assert(s + blanks == s);
    }
}

/// Trimming takes off the white space around a text that neither begins nor ends with
/// any, and nothing else.
pub proof fn law_trimming_takes_off_blanks(a: Seq<char>, s: Seq<char>, b: Seq<char>)
    requires
        forall|i: int| 0 <= i < a.len() ==> is_white(#[trigger] a[i]),
        forall|i: int| 0 <= i < b.len() ==> is_white(#[trigger] b[i]),
        s.len() > 0 ==> !is_white(s[0]) && !is_white(s.last()),
    ensures
        trim(a + s + b) == s,
        trim_start(a + s) == s,
{
    lemma_trim_start(a, s);
    if s.len() > 0 {
        assert(a + s + b == a + (s + b));
        assert((s + b)[0] == s[0]);
        lemma_trim_start(a, s + b);
        lemma_trim_end(s, b);
    } else {
        let blanks = a + b;
        assert(a + s + b == blanks + s);
        assert forall|i: int| 0 <= i < blanks.len() implies is_white(#[trigger] blanks[i]) by {
            if i < a.len() {
                assert(blanks[i] == a[i]);
            } else {
                assert(blanks[i] == b[i - a.len()]);
            }
        }
        lemma_trim_start(blanks, s);
    }
}

/// What follows a prefix is what was written behind it, and only a text that begins with
/// the prefix has it.
pub proof fn law_prefix_comes_off(s: Seq<char>, prefix: Seq<char>, rest: Seq<char>)
    ensures
        after_prefix(s, prefix) == Some(rest) <==> s == prefix + rest,
        after_prefix(s, prefix) is Some ==> s == prefix + after_prefix(s, prefix)->0,
{
    let whole = prefix + rest;
    assert(whole.subrange(0, prefix.len() as int) == prefix);
    assert(whole.skip(prefix.len() as int) == rest);
    if occurs_at(s, prefix, 0) {
        let t = s.skip(prefix.len() as int);
        assert forall|k: int| 0 <= k < s.len() implies s[k] == (prefix + t)[k] by {
            if k < prefix.len() {
                assert(s.subrange(0, prefix.len() as int)[k] == prefix[k]);
            }
        }
        assert(s =~= prefix + t);
    }
}

/// What follows the last `c` is what was written behind one behind which no other stands.
pub proof fn law_last_char_parts_text(head: Seq<char>, c: char, tail: Seq<char>)
    requires
        !tail.contains(c),
    ensures
        last_index(head + seq![c] + tail, c) == Some(head.len() as int),
        after_last(head + seq![c] + tail, c) == tail,
        last_index(tail, c) is None,
        after_last(tail, c) == tail,
{
    let s = head + seq![c] + tail;
    let n = head.len() as int;
    assert(s.skip(n + 1) == tail);
    lemma_last_index_unique(s, c, n);
    lemma_last_index(tail, c);
}

/// A text of whole lines followed by another text has the lines of the one and then the
/// lines of the other.
pub proof fn law_lines_of_parts(s: Seq<char>, t: Seq<char>)
    requires
        s.len() == 0 || s.last() == '\n',
    ensures
        lines(s + t) == lines(s) + lines(t),
    decreases s.len(),
{
    let all = s + t;
    if s.len() == 0 {
        assert(all == t);
        assert(lines(s) + lines(t) == lines(t));
    } else {
        lemma_line_len(s);
        let n = line_len(s) as int;
        if n == s.len() {
            assert(s.take(n)[s.len() - 1] == '\n');
        }
        assert(all.take(n) == s.take(n));
        lemma_line_len_unique(all, n);
        let rest = s.skip(n + 1);
        assert(all.skip(n + 1) == rest + t);
        law_lines_of_parts(rest, t);
        assert(lines(all) == lines(s) + lines(t));
    }
}

} // verus!
