//! Values in JSON text, found by their place in it: outside strings, at the top level.

use vstd::prelude::*;

use crate::text::{chars_of, find_char_in, matches_at, string_of, trimmed_start};

verus! {

/// A key between quotes.
pub open spec fn quoted(key: Seq<char>) -> Seq<char> {
    seq!['"'] + key + seq!['"']
}

/// Where a position of a record lies: whether inside a string and just behind a
/// backslash there, and inside how many braces and brackets. Those in strings do not
/// count, and one that closes nothing is passed over.
pub struct Nesting {
    pub in_string: bool,
    pub escaped: bool,
    pub braces: int,
    pub brackets: int,
}

/// Where the position behind `c` lies, given where the position before it does.
pub open spec fn nesting_behind(n: Nesting, c: char) -> Nesting {
    if n.in_string {
        Nesting {
            in_string: n.escaped || c != '"',
            escaped: !n.escaped && c == '\\',
            ..n
        }
    } else if c == '"' {
        Nesting { in_string: true, ..n }
    } else if c == '{' {
        Nesting { braces: n.braces + 1, ..n }
    } else if c == '}' && n.braces > 0 {
        Nesting { braces: n.braces - 1, ..n }
    } else if c == '[' {
        Nesting { brackets: n.brackets + 1, ..n }
    } else if c == ']' && n.brackets > 0 {
        Nesting { brackets: n.brackets - 1, ..n }
    } else {
        n
    }
}

/// Where position `i` of `text` lies.
pub open spec fn nesting(text: Seq<char>, i: int) -> Nesting
    decreases i,
{
    if i <= 0 {
        Nesting { in_string: false, escaped: false, braces: 0, brackets: 0 }
    } else {
        nesting_behind(nesting(text, i - 1), text[i - 1])
    }
}

/// Position `i` of `text` lies at the top level: outside every string, and not nested
/// in more than the one brace or bracket around the whole.
pub open spec fn at_top_level(text: Seq<char>, i: int) -> bool {
    let n = nesting(text, i);
    !n.in_string && n.braces + n.brackets <= 1
}

/// Where a position of a text lies, found by passing over the characters before it.
pub struct Level {
    pub in_string: bool,
    pub escaped: bool,
    pub braces: usize,
    pub brackets: usize,
}

impl View for Level {
    type V = Nesting;

    open spec fn view(&self) -> Nesting {
        Nesting {
            in_string: self.in_string,
            escaped: self.escaped,
            braces: self.braces as int,
            brackets: self.brackets as int,
        }
    }
}

impl Level {
    /// Where the start of a text lies.
    pub fn start() -> (r: Level)
        ensures
            forall|text: Seq<char>| r@ == #[trigger] nesting(text, 0),
            r.braces == 0,
            r.brackets == 0,
    {
        Level { in_string: false, escaped: false, braces: 0, brackets: 0 }
    }

    /// Pass over `c`.
    pub fn pass(&mut self, c: char)
        requires
            old(self).braces < usize::MAX,
            old(self).brackets < usize::MAX,
        ensures
            final(self)@ == nesting_behind(old(self)@, c),
            final(self).braces <= old(self).braces + 1,
            final(self).brackets <= old(self).brackets + 1,
    {
        if self.in_string {
            self.in_string = self.escaped || c != '"';
            self.escaped = !self.escaped && c == '\\';
        } else if c == '"' {
            self.in_string = true;
        } else if c == '{' {
            self.braces = self.braces + 1;
        } else if c == '}' && self.braces > 0 {
            self.braces = self.braces - 1;
        } else if c == '[' {
            self.brackets = self.brackets + 1;
        } else if c == ']' && self.brackets > 0 {
            self.brackets = self.brackets - 1;
        }
    }
}

/// What follows the colon that `s` begins with, blanks before it aside.
pub open spec fn after_colon(s: Seq<char>) -> Option<Seq<char>> {
    let t = crate::text::trim_start(s);
    if t.len() > 0 && t[0] == ':' {
        Some(t.skip(1))
    } else {
        None
    }
}

/// The text between the quotes that `s` begins with, blanks before them aside.
pub open spec fn leading_string(s: Seq<char>) -> Option<Seq<char>> {
    let t = crate::text::trim_start(s);
    if t.len() > 0 && t[0] == '"' {
        match crate::text::find_char(t.skip(1), '"') {
            None => None,
            Some(n) => Some(t.skip(1).take(n)),
        }
    } else {
        None
    }
}

/// What follows the quoted `key` at position `i`.
pub open spec fn after_key(text: Seq<char>, key: Seq<char>, i: int) -> Seq<char> {
    text.skip(i + quoted(key).len())
}

/// A top-level pair with this `key` begins at position `i`.
pub open spec fn is_pair_at(text: Seq<char>, key: Seq<char>, i: int) -> bool {
    &&& at_top_level(text, i)
    &&& crate::text::occurs_at(text, quoted(key), i)
    &&& after_colon(after_key(text, key, i)) is Some
}

/// The first top-level pair with this `key` begins at position `i`.
pub open spec fn is_first_pair(text: Seq<char>, key: Seq<char>, i: int) -> bool {
    &&& is_pair_at(text, key, i)
    &&& forall|j: int| 0 <= j < i ==> !#[trigger] is_pair_at(text, key, j)
}

/// The string value of the first top-level pair with this `key`.
pub open spec fn json_value(text: Seq<char>, key: Seq<char>) -> Option<Seq<char>> {
    if exists|i: int| is_first_pair(text, key, i) {
        let i = choose|i: int| is_first_pair(text, key, i);
        leading_string(after_colon(after_key(text, key, i))->0)
    } else {
        None
    }
}

/// There is only one first pair, and its value is the one that counts; without a pair
/// there is no value.
pub proof fn lemma_json_value(text: Seq<char>, key: Seq<char>)
    ensures
        forall|i: int| #[trigger]
            is_first_pair(text, key, i) ==> json_value(text, key) == leading_string(
                after_colon(after_key(text, key, i))->0,
            ),
        (forall|i: int| !#[trigger] is_pair_at(text, key, i)) ==> json_value(text, key) is None,
{
    if exists|i: int| is_first_pair(text, key, i) {
        let k = choose|k: int| is_first_pair(text, key, k);
        assert(is_pair_at(text, key, k));
        assert forall|i: int| #[trigger] is_first_pair(text, key, i) implies i == k by {
            assert(is_pair_at(text, key, i));
        }
    }
}

/// What follows the colon that `s` begins with, blanks before it aside.
fn behind_colon<'a>(s: &'a [char]) -> (r: Option<&'a [char]>)
    ensures
        r is Some <==> after_colon(s@) is Some,
        r matches Some(t) ==> after_colon(s@) == Some(t@),
{
    let t: &'a [char] = trimmed_start(s);
    if t.len() > 0 && t[0] == ':' {
        let rest: &'a [char] = &t[1..t.len()];
        assert(rest@ == t@.skip(1));
        Some(rest)
    } else {
        None
    }
}

/// The text between the quotes that `s` begins with, blanks before them aside.
fn string_at_start(s: &[char]) -> (r: Option<String>)
    ensures
        r is Some <==> leading_string(s@) is Some,
        r matches Some(v) ==> leading_string(s@) == Some(v@),
{
    let t: &[char] = trimmed_start(s);
    if t.len() > 0 && t[0] == '"' {
        let rest: &[char] = &t[1..t.len()];
        assert(rest@ == t@.skip(1));
        proof {
            crate::text::lemma_find_char(rest@, '"');
        }
        match find_char_in(rest, '"') {
            None => None,
            Some(n) => {
                let v: &[char] = &rest[0..n];
                assert(v@ == rest@.take(n as int));
                Some(string_of(v))
            },
        }
    } else {
        None
    }
}

/// The characters of `key` between quotes.
fn quoted_of(key: &str) -> (r: Vec<char>)
    ensures
        r@ == quoted(key@),
{
    let inner: Vec<char> = chars_of(key);
    let mut out: Vec<char> = Vec::new();
    out.push('"');
    let mut k: usize = 0;
    while k < inner.len()
        invariant
            k <= inner@.len(),
            out@ == seq!['"'] + inner@.take(k as int),
        decreases inner@.len() - k,
    {
        out.push(inner[k]);
        k = k + 1;
        assert(inner@.take(k as int) == inner@.take(k - 1).push(inner@[k - 1]));
    }
    out.push('"');
    assert(inner@.take(k as int) == inner@);
    out
}

/// The string value of the first top-level pair with this `key` in `s`.
pub fn value_of(s: &[char], key: &str) -> (r: Option<String>)
    ensures
        r is Some <==> json_value(s@, key@) is Some,
        r matches Some(v) ==> json_value(s@, key@) == Some(v@),
{
    let want: Vec<char> = quoted_of(key);
    let end: usize = s.len();
    let mut level: Level = Level::start();
    let mut i: usize = 0;
    proof {
        lemma_json_value(s@, key@);
    }
    while i < end
        invariant
            end == s@.len(),
            want@ == quoted(key@),
            i <= end,
            level.braces <= i,
            level.brackets <= i,
            level@ == nesting(s@, i as int),
            forall|j: int| 0 <= j < i ==> !#[trigger] is_pair_at(s@, key@, j),
            forall|j: int| #[trigger]
                is_first_pair(s@, key@, j) ==> json_value(s@, key@) == leading_string(
                    after_colon(after_key(s@, key@, j))->0,
                ),
        decreases end - i,
    {
        let top: bool = !level.in_string && level.braces <= 1 && level.brackets <= 1
            - level.braces;
        assert(top == at_top_level(s@, i as int));
        if top && want.len() <= end - i && matches_at(s, want.as_slice(), i) {
            let rest: &[char] = &s[i + want.len()..end];
            assert(rest@ == after_key(s@, key@, i as int));
            match behind_colon(rest) {
                Some(value) => {
                    assert(is_first_pair(s@, key@, i as int));
                    return string_at_start(value);
                },
                None => {},
            }
        }
        level.pass(s[i]);
        i = i + 1;
    }
    assert forall|j: int| !#[trigger] is_pair_at(s@, key@, j) by {
        if is_pair_at(s@, key@, j) {
            assert(j < end);
        }
    }
    proof {
        lemma_json_value(s@, key@);
    }
    None
}

/// Extract the string value of a top-level `"key": "value"` pair.
///
/// The first such pair counts. Its value ends at the next quote: it is taken to be
/// free of escapes, as the UUIDs and paths are that the assistant writes. A value that
/// is not a string is none.
pub fn json_str(text: &str, key: &str) -> (r: Option<String>)
    ensures
        r is Some <==> json_value(text@, key@) is Some,
        r matches Some(v) ==> json_value(text@, key@) == Some(v@),
{
    let chars: Vec<char> = chars_of(text);
    value_of(chars.as_slice(), key)
}

// ---------------------------------------------------------------------------
// Whole objects
// ---------------------------------------------------------------------------

/// `text` begins with a brace that no character but the last one closes. A text that
/// was cut off an object at its start does not: it closes what it did not open.
pub open spec fn opens_object(text: Seq<char>) -> bool {
    &&& text.len() > 0
    &&& text[0] == '{'
    &&& forall|i: int| 0 < i < text.len() ==> (#[trigger] nesting(text, i)).braces > 0
}

/// `text` is an object from its opening brace to its closing one.
pub open spec fn is_object(text: Seq<char>) -> bool {
    opens_object(text) && nesting(text, text.len() as int).braces == 0
}

/// How much of an object a text is.
#[derive(Debug, Clone, Copy, PartialEq, Eq, Structural)]
pub enum Extent {
    /// The text does not begin an object, or goes on behind it.
    Other,
    /// The text begins an object that it does not end.
    Opened,
    /// The text is an object.
    Whole,
}

/// How much of an object `s` is.
pub fn extent_of(s: &[char]) -> (r: Extent)
    ensures
        r is Other <==> !opens_object(s@),
        r is Whole <==> is_object(s@),
{
    let end: usize = s.len();
    if end == 0 || s[0] != '{' {
        return Extent::Other;
    }
    let mut level: Level = Level::start();
    let mut i: usize = 0;
    while i < end
        invariant
            end == s@.len(),
            end > 0,
            s@[0] == '{',
            i <= end,
            level.braces <= i,
            level.brackets <= i,
            level@ == nesting(s@, i as int),
            forall|j: int| 0 < j < i ==> (#[trigger] nesting(s@, j)).braces > 0,
        decreases end - i,
    {
        if i > 0 && level.braces == 0 {
            assert(!(nesting(s@, i as int).braces > 0));
            return Extent::Other;
        }
        level.pass(s[i]);
        i = i + 1;
    }
    assert(opens_object(s@));
    if level.braces == 0 {
        Extent::Whole
    } else {
        Extent::Opened
    }
}

// ---------------------------------------------------------------------------
// Laws
// ---------------------------------------------------------------------------

proof fn lemma_nesting_prefix(text: Seq<char>, other: Seq<char>, i: int)
    requires
        i <= text.len(),
        i <= other.len(),
        forall|j: int| 0 <= j < i ==> text[j] == other[j],
    ensures
        nesting(text, i) == nesting(other, i),
    decreases i,
{
    if i > 0 {
        lemma_nesting_prefix(text, other, i - 1);
    }
}

/// A record that holds the pair `"key": "value"` at its top level, with nothing but
/// blanks around the colon, gives back that value, if no earlier pair at the top level
/// has that key.
pub proof fn law_written_pair_reads_back(
    before: Seq<char>,
    key: Seq<char>,
    gap: Seq<char>,
    space: Seq<char>,
    value: Seq<char>,
    after: Seq<char>,
)
    requires
        at_top_level(before, before.len() as int),
        forall|i: int| 0 <= i < gap.len() ==> crate::text::is_white(#[trigger] gap[i]),
        forall|i: int| 0 <= i < space.len() ==> crate::text::is_white(#[trigger] space[i]),
        !value.contains('"'),
        forall|j: int|
            0 <= j < before.len() ==> !#[trigger] is_pair_at(
                before + quoted(key) + gap + seq![':'] + space + quoted(value) + after,
                key,
                j,
            ),
    ensures
        json_value(
            before + quoted(key) + gap + seq![':'] + space + quoted(value) + after,
            key,
        ) == Some(value),
{
    let text = before + quoted(key) + gap + seq![':'] + space + quoted(value) + after;
    let i = before.len() as int;
    lemma_nesting_prefix(text, before, i);
    assert(text.subrange(i, i + quoted(key).len()) == quoted(key));
    let tail = space + quoted(value) + after;
    assert(after_key(text, key, i) == gap + (seq![':'] + tail));
    crate::text::lemma_trim_start(gap, seq![':'] + tail);
    assert((seq![':'] + tail).skip(1) == tail);
    assert(is_first_pair(text, key, i));
    let opened = quoted(value) + after;
    assert(tail == space + opened);
    crate::text::lemma_trim_start(space, opened);
    let rest = opened.skip(1);
    let n = value.len() as int;
    assert(rest.take(n) == value);
    assert(rest[n] == '"');
    crate::text::lemma_find_char(rest, '"');
    lemma_json_value(text, key);
}

/// Only pairs at the top level count: what stands in a string, in a nested object or
/// in an array gives no value, whatever it looks like.
pub proof fn law_nested_pairs_do_not_count(text: Seq<char>, key: Seq<char>)
    requires
        forall|i: int| #[trigger]
            crate::text::occurs_at(text, quoted(key), i) ==> !at_top_level(text, i),
    ensures
        json_value(text, key) is None,
{
    lemma_json_value(text, key);
    assert forall|i: int| !#[trigger] is_pair_at(text, key, i) by {
        if is_pair_at(text, key, i) {
            assert(crate::text::occurs_at(text, quoted(key), i));
        }
    }
}

/// A value never holds a quote.
pub proof fn law_value_has_no_quote(text: Seq<char>, key: Seq<char>)
    ensures
        json_value(text, key) matches Some(v) ==> !v.contains('"'),
{
    if exists|i: int| is_first_pair(text, key, i) {
        let i = choose|i: int| is_first_pair(text, key, i);
        let s = crate::text::trim_start(after_colon(after_key(text, key, i))->0);
        crate::text::lemma_find_char(s.skip(1), '"');
    }
}

proof fn lemma_flat(text: Seq<char>, i: int)
    requires
        1 <= i < text.len(),
        text[0] == '{',
        forall|j: int| 1 <= j < i ==> #[trigger] text[j] != '{' && text[j] != '}',
    ensures
        nesting(text, i).braces == 1,
    decreases i,
{
    if i > 1 {
        lemma_flat(text, i - 1);
    } else {
        assert(nesting(text, 0).braces == 0);
    }
}

/// An object that holds no other braces opens an object, and is a whole one where its
/// closing brace stands outside strings.
pub proof fn law_flat_object_is_whole(body: Seq<char>)
    requires
        !body.contains('{'),
        !body.contains('}'),
    ensures
        opens_object(seq!['{'] + body + seq!['}']),
        !nesting(seq!['{'] + body + seq!['}'], 1 + body.len() as int).in_string ==> is_object(
            seq!['{'] + body + seq!['}'],
        ),
{
    let text = seq!['{'] + body + seq!['}'];
    assert forall|j: int| 1 <= j <= body.len() implies #[trigger] text[j] != '{' && text[j]
        != '}' by {
        assert(text[j] == body[j - 1]);
    }
    assert forall|i: int| 0 < i < text.len() implies (#[trigger] nesting(text, i)).braces > 0 by {
        lemma_flat(text, i);
    }
    lemma_flat(text, 1 + body.len() as int);
}

proof fn lemma_outside_is_unescaped(text: Seq<char>, i: int)
    ensures
        !nesting(text, i).in_string ==> !nesting(text, i).escaped,
        nesting(text, i).braces >= 0,
        nesting(text, i).brackets >= 0,
    decreases i,
{
    if i > 0 {
        lemma_outside_is_unescaped(text, i - 1);
    }
}

/// Where a position lies depends on nothing but the text before it, and a text begins
/// outside everything.
pub proof fn law_nesting_is_that_of_the_text_before(before: Seq<char>, after: Seq<char>)
    ensures
        nesting(before + after, before.len() as int) == nesting(before, before.len() as int),
        nesting(before, 0) == (Nesting {
            in_string: false,
            escaped: false,
            braces: 0,
            brackets: 0,
        }),
{
    lemma_nesting_prefix(before + after, before, before.len() as int);
}

/// Outside strings, characters other than quotes, braces and brackets change nothing, at
/// whatever length; an opening brace or bracket makes the text behind it one deeper, and
/// a closing one takes that back.
pub proof fn law_braces_and_brackets_nest(before: Seq<char>, plain: Seq<char>)
    requires
        !nesting(before, before.len() as int).in_string,
        !plain.contains('"'),
        !plain.contains('{'),
        !plain.contains('}'),
        !plain.contains('['),
        !plain.contains(']'),
    ensures
        ({
            let n = nesting(before, before.len() as int);
            let end = before.len() as int + 1;
            &&& nesting(before + plain, (before + plain).len() as int) == n
            &&& nesting(before.push('{'), end) == (Nesting { braces: n.braces + 1, ..n })
            &&& nesting(before.push('['), end) == (Nesting { brackets: n.brackets + 1, ..n })
            &&& n.braces > 0 ==> nesting(before.push('}'), end) == (Nesting {
                braces: n.braces - 1,
                ..n
            })
            &&& n.brackets > 0 ==> nesting(before.push(']'), end) == (Nesting {
                brackets: n.brackets - 1,
                ..n
            })
            &&& n.braces == 0 ==> nesting(before.push('}'), end) == n
            &&& n.brackets == 0 ==> nesting(before.push(']'), end) == n
            &&& n.braces >= 0
            &&& n.brackets >= 0
        }),
    decreases plain.len(),
{
    let len = before.len() as int;
    lemma_outside_is_unescaped(before, len);
    lemma_nesting_prefix(before.push('{'), before, len);
    lemma_nesting_prefix(before.push('}'), before, len);
    lemma_nesting_prefix(before.push('['), before, len);
    lemma_nesting_prefix(before.push(']'), before, len);
    if plain.len() == 0 {
        assert(before + plain == before);
    } else {
        let c = plain.last();
        let init = plain.drop_last();
        assert(plain.contains(c));
        assert forall|d: char| !plain.contains(d) implies !#[trigger] init.contains(d) by {
            if init.contains(d) {
                let k = choose|k: int| 0 <= k < init.len() && init[k] == d;
                assert(plain[k] == d);
            }
        }
        law_braces_and_brackets_nest(before, init);
        lemma_nesting_prefix(before + plain, before + init, (before + init).len() as int);
    }
}

/// A string is passed over as a whole: text in quotes does not nest, whatever it holds,
/// and behind it everything is as before it. A backslash in a string takes the meaning
/// of the character behind it away.
pub proof fn law_strings_are_passed_over(before: Seq<char>, body: Seq<char>, c: char)
    requires
        !body.contains('"'),
        !body.contains('\\'),
    ensures
        ({
            let n = nesting(before, before.len() as int);
            let opened = before + seq!['"'] + body;
            let closed = before + seq!['"'] + body + seq!['"'];
            &&& !n.in_string ==> nesting(opened, opened.len() as int) == (Nesting {
                in_string: true,
                ..n
            })
            &&& !n.in_string ==> nesting(closed, closed.len() as int) == n
            &&& n.in_string && !n.escaped ==> {
                &&& nesting(before + body, (before + body).len() as int) == n
                &&& nesting(
                    before.push('\\').push(c),
                    before.len() as int + 2,
                ) == n
                &&& nesting(before.push('"'), before.len() as int + 1) == (Nesting {
                    in_string: false,
                    ..n
                })
            }
        }),
{
    let len = before.len() as int;
    lemma_outside_is_unescaped(before, len);
    let quote = before.push('"');
    lemma_nesting_prefix(quote, before, len);
    assert(before + seq!['"'] == quote);
    if !nesting(before, len).in_string {
        lemma_in_string(quote, body);
        let opened = quote + body;
        lemma_nesting_prefix(opened + seq!['"'], opened, opened.len() as int);
    } else if !nesting(before, len).escaped {
        lemma_in_string(before, body);
        let slash = before.push('\\');
        lemma_nesting_prefix(slash, before, len);
        lemma_nesting_prefix(slash.push(c), slash, len + 1);
    }
}

proof fn lemma_in_string(before: Seq<char>, body: Seq<char>)
    requires
        nesting(before, before.len() as int).in_string,
        !nesting(before, before.len() as int).escaped,
        !body.contains('"'),
        !body.contains('\\'),
    ensures
        nesting(before + body, (before + body).len() as int) == nesting(
            before,
            before.len() as int,
        ),
    decreases body.len(),
{
    if body.len() == 0 {
        assert(before + body == before);
    } else {
        let init = body.drop_last();
        assert(body.contains(body.last()));
        assert forall|d: char| !body.contains(d) implies !#[trigger] init.contains(d) by {
            if init.contains(d) {
                let k = choose|k: int| 0 <= k < init.len() && init[k] == d;
                assert(body[k] == d);
            }
        }
        lemma_in_string(before, init);
        lemma_nesting_prefix(before + body, before + init, (before + init).len() as int);
    }
}

/// A position lies at the top level wherever it is outside strings and nested in no more
/// than one brace or bracket, however far from the start it is, and nowhere else.
pub proof fn law_top_level_has_no_end(text: Seq<char>, i: int)
    ensures
        at_top_level(text, i) <==> !nesting(text, i).in_string && nesting(text, i).braces + nesting(
            text,
            i,
        ).brackets <= 1,
{
}

/// The value of a pair is found wherever the pair stands, if it stands outside strings,
/// in no more than one brace or bracket, and no pair with its key stands so before it:
/// the quoted key, a colon with blanks around it, and the quoted value, whatever comes
/// before, at any length, and whatever comes behind.
pub proof fn law_pair_is_found_wherever_it_stands(
    before: Seq<char>,
    key: Seq<char>,
    gap: Seq<char>,
    space: Seq<char>,
    value: Seq<char>,
    after: Seq<char>,
)
    requires
        !nesting(before, before.len() as int).in_string,
        nesting(before, before.len() as int).braces + nesting(
            before,
            before.len() as int,
        ).brackets <= 1,
        forall|i: int| 0 <= i < gap.len() ==> crate::text::is_white(#[trigger] gap[i]),
        forall|i: int| 0 <= i < space.len() ==> crate::text::is_white(#[trigger] space[i]),
        !value.contains('"'),
        ({
            let text = before + (seq!['"'] + key + seq!['"']) + gap + seq![':'] + space + (
            seq!['"'] + value + seq!['"']) + after;
            forall|j: int|
                0 <= j < before.len() ==> {
                    ||| (#[trigger] nesting(text, j)).in_string
                    ||| nesting(text, j).braces + nesting(text, j).brackets > 1
                    ||| text.subrange(j, j + key.len() + 2) != seq!['"'] + key + seq!['"']
                    ||| crate::text::trim_start(text.skip(j + key.len() + 2)).len() == 0
                    ||| crate::text::trim_start(text.skip(j + key.len() + 2))[0] != ':'
                }
        }),
    ensures
        json_value(
            before + (seq!['"'] + key + seq!['"']) + gap + seq![':'] + space + (seq!['"'] + value
                + seq!['"']) + after,
            key,
        ) == Some(value),
{
    let text = before + quoted(key) + gap + seq![':'] + space + quoted(value) + after;
    assert(quoted(key).len() == key.len() + 2);
    assert forall|j: int| 0 <= j < before.len() implies !#[trigger] is_pair_at(text, key, j) by {
        if is_pair_at(text, key, j) {
            assert(!nesting(text, j).in_string);
        }
    }
    law_written_pair_reads_back(before, key, gap, space, value, after);
}

/// A key that nothing follows as a string has no value: where the first pair with that
/// key has something else behind its colon, or a string that does not end, there is none.
pub proof fn law_pair_without_a_string_has_no_value(
    before: Seq<char>,
    key: Seq<char>,
    gap: Seq<char>,
    space: Seq<char>,
    rest: Seq<char>,
)
    requires
        at_top_level(before, before.len() as int),
        forall|i: int| 0 <= i < gap.len() ==> crate::text::is_white(#[trigger] gap[i]),
        forall|i: int| 0 <= i < space.len() ==> crate::text::is_white(#[trigger] space[i]),
        rest.len() > 0 ==> !crate::text::is_white(rest[0]) && (rest[0] != '"' || !rest.skip(
            1,
        ).contains('"')),
        forall|j: int|
            0 <= j < before.len() ==> !#[trigger] is_pair_at(
                before + quoted(key) + gap + seq![':'] + space + rest,
                key,
                j,
            ),
    ensures
        json_value(before + quoted(key) + gap + seq![':'] + space + rest, key) is None,
        quoted(key) == seq!['"'] + key + seq!['"'],
{
    let text = before + quoted(key) + gap + seq![':'] + space + rest;
    let i = before.len() as int;
    lemma_nesting_prefix(text, before, i);
    assert(text.subrange(i, i + quoted(key).len()) == quoted(key));
    let tail = space + rest;
    assert(after_key(text, key, i) == gap + (seq![':'] + tail));
    crate::text::lemma_trim_start(gap, seq![':'] + tail);
    assert((seq![':'] + tail).skip(1) == tail);
    assert(is_first_pair(text, key, i));
    crate::text::lemma_trim_start(space, rest);
    if rest.len() > 0 {
        crate::text::lemma_find_char(rest.skip(1), '"');
    }
    lemma_json_value(text, key);
}

/// A value that is found was written: the text holds the quoted key outside strings and
/// in no more than one brace or bracket, then a colon, then the quoted value, with
/// nothing but blanks between them.
pub proof fn law_found_value_was_written(text: Seq<char>, key: Seq<char>)
    ensures
        json_value(text, key) matches Some(value) ==> exists|i: int|
            {
                let behind_key = crate::text::trim_start(text.skip(i + key.len() + 2));
                let behind_colon = crate::text::trim_start(behind_key.skip(1));
                &&& 0 <= i
                &&& !(#[trigger] nesting(text, i)).in_string
                &&& nesting(text, i).braces + nesting(text, i).brackets <= 1
                &&& i + key.len() + 2 <= text.len()
                &&& text.subrange(i, i + key.len() + 2) == seq!['"'] + key + seq!['"']
                &&& behind_key.len() > 0 && behind_key[0] == ':'
                &&& behind_colon.len() >= value.len() + 2
                &&& behind_colon.take(value.len() as int + 2) == seq!['"'] + value + seq!['"']
            },
{
    if let Some(value) = json_value(text, key) {
        let i = choose|i: int| is_first_pair(text, key, i);
        assert(is_pair_at(text, key, i));
        assert(quoted(key).len() == key.len() + 2);
        let behind_key = crate::text::trim_start(text.skip(i + key.len() + 2));
        let behind_colon = crate::text::trim_start(behind_key.skip(1));
        let rest = behind_colon.skip(1);
        crate::text::lemma_find_char(rest, '"');
        let n = crate::text::find_char(rest, '"')->0;
        assert(value == rest.take(n));
        assert(behind_colon.take(n + 2) == seq!['"'] + value + seq!['"']) by {
            let a = behind_colon.take(n + 2);
            let b = seq!['"'] + value + seq!['"'];
            assert forall|k: int| 0 <= k < n + 2 implies a[k] == b[k] by {
                if 1 <= k {
                    assert(a[k] == rest[k - 1]);
                }
            }
            assert(a =~= b);
        }
        assert(!nesting(text, i).in_string);
    }
}

/// A text is or begins an object exactly if it begins with a brace that is not closed
/// before its last character, and it is a whole one exactly if that character closes it.
pub proof fn law_object_closes_at_its_end(text: Seq<char>)
    ensures
        opens_object(text) ==> text.len() > 0 && text[0] == '{',
        forall|i: int|
            0 < i < text.len() && (#[trigger] nesting(text, i)).braces == 0 ==> !opens_object(text),
        text.len() > 0 && text[0] == '{' && (forall|i: int|
            0 < i < text.len() ==> (#[trigger] nesting(text, i)).braces > 0) ==> {
            &&& opens_object(text)
            &&& is_object(text) <==> nesting(text, text.len() as int).braces == 0
        },
        is_object(text) ==> opens_object(text),
{
}

} // verus!
