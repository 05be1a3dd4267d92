//! Decimal numbers in text.

use vstd::prelude::*;

use crate::text::string_of;

verus! {

/// A decimal digit.
pub open spec fn is_digit(c: char) -> bool {
    '0' <= c <= '9'
}

/// Decimal digits alone.
pub open spec fn all_digits(s: Seq<char>) -> bool {
    forall|i: int| 0 <= i < s.len() ==> is_digit(#[trigger] s[i])
}

/// The number that a digit stands for.
pub open spec fn digit_value(c: char) -> int {
    c as int - '0' as int
}

/// The number that a row of digits stands for.
pub open spec fn value(s: Seq<char>) -> int
    decreases s.len(),
{
    if s.len() == 0 {
        0
    } else {
        value(s.drop_last()) * 10 + digit_value(s.last())
    }
}

/// `s` without its sign. A minus sign counts as one only if `signed`.
pub open spec fn unsigned_part(s: Seq<char>, signed: bool) -> Seq<char> {
    if s.len() > 0 && (s[0] == '+' || (signed && s[0] == '-')) {
        s.skip(1)
    } else {
        s
    }
}

/// The integer between `lo` and `hi` that `s` writes: an optional sign, the minus
/// only where `lo` is negative, then one or more digits, and nothing else.
pub open spec fn parse_int(s: Seq<char>, lo: int, hi: int) -> Option<int> {
    let digits = unsigned_part(s, lo < 0);
    if digits.len() == 0 || !all_digits(digits) {
        None
    } else {
        let v = if lo < 0 && s[0] == '-' {
            -value(digits)
        } else {
            value(digits)
        };
        if lo <= v <= hi {
            Some(v)
        } else {
            None
        }
    }
}

/// Digits stand for a natural number, and more digits for no smaller one.
pub proof fn lemma_value_grows(s: Seq<char>, k: int)
    requires
        all_digits(s),
        0 <= k <= s.len(),
    ensures
        0 <= value(s.take(k)) <= value(s),
    decreases s.len(),
{
    if k == s.len() {
        assert(s.take(k) == s);
        if k > 0 {
            assert(all_digits(s.drop_last()));
            lemma_value_grows(s.drop_last(), k - 1);
            assert(s.drop_last().take(k - 1) == s.drop_last());
            assert(is_digit(s[k - 1]));
        }
    } else {
        assert(all_digits(s.drop_last()));
        lemma_value_grows(s.drop_last(), k);
        assert(s.drop_last().take(k) == s.take(k));
        lemma_value_grows(s.drop_last(), s.len() - 1);
        assert(s.drop_last().take(s.len() - 1) == s.drop_last());
        assert(is_digit(s.last()));
    }
}

/// Whether `c` is a decimal digit.
pub fn is_ascii_digit(c: char) -> (r: bool)
    ensures
        r == is_digit(c),
{
    '0' <= c && c <= '9'
}

/// Whether `s` holds decimal digits alone.
pub fn is_all_digits(s: &[char]) -> (r: bool)
    ensures
        r == all_digits(s@),
{
    let mut i: usize = 0;
    while i < s.len()
        invariant
            i <= s@.len(),
            forall|j: int| 0 <= j < i ==> is_digit(#[trigger] s@[j]),
        decreases s@.len() - i,
    {
        if !is_ascii_digit(s[i]) {
            return false;
        }
        i = i + 1;
    }
    true
}

/// The number that a row of digits stands for, if it fits.
fn digits_value(s: &[char]) -> (r: Option<u64>)
    requires
        all_digits(s@),
    ensures
        r == (if value(s@) <= u64::MAX {
            Some(value(s@) as u64)
        } else {
            None
        }),
{
    let mut sum: u64 = 0;
    let mut i: usize = 0;
    while i < s.len()
        invariant
            i <= s@.len(),
            all_digits(s@),
            sum == value(s@.take(i as int)),
        decreases s@.len() - i,
    {
        assert(s@.take(i + 1).drop_last() == s@.take(i as int));
        assert(is_digit(s@[i as int]));
        let d: u64 = (s[i] as u32 - '0' as u32) as u64;
        proof {
            lemma_value_grows(s@, i + 1);
        }
        if sum > (u64::MAX - d) / 10 {
            assert(value(s@.take(i + 1)) == sum * 10 + d);
            return None;
        }
        sum = sum * 10 + d;
        i = i + 1;
    }
    assert(s@.take(i as int) == s@);
    Some(sum)
}

/// The unsigned integer that `s` writes.
pub fn parse_u64(s: &[char]) -> (r: Option<u64>)
    ensures
        match r {
            Some(v) => parse_int(s@, 0, u64::MAX as int) == Some(v as int),
            None => parse_int(s@, 0, u64::MAX as int) is None,
        },
{
    let signed: bool = s.len() > 0 && s[0] == '+';
    let from: usize = if signed {
        1
    } else {
        0
    };
    let digits: &[char] = &s[from..s.len()];
    assert(digits@ == unsigned_part(s@, false));
    if digits.len() == 0 || !is_all_digits(digits) {
        return None;
    }
    proof {
        lemma_value_grows(digits@, 0);
    }
    digits_value(digits)
}

/// The signed integer that `s` writes.
pub fn parse_i32(s: &[char]) -> (r: Option<i32>)
    ensures
        match r {
            Some(v) => parse_int(s@, i32::MIN as int, i32::MAX as int) == Some(v as int),
            None => parse_int(s@, i32::MIN as int, i32::MAX as int) is None,
        },
{
    let minus: bool = s.len() > 0 && s[0] == '-';
    let from: usize = if minus || (s.len() > 0 && s[0] == '+') {
        1
    } else {
        0
    };
    let digits: &[char] = &s[from..s.len()];
    assert(digits@ == unsigned_part(s@, true));
    if digits.len() == 0 || !is_all_digits(digits) {
        return None;
    }
    proof {
        lemma_value_grows(digits@, 0);
    }
    match digits_value(digits) {
        None => None,
        Some(v) => if minus {
            if v <= 0x8000_0000 {
                Some((-(v as i64)) as i32)
            } else {
                None
            }
        } else if v <= 0x7fff_ffff {
            Some(v as i32)
        } else {
            None
        },
    }
}

// ---------------------------------------------------------------------------
// Writing
// ---------------------------------------------------------------------------

/// The digit for a number below ten.
pub open spec fn digit_char(d: int) -> char {
    ('0' as int + d) as char
}

/// `n` in decimal, without leading zeros.
pub open spec fn decimal(n: nat) -> Seq<char>
    decreases n,
{
    if n < 10 {
        seq![digit_char(n as int)]
    } else {
        decimal(n / 10).push(digit_char((n % 10) as int))
    }
}

/// `n` zeros.
pub open spec fn zeros(n: int) -> Seq<char> {
    Seq::new(
        if n > 0 {
            n as nat
        } else {
            0
        },
        |i: int| '0',
    )
}

/// `n` in decimal, filled up with zeros behind the sign to `width` characters.
pub open spec fn padded(n: int, width: int) -> Seq<char> {
    if n < 0 {
        let digits = decimal((-n) as nat);
        seq!['-'] + zeros(width - 1 - digits.len()) + digits
    } else {
        let digits = decimal(n as nat);
        zeros(width - digits.len()) + digits
    }
}

/// The decimal digits of `n`.
fn decimal_chars(n: u64) -> (r: Vec<char>)
    ensures
        r@ == decimal(n as nat),
    decreases n,
{
    if n < 10 {
        let c: char = (48u8 + n as u8) as char;
        vec![c]
    } else {
        let mut head: Vec<char> = decimal_chars(n / 10);
        let c: char = (48u8 + (n % 10) as u8) as char;
        head.push(c);
        head
    }
}

/// `n` in decimal.
pub fn decimal_of(n: u64) -> (r: String)
    ensures
        r@ == decimal(n as nat),
{
    let digits: Vec<char> = decimal_chars(n);
    string_of(digits.as_slice())
}

/// `n` in decimal, filled up with zeros behind the sign to `width` characters.
pub fn padded_of(n: i64, width: usize) -> (r: String)
    ensures
        r@ == padded(n as int, width as int),
{
    let mut out: String = String::new();
    let digits: Vec<char> = if n < 0 {
        decimal_chars((-(n as i128)) as u64)
    } else {
        decimal_chars(n as u64)
    };
    let taken: usize = if n < 0 {
        out.push('-');
        1
    } else {
        0
    };
    let ghost sign = out@;
    let ghost fill = width - taken - digits@.len();
    let mut k: usize = taken;
    assert(out@ == sign + zeros(0));
    while k < width && width - k > digits.len()
        invariant
            taken <= 1,
            taken <= k,
            k <= width || k == taken,
            fill == width - taken - digits@.len(),
            k > taken ==> k - taken <= fill,
            out@ == sign + zeros(k - taken),
        decreases width - k,
    {
        out.push('0');
        assert(zeros(k - taken).push('0') == zeros(k - taken + 1));
        assert(sign + zeros(k - taken + 1) == (sign + zeros(k - taken)).push('0'));
        k = k + 1;
    }
    assert(zeros(k - taken) == zeros(fill));
    let ghost body = out@;
    let mut i: usize = 0;
    assert(body == body + digits@.take(0));
    while i < digits.len()
        invariant
            i <= digits@.len(),
            out@ == body + digits@.take(i as int),
        decreases digits@.len() - i,
    {
        out.push(digits[i]);
        assert(digits@.take(i as int).push(digits@[i as int]) == digits@.take(i + 1));
        assert(body + digits@.take(i + 1) == (body + digits@.take(i as int)).push(
            digits@[i as int],
        ));
        i = i + 1;
    }
    assert(digits@.take(i as int) == digits@);
    assert(out@ == padded(n as int, width as int));
    out
}

// ---------------------------------------------------------------------------
// Laws
// ---------------------------------------------------------------------------

proof fn lemma_decimal(n: nat)
    ensures
        decimal(n).len() > 0,
        all_digits(decimal(n)),
        value(decimal(n)) == n,
    decreases n,
{
    if n < 10 {
        let s = seq![digit_char(n as int)];
        assert(s.drop_last() == Seq::<char>::empty());
        assert(value(s.drop_last()) == 0);
    } else {
        lemma_decimal(n / 10);
        let head = decimal(n / 10);
        let s = decimal(n);
        assert(s.drop_last() == head);
        assert forall|i: int| 0 <= i < s.len() implies is_digit(#[trigger] s[i]) by {
            if i < head.len() {
                assert(is_digit(head[i]));
            }
        }
    }
}

/// A row of up to four digits stands for a number below ten thousand.
pub proof fn lemma_short_value(s: Seq<char>)
    requires
        all_digits(s),
        s.len() <= 4,
    ensures
        0 <= value(s) <= 9999,
{
    lemma_value_grows(s, 0);
    reveal_with_fuel(value, 5);
    if s.len() > 0 {
        assert(is_digit(s[s.len() - 1]));
    }
    if s.len() > 1 {
        assert(is_digit(s[s.len() - 2]));
    }
    if s.len() > 2 {
        assert(is_digit(s[s.len() - 3]));
    }
    if s.len() > 3 {
        assert(is_digit(s[s.len() - 4]));
    }
}

proof fn lemma_leading_zeros(n: int, s: Seq<char>)
    requires
        0 <= n,
    ensures
        value(zeros(n) + s) == value(s),
        all_digits(s) ==> all_digits(zeros(n) + s),
    decreases s.len(), n,
{
    let t = zeros(n) + s;
    if s.len() > 0 {
        assert(t.drop_last() == zeros(n) + s.drop_last());
        lemma_leading_zeros(n, s.drop_last());
    } else if n > 0 {
        assert(t.drop_last() == zeros(n - 1) + s);
        lemma_leading_zeros(n - 1, s);
    }
    if all_digits(s) {
        assert forall|i: int| 0 <= i < t.len() implies is_digit(#[trigger] t[i]) by {
            if i >= n {
                assert(is_digit(s[i - n]));
            }
        }
    }
}

proof fn lemma_decimal_len(n: nat)
    ensures
        n < 100 ==> decimal(n).len() <= 2,
        n < 10000 ==> decimal(n).len() <= 4,
{
    reveal_with_fuel(decimal, 5);
}

/// A number that is filled up with zeros has the width asked for, where the number
/// itself needs no more, and reads back as the same number.
pub proof fn law_padded_reads_back(n: int, width: int, lo: int, hi: int)
    requires
        0 <= n <= hi,
        lo <= 0,
        (width == 2 && n < 100) || (width == 4 && n < 10000),
    ensures
        padded(n, width).len() == width,
        all_digits(padded(n, width)),
        parse_int(padded(n, width), lo, hi) == Some(n),
{
    lemma_decimal(n as nat);
    lemma_decimal_len(n as nat);
    let digits = decimal(n as nat);
    lemma_leading_zeros(width - digits.len(), digits);
    assert(is_digit(padded(n, width)[0]));
}

/// What is written in decimal reads back as the same number.
pub proof fn law_decimal_reads_back(n: nat, hi: int)
    requires
        n <= hi,
    ensures
        parse_int(decimal(n), 0, hi) == Some(n as int),
{
    lemma_decimal(n);
    assert(is_digit(decimal(n)[0]));
}

/// A number of digits is read digit by digit: the first one stands for itself, and each
/// that follows makes ten times the number so far and itself. What goes past the highest
/// number is not read.
pub proof fn law_digits_are_read_one_by_one(s: Seq<char>, c: char, lo: int, hi: int)
    requires
        s.len() > 0,
        forall|i: int| 0 <= i < s.len() ==> '0' <= #[trigger] s[i] <= '9',
        '0' <= c <= '9',
        lo <= 0 <= hi,
    ensures
        parse_int(seq![c], lo, hi) == (if c as int - 48 <= hi {
            Some(c as int - 48)
        } else {
            None
        }),
        parse_int(s.push(c), lo, hi) == (match parse_int(s, lo, hi) {
            Some(v) => if 10 * v + (c as int - 48) <= hi {
                Some(10 * v + (c as int - 48))
            } else {
                None
            },
            None => None,
        }),
{
    assert(all_digits(s));
    assert('0' <= s[0] <= '9');
    let one = seq![c];
    assert(one.drop_last() == Seq::<char>::empty());
    assert(value(one.drop_last()) == 0);
    let more = s.push(c);
    assert(more.drop_last() == s);
    assert(all_digits(more)) by {
        assert forall|i: int| 0 <= i < more.len() implies is_digit(#[trigger] more[i]) by {
            if i < s.len() {
                assert(more[i] == s[i]);
            }
        }
    }
    assert(more[0] == s[0]);
    lemma_value_grows(s, 0);
}

/// A sign may stand before the digits. A plus changes nothing; a minus turns the number
/// round, where numbers below zero are asked for, and is no sign where they are not.
pub proof fn law_sign_is_read(s: Seq<char>, lo: int, hi: int)
    requires
        s.len() > 0,
        '0' <= s[0] <= '9',
        lo <= 0 <= hi,
    ensures
        parse_int(seq!['+'] + s, lo, hi) == parse_int(s, lo, hi),
        lo == 0 ==> parse_int(seq!['-'] + s, lo, hi) is None,
        lo < 0 ==> parse_int(seq!['-'] + s, lo, hi) == (match parse_int(s, lo, -lo) {
            Some(v) => Some(-v),
            None => None,
        }),
{
    let plus = seq!['+'] + s;
    let minus = seq!['-'] + s;
    assert(plus.skip(1) == s);
    assert(minus.skip(1) == s);
    assert(!is_digit(minus[0]));
    if all_digits(s) {
        lemma_value_grows(s, 0);
    }
}

/// Nothing but a number is read: an empty text, a sign alone, and a text with any other
/// character tell none, and a number that is read lies between the limits.
pub proof fn law_only_numbers_are_read(s: Seq<char>, lo: int, hi: int)
    requires
        lo <= 0 <= hi,
    ensures
        parse_int(s, lo, hi) matches Some(v) ==> {
            &&& lo <= v <= hi
            &&& s.len() > 0
            &&& '0' <= s.last() <= '9'
            &&& ('0' <= s[0] <= '9') || s[0] == '+' || s[0] == '-'
            &&& forall|i: int| 1 <= i < s.len() ==> '0' <= #[trigger] s[i] <= '9'
        },
{
    let digits = unsigned_part(s, lo < 0);
    if parse_int(s, lo, hi) is Some {
        assert(is_digit(digits[digits.len() - 1]));
        assert forall|i: int| 1 <= i < s.len() implies '0' <= #[trigger] s[i] <= '9' by {
            if digits.len() == s.len() {
                assert(is_digit(digits[i]));
            } else {
                assert(is_digit(digits[i - 1]));
            }
        }
        if digits.len() == s.len() {
            assert(is_digit(digits[0]));
        }
    }
}

/// A text is all digits exactly if each of its characters is one of `0` to `9`.
pub proof fn law_digits_are_zero_to_nine(s: Seq<char>)
    ensures
        all_digits(s) <==> forall|i: int| 0 <= i < s.len() ==> '0' <= #[trigger] s[i] <= '9',
{
    if all_digits(s) {
        assert forall|i: int| 0 <= i < s.len() implies '0' <= #[trigger] s[i] <= '9' by {
            assert(is_digit(s[i]));
        }
    }
}

proof fn lemma_no_leading_zero(n: nat)
    requires
        n > 0,
    ensures
        decimal(n)[0] != '0',
    decreases n,
{
    if n >= 10 {
        lemma_no_leading_zero(n / 10);
        lemma_decimal(n / 10);
        assert(decimal(n)[0] == decimal(n / 10)[0]);
    }
}

/// A written number consists of digits and begins with a zero only if it is zero. Filled
/// up, it keeps its digits at the end and has zeros before them, up to the width asked
/// for and no further; a minus sign takes one place in front.
pub proof fn law_numbers_are_filled_with_zeros(n: nat, width: int)
    ensures
        decimal(n).len() > 0,
        forall|i: int| 0 <= i < decimal(n).len() ==> '0' <= #[trigger] decimal(n)[i] <= '9',
        n > 0 ==> decimal(n)[0] != '0',
        n == 0 ==> decimal(n) == seq!['0'],
        padded(n as int, width).len() == (if width > decimal(n).len() {
            width
        } else {
            decimal(n).len() as int
        }),
        padded(n as int, width).skip(padded(n as int, width).len() - decimal(n).len()) == decimal(
            n,
        ),
        forall|i: int|
            0 <= i < padded(n as int, width).len() - decimal(n).len() ==> #[trigger] padded(
                n as int,
                width,
            )[i] == '0',
        n > 0 ==> padded(-(n as int), width) == seq!['-'] + padded(n as int, width - 1),
{
    lemma_decimal(n);
    if n > 0 {
        lemma_no_leading_zero(n);
        assert(padded(-(n as int), width) == seq!['-'] + padded(n as int, width - 1));
    }
    assert forall|i: int| 0 <= i < decimal(n).len() implies '0' <= #[trigger] decimal(n)[i]
        <= '9' by {
        assert(is_digit(decimal(n)[i]));
    }
    let p = padded(n as int, width);
    assert(p.skip(p.len() - decimal(n).len()) == decimal(n));
}

} // verus!
