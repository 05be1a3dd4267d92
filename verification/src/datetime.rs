//! Dates and times of day in text: four digits for the year and two for each other
//! part, at fixed byte offsets.

use vstd::prelude::*;

use crate::bytes::byte_slice_of;
use crate::number::{parse_i32, parse_u64};

verus! {

/// The parts of a date and a time of day, as read. Nothing holds them to the calendar.
#[derive(Debug, Clone, Copy, PartialEq, Eq, Structural)]
pub struct Civil {
    pub year: i32,
    pub month: i32,
    pub day: i32,
    pub hour: i32,
    pub min: i32,
    pub sec: i32,
}

/// What reading a date and a time of day comes to.
#[derive(Debug, Clone, Copy, PartialEq, Eq, Structural)]
pub enum Fields {
    /// A part begins or ends inside a character, and the text cannot be cut there.
    Broken,
    /// A part is not a number.
    Invalid,
    /// All parts are numbers.
    Read(Civil),
}

/// What reading one part comes to.
#[derive(Debug, Clone, Copy, PartialEq, Eq, Structural)]
pub enum Field {
    Broken,
    Invalid,
    Number(i32),
}

/// The lowest and the highest number that a part may be.
pub open spec fn field_range(signed: bool) -> (int, int) {
    if signed {
        (i32::MIN as int, i32::MAX as int)
    } else {
        (0, u64::MAX as int)
    }
}

/// The part of `s` from byte `a` to byte `b`, read as a number.
pub open spec fn field(s: Seq<char>, a: int, b: int, signed: bool) -> Field {
    match crate::bytes::byte_slice(s, a, b) {
        None => Field::Broken,
        Some(t) => match crate::number::parse_int(t, field_range(signed).0, field_range(signed).1) {
            None => Field::Invalid,
            Some(v) => Field::Number(v as i32),
        },
    }
}

/// What a part that is no number makes of the whole.
pub open spec fn failed(f: Field) -> Fields {
    if f is Broken {
        Fields::Broken
    } else {
        Fields::Invalid
    }
}

/// The date and time at the start of `s`. The first part that is no number decides
/// how reading fails.
pub open spec fn read_fields(s: Seq<char>, signed: bool) -> Fields {
    let year = field(s, 0, 4, signed);
    let month = field(s, 5, 7, signed);
    let day = field(s, 8, 10, signed);
    let hour = field(s, 11, 13, signed);
    let min = field(s, 14, 16, signed);
    let sec = field(s, 17, 19, signed);
    if !(year is Number) {
        failed(year)
    } else if !(month is Number) {
        failed(month)
    } else if !(day is Number) {
        failed(day)
    } else if !(hour is Number) {
        failed(hour)
    } else if !(min is Number) {
        failed(min)
    } else if !(sec is Number) {
        failed(sec)
    } else {
        Fields::Read(
            Civil {
                year: year->Number_0,
                month: month->Number_0,
                day: day->Number_0,
                hour: hour->Number_0,
                min: min->Number_0,
                sec: sec->Number_0,
            },
        )
    }
}

/// All parts lie between `lo` and 9999.
pub open spec fn parts_within(c: Civil, lo: int) -> bool {
    &&& lo <= c.year <= 9999
    &&& lo <= c.month <= 9999
    &&& lo <= c.day <= 9999
    &&& lo <= c.hour <= 9999
    &&& lo <= c.min <= 9999
    &&& lo <= c.sec <= 9999
}

proof fn lemma_field_bounds(s: Seq<char>, a: int, b: int, signed: bool)
    requires
        0 <= a <= b <= a + 4,
    ensures
        field(s, a, b, signed) matches Field::Number(v) ==> -9999 <= v <= 9999 && (!signed ==> 0
            <= v),
        crate::bytes::byte_slice(s, a, b) matches Some(t) ==> (crate::number::parse_int(
            t,
            field_range(signed).0,
            field_range(signed).1,
        ) matches Some(v) ==> -9999 <= v <= 9999),
{
    crate::bytes::lemma_byte_slice_len(s, a, b);
    if let Some(t) = crate::bytes::byte_slice(s, a, b) {
        let digits = crate::number::unsigned_part(t, field_range(signed).0 < 0);
        if crate::number::all_digits(digits) {
            crate::number::lemma_short_value(digits);
        }
    }
}

/// The parts that are read have four digits at most, and no minus unless it is asked for.
pub proof fn lemma_read_bounds(s: Seq<char>, signed: bool)
    ensures
        read_fields(s, signed) matches Fields::Read(c) ==> parts_within(
            c,
            if signed {
                -9999
            } else {
                0
            },
        ),
{
    lemma_field_bounds(s, 0, 4, signed);
    lemma_field_bounds(s, 5, 7, signed);
    lemma_field_bounds(s, 8, 10, signed);
    lemma_field_bounds(s, 11, 13, signed);
    lemma_field_bounds(s, 14, 16, signed);
    lemma_field_bounds(s, 17, 19, signed);
}

/// The part of `s` from byte `a` to byte `b`, read as a number.
fn read_field(s: &[char], a: usize, b: usize, signed: bool) -> (r: Field)
    requires
        a <= b <= a + 4,
    ensures
        r == field(s@, a as int, b as int, signed),
        r matches Field::Number(v) ==> -9999 <= v <= 9999 && (!signed ==> 0 <= v),
{
    proof {
        lemma_field_bounds(s@, a as int, b as int, signed);
    }
    match byte_slice_of(s, a, b) {
        None => Field::Broken,
        Some(t) => if signed {
            match parse_i32(t) {
                None => Field::Invalid,
                Some(v) => Field::Number(v),
            }
        } else {
            match parse_u64(t) {
                None => Field::Invalid,
                Some(v) => Field::Number(v as i32),
            }
        },
    }
}

/// Read the date and time at the start of `s`. Its parts may have a sign, a minus
/// only if `signed`.
pub fn read_fields_of(s: &[char], signed: bool) -> (r: Fields)
    ensures
        r == read_fields(s@, signed),
        r matches Fields::Read(c) ==> parts_within(c, if signed { -9999 } else { 0 }),
{
    let year: i32 = match read_field(s, 0, 4, signed) {
        Field::Broken => return Fields::Broken,
        Field::Invalid => return Fields::Invalid,
        Field::Number(v) => v,
    };
    let month: i32 = match read_field(s, 5, 7, signed) {
        Field::Broken => return Fields::Broken,
        Field::Invalid => return Fields::Invalid,
        Field::Number(v) => v,
    };
    let day: i32 = match read_field(s, 8, 10, signed) {
        Field::Broken => return Fields::Broken,
        Field::Invalid => return Fields::Invalid,
        Field::Number(v) => v,
    };
    let hour: i32 = match read_field(s, 11, 13, signed) {
        Field::Broken => return Fields::Broken,
        Field::Invalid => return Fields::Invalid,
        Field::Number(v) => v,
    };
    let min: i32 = match read_field(s, 14, 16, signed) {
        Field::Broken => return Fields::Broken,
        Field::Invalid => return Fields::Invalid,
        Field::Number(v) => v,
    };
    let sec: i32 = match read_field(s, 17, 19, signed) {
        Field::Broken => return Fields::Broken,
        Field::Invalid => return Fields::Invalid,
        Field::Number(v) => v,
    };
    Fields::Read(Civil { year, month, day, hour, min, sec })
}

// ---------------------------------------------------------------------------
// Laws
// ---------------------------------------------------------------------------

/// The parts can be written with four digits for the year and two for each other.
pub open spec fn is_writable(c: Civil) -> bool {
    &&& 0 <= c.year < 10000
    &&& 0 <= c.month < 100
    &&& 0 <= c.day < 100
    &&& 0 <= c.hour < 100
    &&& 0 <= c.min < 100
    &&& 0 <= c.sec < 100
}

/// `YYYY-MM-DDTHH?MM?SS`, with `sep` between the parts of the time of day.
pub open spec fn written(c: Civil, sep: char) -> Seq<char> {
    crate::number::padded(c.year as int, 4) + seq!['-'] + crate::number::padded(c.month as int, 2)
        + seq!['-'] + crate::number::padded(c.day as int, 2) + seq!['T'] + crate::number::padded(
        c.hour as int,
        2,
    ) + seq![sep] + crate::number::padded(c.min as int, 2) + seq![sep] + crate::number::padded(
        c.sec as int,
        2,
    )
}

/// A character of a written date and time: a digit or one that stands between the parts.
pub open spec fn is_written_char(c: char, sep: char) -> bool {
    crate::number::is_digit(c) || c == '-' || c == 'T' || c == sep
}

/// A written date and time has its fixed length and holds only digits and the
/// characters between the parts.
pub proof fn lemma_written_chars(c: Civil, sep: char)
    requires
        is_writable(c),
    ensures
        written(c, sep).len() == 19,
        forall|i: int| 0 <= i < 19 ==> is_written_char(#[trigger] written(c, sep)[i], sep),
{
    let y = crate::number::padded(c.year as int, 4);
    let mo = crate::number::padded(c.month as int, 2);
    let d = crate::number::padded(c.day as int, 2);
    let h = crate::number::padded(c.hour as int, 2);
    let mi = crate::number::padded(c.min as int, 2);
    let se = crate::number::padded(c.sec as int, 2);
    crate::number::law_padded_reads_back(c.year as int, 4, 0, 9999);
    crate::number::law_padded_reads_back(c.month as int, 2, 0, 9999);
    crate::number::law_padded_reads_back(c.day as int, 2, 0, 9999);
    crate::number::law_padded_reads_back(c.hour as int, 2, 0, 9999);
    crate::number::law_padded_reads_back(c.min as int, 2, 0, 9999);
    crate::number::law_padded_reads_back(c.sec as int, 2, 0, 9999);
    let w = written(c, sep);
    assert forall|i: int| 0 <= i < 19 implies is_written_char(#[trigger] w[i], sep) by {
        if i < 4 {
            assert(crate::number::is_digit(y[i]));
        } else if 5 <= i < 7 {
            assert(crate::number::is_digit(mo[i - 5]));
        } else if 8 <= i < 10 {
            assert(crate::number::is_digit(d[i - 8]));
        } else if 11 <= i < 13 {
            assert(crate::number::is_digit(h[i - 11]));
        } else if 14 <= i < 16 {
            assert(crate::number::is_digit(mi[i - 14]));
        } else if 17 <= i < 19 {
            assert(crate::number::is_digit(se[i - 17]));
        }
    }
}

/// A written date and time reads back as the same parts, whatever follows it.
pub proof fn law_written_reads_back(c: Civil, sep: char, rest: Seq<char>, signed: bool)
    requires
        is_writable(c),
        sep <= '\u{7f}',
    ensures
        written(c, sep).len() == 19,
        crate::bytes::byte_len(written(c, sep) + rest) >= 19,
        read_fields(written(c, sep) + rest, signed) == Fields::Read(c),
{
    let (lo, hi) = field_range(signed);
    let y = crate::number::padded(c.year as int, 4);
    let mo = crate::number::padded(c.month as int, 2);
    let d = crate::number::padded(c.day as int, 2);
    let h = crate::number::padded(c.hour as int, 2);
    let mi = crate::number::padded(c.min as int, 2);
    let se = crate::number::padded(c.sec as int, 2);
    crate::number::law_padded_reads_back(c.year as int, 4, lo, hi);
    crate::number::law_padded_reads_back(c.month as int, 2, lo, hi);
    crate::number::law_padded_reads_back(c.day as int, 2, lo, hi);
    crate::number::law_padded_reads_back(c.hour as int, 2, lo, hi);
    crate::number::law_padded_reads_back(c.min as int, 2, lo, hi);
    crate::number::law_padded_reads_back(c.sec as int, 2, lo, hi);
    let w = written(c, sep);
    let s = w + rest;
    assert(s.subrange(0, 4) == y);
    assert(s.subrange(5, 7) == mo);
    assert(s.subrange(8, 10) == d);
    assert(s.subrange(11, 13) == h);
    assert(s.subrange(14, 16) == mi);
    assert(s.subrange(17, 19) == se);
    lemma_written_chars(c, sep);
    assert forall|i: int| 0 <= i < 19 implies #[trigger] s[i] <= '\u{7f}' by {
        assert(is_written_char(w[i], sep));
    }
    crate::bytes::lemma_single_bytes(s, 19);
}

/// The parts stand at fixed bytes, in this order: the year in four, then the month, the
/// day, the hour, the minute and the second in two each, with one byte between them.
pub open spec fn part_places() -> Seq<(int, int)> {
    seq![(0int, 4int), (5, 7), (8, 10), (11, 13), (14, 16), (17, 19)]
}

/// A date and time is read exactly if each of its six parts can be cut out and is a
/// number, and each part is the number that stands in its place. The first part that is
/// none decides: if it cannot be cut out the text is broken, and else it is no date.
pub proof fn law_parts_stand_in_their_places(s: Seq<char>, signed: bool, k: int)
    requires
        0 <= k < 6,
        forall|j: int|
            0 <= j < k ==> (crate::bytes::byte_slice(
                s,
                (#[trigger] part_places()[j]).0,
                part_places()[j].1,
            ) matches Some(t) && crate::number::parse_int(
                t,
                if signed {
                    i32::MIN as int
                } else {
                    0
                },
                if signed {
                    i32::MAX as int
                } else {
                    u64::MAX as int
                },
            ) is Some),
    ensures
        part_places()[0] == (0int, 4int),
        part_places()[1] == (5int, 7int),
        part_places()[2] == (8int, 10int),
        part_places()[3] == (11int, 13int),
        part_places()[4] == (14int, 16int),
        part_places()[5] == (17int, 19int),
        match crate::bytes::byte_slice(s, part_places()[k].0, part_places()[k].1) {
            None => read_fields(s, signed) is Broken,
            Some(t) => match crate::number::parse_int(
                t,
                if signed {
                    i32::MIN as int
                } else {
                    0
                },
                if signed {
                    i32::MAX as int
                } else {
                    u64::MAX as int
                },
            ) {
                None => read_fields(s, signed) is Invalid,
                Some(v) => {
                    &&& k == 5 ==> read_fields(s, signed) is Read
                    &&& read_fields(s, signed) matches Fields::Read(c) ==> {
                        &&& k == 0 ==> c.year == v
                        &&& k == 1 ==> c.month == v
                        &&& k == 2 ==> c.day == v
                        &&& k == 3 ==> c.hour == v
                        &&& k == 4 ==> c.min == v
                        &&& k == 5 ==> c.sec == v
                    }
                },
            },
        },
{
    let p = part_places();
    lemma_field_bounds(s, 0, 4, signed);
    lemma_field_bounds(s, 5, 7, signed);
    lemma_field_bounds(s, 8, 10, signed);
    lemma_field_bounds(s, 11, 13, signed);
    lemma_field_bounds(s, 14, 16, signed);
    lemma_field_bounds(s, 17, 19, signed);
    assert(k > 0 ==> p[0] == (0int, 4int));
    assert(k > 1 ==> p[1] == (5int, 7int));
    assert(k > 2 ==> p[2] == (8int, 10int));
    assert(k > 3 ==> p[3] == (11int, 13int));
    assert(k > 4 ==> p[4] == (14int, 16int));
}

} // verus!
