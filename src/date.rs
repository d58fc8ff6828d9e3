//! Calendar dates: `yyyy-mm-dd` text and day numbers.
use vstd::prelude::*;
use vstd::string::StringSliceAdditionalSpecFns;
use vstd::utf8::encode_utf8;

verus! {

/// Years that chrono's `NaiveDate` can hold.
pub const MIN_YEAR: i32 = -262143;

pub const MAX_YEAR: i32 = 262142;

pub open spec fn is_leap_year(y: int) -> bool {
    y % 4 == 0 && (y % 100 != 0 || y % 400 == 0)
}

pub open spec fn days_in_month(y: int, m: int) -> int {
    if m == 2 {
        if is_leap_year(y) {
            29
        } else {
            28
        }
    } else if m == 4 || m == 6 || m == 9 || m == 11 {
        30
    } else {
        31
    }
}

/// A day of the proleptic Gregorian calendar within chrono's range of years.
pub open spec fn valid_date(y: int, m: int, d: int) -> bool {
    &&& MIN_YEAR <= y <= MAX_YEAR
    &&& 1 <= m <= 12
    &&& 1 <= d <= days_in_month(y, m)
}

/// Days of the months before month `m` of year `y`.
pub open spec fn days_before_month(y: int, m: int) -> int {
    let common: int = if m == 1 {
        0
    } else if m == 2 {
        31
    } else if m == 3 {
        59
    } else if m == 4 {
        90
    } else if m == 5 {
        120
    } else if m == 6 {
        151
    } else if m == 7 {
        181
    } else if m == 8 {
        212
    } else if m == 9 {
        243
    } else if m == 10 {
        273
    } else if m == 11 {
        304
    } else {
        334
    };
    if m > 2 && is_leap_year(y) {
        common + 1
    } else {
        common
    }
}

/// Day number with January 1 of year 1 as day 1 (`/` rounds down here).
pub open spec fn days_from_ce(y: int, m: int, d: int) -> int {
    365 * (y - 1) + (y - 1) / 4 - (y - 1) / 100 + (y - 1) / 400 + days_before_month(y, m) + d
}

/// Relies on chrono's `NaiveDate::from_ymd_opt`, which gives a date exactly
/// for a valid (year, month, day) with the year in `MIN_YEAR..=MAX_YEAR`, and
/// on `Datelike::num_days_from_ce`, which numbers days from January 1 of year
/// 1 as day 1 in the proleptic Gregorian calendar.
#[verifier::external_body]
fn ce_day(year: i32, month: u32, day: u32) -> (r: Option<i32>)
    ensures
        r.is_some() == valid_date(year as int, month as int, day as int),
        r.is_some() ==> r.unwrap() as int == days_from_ce(year as int, month as int, day as int),
{
    match chrono::NaiveDate::from_ymd_opt(year, month, day) {
        Some(date) => Some(chrono::Datelike::num_days_from_ce(&date)),
        None => None,
    }
}

/// A valid calendar date.
#[derive(Clone, Copy, Debug, PartialEq, Eq, Structural)]
pub struct CalendarDate {
    year: i32,
    month: u32,
    day: u32,
}

impl CalendarDate {
    #[verifier::type_invariant]
    spec fn inv(&self) -> bool {
        valid_date(self.year as int, self.month as int, self.day as int)
    }

    pub closed spec fn spec_year(&self) -> int {
        self.year as int
    }

    pub closed spec fn spec_month(&self) -> int {
        self.month as int
    }

    pub closed spec fn spec_day(&self) -> int {
        self.day as int
    }

    pub open spec fn spec_day_number(&self) -> int {
        days_from_ce(self.spec_year(), self.spec_month(), self.spec_day())
    }

    /// The date `year`-`month`-`day`, if it is one.
    pub fn from_ymd(year: i32, month: u32, day: u32) -> (r: Option<CalendarDate>)
        ensures
            r.is_some() == valid_date(year as int, month as int, day as int),
            r.is_some() ==> r.unwrap().spec_year() == year && r.unwrap().spec_month() == month
                && r.unwrap().spec_day() == day,
    {
        match ce_day(year, month, day) {
            Some(_) => Some(CalendarDate { year, month, day }),
            None => None,
        }
    }

    pub fn year(&self) -> (r: i32)
        ensures
            r == self.spec_year(),
    {
        self.year
    }

    pub fn month(&self) -> (r: u32)
        ensures
            r == self.spec_month(),
    {
        self.month
    }

    pub fn day(&self) -> (r: u32)
        ensures
            r == self.spec_day(),
    {
        self.day
    }

    /// Day number, January 1 of year 1 being day 1.
    pub fn day_number(&self) -> (r: i32)
        ensures
            r == self.spec_day_number(),
    {
        proof {
            use_type_invariant(self);
        }
        match ce_day(self.year, self.month, self.day) {
            Some(n) => n,
            None => 0,
        }
    }

    /// Signed number of days from `self` to `later`.
    pub fn days_until(&self, later: &CalendarDate) -> (r: i64)
        ensures
            r == later.spec_day_number() - self.spec_day_number(),
    {
        proof {
            use_type_invariant(self);
            use_type_invariant(later);
        }
        let a = self.day_number();
        let b = later.day_number();
        b as i64 - a as i64
    }
}

#[derive(Clone, Copy, Debug, PartialEq, Eq, Structural)]
pub enum ChainError {
    /// A date of the chain is not a valid `yyyy-mm-dd` date.
    MalformedInput,
}

pub open spec fn is_digit(b: u8) -> bool {
    48 <= b <= 57
}

/// A non-empty run of decimal digits.
pub open spec fn is_numeral(s: Seq<u8>) -> bool {
    s.len() > 0 && forall|i: int| 0 <= i < s.len() ==> is_digit(#[trigger] s[i])
}

pub open spec fn digits_value(s: Seq<u8>) -> int
    decreases s.len(),
{
    if s.len() == 0 {
        0
    } else {
        digits_value(s.drop_last()) * 10 + (s.last() - 48)
    }
}

/// First position at or after `from` that holds `c`, or the length.
pub open spec fn find_byte(b: Seq<u8>, c: u8, from: int) -> int
    decreases b.len() - from,
{
    if from >= b.len() {
        b.len() as int
    } else if b[from] == c {
        from
    } else {
        find_byte(b, c, from + 1)
    }
}

pub open spec fn first_dash(b: Seq<u8>) -> int {
    find_byte(b, 45, 0)
}

pub open spec fn second_dash(b: Seq<u8>) -> int {
    find_byte(b, 45, first_dash(b) + 1)
}

pub open spec fn year_text(b: Seq<u8>) -> Seq<u8> {
    b.subrange(0, first_dash(b))
}

pub open spec fn month_text(b: Seq<u8>) -> Seq<u8> {
    b.subrange(first_dash(b) + 1, second_dash(b))
}

pub open spec fn day_text(b: Seq<u8>) -> Seq<u8> {
    b.subrange(second_dash(b) + 1, b.len() as int)
}

/// `b` is three numerals joined by `-`, naming a valid date.
pub open spec fn is_date_text(b: Seq<u8>) -> bool {
    &&& second_dash(b) < b.len()
    &&& is_numeral(year_text(b))
    &&& is_numeral(month_text(b))
    &&& is_numeral(day_text(b))
    &&& valid_date(
        digits_value(year_text(b)),
        digits_value(month_text(b)),
        digits_value(day_text(b)),
    )
}

/// The text of a date held in a `String`.
pub open spec fn text_bytes(s: Seq<char>) -> Seq<u8> {
    encode_utf8(s)
}

proof fn lemma_find_byte_bounds(b: Seq<u8>, c: u8, from: int)
    requires
        0 <= from,
    ensures
        from <= find_byte(b, c, from) <= b.len() || (from > b.len() && find_byte(b, c, from)
            == b.len()),
        find_byte(b, c, from) < b.len() ==> b[find_byte(b, c, from)] == c,
        forall|i: int| from <= i < find_byte(b, c, from) ==> b[i] != c,
    decreases b.len() - from,
{
    if from < b.len() && b[from] != c {
        lemma_find_byte_bounds(b, c, from + 1);
    }
}

proof fn lemma_digits_prefix(s: Seq<u8>, i: int)
    requires
        0 <= i <= s.len(),
        forall|k: int| 0 <= k < s.len() ==> is_digit(#[trigger] s[k]),
    ensures
        0 <= digits_value(s.subrange(0, i)) <= digits_value(s),
    decreases s.len(),
{
    if i == s.len() {
        assert(s.subrange(0, i) =~= s);
        if s.len() > 0 {
            lemma_digits_prefix(s.drop_last(), i - 1);
            assert(s.drop_last().subrange(0, i - 1) =~= s.drop_last());
        }
    } else {
        lemma_digits_prefix(s.drop_last(), i);
        assert(s.drop_last().subrange(0, i) =~= s.subrange(0, i));
        assert(is_digit(s[s.len() - 1]));
    }
}

/// Position of the first `-` in `b` at or after `from`, or `b`'s length.
fn find_dash(b: &[u8], from: usize) -> (r: usize)
    requires
        from <= b@.len(),
    ensures
        r == find_byte(b@, 45, from as int),
{
    let mut i = from;
    while i < b.len() && b[i] != 45
        invariant
            from <= i <= b@.len(),
            find_byte(b@, 45, i as int) == find_byte(b@, 45, from as int),
        decreases b@.len() - i,
    {
        i += 1;
    }
    i
}

/// Value of the numeral `b[from..to]`, if it is one and at most `limit`.
fn parse_numeral(b: &[u8], from: usize, to: usize, limit: u64) -> (r: Option<u64>)
    requires
        from <= to <= b@.len(),
        limit >= 9,
    ensures
        r.is_some() == (is_numeral(b@.subrange(from as int, to as int)) && digits_value(
            b@.subrange(from as int, to as int),
        ) <= limit),
        r.is_some() ==> r.unwrap() == digits_value(b@.subrange(from as int, to as int)),
{
    if from == to {
        return None;
    }
    let ghost s = b@.subrange(from as int, to as int);
    let mut acc: u64 = 0;
    let mut i = from;
    while i < to
        invariant
            from <= i <= to <= b@.len(),
            s == b@.subrange(from as int, to as int),
            forall|k: int| from <= k < i ==> is_digit(#[trigger] b@[k]),
            acc == digits_value(b@.subrange(from as int, i as int)),
            acc <= limit,
            limit >= 9,
        decreases to - i,
    {
        let c = b[i];
        if c < 48 || c > 57 {
            assert(s[i - from] == c);
            return None;
        }
        assert(b@.subrange(from as int, i + 1).drop_last() =~= b@.subrange(from as int, i as int));
        let d = (c - 48) as u64;
        assert(d <= 9);
        if acc > (limit - d) / 10 {
            proof {
                assert(acc * 10 + d > limit) by (nonlinear_arith)
                    requires
                        acc > (limit - d) / 10,
                        d <= limit,
                ;
                if is_numeral(s) {
                    assert(s.subrange(0, i + 1 - from) =~= b@.subrange(from as int, i + 1));
                    lemma_digits_prefix(s, i + 1 - from);
                }
            }
            return None;
        }
        proof {
            assert(acc * 10 + d <= limit) by (nonlinear_arith)
                requires
                    acc <= (limit - d) / 10,
                    d <= limit,
            ;
        }
        acc = acc * 10 + d;
        i += 1;
    }
    assert(b@.subrange(from as int, i as int) =~= s);
    Some(acc)
}

/// Parses a `yyyy-mm-dd` date: three runs of decimal digits joined by `-`
/// that name a valid calendar date.
pub fn parse_date(date: &str) -> (r: Result<CalendarDate, ChainError>)
    ensures
        r.is_ok() == is_date_text(date.spec_bytes()),
        r.is_ok() ==> r.unwrap().spec_year() == digits_value(year_text(date.spec_bytes()))
            && r.unwrap().spec_month() == digits_value(month_text(date.spec_bytes()))
            && r.unwrap().spec_day() == digits_value(day_text(date.spec_bytes())),
        r.is_err() ==> r == Err::<CalendarDate, ChainError>(ChainError::MalformedInput),
{
    let b = date.as_bytes();
    let ghost bs = b@;
    proof {
        lemma_find_byte_bounds(bs, 45, 0);
    }
    let d1 = find_dash(b, 0);
    if d1 >= b.len() {
        return Err(ChainError::MalformedInput);
    }
    proof {
        lemma_find_byte_bounds(bs, 45, d1 + 1);
    }
    let d2 = find_dash(b, d1 + 1);
    if d2 >= b.len() {
        return Err(ChainError::MalformedInput);
    }
    let y = parse_numeral(b, 0, d1, 2147483647);
    let m = parse_numeral(b, d1 + 1, d2, 4294967295);
    let d = parse_numeral(b, d2 + 1, b.len(), 4294967295);
    match (y, m, d) {
        (Some(y), Some(m), Some(d)) => {
            match CalendarDate::from_ymd(y as i32, m as u32, d as u32) {
                Some(date) => Ok(date),
                None => Err(ChainError::MalformedInput),
            }
        },
        _ => Err(ChainError::MalformedInput),
    }
}

} // verus!
