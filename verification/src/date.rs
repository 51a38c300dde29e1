//! Dates as `SEARCH` writes them: `date-text = date-day "-" date-month
//! "-" date-year`, optionally in double quotes.

use vstd::prelude::*;

use crate::chars::{byte, keyword, spec_byte, spec_keyword, scan_end, spec_take_m_n, take_m_n, ByteClass, DQUOTE};
use crate::num::digits_value;
use crate::rule::read_view;

verus! {

/// `Jan`
pub const JAN: [u8; 3] = [74, 97, 110];
/// `Feb`
pub const FEB: [u8; 3] = [70, 101, 98];
/// `Mar`
pub const MAR: [u8; 3] = [77, 97, 114];
/// `Apr`
pub const APR: [u8; 3] = [65, 112, 114];
/// `May`
pub const MAY: [u8; 3] = [77, 97, 121];
/// `Jun`
pub const JUN: [u8; 3] = [74, 117, 110];
/// `Jul`
pub const JUL: [u8; 3] = [74, 117, 108];
/// `Aug`
pub const AUG: [u8; 3] = [65, 117, 103];
/// `Sep`
pub const SEP: [u8; 3] = [83, 101, 112];
/// `Oct`
pub const OCT: [u8; 3] = [79, 99, 116];
/// `Nov`
pub const NOV: [u8; 3] = [78, 111, 118];
/// `Dec`
pub const DEC: [u8; 3] = [68, 101, 99];
/// `-`
pub const DASH: u8 = 45;

/// The English abbreviation of a month, `Jan` for 1.
pub open spec fn month_name(m: u8) -> Seq<u8> {
    if m == 1 { JAN@ } else if m == 2 { FEB@ } else if m == 3 { MAR@ } else if m == 4 { APR@ }
    else if m == 5 { MAY@ } else if m == 6 { JUN@ } else if m == 7 { JUL@ } else if m == 8 { AUG@ }
    else if m == 9 { SEP@ } else if m == 10 { OCT@ } else if m == 11 { NOV@ } else { DEC@ }
}

fn month_name_exec(m: u8) -> (r: [u8; 3])
    ensures
        r@ == month_name(m),
{
    if m == 1 { JAN } else if m == 2 { FEB } else if m == 3 { MAR } else if m == 4 { APR }
    else if m == 5 { MAY } else if m == 6 { JUN } else if m == 7 { JUL } else if m == 8 { AUG }
    else if m == 9 { SEP } else if m == 10 { OCT } else if m == 11 { NOV } else { DEC }
}

/// Whether a year is a leap year in the Gregorian calendar.
pub open spec fn is_leap_year(y: u16) -> bool {
    (y % 4 == 0 && y % 100 != 0) || y % 400 == 0
}

/// How many days a month has.
pub open spec fn days_in_month(y: u16, m: u8) -> u8 {
    if m == 2 {
        if is_leap_year(y) { 29 } else { 28 }
    } else if m == 4 || m == 6 || m == 9 || m == 11 {
        30
    } else {
        31
    }
}

/// Whether year, month and day name a day of the calendar.
pub open spec fn is_valid_date(y: u16, m: u8, d: u8) -> bool {
    y <= 9999 && 1 <= m <= 12 && 1 <= d <= days_in_month(y, m)
}

/// A day of the Gregorian calendar, years 0 to 9999.
#[derive(Clone, Copy, Debug, PartialEq, Eq, Hash)]
pub struct NaiveDate {
    year: u16,
    month: u8,
    day: u8,
}

impl NaiveDate {
    #[verifier::type_invariant]
    spec fn valid(self) -> bool {
        is_valid_date(self.year, self.month, self.day)
    }

    /// The date of year, month and day, where they name one.
    pub fn from_ymd(year: u16, month: u8, day: u8) -> (r: Option<NaiveDate>)
        ensures
            r is Some <==> is_valid_date(year, month, day),
            r matches Some(d) ==> d.deep_view() == (year, month, day),
    {
        let leap = (year % 4 == 0 && year % 100 != 0) || year % 400 == 0;
        let days: u8 = if month == 2 {
            if leap { 29 } else { 28 }
        } else if month == 4 || month == 6 || month == 9 || month == 11 {
            30
        } else {
            31
        };
        if year <= 9999 && 1 <= month && month <= 12 && 1 <= day && day <= days {
            Some(NaiveDate { year, month, day })
        } else {
            None
        }
    }

    /// The year, month and day.
    pub fn ymd(&self) -> (r: (u16, u8, u8))
        ensures
            r == self.deep_view(),
            is_valid_date(r.0, r.1, r.2),
    {
        proof {
            use_type_invariant(self);
        }
        (self.year, self.month, self.day)
    }
}

impl DeepView for NaiveDate {
    type V = (u16, u8, u8);

    closed spec fn deep_view(&self) -> (u16, u8, u8) {
        (self.year, self.month, self.day)
    }
}

/// `date-day = 1*2DIGIT`
pub open spec fn spec_date_day(s: Seq<u8>, i: int) -> Option<(u8, int)> {
    match spec_take_m_n(s, i, ByteClass::Digit, 1, 2) {
        Some(e) => Some((digits_value(s.subrange(i, e)) as u8, e)),
        None => None,
    }
}

/// `date-month`, in any case.
pub open spec fn spec_date_month(s: Seq<u8>, i: int) -> Option<(u8, int)> {
    if spec_keyword(s, i, JAN@) { Some((1, i + 3)) }
    else if spec_keyword(s, i, FEB@) { Some((2, i + 3)) }
    else if spec_keyword(s, i, MAR@) { Some((3, i + 3)) }
    else if spec_keyword(s, i, APR@) { Some((4, i + 3)) }
    else if spec_keyword(s, i, MAY@) { Some((5, i + 3)) }
    else if spec_keyword(s, i, JUN@) { Some((6, i + 3)) }
    else if spec_keyword(s, i, JUL@) { Some((7, i + 3)) }
    else if spec_keyword(s, i, AUG@) { Some((8, i + 3)) }
    else if spec_keyword(s, i, SEP@) { Some((9, i + 3)) }
    else if spec_keyword(s, i, OCT@) { Some((10, i + 3)) }
    else if spec_keyword(s, i, NOV@) { Some((11, i + 3)) }
    else if spec_keyword(s, i, DEC@) { Some((12, i + 3)) }
    else { None }
}

/// `date-year = 4DIGIT`
pub open spec fn spec_date_year(s: Seq<u8>, i: int) -> Option<(u16, int)> {
    match spec_take_m_n(s, i, ByteClass::Digit, 4, 4) {
        Some(e) => Some((digits_value(s.subrange(i, e)) as u16, e)),
        None => None,
    }
}

/// `date-text = date-day "-" date-month "-" date-year`, which must name
/// a day of the calendar.
pub open spec fn spec_date_text(s: Seq<u8>, i: int) -> Option<((u16, u8, u8), int)> {
    match spec_date_day(s, i) {
        Some((d, j)) => if spec_byte(s, j, DASH) {
            match spec_date_month(s, j + 1) {
                Some((m, k)) => if spec_byte(s, k, DASH) {
                    match spec_date_year(s, k + 1) {
                        Some((y, e)) => if is_valid_date(y, m, d) {
                            Some(((y, m, d), e))
                        } else {
                            None
                        },
                        None => None,
                    }
                } else {
                    None
                },
                None => None,
            }
        } else {
            None
        },
        None => None,
    }
}

/// `date = date-text / DQUOTE date-text DQUOTE`
pub open spec fn spec_date(s: Seq<u8>, i: int) -> Option<((u16, u8, u8), int)> {
    match spec_date_text(s, i) {
        Some(r) => Some(r),
        None => if spec_byte(s, i, DQUOTE) {
            match spec_date_text(s, i + 1) {
                Some((v, j)) => if spec_byte(s, j, DQUOTE) {
                    Some((v, j + 1))
                } else {
                    None
                },
                None => None,
            }
        } else {
            None
        },
    }
}

/// Reads a small number of digits.
fn digits_to_int(s: &[u8], i: usize, e: usize) -> (r: u16)
    requires
        i <= e <= s@.len(),
        e - i <= 4,
        crate::chars::all_in(s@.subrange(i as int, e as int), ByteClass::Digit),
    ensures
        r as nat == digits_value(s@.subrange(i as int, e as int)),
{
    let ghost d = s@.subrange(i as int, e as int);
    let mut v: u16 = 0;
    let mut k = i;
    while k < e
        invariant
            i <= k <= e <= s@.len(),
            e - i <= 4,
            d == s@.subrange(i as int, e as int),
            crate::chars::all_in(d, ByteClass::Digit),
            v as nat == digits_value(d.subrange(0, k - i)),
            v < crate::num::pow10((k - i) as nat),
        decreases e - k,
    {
        let c = s[k];
        assert(c == d[k - i]);
        assert(ByteClass::Digit.spec_has(d[k - i]));
        assert(d.subrange(0, k - i + 1).drop_last() =~= d.subrange(0, k - i));
        proof {
            crate::num::lemma_pow10_step((k - i) as nat);
        }
        assert(v < 1000);
        v = v * 10 + (c - 48) as u16;
        k = k + 1;
    }
    assert(d.subrange(0, e - i) =~= d);
    v
}

fn read_date_text(s: &[u8], i: usize) -> (r: Option<(NaiveDate, usize)>)
    requires
        i <= s@.len(),
    ensures
        read_view(r) == spec_date_text(s@, i as int),
        r matches Some((_, j)) ==> i < j <= s@.len(),
{
    let j = match take_m_n(s, i, ByteClass::Digit, 1, 2) {
        Some(j) => j,
        None => return None,
    };
    let d = digits_to_int(s, i, j) as u8;
    if !byte(s, j, DASH) {
        return None;
    }
    let k = j + 1;
    let jan = JAN; let feb = FEB; let mar = MAR; let apr = APR; let may = MAY; let jun = JUN;
    let jul = JUL; let aug = AUG; let sep = SEP; let oct = OCT; let nov = NOV; let dec = DEC;
    let m: u8 = if keyword(s, k, jan.as_slice()) { 1 }
        else if keyword(s, k, feb.as_slice()) { 2 }
        else if keyword(s, k, mar.as_slice()) { 3 }
        else if keyword(s, k, apr.as_slice()) { 4 }
        else if keyword(s, k, may.as_slice()) { 5 }
        else if keyword(s, k, jun.as_slice()) { 6 }
        else if keyword(s, k, jul.as_slice()) { 7 }
        else if keyword(s, k, aug.as_slice()) { 8 }
        else if keyword(s, k, sep.as_slice()) { 9 }
        else if keyword(s, k, oct.as_slice()) { 10 }
        else if keyword(s, k, nov.as_slice()) { 11 }
        else if keyword(s, k, dec.as_slice()) { 12 }
        else { return None; };
    let k = k + 3;
    if !byte(s, k, DASH) {
        return None;
    }
    let e = match take_m_n(s, k + 1, ByteClass::Digit, 4, 4) {
        Some(e) => e,
        None => return None,
    };
    let y = digits_to_int(s, k + 1, e);
    match NaiveDate::from_ymd(y, m, d) {
        Some(date) => Some((date, e)),
        None => None,
    }
}

/// Reads a `date` at `i`.
pub fn read_date(s: &[u8], i: usize) -> (r: Option<(NaiveDate, usize)>)
    requires
        i <= s@.len(),
    ensures
        read_view(r) == spec_date(s@, i as int),
        r matches Some((_, j)) ==> i < j <= s@.len(),
{
    match read_date_text(s, i) {
        Some(r) => Some(r),
        None => if byte(s, i, DQUOTE) {
            match read_date_text(s, i + 1) {
                Some((v, j)) => if byte(s, j, DQUOTE) {
                    Some((v, j + 1))
                } else {
                    None
                },
                None => None,
            }
        } else {
            None
        },
    }
}

/// How a date is written: `"dd-Mon-yyyy"`, day and year padded with
/// zeros.
pub open spec fn spec_write_date(v: (u16, u8, u8)) -> Seq<u8> {
    let (y, m, d) = v;
    seq![DQUOTE, (48 + d / 10) as u8, (48 + d % 10) as u8, DASH] + month_name(m) + seq![
        DASH,
        (48 + y / 1000) as u8,
        (48 + (y / 100) % 10) as u8,
        (48 + (y / 10) % 10) as u8,
        (48 + y % 10) as u8,
        DQUOTE,
    ]
}

/// Writes a date.
pub fn write_date(out: &mut Vec<u8>, date: &NaiveDate)
    ensures
        final(out)@ == old(out)@ + spec_write_date(date.deep_view()),
{
    let ghost start = old(out)@;
    let (y, m, d) = date.ymd();
    out.push(DQUOTE);
    out.push(48 + d / 10);
    out.push(48 + d % 10);
    out.push(DASH);
    let name = month_name_exec(m);
    crate::chars::put(out, name.as_slice());
    out.push(DASH);
    out.push((48 + y / 1000) as u8);
    out.push((48 + (y / 100) % 10) as u8);
    out.push((48 + (y / 10) % 10) as u8);
    out.push((48 + y % 10) as u8);
    out.push(DQUOTE);
    assert(out@ =~= start + spec_write_date((y, m, d)));
}

} // verus!

verus! {

/// The value of two digits.
proof fn lemma_two_digits(a: u8, b: u8)
    requires
        48 <= a <= 57,
        48 <= b <= 57,
    ensures
        digits_value(seq![a, b]) == (a - 48) * 10 + (b - 48),
{
    assert(seq![a, b].drop_last() =~= seq![a]);
    assert(seq![a].drop_last() =~= Seq::<u8>::empty());
    assert(digits_value(Seq::<u8>::empty()) == 0);
    assert(seq![a].last() == a);
    assert(digits_value(seq![a]) == (a - 48) as nat);
    assert(seq![a, b].last() == b);
}

/// The value of four digits.
proof fn lemma_four_digits(a: u8, b: u8, c: u8, d: u8)
    requires
        48 <= a <= 57,
        48 <= b <= 57,
        48 <= c <= 57,
        48 <= d <= 57,
    ensures
        digits_value(seq![a, b, c, d]) == (((a - 48) * 10 + (b - 48)) * 10 + (c - 48)) * 10 + (d - 48),
{
    assert(seq![a, b, c, d].drop_last() =~= seq![a, b, c]);
    assert(seq![a, b, c].drop_last() =~= seq![a, b]);
    lemma_two_digits(a, b);
    assert(seq![a, b, c].last() == c);
    assert(seq![a, b, c, d].last() == d);
    let v2 = digits_value(seq![a, b]);
    assert(digits_value(seq![a, b, c]) == v2 * 10 + (c - 48) as nat);
    assert(digits_value(seq![a, b, c, d]) == digits_value(seq![a, b, c]) * 10 + (d - 48) as nat);
}

/// A month's name, written at `i`, is read as that month.
proof fn lemma_month_round_trip(m: u8, s: Seq<u8>, i: int)
    requires
        1 <= m <= 12,
        0 <= i,
        i + 3 <= s.len(),
        s.subrange(i, i + 3) == month_name(m),
    ensures
        spec_date_month(s, i) == Some((m, i + 3)),
{
    let w = month_name(m);
    assert(s[i + 0] == w[0] && s[i + 1] == w[1] && s[i + 2] == w[2]) by {
        assert(s[i + 0] == s.subrange(i, i + 3)[0]);
        assert(s[i + 1] == s.subrange(i, i + 3)[1]);
        assert(s[i + 2] == s.subrange(i, i + 3)[2]);
    }
    crate::chars::lemma_keyword_at(s, i, w);
}

/// A date that names a day of the calendar, written at `i`, reads back.
#[verifier::rlimit(100)]
#[verifier::spinoff_prover]
pub proof fn lemma_date_round_trip(v: (u16, u8, u8), s: Seq<u8>, i: int)
    requires
        is_valid_date(v.0, v.1, v.2),
        0 <= i,
        i + spec_write_date(v).len() <= s.len(),
        s.subrange(i, i + spec_write_date(v).len()) == spec_write_date(v),
    ensures
        spec_date(s, i) == Some((v, i + spec_write_date(v).len())),
{
    let (y, m, d) = v;
    let w = spec_write_date(v);
    let e = i + w.len();
    assert forall|k: int| 0 <= k < w.len() implies s[i + k] == #[trigger] w[k] by {
        assert(s[i + k] == s.subrange(i, e)[k]);
    }
    let d1 = (48 + d / 10) as u8;
    let d2 = (48 + d % 10) as u8;
    let y1 = (48 + y / 1000) as u8;
    let y2 = (48 + (y / 100) % 10) as u8;
    let y3 = (48 + (y / 10) % 10) as u8;
    let y4 = (48 + y % 10) as u8;
    let mn = month_name(m);
    assert(mn.len() == 3);
    assert(w =~= seq![DQUOTE, d1, d2, DASH, mn[0], mn[1], mn[2], DASH, y1, y2, y3, y4, DQUOTE]);
    assert(w[0] == DQUOTE && w[1] == d1 && w[2] == d2 && w[3] == DASH && w[7] == DASH);
    assert(w[8] == y1 && w[9] == y2 && w[10] == y3 && w[11] == y4 && w[12] == DQUOTE);
    assert(s[i] == DQUOTE && s[i + 1] == d1 && s[i + 2] == d2 && s[i + 3] == DASH);
    assert(s[i + 7] == DASH && s[i + 8] == y1 && s[i + 9] == y2 && s[i + 10] == y3 && s[i + 11] == y4);
    assert(s[i + 12] == DQUOTE);
    // The text is not read without its quotes.
    assert(scan_end(s, i, ByteClass::Digit) == i);
    // The day.
    assert(scan_end(s, i + 3, ByteClass::Digit) == i + 3);
    crate::chars::lemma_scan_end_of_run(s, i + 1, i + 3, ByteClass::Digit);
    assert(s.subrange(i + 1, i + 3) =~= seq![d1, d2]);
    lemma_two_digits(d1, d2);
    assert(digits_value(s.subrange(i + 1, i + 3)) == d);
    // The month.
    crate::chars::lemma_part(s, i, w, 4, 3);
    assert(w.subrange(4, 7) =~= month_name(m));
    lemma_month_round_trip(m, s, i + 4);
    // The year.
    assert(scan_end(s, i + 12, ByteClass::Digit) == i + 12);
    assert(ByteClass::Digit.spec_has(s[i + 8]) && ByteClass::Digit.spec_has(s[i + 9]));
    assert(ByteClass::Digit.spec_has(s[i + 10]) && ByteClass::Digit.spec_has(s[i + 11]));
    crate::chars::lemma_scan_end_of_run(s, i + 8, i + 12, ByteClass::Digit);
    assert(s.subrange(i + 8, i + 12) =~= seq![y1, y2, y3, y4]);
    lemma_four_digits(y1, y2, y3, y4);
    assert(digits_value(s.subrange(i + 8, i + 12)) == y);
}

} // verus!
