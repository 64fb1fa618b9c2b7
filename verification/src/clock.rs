//! Moments in time, as milliseconds since 1970-01-01T00:00:00Z, and the text
//! that stands for them.

use crate::numbers;
use crate::numbers::padded_of;
use crate::numbers::parse_u64;
use crate::text;
use crate::text::chars_of;
use crate::text::extend;
use crate::text::index_at;
use crate::text::piece;
use crate::text::split_at_char;
use crate::text::string_of;
use vstd::prelude::*;

verus! {

/// Milliseconds in a day.
pub const DAY_MS: u64 = 86_400_000;

/// When the year 10000 begins, in milliseconds since 1970.
pub const YEAR_10000_MS: u64 = 253_402_300_800_000;

/// Days from the first day of the year 0 to the first day of 1970.
pub const EPOCH_DAYS: u64 = 719_528;

/// Whether `y` is a leap year.
pub open spec fn leap(y: int) -> bool {
    y % 4 == 0 && (y % 100 != 0 || y % 400 == 0)
}

/// How many days the year `y` has.
pub open spec fn year_len(y: int) -> int {
    if leap(y) {
        366
    } else {
        365
    }
}

/// How many days the month `m` of the year `y` has.
pub open spec fn month_len(y: int, m: int) -> int {
    if m == 2 {
        if leap(y) {
            29
        } else {
            28
        }
    } else if m == 4 || m == 6 || m == 9 || m == 11 {
        30
    } else {
        31
    }
}

/// How many days lie between the start of the year 0 and that of `y`: 365 for
/// each year, and one for each leap year.
pub open spec fn days_before_year(y: int) -> int {
    365 * y + (y + 3) / 4 - (y + 99) / 100 + (y + 399) / 400
}

/// How many days of the year `y` lie before its month `m`.
pub open spec fn days_before_month(y: int, m: int) -> int
    decreases m,
{
    if m <= 1 {
        0
    } else {
        days_before_month(y, m - 1) + month_len(y, m - 1)
    }
}

/// Whether there is such a date.
pub open spec fn valid_date(y: int, m: int, d: int) -> bool {
    y >= 0 && 1 <= m <= 12 && 1 <= d <= month_len(y, m)
}

/// How many days after 1970-01-01 the date lies.
pub open spec fn day_number(y: int, m: int, d: int) -> int {
    days_before_year(y) - EPOCH_DAYS + days_before_month(y, m) + d - 1
}

/// The date that lies so many days after 1970-01-01.
pub open spec fn date_of(days: int) -> (int, int, int) {
    choose|t: (int, int, int)| valid_date(t.0, t.1, t.2) && #[trigger] day_number(t.0, t.1, t.2)
        == days
}

proof fn lemma_fourth_years(y: int)
    ensures
        (y + 4) / 4 == (y + 3) / 4 + (if y % 4 == 0 {
            1int
        } else {
            0
        }),
{
}

proof fn lemma_hundredth_years(y: int)
    ensures
        (y + 100) / 100 == (y + 99) / 100 + (if y % 100 == 0 {
            1int
        } else {
            0
        }),
        y % 100 == 0 ==> y % 4 == 0,
{
}

proof fn lemma_four_hundredth_years(y: int)
    ensures
        (y + 400) / 400 == (y + 399) / 400 + (if y % 400 == 0 {
            1int
        } else {
            0
        }),
        y % 400 == 0 ==> y % 100 == 0,
{
}

proof fn lemma_year_step(y: int)
    requires
        y >= 0,
    ensures
        days_before_year(y + 1) == days_before_year(y) + year_len(y),
{
    lemma_fourth_years(y);
    lemma_hundredth_years(y);
    lemma_four_hundredth_years(y);
    let fourth = (y + 4) / 4 - (y + 3) / 4;
    let hundredth = (y + 100) / 100 - (y + 99) / 100;
    let four_hundredth = (y + 400) / 400 - (y + 399) / 400;
    assert(fourth - hundredth + four_hundredth == year_len(y) - 365);
}

proof fn lemma_year_era(y: int)
    requires
        y >= 0,
    ensures
        days_before_year(y + 400) == days_before_year(y) + 146_097,
{
}

proof fn lemma_leap_era(y: int)
    ensures
        leap(y + 400) == leap(y),
{
    assert((y + 400) % 4 == y % 4);
    assert((y + 400) % 100 == y % 100);
    assert((y + 400) % 400 == y % 400);
}

proof fn lemma_year_monotone(a: int, b: int)
    requires
        0 <= a <= b,
    ensures
        days_before_year(a) <= days_before_year(b),
    decreases b - a,
{
    if a < b {
        lemma_year_step(a);
        lemma_year_monotone(a + 1, b);
    }
}

proof fn lemma_months(y: int)
    ensures
        days_before_month(y, 1) == 0,
        days_before_month(y, 2) == 31,
        days_before_month(y, 3) == 31 + month_len(y, 2),
        days_before_month(y, 4) == 62 + month_len(y, 2),
        days_before_month(y, 5) == 92 + month_len(y, 2),
        days_before_month(y, 6) == 123 + month_len(y, 2),
        days_before_month(y, 7) == 153 + month_len(y, 2),
        days_before_month(y, 8) == 184 + month_len(y, 2),
        days_before_month(y, 9) == 215 + month_len(y, 2),
        days_before_month(y, 10) == 245 + month_len(y, 2),
        days_before_month(y, 11) == 276 + month_len(y, 2),
        days_before_month(y, 12) == 306 + month_len(y, 2),
        days_before_month(y, 13) == year_len(y),
{
    reveal_with_fuel(days_before_month, 14);
}

/// There is one date only for a number of days.
pub proof fn dates_are_unique(y1: int, m1: int, d1: int, y2: int, m2: int, d2: int)
    requires
        valid_date(y1, m1, d1),
        valid_date(y2, m2, d2),
        day_number(y1, m1, d1) == day_number(y2, m2, d2),
    ensures
        y1 == y2,
        m1 == m2,
        d1 == d2,
{
    lemma_months(y1);
    lemma_months(y2);
    lemma_year_step(y1);
    lemma_year_step(y2);
    if y1 < y2 {
        lemma_year_monotone(y1 + 1, y2);
    }
    if y2 < y1 {
        lemma_year_monotone(y2 + 1, y1);
    }
}

/// A date is the one of its own number of days.
proof fn lemma_date_of(y: int, m: int, d: int)
    requires
        valid_date(y, m, d),
    ensures
        date_of(day_number(y, m, d)) == (y, m, d),
{
    let days = day_number(y, m, d);
    let t = (y, m, d);
    assert(valid_date(t.0, t.1, t.2) && day_number(t.0, t.1, t.2) == days);
    let c = date_of(days);
    dates_are_unique(c.0, c.1, c.2, y, m, d);
}

/// The text of a date and a time of day.
pub open spec fn utc_text(date: (int, int, int), ms: int) -> Seq<char> {
    date_text(date) + seq!['T'] + clock_text(ms) + seq!['.'] + numbers::padded(
        (ms % 1000) as nat,
        3,
    ) + seq!['Z']
}

/// The text of a date.
pub open spec fn date_text(date: (int, int, int)) -> Seq<char> {
    numbers::padded(date.0 as nat, 4) + seq!['-'] + (numbers::padded(date.1 as nat, 2) + seq!['-']
        + numbers::padded(date.2 as nat, 2))
}

/// The text of a time of day, to the second.
pub open spec fn clock_text(ms: int) -> Seq<char> {
    numbers::padded((ms / 3_600_000) as nat, 2) + seq![':'] + (numbers::padded(
        (ms / 60_000 % 60) as nat,
        2,
    ) + seq![':'] + numbers::padded((ms / 1000 % 60) as nat, 2))
}

/// A moment as `YYYY-MM-DDThh:mm:ss.mmmZ`.
pub open spec fn formatted(ms: int) -> Seq<char> {
    utc_text(date_of(ms / (DAY_MS as int)), ms % (DAY_MS as int))
}

fn is_leap(y: u64) -> (r: bool)
    ensures
        r == leap(y as int),
{
    y % 4 == 0 && (y % 100 != 0 || y % 400 == 0)
}

fn month_days(y: u64, m: u64) -> (r: u64)
    ensures
        r == month_len(y as int, m as int),
{
    if m == 2 {
        if is_leap(y) {
            29
        } else {
            28
        }
    } else if m == 4 || m == 6 || m == 9 || m == 11 {
        30
    } else {
        31
    }
}

/// The date that lies `days` days after 1970-01-01.
fn civil(days: u64) -> (r: (u64, u64, u64))
    requires
        days <= u64::MAX / DAY_MS,
    ensures
        valid_date(r.0 as int, r.1 as int, r.2 as int),
        day_number(r.0 as int, r.1 as int, r.2 as int) == days,
        (r.0 as int, r.1 as int, r.2 as int) == date_of(days as int),
{
    // Whole cycles of the calendar first, then years and months one by one.
    let z: u64 = days + EPOCH_DAYS;
    let cycles: u64 = z / 146_097;
    let mut left: u64 = z % 146_097;
    let mut y: u64 = 0;
    let ghost base = 400 * cycles;
    assert(days_before_year(0) == 0);
    while left >= 366 || (left == 365 && !is_leap(y))
        invariant
            y <= 400,
            left < 146_097,
            days_before_year(y as int) + left == z % 146_097,
        decreases left,
    {
        proof {
            lemma_year_step(y as int);
            if y == 400 {
                lemma_year_era(0);
                assert(false);
            }
        }
        if is_leap(y) {
            left -= 366;
        } else {
            left -= 365;
        }
        y += 1;
    }
    let year: u64 = y + 400 * cycles;
    proof {
        lemma_eras(y as int, cycles as int);
        lemma_months(year as int);
        assert(leap(year as int) == leap(y as int));
        assert(days_before_month(year as int, 1) == 0);
    }
    let mut m: u64 = 1;
    while m < 12 && left >= month_days(year, m)
        invariant
            1 <= m <= 12,
            left <= 365,
            days_before_month(year as int, m as int) + left < year_len(year as int),
            days_before_year(year as int) + days_before_month(year as int, m as int) + left == z,
        decreases 12 - m,
    {
        left -= month_days(year, m);
        m += 1;
    }
    proof {
        lemma_months(year as int);
        lemma_date_of(year as int, m as int, left + 1);
    }
    (year, m, left + 1)
}

#[verifier::spinoff_prover]
proof fn lemma_step_era(y: int)
    requires
        y >= 0,
    ensures
        days_before_year(y + 400) == days_before_year(y) + 146_097,
        leap(y + 400) == leap(y),
{
    lemma_year_era(y);
    lemma_leap_era(y);
}

#[verifier::spinoff_prover]
proof fn lemma_eras(y: int, cycles: int)
    requires
        y >= 0,
        cycles >= 0,
    ensures
        days_before_year(y + 400 * cycles) == days_before_year(y) + 146_097 * cycles,
        leap(y + 400 * cycles) == leap(y),
    decreases cycles,
{
    if cycles > 0 {
        let before = y + 400 * (cycles - 1);
        lemma_eras(y, cycles - 1);
        assert(y + 400 * cycles == before + 400);
        lemma_step_era(before);
    }
}

/// Writes a moment as `YYYY-MM-DDThh:mm:ss.mmmZ`.
pub fn format_utc(ms: u64) -> (r: String)
    ensures
        r@ == formatted(ms as int),
{
    let (year, month, day) = civil(ms / DAY_MS);
    let rem: u64 = ms % DAY_MS;
    let mut v = padded_of(year, 4);
    v.push('-');
    let month_digits = padded_of(month, 2);
    extend(&mut v, &month_digits);
    v.push('-');
    let day_digits = padded_of(day, 2);
    extend(&mut v, &day_digits);
    assert(v@ =~= date_text((year as int, month as int, day as int)));
    v.push('T');
    let mut c = padded_of(rem / 3_600_000, 2);
    c.push(':');
    let minutes = padded_of(rem / 60_000 % 60, 2);
    extend(&mut c, &minutes);
    c.push(':');
    let seconds = padded_of(rem / 1000 % 60, 2);
    extend(&mut c, &seconds);
    assert(c@ =~= clock_text(rem as int));
    extend(&mut v, &c);
    v.push('.');
    let millis = padded_of(rem % 1000, 3);
    extend(&mut v, &millis);
    v.push('Z');
    assert(v@ =~= formatted(ms as int));
    string_of(&v)
}

// ---------------------------------------------------------------------------
// Reading
// ---------------------------------------------------------------------------

/// The part of a second that a run of digits stands for, in milliseconds; what
/// comes after the third digit is dropped.
pub open spec fn fraction_ms(f: Seq<char>) -> nat {
    numbers::value((f + seq!['0', '0', '0']).take(3))
}

/// The text of the time of day, and the digits behind its dot.
pub open spec fn split_fraction(time: Seq<char>) -> (Seq<char>, Option<Seq<char>>) {
    match text::index_from(time, '.', 0) {
        Some(i) => (time.take(i), Some(time.skip(i + 1))),
        None => (time, None),
    }
}

/// Milliseconds since 1970 of a date and a time of day. The day of the month
/// goes up to 31 in every month, and runs over into the next.
pub open spec fn moment(date: (int, int, int), hour: int, min: int, sec: int, ms: int) -> int {
    (day_number(date.0, date.1, date.2) * 86_400 + hour * 3600 + min * 60 + sec) * 1000 + ms
}

/// The number in a field of `width` characters, all of them digits.
pub open spec fn field(s: Seq<char>, width: int) -> Option<int> {
    if s.len() == width && numbers::all_digits(s) {
        Some(numbers::value(s) as int)
    } else {
        None
    }
}

/// Three fields between separators: the first of `first` digits, the others of
/// two.
pub open spec fn three_fields(s: Seq<char>, c: char, first: int) -> Option<(int, int, int)> {
    let parts = text::split(s, c);
    if parts.len() == 3 {
        match (field(parts[0], first), field(parts[1], 2), field(parts[2], 2)) {
            (Some(a), Some(b), Some(d)) => Some((a, b, d)),
            _ => None,
        }
    } else {
        None
    }
}

/// The date of a text `YYYY-MM-DD`.
pub open spec fn parsed_date(s: Seq<char>) -> Option<(int, int, int)> {
    match three_fields(s, '-', 4) {
        Some((y, m, d)) => if 1 <= m <= 12 && 1 <= d <= 31 {
            Some((y, m, d))
        } else {
            None
        },
        None => None,
    }
}

/// The time of day of a text `hh:mm:ss`. The sixtieth second may be a leap
/// second.
pub open spec fn parsed_clock(s: Seq<char>) -> Option<(int, int, int)> {
    match three_fields(s, ':', 2) {
        Some((h, m, sec)) => if h <= 23 && m <= 59 && sec <= 60 {
            Some((h, m, sec))
        } else {
            None
        },
        None => None,
    }
}

/// The milliseconds of an optional fraction: the outer `None` rejects it.
pub open spec fn parsed_fraction(f: Option<Seq<char>>) -> Option<int> {
    match f {
        None => Some(0),
        Some(d) => if d.len() > 0 && numbers::all_digits(d) {
            Some(fraction_ms(d) as int)
        } else {
            None
        },
    }
}

/// The moment that a text `YYYY-MM-DDThh:mm:ss[.fff]Z` stands for, each letter a
/// digit. None of any other text, and of a moment before 1970.
pub open spec fn parsed_utc(s: Seq<char>) -> Option<int> {
    if s.len() == 0 || s.last() != 'Z' {
        None
    } else {
        let body = s.drop_last();
        match text::index_from(body, 'T', 0) {
            None => None,
            Some(t) => {
                let (hms, frac) = split_fraction(body.skip(t + 1));
                match (parsed_date(body.take(t)), parsed_clock(hms), parsed_fraction(frac)) {
                    (Some(date), Some((h, m, sec)), Some(ms)) => {
                        let at = moment(date, h, m, sec, ms);
                        if at >= 0 {
                            Some(at)
                        } else {
                            None
                        }
                    },
                    _ => None,
                }
            },
        }
    }
}

fn field_of(v: &[char], width: usize) -> (r: Option<u64>)
    requires
        width <= 4,
    ensures
        match r {
            Some(n) => field(v@, width as int) == Some(n as int) && n <= 9999,
            None => field(v@, width as int) is None,
        },
{
    assert(v@.skip(0) =~= v@);
    if v.len() != width || !numbers::digits_from(v, 0) {
        return None;
    }
    let mut n: u64 = 0;
    let mut i: usize = 0;
    assert(v@.take(0) =~= seq![]);
    while i < v.len()
        invariant
            i <= v@.len() <= 4,
            numbers::all_digits(v@),
            n == numbers::value(v@.take(i as int)),
            i == 0 ==> n == 0,
            i == 1 ==> n <= 9,
            i == 2 ==> n <= 99,
            i == 3 ==> n <= 999,
            n <= 9999,
        decreases v.len() - i,
    {
        assert(v@.take(i + 1).drop_last() =~= v@.take(i as int));
        assert(numbers::is_digit(v@[i as int]));
        n = n * 10 + (v[i] as u64 - '0' as u64);
        i += 1;
    }
    assert(v@.take(i as int) =~= v@);
    Some(n)
}

fn three_of(v: &[char], c: char, first: usize) -> (r: Option<(u64, u64, u64)>)
    requires
        first <= 4,
    ensures
        match r {
            Some(t) => three_fields(v@, c, first as int) == Some(
                (t.0 as int, t.1 as int, t.2 as int),
            ) && t.0 <= 9999,
            None => three_fields(v@, c, first as int) is None,
        },
{
    let parts = split_at_char(v, c);
    let ghost pieces = text::views(parts@);
    if parts.len() != 3 {
        return None;
    }
    assert(pieces[0] == parts@[0]@ && pieces[1] == parts@[1]@ && pieces[2] == parts@[2]@);
    match (field_of(&parts[0], first), field_of(&parts[1], 2), field_of(&parts[2], 2)) {
        (Some(a), Some(b), Some(d)) => Some((a, b, d)),
        _ => None,
    }
}

fn fraction_of(f: &[char]) -> (r: Option<u64>)
    ensures
        match r {
            Some(ms) => parsed_fraction(Some(f@)) == Some(ms as int) && ms <= 999,
            None => parsed_fraction(Some(f@)) is None,
        },
{
    assert(f@.skip(0) =~= f@);
    if f.len() == 0 || !numbers::digits_from(f, 0) {
        return None;
    }
    let mut three: Vec<char> = Vec::new();
    three.push(f[0]);
    three.push(
        if f.len() > 1 {
            f[1]
        } else {
            '0'
        },
    );
    three.push(
        if f.len() > 2 {
            f[2]
        } else {
            '0'
        },
    );
    let ghost wanted = (f@ + seq!['0', '0', '0']).take(3);
    proof {
        assert(three@ =~= wanted);
        assert(numbers::is_digit(wanted[0]) && numbers::is_digit(wanted[1]) && numbers::is_digit(
            wanted[2],
        ));
        assert(wanted.drop_last().drop_last().drop_last() =~= Seq::<char>::empty());
        assert(numbers::value(wanted.drop_last().drop_last().drop_last()) == 0);
        assert(numbers::value(wanted.drop_last().drop_last()) <= 9);
        assert(numbers::value(wanted.drop_last()) <= 99);
        assert(numbers::value(wanted) <= 999);
    }
    parse_u64(&three)
}

fn before_month(y: u64, m: u64) -> (r: u64)
    requires
        1 <= m <= 12,
    ensures
        r == days_before_month(y as int, m as int),
        r <= 366,
{
    proof {
        lemma_months(y as int);
    }
    let feb = month_days(y, 2);
    if m == 1 {
        0
    } else if m == 2 {
        31
    } else if m == 3 {
        31 + feb
    } else if m == 4 {
        62 + feb
    } else if m == 5 {
        92 + feb
    } else if m == 6 {
        123 + feb
    } else if m == 7 {
        153 + feb
    } else if m == 8 {
        184 + feb
    } else if m == 9 {
        215 + feb
    } else if m == 10 {
        245 + feb
    } else if m == 11 {
        276 + feb
    } else {
        306 + feb
    }
}

/// Milliseconds since 1970, where the moment is not before it.
fn moment_of(date: (u64, u64, u64), hour: u64, min: u64, sec: u64, ms: u64) -> (r: Option<u64>)
    requires
        date.0 <= 9999,
        1 <= date.1 <= 12,
        1 <= date.2 <= 31,
        hour <= 23,
        min <= 59,
        sec <= 60,
        ms <= 999,
    ensures
        ({
            let at = moment(
                (date.0 as int, date.1 as int, date.2 as int),
                hour as int,
                min as int,
                sec as int,
                ms as int,
            );
            match r {
                Some(v) => v == at,
                None => at < 0,
            }
        }),
{
    let (y, m, d) = date;
    let days: u64 = 365 * y + (y + 3) / 4 + (y + 399) / 400 - (y + 99) / 100 + before_month(y, m)
        + d - 1;
    assert(days - EPOCH_DAYS == day_number(y as int, m as int, d as int));
    let secs: u64 = hour * 3600 + min * 60 + sec;
    if days < EPOCH_DAYS {
        // Only the leap second at the end of 1969 reaches 1970.
        let short: u64 = (EPOCH_DAYS - days) * 86_400;
        if secs < short {
            return None;
        }
        return Some((secs - short) * 1000 + ms);
    }
    let all: u64 = (days - EPOCH_DAYS) * 86_400 + secs;
    Some(all * 1000 + ms)
}

/// Reads a text `YYYY-MM-DDThh:mm:ss[.fff]Z`; `None` of any other text. What
/// goes beyond milliseconds is dropped.
pub fn parse_iso8601_utc(s: &str) -> (r: Option<u64>)
    ensures
        match r {
            Some(ms) => parsed_utc(s@) == Some(ms as int),
            None => parsed_utc(s@) is None,
        },
{
    let all = chars_of(s);
    let total: usize = all.len();
    if total == 0 || all[total - 1] != 'Z' {
        return None;
    }
    let body = piece(&all, 0, total - 1);
    assert(body@ =~= all@.drop_last());
    let t = match index_at(&body, 'T', 0) {
        Some(t) => t,
        None => {
            return None;
        },
    };
    let date = piece(&body, 0, t);
    assert(date@ =~= body@.take(t as int));
    let time = piece(&body, t + 1, total - 1);
    assert(time@ =~= body@.skip(t + 1));
    let (hms, millis) = match index_at(&time, '.', 0) {
        Some(i) => {
            let hms = piece(&time, 0, i);
            assert(hms@ =~= time@.take(i as int));
            let frac = piece(&time, i + 1, time.len());
            assert(frac@ =~= time@.skip(i + 1));
            (hms, fraction_of(&frac))
        },
        None => (time, Some(0)),
    };
    match (three_of(&date, '-', 4), three_of(&hms, ':', 2), millis) {
        (Some((y, m, d)), Some((hour, min, sec)), Some(ms)) => {
            if m < 1 || m > 12 || d < 1 || d > 31 || hour > 23 || min > 59 || sec > 60 {
                return None;
            }
            moment_of((y, m, d), hour, min, sec, ms)
        },
        _ => None,
    }
}

// ---------------------------------------------------------------------------
// Laws
// ---------------------------------------------------------------------------

proof fn lemma_no_char(n: nat, width: int, c: char)
    requires
        !numbers::is_digit(c),
    ensures
        !numbers::padded(n, width).contains(c),
{
    numbers::lemma_padded(n, width);
}

proof fn lemma_three(a: nat, first: int, b: nat, d: nat, c: char)
    requires
        !numbers::is_digit(c),
        first == 2 && a < 100 || first == 4 && a <= 9999,
        b < 100,
        d < 100,
    ensures
        three_fields(
            numbers::padded(a, first) + seq![c] + (numbers::padded(b, 2) + seq![c]
                + numbers::padded(d, 2)),
            c,
            first,
        ) == Some((a as int, b as int, d as int)),
{
    let x = numbers::padded(a, first);
    let y = numbers::padded(b, 2);
    let z = numbers::padded(d, 2);
    numbers::lemma_padded(a, first);
    numbers::lemma_padded(b, 2);
    numbers::lemma_padded(d, 2);
    numbers::lemma_dec_len(a);
    numbers::lemma_dec_len(b);
    numbers::lemma_dec_len(d);
    lemma_no_char(a, first, c);
    lemma_no_char(b, 2, c);
    lemma_no_char(d, 2, c);
    text::lemma_split_first(x, c, y + seq![c] + z);
    text::lemma_split_first(y, c, z);
    text::lemma_split_one(z, c);
    assert(text::split(x + seq![c] + (y + seq![c] + z), c) =~= seq![x, y, z]);
}

/// Reading a moment that was written gives it back, up to the year 9999: a later
/// year has more digits than are read.
pub proof fn parse_undoes_format(ms: u64)
    requires
        ms < YEAR_10000_MS,
    ensures
        parsed_utc(formatted(ms as int)) == Some(ms as int),
{
    let days = ms as int / (DAY_MS as int);
    let rem = ms as int % (DAY_MS as int);
    lemma_every_day_has_a_date(days);
    let date = date_of(days);
    lemma_year_bound(date.0, date.1, date.2, days);
    lemma_time_of_day(days, rem);
    lemma_written_parts(date, rem);
}

proof fn lemma_time_of_day(days: int, rem: int)
    requires
        0 <= rem < DAY_MS,
    ensures
        ((days * 86_400 + rem / 3_600_000 * 3600 + rem / 60_000 % 60 * 60 + rem / 1000 % 60) * 1000
            + rem % 1000) == days * 86_400_000 + rem,
        0 <= rem / 3_600_000 <= 23,
        0 <= rem / 60_000 % 60 <= 59,
        0 <= rem / 1000 % 60 <= 59,
{
}

/// A text is read part by part.
proof fn lemma_parts(dt: Seq<char>, ct: Seq<char>, ft: Seq<char>)
    requires
        !dt.contains('T'),
        !ct.contains('.'),
    ensures
        parsed_utc(dt + seq!['T'] + ct + seq!['.'] + ft + seq!['Z']) == match (
            parsed_date(dt),
            parsed_clock(ct),
            parsed_fraction(Some(ft)),
        ) {
            (Some(date), Some((h, m, sec)), Some(ms)) => {
                let at = moment(date, h, m, sec, ms);
                if at >= 0 {
                    Some(at)
                } else {
                    None
                }
            },
            _ => None,
        },
{
    let s = dt + seq!['T'] + ct + seq!['.'] + ft + seq!['Z'];
    let body = s.drop_last();
    assert(body =~= dt + seq!['T'] + (ct + seq!['.'] + ft));
    assert(s.last() == 'Z');
    lemma_find_after(dt, 'T', ct + seq!['.'] + ft);
    assert(body.take(dt.len() as int) =~= dt);
    let time = body.skip(dt.len() + 1int);
    assert(time =~= ct + seq!['.'] + ft);
    lemma_find_after(ct, '.', ft);
    assert(time.take(ct.len() as int) =~= ct);
    assert(time.skip(ct.len() + 1int) =~= ft);
    assert(split_fraction(time) == (ct, Some(ft)));
}

proof fn lemma_fraction_part(ms: nat)
    requires
        ms < 1000,
    ensures
        parsed_fraction(Some(numbers::padded(ms, 3))) == Some(ms as int),
{
    let ft = numbers::padded(ms, 3);
    numbers::lemma_padded(ms, 3);
    numbers::lemma_dec_len(ms);
    assert((ft + seq!['0', '0', '0']).take(3) =~= ft);
}

/// The parts of a written moment are read back.
proof fn lemma_written_parts(date: (int, int, int), rem: int)
    requires
        0 <= rem < DAY_MS,
        valid_date(date.0, date.1, date.2),
        date.0 <= 9999,
        0 <= day_number(date.0, date.1, date.2) * 86_400_000 + rem,
    ensures
        parsed_utc(utc_text(date, rem)) == Some(
            day_number(date.0, date.1, date.2) * 86_400_000 + rem,
        ),
{
    let days = day_number(date.0, date.1, date.2);
    lemma_time_of_day(days, rem);
    assert(moment(date, rem / 3_600_000, rem / 60_000 % 60, rem / 1000 % 60, rem % 1000) == days
        * 86_400_000 + rem);
    lemma_date_part(date);
    lemma_clock_part(rem);
    lemma_fraction_part((rem % 1000) as nat);
    lemma_parts(date_text(date), clock_text(rem), numbers::padded((rem % 1000) as nat, 3));
}

proof fn lemma_find_after(a: Seq<char>, c: char, rest: Seq<char>)
    requires
        !a.contains(c),
    ensures
        text::index_from(a + seq![c] + rest, c, 0) == Some(a.len() as int),
{
    let s = a + seq![c] + rest;
    assert forall|j: int| 0 <= j < a.len() implies s[j] != c by {
        assert(a.contains(a[j]));
    }
    text::lemma_index_from_is(s, c, 0, a.len() as int);
}

proof fn lemma_date_part(date: (int, int, int))
    requires
        valid_date(date.0, date.1, date.2),
        date.0 <= 9999,
    ensures
        parsed_date(date_text(date)) == Some(date),
        !date_text(date).contains('T'),
{
    lemma_months(date.0);
    lemma_three(date.0 as nat, 4, date.1 as nat, date.2 as nat, '-');
    lemma_no_char(date.0 as nat, 4, 'T');
    lemma_no_char(date.1 as nat, 2, 'T');
    lemma_no_char(date.2 as nat, 2, 'T');
    lemma_triple_lacks(
        numbers::padded(date.0 as nat, 4),
        numbers::padded(date.1 as nat, 2),
        numbers::padded(date.2 as nat, 2),
        '-',
        'T',
    );
}

proof fn lemma_clock_part(rem: int)
    requires
        0 <= rem < DAY_MS,
    ensures
        parsed_clock(clock_text(rem)) == Some(
            (rem / 3_600_000, rem / 60_000 % 60, rem / 1000 % 60),
        ),
        !clock_text(rem).contains('.'),
{
    lemma_time_of_day(0, rem);
    let hour = (rem / 3_600_000) as nat;
    let min = (rem / 60_000 % 60) as nat;
    let sec = (rem / 1000 % 60) as nat;
    lemma_three(hour, 2, min, sec, ':');
    lemma_no_char(hour, 2, '.');
    lemma_no_char(min, 2, '.');
    lemma_no_char(sec, 2, '.');
    lemma_triple_lacks(
        numbers::padded(hour, 2),
        numbers::padded(min, 2),
        numbers::padded(sec, 2),
        ':',
        '.',
    );
}

proof fn lemma_triple_lacks(a: Seq<char>, b: Seq<char>, d: Seq<char>, sep: char, c: char)
    requires
        !a.contains(c),
        !b.contains(c),
        !d.contains(c),
        sep != c,
    ensures
        !(a + seq![sep] + (b + seq![sep] + d)).contains(c),
{
    let s = a + seq![sep] + (b + seq![sep] + d);
    if s.contains(c) {
        let i = choose|i: int| 0 <= i < s.len() && s[i] == c;
        let n = a.len() as int;
        let m = b.len() as int;
        if i < n {
            assert(a[i] == c);
        } else if i > n && i < n + 1 + m {
            assert(b[i - n - 1] == c);
        } else if i > n + 1 + m {
            assert(d[i - n - m - 2] == c);
        }
    }
}

proof fn lemma_year_bound(y: int, m: int, d: int, days: int)
    requires
        valid_date(y, m, d),
        day_number(y, m, d) == days,
        0 <= days < YEAR_10000_MS / DAY_MS,
    ensures
        y <= 9999,
{
    lemma_months(y);
}

/// Every day since 1970 has a date.
pub proof fn lemma_every_day_has_a_date(days: int)
    requires
        days >= 0,
    ensures
        ({
            let t = date_of(days);
            valid_date(t.0, t.1, t.2) && day_number(t.0, t.1, t.2) == days
        }),
{
    let z = days + EPOCH_DAYS;
    let y = lemma_year_at(z, 0);
    let left = z - days_before_year(y);
    lemma_year_step(y);
    lemma_months(y);
    let m: int = if left < days_before_month(y, 2) {
        1
    } else if left < days_before_month(y, 3) {
        2
    } else if left < days_before_month(y, 4) {
        3
    } else if left < days_before_month(y, 5) {
        4
    } else if left < days_before_month(y, 6) {
        5
    } else if left < days_before_month(y, 7) {
        6
    } else if left < days_before_month(y, 8) {
        7
    } else if left < days_before_month(y, 9) {
        8
    } else if left < days_before_month(y, 10) {
        9
    } else if left < days_before_month(y, 11) {
        10
    } else if left < days_before_month(y, 12) {
        11
    } else {
        12
    };
    let d = left - days_before_month(y, m) + 1;
    assert(valid_date(y, m, d));
    lemma_date_of(y, m, d);
}

proof fn lemma_year_at(z: int, from: int) -> (y: int)
    requires
        from >= 0,
        days_before_year(from) <= z,
    ensures
        y >= from,
        days_before_year(y) <= z < days_before_year(y + 1),
    decreases z - days_before_year(from),
{
    lemma_year_step(from);
    if z < days_before_year(from + 1) {
        from
    } else {
        lemma_year_at(z, from + 1)
    }
}

} // verus!
