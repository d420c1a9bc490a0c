//! Timestamps of transcript entries.
use crate::json::opt_tree;
use crate::json::Json;
use crate::json::JsonTree;
use crate::text::chars_of;
use crate::text::decimal;
use crate::text::find_char;
use crate::text::is_digit;
use crate::text::lemma_find_char;
use crate::text::parse_u64;
use crate::text::parsed_u64;
use crate::text::split_chars;
use crate::text::split_on;
use crate::text::split_once;
use crate::text::split_once_char;
use crate::text::trim_char_end;
use crate::text::trim_end_char;
use vstd::prelude::*;

verus! {

/// The fields of a timestamp, as they are written.
#[derive(Clone, Copy, PartialEq, Eq, Structural, Debug)]
pub struct CivilTime {
    pub year: u64,
    pub month: u64,
    pub day: u64,
    pub hour: u64,
    pub minute: u64,
    pub second: u64,
    pub millis: u64,
}

/// The first three characters of a fraction of a second, with zeros after them
/// where there are fewer.
pub open spec fn three_digits(frac: Seq<char>) -> Seq<char> {
    Seq::new(
        3,
        |i: int|
            if i < frac.len() {
                frac[i]
            } else {
                '0'
            },
    )
}

/// The milliseconds that a fraction of a second denotes, or 0 where it is no
/// number.
pub open spec fn fraction_millis(frac: Seq<char>) -> u64 {
    match parsed_u64(three_digits(frac)) {
        Some(n) => n,
        None => 0,
    }
}

/// The number written in the `i`th of the parts.
pub open spec fn part_number(parts: Seq<Seq<char>>, i: int) -> Option<u64> {
    if i < parts.len() {
        parsed_u64(parts[i])
    } else {
        None
    }
}

/// The fields of a text of the form `YYYY-MM-DDThh:mm[:ss][.fff][Z]`.
pub open spec fn timestamp_fields(s: Seq<char>) -> Option<CivilTime> {
    match split_once(s, 'T') {
        None => None,
        Some((date, zoned)) => {
            let time = trim_char_end(zoned, 'Z');
            let hms = match split_once(time, '.') {
                Some((h, _)) => h,
                None => time,
            };
            let millis = match split_once(time, '.') {
                Some((_, f)) => fraction_millis(f),
                None => 0,
            };
            let d = split_on(date, '-');
            let t = split_on(hms, ':');
            let second = if t.len() > 2 {
                parsed_u64(t[2])
            } else {
                Some(0u64)
            };
            match (
                part_number(d, 0),
                part_number(d, 1),
                part_number(d, 2),
                part_number(t, 0),
                part_number(t, 1),
                second,
            ) {
                (
                    Some(year),
                    Some(month),
                    Some(day),
                    Some(hour),
                    Some(minute),
                    Some(second),
                ) => Some(CivilTime { year, month, day, hour, minute, second, millis }),
                _ => None,
            }
        },
    }
}

/// The year that begins with March and holds the given month.
pub open spec fn march_year(year: int, month: int) -> int {
    if month <= 2 {
        year - 1
    } else {
        year
    }
}

/// The day within the year that begins with March, from 0.
pub open spec fn march_day(month: int, day: int) -> int {
    let mp = if month > 2 {
        month - 3
    } else {
        month + 9
    };
    (153 * mp + 2) / 5 + day - 1
}

/// The days from 1970-01-01 to the given day of the Gregorian calendar.
pub open spec fn civil_days(year: int, month: int, day: int) -> int {
    let y = march_year(year, month);
    let era = y / 400;
    let yoe = y - era * 400;
    era * 146097 + (yoe * 365 + yoe / 4 - yoe / 100 + march_day(month, day)) - 719468
}

/// The milliseconds from the beginning of 1970.
pub open spec fn epoch_millis(t: CivilTime) -> int {
    (civil_days(t.year as int, t.month as int, t.day as int) * 86400 + t.hour * 3600 + t.minute * 60
        + t.second) * 1000 + t.millis
}

/// Whether every step of the count from 1970 stays within unsigned 64 bits.
pub open spec fn representable(t: CivilTime) -> bool {
    &&& t.month > 2 || t.year > 0
    &&& march_day(t.month as int, t.day as int) >= 0
    &&& civil_days(t.year as int, t.month as int, t.day as int) >= 0
    &&& epoch_millis(t) <= u64::MAX
}

/// The time that a JSON value denotes, in milliseconds from 1970, where it
/// denotes one that can be counted so.
pub open spec fn timestamp_value(v: Option<JsonTree>) -> Option<u64> {
    match v {
        Some(JsonTree::Text(s)) => match timestamp_fields(s) {
            Some(t) => if representable(t) {
                Some(epoch_millis(t) as u64)
            } else {
                None
            },
            None => None,
        },
        _ => None,
    }
}

/// The milliseconds that a fraction of a second denotes.
fn millis_of(frac: &[char]) -> (r: u64)
    ensures
        r == fraction_millis(frac@),
{
    let mut digits: Vec<char> = Vec::new();
    let mut i: usize = 0;
    while i < 3
        invariant
            i <= 3,
            digits@ == three_digits(frac@).take(i as int),
        decreases 3 - i,
    {
        digits.push(
            if i < frac.len() {
                frac[i]
            } else {
                '0'
            },
        );
        i += 1;
        assert(digits@ =~= three_digits(frac@).take(i as int));
    }
    assert(digits@ =~= three_digits(frac@));
    match parse_u64(digits.as_slice()) {
        Some(n) => n,
        None => 0,
    }
}

/// The number written in the `i`th of the parts.
fn number_at(parts: &Vec<Vec<char>>, i: usize) -> (r: Option<u64>)
    ensures
        r == part_number(crate::text::seqs(parts@), i as int),
{
    if i < parts.len() {
        assert(crate::text::seqs(parts@)[i as int] == parts@[i as int]@);
        parse_u64(parts[i].as_slice())
    } else {
        None
    }
}

/// Reads the fields of a timestamp.
pub fn parse_timestamp(s: &str) -> (r: Option<CivilTime>)
    ensures
        r == timestamp_fields(s@),
{
    let chars = chars_of(s);
    let (date, zoned) = match split_once_char(chars.as_slice(), 'T') {
        Some(p) => p,
        None => {
            return None;
        },
    };
    let time = trim_end_char(zoned.as_slice(), 'Z');
    let mut millis: u64 = 0;
    let hms = match split_once_char(time.as_slice(), '.') {
        Some((h, f)) => {
            millis = millis_of(f.as_slice());
            h
        },
        None => time,
    };
    let d = split_chars(date.as_slice(), '-');
    let t = split_chars(hms.as_slice(), ':');
    let year = match number_at(&d, 0) {
        Some(n) => n,
        None => {
            return None;
        },
    };
    let month = match number_at(&d, 1) {
        Some(n) => n,
        None => {
            return None;
        },
    };
    let day = match number_at(&d, 2) {
        Some(n) => n,
        None => {
            return None;
        },
    };
    let hour = match number_at(&t, 0) {
        Some(n) => n,
        None => {
            return None;
        },
    };
    let minute = match number_at(&t, 1) {
        Some(n) => n,
        None => {
            return None;
        },
    };
    let mut second: u64 = 0;
    if t.len() > 2 {
        match number_at(&t, 2) {
            Some(n) => {
                second = n;
            },
            None => {
                return None;
            },
        }
    }
    Some(CivilTime { year, month, day, hour, minute, second, millis })
}

/// The milliseconds from 1970, where every step of the count stays within
/// unsigned 64 bits.
pub fn count_millis(t: CivilTime) -> (r: Option<u64>)
    ensures
        match r {
            Some(ms) => representable(t) && ms == epoch_millis(t),
            None => !representable(t),
        },
{
    if t.month <= 2 && t.year == 0 {
        return None;
    }
    let y: i128 = if t.month <= 2 {
        t.year as i128 - 1
    } else {
        t.year as i128
    };
    let era: i128 = y / 400;
    let yoe: i128 = y - era * 400;
    let mp: i128 = if t.month > 2 {
        t.month as i128 - 3
    } else {
        t.month as i128 + 9
    };
    let doy: i128 = (153 * mp + 2) / 5 + t.day as i128 - 1;
    if doy < 0 {
        return None;
    }
    let days: i128 = era * 146097 + (yoe * 365 + yoe / 4 - yoe / 100 + doy) - 719468;
    if days < 0 {
        return None;
    }
    let total: i128 = (days * 86400 + t.hour as i128 * 3600 + t.minute as i128 * 60
        + t.second as i128) * 1000 + t.millis as i128;
    if total > 0xffff_ffff_ffff_ffff {
        return None;
    }
    Some(total as u64)
}

/// The timestamp that `v` holds, in milliseconds from 1970.
pub fn timestamp_ms(v: Option<&Json>) -> (r: Option<u64>)
    ensures
        r == timestamp_value(opt_tree(v)),
{
    match v {
        Some(Json::Text(s)) => match parse_timestamp(s.as_str()) {
            Some(t) => count_millis(t),
            None => None,
        },
        _ => None,
    }
}

/// Whether a year of the Gregorian calendar has a 29th of February.
pub open spec fn is_leap(year: int) -> bool {
    year % 4 == 0 && (year % 100 != 0 || year % 400 == 0)
}

/// The number of days of a month.
pub open spec fn month_days(year: int, month: int) -> int {
    if month == 2 {
        if is_leap(year) {
            29
        } else {
            28
        }
    } else if month == 4 || month == 6 || month == 9 || month == 11 {
        30
    } else {
        31
    }
}

/// Whether the Gregorian calendar has the given day.
pub open spec fn is_date(year: int, month: int, day: int) -> bool {
    0 < year && 1 <= month <= 12 && 1 <= day <= month_days(year, month)
}

/// The day after the given one.
pub open spec fn next_day(year: int, month: int, day: int) -> (int, int, int) {
    if day < month_days(year, month) {
        (year, month, day + 1)
    } else if month < 12 {
        (year, month + 1, 1)
    } else {
        (year + 1, 1, 1)
    }
}

proof fn lemma_end_of_february(year: int)
    requires
        0 < year,
    ensures
        civil_days(year, 3, 1) == civil_days(year, 2, month_days(year, 2)) + 1,
{
    let era = (year - 1) / 400;
    let yoe = (year - 1) - era * 400;
    let n = yoe + 1;
    assert(0 <= yoe < 400);
    assert(year == 400 * era + n);
    assert(year % 4 == n % 4);
    assert(year % 100 == n % 100);
    assert(year % 400 == n % 400);
    assert(n / 4 - yoe / 4 == (if n % 4 == 0 {
        1int
    } else {
        0int
    }));
    assert(n / 100 - yoe / 100 == (if n % 100 == 0 {
        1int
    } else {
        0int
    }));
    assert(march_day(2, month_days(year, 2)) == 336 + month_days(year, 2));
    assert(march_day(3, 1) == 0);
    if n == 400 {
        assert(year / 400 == era + 1);
    } else {
        assert(year / 400 == era);
    }
}

proof fn lemma_end_of_month(year: int, month: int)
    requires
        0 < year,
        1 <= month <= 12,
    ensures
        month < 12 ==> civil_days(year, month + 1, 1) == civil_days(
            year,
            month,
            month_days(year, month),
        ) + 1,
        month == 12 ==> civil_days(year + 1, 1, 1) == civil_days(year, 12, 31) + 1,
{
    if month == 2 {
        lemma_end_of_february(year);
    } else if month < 12 {
        assert(march_year(year, month) == march_year(year, month + 1));
        assert(march_day(month + 1, 1) == march_day(month, month_days(year, month)) + 1);
    } else {
        assert(march_year(year + 1, 1) == march_year(year, 12));
        assert(march_day(1, 1) == march_day(12, 31) + 1);
    }
}

/// The days are counted one by one: the count of every day is one more than
/// that of the day before, and that of the first day of 1970 is 0.
pub proof fn law_days_are_counted_one_by_one(year: int, month: int, day: int)
    requires
        is_date(year, month, day),
    ensures
        ({
            let (y, m, d) = next_day(year, month, day);
            civil_days(y, m, d) == civil_days(year, month, day) + 1 && is_date(y, m, d)
        }),
        year == 1970 && month == 1 && day == 1 ==> civil_days(year, month, day) == 0,
{
    lemma_end_of_month(year, month);
}

/// The day that comes `n` days after 1970-01-01.
pub open spec fn nth_day(n: nat) -> (int, int, int)
    decreases n,
{
    if n == 0 {
        (1970, 1, 1)
    } else {
        let (y, m, d) = nth_day((n - 1) as nat);
        next_day(y, m, d)
    }
}

/// The decimal digit of a number below 10.
pub open spec fn digit(n: int) -> char {
    if n == 0 {
        '0'
    } else if n == 1 {
        '1'
    } else if n == 2 {
        '2'
    } else if n == 3 {
        '3'
    } else if n == 4 {
        '4'
    } else if n == 5 {
        '5'
    } else if n == 6 {
        '6'
    } else if n == 7 {
        '7'
    } else if n == 8 {
        '8'
    } else {
        '9'
    }
}

/// The last `width` digits of a number, with zeros before them where it has
/// fewer.
pub open spec fn digits(n: int, width: nat) -> Seq<char>
    decreases width,
{
    if width == 0 {
        Seq::empty()
    } else {
        digits(n / 10, (width - 1) as nat).push(digit(n % 10))
    }
}

/// A day in the form `YYYY-MM-DD`.
pub open spec fn written_day(year: int, month: int, day: int) -> Seq<char> {
    digits(year, 4) + seq!['-'] + (digits(month, 2) + seq!['-'] + digits(day, 2))
}

/// A time of day, in milliseconds from midnight, in the form `hh:mm:ss.mmm`.
pub open spec fn written_time(ms: int) -> Seq<char> {
    digits(ms / 3_600_000, 2) + seq![':'] + (digits(ms / 60_000 % 60, 2) + seq![':'] + digits(
        ms / 1000 % 60,
        2,
    )) + seq!['.'] + digits(ms % 1000, 3)
}

/// The instant `ms` milliseconds after the beginning of 1970, in the form
/// `YYYY-MM-DDThh:mm:ss.mmmZ`.
pub open spec fn written_instant(ms: int) -> Seq<char> {
    let (y, m, d) = nth_day((ms / 86_400_000) as nat);
    written_day(y, m, d) + seq!['T'] + written_time(ms % 86_400_000).push('Z')
}

proof fn lemma_nth_day(n: nat)
    ensures
        ({
            let (y, m, d) = nth_day(n);
            is_date(y, m, d) && 1970 <= y && civil_days(y, m, d) == n
        }),
    decreases n,
{
    law_days_are_counted_one_by_one(1970, 1, 1);
    if n > 0 {
        lemma_nth_day((n - 1) as nat);
        let (y, m, d) = nth_day((n - 1) as nat);
        law_days_are_counted_one_by_one(y, m, d);
    }
}

/// The days before the year 10000 come before the 2932897th.
proof fn lemma_four_digit_years(year: int, month: int, day: int)
    requires
        is_date(year, month, day),
        civil_days(year, month, day) < 2_932_897,
    ensures
        year <= 9999,
{
    if year >= 10_000 {
        let y = march_year(year, month);
        let era = y / 400;
        let yoe = y - era * 400;
        assert(0 <= yoe < 400);
        assert(yoe / 4 >= yoe / 100);
        if y >= 10_000 {
            assert(era >= 25);
            assert(march_day(month, day) >= 0);
        } else {
            assert(y == 9999);
            assert(march_day(month, day) >= 306);
        }
    }
}

/// Ten to the power of `width`.
spec fn tens(width: nat) -> int
    decreases width,
{
    if width == 0 {
        1
    } else {
        10 * tens((width - 1) as nat)
    }
}

proof fn lemma_digits(n: int, width: nat)
    requires
        0 <= n < tens(width),
    ensures
        digits(n, width).len() == width,
        forall|i: int| 0 <= i < width ==> is_digit(#[trigger] digits(n, width)[i]),
        decimal(digits(n, width)) == n,
    decreases width,
{
    if width > 0 {
        let most = digits(n / 10, (width - 1) as nat);
        lemma_digits(n / 10, (width - 1) as nat);
        assert(digits(n, width).drop_last() =~= most);
        assert(digits(n, width).last() == digit(n % 10));
    }
}

proof fn lemma_number(n: int, width: nat)
    requires
        0 < width <= 4,
        0 <= n < tens(width),
    ensures
        parsed_u64(digits(n, width)) == Some(n as u64),
{
    lemma_digits(n, width);
    assert(is_digit(digits(n, width)[0]));
    reveal_with_fuel(tens, 5);
}

/// What stands before and after the first `c`.
proof fn lemma_split(a: Seq<char>, c: char, b: Seq<char>)
    requires
        forall|i: int| 0 <= i < a.len() ==> #[trigger] a[i] != c,
    ensures
        find_char(a + seq![c] + b, c) == a.len(),
        split_once(a + seq![c] + b, c) == Some((a, b)),
        split_on(a + seq![c] + b, c) == seq![a] + split_on(b, c),
{
    let s = a + seq![c] + b;
    lemma_find_char(s, c);
    assert(s[a.len() as int] == c);
    let i = find_char(s, c) as int;
    if i < a.len() {
        assert(s[i] == a[i]);
    }
    assert(i == a.len());
    assert(s.take(i) =~= a);
    assert(s.skip(i + 1) =~= b);
}

proof fn lemma_unsplit(a: Seq<char>, c: char)
    requires
        forall|i: int| 0 <= i < a.len() ==> #[trigger] a[i] != c,
    ensures
        split_on(a, c) == seq![a],
{
    lemma_find_char(a, c);
    if find_char(a, c) < a.len() {
        assert(a[find_char(a, c) as int] == c);
    }
}

/// Three numbers with `c` between neighbours.
proof fn lemma_three_parts(a: Seq<char>, b: Seq<char>, d: Seq<char>, c: char)
    requires
        !is_digit(c),
        forall|i: int| 0 <= i < a.len() ==> is_digit(#[trigger] a[i]),
        forall|i: int| 0 <= i < b.len() ==> is_digit(#[trigger] b[i]),
        forall|i: int| 0 <= i < d.len() ==> is_digit(#[trigger] d[i]),
    ensures
        split_on(a + seq![c] + (b + seq![c] + d), c) == seq![a, b, d],
        forall|i: int|
            0 <= i < a.len() + b.len() + d.len() + 2 ==> is_digit(
                #[trigger] (a + seq![c] + (b + seq![c] + d))[i],
            ) || (a + seq![c] + (b + seq![c] + d))[i] == c,
{
    lemma_split(a, c, b + seq![c] + d);
    lemma_split(b, c, d);
    lemma_unsplit(d, c);
    assert(seq![a] + (seq![b] + seq![d]) =~= seq![a, b, d]);
    let s = a + seq![c] + (b + seq![c] + d);
    assert forall|i: int| 0 <= i < a.len() + b.len() + d.len() + 2 implies is_digit(#[trigger] s[i])
        || s[i] == c by {
        if i < a.len() {
            assert(s[i] == a[i]);
        } else if i == a.len() {
            assert(s[i] == c);
        } else if i < a.len() + 1 + b.len() {
            assert(s[i] == b[i - a.len() - 1]);
        } else if i > a.len() + 1 + b.len() {
            assert(s[i] == d[i - a.len() - b.len() - 2]);
        }
    }
}

proof fn lemma_written_time(ms: int)
    requires
        0 <= ms < 86_400_000,
    ensures
        ({
            let hms = digits(ms / 3_600_000, 2) + seq![':'] + (digits(ms / 60_000 % 60, 2)
                + seq![':'] + digits(ms / 1000 % 60, 2));
            &&& trim_char_end(written_time(ms).push('Z'), 'Z') == written_time(ms)
            &&& split_once(written_time(ms), '.') == Some((hms, digits(ms % 1000, 3)))
            &&& split_on(hms, ':') == seq![
                digits(ms / 3_600_000, 2),
                digits(ms / 60_000 % 60, 2),
                digits(ms / 1000 % 60, 2),
            ]
            &&& fraction_millis(digits(ms % 1000, 3)) == ms % 1000
        }),
{
    let h = digits(ms / 3_600_000, 2);
    let m = digits(ms / 60_000 % 60, 2);
    let s = digits(ms / 1000 % 60, 2);
    let f = digits(ms % 1000, 3);
    let hms = h + seq![':'] + (m + seq![':'] + s);
    reveal_with_fuel(tens, 5);
    lemma_digits(ms / 3_600_000, 2);
    lemma_digits(ms / 60_000 % 60, 2);
    lemma_digits(ms / 1000 % 60, 2);
    lemma_digits(ms % 1000, 3);
    lemma_number(ms % 1000, 3);
    lemma_three_parts(h, m, s, ':');
    assert forall|i: int| 0 <= i < hms.len() implies #[trigger] hms[i] != '.' by {}
    lemma_split(hms, '.', f);
    assert(three_digits(f) =~= f);
    let t = written_time(ms);
    assert(t.push('Z').drop_last() =~= t);
    assert(t.last() == f[2]);
    reveal_with_fuel(trim_char_end, 2);
    assert(trim_char_end(t.push('Z'), 'Z') == t);
}

/// The fields of the written form of an instant.
proof fn lemma_written_fields(year: int, month: int, day: int, ms: int)
    requires
        0 <= year <= 9999,
        0 <= month <= 99,
        0 <= day <= 99,
        0 <= ms < 86_400_000,
    ensures
        timestamp_fields(written_day(year, month, day) + seq!['T'] + written_time(ms).push('Z'))
            == Some(
            (CivilTime {
                year: year as u64,
                month: month as u64,
                day: day as u64,
                hour: (ms / 3_600_000) as u64,
                minute: (ms / 60_000 % 60) as u64,
                second: (ms / 1000 % 60) as u64,
                millis: (ms % 1000) as u64,
            }),
        ),
{
    reveal_with_fuel(tens, 5);
    lemma_digits(year, 4);
    lemma_digits(month, 2);
    lemma_digits(day, 2);
    lemma_number(year, 4);
    lemma_number(month, 2);
    lemma_number(day, 2);
    let date = written_day(year, month, day);
    lemma_three_parts(digits(year, 4), digits(month, 2), digits(day, 2), '-');
    assert forall|i: int| 0 <= i < date.len() implies #[trigger] date[i] != 'T' by {}
    lemma_split(date, 'T', written_time(ms).push('Z'));
    lemma_written_time(ms);
    lemma_number(ms / 3_600_000, 2);
    lemma_number(ms / 60_000 % 60, 2);
    lemma_number(ms / 1000 % 60, 2);
}

proof fn lemma_time_of_day(ms: int)
    requires
        0 <= ms,
    ensures
        ((ms / 3_600_000) * 3600 + (ms / 60_000 % 60) * 60 + ms / 1000 % 60) * 1000 + ms % 1000
            == ms,
{
    assert(ms / 60_000 == ms / 1000 / 60);
    assert(ms / 3_600_000 == ms / 60_000 / 60);
}

/// The form `YYYY-MM-DDThh:mm:ss.mmmZ` of every instant of the years 1970 to
/// 9999 is read back as that instant.
pub proof fn law_written_instant_is_read_back(ms: u64)
    requires
        ms < 253_402_300_800_000,
    ensures
        timestamp_value(Some(JsonTree::Text(written_instant(ms as int)))) == Some(ms),
{
    let n = (ms / 86_400_000) as nat;
    let rest = ms as int % 86_400_000;
    let (year, month, day) = nth_day(n);
    lemma_nth_day(n);
    lemma_four_digit_years(year, month, day);
    lemma_written_fields(year, month, day, rest);
    lemma_time_of_day(rest);
    assert(march_day(month, day) >= 0);
}

/// A fraction of a second counts by its first three digits, as tenths,
/// hundredths and thousandths; further digits do not count, and missing ones
/// are zeros.
pub proof fn law_fraction_counts_by_three_digits(n: int, width: nat, more: Seq<char>)
    requires
        1 <= width <= 3,
        0 <= n,
        width == 1 ==> n < 10,
        width == 2 ==> n < 100,
        width == 3 ==> n < 1000,
    ensures
        width == 1 ==> fraction_millis(digits(n, width)) == 100 * n,
        width == 2 ==> fraction_millis(digits(n, width)) == 10 * n,
        width == 3 ==> fraction_millis(digits(n, width)) == n,
        width == 3 ==> fraction_millis(digits(n, width) + more) == n,
        fraction_millis(Seq::empty()) == 0,
{
    reveal_with_fuel(tens, 5);
    let zeros: int = if width == 1 {
        100
    } else if width == 2 {
        10
    } else {
        1
    };
    lemma_digits(n, width);
    lemma_number(n * zeros, 3);
    lemma_digits(n * zeros, 3);
    reveal_with_fuel(digits, 4);
    let f = digits(n, width);
    assert(three_digits(f) =~= digits(n * zeros, 3)) by {
        if width == 1 {
            assert(n * 100 / 10 == n * 10 && n * 10 / 10 == n);
            assert((n * 100) % 10 == 0 && (n * 10) % 10 == 0 && n % 10 == n);
        } else if width == 2 {
            assert(n * 10 / 10 == n);
            assert((n * 10) % 10 == 0);
        }
    }
    if width == 3 {
        assert(three_digits(f + more) =~= f);
    }
    lemma_number(0, 3);
    assert(three_digits(Seq::empty()) =~= digits(0, 3)) by {
        assert(0int / 10 == 0 && 0int % 10 == 0);
    }
}

/// A day before 1970 comes at no time that can be counted.
pub proof fn law_earlier_times_are_none(year: int, month: int, day: int, ms: int)
    requires
        is_date(year, month, day),
        year < 1970,
        0 <= ms < 86_400_000,
    ensures
        timestamp_value(
            Some(
                JsonTree::Text(
                    written_day(year, month, day) + seq!['T'] + written_time(ms).push('Z'),
                ),
            ),
        ) is None,
{
    lemma_written_fields(year, month, day, ms);
    assert(civil_days(year, month, day) < 0) by {
        let y = march_year(year, month);
        let era = y / 400;
        let yoe = y - era * 400;
        assert(0 <= yoe < 400);
        assert(march_day(month, day) <= 366);
        if y <= 1968 {
            assert(era <= 4);
            if era == 4 {
                assert(yoe <= 368);
                assert(yoe / 4 <= 92 && yoe / 100 >= 0);
            } else {
                assert(yoe / 4 <= 99);
            }
        } else {
            assert(y == 1969);
            assert(era == 4 && yoe == 369);
            assert(march_day(month, day) < 306);
        }
    }
}

} // verus!
