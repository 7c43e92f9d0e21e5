//! Timestamps: the proleptic Gregorian calendar in UTC.
use vstd::prelude::*;
use vstd::string::*;

use crate::interactive::{all_digits, number_of};
use crate::text::{
    decimal, digit, law_padded_stands_for_the_number, padded, padded_text, sorts_before,
};

verus! {

/// A day of the calendar.
pub struct CivilDate {
    pub year: int,
    pub month: int,
    pub day: int,
}

pub open spec fn is_leap(year: int) -> bool {
    year % 4 == 0 && (year % 100 != 0 || year % 400 == 0)
}

pub open spec fn days_in_month(year: int, month: int) -> int {
    if month == 2 {
        if is_leap(year) {
            29
        } else {
            28
        }
    } else if month == 4 || month == 6 || month == 9 || month == 11 {
        30
    } else {
        31
    }
}

/// The day after `d`.
pub open spec fn next_day(d: CivilDate) -> CivilDate {
    if d.day < days_in_month(d.year, d.month) {
        CivilDate { day: d.day + 1, ..d }
    } else if d.month < 12 {
        CivilDate { month: d.month + 1, day: 1, ..d }
    } else {
        CivilDate { year: d.year + 1, month: 1, day: 1 }
    }
}

/// The day that comes `n` days after 1970-01-01.
pub open spec fn civil(n: nat) -> CivilDate
    decreases n,
{
    if n == 0 {
        CivilDate { year: 1970, month: 1, day: 1 }
    } else {
        next_day(civil((n - 1) as nat))
    }
}

/// A date and a time of day, given in seconds since midnight.
pub open spec fn datetime_text(d: CivilDate, seconds: int, iso: bool) -> Seq<char> {
    padded(d.year as nat, 4) + "-"@ + padded(d.month as nat, 2) + "-"@ + padded(d.day as nat, 2) + (
    if iso {
        "T"@
    } else {
        " "@
    }) + padded((seconds / 3600) as nat, 2) + ":"@ + padded((seconds % 3600 / 60) as nat, 2) + ":"@
        + padded((seconds % 60) as nat, 2) + (if iso {
        "Z"@
    } else {
        ""@
    })
}

/// The date and time of day `secs` seconds after the start of 1970, UTC.
pub open spec fn timestamp_text(secs: u64, iso: bool) -> Seq<char> {
    datetime_text(civil((secs / 86400) as nat), (secs % 86400) as int, iso)
}

// ── Day numbers ─────────────────────────────────────────────────────────────
//
// Years are counted from March here, so that the leap day is the last of its year.
spec fn is_date(d: CivilDate) -> bool {
    &&& d.year >= 1
    &&& 1 <= d.month <= 12
    &&& 1 <= d.day <= days_in_month(d.year, d.month)
}

/// The year that started in March.
spec fn march_year(d: CivilDate) -> int {
    if d.month <= 2 {
        d.year - 1
    } else {
        d.year
    }
}

/// Months since March.
spec fn march_month(d: CivilDate) -> int {
    if d.month <= 2 {
        d.month + 9
    } else {
        d.month - 3
    }
}

/// Days since the first of March.
spec fn day_of_march_year(d: CivilDate) -> int {
    (153 * march_month(d) + 2) / 5 + d.day - 1
}

/// Days since the first day of the 400 years that `d` belongs to.
spec fn day_of_era(d: CivilDate) -> int {
    let yoe = march_year(d) % 400;
    yoe * 365 + yoe / 4 - yoe / 100 + day_of_march_year(d)
}

spec fn day_number(d: CivilDate) -> int {
    march_year(d) / 400 * 146097 + day_of_era(d) - 719468
}

proof fn lemma_next_day(d: CivilDate)
    requires
        is_date(d),
    ensures
        is_date(next_day(d)),
        day_number(next_day(d)) == day_number(d) + 1,
{
    let y = march_year(d);
    let n = next_day(d);
    if d.month == 2 && n.month == 3 {
        assert(march_year(n) == y + 1);
        let yoe = y % 400;
        assert(is_leap(d.year) == is_leap(y + 1));
        assert((y + 1) % 4 == (yoe + 1) % 4);
        assert((y + 1) % 100 == (yoe + 1) % 100);
        if yoe == 399 {
            assert((y + 1) % 400 == 0);
            assert((y + 1) / 400 == y / 400 + 1);
        } else {
            assert((y + 1) % 400 == yoe + 1);
            assert((y + 1) / 400 == y / 400);
        }
    } else {
        assert(march_year(n) == y);
    }
}

proof fn lemma_civil(n: nat)
    ensures
        is_date(civil(n)),
        day_number(civil(n)) == n,
        civil(n).year >= 1970,
    decreases n,
{
    if n > 0 {
        lemma_civil((n - 1) as nat);
        lemma_next_day(civil((n - 1) as nat));
    } else {
        assert(day_number(civil(0)) == 0);
    }
}

/// The year of the era, from the day of the era.
spec fn year_of_era(doe: int) -> int {
    (doe - doe / 1460 + doe / 36524 - doe / 146096) / 365
}

proof fn lemma_march_year(d: CivilDate)
    requires
        is_date(d),
    ensures
        0 <= day_of_march_year(d) <= 365,
        day_of_march_year(d) == 365 ==> is_leap(march_year(d) + 1),
{
}

proof fn lemma_year_of_era(yoe: int, doy: int)
    requires
        0 <= yoe < 400,
        0 <= doy <= 365,
        doy == 365 ==> is_leap(yoe + 1),
    ensures
        ({
            let doe = yoe * 365 + yoe / 4 - yoe / 100 + doy;
            &&& 0 <= doe < 146097
            &&& year_of_era(doe) == yoe
        }),
{
    let doe = yoe * 365 + yoe / 4 - yoe / 100 + doy;
    let a = yoe / 100;
    let b = yoe % 100 / 4;
    let c = yoe % 4;
    assert(yoe == 100 * a + 4 * b + c);
    assert(yoe / 4 == 25 * a + b);
    assert(doe == 36524 * a + 1461 * b + 365 * c + doy);
    let t = 24 * a + b + 365 * c + doy;
    assert(doe == 1460 * (25 * a + b) + t);
    let e: int = if t >= 1460 { 1 } else { 0 };
    assert(doe / 1460 == 25 * a + b + e);
    let r = 1461 * b + 365 * c + doy;
    assert(doe == 36524 * a + r);
    if r >= 36524 {
        assert(b == 24 && c == 3 && doy == 365);
        assert(yoe % 100 == 99);
        assert(a == 3);
        assert(doe == 146096);
    } else {
        assert(doe / 36524 == a);
        assert(doe < 146096);
    }
    let f = doe - doe / 1460 + doe / 36524 - doe / 146096;
    assert(f == 365 * yoe + doy - e);
    assert(0 <= doy - e < 365);
}

/// From a day number back to the day.
proof fn lemma_decode(d: CivilDate)
    requires
        is_date(d),
    ensures
        ({
            let z = day_number(d) + 719468;
            let doe = z % 146097;
            let yoe = year_of_era(doe);
            let doy = doe - (365 * yoe + yoe / 4 - yoe / 100);
            let mp = (5 * doy + 2) / 153;
            &&& z / 146097 * 400 + yoe == march_year(d)
            &&& doy == day_of_march_year(d)
            &&& mp == march_month(d)
            &&& doy - (153 * mp + 2) / 5 + 1 == d.day
        }),
{
    let y = march_year(d);
    let yoe = y % 400;
    let doy = day_of_march_year(d);
    lemma_march_year(d);
    assert((y + 1) % 4 == (yoe + 1) % 4);
    assert((y + 1) % 100 == (yoe + 1) % 100);
    assert((y + 1) % 400 == (yoe + 1) % 400);
    lemma_year_of_era(yoe, doy);
    let z = day_number(d) + 719468;
    let doe = day_of_era(d);
    assert(z == 146097 * (y / 400) + doe);
    assert(z / 146097 == y / 400 && z % 146097 == doe);
    let mp = march_month(d);
    assert((5 * doy + 2) / 153 == mp);
}

/// The year, month and day that come `days` days after 1970-01-01.
fn civil_from_days(days: u64) -> (r: (u64, u64, u64))
    requires
        days <= u64::MAX / 86400,
    ensures
        r.0 == civil(days as nat).year,
        r.1 == civil(days as nat).month,
        r.2 == civil(days as nat).day,
{
    let z: u64 = days + 719468;
    let era: u64 = z / 146097;
    let doe: u64 = z % 146097;
    let yoe: u64 = (doe - doe / 1460 + doe / 36524 - doe / 146096) / 365;
    let ghost date = civil(days as nat);
    proof {
        lemma_civil(days as nat);
        lemma_decode(date);
        lemma_march_year(date);
        assert(yoe == year_of_era(doe as int));
        assert(march_year(date) == era * 400 + yoe);
        assert(march_year(date) >= 0);
    }
    let doy: u64 = doe - (365 * yoe + yoe / 4 - yoe / 100);
    assert(doy == day_of_march_year(date));
    let mp: u64 = (5 * doy + 2) / 153;
    assert(mp == march_month(date));
    let day: u64 = doy - (153 * mp + 2) / 5 + 1;
    let month: u64 = if mp < 10 {
        mp + 3
    } else {
        mp - 9
    };
    let march: u64 = yoe + era * 400;
    let year: u64 = if month <= 2 {
        march + 1
    } else {
        march
    };
    (year, month, day)
}

/// The date and time of day `secs` seconds after the start of 1970, UTC: as
/// `YYYY-MM-DDTHH:MM:SSZ` with `iso`, as `YYYY-MM-DD HH:MM:SS` without.
pub fn unix_secs_to_datetime_str(secs: u64, iso: bool) -> (r: String)
    ensures
        r@ == timestamp_text(secs, iso),
{
    let (year, month, day) = civil_from_days(secs / 86400);
    let time_of_day: u64 = secs % 86400;
    let mut s = padded_text(year as u128, 4);
    s.append("-");
    let month_text = padded_text(month as u128, 2);
    s.append(month_text.as_str());
    s.append("-");
    let day_text = padded_text(day as u128, 2);
    s.append(day_text.as_str());
    if iso {
        s.append("T");
    } else {
        s.append(" ");
    }
    let hours = padded_text((time_of_day / 3600) as u128, 2);
    s.append(hours.as_str());
    s.append(":");
    let minutes = padded_text((time_of_day % 3600 / 60) as u128, 2);
    s.append(minutes.as_str());
    s.append(":");
    let seconds = padded_text((time_of_day % 60) as u128, 2);
    s.append(seconds.as_str());
    if iso {
        s.append("Z");
    } else {
        s.append("");
    }
    s
}

// ── Laws ────────────────────────────────────────────────────────────────────
/// The last second of the year 9999.
pub const LAST_SECOND: u64 = 253402300799;

/// `d` comes before `e`.
spec fn date_before(d: CivilDate, e: CivilDate) -> bool {
    ||| d.year < e.year
    ||| d.year == e.year && d.month < e.month
    ||| d.year == e.year && d.month == e.month && d.day < e.day
}

proof fn lemma_later_day(n: nat, m: nat)
    requires
        n < m,
    ensures
        date_before(civil(n), civil(m)),
    decreases m,
{
    lemma_civil((m - 1) as nat);
    if n < m - 1 {
        lemma_later_day(n, (m - 1) as nat);
    }
}

proof fn lemma_year_bound(n: nat)
    requires
        n <= LAST_SECOND / 86400,
    ensures
        civil(n).year <= 9999,
{
    let d = civil(n);
    lemma_civil(n);
    lemma_march_year(d);
    if d.year >= 10000 {
        let y = march_year(d);
        let yoe = y % 400;
        if y >= 10000 {
            assert(y / 400 >= 25);
            assert(yoe * 365 + yoe / 4 - yoe / 100 >= 0);
        } else {
            assert(y / 400 == 24 && yoe == 399);
            assert(march_month(d) >= 10);
        }
    }
}

proof fn lemma_two_digits(n: nat)
    requires
        n < 100,
    ensures
        padded(n, 2) == seq![digit((n / 10) as int), digit((n % 10) as int)],
{
    reveal_with_fuel(decimal, 2);
    assert(padded(n, 2) =~= seq![digit((n / 10) as int), digit((n % 10) as int)]);
}

proof fn lemma_four_digits(n: nat)
    requires
        n < 10000,
    ensures
        padded(n, 4) == seq![
            digit((n / 1000) as int),
            digit((n / 100 % 10) as int),
            digit((n / 10 % 10) as int),
            digit((n % 10) as int),
        ],
{
    reveal_with_fuel(decimal, 4);
    assert(n / 10 / 10 == n / 100);
    assert(n / 10 / 10 / 10 == n / 1000);
    assert(padded(n, 4) =~= seq![
        digit((n / 1000) as int),
        digit((n / 100 % 10) as int),
        digit((n / 10 % 10) as int),
        digit((n % 10) as int),
    ]);
}

/// The fields of a moment: year, month, day, hour, minute and second.
struct Fields {
    year: int,
    month: int,
    day: int,
    hour: int,
    minute: int,
    second: int,
}

spec fn fields_of(d: CivilDate, seconds: int) -> Fields {
    Fields {
        year: d.year,
        month: d.month,
        day: d.day,
        hour: seconds / 3600,
        minute: seconds % 3600 / 60,
        second: seconds % 60,
    }
}

/// The fields have two digits each, and the year four.
spec fn in_range(f: Fields) -> bool {
    &&& 0 <= f.year < 10000
    &&& 0 <= f.month < 100
    &&& 0 <= f.day < 100
    &&& 0 <= f.hour < 100
    &&& 0 <= f.minute < 100
    &&& 0 <= f.second < 100
}

/// The character at this position of a timestamp up to the year 9999.
spec fn stamp_char(f: Fields, separator: char, i: int) -> char {
    if i == 0 {
        digit(f.year / 1000)
    } else if i == 1 {
        digit(f.year / 100 % 10)
    } else if i == 2 {
        digit(f.year / 10 % 10)
    } else if i == 3 {
        digit(f.year % 10)
    } else if i == 4 {
        '-'
    } else if i == 5 {
        digit(f.month / 10)
    } else if i == 6 {
        digit(f.month % 10)
    } else if i == 7 {
        '-'
    } else if i == 8 {
        digit(f.day / 10)
    } else if i == 9 {
        digit(f.day % 10)
    } else if i == 10 {
        separator
    } else if i == 11 {
        digit(f.hour / 10)
    } else if i == 12 {
        digit(f.hour % 10)
    } else if i == 13 {
        ':'
    } else if i == 14 {
        digit(f.minute / 10)
    } else if i == 15 {
        digit(f.minute % 10)
    } else if i == 16 {
        ':'
    } else if i == 17 {
        digit(f.second / 10)
    } else {
        digit(f.second % 10)
    }
}

/// The characters of a timestamp up to the year 9999.
#[verifier::opaque]
spec fn stamp(f: Fields, separator: char) -> Seq<char> {
    Seq::new(19, |i: int| stamp_char(f, separator, i))
}

#[verifier::spinoff_prover]
#[verifier::rlimit(40)]
proof fn lemma_stamp(d: CivilDate, seconds: int)
    requires
        is_date(d),
        d.year <= 9999,
        0 <= seconds < 86400,
    ensures
        in_range(fields_of(d, seconds)),
        datetime_text(d, seconds, true) == stamp(fields_of(d, seconds), 'T').push('Z'),
        datetime_text(d, seconds, false) == stamp(fields_of(d, seconds), ' '),
{
    reveal(stamp);
    reveal_strlit("-");
    reveal_strlit("T");
    reveal_strlit(" ");
    reveal_strlit(":");
    reveal_strlit("Z");
    reveal_strlit("");
    lemma_four_digits(d.year as nat);
    lemma_two_digits(d.month as nat);
    lemma_two_digits(d.day as nat);
    lemma_two_digits((seconds / 3600) as nat);
    lemma_two_digits((seconds % 3600 / 60) as nat);
    lemma_two_digits((seconds % 60) as nat);
    assert(datetime_text(d, seconds, true) =~= stamp(fields_of(d, seconds), 'T').push('Z'));
    assert(datetime_text(d, seconds, false) =~= stamp(fields_of(d, seconds), ' '));
}

/// The two forms of a stamp.
proof fn lemma_forms(f: Fields)
    ensures
        stamp(f, ' ').len() == 19,
        stamp(f, ' ')[10] == ' ',
        stamp(f, 'T') == stamp(f, ' ').update(10, 'T'),
{
    reveal(stamp);
    assert(stamp(f, 'T') =~= stamp(f, ' ').update(10, 'T'));
}

/// The position of the first of two digits in which numbers differ.
spec fn differ_at(m: int, n: int) -> int {
    if m / 10 != n / 10 {
        0
    } else {
        1
    }
}

/// The position at which the stamps of two moments first differ.
spec fn first_difference(f: Fields, g: Fields) -> int {
    if f.year / 100 != g.year / 100 {
        differ_at(f.year / 100, g.year / 100)
    } else if f.year != g.year {
        2 + differ_at(f.year % 100, g.year % 100)
    } else if f.month != g.month {
        5 + differ_at(f.month, g.month)
    } else if f.day != g.day {
        8 + differ_at(f.day, g.day)
    } else if f.hour != g.hour {
        11 + differ_at(f.hour, g.hour)
    } else if f.minute != g.minute {
        14 + differ_at(f.minute, g.minute)
    } else {
        17 + differ_at(f.second, g.second)
    }
}

/// `f` comes before `g`.
spec fn moment_before(f: Fields, g: Fields) -> bool {
    if f.year != g.year {
        f.year < g.year
    } else if f.month != g.month {
        f.month < g.month
    } else if f.day != g.day {
        f.day < g.day
    } else if f.hour != g.hour {
        f.hour < g.hour
    } else if f.minute != g.minute {
        f.minute < g.minute
    } else {
        f.second < g.second
    }
}

proof fn lemma_year_digits(y: int)
    requires
        0 <= y < 10000,
    ensures
        y / 1000 == y / 100 / 10,
        y / 10 % 10 == y % 100 / 10,
        y % 10 == y % 100 % 10,
        y == y / 100 * 100 + y % 100,
{
}

proof fn lemma_first_difference(f: Fields, g: Fields, separator: char)
    requires
        in_range(f),
        in_range(g),
        moment_before(f, g),
    ensures
        ({
            let k = first_difference(f, g);
            &&& 0 <= k < 19
            &&& stamp(f, separator).len() == 19
            &&& stamp(g, separator).len() == 19
            &&& stamp(f, separator).take(k) == stamp(g, separator).take(k)
            &&& stamp(f, separator)[k] < stamp(g, separator)[k]
        }),
{
    reveal(stamp);
    lemma_year_digits(f.year);
    lemma_year_digits(g.year);
    let k = first_difference(f, g);
    assert forall|i: int| 0 <= i < k implies stamp_char(f, separator, i) == stamp_char(
        g,
        separator,
        i,
    ) by {}
    assert(stamp_char(f, separator, k) < stamp_char(g, separator, k));
    assert(stamp(f, separator).take(k) =~= stamp(g, separator).take(k));
}

/// Texts that begin with these stamps are in the order of the stamps.
proof fn lemma_sorts(x: Seq<char>, y: Seq<char>, end: Seq<char>, k: int)
    requires
        0 <= k < x.len(),
        k < y.len(),
        x.take(k) == y.take(k),
        x[k] < y[k],
    ensures
        sorts_before(x + end, y + end),
{
    assert((x + end).take(k) =~= x.take(k));
    assert((y + end).take(k) =~= y.take(k));
}

proof fn lemma_time_of_day(s: int, t: int)
    requires
        0 <= s < t < 86400,
    ensures
        s / 3600 <= t / 3600,
        s / 3600 == t / 3600 ==> s % 3600 / 60 <= t % 3600 / 60,
        s / 3600 == t / 3600 && s % 3600 / 60 == t % 3600 / 60 ==> s % 60 < t % 60,
{
    assert(s % 3600 % 60 == s % 60);
    assert(t % 3600 % 60 == t % 60);
}

/// Up to the year 9999, a later moment has a later text, in either form, so that
/// timestamps sort by time.
pub proof fn law_timestamps_sort_by_time(a: u64, b: u64, iso: bool)
    requires
        a < b <= LAST_SECOND,
    ensures
        sorts_before(timestamp_text(a, iso), timestamp_text(b, iso)),
{
    let (n, s) = ((a / 86400) as nat, (a % 86400) as int);
    let (m, t) = ((b / 86400) as nat, (b % 86400) as int);
    let f = fields_of(civil(n), s);
    let g = fields_of(civil(m), t);
    lemma_civil(n);
    lemma_civil(m);
    lemma_year_bound(n);
    lemma_year_bound(m);
    lemma_stamp(civil(n), s);
    lemma_stamp(civil(m), t);
    if n < m {
        lemma_later_day(n, m);
    } else {
        lemma_time_of_day(s, t);
    }
    let separator = if iso {
        'T'
    } else {
        ' '
    };
    let end = if iso {
        seq!['Z']
    } else {
        Seq::empty()
    };
    let (x, y) = (stamp(f, separator), stamp(g, separator));
    lemma_first_difference(f, g, separator);
    lemma_sorts(x, y, end, first_difference(f, g));
    if iso {
        assert(x + end =~= x.push('Z'));
        assert(y + end =~= y.push('Z'));
    } else {
        assert(x + end =~= x);
        assert(y + end =~= y);
    }
}

/// Up to the year 9999, a timestamp has 20 characters in the one form and 19 in the
/// other. The first is the second with a `T` for its space, and a `Z` behind it.
pub proof fn law_forms_of_a_timestamp(secs: u64)
    requires
        secs <= LAST_SECOND,
    ensures
        timestamp_text(secs, true).len() == 20,
        timestamp_text(secs, false).len() == 19,
        timestamp_text(secs, false)[10] == ' ',
        timestamp_text(secs, true) == timestamp_text(secs, false).update(10, 'T') + "Z"@,
{
    let n = (secs / 86400) as nat;
    lemma_civil(n);
    lemma_year_bound(n);
    lemma_stamp(civil(n), (secs % 86400) as int);
    lemma_forms(fields_of(civil(n), (secs % 86400) as int));
    reveal_strlit("Z");
    let plain = stamp(fields_of(civil(n), (secs % 86400) as int), ' ');
    assert(plain.update(10, 'T') + "Z"@ =~= plain.update(10, 'T').push('Z'));
}

proof fn lemma_same_day(d: CivilDate, e: CivilDate)
    requires
        is_date(d),
        is_date(e),
        day_number(d) == day_number(e),
    ensures
        d == e,
{
    lemma_decode(d);
    lemma_decode(e);
}

#[verifier::spinoff_prover]
proof fn lemma_next_era(d: CivilDate, e: CivilDate)
    requires
        is_date(d),
        e == (CivilDate { year: d.year + 400, month: d.month, day: d.day }),
    ensures
        is_date(e),
        day_number(e) == day_number(d) + 146097,
{
    let y = d.year;
    assert((y + 400) % 4 == y % 4);
    assert((y + 400) % 100 == y % 100);
    assert((y + 400) % 400 == y % 400);
    let m = march_year(d);
    assert(march_year(e) == m + 400);
    assert((m + 400) % 400 == m % 400);
    assert((m + 400) / 400 == m / 400 + 1);
    assert(day_of_march_year(e) == day_of_march_year(d));
    assert(day_of_era(e) == day_of_era(d));
}

/// The calendar repeats itself every 146097 days, which are 400 years.
pub proof fn law_calendar_repeats(n: nat)
    ensures
        civil(n + 146097).year == civil(n).year + 400,
        civil(n + 146097).month == civil(n).month,
        civil(n + 146097).day == civil(n).day,
{
    let d = civil(n);
    let e = CivilDate { year: d.year + 400, month: d.month, day: d.day };
    lemma_civil(n);
    lemma_civil(n + 146097);
    lemma_next_era(d, e);
    lemma_same_day(civil(n + 146097), e);
}

/// A day is followed by the next of its month, the last of a month by the first of the
/// next, and the last of a year by the first of the next. Months have 31 days, but for
/// April, June, September and November, which have 30, and February, which has 28, and 29
/// in every fourth year that is not a full century, and in every fourth full century.
pub proof fn law_days_follow_each_other(n: nat)
    ensures
        ({
            let (d, e) = (civil(n), civil(n + 1));
            let leap = (d.year % 4 == 0 && d.year % 100 != 0) || d.year % 400 == 0;
            let last = if d.month == 2 {
                if leap {
                    29int
                } else {
                    28
                }
            } else if d.month == 4 || d.month == 6 || d.month == 9 || d.month == 11 {
                30
            } else {
                31
            };
            &&& 1 <= d.month <= 12 && 1 <= d.day <= last
            &&& d.day < last ==> e.year == d.year && e.month == d.month && e.day == d.day + 1
            &&& d.day == last && d.month < 12 ==> e.year == d.year && e.month == d.month + 1
                && e.day == 1
            &&& d.day == last && d.month == 12 ==> e.year == d.year + 1 && e.month == 1 && e.day
                == 1
        }),
        civil(0).year == 1970 && civil(0).month == 1 && civil(0).day == 1,
{
    lemma_civil(n);
}

/// `text` is a number in decimal digits, at least as many as `width`.
pub open spec fn reads(text: Seq<char>, n: int, width: nat) -> bool {
    all_digits(text) && number_of(text) == n && text.len() >= width
}

/// The parts of a timestamp.
pub struct Parts {
    pub year: Seq<char>,
    pub month: Seq<char>,
    pub day: Seq<char>,
    pub hours: Seq<char>,
    pub minutes: Seq<char>,
    pub seconds: Seq<char>,
}

/// The parts, in their order and with what stands between them.
pub open spec fn put_together(p: Parts, iso: bool) -> Seq<char> {
    p.year + "-"@ + p.month + "-"@ + p.day + (if iso {
        "T"@
    } else {
        " "@
    }) + p.hours + ":"@ + p.minutes + ":"@ + p.seconds + (if iso {
        "Z"@
    } else {
        ""@
    })
}

/// The parts are those of this day, and of this second of the day.
pub open spec fn tell(p: Parts, d: CivilDate, second: int) -> bool {
    &&& reads(p.year, d.year, 4)
    &&& reads(p.month, d.month, 2)
    &&& reads(p.day, d.day, 2)
    &&& all_digits(p.hours) && p.hours.len() == 2 && number_of(p.hours) < 24
    &&& all_digits(p.minutes) && p.minutes.len() == 2 && number_of(p.minutes) < 60
    &&& all_digits(p.seconds) && p.seconds.len() == 2 && number_of(p.seconds) < 60
    &&& number_of(p.hours) * 3600 + number_of(p.minutes) * 60 + number_of(p.seconds) == second
}

#[verifier::spinoff_prover]
proof fn lemma_parts(d: CivilDate, second: int) -> (p: Parts)
    requires
        is_date(d),
        0 <= second < 86400,
    ensures
        tell(p, d, second),
        p.year == padded(d.year as nat, 4),
        p.month == padded(d.month as nat, 2),
        p.day == padded(d.day as nat, 2),
        p.hours == padded((second / 3600) as nat, 2),
        p.minutes == padded((second % 3600 / 60) as nat, 2),
        p.seconds == padded((second % 60) as nat, 2),
{
    let (h, m, s) = (second / 3600, second % 3600 / 60, second % 60);
    law_padded_stands_for_the_number(d.year as nat, 4);
    law_padded_stands_for_the_number(d.month as nat, 2);
    law_padded_stands_for_the_number(d.day as nat, 2);
    law_padded_stands_for_the_number(h as nat, 2);
    law_padded_stands_for_the_number(m as nat, 2);
    law_padded_stands_for_the_number(s as nat, 2);
    lemma_two_digits(h as nat);
    lemma_two_digits(m as nat);
    lemma_two_digits(s as nat);
    assert(second % 3600 % 60 == second % 60);
    assert(h * 3600 + m * 60 + s == second);
    Parts {
        year: padded(d.year as nat, 4),
        month: padded(d.month as nat, 2),
        day: padded(d.day as nat, 2),
        hours: padded(h as nat, 2),
        minutes: padded(m as nat, 2),
        seconds: padded(s as nat, 2),
    }
}

/// A timestamp tells the day that lies so many days after the start of 1970, and the
/// hours, minutes and seconds that make up the rest of the seconds.
pub proof fn law_timestamp_tells_the_moment(secs: u64, iso: bool)
    ensures
        exists|p: Parts| #[trigger]
            tell(p, civil((secs / 86400) as nat), (secs % 86400) as int) && timestamp_text(secs, iso)
                == put_together(p, iso),
{
    let d = civil((secs / 86400) as nat);
    lemma_civil((secs / 86400) as nat);
    let p = lemma_parts(d, (secs % 86400) as int);
    assert(tell(p, d, (secs % 86400) as int));
}

} // verus!
