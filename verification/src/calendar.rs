//! Points in time, retention periods and the timestamps in archive names.
use crate::numerals::number_of;
use crate::text::{decimal, digit, is_digit, text_le, text_lt};
use crate::text::{first_part_decides, second_part_decides};
use vstd::prelude::*;

verus! {

/// First second that a calendar date can be given for, counted from 1970-01-01T00:00:00Z.
pub const EARLIEST: i64 = -8334601228800;

/// Last second that a calendar date can be given for.
pub const LATEST: i64 = 8210266876799;

/// Format of the timestamps in archive names.
pub const STAMP_FORMAT: &'static str = "%Y%m%dT%H%M%SZ";

/// Format of the days on which accounts expire.
pub const DAY_FORMAT: &'static str = "%Y-%m-%d";

/// A point in time.
#[derive(Debug, Clone, Copy, PartialEq, Eq, Structural)]
pub struct Timestamp {
    /// Whole seconds since 1970-01-01T00:00:00Z.
    pub secs: i64,
    /// Nanoseconds since that second began.
    pub nanos: u32,
}

/// Whether a calendar date can be given for the point in time.
pub open spec fn in_range(t: Timestamp) -> bool {
    EARLIEST <= t.secs <= LATEST && t.nanos < 1_000_000_000
}

/// Whether `a` is not after `b`.
pub open spec fn earlier_or_same(a: Timestamp, b: Timestamp) -> bool {
    a.secs < b.secs || a.secs == b.secs && a.nanos <= b.nanos
}

/// Whether `a` is not after `b`.
pub fn not_after(a: Timestamp, b: Timestamp) -> (r: bool)
    ensures
        r == earlier_or_same(a, b),
{
    a.secs < b.secs || (a.secs == b.secs && a.nanos <= b.nanos)
}

/// Makes a `chrono::DateTime<Utc>` of the point in time with `from_timestamp`, subtracts
/// `chrono::Duration::days` and asks for `timestamp` and `timestamp_subsec_nanos`.
///
/// Claimed: the result is as many times 86400 seconds earlier, to the nanosecond. The subtraction
/// panics where the result has no calendar date, which is left out.
#[verifier::external_body]
fn subtract_days(secs: i64, nanos: u32, days: u32) -> (r: (i64, u32))
    requires
        EARLIEST <= secs <= LATEST,
        nanos < 1_000_000_000,
        EARLIEST <= secs - days * 86400,
    ensures
        r.0 == secs - days * 86400,
        r.1 == nanos,
{
    let t = chrono::DateTime::from_timestamp(secs, nanos).unwrap()
        - chrono::Duration::days(days.into());
    (t.timestamp(), t.timestamp_subsec_nanos())
}

/// The point in time a number of days earlier.
pub fn days_before(t: Timestamp, days: u32) -> (r: Timestamp)
    requires
        in_range(t),
        EARLIEST <= t.secs - days * 86400,
    ensures
        r.secs == t.secs - days * 86400,
        r.nanos == t.nanos,
        in_range(r),
{
    let (secs, nanos) = subtract_days(t.secs, t.nanos, days);
    Timestamp { secs, nanos }
}

/// Whether a year of the Gregorian calendar has 366 days.
pub open spec fn is_leap(year: int) -> bool {
    year % 4 == 0 && (year % 100 != 0 || year % 400 == 0)
}

/// Days from the first day of the year 0 to the first day of the given year.
pub open spec fn days_to_year(year: int) -> int {
    365 * year + (year + 3) / 4 - (year + 99) / 100 + (year + 399) / 400
}

/// Days from the first day of a year to the first day of a month of it.
pub open spec fn days_to_month(year: int, month: int) -> int {
    let leap_day: int = if is_leap(year) {
        1
    } else {
        0
    };
    if month <= 1 {
        0
    } else if month == 2 {
        31
    } else if month == 3 {
        59 + leap_day
    } else if month == 4 {
        90 + leap_day
    } else if month == 5 {
        120 + leap_day
    } else if month == 6 {
        151 + leap_day
    } else if month == 7 {
        181 + leap_day
    } else if month == 8 {
        212 + leap_day
    } else if month == 9 {
        243 + leap_day
    } else if month == 10 {
        273 + leap_day
    } else if month == 11 {
        304 + leap_day
    } else if month == 12 {
        334 + leap_day
    } else {
        365 + leap_day
    }
}

/// A day of the Gregorian calendar.
pub struct Date {
    /// The year, with 0 for the year before 1.
    pub year: int,
    /// The month, from 1.
    pub month: int,
    /// The day of the month, from 1.
    pub day: int,
}

/// Whether the calendar has the day.
pub open spec fn is_date(date: Date) -> bool {
    &&& 1 <= date.month <= 12
    &&& 1 <= date.day <= days_to_month(date.year, date.month + 1) - days_to_month(
        date.year,
        date.month,
    )
}

/// Days from 1970-01-01 to the given day. That day is day 719528 counted from the year 0.
pub open spec fn day_number(date: Date) -> int {
    days_to_year(date.year) + days_to_month(date.year, date.month) + date.day - 1 - 719528
}

/// Whether a second falls on the given day.
pub open spec fn falls_on(secs: int, date: Date) -> bool {
    is_date(date) && day_number(date) == secs / 86400
}

/// The numeral of `n`, with zeros in front of it so that it has at least `width` digits.
pub open spec fn padded(n: nat, width: nat) -> Seq<char> {
    let missing = width - decimal(n).len();
    Seq::new(
        if missing > 0 {
            missing as nat
        } else {
            0
        },
        |i: int| '0',
    ) + decimal(n)
}

/// A year in a timestamp: at least four digits, with a sign unless it has four digits.
pub open spec fn year_text(year: int) -> Seq<char> {
    if 0 <= year <= 9999 {
        padded(year as nat, 4)
    } else if year > 9999 {
        seq!['+'] + padded(year as nat, 4)
    } else {
        seq!['-'] + padded((-year) as nat, 4)
    }
}

/// The timestamp of a second that falls on the given day.
pub open spec fn stamp_on(secs: int, date: Date) -> Seq<char> {
    let second = secs % 86400;
    year_text(date.year) + padded(date.month as nat, 2) + padded(date.day as nat, 2) + seq!['T']
        + padded((second / 3600) as nat, 2) + padded((second / 60 % 60) as nat, 2) + padded(
        (second % 60) as nat,
        2,
    ) + seq!['Z']
}

/// Whether a text is the timestamp of a second, in the form `YYYYMMDDThhmmssZ`.
pub open spec fn is_stamp(text: Seq<char>, secs: int) -> bool {
    exists|date: Date| #[trigger] falls_on(secs, date) && text == stamp_on(secs, date)
}

/// A day in the form `YYYY-MM-DD`.
pub open spec fn day_text(date: Date) -> Seq<char> {
    year_text(date.year) + seq!['-'] + padded(date.month as nat, 2) + seq!['-'] + padded(
        date.day as nat,
        2,
    )
}

/// Whether a text is the day on which a second falls, in the form `YYYY-MM-DD`.
pub open spec fn is_day(text: Seq<char>, secs: int) -> bool {
    exists|date: Date| #[trigger] falls_on(secs, date) && text == day_text(date)
}

/// Whether the second falls on a day of the years 0 to 9999.
pub open spec fn has_four_digit_year(secs: int) -> bool {
    -62167219200 <= secs <= 253402300799
}

/// Makes a `chrono::DateTime<Utc>` of the point in time with `from_timestamp` and formats it.
///
/// Claimed: with the format of archive names, the result is the date in the proleptic Gregorian
/// calendar and the time of day, each part in the width that chrono documents. With the format of
/// days, it is the date alone.
#[verifier::external_body]
fn format_time(secs: i64, nanos: u32, format: &str) -> (r: String)
    requires
        EARLIEST <= secs <= LATEST,
        nanos < 1_000_000_000,
        format@ == STAMP_FORMAT@ || format@ == DAY_FORMAT@,
    ensures
        format@ == STAMP_FORMAT@ ==> is_stamp(r@, secs as int),
        format@ == DAY_FORMAT@ ==> is_day(r@, secs as int),
{
    chrono::DateTime::from_timestamp(secs, nanos).unwrap().format(format).to_string()
}

/// The timestamp of a point in time.
pub fn stamp(t: Timestamp) -> (r: String)
    requires
        in_range(t),
    ensures
        is_stamp(r@, t.secs as int),
{
    format_time(t.secs, t.nanos, STAMP_FORMAT)
}

/// The day on which a point in time falls.
pub fn day(t: Timestamp) -> (r: String)
    requires
        in_range(t),
    ensures
        is_day(r@, t.secs as int),
{
    format_time(t.secs, t.nanos, DAY_FORMAT)
}

/// The length of a year.
proof fn lemma_year_length(year: int)
    ensures
        days_to_year(year + 1) == days_to_year(year) + days_to_month(year, 13),
{
    let a = (year + 3) / 4;
    let b = (year + 99) / 100;
    let c = (year + 399) / 400;
    assert((year + 4) / 4 == a + if year % 4 == 0 {
        1int
    } else {
        0int
    });
    assert((year + 100) / 100 == b + if year % 100 == 0 {
        1int
    } else {
        0int
    });
    assert((year + 400) / 400 == c + if year % 400 == 0 {
        1int
    } else {
        0int
    });
}

/// Later years begin on later days.
proof fn lemma_years_in_order(a: int, b: int)
    requires
        a <= b,
    ensures
        days_to_year(a) <= days_to_year(b),
    decreases b - a,
{
    if a < b {
        lemma_years_in_order(a, b - 1);
        lemma_year_length(b - 1);
    }
}

/// A day lies within its year.
proof fn lemma_within_year(date: Date)
    requires
        is_date(date),
    ensures
        days_to_year(date.year) <= day_number(date) + 719528 < days_to_year(date.year + 1),
{
    lemma_year_length(date.year);
}

/// Whether the parts of `p` come before those of `q` or equal them.
pub open spec fn date_le(p: Date, q: Date) -> bool {
    ||| p.year < q.year
    ||| p.year == q.year && p.month < q.month
    ||| p.year == q.year && p.month == q.month && p.day <= q.day
}

/// Days are ordered as their years, months and days of the month are.
pub proof fn dates_in_order(p: Date, q: Date)
    requires
        is_date(p),
        is_date(q),
        day_number(p) <= day_number(q),
    ensures
        date_le(p, q),
        day_number(p) == day_number(q) ==> p == q,
{
    lemma_within_year(p);
    lemma_within_year(q);
    if p.year > q.year {
        lemma_years_in_order(q.year + 1, p.year);
    }
    if p.year < q.year {
        lemma_years_in_order(p.year + 1, q.year);
    }
}

/// The days of a four digit year have one.
proof fn lemma_four_digit_year(secs: int, date: Date)
    requires
        falls_on(secs, date),
        has_four_digit_year(secs),
    ensures
        0 <= date.year <= 9999,
{
    lemma_within_year(date);
    if date.year < 0 {
        lemma_years_in_order(date.year + 1, 0);
    }
    if date.year > 9999 {
        lemma_years_in_order(10000, date.year);
    }
}

/// The two digits of a number below 100.
proof fn lemma_two_digits(n: nat)
    requires
        n < 100,
    ensures
        padded(n, 2) == seq![digit(n / 10), digit(n % 10)],
{
    reveal_with_fuel(decimal, 3);
    if n < 10 {
        assert(decimal(n) == seq![digit(n)]);
        assert(digit(0) == '0');
    } else {
        assert(n / 10 < 10);
        assert(decimal(n) == seq![digit(n / 10)].push(digit(n % 10)));
    }
    assert(padded(n, 2) == seq![digit(n / 10), digit(n % 10)]);
}

/// The four digits of a number below 10000.
proof fn lemma_four_digits(n: nat)
    requires
        n < 10000,
    ensures
        padded(n, 4) == padded(n / 100, 2) + padded(n % 100, 2),
{
    reveal_with_fuel(decimal, 5);
    lemma_two_digits(n / 100);
    lemma_two_digits(n % 100);
    let d = n % 10;
    let c = n / 10 % 10;
    let b = n / 100 % 10;
    let a = n / 1000;
    assert(n % 100 / 10 == c && n % 100 % 10 == d);
    assert(n / 100 / 10 == a && n / 100 % 10 == b);
    assert(n / 10 / 10 == n / 100 && n / 10 / 10 / 10 == a);
    assert(digit(0) == '0');
    if n < 10 {
        assert(decimal(n) == seq![digit(d)]);
    } else if n < 100 {
        assert(decimal(n) == seq![digit(c), digit(d)]);
    } else if n < 1000 {
        assert(decimal(n) == seq![digit(b), digit(c), digit(d)]);
    } else {
        assert(decimal(n) == seq![digit(a), digit(b), digit(c), digit(d)]);
    }
    assert(padded(n, 4) == seq![digit(a), digit(b), digit(c), digit(d)]);
}

/// Numbers of two digits are ordered as their numerals are.
proof fn lemma_two_digits_in_order(m: nat, n: nat)
    requires
        m < n < 100,
    ensures
        text_lt(padded(m, 2), padded(n, 2)),
{
    lemma_two_digits(m);
    lemma_two_digits(n);
    let x = padded(m, 2);
    let y = padded(n, 2);
    reveal_with_fuel(text_le, 4);
    if m / 10 == n / 10 {
        assert(m % 10 < n % 10);
        assert(x.drop_first()[0] == digit(m % 10));
        assert(y.drop_first()[0] == digit(n % 10));
        assert(x[1] != y[1]);
    } else {
        assert(m / 10 < n / 10);
        assert(x[0] != y[0]);
    }
}

/// Numbers of four digits are ordered as their numerals are.
proof fn lemma_four_digits_in_order(m: nat, n: nat)
    requires
        m < n < 10000,
    ensures
        text_lt(padded(m, 4), padded(n, 4)),
{
    lemma_four_digits(m);
    lemma_four_digits(n);
    lemma_two_digits(m / 100);
    lemma_two_digits(n / 100);
    if m / 100 == n / 100 {
        lemma_two_digits_in_order(m % 100, n % 100);
        second_part_decides(padded(m / 100, 2), padded(m % 100, 2), padded(n % 100, 2));
    } else {
        lemma_two_digits_in_order(m / 100, n / 100);
        first_part_decides(
            padded(m / 100, 2),
            padded(m % 100, 2),
            padded(n / 100, 2),
            padded(n % 100, 2),
        );
    }
}

/// The time of day in a timestamp.
spec fn clock(second: int) -> Seq<char> {
    padded((second / 3600) as nat, 2) + (padded((second / 60 % 60) as nat, 2) + padded(
        (second % 60) as nat,
        2,
    ))
}

/// The day in a timestamp.
spec fn calendar_day(date: Date) -> Seq<char> {
    padded(date.year as nat, 4) + (padded(date.month as nat, 2) + padded(date.day as nat, 2))
}

/// Grouping the parts of a timestamp.
proof fn lemma_grouped(
    y: Seq<char>,
    m: Seq<char>,
    d: Seq<char>,
    t: Seq<char>,
    h: Seq<char>,
    n: Seq<char>,
    c: Seq<char>,
    z: Seq<char>,
)
    ensures
        y + m + d + t + h + n + c + z == (y + (m + d)) + (t + ((h + (n + c)) + z)),
{
    assert(y + m + d + t + h + n + c + z == (y + (m + d)) + (t + ((h + (n + c)) + z)));
}

/// The parts of a timestamp with a four digit year.
proof fn lemma_stamp_parts(secs: int, date: Date)
    requires
        falls_on(secs, date),
        has_four_digit_year(secs),
    ensures
        stamp_on(secs, date) == calendar_day(date) + (seq!['T'] + (clock(secs % 86400) + seq!['Z'])),
        calendar_day(date).len() == 8,
        clock(secs % 86400).len() == 6,
        0 <= date.year <= 9999,
{
    lemma_four_digit_year(secs, date);
    let second = secs % 86400;
    assert(0 <= second / 3600 < 24);
    assert(0 <= second / 60 % 60 < 60);
    assert(0 <= second % 60 < 60);
    lemma_four_digits(date.year as nat);
    lemma_two_digits(date.year as nat / 100);
    lemma_two_digits(date.year as nat % 100);
    lemma_two_digits(date.month as nat);
    lemma_two_digits(date.day as nat);
    lemma_two_digits((second / 3600) as nat);
    lemma_two_digits((second / 60 % 60) as nat);
    lemma_two_digits((second % 60) as nat);
    lemma_grouped(
        padded(date.year as nat, 4),
        padded(date.month as nat, 2),
        padded(date.day as nat, 2),
        seq!['T'],
        padded((second / 3600) as nat, 2),
        padded((second / 60 % 60) as nat, 2),
        padded((second % 60) as nat, 2),
        seq!['Z'],
    );
}

/// Later times of a day have later numerals.
proof fn lemma_clock_in_order(s: int, t: int)
    requires
        0 <= s < t < 86400,
    ensures
        text_lt(clock(s), clock(t)),
{
    let (h, m, c) = (s / 3600, s / 60 % 60, s % 60);
    let (i, n, d) = (t / 3600, t / 60 % 60, t % 60);
    assert(s == h * 3600 + m * 60 + c);
    assert(t == i * 3600 + n * 60 + d);
    lemma_two_digits(h as nat);
    lemma_two_digits(i as nat);
    lemma_two_digits(m as nat);
    lemma_two_digits(n as nat);
    let a = padded(m as nat, 2) + padded(c as nat, 2);
    let b = padded(n as nat, 2) + padded(d as nat, 2);
    if h < i {
        lemma_two_digits_in_order(h as nat, i as nat);
        first_part_decides(padded(h as nat, 2), a, padded(i as nat, 2), b);
    } else {
        if m < n {
            lemma_two_digits_in_order(m as nat, n as nat);
            first_part_decides(
                padded(m as nat, 2),
                padded(c as nat, 2),
                padded(n as nat, 2),
                padded(d as nat, 2),
            );
        } else {
            lemma_two_digits_in_order(c as nat, d as nat);
            second_part_decides(padded(m as nat, 2), padded(c as nat, 2), padded(d as nat, 2));
        }
        second_part_decides(padded(h as nat, 2), a, b);
    }
}

/// Later days have later numerals.
proof fn lemma_days_in_order(p: Date, q: Date)
    requires
        is_date(p),
        is_date(q),
        0 <= p.year <= 9999,
        0 <= q.year <= 9999,
        date_le(p, q),
        p != q,
    ensures
        text_lt(calendar_day(p), calendar_day(q)),
{
    let a = padded(p.month as nat, 2) + padded(p.day as nat, 2);
    let b = padded(q.month as nat, 2) + padded(q.day as nat, 2);
    lemma_four_digits(p.year as nat);
    lemma_four_digits(q.year as nat);
    lemma_two_digits(p.year as nat / 100);
    lemma_two_digits(p.year as nat % 100);
    lemma_two_digits(q.year as nat / 100);
    lemma_two_digits(q.year as nat % 100);
    lemma_two_digits(p.month as nat);
    lemma_two_digits(q.month as nat);
    if p.year < q.year {
        lemma_four_digits_in_order(p.year as nat, q.year as nat);
        first_part_decides(padded(p.year as nat, 4), a, padded(q.year as nat, 4), b);
    } else {
        if p.month < q.month {
            lemma_two_digits_in_order(p.month as nat, q.month as nat);
            first_part_decides(
                padded(p.month as nat, 2),
                padded(p.day as nat, 2),
                padded(q.month as nat, 2),
                padded(q.day as nat, 2),
            );
        } else {
            lemma_two_digits_in_order(p.day as nat, q.day as nat);
            second_part_decides(
                padded(p.month as nat, 2),
                padded(p.day as nat, 2),
                padded(q.day as nat, 2),
            );
        }
        second_part_decides(padded(p.year as nat, 4), a, b);
    }
}

/// A second has one timestamp only.
pub proof fn stamp_is_unique(a: Seq<char>, b: Seq<char>, secs: int)
    requires
        is_stamp(a, secs),
        is_stamp(b, secs),
    ensures
        a == b,
{
    let p = choose|p: Date| #[trigger] falls_on(secs, p) && a == stamp_on(secs, p);
    let q = choose|q: Date| #[trigger] falls_on(secs, q) && b == stamp_on(secs, q);
    dates_in_order(p, q);
}

/// Timestamps sort as the seconds do that they stand for, in years of four digits.
///
/// A year of five digits begins with a sign, which sorts before the digits.
pub proof fn stamps_sort_by_time(a: Seq<char>, s: int, b: Seq<char>, t: int)
    requires
        is_stamp(a, s),
        is_stamp(b, t),
        has_four_digit_year(s),
        has_four_digit_year(t),
        s < t,
    ensures
        text_lt(a, b),
{
    let p = choose|p: Date| #[trigger] falls_on(s, p) && a == stamp_on(s, p);
    let q = choose|q: Date| #[trigger] falls_on(t, q) && b == stamp_on(t, q);
    lemma_stamp_parts(s, p);
    lemma_stamp_parts(t, q);
    assert(s / 86400 <= t / 86400);
    dates_in_order(p, q);
    let c = clock(s % 86400);
    let d = clock(t % 86400);
    let z = seq!['Z'];
    if p == q {
        assert(s % 86400 < t % 86400);
        lemma_clock_in_order(s % 86400, t % 86400);
        first_part_decides(c, z, d, z);
        second_part_decides(seq!['T'], c + z, d + z);
        second_part_decides(calendar_day(p), seq!['T'] + (c + z), seq!['T'] + (d + z));
    } else {
        lemma_days_in_order(p, q);
        first_part_decides(
            calendar_day(p),
            seq!['T'] + (c + z),
            calendar_day(q),
            seq!['T'] + (d + z),
        );
    }
}

/// Whether a text has the form of a timestamp with a year of four digits.
pub open spec fn has_stamp_form(s: Seq<char>) -> bool {
    &&& s.len() == 16
    &&& forall|i: int| 0 <= i < 8 ==> is_digit(#[trigger] s[i])
    &&& s[8] == 'T'
    &&& forall|i: int| 9 <= i < 15 ==> is_digit(#[trigger] s[i])
    &&& s[15] == 'Z'
}

/// Timestamps of years of four digits have the form of timestamps.
pub proof fn stamps_have_stamp_form(a: Seq<char>, secs: int)
    requires
        is_stamp(a, secs),
        has_four_digit_year(secs),
    ensures
        has_stamp_form(a),
{
    let p = choose|p: Date| #[trigger] falls_on(secs, p) && a == stamp_on(secs, p);
    lemma_stamp_parts(secs, p);
    lemma_day_is_digits(p);
    lemma_clock_is_digits(secs % 86400);
    let day = calendar_day(p);
    let time = clock(secs % 86400);
    assert forall|i: int| 0 <= i < 8 implies is_digit(#[trigger] a[i]) by {
        assert(a[i] == day[i]);
    }
    assert forall|i: int| 9 <= i < 15 implies is_digit(#[trigger] a[i]) by {
        assert(a[i] == time[i - 9]);
    }
}

/// The day in a timestamp is made of digits.
#[verifier::spinoff_prover]
proof fn lemma_day_is_digits(date: Date)
    requires
        is_date(date),
        0 <= date.year <= 9999,
    ensures
        forall|i: int| 0 <= i < 8 ==> is_digit(#[trigger] calendar_day(date)[i]),
{
    let y = date.year as nat;
    lemma_four_digits(y);
    lemma_two_digits(y / 100);
    lemma_two_digits(y % 100);
    lemma_two_digits(date.month as nat);
    lemma_two_digits(date.day as nat);
    let day = calendar_day(date);
    assert(day == seq![
        digit(y / 100 / 10),
        digit(y / 100 % 10),
        digit(y % 100 / 10),
        digit(y % 100 % 10),
        digit(date.month as nat / 10),
        digit(date.month as nat % 10),
        digit(date.day as nat / 10),
        digit(date.day as nat % 10),
    ]);
}

/// The time in a timestamp is made of digits.
proof fn lemma_clock_is_digits(second: int)
    requires
        0 <= second < 86400,
    ensures
        forall|i: int| 0 <= i < 6 ==> is_digit(#[trigger] clock(second)[i]),
{
    let h = (second / 3600) as nat;
    let m = (second / 60 % 60) as nat;
    let c = (second % 60) as nat;
    lemma_two_digits(h);
    lemma_two_digits(m);
    lemma_two_digits(c);
    assert(clock(second) == seq![
        digit(h / 10),
        digit(h % 10),
        digit(m / 10),
        digit(m % 10),
        digit(c / 10),
        digit(c % 10),
    ]);
}

/// A day has one text only, whichever of its seconds is asked for.
pub proof fn day_is_unique(a: Seq<char>, s: int, b: Seq<char>, t: int)
    requires
        is_day(a, s),
        is_day(b, t),
        s / 86400 == t / 86400,
    ensures
        a == b,
{
    let p = choose|date: Date| #[trigger] falls_on(s, date) && a == day_text(date);
    let q = choose|date: Date| #[trigger] falls_on(t, date) && b == day_text(date);
    dates_in_order(p, q);
}

/// One point in time is not after another if and only if no more nanoseconds have passed until
/// then.
pub proof fn points_in_time_are_ordered(a: Timestamp, b: Timestamp, r: bool)
    requires
        call_ensures(not_after, (a, b), r),
        a.nanos < 1_000_000_000,
        b.nanos < 1_000_000_000,
    ensures
        r <==> a.secs * 1_000_000_000 + a.nanos <= b.secs * 1_000_000_000 + b.nanos,
{
}

/// A number of days before a point in time is that many times 24 hours before it, and days that are
/// subtracted one after the other add up.
pub proof fn days_have_24_hours(
    t: Timestamp,
    days: u32,
    r: Timestamp,
    more_days: u32,
    earlier: Timestamp,
    both: u32,
    at_once: Timestamp,
)
    requires
        call_ensures(days_before, (t, days), r),
        call_ensures(days_before, (r, more_days), earlier),
        call_ensures(days_before, (t, both), at_once),
        both == days + more_days,
    ensures
        t.secs - r.secs == days * 24 * 60 * 60,
        r.nanos == t.nanos,
        earlier == at_once,
{
}

/// The number that two digits stand for.
proof fn lemma_two_digit_number(n: nat)
    requires
        n < 100,
    ensures
        number_of(padded(n, 2)) == n,
        padded(n, 2).len() == 2,
{
    lemma_two_digits(n);
    let s = padded(n, 2);
    assert(s.drop_last() == seq![digit(n / 10)]);
    assert(s.drop_last().drop_last() == Seq::<char>::empty());
    assert(number_of(s.drop_last().drop_last()) == 0);
    assert(number_of(s.drop_last()) == n / 10);
}

/// The number that four digits stand for.
proof fn lemma_four_digit_number(n: nat)
    requires
        n < 10000,
    ensures
        number_of(padded(n, 4)) == n,
        padded(n, 4).len() == 4,
{
    lemma_four_digits(n);
    lemma_two_digit_number(n / 100);
    lemma_two_digits(n % 100);
    let s = padded(n, 4);
    let a = padded(n / 100, 2);
    assert(s.drop_last() == a.push(digit(n % 100 / 10)));
    assert(s.drop_last().drop_last() == a);
    assert(s.last() == digit(n % 100 % 10));
    assert(number_of(s.drop_last()) == number_of(a) * 10 + n % 100 / 10);
}

/// A timestamp tells the second that it was made for, in years of four digits: its numbers are the
/// year, the month and the day on which the second falls, and its hour, minute and second.
pub proof fn stamps_tell_the_time(t: Timestamp, r: String)
    requires
        call_ensures(stamp, (t,), r),
        has_four_digit_year(t.secs as int),
    ensures
        r@.len() == 16,
        falls_on(
            t.secs as int,
            Date {
                year: number_of(r@.subrange(0, 4)) as int,
                month: number_of(r@.subrange(4, 6)) as int,
                day: number_of(r@.subrange(6, 8)) as int,
            },
        ),
        r@[8] == 'T',
        number_of(r@.subrange(9, 11)) * 3600 + number_of(r@.subrange(11, 13)) * 60 + number_of(
            r@.subrange(13, 15),
        ) == t.secs as int % 86400,
        r@[15] == 'Z',
{
    let secs = t.secs as int;
    let date = choose|date: Date| #[trigger] falls_on(secs, date) && r@ == stamp_on(secs, date);
    lemma_stamp_parts(secs, date);
    let second = secs % 86400;
    let y = padded(date.year as nat, 4);
    let m = padded(date.month as nat, 2);
    let d = padded(date.day as nat, 2);
    let h = padded((second / 3600) as nat, 2);
    let n = padded((second / 60 % 60) as nat, 2);
    let c = padded((second % 60) as nat, 2);
    assert(0 <= second < 86400);
    assert(0 <= second / 3600 < 24);
    assert(0 <= second / 60 % 60 < 60);
    lemma_four_digit_number(date.year as nat);
    lemma_two_digit_number(date.month as nat);
    lemma_day_below_32(date);
    lemma_two_digit_number(date.day as nat);
    lemma_two_digit_number((second / 3600) as nat);
    lemma_two_digit_number((second / 60 % 60) as nat);
    lemma_two_digit_number((second % 60) as nat);
    assert(r@ == (y + (m + d)) + (seq!['T'] + ((h + (n + c)) + seq!['Z'])));
    assert(r@.subrange(0, 4) == y);
    assert(r@.subrange(4, 6) == m);
    assert(r@.subrange(6, 8) == d);
    assert(r@.subrange(9, 11) == h);
    assert(r@.subrange(11, 13) == n);
    assert(r@.subrange(13, 15) == c);
    assert(second / 3600 * 3600 + second / 60 % 60 * 60 + second % 60 == second);
}

/// No month has more than 31 days.
proof fn lemma_day_below_32(date: Date)
    requires
        is_date(date),
    ensures
        1 <= date.day <= 31,
{
}

/// The text of a day tells the year, the month and the day of the month on which the second falls,
/// in years of four digits.
pub proof fn days_tell_the_date(t: Timestamp, r: String)
    requires
        call_ensures(day, (t,), r),
        has_four_digit_year(t.secs as int),
    ensures
        r@.len() == 10,
        falls_on(
            t.secs as int,
            Date {
                year: number_of(r@.subrange(0, 4)) as int,
                month: number_of(r@.subrange(5, 7)) as int,
                day: number_of(r@.subrange(8, 10)) as int,
            },
        ),
        r@[4] == '-',
        r@[7] == '-',
{
    let secs = t.secs as int;
    let date = choose|date: Date| #[trigger] falls_on(secs, date) && r@ == day_text(date);
    lemma_four_digit_year(secs, date);
    let y = padded(date.year as nat, 4);
    let m = padded(date.month as nat, 2);
    let d = padded(date.day as nat, 2);
    lemma_four_digit_number(date.year as nat);
    lemma_two_digit_number(date.month as nat);
    lemma_day_below_32(date);
    lemma_two_digit_number(date.day as nat);
    assert(r@ == y + seq!['-'] + m + seq!['-'] + d);
    assert(r@.subrange(0, 4) == y);
    assert(r@.subrange(5, 7) == m);
    assert(r@.subrange(8, 10) == d);
}

} // verus!
