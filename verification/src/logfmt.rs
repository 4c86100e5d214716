//! Denial-log formatting: the civil calendar, ISO-8601 timestamps at
//! second precision, and the one-line denial record.

use vstd::prelude::*;

use crate::rules::Operation;

verus! {

/// Whether `y` is a leap year of the proleptic Gregorian calendar.
pub open spec fn spec_is_leap(y: int) -> bool {
    y % 4 == 0 && (y % 100 != 0 || y % 400 == 0)
}

/// The number of days of year `y`.
pub open spec fn spec_year_len(y: int) -> int {
    if spec_is_leap(y) {
        366
    } else {
        365
    }
}

/// The number of days of the years `a` (inclusive) up to `b` (exclusive).
pub open spec fn spec_days_between(a: int, b: int) -> int
    decreases b - a,
{
    if a >= b {
        0
    } else {
        spec_year_len(a) + spec_days_between(a + 1, b)
    }
}

/// The number of days of month `m` in year `y`.
pub open spec fn spec_month_len(y: int, m: int) -> int {
    if m == 2 {
        if spec_is_leap(y) {
            29
        } else {
            28
        }
    } else if m == 4 || m == 6 || m == 9 || m == 11 {
        30
    } else {
        31
    }
}

/// The number of days of year `y` that lie before month `m`.
pub open spec fn spec_days_before_month(y: int, m: int) -> int
    decreases m,
{
    if m <= 1 {
        0
    } else {
        spec_days_before_month(y, m - 1) + spec_month_len(y, m - 1)
    }
}

/// `(y, m, d)` is the civil date `days` days after 1970-01-01.
pub open spec fn is_civil_date_of(days: int, y: int, m: int, d: int) -> bool {
    &&& y >= 1970
    &&& 1 <= m <= 12
    &&& 1 <= d <= spec_month_len(y, m)
    &&& days == spec_days_between(1970, y) + spec_days_before_month(y, m) + d - 1
}

/// The number of positive multiples of `d` up to `y` (exclusive),
/// counting `0` as a multiple.
pub open spec fn spec_mults_before(y: int, d: int) -> int {
    (y + d - 1) / d
}

/// The number of leap years in the years `0` (inclusive) up to `y`
/// (exclusive).
pub open spec fn spec_leaps_before(y: int) -> int {
    spec_mults_before(y, 4) - spec_mults_before(y, 100) + spec_mults_before(y, 400)
}

/// How a quotient grows when the dividend grows by one.
proof fn lemma_div_step(x: int, d: int)
    requires
        0 <= x,
        0 < d,
    ensures
        (x + 1) / d == x / d + (if x % d == d - 1 {
            1int
        } else {
            0int
        }),
{
    vstd::arithmetic::div_mod::lemma_fundamental_div_mod(x, d);
    vstd::arithmetic::div_mod::lemma_mod_bound(x, d);
    if x % d == d - 1 {
        assert(x + 1 == (x / d + 1) * d + 0) by (nonlinear_arith)
            requires
                x == d * (x / d) + x % d,
                x % d == d - 1,
        ;
        vstd::arithmetic::div_mod::lemma_fundamental_div_mod_converse(x + 1, d, x / d + 1, 0);
    } else {
        assert(x + 1 == (x / d) * d + (x % d + 1)) by (nonlinear_arith)
            requires
                x == d * (x / d) + x % d,
        ;
        vstd::arithmetic::div_mod::lemma_fundamental_div_mod_converse(x + 1, d, x / d, x % d + 1);
    }
}

/// The predecessor of a multiple of `d`, and only of a multiple, has
/// remainder `d - 1`.
proof fn lemma_mod_pred(y: int, d: int)
    requires
        0 < d,
    ensures
        ((y - 1) % d == d - 1) == (y % d == 0),
{
    vstd::arithmetic::div_mod::lemma_fundamental_div_mod(y, d);
    vstd::arithmetic::div_mod::lemma_mod_bound(y, d);
    if y % d == 0 {
        assert(y - 1 == (y / d - 1) * d + (d - 1)) by (nonlinear_arith)
            requires
                y == d * (y / d) + y % d,
                y % d == 0,
                0 < d,
        ;
        vstd::arithmetic::div_mod::lemma_fundamental_div_mod_converse(y - 1, d, y / d - 1, d - 1);
    } else {
        assert(y - 1 == (y / d) * d + (y % d - 1)) by (nonlinear_arith)
            requires
                y == d * (y / d) + y % d,
        ;
        vstd::arithmetic::div_mod::lemma_fundamental_div_mod_converse(y - 1, d, y / d, y % d - 1);
    }
}

/// A multiple of 100 is a multiple of 4, and a multiple of 400 is a
/// multiple of both.
proof fn lemma_century_mults(y: int)
    ensures
        y % 100 == 0 ==> y % 4 == 0,
        y % 400 == 0 ==> y % 100 == 0 && y % 4 == 0,
{
    vstd::arithmetic::div_mod::lemma_fundamental_div_mod(y, 100);
    vstd::arithmetic::div_mod::lemma_fundamental_div_mod(y, 400);
    if y % 100 == 0 {
        vstd::arithmetic::div_mod::lemma_mod_multiples_vanish(25 * (y / 100), 0, 4);
        assert(4 * (25 * (y / 100)) == 100 * (y / 100)) by (nonlinear_arith);
    }
    if y % 400 == 0 {
        vstd::arithmetic::div_mod::lemma_mod_multiples_vanish(4 * (y / 400), 0, 100);
        assert(100 * (4 * (y / 400)) == 400 * (y / 400)) by (nonlinear_arith);
        vstd::arithmetic::div_mod::lemma_mod_multiples_vanish(100 * (y / 400), 0, 4);
        assert(4 * (100 * (y / 400)) == 400 * (y / 400)) by (nonlinear_arith);
    }
}

/// One more year adds one more leap year exactly when the year is leap.
proof fn lemma_leaps_step(y: int)
    requires
        y >= 0,
    ensures
        spec_leaps_before(y + 1) == spec_leaps_before(y) + (if spec_is_leap(y) {
            1int
        } else {
            0int
        }),
{
    lemma_div_step(y + 3, 4);
    lemma_mod_pred(y + 4, 4);
    vstd::arithmetic::div_mod::lemma_mod_add_multiples_vanish(y, 4);
    lemma_div_step(y + 99, 100);
    lemma_mod_pred(y + 100, 100);
    vstd::arithmetic::div_mod::lemma_mod_add_multiples_vanish(y, 100);
    lemma_div_step(y + 399, 400);
    lemma_mod_pred(y + 400, 400);
    vstd::arithmetic::div_mod::lemma_mod_add_multiples_vanish(y, 400);
    lemma_century_mults(y);
}

/// Day counts over adjacent spans of years add up.
proof fn lemma_days_between_split(a: int, mid: int, b: int)
    requires
        a <= mid <= b,
    ensures
        spec_days_between(a, b) == spec_days_between(a, mid) + spec_days_between(mid, b),
    decreases mid - a,
{
    if a < mid {
        lemma_days_between_split(a + 1, mid, b);
    }
}

/// Any span of years holds at least 365 days per year.
proof fn lemma_days_between_lower(a: int, b: int)
    requires
        a <= b,
    ensures
        spec_days_between(a, b) >= 365 * (b - a),
    decreases b - a,
{
    if a < b {
        lemma_days_between_lower(a + 1, b);
    }
}

/// The day count from 1970 in closed form, by counting leap years.
proof fn lemma_days_between_closed(y: int)
    requires
        y >= 1970,
    ensures
        spec_days_between(1970, y) == 365 * (y - 1970) + spec_leaps_before(y)
            - spec_leaps_before(1970),
    decreases y - 1970,
{
    if y > 1970 {
        lemma_days_between_closed(y - 1);
        lemma_leaps_step(y - 1);
        lemma_days_between_split(1970, y - 1, y);
        assert(spec_days_between(y, y) == 0);
        assert(spec_days_between(y - 1, y) == spec_year_len(y - 1) + spec_days_between(y, y));
    }
}

/// `k` whole 400-year eras from 1970 hold exactly `146097 k` days.
proof fn lemma_era_days(k: int)
    requires
        k >= 0,
    ensures
        spec_days_between(1970, 1970 + 400 * k) == 146097 * k,
{
    let y = 1970 + 400 * k;
    lemma_days_between_closed(y);
    vstd::arithmetic::div_mod::lemma_div_multiples_vanish_fancy(100 * k + 493, 1, 4);
    assert(4 * (100 * k + 493) + 1 == y + 3) by (nonlinear_arith)
        requires
            y == 1970 + 400 * k,
    ;
    vstd::arithmetic::div_mod::lemma_div_multiples_vanish_fancy(4 * k + 20, 69, 100);
    assert(100 * (4 * k + 20) + 69 == y + 99) by (nonlinear_arith)
        requires
            y == 1970 + 400 * k,
    ;
    vstd::arithmetic::div_mod::lemma_div_multiples_vanish_fancy(k + 5, 369, 400);
    assert(400 * (k + 5) + 369 == y + 399) by (nonlinear_arith)
        requires
            y == 1970 + 400 * k,
    ;
    assert(spec_leaps_before(y) == 493 + 100 * k - (20 + 4 * k) + (5 + k));
    assert(spec_leaps_before(1970) == 478);
    assert(365 * (y - 1970) == 146000 * k) by (nonlinear_arith)
        requires
            y == 1970 + 400 * k,
    ;
}

/// The months of a year add up to its length.
proof fn lemma_year_months(y: int)
    ensures
        spec_days_before_month(y, 13) == spec_year_len(y),
{
    reveal_with_fuel(spec_days_before_month, 13);
}

/// Months before `m` never hold negative days, and at least 31 days lie
/// before any month past January.
proof fn lemma_days_before_month_bounds(y: int, m: int)
    requires
        1 <= m <= 13,
    ensures
        spec_days_before_month(y, m) >= 0,
        m >= 2 ==> spec_days_before_month(y, m) >= 31,
    decreases m,
{
    if m >= 2 {
        lemma_days_before_month_bounds(y, m - 1);
    }
}

/// Days before a month grow with the month.
proof fn lemma_days_before_month_monotone(y: int, a: int, b: int)
    requires
        1 <= a <= b <= 13,
    ensures
        spec_days_before_month(y, a) <= spec_days_before_month(y, b),
    decreases b - a,
{
    if a < b {
        lemma_days_before_month_monotone(y, a + 1, b);
    }
}

/// A day number names exactly one civil date: the calendar never assigns
/// two dates to the same count of days since the epoch.
pub proof fn lemma_civil_date_unique(
    days: int,
    y1: int,
    m1: int,
    d1: int,
    y2: int,
    m2: int,
    d2: int,
)
    requires
        is_civil_date_of(days, y1, m1, d1),
        is_civil_date_of(days, y2, m2, d2),
    ensures
        y1 == y2,
        m1 == m2,
        d1 == d2,
{
    lemma_civil_year_unique(days, y1, m1, d1, y2, m2, d2);
    lemma_civil_year_unique(days, y2, m2, d2, y1, m1, d1);
    let y = y1;
    lemma_civil_month_unique(days, y, m1, d1, m2, d2);
    lemma_civil_month_unique(days, y, m2, d2, m1, d1);
}

/// Within one day number, the year of a valid date cannot be smaller than
/// the year of another valid date for the same day number.
proof fn lemma_civil_year_unique(days: int, y1: int, m1: int, d1: int, y2: int, m2: int, d2: int)
    requires
        is_civil_date_of(days, y1, m1, d1),
        is_civil_date_of(days, y2, m2, d2),
    ensures
        y1 >= y2,
{
    if y1 < y2 {
        // A whole date lies inside its year: before_month + day - 1 is
        // below the year's length.
        lemma_days_before_month_monotone(y1, m1 + 1, 13);
        lemma_year_months(y1);
        assert(spec_days_before_month(y1, m1 + 1) == spec_days_before_month(y1, m1)
            + spec_month_len(y1, m1));
        assert(spec_days_before_month(y1, m1) + d1 - 1 < spec_year_len(y1));
        // But the second date's year alone already lies past that.
        lemma_days_between_split(1970, y1, y2);
        lemma_days_between_split(y1, y1 + 1, y2);
        assert(spec_days_between(y1 + 1, y1 + 1) == 0);
        assert(spec_days_between(y1, y1 + 1) == spec_year_len(y1) + spec_days_between(
            y1 + 1,
            y1 + 1,
        ));
        lemma_days_between_lower(y1 + 1, y2);
        lemma_days_before_month_bounds(y2, m2);
        assert(false);
    }
}

/// Within one day number and year, the month of a valid date cannot be
/// smaller than the month of another valid date for the same day number.
proof fn lemma_civil_month_unique(days: int, y: int, m1: int, d1: int, m2: int, d2: int)
    requires
        is_civil_date_of(days, y, m1, d1),
        is_civil_date_of(days, y, m2, d2),
    ensures
        m1 >= m2,
        m1 == m2 ==> d1 == d2,
{
    if m1 < m2 {
        assert(spec_days_before_month(y, m1 + 1) == spec_days_before_month(y, m1)
            + spec_month_len(y, m1));
        lemma_days_before_month_monotone(y, m1 + 1, m2);
        assert(false);
    }
}

/// The rendering of a moment is unique: two timestamps of the same
/// wall-clock time are the same string.
pub proof fn lemma_timestamp_deterministic(secs: int, t1: Seq<char>, t2: Seq<char>)
    requires
        is_timestamp_of(secs, t1),
        is_timestamp_of(secs, t2),
    ensures
        t1 == t2,
{
    let days = secs / 86400;
    let (ya, ma, da) = choose|y: int, m: int, d: int|
        #[trigger] is_civil_date_of(days, y, m, d) && t1 == spec_render_timestamp(
            y,
            m,
            d,
            (secs % 86400) / 3600,
            ((secs % 86400) % 3600) / 60,
            (secs % 86400) % 60,
        );
    let (yb, mb, db) = choose|y: int, m: int, d: int|
        #[trigger] is_civil_date_of(days, y, m, d) && t2 == spec_render_timestamp(
            y,
            m,
            d,
            (secs % 86400) / 3600,
            ((secs % 86400) % 3600) / 60,
            (secs % 86400) % 60,
        );
    lemma_civil_date_unique(days, ya, ma, da, yb, mb, db);
}

/// Whether `y` is a leap year.
pub fn is_leap_year(y: u64) -> (r: bool)
    ensures
        r == spec_is_leap(y as int),
{
    y % 4 == 0 && (y % 100 != 0 || y % 400 == 0)
}

/// The number of days of year `y`.
pub fn year_length(y: u64) -> (r: u64)
    ensures
        r as int == spec_year_len(y as int),
{
    if is_leap_year(y) {
        366
    } else {
        365
    }
}

/// The number of days of month `m` in year `y`.
pub fn month_length(y: u64, m: u64) -> (r: u64)
    requires
        1 <= m <= 12,
    ensures
        r as int == spec_month_len(y as int, m as int),
{
    if m == 2 {
        if is_leap_year(y) {
            29
        } else {
            28
        }
    } else if m == 4 || m == 6 || m == 9 || m == 11 {
        30
    } else {
        31
    }
}

/// The civil date `days` days after 1970-01-01, as `(year, month, day)`.
pub fn days_to_date(days: u64) -> (r: (u64, u64, u64))
    ensures
        is_civil_date_of(days as int, r.0 as int, r.1 as int, r.2 as int),
{
    let eras = days / 146097;
    let mut rem = days % 146097;
    let mut year: u64 = 1970 + 400 * eras;
    proof {
        lemma_era_days(eras as int);
        vstd::arithmetic::div_mod::lemma_fundamental_div_mod(days as int, 146097);
        assert(days as int == spec_days_between(1970, year as int) + rem);
    }
    while rem >= year_length(year)
        invariant
            days as int == spec_days_between(1970, year as int) + rem,
            year >= 1970,
        decreases rem,
    {
        let yl = year_length(year);
        proof {
            lemma_days_between_lower(1970, year as int);
            lemma_days_between_split(1970, year as int, year as int + 1);
            assert(spec_days_between(year as int + 1, year as int + 1) == 0);
            assert(spec_days_between(year as int, year as int + 1) == spec_year_len(year as int)
                + spec_days_between(year as int + 1, year as int + 1));
        }
        rem = rem - yl;
        year = year + 1;
    }
    let ghost year_rem = rem as int;
    proof {
        assert(rem < spec_year_len(year as int));
        lemma_year_months(year as int);
    }
    let mut month: u64 = 1;
    while month < 12 && rem >= month_length(year, month)
        invariant
            1 <= month <= 12,
            year_rem == spec_days_before_month(year as int, month as int) + rem,
            year_rem < spec_year_len(year as int),
        decreases 12 - month,
    {
        let ml = month_length(year, month);
        rem = rem - ml;
        month = month + 1;
    }
    proof {
        if month == 12 && rem as int >= spec_month_len(year as int, 12) {
            lemma_year_months(year as int);
            assert(spec_days_before_month(year as int, 13) == spec_days_before_month(
                year as int,
                12,
            ) + spec_month_len(year as int, 12));
        }
    }
    let day = rem + 1;
    (year, month, day)
}

/// The decimal digit character for `d`.
pub open spec fn spec_digit(d: int) -> char {
    if d == 0 {
        '0'
    } else if d == 1 {
        '1'
    } else if d == 2 {
        '2'
    } else if d == 3 {
        '3'
    } else if d == 4 {
        '4'
    } else if d == 5 {
        '5'
    } else if d == 6 {
        '6'
    } else if d == 7 {
        '7'
    } else if d == 8 {
        '8'
    } else {
        '9'
    }
}

/// The decimal rendering of a nonnegative number.
pub open spec fn spec_dec(n: int) -> Seq<char>
    recommends
        n >= 0,
    decreases n,
{
    if n < 10 {
        seq![spec_digit(n)]
    } else {
        spec_dec(n / 10) + seq![spec_digit(n % 10)]
    }
}

/// The decimal rendering padded with zeroes to at least two digits.
pub open spec fn spec_pad2(n: int) -> Seq<char> {
    if n < 10 {
        seq!['0'] + spec_dec(n)
    } else {
        spec_dec(n)
    }
}

/// The decimal rendering padded with zeroes to at least four digits.
pub open spec fn spec_pad4(n: int) -> Seq<char> {
    if n < 10 {
        seq!['0', '0', '0'] + spec_dec(n)
    } else if n < 100 {
        seq!['0', '0'] + spec_dec(n)
    } else if n < 1000 {
        seq!['0'] + spec_dec(n)
    } else {
        spec_dec(n)
    }
}

/// The string of one decimal digit.
fn digit_str(d: u64) -> (r: &'static str)
    requires
        d < 10,
    ensures
        r@ == seq![spec_digit(d as int)],
{
    proof {
        reveal_strlit("0");
        reveal_strlit("1");
        reveal_strlit("2");
        reveal_strlit("3");
        reveal_strlit("4");
        reveal_strlit("5");
        reveal_strlit("6");
        reveal_strlit("7");
        reveal_strlit("8");
        reveal_strlit("9");
        assert("0"@ =~= seq!['0']);
        assert("1"@ =~= seq!['1']);
        assert("2"@ =~= seq!['2']);
        assert("3"@ =~= seq!['3']);
        assert("4"@ =~= seq!['4']);
        assert("5"@ =~= seq!['5']);
        assert("6"@ =~= seq!['6']);
        assert("7"@ =~= seq!['7']);
        assert("8"@ =~= seq!['8']);
        assert("9"@ =~= seq!['9']);
    }
    if d == 0 {
        "0"
    } else if d == 1 {
        "1"
    } else if d == 2 {
        "2"
    } else if d == 3 {
        "3"
    } else if d == 4 {
        "4"
    } else if d == 5 {
        "5"
    } else if d == 6 {
        "6"
    } else if d == 7 {
        "7"
    } else if d == 8 {
        "8"
    } else {
        "9"
    }
}

/// Renders a number in decimal.
pub fn u64_to_dec(n: u64) -> (r: String)
    ensures
        r@ == spec_dec(n as int),
    decreases n,
{
    if n < 10 {
        digit_str(n).to_owned()
    } else {
        let mut s = u64_to_dec(n / 10);
        s.append(digit_str(n % 10));
        proof {
            assert(s@ =~= spec_dec((n / 10) as int) + seq![spec_digit((n % 10) as int)]);
        }
        s
    }
}

/// Renders a number in decimal, zero-padded to at least two digits.
pub fn pad2(n: u64) -> (r: String)
    ensures
        r@ == spec_pad2(n as int),
{
    if n < 10 {
        let mut s = String::from_str("0");
        s.append(u64_to_dec(n).as_str());
        proof {
            reveal_strlit("0");
            assert(s@ =~= seq!['0'] + spec_dec(n as int));
        }
        s
    } else {
        u64_to_dec(n)
    }
}

/// Renders a number in decimal, zero-padded to at least four digits.
pub fn pad4(n: u64) -> (r: String)
    ensures
        r@ == spec_pad4(n as int),
{
    proof {
        reveal_strlit("0");
        reveal_strlit("00");
        reveal_strlit("000");
    }
    if n < 10 {
        let mut s = String::from_str("000");
        s.append(u64_to_dec(n).as_str());
        proof {
            assert(s@ =~= seq!['0', '0', '0'] + spec_dec(n as int));
        }
        s
    } else if n < 100 {
        let mut s = String::from_str("00");
        s.append(u64_to_dec(n).as_str());
        proof {
            assert(s@ =~= seq!['0', '0'] + spec_dec(n as int));
        }
        s
    } else if n < 1000 {
        let mut s = String::from_str("0");
        s.append(u64_to_dec(n).as_str());
        proof {
            assert(s@ =~= seq!['0'] + spec_dec(n as int));
        }
        s
    } else {
        u64_to_dec(n)
    }
}

/// The rendering of a timestamp: date and time of day, each field
/// zero-padded, with the literal `T` and `Z` marks.
pub open spec fn spec_render_timestamp(
    y: int,
    m: int,
    d: int,
    h: int,
    mi: int,
    s: int,
) -> Seq<char> {
    spec_pad4(y) + seq!['-'] + spec_pad2(m) + seq!['-'] + spec_pad2(d) + seq!['T'] + spec_pad2(h)
        + seq![':'] + spec_pad2(mi) + seq![':'] + spec_pad2(s) + seq!['Z']
}

/// `ts` renders the wall-clock time `secs` seconds after the Unix epoch
/// as an ISO-8601 UTC timestamp at second precision.
pub open spec fn is_timestamp_of(secs: int, ts: Seq<char>) -> bool {
    exists|y: int, m: int, d: int|
        #[trigger] is_civil_date_of(secs / 86400, y, m, d) && ts == spec_render_timestamp(
            y,
            m,
            d,
            (secs % 86400) / 3600,
            ((secs % 86400) % 3600) / 60,
            (secs % 86400) % 60,
        )
}

/// Renders `secs` seconds after the Unix epoch as `YYYY-MM-DDTHH:MM:SSZ`.
pub fn humanize_timestamp(secs: u64) -> (r: String)
    ensures
        is_timestamp_of(secs as int, r@),
{
    let days = secs / 86400;
    let tod = secs % 86400;
    let date = days_to_date(days);
    let hours = tod / 3600;
    let minutes = (tod % 3600) / 60;
    let seconds = tod % 60;
    let mut s = pad4(date.0);
    s.append("-");
    s.append(pad2(date.1).as_str());
    s.append("-");
    s.append(pad2(date.2).as_str());
    s.append("T");
    s.append(pad2(hours).as_str());
    s.append(":");
    s.append(pad2(minutes).as_str());
    s.append(":");
    s.append(pad2(seconds).as_str());
    s.append("Z");
    proof {
        reveal_strlit("-");
        reveal_strlit("T");
        reveal_strlit(":");
        reveal_strlit("Z");
        assert(s@ =~= spec_render_timestamp(
            date.0 as int,
            date.1 as int,
            date.2 as int,
            hours as int,
            minutes as int,
            seconds as int,
        ));
        assert(is_civil_date_of((secs as int) / 86400, date.0 as int, date.1 as int,
            date.2 as int));
    }
    s
}

/// The name of an operation as it appears in a denial record.
pub open spec fn spec_op_name(op: Operation) -> Seq<char> {
    match op {
        Operation::Read => "read"@,
        Operation::Write => "write"@,
        Operation::Execute => "execute"@,
    }
}

/// The lower-case name of the operation.
pub fn op_name(op: Operation) -> (r: &'static str)
    ensures
        r@ == spec_op_name(op),
{
    match op {
        Operation::Read => "read",
        Operation::Write => "write",
        Operation::Execute => "execute",
    }
}

/// One denial record: the timestamp, the caller pid, a process name, the
/// operation name and the virtual path, as a single line.
pub open spec fn spec_denial_line(
    ts: Seq<char>,
    pid: int,
    proc_name: Seq<char>,
    op: Operation,
    path: Seq<char>,
) -> Seq<char> {
    "[DENIED] "@ + ts + " pid="@ + spec_dec(pid) + " proc="@ + proc_name + " op="@ + spec_op_name(
        op,
    ) + " path="@ + path + seq!['\n']
}

/// Renders one denial record for the wall-clock time `secs`.
pub fn format_denied_line(
    secs: u64,
    pid: u32,
    process_name: &str,
    path: &str,
    op: Operation,
) -> (r: String)
    ensures
        exists|ts: Seq<char>|
            #[trigger] is_timestamp_of(secs as int, ts) && r@ == spec_denial_line(
                ts,
                pid as int,
                process_name@,
                op,
                path@,
            ),
{
    let ts = humanize_timestamp(secs);
    let mut line = String::from_str("[DENIED] ");
    line.append(ts.as_str());
    line.append(" pid=");
    line.append(u64_to_dec(pid as u64).as_str());
    line.append(" proc=");
    line.append(process_name);
    line.append(" op=");
    line.append(op_name(op));
    line.append(" path=");
    line.append(path);
    line.append("\n");
    proof {
        reveal_strlit("\n");
        assert(line@ =~= spec_denial_line(ts@, pid as int, process_name@, op, path@));
    }
    line
}

/// Whether `c` is a decimal digit.
pub open spec fn is_digit(c: char) -> bool {
    c == '0' || c == '1' || c == '2' || c == '3' || c == '4' || c == '5' || c == '6' || c == '7'
        || c == '8' || c == '9'
}

/// Whether every character of `s` is a decimal digit.
pub open spec fn all_digits(s: Seq<char>) -> bool {
    forall|i: int| 0 <= i < s.len() ==> is_digit(s[i])
}

/// Whether `s` holds no whitespace character.
pub open spec fn no_whitespace(s: Seq<char>) -> bool {
    forall|i: int|
        0 <= i < s.len() ==> s[i] != ' ' && s[i] != '\t' && s[i] != '\n' && s[i] != '\r'
}

/// The shape `\d{4}-\d{2}-\d{2}T\d{2}:\d{2}:\d{2}Z`.
pub open spec fn is_iso_utc_timestamp(ts: Seq<char>) -> bool {
    &&& ts.len() == 20
    &&& all_digits(ts.subrange(0, 4))
    &&& ts[4] == '-'
    &&& all_digits(ts.subrange(5, 7))
    &&& ts[7] == '-'
    &&& all_digits(ts.subrange(8, 10))
    &&& ts[10] == 'T'
    &&& all_digits(ts.subrange(11, 13))
    &&& ts[13] == ':'
    &&& all_digits(ts.subrange(14, 16))
    &&& ts[16] == ':'
    &&& all_digits(ts.subrange(17, 19))
    &&& ts[19] == 'Z'
}

/// The shape of a denial line:
/// `[DENIED] <timestamp> pid=<digits> proc=<word> op=<name> path=<word>`
/// followed by one newline.
pub open spec fn is_denial_line_shape(line: Seq<char>) -> bool {
    exists|ts: Seq<char>, pid: Seq<char>, proc_name: Seq<char>, opn: Seq<char>, path: Seq<char>|
        {
            &&& line == #[trigger] ("[DENIED] "@ + ts + " pid="@ + pid + " proc="@ + proc_name
                + " op="@ + opn + " path="@ + path + seq!['\n'])
            &&& is_iso_utc_timestamp(ts)
            &&& all_digits(pid)
            &&& pid.len() >= 1
            &&& no_whitespace(proc_name)
            &&& proc_name.len() >= 1
            &&& (opn == "read"@ || opn == "write"@ || opn == "execute"@)
            &&& no_whitespace(path)
            &&& path.len() >= 1
        }
}

/// A decimal rendering is a non-empty string of digits.
proof fn lemma_dec_digits(n: int)
    requires
        n >= 0,
    ensures
        all_digits(spec_dec(n)),
        spec_dec(n).len() >= 1,
    decreases n,
{
    if n < 10 {
        assert(is_digit(spec_digit(n)));
    } else {
        lemma_dec_digits(n / 10);
        vstd::arithmetic::div_mod::lemma_mod_bound(n, 10);
        assert(is_digit(spec_digit(n % 10)));
    }
}

/// The length of a decimal rendering, for numbers up to four digits.
proof fn lemma_dec_len(n: int)
    requires
        0 <= n < 10000,
    ensures
        n < 10 ==> spec_dec(n).len() == 1,
        10 <= n < 100 ==> spec_dec(n).len() == 2,
        100 <= n < 1000 ==> spec_dec(n).len() == 3,
        1000 <= n ==> spec_dec(n).len() == 4,
    decreases n,
{
    if n >= 10 {
        lemma_dec_len(n / 10);
    }
}

/// A two-digit field renders as exactly two digits.
proof fn lemma_pad2_shape(n: int)
    requires
        0 <= n < 100,
    ensures
        spec_pad2(n).len() == 2,
        all_digits(spec_pad2(n)),
{
    lemma_dec_digits(n);
    lemma_dec_len(n);
}

/// A year between 1000 and 9999 renders as exactly four digits.
proof fn lemma_pad4_shape(n: int)
    requires
        1000 <= n < 10000,
    ensures
        spec_pad4(n).len() == 4,
        all_digits(spec_pad4(n)),
{
    lemma_dec_digits(n);
    lemma_dec_len(n);
}

/// Timestamps before the year 10000 have the documented 20-character
/// shape.
proof fn lemma_timestamp_shape(secs: int, ts: Seq<char>)
    requires
        0 <= secs < 253402300800,
        is_timestamp_of(secs, ts),
    ensures
        is_iso_utc_timestamp(ts),
{
    let days = secs / 86400;
    let (y, m, d) = choose|y: int, m: int, d: int|
        #[trigger] is_civil_date_of(days, y, m, d) && ts == spec_render_timestamp(
            y,
            m,
            d,
            (secs % 86400) / 3600,
            ((secs % 86400) % 3600) / 60,
            (secs % 86400) % 60,
        );
    vstd::arithmetic::div_mod::lemma_div_is_ordered(secs, 253402300799, 86400);
    vstd::arithmetic::div_mod::lemma_div_pos_is_pos(secs, 86400);
    assert(0 <= days <= 2932896);
    if y >= 10000 {
        lemma_days_between_closed(10000);
        assert(spec_leaps_before(10000) == 2425);
        assert(spec_days_between(1970, 10000) == 2932897);
        lemma_days_between_split(1970, 10000, y);
        lemma_days_between_lower(10000, y);
        lemma_days_before_month_bounds(y, m);
        assert(false);
    }
    lemma_days_between_lower(1970, y);
    lemma_days_before_month_bounds(y, m);
    lemma_pad4_shape(y);
    lemma_pad2_shape(m);
    lemma_pad2_shape(d);
    let tod = secs % 86400;
    vstd::arithmetic::div_mod::lemma_mod_bound(secs, 86400);
    let h = tod / 3600;
    let mi = (tod % 3600) / 60;
    let sec = tod % 60;
    vstd::arithmetic::div_mod::lemma_div_is_ordered(tod, 86399, 3600);
    vstd::arithmetic::div_mod::lemma_div_pos_is_pos(tod, 3600);
    vstd::arithmetic::div_mod::lemma_mod_bound(tod, 3600);
    vstd::arithmetic::div_mod::lemma_div_is_ordered(tod % 3600, 3599, 60);
    vstd::arithmetic::div_mod::lemma_div_pos_is_pos(tod % 3600, 60);
    vstd::arithmetic::div_mod::lemma_mod_bound(tod, 60);
    lemma_pad2_shape(h);
    lemma_pad2_shape(mi);
    lemma_pad2_shape(sec);
    assert(ts.len() == 20);
    assert(ts.subrange(0, 4) =~= spec_pad4(y));
    assert(ts.subrange(5, 7) =~= spec_pad2(m));
    assert(ts.subrange(8, 10) =~= spec_pad2(d));
    assert(ts.subrange(11, 13) =~= spec_pad2(h));
    assert(ts.subrange(14, 16) =~= spec_pad2(mi));
    assert(ts.subrange(17, 19) =~= spec_pad2(sec));
}

/// A denial record round-trips against the documented line format: for
/// any wall-clock time before the year 10000, a positive pid, and a
/// non-empty whitespace-free process name and path, the produced line
/// matches
/// `[DENIED] \d{4}-\d{2}-\d{2}T\d{2}:\d{2}:\d{2}Z pid=\d+ proc=\S+ op=(read|write|execute) path=\S+`
/// with a trailing newline.
pub proof fn lemma_denial_line_shape(
    secs: int,
    pid: int,
    proc_name: Seq<char>,
    op: Operation,
    path: Seq<char>,
    ts: Seq<char>,
)
    requires
        0 <= secs < 253402300800,
        0 <= pid,
        is_timestamp_of(secs, ts),
        no_whitespace(proc_name),
        proc_name.len() >= 1,
        no_whitespace(path),
        path.len() >= 1,
    ensures
        is_denial_line_shape(spec_denial_line(ts, pid, proc_name, op, path)),
{
    lemma_timestamp_shape(secs, ts);
    lemma_dec_digits(pid);
    let line = spec_denial_line(ts, pid, proc_name, op, path);
    assert(line == "[DENIED] "@ + ts + " pid="@ + spec_dec(pid) + " proc="@ + proc_name + " op="@
        + spec_op_name(op) + " path="@ + path + seq!['\n']);
    assert(spec_op_name(op) == "read"@ || spec_op_name(op) == "write"@ || spec_op_name(op)
        == "execute"@);
}

/// At the Unix epoch the timestamp renders exactly as
/// `1970-01-01T00:00:00Z`.
pub proof fn lemma_epoch_timestamp(ts: Seq<char>)
    requires
        is_timestamp_of(0, ts),
    ensures
        ts == "1970-01-01T00:00:00Z"@,
{
    let (y, m, d) = choose|y: int, m: int, d: int|
        #[trigger] is_civil_date_of(0, y, m, d) && ts == spec_render_timestamp(
            y,
            m,
            d,
            0int / 3600,
            (0int % 3600) / 60,
            0int % 60,
        );
    if y > 1970 {
        lemma_days_between_lower(1970, y);
        lemma_days_before_month_bounds(y, m);
        assert(false);
    }
    lemma_days_before_month_bounds(y, m);
    assert(m == 1 && d == 1);
    reveal_with_fuel(spec_dec, 5);
    assert(spec_dec(1970) =~= seq!['1', '9', '7', '0']);
    assert(spec_dec(1) =~= seq!['1']);
    assert(spec_dec(0) =~= seq!['0']);
    reveal_strlit("1970-01-01T00:00:00Z");
    assert(ts =~= "1970-01-01T00:00:00Z"@);
}

} // verus!
