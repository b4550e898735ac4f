//! Days and dates of the Gregorian calendar.

pub mod laws;

use crate::payload::Payload;
use crate::text;
use vstd::prelude::*;

verus! {

/// Whether a year has a leap day.
pub open spec fn is_leap(year: int) -> bool {
    year % 4 == 0 && (year % 100 != 0 || year % 400 == 0)
}

/// The number of days of a month.
pub open spec fn days_in_month(year: int, month: int) -> int {
    if month == 2 {
        if is_leap(year) {
            29
        } else {
            28
        }
    } else if month == 4 || month == 6 || month == 9 || month == 11 {
        30
    } else {
        31
    }
}

/// Whether a year, a month and a day make a date.
pub open spec fn is_date(year: int, month: int, day: int) -> bool {
    1 <= month <= 12 && 1 <= day <= days_in_month(year, month)
}

/// The number of days of a year before a month.
pub open spec fn days_before_month(year: int, month: int) -> int
    decreases month,
{
    if month <= 1 {
        0
    } else {
        days_before_month(year, month - 1) + days_in_month(year, month - 1)
    }
}

/// The number of days before a year, from the start of the year one on.
pub open spec fn days_before_year(year: int) -> int {
    365 * (year - 1) + (year - 1) / 4 - (year - 1) / 100 + (year - 1) / 400
}

/// The number of a date, counted from the first of January 1970.
pub open spec fn day_number(year: int, month: int, day: int) -> int {
    days_before_year(year) + days_before_month(year, month) + (day - 1) - 719_162
}

/// The first of January 1970 has the number zero.
pub proof fn law_epoch()
    ensures
        day_number(1970, 1, 1) == 0,
{
}

/// The numbers of the dates follow each other as the dates do: within a month,
/// from a month's last day to the next month's first, and from a year's last
/// day to the next year's first.
pub proof fn law_days_follow(year: int, month: int, day: int)
    requires
        is_date(year, month, day),
    ensures
        if day < days_in_month(year, month) {
            is_date(year, month, day + 1) && day_number(year, month, day + 1) == day_number(
                year,
                month,
                day,
            ) + 1
        } else if month < 12 {
            is_date(year, month + 1, 1) && day_number(year, month + 1, 1) == day_number(
                year,
                month,
                day,
            ) + 1
        } else {
            is_date(year + 1, 1, 1) && day_number(year + 1, 1, 1) == day_number(year, month, day) + 1
        },
{
    if day == days_in_month(year, month) && month == 12 {
        lemma_months(year);
        lemma_next_year(year);
    }
}

/// A year has a leap day more or less than a multiple of 365 days.
proof fn lemma_next_year(year: int)
    ensures
        days_before_year(year + 1) == days_before_year(year) + 365 + if is_leap(year) {
            1int
        } else {
            0
        },
{
    lemma_quotient_step(year, 4);
    lemma_quotient_step(year, 100);
    lemma_quotient_step(year, 400);
    assert(year % 400 == 0 ==> year % 100 == 0);
    assert(year % 100 == 0 ==> year % 4 == 0);
}

/// A quotient grows by one at each multiple of the divisor.
proof fn lemma_quotient_step(n: int, k: int)
    requires
        k > 1,
    ensures
        n / k - (n - 1) / k == if n % k == 0 {
            1int
        } else {
            0
        },
{
    let q = n / k;
    let r = n % k;
    vstd::arithmetic::div_mod::lemma_fundamental_div_mod(n, k);
    vstd::arithmetic::div_mod::lemma_mod_bound(n, k);
    if r == 0 {
        assert(n - 1 == (q - 1) * k + (k - 1)) by (nonlinear_arith)
            requires
                n == k * q + r,
                r == 0,
        ;
        vstd::arithmetic::div_mod::lemma_fundamental_div_mod_converse(n - 1, k, q - 1, k - 1);
    } else {
        assert(n - 1 == q * k + (r - 1)) by (nonlinear_arith)
            requires
                n == k * q + r,
        ;
        vstd::arithmetic::div_mod::lemma_fundamental_div_mod_converse(n - 1, k, q, r - 1);
    }
}

proof fn lemma_months(year: int)
    ensures
        days_before_month(year, 1) == 0,
        days_before_month(year, 2) == 31,
        days_before_month(year, 3) == 31 + days_in_month(year, 2),
        days_before_month(year, 4) == 62 + days_in_month(year, 2),
        days_before_month(year, 5) == 92 + days_in_month(year, 2),
        days_before_month(year, 6) == 123 + days_in_month(year, 2),
        days_before_month(year, 7) == 153 + days_in_month(year, 2),
        days_before_month(year, 8) == 184 + days_in_month(year, 2),
        days_before_month(year, 9) == 215 + days_in_month(year, 2),
        days_before_month(year, 10) == 245 + days_in_month(year, 2),
        days_before_month(year, 11) == 276 + days_in_month(year, 2),
        days_before_month(year, 12) == 306 + days_in_month(year, 2),
{
    reveal_with_fuel(days_before_month, 13);
}

/// The days of a year are not more than those before its months and in them.
proof fn lemma_day_in_year(year: int, month: int, day: int)
    requires
        is_date(year, month, day),
    ensures
        0 <= days_before_month(year, month) + (day - 1) < 365 + if is_leap(year) {
            1int
        } else {
            0
        },
{
    lemma_months(year);
}

proof fn lemma_years_grow(a: int, b: int)
    requires
        a < b,
    ensures
        days_before_year(a) + 365 + (if is_leap(a) {
            1int
        } else {
            0
        }) <= days_before_year(b),
    decreases b - a,
{
    let y = b - 1;
    lemma_next_year(y);
    if a < y {
        lemma_years_grow(a, y);
    }
}

/// Later dates have greater numbers, so no two dates have the same one.
pub proof fn law_dates_in_order(y1: int, m1: int, d1: int, y2: int, m2: int, d2: int)
    requires
        is_date(y1, m1, d1),
        is_date(y2, m2, d2),
    ensures
        day_number(y1, m1, d1) < day_number(y2, m2, d2) <==> (y1 < y2 || (y1 == y2 && (m1 < m2 || (m1
            == m2 && d1 < d2)))),
        day_number(y1, m1, d1) == day_number(y2, m2, d2) <==> (y1 == y2 && m1 == m2 && d1 == d2),
{
    lemma_day_in_year(y1, m1, d1);
    lemma_day_in_year(y2, m2, d2);
    lemma_months(y1);
    lemma_months(y2);
    if y1 < y2 {
        lemma_years_grow(y1, y2);
    }
    if y2 < y1 {
        lemma_years_grow(y2, y1);
    }
}

/// The days of a 400-year era fall into years that start in March, so that a
/// leap day is the last day of its year.
proof fn lemma_year_of_era(doe: int, yoe: int)
    requires
        0 <= doe <= 146_096,
        yoe == (doe - doe / 1460 + doe / 36_524 - doe / 146_096) / 365,
    ensures
        0 <= yoe <= 399,
        0 <= doe - (365 * yoe + yoe / 4 - yoe / 100) <= 365,
        doe - (365 * yoe + yoe / 4 - yoe / 100) == 365 ==> (yoe + 1) % 4 == 0 && ((yoe + 1) % 100
            != 0 || (yoe + 1) % 400 == 0),
{
    let c = if doe == 146_096 { 3 } else { doe / 36_524 };
    let r = doe - 36_524 * c;
    let q = r / 1461;
    let rr = r - 1461 * q;
    let t = if rr == 1460 { 3 } else { rr / 365 };
    let doy = rr - 365 * t;
    assert(0 <= c <= 3);
    assert(0 <= r <= 36_524);
    assert(r == 36_524 ==> c == 3);
    assert(0 <= q <= 24);
    assert(0 <= t <= 3);
    assert(0 <= doy <= 365);
    let over = 24 * c + q + 365 * t + doy;
    let e: int = if over >= 1460 { 1 } else { 0 };
    assert(doe == 1460 * (25 * c + q) + over);
    assert(doe / 1460 == 25 * c + q + e);
    let y = 100 * c + 4 * q + t;
    if doe == 146_096 {
        assert(doe / 36_524 - doe / 146_096 == c);
    } else {
        assert(doe / 36_524 == c);
        assert(doe / 146_096 == 0);
    }
    assert(doe - doe / 1460 + doe / 36_524 - doe / 146_096 == 365 * y + (doy - e));
    assert(0 <= doy - e < 365);
    assert(yoe == y);
    assert(y / 4 == 25 * c + q);
    assert(y / 100 == c);
}

/// The months of a year that starts in March.
proof fn lemma_month_of_year(doy: int, mp: int, d: int)
    requires
        0 <= doy <= 365,
        mp == (5 * doy + 2) / 153,
        d == doy - (153 * mp + 2) / 5 + 1,
    ensures
        0 <= mp <= 11,
        1 <= d <= 31,
        mp == 1 || mp == 3 || mp == 6 || mp == 8 ==> d <= 30,
        mp == 11 ==> d <= 29 && (d == 29 ==> doy == 365),
        (153 * mp + 2) / 5 == (if mp == 0 {
            0
        } else if mp == 1 {
            31
        } else if mp == 2 {
            61
        } else if mp == 3 {
            92
        } else if mp == 4 {
            122
        } else if mp == 5 {
            153
        } else if mp == 6 {
            184
        } else if mp == 7 {
            214
        } else if mp == 8 {
            245
        } else if mp == 9 {
            275
        } else if mp == 10 {
            306
        } else {
            337int
        }),
{
}

/// The leap days of the years of some eras.
proof fn lemma_eras(era: int, yoe: int)
    requires
        0 <= yoe <= 399,
    ensures
        ({
            let y = yoe + era * 400;
            &&& y / 4 == era * 100 + yoe / 4
            &&& y / 100 == era * 4 + yoe / 100
            &&& y / 400 == era
            &&& is_leap(y + 1) == ((yoe + 1) % 4 == 0 && ((yoe + 1) % 100 != 0 || (yoe + 1) % 400
                == 0))
        }),
{
    lemma_whole_eras(era, yoe, 4, 100);
    lemma_whole_eras(era, yoe, 100, 4);
    lemma_whole_eras(era, yoe, 400, 1);
    lemma_whole_eras(era, yoe + 1, 4, 100);
    lemma_whole_eras(era, yoe + 1, 100, 4);
    lemma_whole_eras(era, yoe + 1, 400, 1);
}

/// Some eras add to a quotient, and leave the remainder, where the divisor goes
/// into an era.
proof fn lemma_whole_eras(era: int, n: int, k: int, times: int)
    requires
        k > 0,
        k * times == 400,
    ensures
        (n + era * 400) / k == era * times + n / k,
        (n + era * 400) % k == n % k,
{
    vstd::arithmetic::div_mod::lemma_fundamental_div_mod(n, k);
    vstd::arithmetic::div_mod::lemma_mod_bound(n, k);
    let q = n / k;
    let r = n % k;
    assert(n + era * 400 == (era * times + q) * k + r) by (nonlinear_arith)
        requires
            n == k * q + r,
            k * times == 400,
    ;
    vstd::arithmetic::div_mod::lemma_fundamental_div_mod_converse(
        n + era * 400,
        k,
        era * times + q,
        r,
    );
}

/// The date of a day of a year that starts in March.
proof fn lemma_civil(era: int, yoe: int, doy: int, mp: int, d: int)
    requires
        0 <= yoe <= 399,
        0 <= doy <= 365,
        doy == 365 ==> (yoe + 1) % 4 == 0 && ((yoe + 1) % 100 != 0 || (yoe + 1) % 400 == 0),
        mp == (5 * doy + 2) / 153,
        d == doy - (153 * mp + 2) / 5 + 1,
    ensures
        ({
            let y = yoe + era * 400;
            let m = if mp < 10 { mp + 3 } else { mp - 9 };
            let year = if m <= 2 { y + 1 } else { y };
            &&& is_date(year, m, d)
            &&& day_number(year, m, d) == era * 146_097 + 365 * yoe + yoe / 4 - yoe / 100 + doy
                - 719_468
        }),
{
    let y = yoe + era * 400;
    lemma_eras(era, yoe);
    lemma_month_of_year(doy, mp, d);
    lemma_months(y);
    lemma_months(y + 1);
    lemma_next_year(y);
}

/// The date with a number.
pub fn civil_from_days(days_since_epoch: i64) -> (date: (i64, u32, u32))
    requires
        days_since_epoch <= i64::MAX - 719_468,
    ensures
        is_date(date.0 as int, date.1 as int, date.2 as int),
        day_number(date.0 as int, date.1 as int, date.2 as int) == days_since_epoch,
{
    let z: i64 = days_since_epoch + 719_468;
    let era: i64 = if z >= 0 {
        z / 146_097
    } else {
        -((146_096 - z) / 146_097)
    };
    assert(era * 146_097 <= z < era * 146_097 + 146_097);
    let doe: i64 = z - era * 146_097;
    let yoe: i64 = (doe - doe / 1460 + doe / 36_524 - doe / 146_096) / 365;
    proof {
        lemma_year_of_era(doe as int, yoe as int);
    }
    let y: i64 = yoe + era * 400;
    let doy: i64 = doe - (365 * yoe + yoe / 4 - yoe / 100);
    let mp: i64 = (5 * doy + 2) / 153;
    let d: i64 = doy - (153 * mp + 2) / 5 + 1;
    proof {
        lemma_month_of_year(doy as int, mp as int, d as int);
    }
    let m: i64 = if mp < 10 {
        mp + 3
    } else {
        mp - 9
    };
    let year: i64 = if m <= 2 {
        y + 1
    } else {
        y
    };
    proof {
        lemma_civil(era as int, yoe as int, doy as int, mp as int, d as int);
    }
    (year, m as u32, d as u32)
}

/// A date as a text: the year in four digits at least, the month and the day in
/// two.
pub open spec fn date_text(year: nat, month: nat, day: nat) -> Seq<char> {
    text::padded(year, 4) + "-"@ + text::padded(month, 2) + "-"@ + text::padded(day, 2)
}

/// Whether a text is that of the date with a number.
pub open spec fn is_text_of_day(s: Seq<char>, days: int) -> bool {
    exists|year: nat, month: nat, day: nat|
        {
            &&& #[trigger] is_date(year as int, month as int, day as int)
            &&& day_number(year as int, month as int, day as int) == days
            &&& s == date_text(year, month, day)
        }
}

/// A day has one text at most.
pub proof fn law_one_text_of_day(a: Seq<char>, b: Seq<char>, days: int)
    requires
        is_text_of_day(a, days),
        is_text_of_day(b, days),
    ensures
        a == b,
{
    let (y1, m1, d1) = choose|year: nat, month: nat, day: nat|
        {
            &&& #[trigger] is_date(year as int, month as int, day as int)
            &&& day_number(year as int, month as int, day as int) == days
            &&& a == date_text(year, month, day)
        };
    let (y2, m2, d2) = choose|year: nat, month: nat, day: nat|
        {
            &&& #[trigger] is_date(year as int, month as int, day as int)
            &&& day_number(year as int, month as int, day as int) == days
            &&& b == date_text(year, month, day)
        };
    law_dates_in_order(y1 as int, m1 as int, d1 as int, y2 as int, m2 as int, d2 as int);
}

/// The text of the date on which some seconds have passed since the start of
/// 1970.
pub fn unix_seconds_to_ymd_string(seconds: u64) -> (r: String)
    ensures
        is_text_of_day(r@, seconds as int / 86_400),
{
    let days: i64 = (seconds / 86_400) as i64;
    let (year, month, day) = civil_from_days(days);
    proof {
        if year < 1970 {
            law_dates_in_order(year as int, month as int, day as int, 1970, 1, 1);
            law_epoch();
        }
    }
    let mut r = text::to_padded(year as u128, 4);
    r.append("-");
    r.append(text::to_padded(month as u128, 2).as_str());
    r.append("-");
    r.append(text::to_padded(day as u128, 2).as_str());
    proof {
        assert(is_date(year as nat as int, month as nat as int, day as nat as int));
        assert(r@ == date_text(year as nat, month as nat, day as nat));
    }
    r
}

/// Whether a payload says that its record has expired before a day: it has an
/// expiration date, and the date comes before the day's.
pub open spec fn expired(payload: Map<Seq<char>, Seq<char>>, today: Seq<char>) -> bool {
    payload.contains_key("expiration_date"@) && text::precedes(
        payload["expiration_date"@],
        today,
    )
}

/// Whether a payload says that its record has expired before a day.
pub fn is_expired(payload: &Payload, today: &str) -> (r: bool)
    ensures
        r == expired(payload@, today@),
{
    match payload.get("expiration_date") {
        Some(date) => text::less(date.as_str(), today),
        None => false,
    }
}

/// The last digits of a number.
spec fn digits(n: nat, width: nat) -> Seq<char>
    decreases width,
{
    if width == 0 {
        Seq::empty()
    } else {
        digits(n / 10, (width - 1) as nat).push(text::digit(n % 10))
    }
}

spec fn power_of_ten(width: nat) -> nat
    decreases width,
{
    if width == 0 {
        1
    } else {
        10 * power_of_ten((width - 1) as nat)
    }
}

proof fn lemma_zero_digits(width: nat)
    ensures
        digits(0, width) == Seq::new(width, |i: int| '0'),
    decreases width,
{
    if width > 0 {
        lemma_zero_digits((width - 1) as nat);
        assert(digits(0, width) =~= Seq::new(width, |i: int| '0'));
    } else {
        assert(digits(0, width) =~= Seq::new(width, |i: int| '0'));
    }
}

proof fn lemma_digits_len(n: nat, width: nat)
    ensures
        digits(n, width).len() == width,
    decreases width,
{
    if width > 0 {
        lemma_digits_len(n / 10, (width - 1) as nat);
    }
}

proof fn lemma_padded_digits(n: nat, width: nat)
    requires
        width >= 1,
        n < power_of_ten(width),
    ensures
        text::padded(n, width) == digits(n, width),
    decreases width,
{
    let less = (width - 1) as nat;
    if n < 10 {
        assert(n / 10 == 0);
        lemma_zero_digits(less);
        assert(text::padded(n, width) =~= digits(n, width));
    } else {
        assert(power_of_ten(0) == 1);
        assert(width >= 2);
        assert(n / 10 < power_of_ten(less));
        lemma_padded_digits(n / 10, less);
        lemma_digits_len(n / 10, less);
        let d = text::decimal(n / 10);
        assert(d.len() <= less);
        assert(text::padded(n, width) =~= text::padded(n / 10, less).push(text::digit(n % 10)));
    }
}

proof fn lemma_precedes_prefix(a: Seq<char>, b: Seq<char>, x: Seq<char>, y: Seq<char>)
    requires
        a.len() == b.len(),
    ensures
        text::precedes(a + x, b + y) == (text::precedes(a, b) || (a == b && text::precedes(x, y))),
    decreases a.len(),
{
    if a.len() == 0 {
        assert(a + x =~= x);
        assert(b + y =~= y);
        assert(a =~= b);
    } else {
        lemma_precedes_prefix(a.skip(1), b.skip(1), x, y);
        assert((a + x).skip(1) =~= a.skip(1) + x);
        assert((b + y).skip(1) =~= b.skip(1) + y);
        if a[0] == b[0] {
            assert(a == b <==> a.skip(1) == b.skip(1)) by {
                assert(a =~= seq![a[0]] + a.skip(1));
                assert(b =~= seq![b[0]] + b.skip(1));
            }
        }
    }
}

proof fn lemma_precedes_self(a: Seq<char>)
    ensures
        !text::precedes(a, a),
    decreases a.len(),
{
    if a.len() > 0 {
        lemma_precedes_self(a.skip(1));
    }
}

proof fn lemma_digits_order(a: nat, b: nat, width: nat)
    requires
        a < power_of_ten(width),
        b < power_of_ten(width),
    ensures
        text::precedes(digits(a, width), digits(b, width)) <==> a < b,
        digits(a, width) == digits(b, width) <==> a == b,
    decreases width,
{
    if width > 0 {
        let less = (width - 1) as nat;
        let x = digits(a / 10, less);
        let y = digits(b / 10, less);
        let c = seq![text::digit(a % 10)];
        let d = seq![text::digit(b % 10)];
        lemma_digits_order(a / 10, b / 10, less);
        lemma_digits_len(a / 10, less);
        lemma_digits_len(b / 10, less);
        lemma_precedes_prefix(x, y, c, d);
        assert(digits(a, width) =~= x + c);
        assert(digits(b, width) =~= y + d);
        assert(c[0] < d[0] <==> a % 10 < b % 10);
        assert(c[0] == d[0] <==> a % 10 == b % 10);
        assert(!text::precedes(c.skip(1), d.skip(1)));
        if digits(a, width) == digits(b, width) {
            assert(digits(a, width).drop_last() =~= x);
            assert(digits(b, width).drop_last() =~= y);
            assert(digits(a, width).last() == c[0]);
            assert(digits(b, width).last() == d[0]);
        }
    }
}

/// Up to the year 9999 the order of the texts is that of the days: comparing
/// texts, as the expiration of a record does, compares dates.
pub proof fn law_date_texts_in_order(
    y1: nat,
    m1: nat,
    d1: nat,
    y2: nat,
    m2: nat,
    d2: nat,
)
    requires
        is_date(y1 as int, m1 as int, d1 as int),
        is_date(y2 as int, m2 as int, d2 as int),
        y1 <= 9999,
        y2 <= 9999,
    ensures
        text::precedes(date_text(y1, m1, d1), date_text(y2, m2, d2)) <==> day_number(
            y1 as int,
            m1 as int,
            d1 as int,
        ) < day_number(y2 as int, m2 as int, d2 as int),
{
    reveal_with_fuel(power_of_ten, 5);
    reveal_strlit("-");
    law_dates_in_order(y1 as int, m1 as int, d1 as int, y2 as int, m2 as int, d2 as int);
    let (a1, b1, c1) = (text::padded(y1, 4), text::padded(m1, 2), text::padded(d1, 2));
    let (a2, b2, c2) = (text::padded(y2, 4), text::padded(m2, 2), text::padded(d2, 2));
    lemma_padded_digits(y1, 4);
    lemma_padded_digits(y2, 4);
    lemma_padded_digits(m1, 2);
    lemma_padded_digits(m2, 2);
    lemma_padded_digits(d1, 2);
    lemma_padded_digits(d2, 2);
    lemma_digits_len(y1, 4);
    lemma_digits_len(y2, 4);
    lemma_digits_len(m1, 2);
    lemma_digits_len(m2, 2);
    lemma_digits_order(y1, y2, 4);
    lemma_digits_order(m1, m2, 2);
    lemma_digits_order(d1, d2, 2);
    lemma_precedes_self("-"@);
    let tail1 = b1 + "-"@ + c1;
    let tail2 = b2 + "-"@ + c2;
    assert(date_text(y1, m1, d1) =~= a1 + ("-"@ + tail1));
    assert(date_text(y2, m2, d2) =~= a2 + ("-"@ + tail2));
    lemma_precedes_prefix(a1, a2, "-"@ + tail1, "-"@ + tail2);
    lemma_precedes_prefix("-"@, "-"@, tail1, tail2);
    assert(tail1 =~= b1 + ("-"@ + c1));
    assert(tail2 =~= b2 + ("-"@ + c2));
    lemma_precedes_prefix(b1, b2, "-"@ + c1, "-"@ + c2);
    lemma_precedes_prefix("-"@, "-"@, c1, c2);
}

} // verus!
