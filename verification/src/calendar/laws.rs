//! What dates are.

use crate::calendar;
use crate::text;
use vstd::prelude::*;

verus! {

/// The months have the days that they have: thirty for four of them, thirty-one
/// for seven, and twenty-eight for the second, or twenty-nine in every fourth year
/// but for three in four hundred.
pub proof fn law_months(year: int)
    ensures
        calendar::days_in_month(year, 1) == 31,
        calendar::days_in_month(year, 2) == if year % 400 == 0 || year % 4 == 0 && year % 100 != 0 {
            29int
        } else {
            28int
        },
        calendar::days_in_month(year, 3) == 31,
        calendar::days_in_month(year, 4) == 30,
        calendar::days_in_month(year, 5) == 31,
        calendar::days_in_month(year, 6) == 30,
        calendar::days_in_month(year, 7) == 31,
        calendar::days_in_month(year, 8) == 31,
        calendar::days_in_month(year, 9) == 30,
        calendar::days_in_month(year, 10) == 31,
        calendar::days_in_month(year, 11) == 30,
        calendar::days_in_month(year, 12) == 31,
{
}

/// Which numbers make a date.
pub proof fn law_dates(year: int, month: int, day: int)
    ensures
        calendar::is_date(year, month, day) <==> 1 <= month <= 12 && 1 <= day
            <= calendar::days_in_month(year, month),
{
}

/// A memory has expired from the day after its date of expiration on; one without
/// such a date never does.
pub proof fn law_expiration(payload: Map<Seq<char>, Seq<char>>, today: Seq<char>)
    ensures
        !payload.contains_key("expiration_date"@) ==> !calendar::expired(payload, today),
        payload.contains_key("expiration_date"@) ==> calendar::expired(payload, today)
            == text::precedes(payload["expiration_date"@], today),
        payload.contains_key("expiration_date"@) && payload["expiration_date"@] == today
            ==> !calendar::expired(payload, today),
{
    if payload.contains_key("expiration_date"@) {
        text::lemma_precedes_total(payload["expiration_date"@], today);
    }
}

/// A date is written with its year, its month and its day, in four, two and two
/// digits at least, with dashes between.
pub proof fn law_date_text(year: nat, month: nat, day: nat)
    ensures
        calendar::date_text(year, month, day) == text::padded(year, 4) + seq!['-'] + text::padded(
            month,
            2,
        ) + seq!['-'] + text::padded(day, 2),
{
    reveal_strlit("-");
    assert("-"@ =~= seq!['-']);
}

} // verus!
