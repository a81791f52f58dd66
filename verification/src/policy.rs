//! The retention policy of a month, chosen by its age.

use crate::date::Date;
use vstd::prelude::*;

verus! {

/// How much of a month's backups is kept. The variants stand in the order
/// of their strictness: each keeps no more than the one before it.
#[derive(Debug, Clone, Copy, PartialEq, Eq, Structural)]
pub enum MonthPolicy {
    /// Every backup is kept.
    Daily,
    /// The backups of the 1st, 8th, 15th, 22nd and 29th are the anchors.
    Weekly,
    /// The backups of the 1st and the 15th are the anchors.
    BiMonthly,
    /// The backup of the 1st is the only anchor.
    First,
}

/// A month younger than this many months is kept in full.
pub const WEEKLY_AGE: u64 = 2;

/// From this age in months on, a month has two anchors.
pub const BIMONTHLY_AGE: u64 = 4;

/// From this age in months on, a month has one anchor.
pub const FIRST_AGE: u64 = 9;

/// The age of the month `month` of `year`, in whole months before the month
/// of `today`. A month that is still to come has a negative age.
pub open spec fn age_in_months(today: Date, year: u32, month: u32) -> int {
    (today.year - year) * 12 + today.month - month
}

/// The policy of a month of the given age.
pub open spec fn policy_at_age(age: int) -> MonthPolicy {
    if age < WEEKLY_AGE {
        MonthPolicy::Daily
    } else if age < BIMONTHLY_AGE {
        MonthPolicy::Weekly
    } else if age < FIRST_AGE {
        MonthPolicy::BiMonthly
    } else {
        MonthPolicy::First
    }
}

/// The policy of the month `month` of `year` as seen from `today`: a month
/// of a year to come is kept in full, every other month goes by its age.
pub open spec fn month_policy(today: Date, year: u32, month: u32) -> MonthPolicy {
    if today.year < year {
        MonthPolicy::Daily
    } else {
        policy_at_age(age_in_months(today, year, month))
    }
}

impl MonthPolicy {
    /// The rank of a policy by strictness, from 0 for `Daily` to 3 for
    /// `First`.
    pub open spec fn strictness(self) -> nat {
        match self {
            MonthPolicy::Daily => 0,
            MonthPolicy::Weekly => 1,
            MonthPolicy::BiMonthly => 2,
            MonthPolicy::First => 3,
        }
    }
}

/// Chooses the retention policy of the month `month` of `year`.
///
/// Neither month is held to the range 1 to 12: the age is computed from
/// the numbers as they are, and no input overflows.
pub fn policy_for(cur: Date, year: u32, month: u32) -> (policy: MonthPolicy)
    ensures
        policy == month_policy(cur, year, month),
{
    if cur.year < year {
        return MonthPolicy::Daily;
    }
    // The months of earlier years are counted on from the current year, so
    // that only a difference of months is left to look at.
    let years_back: u64 = (cur.year - year) as u64;
    let cur_month: u64 = cur.month as u64 + 12 * years_back;
    let month: u64 = month as u64;
    if cur_month <= month {
        return MonthPolicy::Daily;
    }
    let age: u64 = cur_month - month;
    if age < WEEKLY_AGE {
        MonthPolicy::Daily
    } else if age < BIMONTHLY_AGE {
        MonthPolicy::Weekly
    } else if age < FIRST_AGE {
        MonthPolicy::BiMonthly
    } else {
        MonthPolicy::First
    }
}

/// Between two months of which neither lies in a year to come, the older
/// one has the stricter policy, or the same.
pub proof fn lemma_policy_monotonic(
    today: Date,
    year_a: u32,
    month_a: u32,
    year_b: u32,
    month_b: u32,
)
    requires
        year_a <= today.year,
        year_b <= today.year,
        age_in_months(today, year_a, month_a) <= age_in_months(today, year_b, month_b),
    ensures
        month_policy(today, year_a, month_a).strictness() <= month_policy(
            today,
            year_b,
            month_b,
        ).strictness(),
{
}

/// The strictness of a policy never falls as the age grows.
pub proof fn lemma_policy_at_age_monotonic(younger: int, older: int)
    requires
        younger <= older,
    ensures
        policy_at_age(younger).strictness() <= policy_at_age(older).strictness(),
{
}

/// Where both months are months of the calendar, from 1 to 12, the policy
/// is that of the age in every case: a month that is still to come has an
/// age below the first threshold and is kept in full.
pub proof fn lemma_policy_goes_by_age(today: Date, year: u32, month: u32)
    requires
        1 <= today.month <= 12,
        1 <= month <= 12,
    ensures
        month_policy(today, year, month) == policy_at_age(age_in_months(today, year, month)),
{
}

/// A month of a year to come, or a later month of the current year, is kept
/// in full, whatever the numbers are.
pub proof fn lemma_month_to_come_is_daily(today: Date, year: u32, month: u32)
    requires
        today.year < year || (today.year == year && today.month < month),
    ensures
        month_policy(today, year, month) == MonthPolicy::Daily,
{
}

} // verus!
