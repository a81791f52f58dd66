//! The days of a month that a policy gives up.
//!
//! A policy names its anchors: the days of the month whose backups it keeps.
//! The days are walked from the 1st on against the list of anchors. A filled
//! day before the last anchor that is no anchor itself is given up. The walk
//! ends with the last anchor, so the days after it are left alone.

use crate::calendar::{Day, Month, DAYS};
use crate::policy::MonthPolicy;
use vstd::prelude::*;

verus! {

/// How many anchors of `keep` the walk has passed when it comes to the day
/// `day`: it starts at the first anchor, and moves on by one at each day
/// that is the anchor it waits for.
pub open spec fn anchors_passed(keep: Seq<u32>, day: int) -> int
    decreases day,
{
    if day <= 1 {
        0
    } else {
        let passed = anchors_passed(keep, day - 1);
        if passed < keep.len() && keep[passed] == day - 1 {
            passed + 1
        } else {
            passed
        }
    }
}

/// Whether the walk gives up the day `day`: an anchor is still waited for,
/// and this day is not it.
pub open spec fn gives_up(keep: Seq<u32>, day: int) -> bool {
    let passed = anchors_passed(keep, day);
    passed < keep.len() && keep[passed] != day
}

/// The filled slots among the days 1 to `upto` that the walk gives up, by
/// ascending day.
pub open spec fn given_up_until(days: Seq<Option<Day>>, keep: Seq<u32>, upto: int) -> Seq<Day>
    decreases upto,
{
    if upto <= 0 {
        Seq::empty()
    } else {
        let before = given_up_until(days, keep, upto - 1);
        match days[upto - 1] {
            Some(day) if gives_up(keep, upto) => before.push(day),
            _ => before,
        }
    }
}

/// The filled slots of a month that the walk against `keep` gives up, by
/// ascending day.
pub open spec fn given_up(days: Seq<Option<Day>>, keep: Seq<u32>) -> Seq<Day> {
    given_up_until(days, keep, DAYS as int)
}

/// Whether `keep` lists days of the month in strictly ascending order.
pub open spec fn ascending_days(keep: Seq<u32>) -> bool {
    &&& forall|i: int| 0 <= i < keep.len() ==> 1 <= #[trigger] keep[i]
    &&& forall|i: int, j: int| 0 <= i < j < keep.len() ==> keep[i] < keep[j]
}

/// The anchors of a policy, in ascending order. `Daily` has none, for it
/// gives up nothing.
pub open spec fn anchors(policy: MonthPolicy) -> Seq<u32> {
    match policy {
        MonthPolicy::Daily => seq![],
        MonthPolicy::Weekly => seq![1u32, 8u32, 15u32, 22u32, 29u32],
        MonthPolicy::BiMonthly => seq![1u32, 15u32],
        MonthPolicy::First => seq![1u32],
    }
}

/// The anchors never move back, and once the last one is passed the walk
/// is over for good.
proof fn lemma_anchors_passed_grows(keep: Seq<u32>, from: int, to: int)
    requires
        1 <= from <= to,
    ensures
        anchors_passed(keep, from) <= anchors_passed(keep, to),
        anchors_passed(keep, from) >= keep.len() ==> anchors_passed(keep, to) == anchors_passed(
            keep,
            from,
        ),
        0 <= anchors_passed(keep, from),
    decreases to - from,
{
    if from < to {
        lemma_anchors_passed_grows(keep, from, to - 1);
    } else {
        lemma_anchors_passed_nonnegative(keep, from);
    }
}

/// The walk has never passed fewer than no anchors.
proof fn lemma_anchors_passed_nonnegative(keep: Seq<u32>, day: int)
    ensures
        0 <= anchors_passed(keep, day),
    decreases day,
{
    if day > 1 {
        lemma_anchors_passed_nonnegative(keep, day - 1);
    }
}

/// Once the last anchor is passed at the day `from + 1`, nothing more is
/// given up.
proof fn lemma_nothing_after_last_anchor(
    days: Seq<Option<Day>>,
    keep: Seq<u32>,
    from: int,
    to: int,
)
    requires
        0 <= from <= to,
        anchors_passed(keep, from + 1) >= keep.len(),
    ensures
        given_up_until(days, keep, to) == given_up_until(days, keep, from),
    decreases to - from,
{
    if from < to {
        lemma_nothing_after_last_anchor(days, keep, from, to - 1);
        lemma_anchors_passed_grows(keep, from + 1, to);
    }
}

/// In a walk against ascending anchors, the anchors passed at a day are
/// those before it.
proof fn lemma_anchors_passed_of_ascending(keep: Seq<u32>, day: int)
    requires
        ascending_days(keep),
        1 <= day,
    ensures
        0 <= anchors_passed(keep, day) <= keep.len(),
        forall|i: int| 0 <= i < anchors_passed(keep, day) ==> #[trigger] keep[i] < day,
        anchors_passed(keep, day) < keep.len() ==> keep[anchors_passed(keep, day)] >= day,
    decreases day,
{
    if day > 1 {
        lemma_anchors_passed_of_ascending(keep, day - 1);
    }
}

/// Against anchors in ascending order, the walk gives up exactly the days
/// before the last anchor that are no anchors themselves.
pub proof fn lemma_given_up_of_ascending(keep: Seq<u32>, day: int)
    requires
        ascending_days(keep),
        1 <= day,
    ensures
        gives_up(keep, day) <==> keep.len() > 0 && day < keep.last() && forall|i: int|
            0 <= i < keep.len() ==> #[trigger] keep[i] != day,
{
    lemma_anchors_passed_of_ascending(keep, day);
    let passed = anchors_passed(keep, day);
    if gives_up(keep, day) {
        assert forall|i: int| 0 <= i < keep.len() implies #[trigger] keep[i] != day by {
            if i > passed {
                assert(keep[passed] < keep[i]);
            }
        }
        if passed < keep.len() - 1 {
            assert(keep[passed] < keep[keep.len() - 1]);
        }
    }
}

/// Every slot that is given up stands at a day that the walk gives up: the
/// day is returned.
pub proof fn lemma_given_up_comes_from(
    days: Seq<Option<Day>>,
    keep: Seq<u32>,
    upto: int,
    k: int,
) -> (day: int)
    requires
        0 <= k < given_up_until(days, keep, upto).len(),
    ensures
        1 <= day <= upto,
        days[day - 1] == Some(given_up_until(days, keep, upto)[k]),
        gives_up(keep, day),
    decreases upto,
{
    let before = given_up_until(days, keep, upto - 1);
    if k < before.len() {
        lemma_given_up_comes_from(days, keep, upto - 1, k)
    } else {
        upto
    }
}

/// Every filled slot at a day that the walk gives up is among those given
/// up.
pub proof fn lemma_given_up_holds(days: Seq<Option<Day>>, keep: Seq<u32>, upto: int, day: int)
    requires
        1 <= day <= upto,
        days[day - 1] is Some,
        gives_up(keep, day),
    ensures
        given_up_until(days, keep, upto).contains(days[day - 1]->0),
    decreases upto,
{
    let before = given_up_until(days, keep, upto - 1);
    if day < upto {
        lemma_given_up_holds(days, keep, upto - 1, day);
        let k = choose|k: int| 0 <= k < before.len() && before[k] == days[day - 1]->0;
        assert(given_up_until(days, keep, upto)[k] == before[k]);
    } else {
        assert(given_up_until(days, keep, upto)[before.len() as int] == days[day - 1]->0);
    }
}

/// A walk against ascending anchors never gives up the backup of an anchor,
/// nor that of a day after the last anchor: the slot at `k` among those
/// given up stands at the day that is returned, which is no anchor and
/// comes before the last one.
pub proof fn lemma_anchors_are_kept(days: Seq<Option<Day>>, keep: Seq<u32>, k: int) -> (day: int)
    requires
        ascending_days(keep),
        0 <= k < given_up(days, keep).len(),
    ensures
        1 <= day <= DAYS,
        days[day - 1] == Some(given_up(days, keep)[k]),
        keep.len() > 0 && day < keep.last(),
        forall|i: int| 0 <= i < keep.len() ==> #[trigger] keep[i] != day,
{
    let day = lemma_given_up_comes_from(days, keep, DAYS as int, k);
    lemma_given_up_of_ascending(keep, day);
    day
}

/// The anchors of every policy stand in ascending order.
pub proof fn lemma_anchors_ascend(policy: MonthPolicy)
    ensures
        ascending_days(anchors(policy)),
        anchors(policy).len() <= DAYS,
{
}

/// What each policy gives up, day by day: `Weekly` the days before the 29th
/// other than the 1st, 8th, 15th and 22nd, `BiMonthly` the 2nd to the 14th,
/// `Daily` and `First` nothing.
pub open spec fn policy_gives_up(policy: MonthPolicy, day: int) -> bool {
    match policy {
        MonthPolicy::Daily => false,
        MonthPolicy::Weekly => 1 < day < 29 && day != 8 && day != 15 && day != 22,
        MonthPolicy::BiMonthly => 1 < day < 15,
        MonthPolicy::First => false,
    }
}

/// The walk against the anchors of a policy gives up the days that
/// [`policy_gives_up`] lists.
pub proof fn lemma_policy_gives_up(policy: MonthPolicy, day: int)
    requires
        1 <= day,
    ensures
        gives_up(anchors(policy), day) == policy_gives_up(policy, day),
{
    lemma_anchors_ascend(policy);
    lemma_given_up_of_ascending(anchors(policy), day);
    let keep = anchors(policy);
    if policy_gives_up(policy, day) {
        assert(forall|i: int| 0 <= i < keep.len() ==> #[trigger] keep[i] != day);
    } else if keep.len() > 0 && day < keep.last() {
        match policy {
            MonthPolicy::Daily => {},
            MonthPolicy::Weekly => {
                assert(keep[0] == 1 && keep[1] == 8 && keep[2] == 15 && keep[3] == 22);
            },
            MonthPolicy::BiMonthly => {
                assert(keep[0] == 1);
            },
            MonthPolicy::First => {},
        }
    }
}

/// A policy that gives up no day gives up no backup: so it is with `Daily`,
/// which has no anchor, and with `First`, whose only anchor is the 1st.
pub proof fn lemma_daily_and_first_give_up_nothing(days: Seq<Option<Day>>, policy: MonthPolicy)
    requires
        policy == MonthPolicy::Daily || policy == MonthPolicy::First,
    ensures
        given_up(days, anchors(policy)).len() == 0,
{
    if given_up(days, anchors(policy)).len() > 0 {
        let day = lemma_given_up_comes_from(days, anchors(policy), DAYS as int, 0);
        lemma_policy_gives_up(policy, day);
    }
}

/// Walks the days of `month` against the anchors `day_nums_to_keep` and
/// returns the filled slots that are given up, by ascending day.
///
/// The list may hold any numbers in any order: the walk waits for them one
/// after the other. For a list in ascending order see
/// [`lemma_given_up_of_ascending`].
pub fn keep_days(month: &Month, day_nums_to_keep: &[u32]) -> (result: Vec<Day>)
    requires
        day_nums_to_keep@.len() <= DAYS,
    ensures
        result@ == given_up(month.days@, day_nums_to_keep@),
{
    let mut result: Vec<Day> = Vec::with_capacity(DAYS - day_nums_to_keep.len());
    let mut passed: usize = 0;
    let mut i: usize = 0;
    while i < DAYS
        invariant
            i <= DAYS,
            passed <= day_nums_to_keep@.len(),
            passed == anchors_passed(day_nums_to_keep@, i + 1),
            result@ == given_up_until(month.days@, day_nums_to_keep@, i as int),
        ensures
            result@ == given_up(month.days@, day_nums_to_keep@),
        decreases DAYS - i,
    {
        if passed >= day_nums_to_keep.len() {
            proof {
                lemma_nothing_after_last_anchor(
                    month.days@,
                    day_nums_to_keep@,
                    i as int,
                    DAYS as int,
                );
            }
            break;
        }
        let num: u32 = (i + 1) as u32;
        if day_nums_to_keep[passed] == num {
            passed += 1;
        } else if let Some(day) = month.days[i] {
            result.push(day);
        }
        i += 1;
    }
    result
}

/// Returns the filled slots of `month` that `policy` gives up, by ascending
/// day.
pub fn apply_policy(policy: MonthPolicy, month: &Month) -> (result: Vec<Day>)
    ensures
        result@ == given_up(month.days@, anchors(policy)),
        policy == MonthPolicy::Daily || policy == MonthPolicy::First ==> result@.len() == 0,
{
    proof {
        if policy == MonthPolicy::Daily || policy == MonthPolicy::First {
            lemma_daily_and_first_give_up_nothing(month.days@, policy);
        }
    }
    match policy {
        MonthPolicy::Daily => Vec::new(),
        MonthPolicy::Weekly => {
            let keep: [u32; 5] = [1, 8, 15, 22, 29];
            assert(keep@ == anchors(policy));
            keep_days(month, &keep)
        },
        MonthPolicy::BiMonthly => {
            let keep: [u32; 2] = [1, 15];
            assert(keep@ == anchors(policy));
            keep_days(month, &keep)
        },
        MonthPolicy::First => {
            let keep: [u32; 1] = [1];
            assert(keep@ == anchors(policy));
            keep_days(month, &keep)
        },
    }
}

} // verus!
