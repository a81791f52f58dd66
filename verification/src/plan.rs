//! The removals of a run: what the policies give up over the whole
//! calendar, as names that can be handed to whatever deletes them.

use crate::backup::{backups_among, dates_of, Backup, BackupView};
use crate::calendar::{
    all_in_calendar, calendar_of, latest_on, lemma_latest_on, slot_date, years_seen,
    CalendarIndex, Day, YearView, DAYS, MONTHS,
};
use crate::date::{date_in_name, names_backup, Date};
use crate::policy::{month_policy, policy_for};
use crate::prune::{
    anchors, apply_policy, given_up, gives_up, lemma_given_up_comes_from, lemma_given_up_holds,
};
use vstd::prelude::*;

verus! {

/// The name of a backup that is to be deleted.
#[derive(Debug)]
pub struct Removal(pub String);

impl View for Removal {
    type V = Seq<char>;

    open spec fn view(&self) -> Seq<char> {
        self.0@
    }
}

impl DeepView for Removal {
    type V = Seq<char>;

    open spec fn deep_view(&self) -> Seq<char> {
        self@
    }
}

/// What the policy of each month of a year gives up, as seen from `today`:
/// one list for each of the twelve months.
pub open spec fn months_given_up(year: YearView, today: Date) -> Seq<Seq<Day>> {
    Seq::new(
        MONTHS as nat,
        |m: int| given_up(year.months[m], anchors(month_policy(today, year.num, (m + 1) as u32))),
    )
}

/// What the policies give up in a year as seen from `today`: month after
/// month, and within a month by ascending day.
pub open spec fn year_given_up(year: YearView, today: Date) -> Seq<Day> {
    months_given_up(year, today).flatten()
}

/// What the policies give up in a calendar as seen from `today`: year after
/// year in the calendar's order, and within a year by month and day.
pub open spec fn calendar_given_up(years: Seq<YearView>, today: Date) -> Seq<Day> {
    years.map_values(|year: YearView| year_given_up(year, today)).flatten()
}

/// The names of the backups that a run gives up, in the order in which
/// they are deleted.
pub open spec fn planned_removals(backups: Seq<BackupView>, today: Date) -> Seq<Seq<char>> {
    calendar_given_up(calendar_of(dates_of(backups)), today).map_values(
        |day: Day| backups[day.idx as int].name,
    )
}

/// Where an entry of a list of lists that were joined comes from: the
/// place of its list and its place in that list are returned.
proof fn lemma_flatten_comes_from<A>(parts: Seq<Seq<A>>, k: int) -> (at: (int, int))
    requires
        0 <= k < parts.flatten().len(),
    ensures
        0 <= at.0 < parts.len(),
        0 <= at.1 < parts[at.0].len(),
        parts[at.0][at.1] == parts.flatten()[k],
    decreases parts.len(),
{
    if parts.len() == 0 {
        (0, 0)
    } else {
        let earlier = parts.drop_last();
        assert(parts == earlier.push(parts.last()));
        earlier.lemma_flatten_push(parts.last());
        if k < earlier.flatten().len() {
            lemma_flatten_comes_from(earlier, k)
        } else {
            (parts.len() - 1, k - earlier.flatten().len())
        }
    }
}

/// Where an entry that a calendar gives up comes from: the place of its
/// year and the month and the day of its slot are returned. The policy of
/// that month gives up that day.
pub proof fn lemma_calendar_given_up_comes_from(years: Seq<YearView>, today: Date, k: int) -> (at:
    (int, int, int))
    requires
        0 <= k < calendar_given_up(years, today).len(),
    ensures
        0 <= at.0 < years.len(),
        1 <= at.1 <= MONTHS,
        1 <= at.2 <= DAYS,
        years[at.0].months[at.1 - 1][at.2 - 1] == Some(calendar_given_up(years, today)[k]),
        gives_up(anchors(month_policy(today, years[at.0].num, at.1 as u32)), at.2),
{
    let per_year = years.map_values(|year: YearView| year_given_up(year, today));
    let (y, in_year) = lemma_flatten_comes_from(per_year, k);
    let (m, in_month) = lemma_flatten_comes_from(months_given_up(years[y], today), in_year);
    let keep = anchors(month_policy(today, years[y].num, (m + 1) as u32));
    let day = lemma_given_up_comes_from(years[y].months[m], keep, DAYS as int, in_month);
    (y, m + 1, day)
}

/// Every entry that the calendar of a list gives up points into the list,
/// at the last backup of its date.
pub proof fn lemma_given_up_points_into_list(dates: Seq<Date>, today: Date, k: int)
    requires
        dates.len() <= u32::MAX,
        0 <= k < calendar_given_up(calendar_of(dates), today).len(),
    ensures
        ({
            let day = calendar_given_up(calendar_of(dates), today)[k];
            &&& day.idx < dates.len()
            &&& latest_on(dates, dates[day.idx as int]) == Some(day)
        }),
{
    let years = calendar_of(dates);
    let (y, m, d) = lemma_calendar_given_up_comes_from(years, today, k);
    lemma_latest_on(dates, slot_date(years[y].num, m - 1, d - 1));
}

/// Two runs on one list of backups and one day plan the same removals in
/// the same order.
pub proof fn lemma_plan_is_repeatable(
    backups: Seq<BackupView>,
    today: Date,
    first: Seq<Seq<char>>,
    second: Seq<Seq<char>>,
)
    requires
        first == planned_removals(backups, today),
        second == planned_removals(backups, today),
    ensures
        first == second,
{
}

/// The plan goes by the month of the run: on two days of one month the same
/// removals are planned.
pub proof fn lemma_plan_goes_by_the_month(backups: Seq<BackupView>, today: Date, other: Date)
    requires
        today.year == other.year,
        today.month == other.month,
    ensures
        planned_removals(backups, today) == planned_removals(backups, other),
{
    let years = calendar_of(dates_of(backups));
    assert forall|y: int| 0 <= y < years.len() implies year_given_up(years[y], today)
        == year_given_up(years[y], other) by {
        assert(months_given_up(years[y], today) =~= months_given_up(years[y], other));
    }
    assert(years.map_values(|year: YearView| year_given_up(year, today)) =~= years.map_values(
        |year: YearView| year_given_up(year, other),
    ));
}

/// Every removal of a run is the name of a backup of the list: of the last
/// one of its date, at a day that the policy of its month gives up.
pub proof fn lemma_removal_is_listed(backups: Seq<BackupView>, today: Date, k: int) -> (at: int)
    requires
        backups.len() <= u32::MAX,
        0 <= k < planned_removals(backups, today).len(),
    ensures
        0 <= at < backups.len(),
        planned_removals(backups, today)[k] == backups[at].name,
        forall|j: int| at < j < backups.len() ==> backups[j].date != backups[at].date,
        gives_up(
            anchors(month_policy(today, backups[at].date.year, backups[at].date.month)),
            backups[at].date.day as int,
        ),
{
    let dates = dates_of(backups);
    let years = calendar_of(dates);
    let (y, m, d) = lemma_calendar_given_up_comes_from(years, today, k);
    lemma_latest_on(dates, slot_date(years[y].num, m - 1, d - 1));
    let at = calendar_given_up(years, today)[k].idx as int;
    assert forall|j: int| at < j < backups.len() implies backups[j].date != backups[at].date by {
        assert(dates[j] == backups[j].date);
    }
    at
}

/// What is in one of the lists is in the list that they are joined to.
proof fn lemma_flatten_holds<A>(parts: Seq<Seq<A>>, i: int, x: A)
    requires
        0 <= i < parts.len(),
        parts[i].contains(x),
    ensures
        parts.flatten().contains(x),
    decreases parts.len(),
{
    let earlier = parts.drop_last();
    assert(parts == earlier.push(parts.last()));
    earlier.lemma_flatten_push(parts.last());
    let joined = parts.flatten();
    if i < parts.len() - 1 {
        lemma_flatten_holds(earlier, i, x);
        let k = choose|k: int| 0 <= k < earlier.flatten().len() && earlier.flatten()[k] == x;
        assert(joined[k] == x);
    } else {
        let k = choose|k: int| 0 <= k < parts.last().len() && parts.last()[k] == x;
        assert(joined[earlier.flatten().len() + k] == x);
    }
}

/// A backup is removed if it is the last one of its date in the list, its
/// date has a slot in the calendar, and the policy of its month gives up
/// its day. With [`lemma_removal_is_listed`] this says which backups a run
/// removes: these and no others.
pub proof fn lemma_given_up_backup_is_removed(backups: Seq<BackupView>, today: Date, at: int)
    requires
        backups.len() <= u32::MAX,
        0 <= at < backups.len(),
        backups[at].date.in_calendar(),
        forall|j: int| at < j < backups.len() ==> backups[j].date != backups[at].date,
        gives_up(
            anchors(month_policy(today, backups[at].date.year, backups[at].date.month)),
            backups[at].date.day as int,
        ),
    ensures
        planned_removals(backups, today).contains(backups[at].name),
{
    let dates = dates_of(backups);
    let date = backups[at].date;
    let years = calendar_of(dates);
    assert(dates[at] == date);
    lemma_latest_on(dates, date);
    let slot = latest_on(dates, date);
    assert(slot == Some(Day { idx: at as u32 })) by {
        if slot is Some && slot->0.idx < at {
            assert(dates[at] == date);
        }
    }
    let y = choose|y: int| 0 <= y < years_seen(dates).len() && years_seen(dates)[y] == date.year;
    let m = date.month - 1;
    let d = date.day - 1;
    assert(slot_date(date.year, m, d) == date);
    assert(years[y].months[m][d] == slot);
    let keep = anchors(month_policy(today, date.year, date.month));
    lemma_given_up_holds(years[y].months[m], keep, DAYS as int, date.day as int);
    let day = Day { idx: at as u32 };
    assert(months_given_up(years[y], today)[m] == given_up(years[y].months[m], keep));
    lemma_flatten_holds(months_given_up(years[y], today), m, day);
    let per_year = years.map_values(|year: YearView| year_given_up(year, today));
    lemma_flatten_holds(per_year, y, day);
    let given = calendar_given_up(years, today);
    let k = choose|k: int| 0 <= k < given.len() && given[k] == day;
    assert(planned_removals(backups, today)[k] == backups[at].name);
}

/// The calendar of the backups among a list of names holds nothing but
/// such backups: a filled slot points at a name that starts with the date
/// of the slot.
pub proof fn lemma_slots_hold_backups(names: Seq<Seq<char>>, date: Date)
    requires
        names.len() <= u32::MAX,
    ensures
        latest_on(dates_of(backups_among(names)), date) matches Some(day) ==> {
            &&& day.idx < backups_among(names).len()
            &&& names.contains(backups_among(names)[day.idx as int].name)
            &&& names_backup(backups_among(names)[day.idx as int].name)
            &&& date_in_name(backups_among(names)[day.idx as int].name) == date
        },
{
    let is_backup = |name: Seq<char>| names_backup(name);
    let kept = names.filter(is_backup);
    names.lemma_filter_len(is_backup);
    let backups = backups_among(names);
    lemma_latest_on(dates_of(backups), date);
    if let Some(day) = latest_on(dates_of(backups), date) {
        let at = day.idx as int;
        assert(backups[at].name == kept[at]);
        names.lemma_filter_pred(is_backup, at);
        assert(kept.contains(kept[at]));
        names.lemma_filter_contains_rev(is_backup, kept[at]);
    }
}

/// A run on the backups among a list of names removes nothing but names of
/// that list that start with a date: a name that names no backup is in no
/// slot of the calendar and in no plan.
pub proof fn lemma_only_backups_are_removed(names: Seq<Seq<char>>, today: Date, k: int)
    requires
        names.len() <= u32::MAX,
        0 <= k < planned_removals(backups_among(names), today).len(),
    ensures
        names_backup(planned_removals(backups_among(names), today)[k]),
        names.contains(planned_removals(backups_among(names), today)[k]),
{
    let is_backup = |name: Seq<char>| names_backup(name);
    let kept = names.filter(is_backup);
    names.lemma_filter_len(is_backup);
    let backups = backups_among(names);
    let at = lemma_removal_is_listed(backups, today, k);
    assert(backups[at].name == kept[at]);
    names.lemma_filter_pred(is_backup, at);
    assert(kept.contains(kept[at]));
    names.lemma_filter_contains_rev(is_backup, kept[at]);
}

impl CalendarIndex {
    /// Chooses the policy of every month of the calendar as seen from
    /// `today` and gathers what the policies give up.
    pub fn removal_candidates(&self, today: Date) -> (candidates: Vec<Day>)
        ensures
            candidates@ == calendar_given_up(self@, today),
    {
        let ghost per_year = self@.map_values(|year: YearView| year_given_up(year, today));
        let mut candidates: Vec<Day> = Vec::new();
        let mut k: usize = 0;
        while k < self.years.len()
            invariant
                k <= self.years@.len(),
                per_year == self@.map_values(|year: YearView| year_given_up(year, today)),
                candidates@ == per_year.take(k as int).flatten(),
            decreases self.years@.len() - k,
        {
            let year = &self.years[k];
            let ghost before = candidates@;
            let ghost per_month = months_given_up(year@, today);
            let mut m: usize = 0;
            while m < MONTHS
                invariant
                    m <= MONTHS,
                    k < self.years@.len(),
                    *year == self.years@[k as int],
                    per_month == months_given_up(year@, today),
                    candidates@ == before + per_month.take(m as int).flatten(),
                decreases MONTHS - m,
            {
                let policy = policy_for(today, year.num, m as u32 + 1);
                let mut to_remove = apply_policy(policy, &year.months[m]);
                candidates.append(&mut to_remove);
                proof {
                    assert(per_month.take(m + 1) == per_month.take(m as int).push(
                        per_month[m as int],
                    ));
                    per_month.take(m as int).lemma_flatten_push(per_month[m as int]);
                }
                m += 1;
            }
            proof {
                assert(per_month.take(MONTHS as int) == per_month);
                assert(self@[k as int] == year@);
                assert(per_year.take(k + 1) == per_year.take(k as int).push(per_year[k as int]));
                per_year.take(k as int).lemma_flatten_push(per_year[k as int]);
            }
            k += 1;
        }
        assert(per_year.take(self.years@.len() as int) == per_year);
        candidates
    }
}

/// Tests whether every backup of the list has a slot in the calendar.
pub fn dates_fit_calendar(backups: &Vec<Backup>) -> (fit: bool)
    ensures
        fit == all_in_calendar(dates_of(backups.deep_view())),
{
    let mut i: usize = 0;
    while i < backups.len()
        invariant
            i <= backups@.len(),
            forall|j: int| 0 <= j < i ==> (#[trigger] dates_of(backups.deep_view())[j]).in_calendar(),
        decreases backups@.len() - i,
    {
        if !backups[i].date.is_in_calendar() {
            assert(!dates_of(backups.deep_view())[i as int].in_calendar());
            return false;
        }
        i += 1;
    }
    true
}

/// Computes the removals of a run: builds the calendar of the backups,
/// applies to every month the policy that its age from `today` calls for,
/// and names what the policies give up.
///
/// The removals come year by year in the order in which the list first
/// names the years, within a year by month, within a month by day. Every
/// date must have a slot in the calendar, and the list must be short enough
/// for the slots to hold its places.
pub fn plan_removals(backups: &Vec<Backup>, today: Date) -> (removals: Vec<Removal>)
    requires
        all_in_calendar(dates_of(backups.deep_view())),
        backups@.len() <= u32::MAX,
    ensures
        removals.deep_view() == planned_removals(backups.deep_view(), today),
{
    let index = CalendarIndex::build(backups);
    let candidates = index.removal_candidates(today);
    let ghost dates = dates_of(backups.deep_view());
    let mut removals: Vec<Removal> = Vec::with_capacity(candidates.len());
    let mut k: usize = 0;
    while k < candidates.len()
        invariant
            k <= candidates@.len(),
            dates == dates_of(backups.deep_view()),
            dates.len() <= u32::MAX,
            candidates@ == calendar_given_up(calendar_of(dates), today),
            removals.deep_view() == planned_removals(backups.deep_view(), today).take(k as int),
        decreases candidates@.len() - k,
    {
        proof {
            lemma_given_up_points_into_list(dates, today, k as int);
        }
        let day = candidates[k];
        let ghost before = removals.deep_view();
        removals.push(Removal(backups[day.idx as usize].name.clone()));
        assert(removals.deep_view() == before.push(backups[day.idx as int].name@));
        k += 1;
    }
    removals
}

/// Computes the removals of a run as [`plan_removals`] does, after testing
/// what that function asks of the list. Where a date has no slot in the
/// calendar, or the list is too long, there is no plan.
pub fn try_plan_removals(backups: &Vec<Backup>, today: Date) -> (removals: Option<Vec<Removal>>)
    ensures
        removals is Some <==> all_in_calendar(dates_of(backups.deep_view())) && backups@.len()
            <= u32::MAX,
        removals matches Some(removals) ==> removals.deep_view() == planned_removals(
            backups.deep_view(),
            today,
        ),
{
    if backups.len() > u32::MAX as usize || !dates_fit_calendar(backups) {
        None
    } else {
        Some(plan_removals(backups, today))
    }
}

} // verus!
