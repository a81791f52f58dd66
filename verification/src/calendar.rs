//! The calendar that the backups are sorted into: years, their twelve
//! months, and the thirty-one day slots of each month.

use crate::backup::{dates_of, Backup};
use crate::date::Date;
use vstd::prelude::*;

verus! {

/// The number of months in a year of the calendar.
pub const MONTHS: usize = 12;

/// The number of day slots in a month of the calendar.
pub const DAYS: usize = 31;

/// A filled day slot: the place of its backup in the list that the calendar
/// was built from.
#[derive(Debug, Default, Clone, Copy, PartialEq, Eq, Structural)]
pub struct Day {
    pub idx: u32,
}

/// The day slots of one month; the slot of day `d` stands at `d - 1`.
#[derive(Debug, Clone, Copy)]
pub struct Month {
    pub days: [Option<Day>; DAYS],
}

/// The months of one year; the month `m` stands at `m - 1`.
#[derive(Debug, Clone, Copy)]
pub struct Year {
    pub num: u32,
    pub months: [Month; MONTHS],
}

impl Day {
    /// The slot of the backup at the place `idx` of the list.
    pub fn new(idx: u32) -> (day: Day)
        ensures
            day.idx == idx,
    {
        Day { idx }
    }
}

impl Month {
    /// A month with every slot empty.
    pub fn new() -> (month: Month)
        ensures
            month.is_empty(),
    {
        Month { days: [None;DAYS] }
    }

    /// Whether no slot of the month is filled.
    pub open spec fn is_empty(self) -> bool {
        forall|d: int| 0 <= d < DAYS ==> self.days@[d] is None
    }
}

impl Default for Month {
    fn default() -> (month: Month)
        ensures
            month.is_empty(),
    {
        Month::new()
    }
}

impl Year {
    /// The year `num`, with twelve empty months.
    pub fn new(num: u32) -> (year: Year)
        ensures
            year.num == num,
            forall|m: int| 0 <= m < MONTHS ==> (#[trigger] year.months@[m]).is_empty(),
    {
        Year { num, months: [Month::new();MONTHS] }
    }
}

/// A year as the contracts see it: its number, and for each of its twelve
/// months the thirty-one day slots.
pub struct YearView {
    pub num: u32,
    pub months: Seq<Seq<Option<Day>>>,
}

impl View for Month {
    type V = Seq<Option<Day>>;

    open spec fn view(&self) -> Seq<Option<Day>> {
        self.days@
    }
}

impl View for Year {
    type V = YearView;

    open spec fn view(&self) -> YearView {
        YearView { num: self.num, months: Seq::new(MONTHS as nat, |m: int| self.months@[m]@) }
    }
}

/// The calendar of a list of backups: the years that occur in it, each with
/// its months and day slots. A filled slot points back into the list.
#[derive(Debug)]
pub struct CalendarIndex {
    pub years: Vec<Year>,
}

impl View for CalendarIndex {
    type V = Seq<YearView>;

    open spec fn view(&self) -> Seq<YearView> {
        Seq::new(self.years@.len(), |k: int| self.years@[k]@)
    }
}

impl Date {
    /// Whether the month and the day are numbers of the calendar: a month
    /// from 1 to 12 and a day from 1 to 31.
    pub open spec fn in_calendar(self) -> bool {
        1 <= self.month <= MONTHS && 1 <= self.day <= DAYS
    }

    /// Tests whether the date has a slot in the calendar.
    pub fn is_in_calendar(&self) -> (fits: bool)
        ensures
            fits == self.in_calendar(),
    {
        1 <= self.month && self.month as usize <= MONTHS && 1 <= self.day && self.day as usize
            <= DAYS
    }
}

/// The years of a list of dates, each once, in the order in which they
/// first occur.
pub open spec fn years_seen(dates: Seq<Date>) -> Seq<u32>
    decreases dates.len(),
{
    if dates.len() == 0 {
        Seq::empty()
    } else {
        let before = years_seen(dates.drop_last());
        if before.contains(dates.last().year) {
            before
        } else {
            before.push(dates.last().year)
        }
    }
}

/// The slot of a date: the place of the last entry of the list that bears
/// the date, if there is one. Of two backups of one day the later one in
/// the list holds the slot.
pub open spec fn latest_on(dates: Seq<Date>, date: Date) -> Option<Day>
    decreases dates.len(),
{
    if dates.len() == 0 {
        None
    } else if dates.last() == date {
        Some(Day { idx: (dates.len() - 1) as u32 })
    } else {
        latest_on(dates.drop_last(), date)
    }
}

/// The date of the slot at `d` in the month at `m` of the year `num`: the
/// places count from 0, the months and days of a date from 1.
pub open spec fn slot_date(num: u32, m: int, d: int) -> Date {
    Date { year: num, month: (m + 1) as u32, day: (d + 1) as u32 }
}

/// The year `num` of the calendar of a list of dates.
pub open spec fn year_of(dates: Seq<Date>, num: u32) -> YearView {
    YearView {
        num,
        months: Seq::new(
            MONTHS as nat,
            |m: int| Seq::new(DAYS as nat, |d: int| latest_on(dates, slot_date(num, m, d))),
        ),
    }
}

/// The calendar of a list of dates: its years in the order in which they
/// first occur, and in each slot the last entry of that date.
pub open spec fn calendar_of(dates: Seq<Date>) -> Seq<YearView> {
    years_seen(dates).map_values(|num: u32| year_of(dates, num))
}

/// Whether every date of the list has a slot in the calendar.
pub open spec fn all_in_calendar(dates: Seq<Date>) -> bool {
    forall|i: int| 0 <= i < dates.len() ==> (#[trigger] dates[i]).in_calendar()
}

/// Whether no year stands twice in a calendar, so that a date has one slot
/// and a slot one backup.
pub open spec fn years_differ(years: Seq<YearView>) -> bool {
    forall|a: int, b: int| 0 <= a < b < years.len() ==> years[a].num != years[b].num
}

/// No year is seen twice.
pub proof fn lemma_years_seen_once(dates: Seq<Date>)
    ensures
        years_seen(dates).no_duplicates(),
        years_differ(calendar_of(dates)),
    decreases dates.len(),
{
    if dates.len() > 0 {
        lemma_years_seen_once(dates.drop_last());
    }
}

/// A filled slot points at an entry of its date, and no later entry bears
/// that date; an empty slot means that no entry does.
pub proof fn lemma_latest_on(dates: Seq<Date>, date: Date)
    requires
        dates.len() <= u32::MAX,
    ensures
        match latest_on(dates, date) {
            Some(day) => {
                &&& day.idx < dates.len()
                &&& dates[day.idx as int] == date
                &&& forall|j: int| day.idx < j < dates.len() ==> dates[j] != date
            },
            None => forall|j: int| 0 <= j < dates.len() ==> dates[j] != date,
        },
        latest_on(dates, date) is Some ==> years_seen(dates).contains(date.year),
    decreases dates.len(),
{
    if dates.len() > 0 {
        let before = dates.drop_last();
        lemma_latest_on(before, date);
        lemma_year_stays_seen(dates, date.year);
        if dates.last() == date {
        } else {
            match latest_on(before, date) {
                Some(day) => {
                    assert(dates[day.idx as int] == before[day.idx as int]);
                    assert forall|j: int| day.idx < j < dates.len() implies dates[j] != date by {
                        if j < before.len() {
                            assert(dates[j] == before[j]);
                        }
                    }
                },
                None => {
                    assert forall|j: int| 0 <= j < dates.len() implies dates[j] != date by {
                        if j < before.len() {
                            assert(dates[j] == before[j]);
                        }
                    }
                },
            }
        }
    }
}

/// A year that was seen stays seen when the list grows by one date, and the
/// year of that date is seen.
proof fn lemma_year_stays_seen(dates: Seq<Date>, year: u32)
    requires
        dates.len() > 0,
    ensures
        years_seen(dates.drop_last()).contains(year) ==> years_seen(dates).contains(year),
        years_seen(dates).contains(dates.last().year),
{
    let before = years_seen(dates.drop_last());
    if !before.contains(dates.last().year) {
        let grown = before.push(dates.last().year);
        assert(grown[before.len() as int] == dates.last().year);
        if before.contains(year) {
            let k = choose|k: int| 0 <= k < before.len() && before[k] == year;
            assert(grown[k] == year);
        }
    }
}

impl CalendarIndex {
    /// The place of the year `num` among the years, if it is there.
    fn find_year(&self, num: u32) -> (found: Option<usize>)
        ensures
            match found {
                Some(k) => k < self.years@.len() && self.years@[k as int].num == num,
                None => forall|k: int| 0 <= k < self.years@.len() ==> self.years@[k].num != num,
            },
    {
        let mut k: usize = 0;
        while k < self.years.len()
            invariant
                k <= self.years@.len(),
                forall|j: int| 0 <= j < k ==> self.years@[j].num != num,
            decreases self.years@.len() - k,
        {
            if self.years[k].num == num {
                return Some(k);
            }
            k += 1;
        }
        None
    }

    /// Builds the calendar of a list of backups.
    ///
    /// The years stand in the order in which the list first names them.
    /// Each backup is entered in the slot of its date by its place in the
    /// list; of two backups of one date the later one holds the slot.
    /// Every date must have a slot, and the places must fit the slots'
    /// 32 bits.
    pub fn build(backups: &Vec<Backup>) -> (index: CalendarIndex)
        requires
            all_in_calendar(dates_of(backups.deep_view())),
            backups@.len() <= u32::MAX,
        ensures
            index@ == calendar_of(dates_of(backups.deep_view())),
            years_differ(index@),
    {
        let ghost dates = dates_of(backups.deep_view());
        proof {
            lemma_years_seen_once(dates);
        }
        let mut index = CalendarIndex { years: Vec::new() };
        let mut i: usize = 0;
        while i < backups.len()
            invariant
                i <= backups@.len() <= u32::MAX,
                dates == dates_of(backups.deep_view()),
                all_in_calendar(dates),
                index@ == calendar_of(dates.take(i as int)),
            decreases backups@.len() - i,
        {
            let date = backups[i].date;
            assert(date == dates[i as int]);
            assert(date.in_calendar());
            let ghost seen = dates.take(i as int);
            let ghost grown = dates.take(i + 1);
            let ghost old_index = index@;
            proof {
                assert(grown.drop_last() == seen);
                assert(grown.last() == date);
                lemma_years_seen_once(seen);
                lemma_years_seen_once(grown);
                assert(index@.len() == years_seen(seen).len());
                assert forall|k: int| 0 <= k < index@.len() implies index.years@[k].num
                    == years_seen(seen)[k] by {
                    assert(index@[k] == calendar_of(seen)[k]);
                }
            }
            let k = match index.find_year(date.year) {
                Some(k) => {
                    proof {
                        assert(years_seen(seen)[k as int] == date.year);
                        assert(years_seen(seen).contains(date.year));
                    }
                    k
                },
                None => {
                    proof {
                        assert(!years_seen(seen).contains(date.year));
                        assert forall|m: int, d: int| 0 <= m < MONTHS && 0 <= d < DAYS implies latest_on(
                            seen,
                            #[trigger] slot_date(date.year, m, d),
                        ) is None by {
                            lemma_latest_on(seen, slot_date(date.year, m, d));
                        }
                    }
                    index.years.push(Year::new(date.year));
                    index.years.len() - 1
                },
            };
            let m: usize = (date.month - 1) as usize;
            let d: usize = (date.day - 1) as usize;
            index.years[k].months[m].days[d] = Some(Day::new(i as u32));
            proof {
                assert(index@.len() == years_seen(grown).len());
                assert forall|j: int| 0 <= j < index@.len() implies index@[j] == calendar_of(
                    grown,
                )[j] by {
                    let num = years_seen(grown)[j];
                    assert(index.years@[j].num == num);
                    assert(index@[j].months.len() == MONTHS);
                    assert forall|mm: int| 0 <= mm < MONTHS implies index@[j].months[mm]
                        == year_of(grown, num).months[mm] by {
                        assert forall|dd: int| 0 <= dd < DAYS implies index@[j].months[mm][dd]
                            == year_of(grown, num).months[mm][dd] by {
                            let slot = slot_date(num, mm, dd);
                            if j < old_index.len() {
                                assert(old_index[j] == calendar_of(seen)[j]);
                                assert(old_index[j].months[mm][dd] == latest_on(seen, slot));
                            }
                        }
                        assert(index@[j].months[mm] =~= year_of(grown, num).months[mm]);
                    }
                    assert(index@[j].months =~= year_of(grown, num).months);
                }
                assert(index@ =~= calendar_of(grown));
            }
            i += 1;
        }
        assert(dates.take(backups@.len() as int) == dates);
        index
    }
}

} // verus!
