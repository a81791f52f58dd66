use backup_prune::backup::Backup;
use backup_prune::calendar::{CalendarIndex, Day, Month, Year};
use backup_prune::date::Date;

fn backup(year: u32, month: u32, day: u32) -> Backup {
    Backup {
        date: Date::new(year, month, day),
        name: format!("{:04}{:02}{:02}.tar.gz", year, month, day),
    }
}

fn filled_slots(year: &Year) -> Vec<(usize, usize, u32)> {
    let mut slots = Vec::new();
    for (m, month) in year.months.iter().enumerate() {
        for (d, day) in month.days.iter().enumerate() {
            if let Some(day) = day {
                slots.push((m + 1, d + 1, day.idx));
            }
        }
    }
    slots
}

#[test]
fn day_new_keeps_the_place() {
    assert_eq!(Day::new(7).idx, 7);
    assert_eq!(Day::new(u32::MAX).idx, u32::MAX);
}

#[test]
fn a_new_month_is_empty() {
    assert!(Month::new().days.iter().all(|day| day.is_none()));
    assert!(Month::default().days.iter().all(|day| day.is_none()));
    assert_eq!(Month::new().days.len(), 31);
}

#[test]
fn a_new_year_has_twelve_empty_months() {
    let year = Year::new(2023);
    assert_eq!(year.num, 2023);
    assert_eq!(year.months.len(), 12);
    assert_eq!(filled_slots(&year), vec![]);
}

#[test]
fn no_backups_make_an_empty_calendar() {
    let index = CalendarIndex::build(&vec![]);
    assert_eq!(index.years.len(), 0);
}

#[test]
fn a_backup_fills_the_slot_of_its_date() {
    let index = CalendarIndex::build(&vec![backup(2023, 3, 14)]);
    assert_eq!(index.years.len(), 1);
    assert_eq!(index.years[0].num, 2023);
    assert_eq!(index.years[0].months[2].days[13], Some(Day::new(0)));
    assert_eq!(filled_slots(&index.years[0]), vec![(3, 14, 0)]);
}

#[test]
fn the_corners_of_a_year_have_their_slots() {
    let index = CalendarIndex::build(&vec![backup(2023, 1, 1), backup(2023, 12, 31)]);
    assert_eq!(index.years[0].months[0].days[0], Some(Day::new(0)));
    assert_eq!(index.years[0].months[11].days[30], Some(Day::new(1)));
    assert_eq!(filled_slots(&index.years[0]), vec![(1, 1, 0), (12, 31, 1)]);
}

#[test]
fn years_stand_in_the_order_of_their_first_backup() {
    let backups = vec![
        backup(2023, 5, 1),
        backup(2021, 5, 1),
        backup(2023, 6, 1),
        backup(2022, 5, 1),
        backup(2021, 7, 9),
    ];
    let index = CalendarIndex::build(&backups);
    let nums: Vec<u32> = index.years.iter().map(|year| year.num).collect();
    assert_eq!(nums, vec![2023, 2021, 2022]);
    assert_eq!(filled_slots(&index.years[0]), vec![(5, 1, 0), (6, 1, 2)]);
    assert_eq!(filled_slots(&index.years[1]), vec![(5, 1, 1), (7, 9, 4)]);
    assert_eq!(filled_slots(&index.years[2]), vec![(5, 1, 3)]);
}

#[test]
fn of_two_backups_of_one_day_the_later_holds_the_slot() {
    let backups = vec![backup(2023, 5, 1), backup(2023, 5, 2), backup(2023, 5, 1)];
    let index = CalendarIndex::build(&backups);
    assert_eq!(filled_slots(&index.years[0]), vec![(5, 1, 2), (5, 2, 1)]);
}

#[test]
fn days_that_no_calendar_has_still_have_slots() {
    let index = CalendarIndex::build(&vec![backup(2023, 2, 31)]);
    assert_eq!(filled_slots(&index.years[0]), vec![(2, 31, 0)]);
}
