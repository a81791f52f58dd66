use backup_prune::calendar::{Day, Month};
use backup_prune::policy::MonthPolicy;
use backup_prune::prune::{apply_policy, keep_days};

fn full_month() -> Month {
    let mut month = Month::new();
    for d in 0..31 {
        month.days[d] = Some(Day::new(100 + d as u32));
    }
    month
}

fn month_with(days: &[u32]) -> Month {
    let mut month = Month::new();
    for day in days {
        month.days[(*day - 1) as usize] = Some(Day::new(*day));
    }
    month
}

fn day_numbers(full: &[Day]) -> Vec<u32> {
    full.iter().map(|day| day.idx - 99).collect()
}

#[test]
fn daily_gives_up_nothing() {
    assert_eq!(apply_policy(MonthPolicy::Daily, &full_month()), vec![]);
}

#[test]
fn weekly_gives_up_the_days_between_its_anchors() {
    let removed = apply_policy(MonthPolicy::Weekly, &full_month());
    let expected: Vec<u32> = vec![
        2, 3, 4, 5, 6, 7, 9, 10, 11, 12, 13, 14, 16, 17, 18, 19, 20, 21, 23, 24, 25, 26, 27, 28,
    ];
    assert_eq!(day_numbers(&removed), expected);
}

#[test]
fn bimonthly_gives_up_the_second_to_the_fourteenth() {
    let removed = apply_policy(MonthPolicy::BiMonthly, &full_month());
    assert_eq!(day_numbers(&removed), (2..=14).collect::<Vec<u32>>());
}

#[test]
fn first_gives_up_nothing() {
    assert_eq!(apply_policy(MonthPolicy::First, &full_month()), vec![]);
}

#[test]
fn days_after_the_last_anchor_are_left_alone() {
    let month = month_with(&[16, 17, 30, 31]);
    assert_eq!(apply_policy(MonthPolicy::BiMonthly, &month), vec![]);
    let month = month_with(&[30, 31]);
    assert_eq!(apply_policy(MonthPolicy::Weekly, &month), vec![]);
    let month = month_with(&[2, 31]);
    assert_eq!(apply_policy(MonthPolicy::First, &month), vec![]);
}

#[test]
fn anchors_are_never_given_up() {
    let month = month_with(&[1, 8, 15, 22, 29]);
    assert_eq!(apply_policy(MonthPolicy::Weekly, &month), vec![]);
    let month = month_with(&[1, 15]);
    assert_eq!(apply_policy(MonthPolicy::BiMonthly, &month), vec![]);
    let month = month_with(&[1]);
    assert_eq!(apply_policy(MonthPolicy::First, &month), vec![]);
}

#[test]
fn empty_slots_are_passed_over() {
    let month = month_with(&[3, 7, 20]);
    assert_eq!(apply_policy(MonthPolicy::Weekly, &month), vec![Day::new(3), Day::new(7), Day::new(20)]);
    assert_eq!(apply_policy(MonthPolicy::BiMonthly, &month), vec![Day::new(3), Day::new(7)]);
    assert_eq!(apply_policy(MonthPolicy::Daily, &Month::new()), vec![]);
    assert_eq!(apply_policy(MonthPolicy::Weekly, &Month::new()), vec![]);
}

#[test]
fn the_slot_is_handed_back_as_it_stands() {
    let mut month = Month::new();
    month.days[4] = Some(Day::new(4_000_000_000));
    assert_eq!(apply_policy(MonthPolicy::Weekly, &month), vec![Day::new(4_000_000_000)]);
}

#[test]
fn keep_days_walks_against_any_list() {
    let removed = keep_days(&full_month(), &[3, 5]);
    assert_eq!(day_numbers(&removed), vec![1, 2, 4]);
    let removed = keep_days(&full_month(), &[31]);
    assert_eq!(day_numbers(&removed), (1..=30).collect::<Vec<u32>>());
}

#[test]
fn keep_days_with_no_anchor_gives_up_nothing() {
    assert_eq!(keep_days(&full_month(), &[]), vec![]);
}

#[test]
fn keep_days_waits_for_an_anchor_that_never_comes() {
    // The walk waits for the day 40, so every day after the 1st is given up.
    let removed = keep_days(&full_month(), &[1, 40]);
    assert_eq!(day_numbers(&removed), (2..=31).collect::<Vec<u32>>());
    // It waits for the day 0 from the start.
    let removed = keep_days(&full_month(), &[0, 1]);
    assert_eq!(day_numbers(&removed), (1..=31).collect::<Vec<u32>>());
}

#[test]
fn keep_days_takes_the_anchors_in_the_order_of_the_list() {
    // After the 15th the walk waits for the 1st, which is past.
    let removed = keep_days(&full_month(), &[15, 1]);
    let mut expected: Vec<u32> = (1..=14).collect();
    expected.extend(16..=31);
    assert_eq!(day_numbers(&removed), expected);
}

#[test]
fn keep_days_takes_every_day_as_an_anchor() {
    let keep: Vec<u32> = (1..=31).collect();
    assert_eq!(keep_days(&full_month(), &keep), vec![]);
}
