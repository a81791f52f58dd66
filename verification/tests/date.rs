use backup_prune::date::{Date, NotBackup};

#[test]
fn parses_the_date_of_a_name() {
    assert_eq!(Date::parse("20230115.tar.gz"), Ok(Date::new(2023, 1, 15)));
}

#[test]
fn new_keeps_its_parts() {
    let date = Date::new(1999, 12, 31);
    assert_eq!(date.year, 1999);
    assert_eq!(date.month, 12);
    assert_eq!(date.day, 31);
}

#[test]
fn parse_reads_four_two_and_two_digits() {
    assert_eq!(Date::parse("00010203abc"), Ok(Date::new(1, 2, 3)));
    assert_eq!(Date::parse("98765432xyz"), Ok(Date::new(9876, 54, 32)));
}

#[test]
fn short_name_is_no_backup() {
    assert_eq!(Date::parse(""), Err(NotBackup));
    assert_eq!(Date::parse("20230115"), Err(NotBackup));
    assert_eq!(Date::parse("20230115.t"), Err(NotBackup));
}

#[test]
fn eleven_characters_are_enough() {
    assert_eq!(Date::parse("20230115.tg"), Ok(Date::new(2023, 1, 15)));
}

#[test]
fn length_counts_characters() {
    // Eight digits and two letters of three bytes each: ten characters.
    assert_eq!(Date::parse("20230115\u{20ac}\u{20ac}"), Err(NotBackup));
    assert_eq!(Date::parse("20230115\u{20ac}\u{20ac}\u{20ac}"), Ok(Date::new(2023, 1, 15)));
}

#[test]
fn anything_but_a_digit_among_the_first_eight_is_no_backup() {
    assert_eq!(Date::parse("README.md.tar.gz"), Err(NotBackup));
    assert_eq!(Date::parse("2023011x.tar.gz"), Err(NotBackup));
    assert_eq!(Date::parse("x0230115.tar.gz"), Err(NotBackup));
    assert_eq!(Date::parse("2023-01-15.tar.gz"), Err(NotBackup));
    assert_eq!(Date::parse("2023 115.tar.gz"), Err(NotBackup));
}

#[test]
fn a_sign_is_no_digit() {
    assert_eq!(Date::parse("+2230115.tar.gz"), Err(NotBackup));
    assert_eq!(Date::parse("2023+115.tar.gz"), Err(NotBackup));
    assert_eq!(Date::parse("202301+5.tar.gz"), Err(NotBackup));
}

#[test]
fn digits_of_other_scripts_are_no_digits() {
    assert_eq!(Date::parse("\u{0662}0230115.tar.gz"), Err(NotBackup));
}

#[test]
fn month_and_day_are_not_held_to_a_range() {
    assert_eq!(Date::parse("20231399.tar.gz"), Ok(Date::new(2023, 13, 99)));
    assert_eq!(Date::parse("20230000.tar.gz"), Ok(Date::new(2023, 0, 0)));
    assert_eq!(Date::parse("20230231.tar.gz"), Ok(Date::new(2023, 2, 31)));
}

#[test]
fn what_follows_the_date_is_free() {
    assert_eq!(Date::parse("20230115-notes.txt"), Ok(Date::new(2023, 1, 15)));
    assert_eq!(Date::parse("20230115999"), Ok(Date::new(2023, 1, 15)));
}

#[test]
fn from_str_parses_as_parse_does() {
    assert_eq!("20230115.tar.gz".parse::<Date>(), Ok(Date::new(2023, 1, 15)));
    assert_eq!("README.md".parse::<Date>(), Err(NotBackup));
}

#[test]
fn calendar_range_of_a_date() {
    assert!(Date::new(2023, 1, 1).is_in_calendar());
    assert!(Date::new(2023, 12, 31).is_in_calendar());
    assert!(Date::new(2023, 2, 31).is_in_calendar());
    assert!(!Date::new(2023, 0, 1).is_in_calendar());
    assert!(!Date::new(2023, 13, 1).is_in_calendar());
    assert!(!Date::new(2023, 1, 0).is_in_calendar());
    assert!(!Date::new(2023, 1, 32).is_in_calendar());
}

#[test]
fn dates_are_ordered_by_year_month_and_day() {
    assert!(Date::new(2022, 12, 31) < Date::new(2023, 1, 1));
    assert!(Date::new(2023, 1, 31) < Date::new(2023, 2, 1));
    assert!(Date::new(2023, 2, 1) < Date::new(2023, 2, 2));
    assert!(Date::new(2023, 2, 2) > Date::new(2023, 2, 1));
    assert!(Date::new(2023, 2, 2) <= Date::new(2023, 2, 2));
    assert!(Date::new(2023, 2, 2) >= Date::new(2023, 2, 2));
    assert!(!(Date::new(2023, 2, 2) < Date::new(2023, 2, 2)));
    assert_eq!(
        Date::new(2023, 2, 2).partial_cmp(&Date::new(2023, 2, 2)),
        Some(std::cmp::Ordering::Equal)
    );
    assert_eq!(
        Date::new(2023, 12, 1).partial_cmp(&Date::new(2023, 2, 28)),
        Some(std::cmp::Ordering::Greater)
    );
    assert_eq!(
        Date::new(1, 12, 31).partial_cmp(&Date::new(2, 1, 1)),
        Some(std::cmp::Ordering::Less)
    );
}
