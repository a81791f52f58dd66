use backup_prune::backup::{backups_from_names, Backup};
use backup_prune::date::Date;
use backup_prune::read::{backups_from_lines, backups_from_listing, BackupReadError, ListingEntry};

fn pairs(backups: &[Backup]) -> Vec<(Date, &str)> {
    backups.iter().map(|backup| (backup.date, backup.name.as_str())).collect()
}

fn strings(names: &[&str]) -> Vec<String> {
    names.iter().map(|name| name.to_string()).collect()
}

#[test]
fn names_with_a_date_are_backups() {
    let backups = backups_from_names(&strings(&[
        "20230101.tar.gz",
        "README.md",
        "20221231.tar.gz",
        "",
        "2023010.tar.gz",
        "20230101.tar.gz",
    ]));
    assert_eq!(
        pairs(&backups),
        vec![
            (Date::new(2023, 1, 1), "20230101.tar.gz"),
            (Date::new(2022, 12, 31), "20221231.tar.gz"),
            (Date::new(2023, 1, 1), "20230101.tar.gz"),
        ]
    );
}

#[test]
fn no_names_no_backups() {
    assert!(backups_from_names(&vec![]).is_empty());
    assert!(backups_from_names(&strings(&["README.md", "lost+found"])).is_empty());
}

#[test]
fn a_backup_clones_with_its_name() {
    let backups = backups_from_names(&strings(&["20230101.tar.gz"]));
    let copy = backups[0].clone();
    assert_eq!(copy.date, Date::new(2023, 1, 1));
    assert_eq!(copy.name, "20230101.tar.gz");
}

#[test]
fn lines_are_trimmed_before_they_are_read() {
    let backups = backups_from_lines(&strings(&[
        "  20230101.tar.gz",
        "20230102.tar.gz \t",
        "\u{3000}20230103.tar.gz\u{a0}\r",
        "20230104 tar.gz",
    ]));
    assert_eq!(
        pairs(&backups),
        vec![
            (Date::new(2023, 1, 1), "20230101.tar.gz"),
            (Date::new(2023, 1, 2), "20230102.tar.gz"),
            (Date::new(2023, 1, 3), "20230103.tar.gz"),
            (Date::new(2023, 1, 4), "20230104 tar.gz"),
        ]
    );
}

#[test]
fn a_line_too_short_once_trimmed_is_passed_over() {
    let backups = backups_from_lines(&strings(&["20230101.t   ", "   20230101", "20230101.tg "]));
    assert_eq!(pairs(&backups), vec![(Date::new(2023, 1, 1), "20230101.tg")]);
}

#[test]
fn empty_and_blank_lines_are_passed_over() {
    let backups = backups_from_lines(&strings(&["", "   ", "\t", "20230101.tar.gz", ""]));
    assert_eq!(pairs(&backups), vec![(Date::new(2023, 1, 1), "20230101.tar.gz")]);
}

#[test]
fn files_of_a_listing_are_read() {
    let entries = vec![
        ListingEntry::File("20230101.tar.gz".to_string()),
        ListingEntry::Other,
        ListingEntry::File("README.md".to_string()),
        ListingEntry::File("20230102.tar.gz".to_string()),
    ];
    let backups = backups_from_listing(&entries, false).unwrap();
    assert_eq!(
        pairs(&backups),
        vec![
            (Date::new(2023, 1, 1), "20230101.tar.gz"),
            (Date::new(2023, 1, 2), "20230102.tar.gz"),
        ]
    );
}

#[test]
fn names_of_a_listing_are_not_trimmed() {
    let entries = vec![ListingEntry::File(" 20230101.tar.gz".to_string())];
    assert!(backups_from_listing(&entries, false).unwrap().is_empty());
}

#[test]
fn a_listing_with_more_to_come_is_refused() {
    let entries = vec![ListingEntry::File("20230101.tar.gz".to_string())];
    let error = backups_from_listing(&entries, true).unwrap_err();
    assert_eq!(error.0, "need to handle more values with cursor!");
    assert_eq!(error.message(), "backup read: need to handle more values with cursor!");
    assert!(backups_from_listing(&vec![], true).is_err());
}

#[test]
fn an_empty_listing_has_no_backups() {
    assert!(backups_from_listing(&vec![], false).unwrap().is_empty());
}

#[test]
fn a_read_error_is_made_of_its_text() {
    let error = BackupReadError::from("open: no such file".to_string());
    assert_eq!(error.0, "open: no such file");
    assert_eq!(error.message(), "backup read: open: no such file");
}
