//! Backups: a name and the date that it starts with.

use crate::date::{date_in_name, names_backup, Date};
use vstd::prelude::*;

verus! {

/// One backup of the list that is pruned.
#[derive(Debug)]
pub struct Backup {
    pub date: Date,
    pub name: String,
}

/// A backup as the contracts see it: its name is a sequence of characters.
pub struct BackupView {
    pub date: Date,
    pub name: Seq<char>,
}

impl View for Backup {
    type V = BackupView;

    open spec fn view(&self) -> BackupView {
        BackupView { date: self.date, name: self.name@ }
    }
}

impl DeepView for Backup {
    type V = BackupView;

    open spec fn deep_view(&self) -> BackupView {
        self@
    }
}

impl Clone for Backup {
    fn clone(&self) -> (copy: Backup)
        ensures
            copy@ == self@,
    {
        Backup { date: self.date, name: self.name.clone() }
    }
}

/// The dates of a list of backups, in its order.
pub open spec fn dates_of(backups: Seq<BackupView>) -> Seq<Date> {
    backups.map_values(|backup: BackupView| backup.date)
}

/// The backups among a list of names: the names that start with a date, in
/// the order of the list, each with its date.
pub open spec fn backups_among(names: Seq<Seq<char>>) -> Seq<BackupView> {
    names.filter(|name: Seq<char>| names_backup(name)).map_values(
        |name: Seq<char>| BackupView { date: date_in_name(name), name },
    )
}

/// Picks the backups out of a list of names and reads their dates. A name
/// that does not start with a date is passed over.
pub fn backups_from_names(names: &Vec<String>) -> (backups: Vec<Backup>)
    ensures
        backups.deep_view() == backups_among(names.deep_view()),
{
    let mut backups: Vec<Backup> = Vec::new();
    let mut i: usize = 0;
    while i < names.len()
        invariant
            i <= names.len(),
            backups.deep_view() == backups_among(names.deep_view().take(i as int)),
        decreases names.len() - i,
    {
        let ghost read = names.deep_view().take(i as int);
        let ghost before = backups.deep_view();
        if let Ok(date) = Date::parse(names[i].as_str()) {
            backups.push(Backup { date, name: names[i].clone() });
        }
        proof {
            let name = names[i as int]@;
            let is_backup = |name: Seq<char>| names_backup(name);
            let with_date = |name: Seq<char>| BackupView { date: date_in_name(name), name };
            assert(names.deep_view().take(i + 1) == read.push(name));
            read.lemma_filter_push(name, is_backup);
            if names_backup(name) {
                read.filter(is_backup).lemma_push_map_commute(with_date, name);
                assert(backups.deep_view() == before.push(with_date(name)));
            } else {
                assert(backups.deep_view() == before);
            }
        }
        i += 1;
    }
    assert(names.deep_view().take(names.len() as int) == names.deep_view());
    backups
}

} // verus!
