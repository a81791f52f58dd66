//! From what a store lists to the backups in it.
//!
//! A store is asked for its entries by the caller. What it answers comes
//! here as plain values: the lines of a file that lists names, or the
//! entries of a folder with the mark that more are to come.

use crate::backup::{backups_among, backups_from_names, Backup};
use vstd::prelude::*;
use vstd::string::StringExecFns;

verus! {

/// Why the backups of a store could not be read.
#[derive(Debug)]
pub struct BackupReadError(pub String);

impl View for BackupReadError {
    type V = Seq<char>;

    open spec fn view(&self) -> Seq<char> {
        self.0@
    }
}

impl From<String> for BackupReadError {
    fn from(s: String) -> (error: BackupReadError) {
        BackupReadError(s)
    }
}

impl vstd::std_specs::convert::FromSpecImpl<String> for BackupReadError {
    open spec fn obeys_from_spec() -> bool {
        true
    }

    open spec fn from_spec(s: String) -> BackupReadError {
        BackupReadError(s)
    }
}

impl BackupReadError {
    /// The error as a line for the user.
    pub fn message(&self) -> (line: String)
        ensures
            line@ == "backup read: "@ + self@,
    {
        String::from_str("backup read: ").concat(self.0.as_str())
    }
}

/// One entry of a folder's listing, as far as the backups are concerned: a
/// file has a name that may be a backup's, anything else is passed over.
#[derive(Debug)]
pub enum ListingEntry {
    File(String),
    Other,
}

/// The names of the files among the entries of a listing, in its order.
pub open spec fn file_names(entries: Seq<ListingEntry>) -> Seq<Seq<char>>
    decreases entries.len(),
{
    if entries.len() == 0 {
        Seq::empty()
    } else {
        let before = file_names(entries.drop_last());
        match entries.last() {
            ListingEntry::File(name) => before.push(name@),
            ListingEntry::Other => before,
        }
    }
}

/// Reads the backups out of the listing of a folder.
///
/// A listing that is marked as having more entries than it holds is
/// refused: pruning on a part of the backups would keep the wrong ones.
/// Of a whole listing the files whose names start with a date are the
/// backups.
pub fn backups_from_listing(entries: &Vec<ListingEntry>, has_more: bool) -> (read: Result<
    Vec<Backup>,
    BackupReadError,
>)
    ensures
        match read {
            Ok(backups) => !has_more && backups.deep_view() == backups_among(
                file_names(entries@),
            ),
            Err(error) => has_more && error@ == "need to handle more values with cursor!"@,
        },
{
    if has_more {
        return Err(
            BackupReadError::from(String::from_str("need to handle more values with cursor!")),
        );
    }
    let mut names: Vec<String> = Vec::with_capacity(entries.len());
    let mut i: usize = 0;
    while i < entries.len()
        invariant
            i <= entries@.len(),
            names.deep_view() == file_names(entries@.take(i as int)),
        decreases entries@.len() - i,
    {
        let ghost before = names.deep_view();
        assert(entries@.take(i + 1).drop_last() == entries@.take(i as int));
        if let ListingEntry::File(name) = &entries[i] {
            names.push(name.clone());
            assert(names.deep_view() == before.push(name@));
        }
        i += 1;
    }
    assert(entries@.take(entries@.len() as int) == entries@);
    Ok(backups_from_names(&names))
}

/// Whether a character is white space, as `char::is_whitespace` tells it:
/// by the property `White_Space` of Unicode.
pub uninterp spec fn is_whitespace(c: char) -> bool;

/// A text without the white space at its start.
pub open spec fn trim_start(text: Seq<char>) -> Seq<char>
    decreases text.len(),
{
    if text.len() > 0 && is_whitespace(text.first()) {
        trim_start(text.drop_first())
    } else {
        text
    }
}

/// A text without the white space at its end.
pub open spec fn trim_end(text: Seq<char>) -> Seq<char>
    decreases text.len(),
{
    if text.len() > 0 && is_whitespace(text.last()) {
        trim_end(text.drop_last())
    } else {
        text
    }
}

/// A text without the white space at its start and at its end.
pub open spec fn trimmed(text: Seq<char>) -> Seq<char> {
    trim_end(trim_start(text))
}

/// Calls `str::trim`, which returns the text without its leading and
/// trailing white space, white space being what `char::is_whitespace`
/// tells. The contract says so over [`is_whitespace`].
#[verifier::external_body]
fn trim(text: &str) -> (inner: &str)
    ensures
        inner@ == trimmed(text@),
        inner@.len() > 0 ==> !is_whitespace(inner@.first()) && !is_whitespace(inner@.last()),
{
    text.trim()
}

/// Reads the backups out of the lines of a file that lists names, one to a
/// line. The white space around a name is no part of it. A line that does
/// not start with a date once it is trimmed, an empty one too, is passed
/// over.
pub fn backups_from_lines(lines: &Vec<String>) -> (backups: Vec<Backup>)
    ensures
        backups.deep_view() == backups_among(
            lines.deep_view().map_values(|line: Seq<char>| trimmed(line)),
        ),
{
    let ghost trim_line = |line: Seq<char>| trimmed(line);
    let mut names: Vec<String> = Vec::with_capacity(lines.len());
    let mut i: usize = 0;
    while i < lines.len()
        invariant
            i <= lines@.len(),
            trim_line == |line: Seq<char>| trimmed(line),
            names.deep_view() == lines.deep_view().take(i as int).map_values(trim_line),
        decreases lines@.len() - i,
    {
        let ghost before = names.deep_view();
        names.push(trim(lines[i].as_str()).to_owned());
        assert(names.deep_view() == before.push(trimmed(lines[i as int]@)));
        i += 1;
    }
    assert(lines.deep_view().take(lines@.len() as int) == lines.deep_view());
    backups_from_names(&names)
}

} // verus!
