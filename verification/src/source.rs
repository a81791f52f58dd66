//! Where the backups are listed.

use vstd::prelude::*;

verus! {

/// The kind of store that lists the backups.
#[derive(Debug, Clone, Copy, PartialEq, Eq, Structural)]
pub enum ReadFrom {
    Dropbox,
    Filesystem,
}

/// Says that a word names no kind of store.
#[derive(Debug, Clone, Copy, PartialEq, Eq, Structural)]
pub struct InvalidReadFrom;

/// The kind of store that a word names: `dropbox` or `dbx` the one,
/// `filesystem` or `fs` the other, and no other word any.
pub open spec fn store_named(word: Seq<char>) -> Option<ReadFrom> {
    if word == "dropbox"@ || word == "dbx"@ {
        Some(ReadFrom::Dropbox)
    } else if word == "filesystem"@ || word == "fs"@ {
        Some(ReadFrom::Filesystem)
    } else {
        None
    }
}

/// Whether two texts are the same.
fn same_text(a: &str, b: &str) -> (same: bool)
    ensures
        same == (a@ == b@),
{
    a.to_owned() == b.to_owned()
}

impl ReadFrom {
    /// Reads the kind of store off a word of the command line.
    pub fn parse(word: &str) -> (parsed: Result<ReadFrom, InvalidReadFrom>)
        ensures
            parsed.ok() == store_named(word@),
    {
        if same_text(word, "dropbox") || same_text(word, "dbx") {
            Ok(ReadFrom::Dropbox)
        } else if same_text(word, "filesystem") || same_text(word, "fs") {
            Ok(ReadFrom::Filesystem)
        } else {
            Err(InvalidReadFrom)
        }
    }
}

impl std::str::FromStr for ReadFrom {
    type Err = InvalidReadFrom;

    fn from_str(word: &str) -> (parsed: Result<ReadFrom, InvalidReadFrom>)
        ensures
            parsed.ok() == store_named(word@),
    {
        ReadFrom::parse(word)
    }
}

impl InvalidReadFrom {
    /// The error as a line for the user.
    pub fn message(&self) -> (line: String)
        ensures
            line@ == "invalid read from"@,
    {
        "invalid read from".to_owned()
    }
}

} // verus!
