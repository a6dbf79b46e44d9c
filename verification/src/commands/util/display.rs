//! How the values of a photo record are put into words.
use crate::db::locations::FileLocation;
use crate::db::photos::misc::{PhotoEntryStatus, PID};
use crate::db::photos::records::PhotoRecord;
use vstd::prelude::*;

verus! {

/// What is shown of a photo record.
pub struct PhotoRecordForDisplay<'a> {
    pub pid: &'a PID,
    pub location: &'a FileLocation,
    pub status: &'a PhotoEntryStatus,
    pub selected: &'a bool,
}

impl<'a> PhotoRecordForDisplay<'a> {
    /// The part of a record that is shown.
    pub fn new(rec: &'a PhotoRecord) -> (shown: Self)
        ensures
            *shown.pid == rec.pid,
            *shown.location == rec.location,
            *shown.status == rec.status,
            *shown.selected == rec.selected,
    {
        PhotoRecordForDisplay {
            pid: &rec.pid,
            location: &rec.location,
            status: &rec.status,
            selected: &rec.selected,
        }
    }
}

/// The word for a selection mark.
pub fn display_bool(val: &bool) -> (word: &'static str)
    ensures
        word@ == (if *val {
            "Yes"@
        } else {
            "No"@
        }),
{
    if *val {
        "Yes"
    } else {
        "No"
    }
}

/// The word for a status.
pub fn display_status(status: &PhotoEntryStatus) -> (word: &'static str)
    ensures
        word@ == (match *status {
            PhotoEntryStatus::Committed => "committed"@,
            PhotoEntryStatus::Uncommitted => "untracked"@,
            PhotoEntryStatus::CommittedButModified => "modified"@,
            PhotoEntryStatus::CommittedButMissing => "missing"@,
        }),
{
    match status {
        PhotoEntryStatus::Committed => "committed",
        PhotoEntryStatus::Uncommitted => "untracked",
        PhotoEntryStatus::CommittedButModified => "modified",
        PhotoEntryStatus::CommittedButMissing => "missing",
    }
}

/// What is shown of a location: the name of the file.
pub fn display_location(loc: &FileLocation) -> (name: &[u8])
    ensures
        name@ == loc@.1,
{
    loc.filename.as_slice()
}

/// What is shown for a value that may be absent.
pub fn display_option(o: &Option<String>) -> (text: String)
    ensures
        text@ == (match *o {
            Some(s) => s@,
            None => "<NONE>"@,
        }),
{
    match o {
        Some(s) => s.clone(),
        None => "<NONE>".to_string(),
    }
}

/// The records with what is shown of each, in the order in which they come.
pub fn print_photos<'a>(records: &Vec<&'a PhotoRecord>) -> (shown: Vec<PhotoRecordForDisplay<'a>>)
    ensures
        shown@.len() == records@.len(),
        forall|i: int|
            0 <= i < records@.len() ==> {
                &&& *(#[trigger] shown@[i]).pid == records@[i].pid
                &&& *shown@[i].location == records@[i].location
                &&& *shown@[i].status == records@[i].status
                &&& *shown@[i].selected == records@[i].selected
            },
{
    let mut shown: Vec<PhotoRecordForDisplay<'a>> = Vec::new();
    let mut i: usize = 0;
    while i < records.len()
        invariant
            i <= records.len(),
            shown@.len() == i,
            forall|j: int|
                0 <= j < i ==> {
                    &&& *(#[trigger] shown@[j]).pid == records@[j].pid
                    &&& *shown@[j].location == records@[j].location
                    &&& *shown@[j].status == records@[j].status
                    &&& *shown@[j].selected == records@[j].selected
                },
        decreases records.len() - i,
    {
        shown.push(PhotoRecordForDisplay::new(records[i]));
        i += 1;
    }
    shown
}

} // verus!
