use butler::commands::commit::{selection, Commit, CommitError};
use butler::commands::fix::{Fix, FixError};
use butler::commands::list::List;
use butler::commands::logging::{verbosity, FlagError, Verbosity};
use butler::commands::util::display::{
    display_bool, display_location, display_option, display_status, print_photos,
};
use butler::db::helpers::table::{Table, TableRef};
use butler::db::locations::FileLocation;
use butler::db::photos::access::{pt_access, pt_access_mut};
use butler::db::photos::keys::PhotoQuery;
use butler::db::photos::misc::{PhotoEntryStatus, PhotoMetadata, PhotoOrientation, Timestamp};
use butler::db::photos::records::LocalPhoto;
use butler::db::photos::table::PhotoTable;

const NOW: Timestamp = Timestamp { secs: 1_700_000_000, nanos: 0 };
const LATER: Timestamp = Timestamp { secs: 1_700_000_100, nanos: 0 };

fn meta(etime: Option<i64>) -> PhotoMetadata {
    PhotoMetadata {
        ctime: Timestamp { secs: 1, nanos: 0 },
        mtime: Timestamp { secs: 2, nanos: 0 },
        file_length: 3,
        etime: etime.map(|secs| Timestamp { secs, nanos: 0 }),
        width: 40,
        height: 30,
        orientation: PhotoOrientation::D0,
    }
}

fn loc(mpid: u128, name: &str) -> FileLocation {
    FileLocation { mpid, filename: name.as_bytes().to_vec() }
}

fn table() -> PhotoTable {
    let mut table = PhotoTable::new();
    let mut access = pt_access_mut(&mut table);
    for (mpid, name, etime) in [(1u128, "a.jpg", None), (2, "b.jpg", Some(50)), (1, "c.jpg", Some(60))] {
        let mut photo = LocalPhoto::new(loc(mpid, name), meta(etime));
        photo.file_hash = Some(9);
        assert!(access.insert_lphoto(photo).is_some());
    }
    access.mark_saved();
    table
}

#[test]
fn the_selection_flags_are_read() {
    assert_eq!(selection(true, false), Ok(Some(true)));
    assert_eq!(selection(false, true), Ok(Some(false)));
    assert_eq!(selection(false, false), Ok(None));
    assert_eq!(selection(true, true), Err(CommitError::ConflictingSelection));
}

#[test]
fn a_commit_vets_the_photos_that_are_named() {
    let mut table = table();
    let mut access = pt_access_mut(&mut table);
    let commit = Commit {
        queries: vec![PhotoQuery::PID(0), PhotoQuery::FileLocation(loc(2, "b.jpg")), PhotoQuery::PID(9), PhotoQuery::PID(0)],
        select: true,
        unselect: false,
        quiet: true,
    };
    assert_eq!(commit.run_at(&mut access, NOW), Ok(()));
    for pid in [0u32, 1] {
        let rec = table.get(&pid).unwrap();
        assert_eq!(rec.status, PhotoEntryStatus::Committed);
        assert!(rec.selected);
        assert_eq!(rec.commit_time, Some(NOW));
    }
    let rest = table.get(&2).unwrap();
    assert_eq!(rest.status, PhotoEntryStatus::Uncommitted);
    assert!(!rest.selected);
    assert!(table.is_modified());

    let mut access = pt_access_mut(&mut table);
    let again = Commit { queries: vec![PhotoQuery::PID(0)], select: false, unselect: false, quiet: false };
    assert_eq!(again.run_at(&mut access, LATER), Ok(()));
    let unselect = Commit { queries: vec![PhotoQuery::PID(1)], select: false, unselect: true, quiet: false };
    assert_eq!(unselect.run_at(&mut access, LATER), Ok(()));
    assert_eq!(table.get(&0).unwrap().commit_time, Some(NOW));
    assert!(table.get(&0).unwrap().selected);
    assert!(!table.get(&1).unwrap().selected);
    assert_eq!(table.index().count_selected(), 1);
}

#[test]
fn conflicting_flags_are_refused_before_anything_changes() {
    let mut table = table();
    let mut access = pt_access_mut(&mut table);
    let commit = Commit { queries: vec![PhotoQuery::PID(0)], select: true, unselect: true, quiet: false };
    assert_eq!(commit.run(&mut access), Err(CommitError::ConflictingSelection));
    assert_eq!(table.get(&0).unwrap().status, PhotoEntryStatus::Uncommitted);
    assert!(!table.is_modified());
}

#[test]
fn a_commit_at_the_time_of_the_clock_stamps_it() {
    let mut table = table();
    let mut access = pt_access_mut(&mut table);
    let commit = Commit { queries: vec![PhotoQuery::PID(2)], select: false, unselect: false, quiet: false };
    assert_eq!(commit.run(&mut access), Ok(()));
    assert!(table.get(&2).unwrap().commit_time.unwrap().secs > 1_600_000_000);
}

#[test]
fn a_fix_hands_a_capture_time_over() {
    let mut table = table();
    let mut access = pt_access_mut(&mut table);
    let fix = Fix { dst: PhotoQuery::PID(1), src: PhotoQuery::PID(0) };
    assert_eq!(fix.run_at(&mut access, NOW), Ok(true));
    assert_eq!(access.table.get(&0).unwrap().metadata, meta(Some(50)));
    assert!(access.table.is_modified());
    access.mark_saved();
    let again = Fix { dst: PhotoQuery::PID(2), src: PhotoQuery::FileLocation(loc(1, "a.jpg")) };
    assert_eq!(again.run(&mut access), Ok(false));
    assert_eq!(access.table.get(&0).unwrap().metadata, meta(Some(50)));
    assert!(!access.table.is_modified());
    let nowhere = Fix { dst: PhotoQuery::PID(7), src: PhotoQuery::PID(0) };
    assert_eq!(nowhere.run_at(&mut access, NOW), Err(FixError::NotFound));
    let nothing = Fix { dst: PhotoQuery::PID(1), src: PhotoQuery::PID(7) };
    assert_eq!(nothing.run_at(&mut access, NOW), Err(FixError::NotFound));
    let mut rec = butler::db::photos::records::PhotoRecord::new(5, {
        let mut p = LocalPhoto::new(loc(1, "x"), meta(None));
        p.file_hash = Some(1);
        p
    });
    assert!(rec.fix_metadata_from(&meta(Some(8))));
    assert!(!rec.fix_metadata_from(&meta(Some(9))));
    assert_eq!(rec.metadata, meta(Some(8)));
    assert!(!rec.handle_local_missing());
}

#[test]
fn the_list_shows_all_photos_or_those_of_one_mount_point() {
    let table = table();
    let access = pt_access(&table);
    let pids = |mpid| List { mpid }.run(&access).iter().map(|rec| rec.pid).collect::<Vec<_>>();
    assert_eq!(pids(None), vec![0, 1, 2]);
    assert_eq!(pids(Some(1)), vec![0, 2]);
    assert_eq!(pids(Some(2)), vec![1]);
    assert_eq!(pids(Some(3)), Vec::<u32>::new());
    assert_eq!(access.records().len(), 3);
}

#[test]
fn the_values_of_a_record_are_put_into_words() {
    assert_eq!(display_bool(&true), "Yes");
    assert_eq!(display_bool(&false), "No");
    assert_eq!(display_status(&PhotoEntryStatus::Committed), "committed");
    assert_eq!(display_status(&PhotoEntryStatus::Uncommitted), "untracked");
    assert_eq!(display_status(&PhotoEntryStatus::CommittedButModified), "modified");
    assert_eq!(display_status(&PhotoEntryStatus::CommittedButMissing), "missing");
    assert_eq!(display_option(&Some("x".to_string())), "x");
    assert_eq!(display_option(&None), "<NONE>");
    assert_eq!(display_location(&loc(1, "a.jpg")), b"a.jpg");
    let table = table();
    let records = table.records();
    let shown = print_photos(&records);
    assert_eq!(shown.len(), 3);
    assert_eq!(*shown[1].pid, 1);
    assert_eq!(shown[1].location.filename, b"b.jpg".to_vec());
    assert_eq!(*shown[1].status, PhotoEntryStatus::Uncommitted);
    assert!(!*shown[1].selected);
}

#[test]
fn the_flags_set_the_verbosity() {
    assert_eq!(verbosity(0, 0), Ok(Verbosity::Info));
    assert_eq!(verbosity(1, 0), Ok(Verbosity::Debug));
    assert_eq!(verbosity(2, 0), Ok(Verbosity::Trace));
    assert_eq!(verbosity(9, 0), Ok(Verbosity::Trace));
    assert_eq!(verbosity(0, 1), Ok(Verbosity::Warn));
    assert_eq!(verbosity(0, 2), Ok(Verbosity::Error));
    assert_eq!(verbosity(0, 3), Ok(Verbosity::Off));
    assert_eq!(verbosity(0, 4), Ok(Verbosity::Off));
    assert_eq!(verbosity(1, 1), Err(FlagError::QuietAndVerbose));
}

#[test]
fn a_table_is_held_for_reading_or_for_changing() {
    let mut table = table();
    assert!(!TableRef::Shared(&table).is_exclusive());
    assert!(TableRef::Exclusive(&mut table).is_exclusive());
}

#[test]
fn a_commit_that_changes_nothing_leaves_the_table_as_saved() {
    let mut table = table();
    let mut access = pt_access_mut(&mut table);
    let first = Commit { queries: vec![PhotoQuery::PID(0)], select: true, unselect: false, quiet: false };
    assert_eq!(first.run_at(&mut access, NOW), Ok(()));
    assert!(access.table.is_modified());
    access.mark_saved();
    let second = Commit { queries: vec![PhotoQuery::PID(0)], select: true, unselect: false, quiet: false };
    assert_eq!(second.run_at(&mut access, LATER), Ok(()));
    assert!(!access.table.is_modified());
    let nowhere = Commit { queries: vec![PhotoQuery::PID(8)], select: false, unselect: false, quiet: false };
    assert_eq!(nowhere.run_at(&mut access, LATER), Ok(()));
    assert!(!access.table.is_modified());
    let other = Commit { queries: vec![PhotoQuery::PID(0)], select: false, unselect: true, quiet: false };
    assert_eq!(other.run_at(&mut access, LATER), Ok(()));
    assert!(access.table.is_modified());
    assert_eq!(access.table.get(&0).unwrap().commit_time, Some(NOW));
}

#[test]
fn a_fix_that_finds_nothing_to_fix_leaves_the_record_alone() {
    let mut table = table();
    let mut access = pt_access_mut(&mut table);
    let commit = Commit { queries: vec![PhotoQuery::PID(1)], select: true, unselect: false, quiet: true };
    assert_eq!(commit.run_at(&mut access, NOW), Ok(()));
    let mut gone = access.entry(1u32).modify().ok().unwrap();
    gone.mark_missing();
    gone.commit_at(NOW);
    assert_eq!(access.table.get(&1).unwrap().status, PhotoEntryStatus::CommittedButMissing);
    access.mark_saved();
    let fix = Fix { dst: PhotoQuery::PID(2), src: PhotoQuery::PID(1) };
    assert_eq!(fix.run_at(&mut access, LATER), Ok(false));
    let rec = access.table.get(&1).unwrap();
    assert_eq!(rec.status, PhotoEntryStatus::CommittedButMissing);
    assert_eq!(rec.commit_time, Some(NOW));
    assert_eq!(rec.metadata, meta(Some(50)));
    assert!(!access.table.is_modified());
}
