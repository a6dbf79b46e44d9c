use butler::commands::index::listing::{FoundEntry, MountPointScanner};
use butler::commands::index::scanner::Scanner;
use butler::db::helpers::table::Table;
use butler::db::locations::{CanonicalizedPath, FileLocation};
use butler::db::mounts::access::mpt_access;
use butler::db::mounts::table::MountPointTable;
use butler::db::photos::access::{pt_access, pt_access_mut};
use butler::db::photos::misc::{PhotoEntryStatus, PhotoMetadata, PhotoOrientation, Timestamp};
use butler::db::photos::records::{hash_content, LocalPhoto, PhotoRecord, SyncError};
use butler::db::photos::synchronizer::{
    DBStub, LocalSyncer, Stage, Stub, Syncer, SyncerQuery, SyncerTarget, SyncerTargetCollection,
};
use butler::db::photos::table::PhotoTable;
use butler::util::persist::TableIO;

const NOW: Timestamp = Timestamp { secs: 1_700_000_000, nanos: 0 };
const LATER: Timestamp = Timestamp { secs: 1_700_000_100, nanos: 0 };
const M: u128 = 7;

fn meta(mtime: i64, len: u64) -> PhotoMetadata {
    PhotoMetadata {
        ctime: Timestamp { secs: 1, nanos: 0 },
        mtime: Timestamp { secs: mtime, nanos: 0 },
        file_length: len,
        etime: None,
        width: 40,
        height: 30,
        orientation: PhotoOrientation::D0,
    }
}

fn file(name: &str, mtime: i64, content: &[u8]) -> LocalPhoto {
    let mut photo = LocalPhoto::new(
        FileLocation { mpid: M, filename: name.as_bytes().to_vec() },
        meta(mtime, content.len() as u64),
    );
    photo.prefetch(content.to_vec());
    photo
}

fn hashed(name: &str, mtime: i64, content: &[u8]) -> LocalPhoto {
    let mut photo = file(name, mtime, content);
    assert_eq!(photo.fill_file_hash(), Ok(()));
    photo
}

fn mounts() -> MountPointTable {
    let mut table = MountPointTable::new();
    assert!(table.add_or_modify_with_id(CanonicalizedPath::new(b"/m").unwrap(), None, M));
    table
}

fn scan(table: &mut PhotoTable, files: Vec<LocalPhoto>, now: Timestamp) -> Result<(), SyncError> {
    let mounts = mounts();
    let mounted = mpt_access(&mounts);
    let mut access = pt_access_mut(table);
    Scanner::new(&mut access, &mounted).run_at(files, now)
}

fn commit(table: &mut PhotoTable, pid: u32, selected: bool) {
    pt_access_mut(table)
        .entry(pid)
        .modify()
        .ok()
        .unwrap()
        .with_selected(selected)
        .with_status(PhotoEntryStatus::Committed)
        .commit_at(NOW);
}

fn same_record(a: &PhotoRecord, b: &PhotoRecord) -> bool {
    a.pid == b.pid
        && a.location.same_as(&b.location)
        && a.file_hash == b.file_hash
        && a.metadata == b.metadata
        && a.selected == b.selected
        && a.status == b.status
        && a.commit_time == b.commit_time
}

fn same_table(a: &PhotoTable, b: &PhotoTable) -> bool {
    let (ra, rb) = (a.records(), b.records());
    a.peek_pid() == b.peek_pid()
        && ra.len() == rb.len()
        && ra.iter().zip(rb.iter()).all(|(x, y)| same_record(x, y))
}

#[test]
fn a_first_scan_records_every_file() {
    let mut table = PhotoTable::new();
    assert_eq!(scan(&mut table, vec![file("b.jpg", 5, b"bee"), file("a.jpg", 6, b"ay")], NOW), Ok(()));
    assert_eq!(table.pids(), vec![0, 1]);
    let first = table.get(&0).unwrap();
    assert_eq!(first.location.filename, b"b.jpg".to_vec());
    assert_eq!(first.file_hash, hash_content(b"bee"));
    assert_eq!(first.metadata, meta(5, 3));
    assert_eq!(first.status, PhotoEntryStatus::Uncommitted);
    assert!(!first.selected);
    assert_eq!(first.commit_time, None);
    assert_eq!(table.get(&1).unwrap().location.filename, b"a.jpg".to_vec());
    assert!(table.is_modified());
}

#[test]
fn a_second_scan_of_the_same_files_changes_nothing() {
    let files = || vec![file("a.jpg", 5, b"ay"), file("b.jpg", 6, b"bee"), file("c.jpg", 7, b"sea")];
    let mut table = PhotoTable::new();
    assert_eq!(scan(&mut table, files(), NOW), Ok(()));
    commit(&mut table, 0, true);
    commit(&mut table, 1, false);
    commit(&mut table, 2, true);
    let found = || vec![file("a.jpg", 9, b"ay"), file("b.jpg", 6, b"bee"), file("d.jpg", 1, b"dee")];
    assert_eq!(scan(&mut table, found(), LATER), Ok(()));
    let once = PhotoTable::restore(table.snapshot()).unwrap();
    pt_access_mut(&mut table).mark_saved();
    assert_eq!(scan(&mut table, found(), Timestamp { secs: LATER.secs + 50, nanos: 0 }), Ok(()));
    assert!(same_table(&table, &once));
    assert!(!table.is_modified());
    assert!(pt_access(&table).finalize(true).is_none());
    assert_eq!(table.pids(), vec![0, 1, 2, 3]);
    assert_eq!(table.get(&0).unwrap().status, PhotoEntryStatus::Committed);
    assert_eq!(table.get(&0).unwrap().metadata, meta(5, 2));
    assert_eq!(table.get(&2).unwrap().status, PhotoEntryStatus::CommittedButMissing);
    assert_eq!(table.get(&3).unwrap().status, PhotoEntryStatus::Uncommitted);
}

#[test]
fn a_second_scan_clears_the_flag_of_a_file_that_is_found_as_recorded() {
    let soon = Timestamp { secs: LATER.secs + 50, nanos: 0 };
    let mut table = PhotoTable::new();
    assert_eq!(scan(&mut table, vec![file("a.jpg", 5, b"ay"), file("b.jpg", 6, b"bee")], NOW), Ok(()));
    commit(&mut table, 0, true);
    commit(&mut table, 1, true);
    assert_eq!(scan(&mut table, vec![file("a.jpg", 9, b"ay!")], LATER), Ok(()));
    assert_eq!(table.get(&0).unwrap().status, PhotoEntryStatus::CommittedButModified);
    assert_eq!(table.get(&0).unwrap().commit_time, Some(NOW));
    assert_eq!(table.get(&1).unwrap().status, PhotoEntryStatus::CommittedButMissing);
    pt_access_mut(&mut table).mark_saved();

    let back = || vec![file("a.jpg", 9, b"ay!"), file("b.jpg", 6, b"bee")];
    assert_eq!(scan(&mut table, back(), soon), Ok(()));
    for pid in [0u32, 1] {
        let rec = table.get(&pid).unwrap();
        assert_eq!(rec.status, PhotoEntryStatus::Committed);
        assert_eq!(rec.commit_time, Some(soon));
        assert!(rec.selected);
    }
    assert_eq!(table.get(&0).unwrap().file_hash, hash_content(b"ay!"));
    assert_eq!(table.get(&0).unwrap().metadata, meta(9, 3));
    assert!(table.is_modified());
    assert_eq!(table.index().count_status(PhotoEntryStatus::Committed), 2);

    let twice = PhotoTable::restore(table.snapshot()).unwrap();
    pt_access_mut(&mut table).mark_saved();
    assert_eq!(scan(&mut table, back(), Timestamp { secs: soon.secs + 50, nanos: 0 }), Ok(()));
    assert!(same_table(&table, &twice));
    assert!(!table.is_modified());
}

#[test]
fn files_that_are_gone_are_marked_or_dropped() {
    let mut table = PhotoTable::new();
    assert_eq!(scan(&mut table, vec![file("a.jpg", 5, b"ay"), file("b.jpg", 6, b"bee")], NOW), Ok(()));
    commit(&mut table, 0, true);
    commit(&mut table, 1, false);
    assert_eq!(scan(&mut table, vec![], LATER), Ok(()));
    assert_eq!(table.pids(), vec![0]);
    let kept = table.get(&0).unwrap();
    assert_eq!(kept.status, PhotoEntryStatus::CommittedButMissing);
    assert!(kept.selected);
    assert_eq!(kept.commit_time, Some(NOW));
    assert_eq!(kept.file_hash, hash_content(b"ay"));
    assert!(table.pid_at(M, b"b.jpg").is_none());
    assert!(table.index().has_status(0, PhotoEntryStatus::CommittedButMissing));
    assert!(!table.index().has_status(1, PhotoEntryStatus::Committed));
    assert_eq!(table.index().count_status(PhotoEntryStatus::Committed), 0);
}

#[test]
fn a_selected_photo_that_was_never_vetted_stays_when_its_file_is_gone() {
    let mut table = PhotoTable::new();
    assert_eq!(scan(&mut table, vec![file("a.jpg", 5, b"ay")], NOW), Ok(()));
    pt_access_mut(&mut table).entry(0u32).modify().ok().unwrap().with_selected(true).commit_at(NOW);
    assert_eq!(scan(&mut table, vec![], LATER), Ok(()));
    assert_eq!(table.get(&0).unwrap().status, PhotoEntryStatus::Uncommitted);
}

#[test]
fn new_and_touched_files_are_told_apart() {
    let mut table = PhotoTable::new();
    assert_eq!(scan(&mut table, vec![file("b.jpg", 5, b"bee")], NOW), Ok(()));
    commit(&mut table, 0, true);
    let before = PhotoRecord::new(0, hashed("x", 0, b"")).status;
    assert_eq!(before, PhotoEntryStatus::Uncommitted);
    assert_eq!(scan(&mut table, vec![file("a.jpg", 8, b"ay"), file("b.jpg", 9, b"bee")], LATER), Ok(()));
    let a = table.get(&1).unwrap();
    assert_eq!(a.location.filename, b"a.jpg".to_vec());
    assert_eq!(a.status, PhotoEntryStatus::Uncommitted);
    assert_eq!(a.file_hash, hash_content(b"ay"));
    let b = table.get(&0).unwrap();
    assert_eq!(b.status, PhotoEntryStatus::Committed);
    assert_eq!(b.metadata, meta(5, 3));
    assert_eq!(b.file_hash, hash_content(b"bee"));
    assert_eq!(b.commit_time, Some(NOW));
}

#[test]
fn a_file_with_other_content_is_taken_over_and_flagged() {
    let mut table = PhotoTable::new();
    assert_eq!(scan(&mut table, vec![file("a.jpg", 5, b"ay"), file("b.jpg", 5, b"bee")], NOW), Ok(()));
    commit(&mut table, 0, false);
    assert_eq!(scan(&mut table, vec![file("a.jpg", 6, b"new"), file("b.jpg", 6, b"new")], LATER), Ok(()));
    let a = table.get(&0).unwrap();
    assert_eq!(a.status, PhotoEntryStatus::CommittedButModified);
    assert_eq!(a.file_hash, hash_content(b"new"));
    assert_eq!(a.metadata, meta(6, 3));
    let b = table.get(&1).unwrap();
    assert_eq!(b.status, PhotoEntryStatus::Uncommitted);
    assert_eq!(b.file_hash, hash_content(b"new"));
}

#[test]
fn content_is_only_needed_where_there_is_doubt() {
    let mut table = PhotoTable::new();
    assert_eq!(scan(&mut table, vec![file("a.jpg", 5, b"ay"), file("b.jpg", 5, b"bee")], NOW), Ok(()));
    let bare = |name: &str, mtime: i64, len: u64| {
        LocalPhoto::new(FileLocation { mpid: M, filename: name.as_bytes().to_vec() }, meta(mtime, len))
    };
    let files = vec![bare("a.jpg", 5, 2), bare("b.jpg", 6, 3), bare("c.jpg", 5, 3)];
    assert_eq!(Scanner::plan(&table, &files), vec![false, true, true]);
    assert_eq!(scan(&mut table, files, LATER), Err(SyncError::NotPrefetched));
    assert_eq!(table.pids(), vec![0, 1]);
    assert_eq!(scan(&mut table, vec![bare("a.jpg", 5, 2), bare("b.jpg", 5, 3)], LATER), Ok(()));
    let mut known = bare("b.jpg", 6, 3);
    known.file_hash = Some(hash_content(b"bee"));
    assert_eq!(Scanner::plan(&table, &vec![bare("a.jpg", 5, 2), known]), vec![false, false]);
}

#[test]
fn a_scan_with_an_error_changes_nothing() {
    let mut table = PhotoTable::new();
    assert_eq!(scan(&mut table, vec![file("a.jpg", 5, b"ay")], NOW), Ok(()));
    commit(&mut table, 0, true);
    let before = PhotoTable::restore(table.snapshot()).unwrap();
    pt_access_mut(&mut table).mark_saved();
    let twice = vec![file("b.jpg", 5, b"bee"), file("b.jpg", 5, b"bee")];
    assert_eq!(scan(&mut table, twice, LATER), Err(SyncError::DuplicateLocation));
    let mut stray = file("c.jpg", 5, b"sea");
    stray.location.mpid = M + 1;
    assert_eq!(scan(&mut table, vec![file("b.jpg", 5, b"bee"), stray], LATER), Err(SyncError::NotMounted));
    assert!(same_table(&table, &before));
    assert!(!table.is_modified());
}

#[test]
fn a_table_without_keys_takes_no_new_file() {
    let mut full = PhotoTable::new();
    let rec = PhotoRecord::new(3, hashed("z.jpg", 1, b"z"));
    let image = butler::db::photos::image::PhotoTableImage { counter: u32::MAX, records: vec![rec] };
    assert_eq!(full.load(Some(image)), Ok(()));
    assert_eq!(scan(&mut full, vec![file("z.jpg", 1, b"z"), file("a.jpg", 1, b"a")], NOW), Err(SyncError::KeysExhausted));
    assert_eq!(full.pids(), vec![3]);
    assert_eq!(scan(&mut full, vec![file("z.jpg", 1, b"z")], NOW), Ok(()));
}

#[test]
fn the_stages_follow_each_other() {
    let mut table = PhotoTable::new();
    assert_eq!(scan(&mut table, vec![file("a.jpg", 5, b"ay")], NOW), Ok(()));
    let mut stage = Stage::NotStarted;
    stage.next();
    assert_eq!(stage, Stage::Stage1);
    stage.next();
    stage.next();
    assert_eq!(stage, Stage::Finished);

    let syncer = LocalSyncer::new(file("a.jpg", 6, b"ay"));
    assert_eq!(syncer.stage, Stage::NotStarted);
    assert!(syncer.target_has_changed());
    let syncer = syncer.run_stage1(&pt_access(&table));
    assert_eq!(syncer.stage, Stage::Stage1);
    let stub = syncer.stub.unwrap();
    assert_eq!(
        stub,
        DBStub { pid: 0, file_hash: hash_content(b"ay"), status: PhotoEntryStatus::Uncommitted, local_has_changed: true }
    );
    assert!(stub.has_changed());
    let syncer = syncer.run_stage2().ok().unwrap();
    assert_eq!(syncer.stage, Stage::Stage2);
    assert!(!syncer.stub.unwrap().local_has_changed);
    assert!(!syncer.target_has_changed());
    assert_eq!(syncer.get_stub().map(|s| s.pid), Some(0));
    assert_eq!(syncer.get_query().file_hash, Some(hash_content(b"ay")));
    let mut access = pt_access_mut(&mut table);
    assert_eq!(syncer.run_finish_at(&mut access, LATER), Ok(0));
    assert_eq!(table.get(&0).unwrap().metadata, meta(5, 2));

    let fresh = LocalSyncer::new(file("n.jpg", 1, b"en")).run_stage1(&pt_access(&table));
    assert!(fresh.stub.is_none());
    let fresh = fresh.run_stage2().ok().unwrap();
    let mut access = pt_access_mut(&mut table);
    assert_eq!(fresh.run_finish(&mut access), Ok(1));
    assert_eq!(table.get(&1).unwrap().file_hash, hash_content(b"en"));
}

#[test]
fn the_parts_of_a_syncer_can_be_taken_out() {
    let mut syncer = LocalSyncer::new(file("a.jpg", 6, b"ay"));
    let stub = DBStub { pid: 4, file_hash: 9, status: PhotoEntryStatus::Committed, local_has_changed: false };
    syncer.replace_stub(stub);
    assert_eq!(syncer.take_stub(), Some(stub));
    assert_eq!(syncer.take_stub(), None);
    syncer.next_stage();
    assert_eq!(syncer.stage, Stage::Stage1);
    let mut query = syncer.take_query();
    assert_eq!(query.run_stage2(Some(DBStub { local_has_changed: true, file_hash: hash_content(b"ay"), ..stub })).ok().unwrap().unwrap().local_has_changed, false);
    let rec = PhotoRecord::new(2, hashed("a.jpg", 6, b""));
    assert!(rec.run_stage1(&file("a.jpg", 7, b"")).local_has_changed);
    assert!(!rec.run_stage1(&file("a.jpg", 6, b"")).local_has_changed);
    let mut table = PhotoTable::new();
    assert!(table.query_item(&query).is_none());
    assert_eq!(table.add_item(query), Some(0));
    assert!(table.query_item(&file("a.jpg", 0, b"")).is_some());
}

#[test]
fn photo_files_are_taken_in_their_physical_order() {
    let mounts = mounts();
    let scanner = MountPointScanner::new(mounts.get_by_mpid(M).unwrap());
    let entry = |name: &str, is_file: bool, ino: u64| FoundEntry { name: name.as_bytes().to_vec(), is_file, ino };
    let files = scanner.sorted_files(vec![
        entry("c.jpg", true, 30),
        entry("dir.jpg", false, 5),
        entry("a.JPEG", true, 20),
        entry("notes.txt", true, 1),
        entry("b.jpg", true, 20),
        entry("z.jpg", true, 10),
    ]);
    let names: Vec<&[u8]> = files.iter().map(|f| f.name.as_slice()).collect();
    assert_eq!(names, vec![&b"z.jpg"[..], b"a.JPEG", b"b.jpg", b"c.jpg"]);
    let photo = scanner.to_lphoto(&files[0], meta(1, 2));
    assert_eq!(photo.location.mpid, M);
    assert_eq!(photo.location.filename, b"z.jpg".to_vec());
    assert_eq!(photo.metadata, meta(1, 2));
    assert!(photo.file_hash.is_none());
}

#[test]
fn commit_times_go_with_the_status_through_scans() {
    let stamped = |table: &PhotoTable| {
        table
            .records()
            .iter()
            .all(|rec| rec.commit_time.is_some() == (rec.status != PhotoEntryStatus::Uncommitted))
    };
    let mut table = PhotoTable::new();
    let first = vec![file("a.jpg", 5, b"ay"), file("b.jpg", 6, b"bee"), file("c.jpg", 7, b"sea")];
    assert_eq!(scan(&mut table, first, NOW), Ok(()));
    assert!(stamped(&table));
    commit(&mut table, 0, true);
    commit(&mut table, 1, true);
    assert!(stamped(&table));
    let second = vec![file("a.jpg", 9, b"ay!"), file("c.jpg", 9, b"see"), file("d.jpg", 1, b"dee")];
    assert_eq!(scan(&mut table, second, LATER), Ok(()));
    assert!(stamped(&table));
    assert_eq!(table.pids(), vec![0, 1, 2, 3]);
    assert_eq!(table.get(&0).unwrap().status, PhotoEntryStatus::CommittedButModified);
    assert_eq!(table.get(&1).unwrap().status, PhotoEntryStatus::CommittedButMissing);
    assert_eq!(table.get(&2).unwrap().status, PhotoEntryStatus::Uncommitted);
    assert_eq!(table.get(&2).unwrap().file_hash, hash_content(b"see"));
    assert_eq!(table.get(&0).unwrap().commit_time, Some(NOW));
    let again = || vec![file("a.jpg", 9, b"ay!"), file("c.jpg", 9, b"see"), file("d.jpg", 1, b"dee")];
    assert_eq!(scan(&mut table, again(), Timestamp { secs: LATER.secs + 9, nanos: 0 }), Ok(()));
    assert!(stamped(&table));
    assert_eq!(table.get(&0).unwrap().status, PhotoEntryStatus::Committed);
    assert_eq!(table.get(&0).unwrap().commit_time, Some(Timestamp { secs: LATER.secs + 9, nanos: 0 }));
    let image = table.snapshot();
    assert_eq!(scan(&mut table, again(), Timestamp { secs: LATER.secs + 20, nanos: 0 }), Ok(()));
    let other = table.snapshot();
    assert_eq!(image.counter, other.counter);
    assert_eq!(image.records.len(), other.records.len());
    assert!(image.records.iter().zip(other.records.iter()).all(|(x, y)| same_record(x, y)));
}

#[test]
fn the_order_of_the_files_does_not_matter_to_the_old_records() {
    let start = || {
        let mut table = PhotoTable::new();
        let first = vec![file("a.jpg", 5, b"ay"), file("b.jpg", 6, b"bee"), file("c.jpg", 7, b"sea")];
        assert_eq!(scan(&mut table, first, NOW), Ok(()));
        commit(&mut table, 0, true);
        commit(&mut table, 2, false);
        table
    };
    let found = || vec![file("c.jpg", 8, b"see"), file("x.jpg", 1, b"ex"), file("b.jpg", 6, b"bee"), file("y.jpg", 2, b"why")];
    let mut one = start();
    assert_eq!(scan(&mut one, found(), LATER), Ok(()));
    let mut other = start();
    let mut turned = found();
    turned.reverse();
    assert_eq!(scan(&mut other, turned, LATER), Ok(()));
    assert_eq!(one.peek_pid(), 5);
    assert_eq!(other.peek_pid(), 5);
    for pid in [0u32, 1, 2] {
        assert!(same_record(one.get(&pid).unwrap(), other.get(&pid).unwrap()));
    }
    assert_eq!(one.get(&0).unwrap().status, PhotoEntryStatus::CommittedButMissing);
    assert_eq!(one.get(&2).unwrap().status, PhotoEntryStatus::CommittedButModified);
    assert_eq!(one.pid_at(M, b"x.jpg"), Some(3));
    assert_eq!(other.pid_at(M, b"x.jpg"), Some(4));
}
