use butler::db::helpers::patch::TableRecordPatch;
use butler::db::helpers::table::Table;
use butler::db::locations::FileLocation;
use butler::db::photos::access::{pt_access, pt_access_mut, PhotoSummary};
use butler::db::photos::image::PhotoTableImage;
use butler::db::photos::keys::{parse_pid, PhotoQuery};
use butler::db::photos::misc::{
    PhotoEntryStatus, PhotoMetadata, PhotoOrientation, Timestamp,
};
use butler::db::photos::patch::{Diff, PhotoRecordDiff};
use butler::db::photos::records::{hash_content, LocalPhoto, PhotoRecord, SyncError};
use butler::db::photos::table::PhotoTable;
use butler::util::persist::{LoadError, TableIO};
use butler::util::sync::{AtomicCounter, AtomicFlag};

const NOW: Timestamp = Timestamp { secs: 1_700_000_000, nanos: 5 };

fn meta(seed: i64) -> PhotoMetadata {
    PhotoMetadata {
        ctime: Timestamp { secs: seed, nanos: 0 },
        mtime: Timestamp { secs: seed + 1, nanos: 0 },
        file_length: 100,
        etime: None,
        width: 40,
        height: 30,
        orientation: PhotoOrientation::D0,
    }
}

fn loc(mpid: u128, name: &str) -> FileLocation {
    FileLocation { mpid, filename: name.as_bytes().to_vec() }
}

fn photo(mpid: u128, name: &str, hash: u64) -> LocalPhoto {
    let mut photo = LocalPhoto::new(loc(mpid, name), meta(10));
    photo.file_hash = Some(hash);
    photo
}

fn index_is_consistent(table: &PhotoTable) {
    let index = table.index();
    let all = [
        PhotoEntryStatus::Committed,
        PhotoEntryStatus::CommittedButMissing,
        PhotoEntryStatus::CommittedButModified,
        PhotoEntryStatus::Uncommitted,
    ];
    let records = table.records();
    for rec in &records {
        assert_eq!(table.pid_at(rec.location.mpid, &rec.location.filename), Some(rec.pid));
        assert_eq!(index.is_selected(rec.pid), rec.selected);
        assert_eq!(index.is_selected_in(rec.location.mpid, rec.pid), rec.selected);
        assert!(!index.is_selected_in(rec.location.mpid + 1, rec.pid));
        for status in all {
            assert_eq!(index.has_status(rec.pid, status), rec.status == status);
        }
    }
    for status in all {
        assert_eq!(
            index.count_status(status),
            records.iter().filter(|rec| rec.status == status).count()
        );
    }
    assert_eq!(index.count_selected(), records.iter().filter(|rec| rec.selected).count());
    assert_eq!(table.len(), records.len());
}

#[test]
fn the_flag_and_the_counter_work_as_they_say() {
    let mut flag = AtomicFlag::new();
    assert!(!flag.get());
    flag.set();
    assert!(flag.get());
    flag.clear();
    assert!(!flag.get());
    let mut counter = AtomicCounter::new(7);
    assert_eq!(counter.get(), 7);
    assert_eq!(counter.get_and_incr(), 7);
    assert_eq!(counter.get(), 8);
    let mut last = AtomicCounter::new(u32::MAX);
    assert_eq!(last.get_and_incr(), u32::MAX);
    assert_eq!(last.get(), 0);
}

#[test]
fn the_content_hash_is_that_of_xxh3() {
    assert_eq!(hash_content(b""), 0);
    assert_eq!(hash_content(b"abc"), xxhash_rust::xxh3::xxh3_64(b"abc"));
    assert_ne!(hash_content(b"abc"), hash_content(b"abd"));
    assert_ne!(hash_content(b"abc"), 0);
}

#[test]
fn a_local_photo_hashes_what_was_loaded() {
    let mut photo = LocalPhoto::new(loc(1, "a.jpg"), meta(1));
    assert_eq!(photo.fill_file_hash(), Err(SyncError::NotPrefetched));
    assert_eq!(photo.file_hash, None);
    photo.prefetch(b"content".to_vec());
    assert_eq!(photo.fill_file_hash(), Ok(()));
    assert_eq!(photo.file_hash, Some(hash_content(b"content")));
    assert!(photo.content.is_none());
    photo.prefetch(b"other".to_vec());
    assert_eq!(photo.fill_file_hash(), Ok(()));
    assert_eq!(photo.file_hash, Some(hash_content(b"content")));
}

#[test]
fn new_records_get_rising_keys() {
    let mut table = PhotoTable::new();
    let mut access = pt_access_mut(&mut table);
    assert_eq!(access.insert_lphoto(photo(1, "a.jpg", 11)), Some(0));
    assert_eq!(access.insert_lphoto(photo(1, "b.jpg", 12)), Some(1));
    assert_eq!(access.insert_lphoto(photo(2, "a.jpg", 13)), Some(2));
    assert_eq!(access.insert_lphoto(photo(1, "a.jpg", 14)), None);
    assert_eq!(table.peek_pid(), 3);
    assert!(table.is_modified());
    let rec = table.get(&1).unwrap();
    assert_eq!(rec.pid, 1);
    assert_eq!(rec.file_hash, 12);
    assert_eq!(rec.status, PhotoEntryStatus::Uncommitted);
    assert!(!rec.selected);
    assert_eq!(rec.commit_time, None);
    assert_eq!(table.pids(), vec![0, 1, 2]);
    index_is_consistent(&table);
}

#[test]
fn a_key_is_never_used_again() {
    let mut table = PhotoTable::new();
    let mut access = pt_access_mut(&mut table);
    assert_eq!(access.insert_lphoto(photo(1, "a.jpg", 11)), Some(0));
    assert!(access.entry(PhotoQuery::PID(0)).remove().is_some());
    assert_eq!(access.insert_lphoto(photo(1, "a.jpg", 11)), Some(1));
    assert!(table.get(&0).is_none());
    index_is_consistent(&table);
}

#[test]
fn the_index_follows_every_change() {
    let mut table = PhotoTable::new();
    let mut access = pt_access_mut(&mut table);
    for (i, name) in ["a.jpg", "b.jpg", "c.jpg", "d.jpg"].iter().enumerate() {
        assert_eq!(access.insert_lphoto(photo(1 + (i as u128 % 2), name, i as u64)), Some(i as u32));
    }
    index_is_consistent(access.table);
    access
        .entry(PhotoQuery::PID(0))
        .modify()
        .ok()
        .unwrap()
        .with_selected(true)
        .with_status(PhotoEntryStatus::Committed)
        .commit_at(NOW);
    index_is_consistent(access.table);
    access
        .entry(loc(2, "b.jpg"))
        .modify()
        .ok()
        .unwrap()
        .with_status(PhotoEntryStatus::CommittedButMissing)
        .commit_at(NOW);
    index_is_consistent(access.table);
    access.entry(0u32).modify().ok().unwrap().with_selected(false).commit_at(NOW);
    index_is_consistent(access.table);
    assert!(access.entry(PhotoQuery::FileLocation(loc(1, "c.jpg"))).remove().is_some());
    index_is_consistent(access.table);
    assert!(access.entry(5u32).remove().is_none());
    access
        .entry(1u32)
        .modify()
        .ok()
        .unwrap()
        .with_file_hash(99)
        .with_selected(true)
        .commit_at(NOW);
    index_is_consistent(access.table);
    assert_eq!(table.get(&1).unwrap().status, PhotoEntryStatus::CommittedButModified);
    assert_eq!(table.get(&0).unwrap().status, PhotoEntryStatus::Committed);
    assert_eq!(table.pids(), vec![0, 1, 3]);
}

#[test]
fn a_commit_stamps_the_time_when_the_status_becomes_committed() {
    let mut table = PhotoTable::new();
    let mut access = pt_access_mut(&mut table);
    access.insert_lphoto(photo(1, "a.jpg", 1));
    access.entry(0u32).modify().ok().unwrap().with_selected(true).commit_at(NOW);
    assert_eq!(access.table.get(&0).unwrap().commit_time, None);
    access
        .entry(0u32)
        .modify()
        .ok()
        .unwrap()
        .with_status(PhotoEntryStatus::Committed)
        .commit_at(NOW);
    assert_eq!(access.table.get(&0).unwrap().commit_time, Some(NOW));
    let later = Timestamp { secs: NOW.secs + 10, nanos: 0 };
    access
        .entry(0u32)
        .modify()
        .ok()
        .unwrap()
        .with_status(PhotoEntryStatus::Committed)
        .commit_at(later);
    assert_eq!(table.get(&0).unwrap().commit_time, Some(NOW));
}

#[test]
fn a_commit_reads_the_clock() {
    let mut table = PhotoTable::new();
    let mut access = pt_access_mut(&mut table);
    access.insert_lphoto(photo(1, "a.jpg", 1));
    access
        .entry(0u32)
        .modify()
        .ok()
        .unwrap()
        .with_status(PhotoEntryStatus::Committed)
        .commit();
    let stamped = table.get(&0).unwrap().commit_time.unwrap();
    assert!(stamped.secs > 1_600_000_000);
    assert!(stamped.nanos < 2_000_000_000);
}

#[test]
fn a_selected_photo_that_is_marked_missing_becomes_missing() {
    let mut table = PhotoTable::new();
    let mut access = pt_access_mut(&mut table);
    access.insert_lphoto(photo(1, "a.jpg", 1));
    access.insert_lphoto(photo(1, "b.jpg", 2));
    for pid in [0u32, 1] {
        access
            .entry(pid)
            .modify()
            .ok()
            .unwrap()
            .with_selected(pid == 0)
            .with_status(PhotoEntryStatus::Committed)
            .commit_at(NOW);
        let mut patch = access.entry(pid).modify().ok().unwrap();
        patch.mark_missing();
        patch.commit_at(NOW);
    }
    assert_eq!(table.get(&0).unwrap().status, PhotoEntryStatus::CommittedButMissing);
    assert_eq!(table.get(&1).unwrap().status, PhotoEntryStatus::Committed);
    index_is_consistent(&table);
}

#[test]
fn a_patch_that_is_given_up_changes_nothing() {
    let mut table = PhotoTable::new();
    let mut access = pt_access_mut(&mut table);
    access.insert_lphoto(photo(1, "a.jpg", 1));
    access.mark_saved();
    let mut patch = access.entry(0u32).modify().ok().unwrap();
    patch.set_selected(true);
    patch.set_file_hash(5);
    patch.set_metadata(meta(77));
    patch.set_status(PhotoEntryStatus::Committed);
    patch.set_commit_time(Some(NOW));
    assert_eq!(*patch.selected(), true);
    assert_eq!(*patch.file_hash(), 5);
    assert_eq!(*patch.metadata(), meta(77));
    assert_eq!(*patch.status(), PhotoEntryStatus::Committed);
    assert_eq!(*patch.commit_time(), Some(NOW));
    let diff = patch.into_diff();
    assert!(diff.selected.changed());
    assert!(!access.table.is_modified());
    let rec = access.table.get(&0).unwrap();
    assert!(!rec.selected);
    assert_eq!(rec.file_hash, 1);
    assert_eq!(rec.status, PhotoEntryStatus::Uncommitted);
    access.take_diff(diff).commit_at(NOW);
    let rec = table.get(&0).unwrap();
    assert!(rec.selected);
    assert_eq!(rec.file_hash, 5);
    assert_eq!(rec.metadata, meta(77));
    assert_eq!(rec.status, PhotoEntryStatus::CommittedButModified);
    assert_eq!(rec.commit_time, Some(NOW));
    assert!(table.is_modified());
    index_is_consistent(&table);
}

#[test]
fn a_diff_knows_what_has_changed() {
    let mut diff = Diff::from(5u64);
    assert!(!diff.changed());
    assert_eq!(*diff.current(), 5);
    diff.set(5);
    assert!(!diff.changed());
    diff.set(6);
    assert!(diff.changed());
    assert_eq!(*diff.current(), 6);
    let mut slot = 1u64;
    diff.write(&mut slot);
    assert_eq!(slot, 6);
    let copy = diff.to_owned();
    assert_eq!(copy.old, 5);
    assert_eq!(copy.new, Some(6));
    let rec = PhotoRecord::new(3, photo(1, "a.jpg", 9));
    let mut rec_diff = PhotoRecordDiff::new(&rec);
    assert_eq!(rec_diff.pid, 3);
    assert!(!rec_diff.is_dirty());
    rec_diff.file_hash.set(10);
    assert!(rec_diff.is_dirty());
    assert!(rec_diff.to_owned().is_dirty());
}

#[test]
fn the_dirty_flag_decides_over_the_writing() {
    let mut table = PhotoTable::new();
    {
        let mut access = pt_access_mut(&mut table);
        access.insert_lphoto(photo(1, "a.jpg", 1));
    }
    let image = pt_access(&table).finalize(true).unwrap();
    let mut loaded = PhotoTable::new();
    let mut access = pt_access_mut(&mut loaded);
    assert_eq!(access.initialize(Some(image)), Ok(()));
    assert!(access.as_access().finalize(true).is_none());
    assert!(access.as_access().finalize(false).is_some());
    access.entry(0u32).modify().ok().unwrap().commit_at(NOW);
    assert!(access.as_access().finalize(true).is_none());
    access.entry(0u32).modify().ok().unwrap().with_selected(true).commit_at(NOW);
    assert!(access.as_access().finalize(true).is_some());
    access.mark_saved();
    assert!(access.as_access().finalize(true).is_none());
    assert!(loaded.save(true).is_none());
}

#[test]
fn photos_that_are_saved_are_loaded_as_they_were() {
    let mut table = PhotoTable::new();
    {
        let mut access = pt_access_mut(&mut table);
        access.insert_lphoto(photo(1, "a.jpg", 1));
        access.insert_lphoto(photo(2, "b.jpg", 2));
        access.insert_lphoto(photo(1, "c.jpg", 3));
        access.entry(1u32).remove();
        access
            .entry(2u32)
            .modify()
            .ok()
            .unwrap()
            .with_selected(true)
            .with_status(PhotoEntryStatus::Committed)
            .commit_at(NOW);
    }
    let image = table.snapshot();
    assert_eq!(image.counter, 3);
    assert_eq!(image.records.iter().map(|rec| rec.pid).collect::<Vec<_>>(), vec![0, 2]);
    let loaded = PhotoTable::restore(image).unwrap();
    assert!(!loaded.is_modified());
    assert_eq!(loaded.peek_pid(), table.peek_pid());
    assert_eq!(loaded.pids(), table.pids());
    for (a, b) in loaded.records().iter().zip(table.records().iter()) {
        assert_eq!(a.pid, b.pid);
        assert!(a.location.same_as(&b.location));
        assert_eq!(a.file_hash, b.file_hash);
        assert_eq!(a.metadata, b.metadata);
        assert_eq!(a.selected, b.selected);
        assert_eq!(a.status, b.status);
        assert_eq!(a.commit_time, b.commit_time);
    }
    index_is_consistent(&loaded);
    assert_eq!(pt_access(&loaded).summary(), pt_access(&table).summary());
}

#[test]
fn photo_records_that_do_not_fit_together_are_not_loaded() {
    let rec = |pid: u32, name: &str| PhotoRecord::new(pid, photo(1, name, 1));
    let twice = PhotoTableImage { counter: 5, records: vec![rec(1, "a.jpg"), rec(1, "b.jpg")] };
    assert!(PhotoTable::restore(twice).is_none());
    let same_place = PhotoTableImage { counter: 5, records: vec![rec(1, "a.jpg"), rec(2, "a.jpg")] };
    assert!(PhotoTable::restore(same_place).is_none());
    let too_high = PhotoTableImage { counter: 2, records: vec![rec(2, "a.jpg")] };
    let mut table = PhotoTable::new();
    pt_access_mut(&mut table).insert_lphoto(photo(1, "z.jpg", 1));
    assert_eq!(table.load(Some(too_high)), Err(LoadError::Corrupt));
    assert_eq!(table.pids(), vec![0]);
    assert_eq!(table.load(None), Ok(()));
    assert_eq!(table.pids(), vec![0]);
    let fine = PhotoTableImage { counter: 3, records: vec![rec(2, "a.jpg"), rec(0, "b.jpg")] };
    assert_eq!(table.load(Some(fine)), Ok(()));
    assert_eq!(table.pids(), vec![0, 2]);
    assert_eq!(table.peek_pid(), 3);
    index_is_consistent(&table);
}

#[test]
fn the_summary_counts_the_collection() {
    let mut table = PhotoTable::new();
    let mut access = pt_access_mut(&mut table);
    for (i, name) in ["a", "b", "c", "d", "e"].iter().enumerate() {
        assert_eq!(access.insert_lphoto(photo(1, name, i as u64)), Some(i as u32));
    }
    let plan = [(0u32, true), (1, true), (2, false), (3, true)];
    for (pid, selected) in plan {
        access
            .entry(pid)
            .modify()
            .ok()
            .unwrap()
            .with_selected(selected)
            .with_status(PhotoEntryStatus::Committed)
            .commit_at(NOW);
    }
    let mut gone = access.entry(1u32).modify().ok().unwrap();
    gone.mark_missing();
    gone.commit_at(NOW);
    assert_eq!(
        pt_access(&table).summary(),
        PhotoSummary {
            total: 5,
            unvetted: 1,
            selected: 2,
            selected_missing: 1,
            selected_modified: 0,
        }
    );
    assert_eq!(pt_access(&table).count_selected(PhotoEntryStatus::Uncommitted), 0);
}

#[test]
fn retain_runs_a_rule_over_every_record() {
    let mut table = PhotoTable::new();
    let mut access = pt_access_mut(&mut table);
    for (i, name) in ["a", "b", "c", "d"].iter().enumerate() {
        assert_eq!(access.insert_lphoto(photo(1, name, i as u64)), Some(i as u32));
    }
    access.mark_saved();
    access.retain_at(&|_pid, diff| (Some(diff), true), NOW);
    assert!(!access.table.is_modified());
    assert_eq!(access.table.pids(), vec![0, 1, 2, 3]);
    access.retain_at(&|_pid, _diff| (None, true), NOW);
    assert!(!access.table.is_modified());
    access.retain_at(
        &|pid, diff| {
            let mut diff = diff;
            diff.selected.set(pid % 2 == 0);
            (Some(diff), pid != 3)
        },
        NOW,
    );
    assert!(access.table.is_modified());
    assert_eq!(access.table.pids(), vec![0, 1, 2]);
    assert!(access.table.get(&0).unwrap().selected);
    assert!(!access.table.get(&1).unwrap().selected);
    access.retain(|_pid, diff| (Some(diff), false));
    assert!(table.pids().is_empty());
    index_is_consistent(&table);
}

#[test]
fn a_commit_without_drift_clears_a_flag_and_stamps_the_time() {
    let later = Timestamp { secs: NOW.secs + 60, nanos: 0 };
    let mut table = PhotoTable::new();
    let mut access = pt_access_mut(&mut table);
    for name in ["a", "b", "c"] {
        access.insert_lphoto(photo(1, name, 7));
    }
    for pid in [0u32, 1, 2] {
        access.entry(pid).modify().ok().unwrap().with_status(PhotoEntryStatus::Committed).commit_at(NOW);
    }
    access.entry(0u32).modify().ok().unwrap().with_file_hash(8).commit_at(NOW);
    access.entry(1u32).modify().ok().unwrap().with_selected(true).commit_at(NOW);
    let mut gone = access.entry(1u32).modify().ok().unwrap();
    gone.mark_missing();
    gone.commit_at(NOW);
    assert_eq!(access.table.get(&0).unwrap().status, PhotoEntryStatus::CommittedButModified);
    assert_eq!(access.table.get(&1).unwrap().status, PhotoEntryStatus::CommittedButMissing);
    assert_eq!(access.table.get(&0).unwrap().commit_time, Some(NOW));
    access.mark_saved();

    access.entry(2u32).modify().ok().unwrap().commit_at(later);
    assert!(!access.table.is_modified());
    assert_eq!(access.table.get(&2).unwrap().commit_time, Some(NOW));

    access.entry(0u32).modify().ok().unwrap().into_diff();
    assert_eq!(access.table.get(&0).unwrap().status, PhotoEntryStatus::CommittedButModified);
    assert!(!access.table.is_modified());

    access.entry(0u32).modify().ok().unwrap().commit_at(later);
    access.entry(1u32).modify().ok().unwrap().commit_at(later);
    for pid in [0u32, 1] {
        let rec = access.table.get(&pid).unwrap();
        assert_eq!(rec.status, PhotoEntryStatus::Committed);
        assert_eq!(rec.commit_time, Some(later));
    }
    assert_eq!(access.table.get(&0).unwrap().file_hash, 8);
    assert!(access.table.get(&1).unwrap().selected);
    assert!(access.table.is_modified());
    assert_eq!(access.table.index().count_status(PhotoEntryStatus::Committed), 3);
    index_is_consistent(access.table);

    access.retain_at(
        &|_pid, diff| {
            let mut diff = diff;
            diff.file_hash.set(9);
            (Some(diff), true)
        },
        later,
    );
    assert_eq!(access.table.index().count_status(PhotoEntryStatus::CommittedButModified), 3);
    access.retain_at(&|pid, diff| (if pid == 0 { None } else { Some(diff) }, true), NOW);
    assert_eq!(access.table.get(&0).unwrap().status, PhotoEntryStatus::CommittedButModified);
    assert_eq!(access.table.get(&1).unwrap().status, PhotoEntryStatus::Committed);
    assert_eq!(access.table.get(&1).unwrap().commit_time, Some(NOW));
}

#[test]
fn a_primary_key_is_read_from_its_digits() {
    assert_eq!(parse_pid(b"0"), Some(0));
    assert_eq!(parse_pid(b"42"), Some(42));
    assert_eq!(parse_pid(b"+42"), Some(42));
    assert_eq!(parse_pid(b"007"), Some(7));
    assert_eq!(parse_pid(b"4294967295"), Some(u32::MAX));
    assert_eq!(parse_pid(b"4294967296"), None);
    assert_eq!(parse_pid(b"99999999999999999999999"), None);
    assert_eq!(parse_pid(b""), None);
    assert_eq!(parse_pid(b"+"), None);
    assert_eq!(parse_pid(b"-1"), None);
    assert_eq!(parse_pid(b"1a"), None);
    assert_eq!(parse_pid(b" 1"), None);
    assert_eq!(parse_pid(b"++1"), None);
    assert!(matches!(PhotoQuery::from_pid(3), PhotoQuery::PID(3)));
    assert!(matches!(PhotoQuery::from_location(loc(1, "a")), PhotoQuery::FileLocation(_)));
}

#[test]
fn a_patch_can_set_the_commit_time_itself() {
    let mut table = PhotoTable::new();
    let mut access = pt_access_mut(&mut table);
    access.insert_lphoto(photo(1, "a.jpg", 1));
    access.mark_saved();
    let stamp = Some(Timestamp { secs: 77, nanos: 1 });
    access.entry(0u32).modify().ok().unwrap().with_commit_time(stamp).commit_at(NOW);
    assert_eq!(access.table.get(&0).unwrap().commit_time, stamp);
    assert_eq!(access.table.get(&0).unwrap().status, PhotoEntryStatus::Uncommitted);
    assert!(access.table.is_modified());
    access.mark_saved();
    access.entry(0u32).modify().ok().unwrap().with_commit_time(stamp).commit_at(NOW);
    assert!(!access.table.is_modified());
}

#[test]
fn a_vacant_entry_takes_a_new_photo_under_the_next_key() {
    let mut table = PhotoTable::new();
    let mut access = pt_access_mut(&mut table);
    access.insert_lphoto(photo(1, "a.jpg", 1));
    access.mark_saved();
    let patch = access
        .entry(loc(1, "b.jpg"))
        .or_insert_with(|| PhotoRecord::new(40, photo(1, "b.jpg", 2)))
        .ok()
        .unwrap();
    assert_eq!(patch.rec_diff.pid, 1);
    assert_eq!(*patch.file_hash(), 2);
    patch.with_selected(true).commit_at(NOW);
    assert!(access.table.is_modified());
    assert_eq!(access.table.pids(), vec![0, 1]);
    assert!(access.table.get(&1).unwrap().selected);
    assert_eq!(access.table.pid_at(1, b"b.jpg"), Some(1));

    let found = access
        .entry(loc(1, "a.jpg"))
        .or_insert_with(|| PhotoRecord::new(7, photo(1, "z.jpg", 9)))
        .ok()
        .unwrap();
    assert_eq!(found.rec_diff.pid, 0);
    found.into_diff();
    assert_eq!(access.table.peek_pid(), 2);

    access.mark_saved();
    let refused = access.entry(9u32).or_insert_with(|| PhotoRecord::new(9, photo(1, "a.jpg", 3)));
    assert!(refused.is_err());
    refused.err().unwrap().release();
    assert!(!access.table.is_modified());
    assert_eq!(access.table.peek_pid(), 2);
    index_is_consistent(access.table);
}
