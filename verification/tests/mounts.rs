use butler::db::helpers::access::TableAccessMutExt;
use butler::db::helpers::patch::TableRecordPatch;
use butler::db::helpers::table::{Table, TableRecord};
use butler::db::locations::CanonicalizedPath;
use butler::db::mounts::access::{
    finalize_mountpoint_table, initialize_mountpoint_table, mpt_access, mpt_access_mut,
};
use butler::db::mounts::image::MountPointTableImage;
use butler::db::mounts::records::{
    MountPointRecord, UUID_KIND_MASK, UUID_KIND_RANDOM,
};
use butler::db::mounts::table::MountPointTable;
use butler::util::persist::{LoadError, TableIO};

fn path(text: &str) -> CanonicalizedPath {
    CanonicalizedPath::new(text.as_bytes()).unwrap()
}

fn paths_of(table: &MountPointTable) -> Vec<Vec<u8>> {
    table.records().iter().map(|rec| rec.path.as_bytes().to_vec()).collect()
}

#[test]
fn a_new_table_is_empty_and_saved() {
    let table = MountPointTable::new();
    assert!(table.records().is_empty());
    assert!(!table.is_modified());
}

#[test]
fn a_new_mount_point_gets_a_random_identifier() {
    let rec = MountPointRecord::new(path("/photos"), Some("holiday".to_string()));
    assert_eq!(rec.uuid & UUID_KIND_MASK, UUID_KIND_RANDOM);
    assert_eq!(rec.path.as_bytes(), b"/photos");
    assert_eq!(rec.alias.as_deref(), Some("holiday"));
    assert_eq!(rec.primary_key().as_bytes(), b"/photos");
    let other = MountPointRecord::new(path("/photos"), None);
    assert_ne!(rec.uuid, other.uuid);
}

#[test]
fn mounting_enters_a_directory_once() {
    let mut table = MountPointTable::new();
    assert!(table.add_or_modify(path("/photos"), None));
    assert!(table.is_modified());
    assert_eq!(table.records().len(), 1);
    let id = table.get_by_path(&path("/photos")).unwrap().uuid;
    assert_eq!(id & UUID_KIND_MASK, UUID_KIND_RANDOM);
    assert!(table.add_or_modify(path("/photos"), Some("holiday".to_string())));
    assert_eq!(table.records().len(), 1);
    let rec = table.get_by_path(&path("/photos")).unwrap();
    assert_eq!(rec.uuid, id);
    assert_eq!(rec.alias.as_deref(), Some("holiday"));
    assert!(table.add_or_modify(path("/photos"), None));
    assert_eq!(table.get_by_mpid(id).unwrap().alias.as_deref(), Some("holiday"));
}

#[test]
fn an_identifier_that_is_taken_is_not_given_twice() {
    let mut table = MountPointTable::new();
    assert!(table.add_or_modify_with_id(path("/a"), None, 7));
    assert!(!table.add_or_modify_with_id(path("/b"), None, 7));
    assert_eq!(paths_of(&table), vec![b"/a".to_vec()]);
    assert!(table.add_or_modify_with_id(path("/b"), None, 8));
    assert_eq!(table.get_by_mpid(8).unwrap().path.as_bytes(), b"/b");
}

#[test]
fn the_table_refuses_a_second_record_for_a_path_or_an_identifier() {
    let mut table = MountPointTable::new();
    assert!(table.insert(MountPointRecord::with_id(1, path("/a"), None)).is_some());
    assert!(table.insert(MountPointRecord::with_id(2, path("/a"), None)).is_none());
    assert!(table.insert(MountPointRecord::with_id(1, path("/b"), None)).is_none());
    assert_eq!(table.records().len(), 1);
    assert!(!table.is_modified());
}

#[test]
fn mount_points_are_listed_in_the_order_of_their_paths() {
    let mut table = MountPointTable::new();
    for (p, id) in [("/b", 1u128), ("/a/c", 2), ("/a", 3), ("/", 4), ("/ab", 5)] {
        assert!(table.add_or_modify_with_id(path(p), None, id));
    }
    assert_eq!(
        paths_of(&table),
        vec![b"/".to_vec(), b"/a".to_vec(), b"/a/c".to_vec(), b"/ab".to_vec(), b"/b".to_vec()]
    );
}

#[test]
fn unmounting_takes_a_mount_point_out() {
    let mut table = MountPointTable::new();
    assert!(table.add_or_modify_with_id(path("/a"), None, 1));
    assert!(table.add_or_modify_with_id(path("/b"), None, 2));
    table.set_modified(false);
    assert!(!table.remove(3));
    assert!(!table.is_modified());
    assert!(table.remove(1));
    assert!(table.is_modified());
    assert!(table.get_by_mpid(1).is_none());
    assert!(table.get_by_path(&path("/a")).is_none());
    assert_eq!(paths_of(&table), vec![b"/b".to_vec()]);
    assert!(table.add_or_modify_with_id(path("/c"), None, 1));
}

#[test]
fn an_entry_is_found_by_path_or_identifier() {
    let mut table = MountPointTable::new();
    assert!(table.add_or_modify_with_id(path("/a"), None, 1));
    let mut access = mpt_access_mut(&mut table);
    assert!(access.entry(path("/a")).modify().is_ok());
    assert!(access.entry(1u128).modify().is_ok());
    assert!(access.entry(path("/b")).modify().is_err());
    assert!(access.entry(2u128).modify().is_err());
    assert!(access.as_access().query(&1u128).is_some());
    assert!(access.as_access().query(&path("/b")).is_none());
}

#[test]
fn a_patch_changes_the_label_when_it_is_committed() {
    let mut table = MountPointTable::new();
    assert!(table.add_or_modify_with_id(path("/a"), None, 1));
    table.set_modified(false);
    {
        let mut access = (&mut table).access_mut();
        let patch = access.entry(1u128).modify().ok().unwrap();
        assert_eq!(patch.alias(), &None);
        patch.set_alias(Some("x".to_string())).discard();
    }
    assert_eq!(table.get_by_mpid(1).unwrap().alias, None);
    assert!(!table.is_modified());
    {
        let mut access = mpt_access_mut(&mut table);
        let patch = access.entry(path("/a")).modify().ok().unwrap();
        patch
            .set_alias(Some("x".to_string()))
            .set_alias_with(|alias| alias.map(|a| a + "y"))
            .commit();
    }
    assert_eq!(table.get_by_mpid(1).unwrap().alias.as_deref(), Some("xy"));
    assert!(table.is_modified());
    table.set_modified(false);
    {
        let mut access = mpt_access_mut(&mut table);
        access.entry(1u128).modify().ok().unwrap().commit();
    }
    assert!(!table.is_modified());
}

#[test]
fn an_entry_can_be_removed() {
    let mut table = MountPointTable::new();
    assert!(table.add_or_modify_with_id(path("/a"), None, 1));
    table.set_modified(false);
    {
        let mut access = mpt_access_mut(&mut table);
        assert!(access.entry(2u128).remove().is_none());
    }
    assert!(!table.is_modified());
    {
        let mut access = mpt_access_mut(&mut table);
        let rec = access.entry(1u128).remove().unwrap();
        assert_eq!(rec.path.as_bytes(), b"/a");
    }
    assert!(table.is_modified());
    assert!(table.records().is_empty());
    assert!(table.get_by_mpid(1).is_none());
}

#[test]
fn insert_or_update_mounts_through_the_access() {
    let mut table = MountPointTable::new();
    {
        let mut access = mpt_access_mut(&mut table);
        assert!(access.insert_or_update(path("/a"), Some("one".to_string())));
        assert!(access.insert_or_update(path("/a"), None));
        assert!(access.insert_or_update(path("/b"), None));
    }
    assert_eq!(table.records().len(), 2);
    assert_eq!(table.get_by_path(&path("/a")).unwrap().alias.as_deref(), Some("one"));
    assert!(mpt_access(&table).query(&path("/b")).is_some());
}

#[test]
fn what_is_saved_can_be_loaded_again() {
    let mut table = MountPointTable::new();
    assert!(table.add_or_modify_with_id(path("/b"), Some("bee".to_string()), 2));
    assert!(table.add_or_modify_with_id(path("/a"), None, 1));
    let image = table.save(true).unwrap();
    assert_eq!(image.records.len(), 2);
    assert_eq!(image.records[0].path.as_bytes(), b"/a");
    let mut loaded = MountPointTable::new();
    assert_eq!(loaded.load(Some(image)), Ok(()));
    assert!(!loaded.is_modified());
    assert_eq!(paths_of(&loaded), paths_of(&table));
    assert_eq!(loaded.get_by_mpid(2).unwrap().alias.as_deref(), Some("bee"));
    assert_eq!(loaded.get_by_mpid(1).unwrap().path.as_bytes(), b"/a");
    assert!(loaded.save(true).is_none());
    assert!(loaded.save(false).is_some());
}

#[test]
fn mount_points_that_do_not_fit_together_are_not_loaded() {
    let mut table = MountPointTable::new();
    assert!(table.add_or_modify_with_id(path("/a"), None, 1));
    let twice = MountPointTableImage {
        records: vec![
            MountPointRecord::with_id(5, path("/x"), None),
            MountPointRecord::with_id(5, path("/y"), None),
        ],
    };
    assert_eq!(initialize_mountpoint_table(&mut table, Some(twice)), Err(LoadError::Corrupt));
    assert_eq!(paths_of(&table), vec![b"/a".to_vec()]);
    let same_path = MountPointTableImage {
        records: vec![
            MountPointRecord::with_id(5, path("/x"), None),
            MountPointRecord::with_id(6, path("/x"), None),
        ],
    };
    assert!(MountPointTable::restore(same_path).is_none());
    assert_eq!(initialize_mountpoint_table(&mut table, None), Ok(()));
    assert_eq!(paths_of(&table), vec![b"/a".to_vec()]);
    assert!(finalize_mountpoint_table(&table, true).is_some());
}

#[test]
fn a_vacant_entry_takes_the_record_that_is_made_for_it() {
    let mut table = MountPointTable::new();
    let mut access = mpt_access_mut(&mut table);
    let patch = access
        .entry(path("/a"))
        .or_insert_with(|| MountPointRecord::with_id(5, path("/a"), None))
        .ok()
        .unwrap();
    assert!(patch.alias().is_none());
    patch.set_alias(Some("first".to_string())).commit();
    assert!(access.table.is_modified());
    assert_eq!(access.table.get_by_mpid(5).unwrap().alias.as_deref(), Some("first"));

    let found = access
        .entry(path("/a"))
        .or_insert_with(|| MountPointRecord::with_id(6, path("/a"), Some("other".to_string())))
        .ok()
        .unwrap();
    assert_eq!(found.alias().as_deref(), Some("first"));
    found.discard();
    assert!(access.table.get_by_mpid(6).is_none());

    access.mark_saved();
    let taken = access.entry(path("/b")).or_insert_with(|| MountPointRecord::with_id(5, path("/b"), None));
    assert!(taken.is_err());
    taken.err().unwrap().release();
    assert!(!access.table.is_modified());
    assert_eq!(paths_of(access.table), vec![b"/a".to_vec()]);
}
