use butler::db::helpers::access::TableAccessExt;
use butler::db::locations::{
    check_canonical, join, Canonicalize, CanonicalizedPath, DirectoryLocation, FileLocation,
    LocationError, PathError,
};
use butler::db::mounts::access::mpt_access;
use butler::db::mounts::table::MountPointTable;
use butler::util::bytes::{bytes_equal, compare_bytes, copy_bytes, Rank};
use butler::util::fs::{is_supported_image, name_extension};

fn path(text: &str) -> CanonicalizedPath {
    CanonicalizedPath::new(text.as_bytes()).unwrap()
}

fn mounted(paths: &[(&str, u128)]) -> MountPointTable {
    let mut table = MountPointTable::new();
    for (p, id) in paths {
        assert!(table.add_or_modify_with_id(path(p), None, *id));
    }
    table
}

#[test]
fn canonical_paths_are_taken() {
    for text in ["/", "/a", "/a/b", "/a.b/c..d", "/...", "/a/.b", "/a/..b", "/.a."] {
        assert!(check_canonical(text.as_bytes()), "{}", text);
        assert_eq!(path(text).as_bytes(), text.as_bytes());
    }
}

#[test]
fn other_spellings_are_refused() {
    for text in ["", "a", "a/b", "//", "/a/", "/a//b", "/.", "/..", "/a/.", "/a/..", "/a/./b", "/a/../b", "/a\0b"] {
        assert!(!check_canonical(text.as_bytes()), "{:?}", text);
        assert_eq!(
            CanonicalizedPath::new(text.as_bytes()).err(),
            Some(PathError::NotCanonical)
        );
    }
}

#[test]
fn resolve_takes_bytes_and_vectors() {
    assert_eq!("/a/b".as_bytes().resolve().unwrap().as_bytes(), b"/a/b");
    assert_eq!(b"/a/b".to_vec().resolve().unwrap().as_bytes(), b"/a/b");
    assert!(b"a/b".to_vec().resolve().is_err());
}

#[test]
fn join_puts_a_name_below_a_directory() {
    assert_eq!(join(b"/photos", b"a.jpg"), b"/photos/a.jpg".to_vec());
    assert_eq!(join(b"/", b"a.jpg"), b"/a.jpg".to_vec());
    assert_eq!(join(b"/photos", b""), b"/photos/".to_vec());
    assert_eq!(join(b"/photos", b"/abs/a.jpg"), b"/abs/a.jpg".to_vec());
}

#[test]
fn directory_locations_come_from_the_mount_table() {
    let table = mounted(&[("/photos", 7), ("/more", 8)]);
    let access = mpt_access(&table);
    let by_id = DirectoryLocation::from_mpid(&access, 7).unwrap();
    assert_eq!(by_id.mpid, 7);
    assert_eq!(by_id.path.as_bytes(), b"/photos");
    assert!(DirectoryLocation::from_mpid(&access, 9).is_none());
    let by_path = DirectoryLocation::from_path(&access, &path("/more")).unwrap();
    assert_eq!(by_path.mpid, 8);
    assert!(DirectoryLocation::from_path(&access, &path("/other")).is_none());
    let file = by_path.with_filename(b"b.jpg");
    assert_eq!(file.get_parts(), (8, &b"b.jpg"[..]));
}

#[test]
fn the_path_of_a_file_is_made_of_mount_point_and_name() {
    let table = mounted(&[("/photos", 7)]);
    let access = (&table).access();
    let file = FileLocation { mpid: 7, filename: b"a.jpg".to_vec() };
    assert_eq!(file.filepath(&access), Some(b"/photos/a.jpg".to_vec()));
    let nowhere = FileLocation { mpid: 9, filename: b"a.jpg".to_vec() };
    assert_eq!(nowhere.filepath(&access), None);
}

#[test]
fn a_file_location_is_found_from_its_path() {
    let table = mounted(&[("/photos", 7), ("/", 1)]);
    let access = mpt_access(&table);
    let loc = FileLocation::from_path(&access, b"/photos/a.jpg").unwrap();
    assert_eq!(loc.mpid, 7);
    assert_eq!(loc.filename, b"a.jpg".to_vec());
    let top = FileLocation::from_path(&access, b"/b.jpg").unwrap();
    assert_eq!(top.mpid, 1);
    assert_eq!(top.filename, b"b.jpg".to_vec());
    assert_eq!(
        FileLocation::from_path(&access, b"/other/a.jpg").err(),
        Some(LocationError::NotMounted)
    );
    assert_eq!(FileLocation::from_path(&access, b"/").err(), Some(LocationError::NoParent));
    assert_eq!(
        FileLocation::from_path(&access, b"photos/a.jpg").err(),
        Some(LocationError::NotCanonical)
    );
}

#[test]
fn locations_are_the_same_by_mount_point_and_name() {
    let a = FileLocation { mpid: 7, filename: b"a.jpg".to_vec() };
    let b = FileLocation { mpid: 7, filename: b"a.jpg".to_vec() };
    let c = FileLocation { mpid: 8, filename: b"a.jpg".to_vec() };
    let d = FileLocation { mpid: 7, filename: b"b.jpg".to_vec() };
    assert!(a.same_as(&b));
    assert!(!a.same_as(&c));
    assert!(!a.same_as(&d));
    assert!(a.duplicate().same_as(&a));
}

#[test]
fn byte_strings_are_ordered_lexicographically() {
    assert_eq!(compare_bytes(b"", b""), Rank::Same);
    assert_eq!(compare_bytes(b"", b"a"), Rank::Before);
    assert_eq!(compare_bytes(b"a", b""), Rank::After);
    assert_eq!(compare_bytes(b"abc", b"abd"), Rank::Before);
    assert_eq!(compare_bytes(b"abd", b"abc"), Rank::After);
    assert_eq!(compare_bytes(b"ab", b"abc"), Rank::Before);
    assert_eq!(compare_bytes(b"b", b"abc"), Rank::After);
    assert_eq!(compare_bytes(b"abc", b"abc"), Rank::Same);
    assert!(bytes_equal(b"abc", b"abc"));
    assert!(!bytes_equal(b"abc", b"abd"));
    assert!(!bytes_equal(b"abc", b"ab"));
    assert_eq!(copy_bytes(b"abc"), b"abc".to_vec());
}

#[test]
fn photos_are_told_by_their_extension() {
    for name in ["a.jpg", "a.JPG", "a.Jpeg", "a.jpeg", "/x/y/a.b.jPg", "a.tar.jpeg", "..jpg", "/dir.png/a.jpg"] {
        assert!(is_supported_image(name.as_bytes()), "{}", name);
    }
    for name in ["", "a", "jpg", ".jpg", "a.png", "a.jpg/", "a.jpgx", "a.jpe", "/x.jpg/a", "..", "a.", "a.jp g", "/a.jpg/.jpeg"] {
        assert!(!is_supported_image(name.as_bytes()), "{}", name);
    }
}

#[test]
fn the_extension_is_what_follows_the_last_dot_of_the_name() {
    assert_eq!(name_extension(b"/x/y/a.b.jPg"), Some(b"jPg".to_vec()));
    assert_eq!(name_extension(b"a.tar.gz"), Some(b"gz".to_vec()));
    assert_eq!(name_extension(b"/dir.png/a"), None);
    assert_eq!(name_extension(b".hidden"), None);
    assert_eq!(name_extension(b".."), None);
    assert_eq!(name_extension(b""), None);
    assert_eq!(name_extension(b"a."), Some(Vec::new()));
}
