use butler::db::photos::misc::{Drift, PhotoEntryStatus, PhotoOrientation};

const ALL: [PhotoEntryStatus; 4] = [
    PhotoEntryStatus::Committed,
    PhotoEntryStatus::CommittedButMissing,
    PhotoEntryStatus::CommittedButModified,
    PhotoEntryStatus::Uncommitted,
];

const DRIFTS: [Drift; 3] = [Drift::Unchanged, Drift::Modified, Drift::Missing];

#[test]
fn an_explicit_commit_always_ends_committed() {
    for status in ALL {
        for drift in DRIFTS {
            assert_eq!(status.next(drift, true), PhotoEntryStatus::Committed);
        }
    }
}

#[test]
fn a_record_that_was_never_vetted_stays_so_under_drift() {
    for drift in DRIFTS {
        assert_eq!(
            PhotoEntryStatus::Uncommitted.next(drift, false),
            PhotoEntryStatus::Uncommitted
        );
    }
}

#[test]
fn a_committed_record_follows_the_drift() {
    let status = PhotoEntryStatus::Committed;
    assert_eq!(status.next(Drift::Missing, false), PhotoEntryStatus::CommittedButMissing);
    assert_eq!(status.next(Drift::Modified, false), PhotoEntryStatus::CommittedButModified);
    assert_eq!(status.next(Drift::Unchanged, false), PhotoEntryStatus::Committed);
}

#[test]
fn a_flagged_record_is_modified_by_more_drift() {
    assert_eq!(
        PhotoEntryStatus::CommittedButMissing.next(Drift::Modified, false),
        PhotoEntryStatus::CommittedButModified
    );
    assert_eq!(
        PhotoEntryStatus::CommittedButModified.next(Drift::Modified, false),
        PhotoEntryStatus::CommittedButModified
    );
    assert_eq!(
        PhotoEntryStatus::CommittedButModified.next(Drift::Missing, false),
        PhotoEntryStatus::CommittedButMissing
    );
}

#[test]
fn a_finding_of_no_drift_clears_a_flag() {
    assert_eq!(
        PhotoEntryStatus::CommittedButModified.next(Drift::Unchanged, false),
        PhotoEntryStatus::Committed
    );
    assert_eq!(
        PhotoEntryStatus::CommittedButMissing.next(Drift::Unchanged, false),
        PhotoEntryStatus::Committed
    );
    let mut status = PhotoEntryStatus::CommittedButMissing;
    status.handle_dirty_mark(false);
    assert_eq!(status, PhotoEntryStatus::Committed);
    let mut status = PhotoEntryStatus::CommittedButModified;
    status.handle_dirty_mark(false);
    assert_eq!(status, PhotoEntryStatus::Committed);
}

#[test]
fn the_status_machine_gives_the_same_answer_every_time() {
    for status in ALL {
        for drift in DRIFTS {
            for explicit in [false, true] {
                assert_eq!(status.next(drift, explicit), status.next(drift, explicit));
            }
        }
    }
}

#[test]
fn handle_local_missing_spares_what_was_never_vetted() {
    let mut status = PhotoEntryStatus::Uncommitted;
    assert!(!status.handle_local_missing());
    assert_eq!(status, PhotoEntryStatus::Uncommitted);
    let mut status = PhotoEntryStatus::Committed;
    assert!(status.handle_local_missing());
    assert_eq!(status, PhotoEntryStatus::CommittedButMissing);
}

#[test]
fn handle_dirty_mark_flags_a_committed_record() {
    let mut status = PhotoEntryStatus::Committed;
    status.handle_dirty_mark(false);
    assert_eq!(status, PhotoEntryStatus::Committed);
    status.handle_dirty_mark(true);
    assert_eq!(status, PhotoEntryStatus::CommittedButModified);
    let mut status = PhotoEntryStatus::Uncommitted;
    status.handle_dirty_mark(true);
    assert_eq!(status, PhotoEntryStatus::Uncommitted);
}

#[test]
fn orientation_values_name_the_four_rotations() {
    assert_eq!(PhotoOrientation::from_exif(0), Some(PhotoOrientation::D0));
    assert_eq!(PhotoOrientation::from_exif(1), Some(PhotoOrientation::D0));
    assert_eq!(PhotoOrientation::from_exif(3), Some(PhotoOrientation::D180));
    assert_eq!(PhotoOrientation::from_exif(6), Some(PhotoOrientation::D90));
    assert_eq!(PhotoOrientation::from_exif(8), Some(PhotoOrientation::D270));
    assert_eq!(PhotoOrientation::from_exif(2), None);
    assert_eq!(PhotoOrientation::from_exif(9), None);
    assert!(PhotoOrientation::D90.swaps_sides());
    assert!(PhotoOrientation::D270.swaps_sides());
    assert!(!PhotoOrientation::D0.swaps_sides());
    assert!(!PhotoOrientation::D180.swaps_sides());
}
