//! The fix command: a photo without a capture time of its own takes over
//! that of another photo.
use crate::db::helpers::access::TableAccessMut;
use crate::db::helpers::table::{Table, TableKey};
use crate::db::photos::keys::PhotoQuery;
use crate::db::photos::misc::{current_time, fixed_from, PhotoMetadata, Timestamp};
use crate::db::photos::patch::{committed_record, diff_of, PhotoRecordDiff};
use crate::db::photos::records::PhotoRecordView;
use crate::db::photos::table::PhotoTable;
use vstd::prelude::*;

verus! {

/// Why nothing was fixed.
#[derive(Clone, Copy, Debug, PartialEq, Eq, Structural)]
pub enum FixError {
    /// One of the two queries leads to no photo.
    NotFound,
}

/// The record after it has taken over the capture time of `donor`, by a
/// patch that was committed at the time `now`. A record with a capture time
/// of its own stays as it is: the patch is given up, and nothing of the
/// record changes, its status included.
pub open spec fn fixed_record(
    rec: PhotoRecordView,
    donor: PhotoMetadata,
    now: Timestamp,
) -> PhotoRecordView {
    if rec.metadata.etime is Some {
        rec
    } else {
        committed_record(
            rec,
            PhotoRecordDiff {
                metadata: diff_of(rec).metadata.with(fixed_from(rec.metadata, donor)),
                ..diff_of(rec)
            },
            now,
        )
    }
}

/// The fix command with what it was given: the photo that `dst` leads to
/// gives its capture time to the photo that `src` leads to.
pub struct Fix {
    pub dst: PhotoQuery,
    pub src: PhotoQuery,
}

impl Fix {
    /// Fixes at the time `now`. Returns whether the photo was in need of a
    /// capture time; one that has its own is left alone.
    pub fn run_at(self, pt: &mut TableAccessMut<'_, PhotoTable>, now: Timestamp) -> (fixed: Result<
        bool,
        FixError,
    >)
        requires
            old(pt).table.wf(),
        ensures
            *final(final(pt).table) == *final(old(pt).table),
            final(pt).table.wf(),
            final(pt).table.unsaved() == (old(pt).table.unsaved() || final(pt).table.rows() != old(
                pt,
            ).table.rows()),
            match (self.dst.leads_to(old(pt).table), self.src.leads_to(old(pt).table)) {
                (Some(donor), Some(pid)) => {
                    &&& fixed == Ok::<bool, FixError>(
                        old(pt).table.rows()[pid].metadata.etime is None,
                    )
                    &&& final(pt).table.rows() == old(pt).table.rows().insert(
                        pid,
                        fixed_record(
                            old(pt).table.rows()[pid],
                            old(pt).table.rows()[donor].metadata,
                            now,
                        ),
                    )
                },
                _ => {
                    &&& fixed == Err::<bool, FixError>(FixError::NotFound)
                    &&& *final(pt).table == *old(pt).table
                },
            },
    {
        let donor = match pt.as_access().query(&self.dst) {
            Some(rec) => rec.metadata,
            None => {
                return Err(FixError::NotFound);
            },
        };
        let ghost before = pt.table.rows();
        match pt.entry_ref(&self.src).modify() {
            Ok(patch) => {
                let ghost pid = patch.rec_diff.pid;
                let mut metadata = *patch.metadata();
                let fixed = metadata.fix_from(&donor);
                if fixed {
                    patch.with_metadata(metadata).commit_at(now);
                } else {
                    patch.into_diff();
                }
                proof {
                    if pt.table.rows()[pid] == before[pid] {
                        assert(pt.table.rows() =~= before);
                    }
                }
                Ok(fixed)
            },
            Err(entry) => {
                entry.release();
                Err(FixError::NotFound)
            },
        }
    }

    /// Fixes at the time that the clock shows.
    pub fn run(self, pt: &mut TableAccessMut<'_, PhotoTable>) -> (fixed: Result<bool, FixError>)
        requires
            old(pt).table.wf(),
        ensures
            *final(final(pt).table) == *final(old(pt).table),
            final(pt).table.wf(),
            final(pt).table.unsaved() == (old(pt).table.unsaved() || final(pt).table.rows() != old(
                pt,
            ).table.rows()),
            match (self.dst.leads_to(old(pt).table), self.src.leads_to(old(pt).table)) {
                (Some(donor), Some(pid)) => {
                    &&& fixed == Ok::<bool, FixError>(
                        old(pt).table.rows()[pid].metadata.etime is None,
                    )
                    &&& exists|now: Timestamp|
                        final(pt).table.rows() == old(pt).table.rows().insert(
                            pid,
                            #[trigger] fixed_record(
                                old(pt).table.rows()[pid],
                                old(pt).table.rows()[donor].metadata,
                                now,
                            ),
                        )
                },
                _ => {
                    &&& fixed == Err::<bool, FixError>(FixError::NotFound)
                    &&& *final(pt).table == *old(pt).table
                },
            },
    {
        let now = current_time();
        self.run_at(pt, now)
    }
}

} // verus!
