//! The commit command: the curator has vetted some photos.
use crate::db::helpers::access::TableAccessMut;
use crate::db::helpers::table::{Table, TableKey};
use crate::db::photos::keys::PhotoQuery;
use crate::db::photos::misc::{current_time, PhotoEntryStatus, Timestamp, PID};
use crate::db::photos::patch::{committed_record, diff_of, PhotoRecordDiff};
use crate::db::photos::records::PhotoRecordView;
use crate::db::photos::table::PhotoTable;
use vstd::prelude::*;

verus! {

/// Why a commit was refused.
#[derive(Clone, Copy, Debug, PartialEq, Eq, Structural)]
pub enum CommitError {
    /// The photos were to be selected and unselected at once.
    ConflictingSelection,
}

/// What the two flags ask for: to select, to unselect, or to leave the
/// selection as it is.
pub open spec fn selection_of(select: bool, unselect: bool) -> Option<bool> {
    if select {
        Some(true)
    } else if unselect {
        Some(false)
    } else {
        None
    }
}

/// Reads the two flags. Both at once are refused.
pub fn selection(select: bool, unselect: bool) -> (request: Result<Option<bool>, CommitError>)
    ensures
        request is Err == (select && unselect),
        request matches Ok(r) ==> r == selection_of(select, unselect),
        request matches Err(e) ==> e == CommitError::ConflictingSelection,
{
    match (select, unselect) {
        (true, true) => Err(CommitError::ConflictingSelection),
        (true, false) => Ok(Some(true)),
        (false, true) => Ok(Some(false)),
        (false, false) => Ok(None),
    }
}

/// The patch that a commit makes of a record: the status is to be
/// `Committed`, and the selection is to be what was asked for, if anything
/// was.
pub open spec fn commit_diff(rec: PhotoRecordView, request: Option<bool>) -> PhotoRecordDiff {
    let base = diff_of(rec);
    PhotoRecordDiff {
        selected: match request {
            Some(sel) => base.selected.with(sel),
            None => base.selected,
        },
        status: base.status.with(PhotoEntryStatus::Committed),
        ..base
    }
}

/// The record after the curator has committed it at the time `now`.
pub open spec fn vetted_record(
    rec: PhotoRecordView,
    request: Option<bool>,
    now: Timestamp,
) -> PhotoRecordView {
    committed_record(rec, commit_diff(rec, request), now)
}

/// To commit a record twice is to commit it once.
pub proof fn lemma_vetted_once(
    rec: PhotoRecordView,
    request: Option<bool>,
    now: Timestamp,
    later: Timestamp,
)
    ensures
        vetted_record(vetted_record(rec, request, now), request, later) == vetted_record(
            rec,
            request,
            now,
        ),
        vetted_record(rec, request, now).status == PhotoEntryStatus::Committed,
        vetted_record(rec, request, now).commit_time == (if rec.status
            == PhotoEntryStatus::Committed {
            rec.commit_time
        } else {
            Some(now)
        }),
        vetted_record(rec, request, now).selected == (match request {
            Some(sel) => sel,
            None => rec.selected,
        }),
        vetted_record(rec, request, now).location == rec.location,
        vetted_record(rec, request, now).pid == rec.pid,
{
}

/// A commit keeps the commit times in step with the status: a record that
/// has a commit time exactly if it was vetted is such a record afterwards.
pub proof fn lemma_vetted_stamped(rec: PhotoRecordView, request: Option<bool>, now: Timestamp)
    requires
        rec.stamped(),
    ensures
        vetted_record(rec, request, now).stamped(),
{
}

/// Whether one of the first `n` queries leads to the record `pid`.
pub open spec fn named(table: &PhotoTable, queries: Seq<PhotoQuery>, n: int, pid: PID) -> bool {
    exists|i: int| 0 <= i < n && (#[trigger] queries[i]).leads_to(table) == Some(pid)
}

/// What a commit of the first `n` queries at the time `now` has made of the
/// table `before`: every record that a query leads to is vetted, and every
/// other record is as it was.
pub open spec fn committed(
    before: &PhotoTable,
    queries: Seq<PhotoQuery>,
    n: int,
    request: Option<bool>,
    now: Timestamp,
    after: &PhotoTable,
) -> bool {
    &&& after.rows().dom() == before.rows().dom()
    &&& after.next_pid() == before.next_pid()
    &&& after.index_view().loc2pid == before.index_view().loc2pid
    &&& forall|pid: PID| #[trigger]
        before.rows().contains_key(pid) ==> after.rows()[pid] == (if named(
            before,
            queries,
            n,
            pid,
        ) {
            vetted_record(before.rows()[pid], request, now)
        } else {
            before.rows()[pid]
        })
}

/// The commit command with what it was given.
pub struct Commit {
    pub queries: Vec<PhotoQuery>,
    pub select: bool,
    pub unselect: bool,
    pub quiet: bool,
}

impl Commit {
    /// Commits, at the time `now`, every photo that a query leads to, and
    /// selects or unselects it where that was asked for. Queries that lead
    /// nowhere are passed over. Conflicting flags are refused before
    /// anything is changed.
    pub fn run_at(self, pt: &mut TableAccessMut<'_, PhotoTable>, now: Timestamp) -> (done: Result<
        (),
        CommitError,
    >)
        requires
            old(pt).table.wf(),
        ensures
            *final(final(pt).table) == *final(old(pt).table),
            final(pt).table.wf(),
            final(pt).table.unsaved() == (old(pt).table.unsaved() || final(pt).table.rows() != old(
                pt,
            ).table.rows()),
            done is Err == (self.select && self.unselect),
            match done {
                Ok(()) => committed(
                    old(pt).table,
                    self.queries@,
                    self.queries@.len() as int,
                    selection_of(self.select, self.unselect),
                    now,
                    final(pt).table,
                ),
                Err(e) => e == CommitError::ConflictingSelection && *final(pt).table == *old(
                    pt,
                ).table,
            },
    {
        let request = match selection(self.select, self.unselect) {
            Ok(request) => request,
            Err(e) => {
                return Err(e);
            },
        };
        let ghost before = *pt.table;
        let queries = self.queries;
        let mut i: usize = 0;
        while i < queries.len()
            invariant
                i <= queries.len(),
                before.wf(),
                pt.table.wf(),
                *final(pt.table) == *final(old(pt).table),
                committed(&before, queries@, i as int, request, now, pt.table),
                pt.table.unsaved() == (before.unsaved() || pt.table.rows() != before.rows()),
            decreases queries.len() - i,
        {
            let ghost cur = *pt.table;
            let ghost k = i as int;
            proof {
                lemma_same_target(&before, &cur, &queries@[k]);
            }
            match pt.entry_ref(&queries[i]).modify() {
                Ok(patch) => {
                    let ghost pid = patch.rec_diff.pid;
                    let mut patch = patch;
                    match request {
                        Some(sel) => {
                            patch.set_selected(sel);
                        },
                        None => {},
                    }
                    proof {
                        assert(patch.rec_diff.status.with(PhotoEntryStatus::Committed) == commit_diff(
                            cur.rows()[pid],
                            request,
                        ).status);
                    }
                    patch.with_status(PhotoEntryStatus::Committed).commit_at(now);
                    proof {
                        let rec = before.rows()[pid];
                        assert(before.rows().contains_key(pid));
                        lemma_vetted_once(rec, request, now, now);
                        assert(pt.table.rows()[pid] == vetted_record(rec, request, now));
                        assert(pt.table.rows().dom() =~= before.rows().dom());
                        if pt.table.rows()[pid] == cur.rows()[pid] {
                            assert(pt.table.rows() =~= cur.rows());
                        } else if cur.rows() == before.rows() {
                            assert(pt.table.rows()[pid] != before.rows()[pid]);
                        } else {
                            assert(!(cur.rows() =~= before.rows()));
                            let p = choose|p: PID|
                                before.rows().contains_key(p) && cur.rows()[p] != before.rows()[p];
                            assert(named(&before, queries@, k, p));
                            lemma_named_step(&before, queries@, k, p);
                            assert(pt.table.rows()[p] != before.rows()[p]);
                        }
                        assert forall|p: PID| #[trigger] before.rows().contains_key(p) implies pt.table.rows()[p]
                            == (if named(&before, queries@, k + 1, p) {
                            vetted_record(before.rows()[p], request, now)
                        } else {
                            before.rows()[p]
                        }) by {
                            lemma_named_step(&before, queries@, k, p);
                        }
                    }
                },
                Err(entry) => {
                    entry.release();
                    proof {
                        assert forall|p: PID| #[trigger] before.rows().contains_key(p) implies pt.table.rows()[p]
                            == (if named(&before, queries@, k + 1, p) {
                            vetted_record(before.rows()[p], request, now)
                        } else {
                            before.rows()[p]
                        }) by {
                            lemma_named_step(&before, queries@, k, p);
                        }
                    }
                },
            }
            i += 1;
        }
        Ok(())
    }

    /// Commits at the time that the clock shows.
    pub fn run(self, pt: &mut TableAccessMut<'_, PhotoTable>) -> (done: Result<(), CommitError>)
        requires
            old(pt).table.wf(),
        ensures
            *final(final(pt).table) == *final(old(pt).table),
            final(pt).table.wf(),
            final(pt).table.unsaved() == (old(pt).table.unsaved() || final(pt).table.rows() != old(
                pt,
            ).table.rows()),
            done is Err == (self.select && self.unselect),
            match done {
                Ok(()) => exists|now: Timestamp| #[trigger]
                    committed(
                        old(pt).table,
                        self.queries@,
                        self.queries@.len() as int,
                        selection_of(self.select, self.unselect),
                        now,
                        final(pt).table,
                    ),
                Err(e) => e == CommitError::ConflictingSelection && *final(pt).table == *old(
                    pt,
                ).table,
            },
    {
        let now = current_time();
        self.run_at(pt, now)
    }
}

/// Whether a query leads to a record among the first `k + 1` queries comes
/// down to the first `k` and the query at place `k`.
proof fn lemma_named_step(table: &PhotoTable, queries: Seq<PhotoQuery>, k: int, pid: PID)
    requires
        0 <= k < queries.len(),
    ensures
        named(table, queries, k + 1, pid) <==> named(table, queries, k, pid)
            || queries[k].leads_to(table) == Some(pid),
{
    if named(table, queries, k + 1, pid) {
        let i = choose|i: int|
            0 <= i < k + 1 && (#[trigger] queries[i]).leads_to(table) == Some(pid);
        if i < k {
            assert(0 <= i < k && queries[i].leads_to(table) == Some(pid));
        }
    }
    if named(table, queries, k, pid) {
        let i = choose|i: int| 0 <= i < k && (#[trigger] queries[i]).leads_to(table) == Some(pid);
        assert(0 <= i < k + 1 && queries[i].leads_to(table) == Some(pid));
    }
    if queries[k].leads_to(table) == Some(pid) {
        assert(0 <= k < k + 1 && queries[k].leads_to(table) == Some(pid));
    }
}

/// A query leads to the same record in two tables that hold the same keys
/// and know the same locations.
proof fn lemma_same_target(before: &PhotoTable, cur: &PhotoTable, query: &PhotoQuery)
    requires
        cur.rows().dom() == before.rows().dom(),
        cur.index_view().loc2pid == before.index_view().loc2pid,
    ensures
        query.leads_to(cur) == query.leads_to(before),
{
    match query {
        PhotoQuery::PID(pid) => {
            assert(cur.rows().contains_key(*pid) == before.rows().contains_key(*pid));
            assert(pid.leads_to(cur) == pid.leads_to(before));
        },
        PhotoQuery::FileLocation(loc) => {
            assert(loc.leads_to(cur) == loc.leads_to(before));
        },
    }
}

} // verus!
