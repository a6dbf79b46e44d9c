//! Bringing one file in step with the table, in three stages: a cheap
//! comparison with the record, a comparison of content hashes where the
//! cheap one raised doubt, and the change to the table.
use super::misc::{current_time, FileHash, PhotoEntryStatus, Timestamp, PID};
use super::patch::{committed_record, diff_of, PhotoRecordDiff};
use super::records::{
    fresh_record, LocalPhoto, LocalPhotoView, PhotoRecord, PhotoRecordView, SyncError,
};
use super::table::PhotoTable;
use crate::db::helpers::access::{TableAccess, TableAccessMut};
use crate::db::helpers::table::{Table, TableKey};
use vstd::prelude::*;

verus! {

/// What the first stage found out about a file that has a record.
pub trait Stub {
    /// Whether the file is taken to have changed.
    spec fn changed(&self) -> bool;

    fn has_changed(&self) -> (changed: bool)
        ensures
            changed == self.changed(),
    ;
}

/// The record of a file as the first stage saw it, and whether the file is
/// taken to differ from it.
#[derive(Clone, Copy, Debug, PartialEq, Eq, Structural)]
pub struct DBStub {
    pub pid: PID,
    pub file_hash: FileHash,
    pub status: PhotoEntryStatus,
    pub local_has_changed: bool,
}

impl Stub for DBStub {
    open spec fn changed(&self) -> bool {
        self.local_has_changed
    }

    fn has_changed(&self) -> (changed: bool) {
        self.local_has_changed
    }
}

/// The stub that the first stage makes of a record and a file: the file is
/// taken to have changed where creation time, modification time or length
/// differ.
pub open spec fn stub_of(rec: PhotoRecordView, file: LocalPhotoView) -> DBStub {
    DBStub {
        pid: rec.pid,
        file_hash: rec.file_hash,
        status: rec.status,
        local_has_changed: file.metadata.likely_changed_since(rec.metadata),
    }
}

/// Whether the second stage has to hash a file: it has no record, or the
/// first stage took it to have changed.
pub open spec fn must_hash(stub: Option<DBStub>) -> bool {
    match stub {
        Some(s) => s.local_has_changed,
        None => true,
    }
}

/// The stub after the second stage: a file whose hash is the recorded one
/// has not changed, whatever its metadata say.
pub open spec fn settled_stub(stub: Option<DBStub>, file: LocalPhotoView) -> Option<DBStub> {
    match stub {
        Some(s) => if s.local_has_changed && s.file_hash == file.settled_hash() {
            Some(DBStub { local_has_changed: false, ..s })
        } else {
            Some(s)
        },
        None => None,
    }
}

/// Something that can be compared with its record by content.
pub trait SyncerQuery {
    type Stub: Stub;

    /// Whether the second stage can be run on this query with this stub.
    spec fn can_settle(&self, stub: Option<Self::Stub>) -> bool;

    /// The second stage: hashes the content where that is called for and
    /// settles whether the file has changed.
    fn run_stage2(&mut self, stub: Option<Self::Stub>) -> (settled: Result<
        Option<Self::Stub>,
        SyncError,
    >)
        ensures
            settled is Ok == old(self).can_settle(stub),
    ;
}

impl SyncerQuery for LocalPhoto {
    type Stub = DBStub;

    open spec fn can_settle(&self, stub: Option<DBStub>) -> bool {
        must_hash(stub) ==> self@.hashable()
    }

    fn run_stage2(&mut self, stub: Option<DBStub>) -> (settled: Result<Option<DBStub>, SyncError>)
        ensures
            settled matches Ok(s) ==> s == settled_stub(stub, old(self)@) && final(self)@ == (
            if must_hash(stub) {
                LocalPhotoView {
                    file_hash: Some(old(self)@.settled_hash()),
                    content: if old(self)@.file_hash is Some {
                        old(self)@.content
                    } else {
                        None
                    },
                    ..old(self)@
                }
            } else {
                old(self)@
            }),
            settled matches Err(e) ==> e == SyncError::NotPrefetched && final(self)@ == old(
                self,
            )@,
    {
        let should_hash = match &stub {
            Some(s) => s.local_has_changed,
            None => true,
        };
        if !should_hash {
            return Ok(stub);
        }
        match self.fill_file_hash() {
            Ok(()) => {},
            Err(e) => {
                return Err(e);
            },
        }
        match stub {
            Some(s) => {
                let mut s = s;
                if Some(s.file_hash) == self.file_hash {
                    s.local_has_changed = false;
                }
                Ok(Some(s))
            },
            None => Ok(None),
        }
    }
}

/// A record that a query can be compared with.
pub trait SyncerTarget {
    type Query: SyncerQuery;

    /// The first stage: the cheap comparison of a file with its record.
    fn run_stage1(&self, query: &Self::Query) -> <Self::Query as SyncerQuery>::Stub;
}

impl SyncerTarget for PhotoRecord {
    type Query = LocalPhoto;

    fn run_stage1(&self, query: &LocalPhoto) -> (stub: DBStub)
        ensures
            stub == stub_of(self@, query@),
    {
        DBStub {
            pid: self.pid,
            file_hash: self.file_hash,
            status: self.status,
            local_has_changed: query.metadata.differs_cheaply(&self.metadata),
        }
    }
}

/// How far a file has come.
#[derive(Clone, Copy, Debug, PartialEq, Eq, Structural)]
pub enum Stage {
    NotStarted,
    Stage1,
    Stage2,
    Finished,
}

impl Stage {
    /// The stage after this one; there is none after the last.
    pub open spec fn successor(self) -> Stage {
        match self {
            Stage::NotStarted => Stage::Stage1,
            Stage::Stage1 => Stage::Stage2,
            Stage::Stage2 => Stage::Finished,
            Stage::Finished => Stage::Finished,
        }
    }

    /// Moves on to the next stage.
    pub fn next(&mut self)
        requires
            *old(self) != Stage::Finished,
        ensures
            *final(self) == old(self).successor(),
    {
        *self = match *self {
            Stage::NotStarted => Stage::Stage1,
            Stage::Stage1 => Stage::Stage2,
            _ => Stage::Finished,
        };
    }
}

/// One file on its way through the three stages.
pub struct LocalSyncer {
    pub local_entry: LocalPhoto,
    pub stage: Stage,
    pub stub: Option<DBStub>,
}

/// The diff that the last stage commits for a file that has a record: hash
/// and metadata are overwritten where the file has changed, and nothing else
/// is touched.
pub open spec fn sync_diff(rec: PhotoRecordView, stub: DBStub, file: LocalPhotoView) -> PhotoRecordDiff {
    if stub.local_has_changed {
        PhotoRecordDiff {
            metadata: diff_of(rec).metadata.with(file.metadata),
            file_hash: diff_of(rec).file_hash.with(file.file_hash->0),
            ..diff_of(rec)
        }
    } else {
        diff_of(rec)
    }
}

impl LocalSyncer {
    /// A file that is about to be brought in step with the table.
    pub fn new(local_entry: LocalPhoto) -> (syncer: Self)
        ensures
            syncer.local_entry == local_entry,
            syncer.stage == Stage::NotStarted,
            syncer.stub is None,
    {
        LocalSyncer { local_entry, stage: Stage::NotStarted, stub: None }
    }

    /// Whether the file is taken to have changed; a file without a record
    /// counts as changed.
    pub fn target_has_changed(&self) -> (changed: bool)
        ensures
            changed == must_hash(self.stub),
    {
        match &self.stub {
            Some(s) => s.has_changed(),
            None => true,
        }
    }

    /// The first stage: looks the location of the file up in the table and,
    /// where it has a record, compares the file with it by what is cheap to
    /// get.
    pub fn run_stage1(self, db: &TableAccess<'_, PhotoTable>) -> (syncer: Self)
        requires
            db.table.wf(),
            self.stage == Stage::NotStarted,
        ensures
            syncer.local_entry == self.local_entry,
            syncer.stage == Stage::Stage1,
            syncer.stub == (match self.local_entry.location.leads_to(db.table) {
                Some(pid) => Some(stub_of(db.table.rows()[pid], self.local_entry@)),
                None => None,
            }),
    {
        let mut syncer = self;
        syncer.stub = match db.query(&syncer.local_entry.location) {
            Some(rec) => Some(rec.run_stage1(&syncer.local_entry)),
            None => None,
        };
        syncer.stage.next();
        syncer
    }

    /// The second stage: hashes the content of a file that is new or was
    /// taken to have changed, and takes the doubt back where the hash is the
    /// recorded one.
    pub fn run_stage2(self) -> (settled: Result<Self, SyncError>)
        requires
            self.stage == Stage::Stage1,
        ensures
            settled is Ok == self.local_entry.can_settle(self.stub),
            settled matches Ok(syncer) ==> {
                &&& syncer.stage == Stage::Stage2
                &&& syncer.stub == settled_stub(self.stub, self.local_entry@)
                &&& syncer.local_entry@.location == self.local_entry@.location
                &&& syncer.local_entry@.metadata == self.local_entry@.metadata
                &&& must_hash(self.stub) ==> syncer.local_entry@.file_hash == Some(
                    self.local_entry@.settled_hash(),
                )
            },
            settled matches Err(e) ==> e == SyncError::NotPrefetched,
    {
        let mut syncer = self;
        let stub = syncer.stub.take();
        match syncer.local_entry.run_stage2(stub) {
            Ok(settled) => {
                syncer.stub = settled;
                syncer.stage.next();
                Ok(syncer)
            },
            Err(e) => Err(e),
        }
    }

    /// The last stage, at the time `now`. A file with a record commits what
    /// it changes in the record; a file without one gets a new record.
    pub fn finish_at(self, table: &mut PhotoTable, now: Timestamp) -> (pid: Result<PID, SyncError>)
        requires
            old(table).wf(),
            self.stage == Stage::Stage2,
            self.stub matches Some(s) ==> old(table).rows().contains_key(s.pid) && (
            s.local_has_changed ==> self.local_entry@.file_hash is Some),
            self.stub is None ==> self.local_entry@.file_hash is Some,
        ensures
            final(table).wf(),
            finished(old(table), self.stub, self.local_entry@, now, final(table), pid),
            final(table).unsaved() == (old(table).unsaved() || final(table).rows() != old(
                table,
            ).rows()),
    {
        match self.stub {
            Some(stub) => {
                let ghost rows = table.rows();
                let mut diff = PhotoRecordDiff::new(table.get(&stub.pid).unwrap());
                if stub.local_has_changed {
                    diff.metadata.set(self.local_entry.metadata);
                    diff.file_hash.set(self.local_entry.file_hash.unwrap());
                }
                table.apply_diff(diff, now);
                proof {
                    if committed_record(rows[stub.pid], diff, now) == rows[stub.pid] {
                        assert(table.rows() =~= rows);
                    }
                }
                Ok(stub.pid)
            },
            None => {
                let exhausted = table.peek_pid() == u32::MAX;
                let ghost rows = table.rows();
                match table.insert(PhotoRecord::new(0, self.local_entry)) {
                    Some(pid) => {
                        table.set_modified(true);
                        proof {
                            assert(table.rows().contains_key(pid));
                        }
                        Ok(pid)
                    },
                    None => if exhausted {
                        Err(SyncError::KeysExhausted)
                    } else {
                        Err(SyncError::DuplicateLocation)
                    },
                }
            },
        }
    }

    /// The last stage through an access handle, at the time `now`.
    pub fn run_finish_at(self, db: &mut TableAccessMut<'_, PhotoTable>, now: Timestamp) -> (pid:
        Result<PID, SyncError>)
        requires
            old(db).table.wf(),
            self.stage == Stage::Stage2,
            self.stub matches Some(s) ==> old(db).table.rows().contains_key(s.pid) && (
            s.local_has_changed ==> self.local_entry@.file_hash is Some),
            self.stub is None ==> self.local_entry@.file_hash is Some,
        ensures
            *final(final(db).table) == *final(old(db).table),
            final(db).table.wf(),
            finished(old(db).table, self.stub, self.local_entry@, now, final(db).table, pid),
            final(db).table.unsaved() == (old(db).table.unsaved() || final(db).table.rows()
                != old(db).table.rows()),
    {
        self.finish_at(db.table, now)
    }

    /// The last stage through an access handle, at the time that the clock
    /// shows.
    pub fn run_finish(self, db: &mut TableAccessMut<'_, PhotoTable>) -> (pid: Result<
        PID,
        SyncError,
    >)
        requires
            old(db).table.wf(),
            self.stage == Stage::Stage2,
            self.stub matches Some(s) ==> old(db).table.rows().contains_key(s.pid) && (
            s.local_has_changed ==> self.local_entry@.file_hash is Some),
            self.stub is None ==> self.local_entry@.file_hash is Some,
        ensures
            *final(final(db).table) == *final(old(db).table),
            final(db).table.wf(),
            exists|now: Timestamp| #[trigger]
                finished(old(db).table, self.stub, self.local_entry@, now, final(db).table, pid),
            final(db).table.unsaved() == (old(db).table.unsaved() || final(db).table.rows()
                != old(db).table.rows()),
    {
        let now = current_time();
        self.finish_at(db.table, now)
    }
}

/// What the last stage, at the time `now`, has made of the table `before`
/// for a file with the stub `stub`, and what it has returned.
///
/// For a file with a record, the record has taken the commit of what the file
/// changes, and its primary key comes back. For a file without one, a new
/// record stands under the next primary key, which comes back; unless the
/// table has a record at that location or no key left: then nothing has
/// changed and the error says which.
pub open spec fn finished(
    before: &PhotoTable,
    stub: Option<DBStub>,
    file: LocalPhotoView,
    now: Timestamp,
    after: &PhotoTable,
    pid: Result<PID, SyncError>,
) -> bool {
    match stub {
        Some(s) => {
            &&& pid == Ok::<PID, SyncError>(s.pid)
            &&& after.rows() == before.rows().insert(
                s.pid,
                committed_record(before.rows()[s.pid], sync_diff(before.rows()[s.pid], s, file), now),
            )
            &&& after.next_pid() == before.next_pid()
        },
        None => if before.accepts(fresh_record(0, file)) {
            &&& pid == Ok::<PID, SyncError>(before.next_pid())
            &&& after.rows() == before.rows().insert(
                before.next_pid(),
                fresh_record(before.next_pid(), file),
            )
            &&& after.next_pid() == before.next_pid() + 1
        } else {
            &&& pid is Err
            &&& pid->Err_0 == (if before.next_pid() == u32::MAX {
                SyncError::KeysExhausted
            } else {
                SyncError::DuplicateLocation
            })
            &&& after.rows() == before.rows()
            &&& after.next_pid() == before.next_pid()
        },
    }
}

/// A table whose records queries are brought in step with.
pub trait SyncerTargetCollection {
    type Query: SyncerQuery;

    type Item: SyncerTarget<Query = Self::Query>;

    type SyncOutput;

    /// Whether the collection is in order.
    spec fn sound(&self) -> bool;

    /// Whether a query can be given a record of its own.
    spec fn addable(query: &Self::Query) -> bool;

    /// The record that a query belongs to.
    fn query_item(&self, query: &Self::Query) -> Option<&Self::Item>
        requires
            self.sound(),
    ;

    /// Gives a query without a record a record of its own.
    fn add_item(&mut self, query: Self::Query) -> (added: Option<Self::SyncOutput>)
        requires
            old(self).sound(),
            Self::addable(&query),
        ensures
            final(self).sound(),
    ;
}

impl SyncerTargetCollection for PhotoTable {
    type Query = LocalPhoto;

    type Item = PhotoRecord;

    type SyncOutput = PID;

    open spec fn sound(&self) -> bool {
        self.wf()
    }

    open spec fn addable(query: &LocalPhoto) -> bool {
        query@.file_hash is Some
    }

    fn query_item(&self, query: &LocalPhoto) -> (item: Option<&PhotoRecord>)
        ensures
            item is Some == query.location.leads_to(self) is Some,
            item matches Some(rec) ==> rec@ == self.rows()[query.location.leads_to(self)->0],
    {
        match self.pid_at(query.location.mpid, query.location.filename.as_slice()) {
            Some(pid) => self.get(&pid),
            None => None,
        }
    }

    fn add_item(&mut self, query: LocalPhoto) -> (pid: Option<PID>)
        ensures
            pid is Some == old(self).accepts(fresh_record(0, query@)),
            pid matches Some(p) ==> p == old(self).next_pid() && final(self).rows() == old(
                self,
            ).rows().insert(p, fresh_record(p, query@)),
            pid is None ==> final(self).rows() == old(self).rows(),
    {
        self.insert(PhotoRecord::new(0, query))
    }
}

/// Something that carries a query and its stub through the stages.
pub trait Syncer: Sized {
    type Query: SyncerQuery;

    /// The stub that is carried.
    spec fn stub_view(&self) -> Option<<Self::Query as SyncerQuery>::Stub>;

    /// Whether there is a stage left to move on to.
    spec fn unfinished(&self) -> bool;

    fn get_query(&self) -> &Self::Query;

    fn take_query(self) -> Self::Query;

    fn get_stub(&self) -> (stub: Option<&<Self::Query as SyncerQuery>::Stub>)
        ensures
            stub is Some == self.stub_view() is Some,
            stub matches Some(s) ==> *s == self.stub_view()->0,
    ;

    fn take_stub(&mut self) -> (stub: Option<<Self::Query as SyncerQuery>::Stub>)
        ensures
            stub == old(self).stub_view(),
            final(self).stub_view() is None,
    ;

    fn replace_stub(&mut self, stub: <Self::Query as SyncerQuery>::Stub)
        ensures
            final(self).stub_view() == Some(stub),
    ;

    fn next_stage(&mut self)
        requires
            old(self).unfinished(),
    ;
}

impl Syncer for LocalSyncer {
    type Query = LocalPhoto;

    open spec fn stub_view(&self) -> Option<DBStub> {
        self.stub
    }

    open spec fn unfinished(&self) -> bool {
        self.stage != Stage::Finished
    }

    fn get_query(&self) -> (query: &LocalPhoto)
        ensures
            *query == self.local_entry,
    {
        &self.local_entry
    }

    fn take_query(self) -> (query: LocalPhoto)
        ensures
            query == self.local_entry,
    {
        self.local_entry
    }

    fn get_stub(&self) -> (stub: Option<&DBStub>) {
        self.stub.as_ref()
    }

    fn take_stub(&mut self) -> (stub: Option<DBStub>)
        ensures
            final(self).local_entry == old(self).local_entry,
            final(self).stage == old(self).stage,
    {
        self.stub.take()
    }

    fn replace_stub(&mut self, stub: DBStub)
        ensures
            final(self).local_entry == old(self).local_entry,
            final(self).stage == old(self).stage,
    {
        self.stub = Some(stub);
    }

    fn next_stage(&mut self)
        ensures
            final(self).stage == old(self).stage.successor(),
            final(self).local_entry == old(self).local_entry,
            final(self).stub == old(self).stub,
    {
        self.stage.next();
    }
}

} // verus!
