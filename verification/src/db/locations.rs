//! Where things are: canonical directory paths, mounted directories and the
//! files below them.
use crate::db::helpers::access::TableAccess;
use crate::db::helpers::table::{Table, TableKey};
use crate::db::mounts::records::{MountId, MountPointRecord};
use crate::db::mounts::table::{id_in_use, MountPointTable};
use crate::util::bytes::{bytes_equal, copy_bytes};
use crate::util::fs::{find_last, last_of, lemma_last_of, name_of, DOT, SEPARATOR};
use vstd::prelude::*;

verus! {

/// Whether the component that starts behind the separator at `at` is a proper
/// name: not empty (unless the path is the root alone), not `.` and not `..`.
pub open spec fn component_ok(p: Seq<u8>, at: int) -> bool {
    let n = p.len() as int;
    &&& at + 1 == n ==> n == 1
    &&& at + 1 < n ==> p[at + 1] != SEPARATOR
    &&& at + 1 < n && p[at + 1] == DOT ==> at + 2 < n && p[at + 2] != SEPARATOR
    &&& at + 2 < n && p[at + 1] == DOT && p[at + 2] == DOT ==> at + 3 < n && p[at + 3]
        != SEPARATOR
}

/// Whether `p` is spelled canonically: absolute, without a NUL byte, without
/// empty, `.` or `..` components, and without a separator at its end unless it
/// is the root. Two canonical spellings of one directory are the same bytes.
pub open spec fn is_canonical(p: Seq<u8>) -> bool {
    &&& p.len() > 0
    &&& p[0] == SEPARATOR
    &&& forall|i: int| 0 <= i < p.len() ==> p[i] != 0
    &&& forall|i: int| 0 <= i < p.len() && p[i] == SEPARATOR ==> #[trigger] component_ok(p, i)
}

/// An absolute path in canonical spelling.
#[derive(Debug)]
pub struct CanonicalizedPath {
    bytes: Vec<u8>,
}

impl View for CanonicalizedPath {
    type V = Seq<u8>;

    closed spec fn view(&self) -> Seq<u8> {
        self.bytes@
    }
}

/// Why a path was not taken.
#[derive(Clone, Copy, Debug, PartialEq, Eq, Structural)]
pub enum PathError {
    /// The bytes are not a canonical spelling of an absolute path.
    NotCanonical,
}

fn check_component(p: &[u8], at: usize) -> (ok: bool)
    requires
        at < p@.len(),
    ensures
        ok == component_ok(p@, at as int),
{
    let n = p.len();
    if at + 1 == n {
        return n == 1;
    }
    if p[at + 1] == SEPARATOR {
        return false;
    }
    if p[at + 1] != DOT {
        return true;
    }
    if at + 2 == n || p[at + 2] == SEPARATOR {
        return false;
    }
    if p[at + 2] != DOT {
        return true;
    }
    !(at + 3 == n || p[at + 3] == SEPARATOR)
}

/// Whether the bytes are a canonical spelling of an absolute path.
pub fn check_canonical(p: &[u8]) -> (ok: bool)
    ensures
        ok == is_canonical(p@),
{
    if p.len() == 0 || p[0] != SEPARATOR {
        return false;
    }
    let mut i: usize = 0;
    while i < p.len()
        invariant
            i <= p.len(),
            p@.len() > 0,
            p@[0] == SEPARATOR,
            forall|j: int| 0 <= j < i ==> p@[j] != 0,
            forall|j: int| 0 <= j < i && p@[j] == SEPARATOR ==> #[trigger] component_ok(p@, j),
        decreases p.len() - i,
    {
        if p[i] == 0 {
            return false;
        }
        if p[i] == SEPARATOR && !check_component(p, i) {
            return false;
        }
        i += 1;
    }
    true
}

impl CanonicalizedPath {
    #[verifier::type_invariant]
    spec fn canonical(self) -> bool {
        is_canonical(self.bytes@)
    }

    /// Takes a path that is already resolved. Any other spelling is refused.
    pub fn new(path: &[u8]) -> (made: Result<Self, PathError>)
        ensures
            made is Ok == is_canonical(path@),
            made matches Ok(p) ==> p@ == path@,
            made matches Err(e) ==> e == PathError::NotCanonical,
    {
        if check_canonical(path) {
            Ok(CanonicalizedPath { bytes: copy_bytes(path) })
        } else {
            Err(PathError::NotCanonical)
        }
    }

    /// The bytes of the path.
    pub fn as_bytes(&self) -> (bytes: &[u8])
        ensures
            bytes@ == self@,
            is_canonical(self@),
    {
        proof {
            use_type_invariant(self);
        }
        self.bytes.as_slice()
    }

    /// A copy of the path.
    pub fn duplicate(&self) -> (copy: Self)
        ensures
            copy@ == self@,
    {
        proof {
            use_type_invariant(self);
        }
        CanonicalizedPath { bytes: copy_bytes(self.bytes.as_slice()) }
    }
}

impl Clone for CanonicalizedPath {
    fn clone(&self) -> (copy: Self)
        ensures
            copy@ == self@,
    {
        self.duplicate()
    }
}

/// Takes a path for a canonical one.
pub trait Canonicalize {
    /// The bytes that are offered as a path.
    spec fn offered(&self) -> Seq<u8>;

    fn resolve(self) -> (made: Result<CanonicalizedPath, PathError>)
        ensures
            made is Ok == is_canonical(self.offered()),
            made matches Ok(p) ==> p@ == self.offered(),
    ;
}

impl Canonicalize for &[u8] {
    open spec fn offered(&self) -> Seq<u8> {
        self@
    }

    fn resolve(self) -> (made: Result<CanonicalizedPath, PathError>) {
        CanonicalizedPath::new(self)
    }
}

impl Canonicalize for Vec<u8> {
    open spec fn offered(&self) -> Seq<u8> {
        self@
    }

    fn resolve(self) -> (made: Result<CanonicalizedPath, PathError>) {
        CanonicalizedPath::new(self.as_slice())
    }
}

/// The directory that holds what a canonical path names: everything before
/// the last separator, or the root for what lies directly below it.
pub open spec fn parent_of(p: Seq<u8>) -> Seq<u8> {
    if last_of(p, SEPARATOR) <= 0 {
        seq![SEPARATOR]
    } else {
        p.subrange(0, last_of(p, SEPARATOR))
    }
}

/// The path of `name` below the directory `dir`. A name that is itself an
/// absolute path stands for itself.
pub open spec fn join_path(dir: Seq<u8>, name: Seq<u8>) -> Seq<u8> {
    if name.len() > 0 && name[0] == SEPARATOR {
        name
    } else if dir.len() > 0 && dir.last() == SEPARATOR {
        dir + name
    } else {
        dir + seq![SEPARATOR] + name
    }
}

/// The directory above a canonical path is spelled canonically too.
pub proof fn lemma_parent_canonical(p: Seq<u8>)
    requires
        is_canonical(p),
    ensures
        is_canonical(parent_of(p)),
{
    lemma_last_of(p, SEPARATOR);
    let at = last_of(p, SEPARATOR);
    let d = parent_of(p);
    if at <= 0 {
        assert(component_ok(d, 0));
    } else {
        assert forall|i: int| 0 <= i < d.len() && d[i] == SEPARATOR implies #[trigger] component_ok(
            d,
            i,
        ) by {
            assert(component_ok(p, i));
        }
    }
}

/// Spells the path of `name` below `dir`.
pub fn join(dir: &[u8], name: &[u8]) -> (path: Vec<u8>)
    requires
        dir@.len() + name@.len() < usize::MAX,
    ensures
        path@ == join_path(dir@, name@),
{
    if name.len() > 0 && name[0] == SEPARATOR {
        return copy_bytes(name);
    }
    let mut path = copy_bytes(dir);
    if !(dir.len() > 0 && dir[dir.len() - 1] == SEPARATOR) {
        path.push(SEPARATOR);
    }
    let ghost head = path@;
    let mut i: usize = 0;
    while i < name.len()
        invariant
            i <= name.len(),
            head.len() <= dir@.len() + 1,
            dir@.len() + name@.len() < usize::MAX,
            path@ == head + name@.subrange(0, i as int),
        decreases name.len() - i,
    {
        path.push(name[i]);
        proof {
            assert(path@ =~= head + name@.subrange(0, i + 1));
        }
        i += 1;
    }
    proof {
        assert(name@.subrange(0, name@.len() as int) =~= name@);
        assert(dir@ + seq![SEPARATOR] =~= dir@.push(SEPARATOR));
    }
    path
}

/// A mounted directory: its mount point's identifier and its path.
#[derive(Debug)]
pub struct DirectoryLocation {
    pub mpid: MountId,
    pub path: CanonicalizedPath,
}

/// A file below a mount point. Two locations are the same where the mount
/// point and the name are the same.
#[derive(Debug)]
pub struct FileLocation {
    pub mpid: MountId,
    pub filename: Vec<u8>,
}

/// A file location as contracts see it: the identifier of the mount point
/// and the name of the file below it.
pub type FileLocationView = (MountId, Seq<u8>);

impl View for FileLocation {
    type V = FileLocationView;

    open spec fn view(&self) -> FileLocationView {
        (self.mpid, self.filename@)
    }
}

/// Why no location could be made of a path.
#[derive(Clone, Copy, Debug, PartialEq, Eq, Structural)]
pub enum LocationError {
    /// The bytes are not a canonical spelling of an absolute path.
    NotCanonical,
    /// The path is the root, which lies in no directory.
    NoParent,
    /// The directory that holds the file is not mounted.
    NotMounted,
}

impl DirectoryLocation {
    /// The location of a mount point.
    pub fn from_record(mp: &MountPointRecord) -> (loc: Self)
        ensures
            loc.mpid == mp@.uuid,
            loc.path@ == mp@.path,
    {
        DirectoryLocation { mpid: mp.uuid, path: mp.path.duplicate() }
    }

    /// The location of the mount point with the identifier `mpid`.
    pub fn from_mpid(mounts: &TableAccess<'_, MountPointTable>, mpid: MountId) -> (loc: Option<
        Self,
    >)
        requires
            mounts.table.wf(),
        ensures
            loc is Some == id_in_use(mounts.table.rows(), mpid),
            loc matches Some(l) ==> l.mpid == mpid && mounts.table.rows().contains_key(l.path@)
                && mounts.table.rows()[l.path@].uuid == mpid,
    {
        proof {
            mounts.table.lemma_index_ids(mpid);
        }
        match mounts.query(&mpid) {
            Some(mp) => Some(DirectoryLocation::from_record(mp)),
            None => None,
        }
    }

    /// The location of the mount point of the directory `path`.
    pub fn from_path(mounts: &TableAccess<'_, MountPointTable>, path: &CanonicalizedPath) -> (loc:
        Option<Self>)
        requires
            mounts.table.wf(),
        ensures
            loc is Some == mounts.table.rows().contains_key(path@),
            loc matches Some(l) ==> l.path@ == path@ && l.mpid == mounts.table.rows()[path@].uuid,
    {
        match mounts.query(path) {
            Some(mp) => Some(DirectoryLocation::from_record(mp)),
            None => None,
        }
    }

    /// The location of the file `filename` in this directory.
    pub fn with_filename(&self, filename: &[u8]) -> (loc: FileLocation)
        ensures
            loc@ == (self.mpid, filename@),
    {
        FileLocation { mpid: self.mpid, filename: copy_bytes(filename) }
    }
}

impl FileLocation {
    /// The two parts that make up the identity of a location.
    pub fn get_parts(&self) -> (parts: (MountId, &[u8]))
        ensures
            parts.0 == self@.0,
            parts.1@ == self@.1,
    {
        (self.mpid, self.filename.as_slice())
    }

    /// Whether two locations are the same.
    pub fn same_as(&self, other: &FileLocation) -> (same: bool)
        ensures
            same == (self@ == other@),
    {
        self.mpid == other.mpid && bytes_equal(self.filename.as_slice(), other.filename.as_slice())
    }

    /// A copy of the location.
    pub fn duplicate(&self) -> (copy: Self)
        ensures
            copy@ == self@,
    {
        FileLocation { mpid: self.mpid, filename: copy_bytes(self.filename.as_slice()) }
    }

    /// The absolute path of the file, made of the path of its mount point
    /// and its name; `None` where the mount point is not in the table, or
    /// where the path would be longer than a byte string can be.
    pub fn filepath(&self, mounts: &TableAccess<'_, MountPointTable>) -> (path: Option<Vec<u8>>)
        requires
            mounts.table.wf(),
        ensures
            path is Some == (id_in_use(mounts.table.rows(), self.mpid)
                && mounts.table.index_view()[self.mpid].len() + self.filename@.len()
                < usize::MAX),
            path matches Some(p) ==> p@ == join_path(
                mounts.table.index_view()[self.mpid],
                self.filename@,
            ),
    {
        proof {
            mounts.table.lemma_index_ids(self.mpid);
        }
        match mounts.table.path_of(self.mpid) {
            Some(dir) => {
                if dir.as_bytes().len() >= usize::MAX - self.filename.len() {
                    None
                } else {
                    Some(join(dir.as_bytes(), self.filename.as_slice()))
                }
            },
            None => None,
        }
    }

    /// The location of the file with the canonical path `path`: the file of
    /// that name below the mount point of the directory that holds it.
    pub fn from_path(mounts: &TableAccess<'_, MountPointTable>, path: &[u8]) -> (loc: Result<
        Self,
        LocationError,
    >)
        requires
            mounts.table.wf(),
        ensures
            match loc {
                Ok(l) => {
                    &&& is_canonical(path@)
                    &&& path@.len() > 1
                    &&& mounts.table.rows().contains_key(parent_of(path@))
                    &&& l@ == (mounts.table.rows()[parent_of(path@)].uuid, name_of(path@))
                },
                Err(LocationError::NotCanonical) => !is_canonical(path@),
                Err(LocationError::NoParent) => is_canonical(path@) && path@.len() == 1,
                Err(LocationError::NotMounted) => is_canonical(path@) && path@.len() > 1
                    && !mounts.table.rows().contains_key(parent_of(path@)),
            },
    {
        if !check_canonical(path) {
            return Err(LocationError::NotCanonical);
        }
        if path.len() == 1 {
            return Err(LocationError::NoParent);
        }
        proof {
            lemma_last_of(path@, SEPARATOR);
            lemma_parent_canonical(path@);
        }
        let at = match find_last(path, 0, SEPARATOR) {
            Some(at) => at,
            None => {
                return Err(LocationError::NotCanonical);
            },
        };
        let root: [u8; 1] = [SEPARATOR];
        let dir_bytes = if at == 0 {
            root.as_slice()
        } else {
            vstd::slice::slice_subrange(path, 0, at)
        };
        proof {
            assert(dir_bytes@ =~= parent_of(path@));
        }
        let dir = match CanonicalizedPath::new(dir_bytes) {
            Ok(dir) => dir,
            Err(_) => {
                return Err(LocationError::NotCanonical);
            },
        };
        match DirectoryLocation::from_path(mounts, &dir) {
            Some(place) => Ok(
                place.with_filename(vstd::slice::slice_subrange(path, at + 1, path.len())),
            ),
            None => Err(LocationError::NotMounted),
        }
    }
}

} // verus!
