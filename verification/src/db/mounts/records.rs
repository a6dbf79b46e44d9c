//! A mounted directory.
use crate::db::helpers::table::TableRecord;
use crate::db::locations::CanonicalizedPath;
use vstd::prelude::*;

verus! {

/// The identifier of a mount point: the 128 bits of a UUID.
pub type MountId = u128;

/// The bits of an identifier that tell the version and the variant of a
/// UUID.
pub const UUID_KIND_MASK: u128 = 0x0000_0000_0000_f000_c000_0000_0000_0000;

/// What those bits hold in a random UUID.
pub const UUID_KIND_RANDOM: u128 = 0x0000_0000_0000_4000_8000_0000_0000_0000;

/// Draws a random identifier.
///
/// Calls `uuid::Uuid::new_v4` and reads the result with `Uuid::as_u128`. Which
/// identifier comes back is left open; only the version and variant bits,
/// which that function sets to the same value in every identifier it makes,
/// are stated. It fails hard where the system has no random bytes to give.
#[verifier::external_body]
pub(crate) fn random_mount_id() -> (id: MountId)
    ensures
        id & UUID_KIND_MASK == UUID_KIND_RANDOM,
{
    uuid::Uuid::new_v4().as_u128()
}

/// A directory that was registered as a source of photos.
#[derive(Debug)]
pub struct MountPointRecord {
    pub uuid: MountId,
    pub path: CanonicalizedPath,
    pub alias: Option<String>,
}

/// A mount point record, seen as an entry of the table.
pub type MountPointEntry = MountPointRecord;

/// The content of a mount point record.
pub struct MountPointRecordView {
    pub uuid: MountId,
    pub path: Seq<u8>,
    pub alias: Option<Seq<char>>,
}

/// The characters of a label, where there is one.
pub open spec fn alias_view(alias: Option<String>) -> Option<Seq<char>> {
    match alias {
        Some(s) => Some(s@),
        None => None,
    }
}

/// A copy of a label.
pub fn copy_alias(alias: &Option<String>) -> (copy: Option<String>)
    ensures
        alias_view(copy) == alias_view(*alias),
{
    match alias {
        Some(s) => Some(s.clone()),
        None => None,
    }
}

impl View for MountPointRecord {
    type V = MountPointRecordView;

    open spec fn view(&self) -> MountPointRecordView {
        MountPointRecordView { uuid: self.uuid, path: self.path@, alias: alias_view(self.alias) }
    }
}

impl MountPointRecord {
    /// A record for `path` under the identifier `uuid`.
    pub fn with_id(uuid: MountId, path: CanonicalizedPath, alias: Option<String>) -> (rec: Self)
        ensures
            rec@ == (MountPointRecordView { uuid, path: path@, alias: alias_view(alias) }),
    {
        MountPointRecord { uuid, path, alias }
    }

    /// A record for `path` under a freshly drawn random identifier.
    pub fn new(path: CanonicalizedPath, alias: Option<String>) -> (rec: Self)
        ensures
            rec@.path == path@,
            rec@.alias == alias_view(alias),
            rec@.uuid & UUID_KIND_MASK == UUID_KIND_RANDOM,
    {
        MountPointRecord::with_id(random_mount_id(), path, alias)
    }

    /// A copy of the record.
    pub fn duplicate(&self) -> (copy: Self)
        ensures
            copy@ == self@,
    {
        MountPointRecord {
            uuid: self.uuid,
            path: self.path.duplicate(),
            alias: copy_alias(&self.alias),
        }
    }
}

impl TableRecord for MountPointRecord {
    type PrimaryKey = CanonicalizedPath;

    open spec fn key_of(content: MountPointRecordView) -> Seq<u8> {
        content.path
    }

    fn primary_key(&self) -> (key: &CanonicalizedPath) {
        &self.path
    }
}

} // verus!
