//! The keys that a photo is looked up by: its primary key and its location.
use super::misc::PID;
use super::table::PhotoTable;
use crate::db::helpers::handle::{Slot, TableHandle};
use crate::db::helpers::table::{Table, TableKey};
use crate::db::locations::FileLocation;
use vstd::prelude::*;

verus! {

impl TableKey<PhotoTable> for PID {
    open spec fn leads_to(&self, table: &PhotoTable) -> Option<PID> {
        if table.rows().contains_key(*self) {
            Some(*self)
        } else {
            None
        }
    }

    fn query_in(&self, table: &PhotoTable) -> (handle: TableHandle<PhotoTable>) {
        proof {
            assert(table.wf());
            assert(self.leads_to(table) is Some == table.rows().contains_key(*self));
        }
        if table.get(self).is_some() {
            TableHandle(Some(Slot::Occupied(*self)))
        } else {
            TableHandle(Some(Slot::Vacant(*self)))
        }
    }
}

impl TableKey<PhotoTable> for FileLocation {
    open spec fn leads_to(&self, table: &PhotoTable) -> Option<PID> {
        if table.index_view().loc2pid.contains_key(self@) {
            Some(table.index_view().loc2pid[self@])
        } else {
            None
        }
    }

    fn query_in(&self, table: &PhotoTable) -> (handle: TableHandle<PhotoTable>) {
        proof {
            assert(table.wf());
            assert(self.leads_to(table) is Some == table.index_view().loc2pid.contains_key(self@));
        }
        match table.pid_at(self.mpid, self.filename.as_slice()) {
            Some(pid) => pid.query_in(table),
            None => TableHandle::missing(),
        }
    }
}

/// A photo named by its primary key or by its location.
#[derive(Debug)]
pub enum PhotoQuery {
    PID(PID),
    FileLocation(FileLocation),
}

impl PhotoQuery {
    /// The query for a primary key.
    pub fn from_pid(v: PID) -> (q: Self)
        ensures
            q == PhotoQuery::PID(v),
    {
        PhotoQuery::PID(v)
    }

    /// The query for a location.
    pub fn from_location(v: FileLocation) -> (q: Self)
        ensures
            q == PhotoQuery::FileLocation(v),
    {
        PhotoQuery::FileLocation(v)
    }
}

impl TableKey<PhotoTable> for PhotoQuery {
    open spec fn leads_to(&self, table: &PhotoTable) -> Option<PID> {
        match self {
            PhotoQuery::PID(pid) => pid.leads_to(table),
            PhotoQuery::FileLocation(loc) => loc.leads_to(table),
        }
    }

    fn query_in(&self, table: &PhotoTable) -> (handle: TableHandle<PhotoTable>) {
        proof {
            assert(table.wf());
        }
        match self {
            PhotoQuery::PID(pid) => pid.query_in(table),
            PhotoQuery::FileLocation(loc) => loc.query_in(table),
        }
    }
}

/// The byte of the digit zero.
pub const ZERO: u8 = 0x30;

/// The byte of a plus sign.
pub const PLUS: u8 = 0x2b;

/// Whether a byte is a decimal digit.
pub open spec fn is_digit(b: u8) -> bool {
    ZERO <= b <= ZERO + 9
}

/// The number that the first `n` bytes spell in decimal digits.
pub open spec fn decimal(text: Seq<u8>, n: int) -> nat
    decreases n,
{
    if n <= 0 {
        0
    } else {
        decimal(text, n - 1) * 10 + (text[n - 1] - ZERO) as nat
    }
}

/// The digits of a text that spells a number: the text itself, without a
/// plus sign in front.
pub open spec fn digits_of(text: Seq<u8>) -> Seq<u8> {
    if text.len() > 0 && text[0] == PLUS {
        text.subrange(1, text.len() as int)
    } else {
        text
    }
}

/// The primary key that a text spells: decimal digits, at least one, with or
/// without a plus sign in front, that make a number within the range of the
/// keys.
pub open spec fn spelled_pid(text: Seq<u8>) -> Option<PID> {
    let digits = digits_of(text);
    if digits.len() > 0 && (forall|i: int| 0 <= i < digits.len() ==> is_digit(digits[i]))
        && decimal(digits, digits.len() as int) <= u32::MAX {
        Some(decimal(digits, digits.len() as int) as PID)
    } else {
        None
    }
}

proof fn lemma_decimal_grows(text: Seq<u8>, k: int, n: int)
    requires
        0 <= k <= n <= text.len(),
        forall|i: int| 0 <= i < n ==> is_digit(text[i]),
    ensures
        decimal(text, k) <= decimal(text, n),
    decreases n - k,
{
    if k < n {
        lemma_decimal_grows(text, k, n - 1);
    }
}

/// Reads a primary key from its decimal spelling.
pub fn parse_pid(text: &[u8]) -> (pid: Option<PID>)
    ensures
        pid == spelled_pid(text@),
{
    let start: usize = if text.len() > 0 && text[0] == PLUS {
        1
    } else {
        0
    };
    let digits = vstd::slice::slice_subrange(text, start, text.len());
    proof {
        assert(digits@ =~= digits_of(text@));
    }
    if digits.len() == 0 {
        return None;
    }
    let mut value: u64 = 0;
    let mut i: usize = 0;
    while i < digits.len()
        invariant
            i <= digits.len(),
            digits@ == digits_of(text@),
            digits@.len() > 0,
            forall|j: int| 0 <= j < i ==> is_digit(digits@[j]),
            value == decimal(digits@, i as int),
            value <= u32::MAX,
        decreases digits.len() - i,
    {
        let b = digits[i];
        if b < ZERO || b > ZERO + 9 {
            proof {
                assert(!is_digit(digits@[i as int]));
            }
            return None;
        }
        let next = value * 10 + (b - ZERO) as u64;
        if next > u32::MAX as u64 {
            proof {
                assert(decimal(digits@, i + 1) == next);
                if forall|j: int| 0 <= j < digits@.len() ==> is_digit(digits@[j]) {
                    lemma_decimal_grows(digits@, i + 1, digits@.len() as int);
                }
            }
            return None;
        }
        value = next;
        i += 1;
    }
    Some(value as u32)
}

} // verus!
