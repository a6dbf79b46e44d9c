//! Putting a list in the order of a number that each of its items carries.
use vstd::prelude::*;

verus! {

/// Something that is put in order by a number.
pub trait Ranked {
    /// The number that decides the place of the item.
    spec fn rank(&self) -> u64;

    fn rank_of(&self) -> (rank: u64)
        ensures
            rank == self.rank(),
    ;
}

/// Whether `after` holds the items of `before` in the order of their ranks,
/// items of one rank in the order in which they stood, and `from` says for
/// each place of `after` from which place of `before` its item came.
pub open spec fn ordered_from<T: Ranked>(before: Seq<T>, after: Seq<T>, from: Seq<int>) -> bool {
    &&& after.len() == before.len()
    &&& from.len() == before.len()
    &&& forall|i: int|
        0 <= i < after.len() ==> 0 <= #[trigger] from[i] < before.len() && after[i]
            == before[from[i]]
    &&& forall|i: int, j: int|
        0 <= i < j < after.len() ==> #[trigger] from[i] != #[trigger] from[j]
    &&& forall|i: int, j: int|
        0 <= i < j < after.len() ==> (#[trigger] after[i]).rank() <= (#[trigger] after[j]).rank()
    &&& forall|i: int, j: int|
        0 <= i < j < after.len() && after[i].rank() == after[j].rank() ==> #[trigger] from[i]
            < #[trigger] from[j]
}

/// Whether `after` is `before` put in the order of the ranks by a stable
/// sort.
pub open spec fn ordered<T: Ranked>(before: Seq<T>, after: Seq<T>) -> bool {
    exists|from: Seq<int>| ordered_from(before, after, from)
}

/// Sorts a list by the ranks of its items.
///
/// Calls `sort_by_key` of the standard library on the list, with the rank as
/// the key. Its documentation promises a stable sort: the list holds the
/// same items afterwards, in the order of their keys, and items with equal
/// keys keep their order.
#[verifier::external_body]
pub(crate) fn sort_by_rank<T: Ranked>(items: &mut Vec<T>)
    ensures
        ordered(old(items)@, final(items)@),
{
    items.sort_by_key(|item| item.rank_of());
}

} // verus!
