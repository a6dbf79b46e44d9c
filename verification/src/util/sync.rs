//! The dirty flag and the key counter of a table.
//!
//! Every table is reached through one exclusive borrow at a time, so both are
//! plain values behind `&mut self`.
use vstd::prelude::*;

verus! {

/// A flag that starts lowered and can be raised.
#[derive(Debug)]
pub struct AtomicFlag {
    raised: bool,
}

impl View for AtomicFlag {
    type V = bool;

    closed spec fn view(&self) -> bool {
        self.raised
    }
}

impl AtomicFlag {
    /// A lowered flag.
    pub fn new() -> (flag: Self)
        ensures
            !flag@,
    {
        AtomicFlag { raised: false }
    }

    /// Raises the flag.
    pub fn set(&mut self)
        ensures
            final(self)@,
    {
        self.raised = true;
    }

    /// Lowers the flag again.
    pub fn clear(&mut self)
        ensures
            !final(self)@,
    {
        self.raised = false;
    }

    /// Whether the flag is raised.
    pub fn get(&self) -> (raised: bool)
        ensures
            raised == self@,
    {
        self.raised
    }
}

impl Default for AtomicFlag {
    fn default() -> (flag: Self)
        ensures
            !flag@,
    {
        AtomicFlag::new()
    }
}

/// A counter that hands out consecutive numbers.
#[derive(Debug)]
pub struct AtomicCounter {
    next: u32,
}

impl View for AtomicCounter {
    type V = u32;

    closed spec fn view(&self) -> u32 {
        self.next
    }
}

/// The number that follows `v`, wrapping to zero after the largest one.
pub open spec fn wrapping_succ(v: u32) -> u32 {
    if v == u32::MAX {
        0
    } else {
        (v + 1) as u32
    }
}

impl AtomicCounter {
    /// A counter whose next number is `v`.
    pub fn new(v: u32) -> (counter: Self)
        ensures
            counter@ == v,
    {
        AtomicCounter { next: v }
    }

    /// Hands out the next number and moves on by one, wrapping at the end of
    /// the range.
    pub fn get_and_incr(&mut self) -> (current: u32)
        ensures
            current == old(self)@,
            final(self)@ == wrapping_succ(old(self)@),
    {
        let current = self.next;
        self.next = if current == u32::MAX {
            0
        } else {
            current + 1
        };
        current
    }

    /// The number that would be handed out next.
    pub fn get(&self) -> (current: u32)
        ensures
            current == self@,
    {
        self.next
    }
}

} // verus!
