use std::collections::BTreeSet;
use vstd::prelude::*;

use crate::types::{TagFlags, Tick};

verus! {

/// Number of ticks an entity has left before it expires.
#[derive(Debug, Clone, Copy)]
pub struct Lifetime {
    pub remaining: Tick,
}

impl Lifetime {
    pub fn new(remaining: Tick) -> (r: Self)
        ensures
            r.remaining == remaining,
    {
        Lifetime { remaining }
    }

    /// Whether no tick is left.
    pub fn is_expired(&self) -> (r: bool)
        ensures
            r == (self.remaining.0 == 0),
    {
        self.remaining.as_u32() == 0
    }
}

impl Lifetime {
    /// The lifetime after one tick: one tick fewer, but never below zero.
    pub open spec fn counted_down(self) -> Lifetime {
        Lifetime { remaining: Tick(if self.remaining.0 > 0 { (self.remaining.0 - 1) as u32 } else { 0 }) }
    }

    /// One tick of the lifetime system: the remaining count drops by one
    /// unless it is already zero; the result tells whether it is now zero.
    pub fn count_down(&mut self) -> (expired: bool)
        ensures
            *final(self) == old(self).counted_down(),
            expired == (final(self).remaining.0 == 0),
    {
        if self.remaining.as_u32() > 0 {
            self.remaining = Tick::new(self.remaining.as_u32() - 1);
        }
        self.remaining.as_u32() == 0
    }
}

impl Default for Lifetime {
    fn default() -> (r: Self)
        ensures
            r.remaining.0 == 0,
    {
        Lifetime { remaining: Tick::new(0) }
    }
}

/// Categorises an entity with fast built-in flags and optional script-defined custom tags.
///
/// - `flags`: O(1) bitwise check against `TagFlags` values (e.g. `TagFlags::player()`).
/// - `custom`: heap-allocated `BTreeSet<u32>` for script-registered tag IDs.
///   Ordered iteration guarantees determinism. Use a tag registry to map IDs ↔ names.
#[derive(Debug, Clone)]
pub struct Tag {
    pub flags: TagFlags,
    pub custom: BTreeSet<u32>,
}

impl Tag {
    pub fn new(flags: TagFlags) -> (r: Self)
        ensures
            r.flags == flags,
            r.custom@ == Set::<u32>::empty(),
    {
        Tag { flags, custom: BTreeSet::new() }
    }

    /// Adds a built-in flag.
    pub fn add_flag(&mut self, flag: TagFlags)
        ensures
            final(self).flags.0 == old(self).flags.0 | flag.0,
            final(self).custom@ == old(self).custom@,
    {
        self.flags = self.flags.union(flag);
    }

    /// Removes a built-in flag.
    pub fn remove_flag(&mut self, flag: TagFlags)
        ensures
            final(self).flags.0 == old(self).flags.0 & !flag.0,
            final(self).custom@ == old(self).custom@,
    {
        self.flags = self.flags.without(flag);
    }

    /// Returns `true` if every bit of the built-in flag is set.
    pub fn has_flag(&self, flag: TagFlags) -> (r: bool)
        ensures
            r == self.flags.spec_has(flag),
    {
        self.flags.has(flag)
    }

    /// Inserts a script-defined custom tag ID.
    pub fn add_custom(&mut self, id: u32)
        ensures
            final(self).custom@ == old(self).custom@.insert(id),
            final(self).flags == old(self).flags,
    {
        self.custom.insert(id);
    }

    /// Removes a script-defined custom tag ID.
    pub fn remove_custom(&mut self, id: u32)
        ensures
            final(self).custom@ == old(self).custom@.remove(id),
            final(self).flags == old(self).flags,
    {
        self.custom.remove(&id);
    }

    /// Returns `true` if the custom tag ID is present.
    pub fn has_custom(&self, id: u32) -> (r: bool)
        ensures
            r == self.custom@.contains(id),
    {
        self.custom.contains(&id)
    }
}

/// Adding a flag makes it present; removing it afterwards makes it absent
/// again, whatever other flags the tag holds.
pub proof fn lemma_flag_add_remove(flags: u64, flag: u64)
    ensures
        TagFlags(flags | flag).spec_has(TagFlags(flag)),
        flag != 0 ==> !TagFlags(flags & !flag).spec_has(TagFlags(flag)),
        TagFlags((flags | flag) & !flag).0 == flags & !flag,
{
    assert((flags | flag) & flag == flag) by (bit_vector);
    assert(flag != 0 ==> (flags & !flag) & flag != flag) by (bit_vector);
    assert((flags | flag) & !flag == flags & !flag) by (bit_vector);
}

} // verus!
