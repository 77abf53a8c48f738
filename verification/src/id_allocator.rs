use std::collections::HashSet;
use vstd::prelude::*;

use crate::types::{EntityId, EverNightError, EverNightResult};

verus! {

/// The abstract state of an [`IdAllocator`]: the next fresh raw id, the stack of
/// recycled ids (last element is handed out first) and the set of live ids.
pub ghost struct AllocatorView {
    pub next: u32,
    pub free: Seq<u32>,
    pub valid: Set<u32>,
}

impl AllocatorView {
    /// The allocator's invariant: every id below `next` (and above the reserved 0)
    /// is either live or waiting on the free stack, never both, and the free
    /// stack holds no id twice.
    pub open spec fn wf(self) -> bool {
        &&& 1 <= self.next
        &&& self.valid.finite()
        &&& forall|v: u32| #[trigger] self.valid.contains(v) ==> 1 <= v < self.next
        &&& forall|i: int| 0 <= i < self.free.len() ==> 1 <= #[trigger] self.free[i] < self.next
        &&& forall|i: int| 0 <= i < self.free.len() ==> !self.valid.contains(#[trigger] self.free[i])
        &&& forall|i: int, j: int| 0 <= i < j < self.free.len() ==> self.free[i] != self.free[j]
    }

    /// `id` is one this allocator has handed out: not the reserved 0 and below
    /// the next fresh id.
    pub open spec fn issued(self, id: EntityId) -> bool {
        1 <= id.0 < self.next
    }

    /// The outcome of one allocation: a recycled id if any is waiting, else the
    /// next fresh id, unless the fresh-id counter has reached `u32::MAX`.
    pub open spec fn allocate(self) -> (AllocatorView, EverNightResult<EntityId>) {
        if self.free.len() > 0 {
            let id = self.free.last();
            (AllocatorView { next: self.next, free: self.free.drop_last(), valid: self.valid.insert(id) }, Ok(EntityId(id)))
        } else if self.next == u32::MAX {
            (self, Err(EverNightError::AllocatorFull))
        } else {
            let id = self.next;
            (AllocatorView { next: (self.next + 1) as u32, free: self.free, valid: self.valid.insert(id) }, Ok(EntityId(id)))
        }
    }

    /// The outcome of releasing `id`: it leaves the live set and goes on top of
    /// the free stack; an id that is not live is refused and nothing changes.
    pub open spec fn deallocate(self, id: EntityId) -> (AllocatorView, EverNightResult<()>) {
        if self.valid.contains(id.0) {
            (AllocatorView { next: self.next, free: self.free.push(id.0), valid: self.valid.remove(id.0) }, Ok(()))
        } else {
            (self, Err(EverNightError::InvalidEntityId(id)))
        }
    }
}


/// An allocation never hands out an id that is live: the id it returns is not
/// the reserved 0, was not live before, and is live afterwards, while every id
/// that was live stays live. It fails only when no recycled id is waiting and
/// the fresh-id counter is exhausted.
pub proof fn lemma_allocate_returns_fresh_id(a: AllocatorView)
    requires
        a.wf(),
    ensures
        a.allocate().0.wf(),
        a.allocate().1 is Err <==> (a.free.len() == 0 && a.next == u32::MAX),
        match a.allocate().1 {
            Ok(id) => {
                &&& id.0 != 0
                &&& !a.valid.contains(id.0)
                &&& a.allocate().0.valid == a.valid.insert(id.0)
            },
            Err(e) => e == EverNightError::AllocatorFull && a.allocate().0 == a,
        },
{
    let post = a.allocate().0;
    if a.free.len() > 0 {
        let id = a.free.last();
        assert(a.free[a.free.len() - 1] == id);
        assert forall|i: int| 0 <= i < post.free.len() implies !post.valid.contains(#[trigger] post.free[i]) by {
            assert(post.free[i] == a.free[i]);
            assert(a.free[i] != a.free[a.free.len() - 1]);
        }
        assert forall|i: int, j: int| 0 <= i < j < post.free.len() implies post.free[i] != post.free[j] by {
            assert(post.free[i] == a.free[i] && post.free[j] == a.free[j]);
        }
    }
}

/// Releasing an id and allocating again hands the same id back, and the live
/// set is then what it was before the release.
pub proof fn lemma_deallocate_then_allocate_recycles(a: AllocatorView, id: EntityId)
    requires
        a.wf(),
        a.valid.contains(id.0),
    ensures
        a.deallocate(id).1 is Ok,
        a.deallocate(id).0.wf(),
        a.deallocate(id).0.allocate().1 == Ok::<EntityId, EverNightError>(id),
        a.deallocate(id).0.allocate().0.valid == a.valid,
        a.deallocate(id).0.allocate().0.free == a.free,
{
    let mid = a.deallocate(id).0;
    assert(mid.free.last() == id.0);
    assert(mid.free.drop_last() =~= a.free);
    assert(mid.valid.insert(id.0) =~= a.valid);
    lemma_deallocate_preserves_wf(a, id);
}

/// Releasing an id a second time is refused and leaves the allocator
/// unchanged.
pub proof fn lemma_double_deallocate_fails(a: AllocatorView, id: EntityId)
    requires
        a.wf(),
    ensures
        a.deallocate(id).0.deallocate(id).1 == Err::<(), EverNightError>(EverNightError::InvalidEntityId(id)),
        a.deallocate(id).0.deallocate(id).0 == a.deallocate(id).0,
{
}

/// Releasing an id keeps the allocator's invariant.
pub proof fn lemma_deallocate_preserves_wf(a: AllocatorView, id: EntityId)
    requires
        a.wf(),
    ensures
        a.deallocate(id).0.wf(),
{
    let post = a.deallocate(id).0;
    if a.valid.contains(id.0) {
        assert forall|i: int, j: int| 0 <= i < j < post.free.len() implies post.free[i] != post.free[j] by {
            if j == a.free.len() {
                assert(post.free[i] == a.free[i]);
            } else {
                assert(post.free[i] == a.free[i] && post.free[j] == a.free[j]);
            }
        }
        assert forall|i: int| 0 <= i < post.free.len() implies !post.valid.contains(#[trigger] post.free[i]) by {
            if i < a.free.len() {
                assert(post.free[i] == a.free[i]);
            }
        }
        assert forall|i: int| 0 <= i < post.free.len() implies 1 <= #[trigger] post.free[i] < post.next by {
            if i < a.free.len() {
                assert(post.free[i] == a.free[i]);
            }
        }
    }
}

/// One call on an allocator: an allocation, or the release of an id.
pub enum AllocOp {
    Allocate,
    Deallocate(EntityId),
}

impl AllocatorView {
    /// The state of a new allocator.
    pub open spec fn initial() -> AllocatorView {
        AllocatorView { next: 1, free: Seq::empty(), valid: Set::empty() }
    }

    /// The state after one call.
    pub open spec fn apply(self, op: AllocOp) -> AllocatorView {
        match op {
            AllocOp::Allocate => self.allocate().0,
            AllocOp::Deallocate(id) => self.deallocate(id).0,
        }
    }
}

/// The state of a new allocator after the calls `ops`, in order.
pub open spec fn replay(ops: Seq<AllocOp>) -> AllocatorView
    decreases ops.len(),
{
    if ops.len() == 0 {
        AllocatorView::initial()
    } else {
        replay(ops.drop_last()).apply(ops.last())
    }
}

/// Call `i` of `ops` was an allocation that returned `id`.
pub open spec fn issued_at(ops: Seq<AllocOp>, i: int, id: EntityId) -> bool {
    &&& ops[i] is Allocate
    &&& replay(ops.take(i)).allocate().1 == Ok::<EntityId, EverNightError>(id)
}

/// Call `i` of `ops` released `id` successfully.
pub open spec fn released_at(ops: Seq<AllocOp>, i: int, id: EntityId) -> bool {
    &&& ops[i] == AllocOp::Deallocate(id)
    &&& replay(ops.take(i)).deallocate(id).1 is Ok
}

/// After any sequence of calls on a new allocator, an id is valid exactly when
/// some allocation returned it and no successful release of it came after.
pub proof fn lemma_valid_iff_issued_and_not_released(ops: Seq<AllocOp>, id: EntityId)
    ensures
        replay(ops).valid.contains(id.0) <==> exists|i: int|
            0 <= i < ops.len() && #[trigger] issued_at(ops, i, id)
                && forall|j: int| i < j < ops.len() ==> !#[trigger] released_at(ops, j, id),
    decreases ops.len(),
{
    let n = ops.len() as int;
    if n == 0 {
        assert(replay(ops).valid =~= Set::<u32>::empty());
    } else {
        let prev = ops.drop_last();
        lemma_valid_iff_issued_and_not_released(prev, id);
        let a = replay(prev);
        assert(ops.take(n - 1) =~= prev);
        assert forall|k: int| 0 <= k < n - 1 implies #[trigger] ops.take(k) =~= prev.take(k) by {}
        assert forall|k: int| 0 <= k < n - 1 implies (#[trigger] issued_at(ops, k, id)) == issued_at(prev, k, id) by {
            assert(ops.take(k) =~= prev.take(k));
        }
        assert forall|k: int| 0 <= k < n - 1 implies (#[trigger] released_at(ops, k, id)) == released_at(prev, k, id) by {
            assert(ops.take(k) =~= prev.take(k));
        }
        let op = ops.last();
        assert(ops[n - 1] == op);
        // Whether the last call issues or releases `id`.
        let last_issues = issued_at(ops, n - 1, id);
        let last_releases = released_at(ops, n - 1, id);
        assert(last_issues == (op is Allocate && a.allocate().1 == Ok::<EntityId, EverNightError>(id)));
        assert(last_releases == (op == AllocOp::Deallocate(id) && a.deallocate(id).1 is Ok));
        if last_issues {
            assert(replay(ops).valid.contains(id.0));
            assert(issued_at(ops, n - 1, id));
        } else if last_releases {
            assert(!replay(ops).valid.contains(id.0));
            assert forall|i: int| 0 <= i < n && #[trigger] issued_at(ops, i, id)
                implies exists|j: int| i < j < n && #[trigger] released_at(ops, j, id) by {
                assert(released_at(ops, n - 1, id));
            }
        } else {
            // The last call leaves the validity of `id` as it was.
            match op {
                AllocOp::Allocate => {
                    if a.allocate().1 is Ok {
                        assert(a.allocate().1->Ok_0 != id);
                    }
                    assert(replay(ops).valid.contains(id.0) == a.valid.contains(id.0));
                },
                AllocOp::Deallocate(d) => {
                    assert(replay(ops).valid.contains(id.0) == a.valid.contains(id.0));
                },
            }
            if a.valid.contains(id.0) {
                let i = choose|i: int|
                    0 <= i < prev.len() && #[trigger] issued_at(prev, i, id)
                        && forall|j: int| i < j < prev.len() ==> !#[trigger] released_at(prev, j, id);
                assert(issued_at(ops, i, id));
                assert forall|j: int| i < j < n implies !#[trigger] released_at(ops, j, id) by {
                    if j < n - 1 {
                        assert(!released_at(prev, j, id));
                    }
                }
            } else {
                assert forall|i: int| 0 <= i < n && #[trigger] issued_at(ops, i, id)
                    implies exists|j: int| i < j < n && #[trigger] released_at(ops, j, id) by {
                    assert(i < n - 1);
                    assert(issued_at(prev, i, id));
                    let j = choose|j: int| i < j < prev.len() && #[trigger] released_at(prev, j, id);
                    assert(released_at(ops, j, id));
                }
            }
        }
    }
}

/// Allocates and recycles `EntityId` within a single game world.
///
/// Each `World` instance owns its own allocator.
/// IDs are recycled when entities are despawned.
#[derive(Debug)]
pub struct IdAllocator {
    next_id: u32,
    free_ids: Vec<EntityId>,
    valid_ids: HashSet<u32>,
}

impl View for IdAllocator {
    type V = AllocatorView;

    closed spec fn view(&self) -> AllocatorView {
        AllocatorView {
            next: self.next_id,
            free: self.free_ids@.map_values(|e: EntityId| e.0),
            valid: self.valid_ids@,
        }
    }
}

impl IdAllocator {
    pub open spec fn wf(&self) -> bool {
        self@.wf()
    }

    /// Creates a new allocator. Starts ID allocation from 1 (0 is reserved).
    pub fn new() -> (r: Self)
        ensures
            r.wf(),
            r@.next == 1,
            r@.free == Seq::<u32>::empty(),
            r@.valid == Set::<u32>::empty(),
            r@ == AllocatorView::initial(),
    {
        let r = IdAllocator { next_id: 1, free_ids: Vec::new(), valid_ids: HashSet::new() };
        assert(r@.free =~= Seq::<u32>::empty());
        r
    }

    /// Allocates a new `EntityId`.
    ///
    /// Reuses recycled IDs or generates new ones sequentially.
    /// Returns an error if the allocator is exhausted (ID counter reached u32::MAX).
    pub fn allocate(&mut self) -> (r: EverNightResult<EntityId>)
        requires
            old(self).wf(),
        ensures
            final(self).wf(),
            (final(self)@, r) == old(self)@.allocate(),
    {
        let ghost pre = self@;
        let id = if let Some(free_id) = self.free_ids.pop() {
            assert(self@.free =~= pre.free.drop_last());
            assert(free_id.0 == pre.free[pre.free.len() - 1]);
            free_id
        } else {
            if self.next_id == u32::MAX {
                return Err(EverNightError::AllocatorFull);
            }
            let id_val = self.next_id;
            self.next_id = self.next_id + 1;
            EntityId::new(id_val)
        };
        self.valid_ids.insert(id.0);
        proof {
            let post = self@;
            assert forall|i: int, j: int| 0 <= i < j < post.free.len() implies post.free[i] != post.free[j] by {
                assert(post.free[i] == pre.free[i] && post.free[j] == pre.free[j]);
            }
            assert forall|i: int| 0 <= i < post.free.len() implies !post.valid.contains(#[trigger] post.free[i]) by {
                assert(post.free[i] == pre.free[i]);
                if pre.free.len() > 0 {
                    assert(pre.free[i] != pre.free[pre.free.len() - 1]);
                }
            }
        }
        Ok(id)
    }

    /// Deallocates an `EntityId` for reuse.
    ///
    /// The id must be one this allocator has issued: releasing an id it never
    /// handed out is a caller error. Returns an error if the id was already
    /// deallocated.
    pub fn deallocate(&mut self, id: EntityId) -> (r: EverNightResult<()>)
        requires
            old(self).wf(),
            old(self)@.issued(id),
        ensures
            final(self).wf(),
            (final(self)@, r) == old(self)@.deallocate(id),
    {
        let ghost pre = self@;
        if !self.valid_ids.remove(&id.0) {
            assert(self@.valid =~= pre.valid);
            assert(self@.free =~= pre.free);
            return Err(EverNightError::InvalidEntityId(id));
        }
        self.free_ids.push(id);
        proof {
            let post = self@;
            assert(post.free =~= pre.free.push(id.0));
            assert forall|i: int, j: int| 0 <= i < j < post.free.len() implies post.free[i] != post.free[j] by {
                if j == pre.free.len() {
                    assert(pre.valid.contains(id.0));
                    assert(post.free[i] == pre.free[i]);
                }
            }
        }
        Ok(())
    }

    /// Checks whether an `EntityId` is currently valid.
    pub fn is_valid(&self, id: EntityId) -> (r: bool)
        requires
            self.wf(),
        ensures
            r == self@.valid.contains(id.0),
    {
        self.valid_ids.contains(&id.0)
    }
}

impl Default for IdAllocator {
    fn default() -> (r: Self)
        ensures
            r.wf(),
            r@.next == 1,
            r@.free == Seq::<u32>::empty(),
            r@.valid == Set::<u32>::empty(),
            r@ == AllocatorView::initial(),
    {
        Self::new()
    }
}

} // verus!
