use std::any::TypeId;
use vstd::prelude::*;

use crate::types::EntityId;

verus! {

#[verifier::external_type_specification]
#[verifier::external_body]
pub struct ExTypeId(TypeId);

/// Equality of two type identifiers (`<TypeId as PartialEq>::eq`): the same
/// identifier value.
#[verifier::external_body]
fn type_id_eq(a: &TypeId, b: &TypeId) -> (r: bool)
    ensures
        r == (*a == *b),
{
    *a == *b
}

// ── Sorted columns ──────────────────────────────────────────────────────────

/// Entity ids strictly increase along the column.
pub open spec fn column_sorted<C>(s: Seq<(EntityId, C)>) -> bool {
    forall|i: int, j: int| 0 <= i < j < s.len() ==> s[i].0.0 < s[j].0.0
}

/// Whether the column holds an entry for entity `e`.
pub open spec fn column_has<C>(s: Seq<(EntityId, C)>, e: u32) -> bool {
    exists|i: int| 0 <= i < s.len() && s[i].0.0 == e
}

/// The component a column holds for entity `e` (meaningful when present).
pub open spec fn column_value<C>(s: Seq<(EntityId, C)>, e: u32) -> C {
    s[choose|i: int| 0 <= i < s.len() && s[i].0.0 == e].1
}

/// A column read as a map from raw entity id to component.
pub open spec fn column_map<C>(s: Seq<(EntityId, C)>) -> Map<u32, C> {
    Map::new(|e: u32| column_has(s, e), |e: u32| column_value(s, e))
}

/// In a sorted column, entry `i` is the component of its entity.
pub proof fn lemma_column_value_at<C>(s: Seq<(EntityId, C)>, i: int)
    requires
        column_sorted(s),
        0 <= i < s.len(),
    ensures
        column_has(s, s[i].0.0),
        column_value(s, s[i].0.0) == s[i].1,
{
    assert(0 <= i < s.len() && s[i].0.0 == s[i].0.0);
    let k = choose|k: int| 0 <= k < s.len() && s[k].0.0 == s[i].0.0;
    if k < i {
        assert(s[k].0.0 < s[i].0.0);
    } else if k > i {
        assert(s[i].0.0 < s[k].0.0);
    }
}

/// Binary search for entity `e`: `Ok(i)` when entry `i` is `e`'s, else
/// `Err(pos)` with `pos` the position that keeps the column sorted.
fn column_search<C>(v: &Vec<(EntityId, C)>, e: EntityId) -> (r: Result<usize, usize>)
    requires
        column_sorted(v@),
    ensures
        match r {
            Ok(i) => i < v@.len() && v@[i as int].0 == e,
            Err(pos) => {
                &&& pos <= v@.len()
                &&& forall|i: int| 0 <= i < pos ==> #[trigger] v@[i].0.0 < e.0
                &&& forall|i: int| pos <= i < v@.len() ==> #[trigger] v@[i].0.0 > e.0
            },
        },
{
    let mut lo: usize = 0;
    let mut hi: usize = v.len();
    while lo < hi
        invariant
            0 <= lo <= hi <= v@.len(),
            column_sorted(v@),
            forall|i: int| 0 <= i < lo ==> #[trigger] v@[i].0.0 < e.0,
            forall|i: int| hi <= i < v@.len() ==> #[trigger] v@[i].0.0 > e.0,
        decreases hi - lo,
    {
        let mid = lo + (hi - lo) / 2;
        let k = v[mid].0.0;
        if k == e.0 {
            return Ok(mid);
        } else if k < e.0 {
            lo = mid + 1;
        } else {
            hi = mid;
        }
    }
    Err(lo)
}

/// Replacing entry `i` by one for the same entity changes only that entity's component.
proof fn lemma_column_update<C>(s: Seq<(EntityId, C)>, i: int, c: C)
    requires
        column_sorted(s),
        0 <= i < s.len(),
    ensures
        column_sorted(s.update(i, (s[i].0, c))),
        column_map(s.update(i, (s[i].0, c))) == column_map(s).insert(s[i].0.0, c),
{
    let t = s.update(i, (s[i].0, c));
    let e = s[i].0.0;
    assert forall|a: int, b: int| 0 <= a < b < t.len() implies t[a].0.0 < t[b].0.0 by {
        assert(t[a].0 == s[a].0 && t[b].0 == s[b].0);
    }
    assert forall|k: u32| #[trigger] column_has(t, k) == (column_has(s, k) || k == e) by {
        if column_has(t, k) {
            let j = choose|j: int| 0 <= j < t.len() && t[j].0.0 == k;
            assert(s[j].0.0 == k);
        }
        if column_has(s, k) {
            let j = choose|j: int| 0 <= j < s.len() && s[j].0.0 == k;
            assert(t[j].0.0 == k);
        }
        if k == e {
            assert(t[i].0.0 == k);
        }
    }
    assert forall|k: u32| column_has(t, k) implies #[trigger] column_value(t, k) == column_map(s).insert(e, c)[k] by {
        let j = choose|j: int| 0 <= j < t.len() && t[j].0.0 == k;
        lemma_column_value_at(t, j);
        if j != i {
            lemma_column_value_at(s, j);
        }
    }
    assert(column_map(t) =~= column_map(s).insert(e, c));
}

/// Inserting an entry for an absent entity at its sorted position adds just
/// that entity's component.
proof fn lemma_column_insert<C>(s: Seq<(EntityId, C)>, pos: int, e: EntityId, c: C)
    requires
        column_sorted(s),
        0 <= pos <= s.len(),
        forall|i: int| 0 <= i < pos ==> #[trigger] s[i].0.0 < e.0,
        forall|i: int| pos <= i < s.len() ==> #[trigger] s[i].0.0 > e.0,
    ensures
        column_sorted(s.insert(pos, (e, c))),
        column_map(s.insert(pos, (e, c))) == column_map(s).insert(e.0, c),
{
    let t = s.insert(pos, (e, c));
    assert forall|a: int, b: int| 0 <= a < b < t.len() implies t[a].0.0 < t[b].0.0 by {
        let a2 = if a < pos { a } else { a - 1 };
        let b2 = if b < pos { b } else { b - 1 };
        if a != pos && b != pos {
            assert(t[a] == s[a2] && t[b] == s[b2]);
        } else if a == pos {
            assert(t[b] == s[b2]);
        } else {
            assert(t[a] == s[a2]);
        }
    }
    assert forall|k: u32| #[trigger] column_has(t, k) == (column_has(s, k) || k == e.0) by {
        if column_has(t, k) {
            let j = choose|j: int| 0 <= j < t.len() && t[j].0.0 == k;
            if j < pos {
                assert(s[j].0.0 == k);
            } else if j > pos {
                assert(s[j - 1].0.0 == k);
            }
        }
        if column_has(s, k) {
            let j = choose|j: int| 0 <= j < s.len() && s[j].0.0 == k;
            if j < pos {
                assert(t[j].0.0 == k);
            } else {
                assert(t[j + 1].0.0 == k);
            }
        }
        if k == e.0 {
            assert(t[pos].0.0 == k);
        }
    }
    assert forall|k: u32| column_has(t, k) implies #[trigger] column_value(t, k) == column_map(s).insert(e.0, c)[k] by {
        let j = choose|j: int| 0 <= j < t.len() && t[j].0.0 == k;
        lemma_column_value_at(t, j);
        if j < pos {
            lemma_column_value_at(s, j);
        } else if j > pos {
            lemma_column_value_at(s, j - 1);
        }
    }
    assert(column_map(t) =~= column_map(s).insert(e.0, c));
}

/// Removing entry `i` removes just that entity's component.
proof fn lemma_column_remove<C>(s: Seq<(EntityId, C)>, i: int)
    requires
        column_sorted(s),
        0 <= i < s.len(),
    ensures
        column_sorted(s.remove(i)),
        column_map(s.remove(i)) == column_map(s).remove(s[i].0.0),
{
    let t = s.remove(i);
    let e = s[i].0.0;
    assert forall|a: int, b: int| 0 <= a < b < t.len() implies t[a].0.0 < t[b].0.0 by {
        let a2 = if a < i { a } else { a + 1 };
        let b2 = if b < i { b } else { b + 1 };
        assert(t[a] == s[a2] && t[b] == s[b2]);
    }
    assert forall|k: u32| #[trigger] column_has(t, k) == (column_has(s, k) && k != e) by {
        if column_has(t, k) {
            let j = choose|j: int| 0 <= j < t.len() && t[j].0.0 == k;
            let j2 = if j < i { j } else { j + 1 };
            assert(s[j2].0.0 == k);
            if j2 < i {
                assert(s[j2].0.0 < s[i].0.0);
            } else {
                assert(s[i].0.0 < s[j2].0.0);
            }
        }
        if column_has(s, k) && k != e {
            let j = choose|j: int| 0 <= j < s.len() && s[j].0.0 == k;
            if j < i {
                assert(t[j].0.0 == k);
            } else {
                assert(j != i);
                assert(t[j - 1].0.0 == k);
            }
        }
    }
    assert forall|k: u32| column_has(t, k) implies #[trigger] column_value(t, k) == column_map(s).remove(e)[k] by {
        let j = choose|j: int| 0 <= j < t.len() && t[j].0.0 == k;
        lemma_column_value_at(t, j);
        if j < i {
            lemma_column_value_at(s, j);
        } else {
            lemma_column_value_at(s, j + 1);
        }
    }
    assert(column_map(t) =~= column_map(s).remove(e));
}

/// An entity absent from the search range is absent from the column.
proof fn lemma_column_absent<C>(s: Seq<(EntityId, C)>, pos: int, e: u32)
    requires
        0 <= pos <= s.len(),
        forall|i: int| 0 <= i < pos ==> #[trigger] s[i].0.0 < e,
        forall|i: int| pos <= i < s.len() ==> #[trigger] s[i].0.0 > e,
    ensures
        !column_has(s, e),
{
    if column_has(s, e) {
        let j = choose|j: int| 0 <= j < s.len() && s[j].0.0 == e;
        if j < pos {
            assert(s[j].0.0 < e);
        } else {
            assert(s[j].0.0 > e);
        }
    }
}

/// Mutable access to the component of entry `i`.
fn column_value_mut<C>(v: &mut Vec<(EntityId, C)>, i: usize) -> (r: &mut C)
    requires
        i < old(v)@.len(),
    ensures
        *r == old(v)@[i as int].1,
        final(v)@ == old(v)@.update(i as int, (old(v)@[i as int].0, *final(r))),
{
    let entry = &mut v[i];
    &mut entry.1
}

/// Stores `c` as entity `e`'s component in a sorted column, replacing any
/// previous one.
fn column_put<C>(v: &mut Vec<(EntityId, C)>, e: EntityId, c: C)
    requires
        column_sorted(old(v)@),
    ensures
        column_sorted(final(v)@),
        column_map(final(v)@) == column_map(old(v)@).insert(e.0, c),
{
    let ghost s = v@;
    match column_search(v, e) {
        Ok(i) => {
            proof {
                lemma_column_update(s, i as int, c);
            }
            v.set(i, (e, c));
        },
        Err(pos) => {
            proof {
                lemma_column_insert(s, pos as int, e, c);
            }
            v.insert(pos, (e, c));
        },
    }
}

/// Takes entity `e`'s component out of a sorted column, if it has one.
fn column_take<C>(v: &mut Vec<(EntityId, C)>, e: EntityId) -> (r: Option<C>)
    requires
        column_sorted(old(v)@),
    ensures
        column_sorted(final(v)@),
        column_map(final(v)@) == column_map(old(v)@).remove(e.0),
        r is Some == column_map(old(v)@).contains_key(e.0),
        r matches Some(c) ==> c == column_map(old(v)@)[e.0],
{
    let ghost s = v@;
    match column_search(v, e) {
        Ok(i) => {
            proof {
                lemma_column_remove(s, i as int);
                lemma_column_value_at(s, i as int);
            }
            let (_, c) = v.remove(i);
            Some(c)
        },
        Err(pos) => {
            proof {
                lemma_column_absent(s, pos as int, e.0);
                assert(column_map(s).remove(e.0) =~= column_map(s));
            }
            None
        },
    }
}

// ── Storage ─────────────────────────────────────────────────────────────────

/// The components of one type, sorted by entity id.
struct Column<C> {
    type_id: TypeId,
    entries: Vec<(EntityId, C)>,
}

/// Lightweight ECS component store: for each component type, a column of
/// `(entity, component)` entries kept in ascending entity order.
///
/// The store is generic over the stored component value `C` and keyed by the
/// component's `TypeId`.
pub struct ComponentStorage<C> {
    columns: Vec<Column<C>>,
}

impl<C> ComponentStorage<C> {
    /// Whether some column holds components of type `t`.
    closed spec fn has_column(&self, t: TypeId) -> bool {
        exists|ci: int| 0 <= ci < self.columns@.len() && self.columns@[ci].type_id == t
    }

    /// The position of the column for type `t` (meaningful when present).
    closed spec fn column_index(&self, t: TypeId) -> int {
        choose|ci: int| 0 <= ci < self.columns@.len() && self.columns@[ci].type_id == t
    }

    /// The entries of type `t`, in ascending entity order.
    pub closed spec fn ordered(&self, t: TypeId) -> Seq<(EntityId, C)> {
        if self.has_column(t) {
            self.columns@[self.column_index(t)].entries@
        } else {
            Seq::empty()
        }
    }

    /// The components of type `t`, by raw entity id.
    pub open spec fn components(&self, t: TypeId) -> Map<u32, C> {
        column_map(self.ordered(t))
    }

    /// One column per type, each sorted by entity id.
    pub closed spec fn wf(&self) -> bool {
        &&& forall|a: int, b: int| 0 <= a < b < self.columns@.len() ==> self.columns@[a].type_id != self.columns@[b].type_id
        &&& forall|ci: int| 0 <= ci < self.columns@.len() ==> column_sorted(#[trigger] self.columns@[ci].entries@)
    }

    /// Iteration order is ascending entity order.
    pub proof fn lemma_ordered_sorted(&self, t: TypeId)
        requires
            self.wf(),
        ensures
            column_sorted(self.ordered(t)),
    {
    }

    proof fn lemma_column_index(&self, ci: int)
        requires
            self.wf(),
            0 <= ci < self.columns@.len(),
        ensures
            self.has_column(self.columns@[ci].type_id),
            self.column_index(self.columns@[ci].type_id) == ci,
            self.ordered(self.columns@[ci].type_id) == self.columns@[ci].entries@,
    {
        let t = self.columns@[ci].type_id;
        assert(0 <= ci < self.columns@.len() && self.columns@[ci].type_id == t);
        let k = self.column_index(t);
        if k != ci {
            if k < ci {
                assert(self.columns@[k].type_id != self.columns@[ci].type_id);
            } else {
                assert(self.columns@[ci].type_id != self.columns@[k].type_id);
            }
        }
    }

    /// Mutable access to the component of entry `i` of column `ci`.
    fn entry_mut(&mut self, ci: usize, i: usize) -> (r: &mut C)
        requires
            ci < old(self).columns@.len(),
            i < old(self).columns@[ci as int].entries@.len(),
        ensures
            *r == old(self).columns@[ci as int].entries@[i as int].1,
            final(self).columns@.len() == old(self).columns@.len(),
            forall|k: int| 0 <= k < old(self).columns@.len() && k != ci ==> #[trigger] final(self).columns@[k] == old(self).columns@[k],
            final(self).columns@[ci as int].type_id == old(self).columns@[ci as int].type_id,
            final(self).columns@[ci as int].entries@ == old(self).columns@[ci as int].entries@.update(
                i as int,
                (old(self).columns@[ci as int].entries@[i as int].0, *final(r)),
            ),
    {
        let col = &mut self.columns[ci];
        column_value_mut(&mut col.entries, i)
    }

    /// In a well-formed store, the entries of the type held by column `ci` are
    /// that column's entries.
    proof fn lemma_ordered_at(ci: int)
        ensures
            forall|post: Self| #![trigger post.ordered(post.columns@[ci].type_id)]
                post.wf() && 0 <= ci < post.columns@.len() ==> post.ordered(post.columns@[ci].type_id) == post.columns@[ci].entries@,
    {
        assert forall|post: Self| post.wf() && 0 <= ci < post.columns@.len() implies
            #[trigger] post.ordered(post.columns@[ci].type_id) == post.columns@[ci].entries@ by {
            post.lemma_column_index(ci);
        }
    }

    /// Changing only column `ci` leaves the entries of every other type alone.
    proof fn lemma_other_columns(pre: Self, ci: int)
        requires
            pre.wf(),
            0 <= ci < pre.columns@.len(),
        ensures
            forall|post: Self, t: TypeId| #![trigger post.ordered(t)]
                post.columns@.len() == pre.columns@.len()
                && (forall|k: int| 0 <= k < post.columns@.len() ==> #[trigger] post.columns@[k].type_id == pre.columns@[k].type_id)
                && (forall|k: int| 0 <= k < post.columns@.len() && k != ci ==> #[trigger] post.columns@[k] == pre.columns@[k])
                && t != pre.columns@[ci].type_id
                ==> post.ordered(t) == pre.ordered(t),
    {
        assert forall|post: Self, t: TypeId|
            post.columns@.len() == pre.columns@.len()
            && (forall|k: int| 0 <= k < post.columns@.len() ==> #[trigger] post.columns@[k].type_id == pre.columns@[k].type_id)
            && (forall|k: int| 0 <= k < post.columns@.len() && k != ci ==> #[trigger] post.columns@[k] == pre.columns@[k])
            && t != pre.columns@[ci].type_id
            implies #[trigger] post.ordered(t) == pre.ordered(t) by {
            if pre.has_column(t) {
                let k = pre.column_index(t);
                pre.lemma_column_index(k);
                assert(post.columns@[k] == pre.columns@[k]);
                assert(post.has_column(t));
                let k2 = post.column_index(t);
                if k2 != k {
                    if k2 == ci {
                        assert(post.columns@[k2].type_id == pre.columns@[ci].type_id);
                    } else {
                        assert(pre.columns@[k2].type_id == t);
                        if k < k2 {
                            assert(pre.columns@[k].type_id != pre.columns@[k2].type_id);
                        } else {
                            assert(pre.columns@[k2].type_id != pre.columns@[k].type_id);
                        }
                    }
                }
            } else {
                if post.has_column(t) {
                    let k = post.column_index(t);
                    assert(pre.columns@[k].type_id == t);
                }
            }
        }
    }

    fn find_column(&self, t: &TypeId) -> (r: Option<usize>)
        requires
            self.wf(),
        ensures
            r is Some == self.has_column(*t),
            r matches Some(ci) ==> ci < self.columns@.len() && self.columns@[ci as int].type_id == *t,
    {
        let mut ci: usize = 0;
        while ci < self.columns.len()
            invariant
                ci <= self.columns@.len(),
                forall|k: int| 0 <= k < ci ==> self.columns@[k].type_id != *t,
            decreases self.columns@.len() - ci,
        {
            if type_id_eq(&self.columns[ci].type_id, t) {
                return Some(ci);
            }
            ci = ci + 1;
        }
        None
    }

    pub fn new() -> (r: Self)
        ensures
            r.wf(),
            forall|t: TypeId| r.ordered(t) == Seq::<(EntityId, C)>::empty(),
    {
        ComponentStorage { columns: Vec::new() }
    }

    /// Stores `component` as `entity`'s component of type `type_id`,
    /// replacing the one it had.
    pub fn insert(&mut self, entity: EntityId, type_id: TypeId, component: C)
        requires
            old(self).wf(),
        ensures
            final(self).wf(),
            final(self).components(type_id) == old(self).components(type_id).insert(entity.0, component),
            forall|t: TypeId| t != type_id ==> final(self).ordered(t) == old(self).ordered(t),
    {
        let ghost pre = *self;
        match self.find_column(&type_id) {
            Some(ci) => {
                proof {
                    pre.lemma_column_index(ci as int);
                }
                let mut col = self.columns.remove(ci);
                column_put(&mut col.entries, entity, component);
                self.columns.insert(ci, col);
                proof {
                    assert(self.columns@ =~= pre.columns@.update(ci as int, col));
                    self.lemma_column_index(ci as int);
                    assert forall|t: TypeId| t != type_id implies self.ordered(t) == pre.ordered(t) by {
                        if pre.has_column(t) {
                            let k = pre.column_index(t);
                            pre.lemma_column_index(k);
                            self.lemma_column_index(k);
                        } else {
                            if self.has_column(t) {
                                let k = self.column_index(t);
                                assert(pre.columns@[k].type_id == t);
                            }
                        }
                    }
                }
            },
            None => {
                let mut entries: Vec<(EntityId, C)> = Vec::new();
                entries.push((entity, component));
                let col = Column { type_id, entries };
                self.columns.push(col);
                proof {
                    let n = pre.columns@.len() as int;
                    assert(self.columns@[n].type_id == type_id);
                    self.lemma_column_index(n);
                    assert(column_map(Seq::<(EntityId, C)>::empty()) =~= Map::<u32, C>::empty());
                    lemma_column_insert(Seq::<(EntityId, C)>::empty(), 0, entity, component);
                    assert(Seq::<(EntityId, C)>::empty().insert(0, (entity, component)) =~= self.columns@[n].entries@);
                    assert forall|t: TypeId| t != type_id implies self.ordered(t) == pre.ordered(t) by {
                        if pre.has_column(t) {
                            let k = pre.column_index(t);
                            pre.lemma_column_index(k);
                            assert(self.columns@[k] == pre.columns@[k]);
                            self.lemma_column_index(k);
                        } else {
                            if self.has_column(t) {
                                let k = self.column_index(t);
                                assert(k != n);
                                assert(pre.columns@[k].type_id == t);
                            }
                        }
                    }
                }
            },
        }
    }
}

impl<C> ComponentStorage<C> {
    /// `entity`'s component of type `type_id`, if it has one.
    pub fn get(&self, entity: EntityId, type_id: TypeId) -> (r: Option<&C>)
        requires
            self.wf(),
        ensures
            r is Some == self.components(type_id).contains_key(entity.0),
            r matches Some(c) ==> *c == self.components(type_id)[entity.0],
    {
        match self.find_column(&type_id) {
            Some(ci) => {
                proof {
                    self.lemma_column_index(ci as int);
                }
                let col = &self.columns[ci];
                match column_search(&col.entries, entity) {
                    Ok(i) => {
                        proof {
                            lemma_column_value_at(col.entries@, i as int);
                        }
                        Some(&col.entries[i].1)
                    },
                    Err(pos) => {
                        proof {
                            lemma_column_absent(col.entries@, pos as int, entity.0);
                        }
                        None
                    },
                }
            },
            None => None,
        }
    }

    /// Takes `entity`'s component of type `type_id` out of the store.
    pub fn remove(&mut self, entity: EntityId, type_id: TypeId) -> (r: Option<C>)
        requires
            old(self).wf(),
        ensures
            final(self).wf(),
            final(self).components(type_id) == old(self).components(type_id).remove(entity.0),
            forall|t: TypeId| t != type_id ==> final(self).ordered(t) == old(self).ordered(t),
            r is Some == old(self).components(type_id).contains_key(entity.0),
            r matches Some(c) ==> c == old(self).components(type_id)[entity.0],
    {
        let ghost pre = *self;
        match self.find_column(&type_id) {
            Some(ci) => {
                proof {
                    pre.lemma_column_index(ci as int);
                }
                let mut col = self.columns.remove(ci);
                let r = column_take(&mut col.entries, entity);
                self.columns.insert(ci, col);
                proof {
                    assert(self.columns@ =~= pre.columns@.update(ci as int, col));
                    self.lemma_column_index(ci as int);
                    assert forall|t: TypeId| t != type_id implies self.ordered(t) == pre.ordered(t) by {
                        if pre.has_column(t) {
                            let k = pre.column_index(t);
                            pre.lemma_column_index(k);
                            self.lemma_column_index(k);
                        } else {
                            if self.has_column(t) {
                                let k = self.column_index(t);
                                assert(pre.columns@[k].type_id == t);
                            }
                        }
                    }
                }
                r
            },
            None => {
                proof {
                    assert(column_map(Seq::<(EntityId, C)>::empty()).remove(entity.0) =~= column_map(Seq::<(EntityId, C)>::empty()));
                }
                None
            },
        }
    }

    /// Removes every component of `entity`.
    pub fn remove_all(&mut self, entity: EntityId)
        requires
            old(self).wf(),
        ensures
            final(self).wf(),
            forall|t: TypeId| #[trigger] final(self).components(t) == old(self).components(t).remove(entity.0),
    {
        let ghost pre = *self;
        let mut ci: usize = 0;
        while ci < self.columns.len()
            invariant
                ci <= self.columns@.len(),
                self.columns@.len() == pre.columns@.len(),
                self.wf(),
                pre.wf(),
                forall|k: int| 0 <= k < self.columns@.len() ==> #[trigger] self.columns@[k].type_id == pre.columns@[k].type_id,
                forall|k: int| 0 <= k < ci ==> column_map(#[trigger] self.columns@[k].entries@) == column_map(pre.columns@[k].entries@).remove(entity.0),
                forall|k: int| ci <= k < self.columns@.len() ==> #[trigger] self.columns@[k].entries@ == pre.columns@[k].entries@,
            decreases self.columns@.len() - ci,
        {
            let ghost before = self.columns@;
            let mut col = self.columns.remove(ci);
            let _ = column_take(&mut col.entries, entity);
            self.columns.insert(ci, col);
            proof {
                assert(self.columns@ =~= before.update(ci as int, col));
            }
            ci = ci + 1;
        }
        proof {
            assert forall|t: TypeId| #[trigger] self.components(t) == pre.components(t).remove(entity.0) by {
                if pre.has_column(t) {
                    let k = pre.column_index(t);
                    pre.lemma_column_index(k);
                    self.lemma_column_index(k);
                } else {
                    if self.has_column(t) {
                        let k = self.column_index(t);
                        assert(pre.columns@[k].type_id == t);
                    }
                    assert(column_map(Seq::<(EntityId, C)>::empty()).remove(entity.0) =~= column_map(Seq::<(EntityId, C)>::empty()));
                }
            }
        }
    }

    /// The entities that have a component of type `type_id`, ascending.
    pub fn iter_ids(&self, type_id: TypeId) -> (r: Vec<EntityId>)
        requires
            self.wf(),
        ensures
            r@.len() == self.ordered(type_id).len(),
            forall|i: int| 0 <= i < r@.len() ==> #[trigger] r@[i] == self.ordered(type_id)[i].0,
    {
        let mut out: Vec<EntityId> = Vec::new();
        match self.find_column(&type_id) {
            Some(ci) => {
                proof {
                    self.lemma_column_index(ci as int);
                }
                let col = &self.columns[ci];
                let mut i: usize = 0;
                while i < col.entries.len()
                    invariant
                        i <= col.entries@.len(),
                        col.entries@ == self.ordered(type_id),
                        out@.len() == i,
                        forall|k: int| 0 <= k < i ==> #[trigger] out@[k] == col.entries@[k].0,
                    decreases col.entries@.len() - i,
                {
                    out.push(col.entries[i].0);
                    i = i + 1;
                }
            },
            None => {},
        }
        out
    }

    /// The `(entity, component)` pairs of type `type_id`, in ascending entity order.
    pub fn iter(&self, type_id: TypeId) -> (r: Vec<(EntityId, &C)>)
        requires
            self.wf(),
        ensures
            r@.len() == self.ordered(type_id).len(),
            forall|i: int| 0 <= i < r@.len() ==> (#[trigger] r@[i]).0 == self.ordered(type_id)[i].0 && *r@[i].1 == self.ordered(type_id)[i].1,
    {
        let mut out: Vec<(EntityId, &C)> = Vec::new();
        match self.find_column(&type_id) {
            Some(ci) => {
                proof {
                    self.lemma_column_index(ci as int);
                }
                let col = &self.columns[ci];
                let mut i: usize = 0;
                while i < col.entries.len()
                    invariant
                        i <= col.entries@.len(),
                        col.entries@ == self.ordered(type_id),
                        out@.len() == i,
                        forall|k: int| 0 <= k < i ==> (#[trigger] out@[k]).0 == col.entries@[k].0 && *out@[k].1 == col.entries@[k].1,
                    decreases col.entries@.len() - i,
                {
                    let entry = &col.entries[i];
                    out.push((entry.0, &entry.1));
                    i = i + 1;
                }
            },
            None => {},
        }
        out
    }
}

impl<C> ComponentStorage<C> {
    /// Mutable access to `entity`'s component of type `type_id`, if it has one.
    /// Whatever is written through the reference becomes that component.
    pub fn get_mut(&mut self, entity: EntityId, type_id: TypeId) -> (r: Option<&mut C>)
        requires
            old(self).wf(),
        ensures
            r is Some == old(self).components(type_id).contains_key(entity.0),
            r matches Some(m) ==> *m == old(self).components(type_id)[entity.0],
            r matches Some(m) ==> final(self).components(type_id) == old(self).components(type_id).insert(entity.0, *final(m)),
            r is Some ==> final(self).wf(),
            r is Some ==> forall|t: TypeId| t != type_id ==> final(self).ordered(t) == old(self).ordered(t),
            r is None ==> *final(self) == *old(self),
    {
        let ghost pre = *self;
        match self.find_column(&type_id) {
            Some(ci) => {
                proof {
                    pre.lemma_column_index(ci as int);
                }
                match column_search(&self.columns[ci].entries, entity) {
                    Ok(i) => {
                        proof {
                            lemma_column_value_at(pre.columns@[ci as int].entries@, i as int);
                        }
                        let m = self.entry_mut(ci, i);
                        proof {
                            let s = pre.columns@[ci as int].entries@;
                            lemma_column_update(s, i as int, *final(m));
                            Self::lemma_other_columns(pre, ci as int);
                            Self::lemma_ordered_at(ci as int);
                        }
                        Some(m)
                    },
                    Err(pos) => {
                        proof {
                            lemma_column_absent(pre.columns@[ci as int].entries@, pos as int, entity.0);
                        }
                        None
                    },
                }
            },
            None => None,
        }
    }
}

/// The store read as one map from `(type, raw entity id)` to component.
pub open spec fn flat_map<C>(s: &ComponentStorage<C>) -> Map<(TypeId, u32), C> {
    Map::new(|k: (TypeId, u32)| s.components(k.0).contains_key(k.1), |k: (TypeId, u32)| s.components(k.0)[k.1])
}

/// `m` without any component of entity `e`.
pub open spec fn without_entity<C>(m: Map<(TypeId, u32), C>, e: u32) -> Map<(TypeId, u32), C> {
    Map::new(|k: (TypeId, u32)| m.contains_key(k) && k.1 != e, |k: (TypeId, u32)| m[k])
}

/// A store change confined to type `t` as a change of the flat map.
pub proof fn lemma_flat_one_type<C>(pre: &ComponentStorage<C>, post: &ComponentStorage<C>, t: TypeId)
    requires
        forall|u: TypeId| u != t ==> post.ordered(u) == pre.ordered(u),
    ensures
        forall|k: (TypeId, u32)| k.0 != t ==> (#[trigger] flat_map(post).contains_key(k) == flat_map(pre).contains_key(k)
            && (flat_map(pre).contains_key(k) ==> flat_map(post)[k] == flat_map(pre)[k])),
        forall|e: u32| #[trigger] flat_map(post).contains_key((t, e)) == post.components(t).contains_key(e),
        forall|e: u32| post.components(t).contains_key(e) ==> #[trigger] flat_map(post)[(t, e)] == post.components(t)[e],
{
}

/// Inserting into type `t` inserts into the flat map.
pub proof fn lemma_flat_insert<C>(pre: &ComponentStorage<C>, post: &ComponentStorage<C>, t: TypeId, e: u32, c: C)
    requires
        post.components(t) == pre.components(t).insert(e, c),
        forall|u: TypeId| u != t ==> post.ordered(u) == pre.ordered(u),
    ensures
        flat_map(post) == flat_map(pre).insert((t, e), c),
{
    lemma_flat_one_type(pre, post, t);
    assert(flat_map(post) =~= flat_map(pre).insert((t, e), c));
}

/// Removing from type `t` removes from the flat map.
pub proof fn lemma_flat_remove<C>(pre: &ComponentStorage<C>, post: &ComponentStorage<C>, t: TypeId, e: u32)
    requires
        post.components(t) == pre.components(t).remove(e),
        forall|u: TypeId| u != t ==> post.ordered(u) == pre.ordered(u),
    ensures
        flat_map(post) == flat_map(pre).remove((t, e)),
{
    lemma_flat_one_type(pre, post, t);
    assert(flat_map(post) =~= flat_map(pre).remove((t, e)));
}

/// Removing an entity from every type removes it from the flat map.
pub proof fn lemma_flat_remove_all<C>(pre: &ComponentStorage<C>, post: &ComponentStorage<C>, e: u32)
    requires
        forall|t: TypeId| #[trigger] post.components(t) == pre.components(t).remove(e),
    ensures
        flat_map(post) == without_entity(flat_map(pre), e),
{
    assert forall|k: (TypeId, u32)| #[trigger] flat_map(post).contains_key(k) == without_entity(flat_map(pre), e).contains_key(k) by {
        assert(post.components(k.0) == pre.components(k.0).remove(e));
    }
    assert forall|k: (TypeId, u32)| flat_map(post).contains_key(k) implies #[trigger] flat_map(post)[k] == without_entity(flat_map(pre), e)[k] by {
        assert(post.components(k.0) == pre.components(k.0).remove(e));
    }
    assert(flat_map(post) =~= without_entity(flat_map(pre), e));
}

impl<C> Default for ComponentStorage<C> {
    fn default() -> (r: Self)
        ensures
            r.wf(),
            forall|t: TypeId| r.ordered(t) == Seq::<(EntityId, C)>::empty(),
    {
        Self::new()
    }
}

} // verus!
