use std::any::TypeId;
use std::collections::HashSet;
use vstd::prelude::*;

use crate::component_storage::{column_map, lemma_column_value_at, ComponentStorage};
use crate::components::Lifetime;
use crate::event::{EventBus, EventPayload};
use crate::types::{EntityId, Tick};

verus! {

/// The entities of column `s` whose lifetime, as `reads` gives it, runs out on
/// this tick, in column order.
pub open spec fn expiring<C>(s: Seq<(EntityId, C)>, reads: Seq<Option<Lifetime>>) -> Seq<EntityId>
    decreases s.len(),
{
    if s.len() == 0 {
        Seq::empty()
    } else {
        let p = expiring(s.drop_last(), reads);
        if reads[s.len() - 1] matches Some(l) && l.counted_down().remaining.0 == 0 {
            p.push(s.last().0)
        } else {
            p
        }
    }
}

/// The expiring entities of `s` depend on the reads of its entries only.
proof fn lemma_expiring_reads<C>(s: Seq<(EntityId, C)>, r1: Seq<Option<Lifetime>>, r2: Seq<Option<Lifetime>>)
    requires
        forall|m: int| 0 <= m < s.len() ==> r1[m] == r2[m],
    ensures
        expiring(s, r1) == expiring(s, r2),
    decreases s.len(),
{
    if s.len() > 0 {
        lemma_expiring_reads(s.drop_last(), r1, r2);
    }
}

/// `reads` and `made` record, entry by entry of column `s`, what `read` gave
/// for the stored component and what `make` built from the counted-down
/// lifetime.
pub open spec fn lifetime_trace_ok<C, G, M>(s: Seq<(EntityId, C)>, read: &G, make: &M, reads: Seq<Option<Lifetime>>, made: Seq<C>) -> bool
    where
        G: Fn(&C) -> Option<Lifetime>,
        M: Fn(Lifetime) -> C,
{
    &&& reads.len() == s.len()
    &&& made.len() == s.len()
    &&& forall|k: int| 0 <= k < s.len() ==> call_ensures(*read, (&s[k].1,), #[trigger] reads[k])
    &&& forall|k: int| 0 <= k < s.len() ==> (#[trigger] reads[k] matches Some(l) ==> call_ensures(*make, (l.counted_down(),), made[k]))
}

/// The component entry `k` of `s` holds after the pass: the rebuilt one when
/// it read as a lifetime, else the old one.
pub open spec fn counted_entry<C>(s: Seq<(EntityId, C)>, reads: Seq<Option<Lifetime>>, made: Seq<C>, k: int) -> C {
    if reads[k] is Some {
        made[k]
    } else {
        s[k].1
    }
}

/// One tick of the lifetime system.
///
/// Walks the components of type `lifetime_type` in ascending entity order.
/// `read` gives the `Lifetime` a stored component holds and `make` stores a
/// `Lifetime` back as a component. Each lifetime is counted down by one tick
/// (never below zero); the entities whose count is then zero get a
/// `LifetimeExpired` event each and are returned, in the same order, so the
/// caller can despawn them.
pub fn lifetime_system<C, V, G, M>(
    storage: &mut ComponentStorage<C>,
    event_bus: &mut EventBus<V>,
    tick: Tick,
    lifetime_type: TypeId,
    read: &G,
    make: &M,
) -> (expired: Vec<EntityId>)
    where
        G: Fn(&C) -> Option<Lifetime>,
        M: Fn(Lifetime) -> C,
    requires
        old(storage).wf(),
        forall|c: &C| call_requires(*read, (c,)),
        forall|l: Lifetime| call_requires(*make, (l,)),
    ensures
        final(storage).wf(),
        forall|t: TypeId| t != lifetime_type ==> #[trigger] final(storage).ordered(t) == old(storage).ordered(t),
        exists|reads: Seq<Option<Lifetime>>, made: Seq<C>| {
            &&& #[trigger] lifetime_trace_ok(old(storage).ordered(lifetime_type), read, make, reads, made)
            &&& final(storage).components(lifetime_type).dom() == old(storage).components(lifetime_type).dom()
            &&& forall|k: int| 0 <= k < old(storage).ordered(lifetime_type).len() ==> #[trigger] final(storage).components(lifetime_type)[old(storage).ordered(lifetime_type)[k].0.0] == counted_entry(old(storage).ordered(lifetime_type), reads, made, k)
            &&& expired@ == expiring(old(storage).ordered(lifetime_type), reads)
            &&& final(event_bus).queued() == old(event_bus).queued() + expired@.map_values(
                |e: EntityId| EventPayload::LifetimeExpired { entity: e, tick },
            )
        },
{
    let ids = storage.iter_ids(lifetime_type);
    let ghost s = storage.ordered(lifetime_type);
    let ghost m0 = storage.components(lifetime_type);
    proof {
        storage.lemma_ordered_sorted(lifetime_type);
    }
    let ghost mut reads: Seq<Option<Lifetime>> = Seq::empty();
    let ghost mut made: Seq<C> = Seq::empty();
    let mut expired: Vec<EntityId> = Vec::new();
    let mut k: usize = 0;
    while k < ids.len()
        invariant
            k <= ids@.len(),
            ids@.len() == s.len(),
            forall|m: int| 0 <= m < ids@.len() ==> #[trigger] ids@[m] == s[m].0,
            s == old(storage).ordered(lifetime_type),
            m0 == old(storage).components(lifetime_type),
            crate::component_storage::column_sorted(s),
            storage.wf(),
            forall|t: TypeId| t != lifetime_type ==> #[trigger] storage.ordered(t) == old(storage).ordered(t),
            storage.components(lifetime_type).dom() == m0.dom(),
            forall|m: int| 0 <= m < k ==> #[trigger] storage.components(lifetime_type)[s[m].0.0] == counted_entry(s, reads, made, m),
            forall|m: int| k <= m < s.len() ==> #[trigger] storage.components(lifetime_type)[s[m].0.0] == s[m].1,
            reads.len() == k,
            made.len() == k,
            forall|m: int| 0 <= m < k ==> call_ensures(*read, (&s[m].1,), #[trigger] reads[m]),
            forall|m: int| 0 <= m < k ==> (#[trigger] reads[m] matches Some(l) ==> call_ensures(*make, (l.counted_down(),), made[m])),
            expired@ == expiring(s.take(k as int), reads),
            forall|c: &C| call_requires(*read, (c,)),
            forall|l: Lifetime| call_requires(*make, (l,)),
        decreases ids@.len() - k,
    {
        let e = ids[k];
        let ghost pre = *storage;
        proof {
            lemma_column_value_at(s, k as int);
            assert(m0.contains_key(e.0));
            assert(s.take(k + 1).drop_last() =~= s.take(k as int));
        }
        let ghost mut r_k: Option<Lifetime> = None;
        let ghost mut c_k: C = s[k as int].1;
        match storage.get_mut(e, lifetime_type) {
            Some(slot) => {
                let r = read(&*slot);
                proof {
                    r_k = r;
                }
                match r {
                    Some(l0) => {
                        let mut l = l0;
                        let done = l.count_down();
                        let c = make(l);
                        proof {
                            c_k = c;
                        }
                        *slot = c;
                        if done {
                            expired.push(e);
                        }
                    },
                    None => {},
                }
            },
            None => {},
        }
        proof {
            lemma_expiring_reads(s.take(k as int), reads, reads.push(r_k));
            reads = reads.push(r_k);
            made = made.push(c_k);
            assert forall|m: int| 0 <= m < k + 1 implies #[trigger] storage.components(lifetime_type)[s[m].0.0] == counted_entry(s, reads, made, m) by {
                if m < k {
                    assert(s[m].0.0 < s[k as int].0.0);
                }
            }
            assert forall|m: int| k + 1 <= m < s.len() implies #[trigger] storage.components(lifetime_type)[s[m].0.0] == s[m].1 by {
                assert(s[k as int].0.0 < s[m].0.0);
            }
            assert(storage.components(lifetime_type).dom() =~= m0.dom());
            assert(s.take(k + 1).last() == s[k as int]);
            assert(expired@ =~= expiring(s.take(k + 1), reads));
        }
        k = k + 1;
    }
    proof {
        assert(s.take(k as int) =~= s);
    }
    let ghost q0 = event_bus.queued();
    let mut i: usize = 0;
    while i < expired.len()
        invariant
            i <= expired@.len(),
            q0 == old(event_bus).queued(),
            event_bus.queued() == q0 + expired@.take(i as int).map_values(|e: EntityId| EventPayload::LifetimeExpired { entity: e, tick }),
        decreases expired@.len() - i,
    {
        event_bus.push(EventPayload::LifetimeExpired { entity: expired[i], tick });
        proof {
            assert(expired@.take(i + 1).map_values(|e: EntityId| EventPayload::<V>::LifetimeExpired { entity: e, tick }) =~= expired@.take(
                i as int,
            ).map_values(|e: EntityId| EventPayload::<V>::LifetimeExpired { entity: e, tick }).push(
                EventPayload::LifetimeExpired { entity: expired@[i as int], tick },
            ));
        }
        i = i + 1;
    }
    proof {
        assert(expired@.take(i as int) =~= expired@);
        assert(lifetime_trace_ok(s, read, make, reads, made));
    }
    expired
}

/// The order-independent key of the pair `(a, b)`: the smaller raw id in the
/// low 32 bits, the larger one in the high 32 bits.
pub open spec fn pair_key(a: EntityId, b: EntityId) -> u64 {
    let lo = if a.0 <= b.0 { a.0 } else { b.0 };
    let hi = if a.0 <= b.0 { b.0 } else { a.0 };
    (lo + hi * 0x1_0000_0000) as u64
}

/// The two pairs join the same two entities, in either order.
pub open spec fn same_entities(p: (EntityId, EntityId), q: (EntityId, EntityId)) -> bool {
    (p.0 == q.0 && p.1 == q.1) || (p.0 == q.1 && p.1 == q.0)
}

/// Two pairs have the same key exactly when they join the same two entities.
pub proof fn lemma_pair_key_identifies_pair(p: (EntityId, EntityId), q: (EntityId, EntityId))
    ensures
        pair_key(p.0, p.1) == pair_key(q.0, q.1) <==> same_entities(p, q),
{
    let lo1: int = if p.0.0 <= p.1.0 { p.0.0 as int } else { p.1.0 as int };
    let hi1: int = if p.0.0 <= p.1.0 { p.1.0 as int } else { p.0.0 as int };
    let lo2: int = if q.0.0 <= q.1.0 { q.0.0 as int } else { q.1.0 as int };
    let hi2: int = if q.0.0 <= q.1.0 { q.1.0 as int } else { q.0.0 as int };
    assert(0 <= lo1 + hi1 * 0x1_0000_0000 < 0x1_0000_0000_0000_0000) by (nonlinear_arith)
        requires
            0 <= lo1 < 0x1_0000_0000,
            0 <= hi1 < 0x1_0000_0000,
    ;
    assert(0 <= lo2 + hi2 * 0x1_0000_0000 < 0x1_0000_0000_0000_0000) by (nonlinear_arith)
        requires
            0 <= lo2 < 0x1_0000_0000,
            0 <= hi2 < 0x1_0000_0000,
    ;
    assert(pair_key(p.0, p.1) == lo1 + hi1 * 0x1_0000_0000);
    assert(pair_key(q.0, q.1) == lo2 + hi2 * 0x1_0000_0000);
    if lo1 + hi1 * 0x1_0000_0000 == lo2 + hi2 * 0x1_0000_0000 {
        assert(hi1 == hi2 && lo1 == lo2) by (nonlinear_arith)
            requires
                0 <= lo1 < 0x1_0000_0000,
                0 <= lo2 < 0x1_0000_0000,
                lo1 + hi1 * 0x1_0000_0000 == lo2 + hi2 * 0x1_0000_0000,
        ;
    }
}

fn pair_key_of(a: EntityId, b: EntityId) -> (k: u64)
    ensures
        k == pair_key(a, b),
{
    let lo: u64 = if a.0 <= b.0 { a.0 as u64 } else { b.0 as u64 };
    let hi: u64 = if a.0 <= b.0 { b.0 as u64 } else { a.0 as u64 };
    lo + hi * 0x1_0000_0000u64
}

/// Whether entry `i` of `pairs` is eligible and no earlier eligible entry
/// joins the same two entities.
pub open spec fn first_of_pair(pairs: Seq<(EntityId, EntityId)>, eligible: Seq<bool>, i: int) -> bool {
    &&& eligible[i]
    &&& forall|j: int| 0 <= j < i && eligible[j] ==> pair_key(pairs[j].0, pairs[j].1) != #[trigger] pair_key(pairs[i].0, pairs[i].1)
}

/// The positions, ascending, of the collision pairs the elastic response
/// handles: of the pairs whose two entities both carry an elastic collision
/// component (`both_elastic`), each unordered pair at its first occurrence
/// only, so a symmetric pair of events gets one impulse.
pub fn elastic_pairs(pairs: &Vec<(EntityId, EntityId)>, both_elastic: &Vec<bool>) -> (r: Vec<usize>)
    requires
        both_elastic@.len() == pairs@.len(),
    ensures
        forall|k: int| 0 <= k < r@.len() ==> (#[trigger] r@[k]) < pairs@.len(),
        forall|a: int, b: int| 0 <= a < b < r@.len() ==> r@[a] < r@[b],
        forall|i: int| 0 <= i < pairs@.len() ==> (first_of_pair(pairs@, both_elastic@, i) <==> r@.contains(i as usize)),
        forall|i: int| 0 <= i < pairs@.len() ==> (#[trigger] r@.contains(i as usize) <==> (both_elastic@[i] && forall|j: int|
            0 <= j < i && both_elastic@[j] ==> !#[trigger] same_entities(pairs@[j], pairs@[i]))),
{
    let mut seen: HashSet<u64> = HashSet::new();
    let mut out: Vec<usize> = Vec::new();
    let mut i: usize = 0;
    while i < pairs.len()
        invariant
            i <= pairs@.len(),
            both_elastic@.len() == pairs@.len(),
            forall|k: u64| #[trigger] seen@.contains(k) <==> exists|j: int| 0 <= j < i && both_elastic@[j] && pair_key(pairs@[j].0, pairs@[j].1) == k,
            forall|k: int| 0 <= k < out@.len() ==> (#[trigger] out@[k]) < i,
            forall|a: int, b: int| 0 <= a < b < out@.len() ==> out@[a] < out@[b],
            forall|x: int| 0 <= x < i ==> (first_of_pair(pairs@, both_elastic@, x) <==> out@.contains(x as usize)),
        decreases pairs@.len() - i,
    {
        let (a, b) = pairs[i];
        if both_elastic[i] {
            let key = pair_key_of(a, b);
            let fresh = seen.insert(key);
            let ghost pre_out = out@;
            if fresh {
                out.push(i);
            }
            proof {
                assert(first_of_pair(pairs@, both_elastic@, i as int) == fresh) by {
                    if !fresh {
                        let j = choose|j: int| 0 <= j < i && both_elastic@[j] && pair_key(pairs@[j].0, pairs@[j].1) == key;
                        assert(pair_key(pairs@[j].0, pairs@[j].1) == pair_key(pairs@[i as int].0, pairs@[i as int].1));
                    }
                }
                assert forall|x: int| 0 <= x < i + 1 implies (first_of_pair(pairs@, both_elastic@, x) <==> out@.contains(x as usize)) by {
                    if x < i {
                        if pre_out.contains(x as usize) {
                            let w = choose|w: int| 0 <= w < pre_out.len() && pre_out[w] == x as usize;
                            assert(out@[w] == x as usize);
                        }
                        if out@.contains(x as usize) {
                            let w = choose|w: int| 0 <= w < out@.len() && out@[w] == x as usize;
                            if w == pre_out.len() {
                                assert(out@[w] == i);
                            } else {
                                assert(pre_out[w] == x as usize);
                            }
                        }
                    } else {
                        if fresh {
                            assert(out@[out@.len() - 1] == i);
                        } else {
                            if out@.contains(x as usize) {
                                let w = choose|w: int| 0 <= w < out@.len() && out@[w] == x as usize;
                                assert(out@[w] < i);
                            }
                        }
                    }
                }
                assert forall|k: u64| #[trigger] seen@.contains(k) <==> exists|j: int| 0 <= j < i + 1 && both_elastic@[j] && pair_key(pairs@[j].0, pairs@[j].1) == k by {
                    if k == key {
                        assert(0 <= i < i + 1 && both_elastic@[i as int] && pair_key(pairs@[i as int].0, pairs@[i as int].1) == k);
                    } else if seen@.contains(k) {
                        let j = choose|j: int| 0 <= j < i && both_elastic@[j] && pair_key(pairs@[j].0, pairs@[j].1) == k;
                        assert(0 <= j < i + 1 && both_elastic@[j] && pair_key(pairs@[j].0, pairs@[j].1) == k);
                    }
                }
            }
        } else {
            proof {
                assert forall|x: int| 0 <= x < i + 1 implies (first_of_pair(pairs@, both_elastic@, x) <==> out@.contains(x as usize)) by {
                    if x == i {
                        if out@.contains(x as usize) {
                            let w = choose|w: int| 0 <= w < out@.len() && out@[w] == x as usize;
                            assert(out@[w] < i);
                        }
                    }
                }
                assert forall|k: u64| #[trigger] seen@.contains(k) <==> exists|j: int| 0 <= j < i + 1 && both_elastic@[j] && pair_key(pairs@[j].0, pairs@[j].1) == k by {
                    if exists|j: int| 0 <= j < i + 1 && both_elastic@[j] && pair_key(pairs@[j].0, pairs@[j].1) == k {
                        let j = choose|j: int| 0 <= j < i + 1 && both_elastic@[j] && pair_key(pairs@[j].0, pairs@[j].1) == k;
                        assert(j < i);
                    }
                }
            }
        }
        i = i + 1;
    }
    proof {
        assert forall|i: int| 0 <= i < pairs@.len() implies (#[trigger] out@.contains(i as usize) <==> (both_elastic@[i] && forall|j: int|
            0 <= j < i && both_elastic@[j] ==> !#[trigger] same_entities(pairs@[j], pairs@[i]))) by {
            if first_of_pair(pairs@, both_elastic@, i) {
                assert forall|j: int| 0 <= j < i && both_elastic@[j] implies !#[trigger] same_entities(pairs@[j], pairs@[i]) by {
                    lemma_pair_key_identifies_pair(pairs@[j], pairs@[i]);
                }
            } else if both_elastic@[i] {
                let j = choose|j: int| !(0 <= j < i && both_elastic@[j] ==> pair_key(pairs@[j].0, pairs@[j].1) != #[trigger] pair_key(pairs@[i].0, pairs@[i].1));
                lemma_pair_key_identifies_pair(pairs@[j], pairs@[i]);
                assert(same_entities(pairs@[j], pairs@[i]));
            }
        }
    }
    out
}

} // verus!
