use vstd::prelude::*;

use crate::event::EventPayload;
use crate::types::EntityId;

verus! {

/// The handler functions a loaded script defines.
#[derive(Debug, Clone, Copy, PartialEq, Eq, Structural)]
pub struct ScriptHandlers {
    pub on_frame: bool,
    pub on_collision: bool,
    pub on_spawn: bool,
    pub on_despawn: bool,
    pub on_lifetime_expired: bool,
}

/// One call of a script handler during a frame.
#[derive(Debug, Clone, Copy)]
pub enum ScriptCall<V> {
    /// `on_frame(ctx)`.
    Frame,
    /// `on_collision(ctx, attacker, defender, contact point, normal)`.
    Collision { attacker: EntityId, defender: EntityId, contact_point: V, normal: V },
    /// `on_spawn(ctx, entity)`.
    Spawned(EntityId),
    /// `on_despawn(ctx, entity)`.
    Despawned(EntityId),
    /// `on_lifetime_expired(ctx, entity)`.
    LifetimeExpired(EntityId),
}

/// The kinds of event a script can react to.
pub enum EventKind {
    Collision,
    Spawned,
    Despawned,
    LifetimeExpired,
}

/// The call that event `e` asks for among the calls of kind `kind`, if the
/// script defines the handler of that kind.
pub open spec fn event_call<V>(h: ScriptHandlers, e: EventPayload<V>, kind: EventKind) -> Option<ScriptCall<V>> {
    match (e, kind) {
        (EventPayload::Collision { attacker, defender, contact_point, normal, .. }, EventKind::Collision) => if h.on_collision {
            Some(ScriptCall::Collision { attacker, defender, contact_point, normal })
        } else {
            None
        },
        (EventPayload::Spawned { entity, .. }, EventKind::Spawned) => if h.on_spawn {
            Some(ScriptCall::Spawned(entity))
        } else {
            None
        },
        (EventPayload::Despawned { entity, .. }, EventKind::Despawned) => if h.on_despawn {
            Some(ScriptCall::Despawned(entity))
        } else {
            None
        },
        (EventPayload::LifetimeExpired { entity, .. }, EventKind::LifetimeExpired) => if h.on_lifetime_expired {
            Some(ScriptCall::LifetimeExpired(entity))
        } else {
            None
        },
        _ => None,
    }
}

/// The calls of kind `kind` that `events` ask for, in event order.
pub open spec fn calls_of_kind<V>(h: ScriptHandlers, events: Seq<EventPayload<V>>, kind: EventKind) -> Seq<ScriptCall<V>>
    decreases events.len(),
{
    if events.len() == 0 {
        Seq::empty()
    } else {
        let p = calls_of_kind(h, events.drop_last(), kind);
        match event_call(h, events.last(), kind) {
            Some(c) => p.push(c),
            None => p,
        }
    }
}

/// The calls a script engine makes on a frame with events `events`: the
/// per-frame handler first, then the collision handler for each collision,
/// the spawn handler for each spawn, the despawn handler for each despawn and
/// the expiry handler for each expired lifetime, each group in event order,
/// and only the handlers the script defines.
pub open spec fn frame_calls_spec<V>(h: ScriptHandlers, events: Seq<EventPayload<V>>) -> Seq<ScriptCall<V>> {
    (if h.on_frame { seq![ScriptCall::Frame] } else { Seq::empty() })
        + calls_of_kind(h, events, EventKind::Collision)
        + calls_of_kind(h, events, EventKind::Spawned)
        + calls_of_kind(h, events, EventKind::Despawned)
        + calls_of_kind(h, events, EventKind::LifetimeExpired)
}

/// The calls of one kind depend only on the events they read.
proof fn lemma_calls_push<V>(h: ScriptHandlers, events: Seq<EventPayload<V>>, k: int, kind: EventKind)
    requires
        0 <= k < events.len(),
    ensures
        calls_of_kind(h, events.take(k + 1), kind) == match event_call(h, events[k], kind) {
            Some(c) => calls_of_kind(h, events.take(k), kind).push(c),
            None => calls_of_kind(h, events.take(k), kind),
        },
{
    assert(events.take(k + 1).drop_last() =~= events.take(k));
    assert(events.take(k + 1).last() == events[k]);
}

/// Whether the script defines the handler that event `e` is for.
pub open spec fn handles<V>(h: ScriptHandlers, e: EventPayload<V>) -> bool {
    match e {
        EventPayload::Collision { .. } => h.on_collision,
        EventPayload::Spawned { .. } => h.on_spawn,
        EventPayload::Despawned { .. } => h.on_despawn,
        EventPayload::LifetimeExpired { .. } => h.on_lifetime_expired,
        EventPayload::Custom { .. } => false,
    }
}

/// The number of events in `events` that the script has a handler for.
pub open spec fn handled_count<V>(h: ScriptHandlers, events: Seq<EventPayload<V>>) -> nat
    decreases events.len(),
{
    if events.len() == 0 {
        0
    } else {
        handled_count(h, events.drop_last()) + if handles(h, events.last()) { 1nat } else { 0nat }
    }
}

/// A call of one kind is asked for exactly when some event asks for it.
proof fn lemma_calls_contains<V>(h: ScriptHandlers, events: Seq<EventPayload<V>>, kind: EventKind, c: ScriptCall<V>)
    ensures
        calls_of_kind(h, events, kind).contains(c) <==> exists|i: int|
            0 <= i < events.len() && #[trigger] event_call(h, events[i], kind) == Some(c),
    decreases events.len(),
{
    if events.len() > 0 {
        let prev = events.drop_last();
        let n = events.len() - 1;
        lemma_calls_contains(h, prev, kind, c);
        let p = calls_of_kind(h, prev, kind);
        assert(events[n] == events.last());
        if exists|i: int| 0 <= i < prev.len() && #[trigger] event_call(h, prev[i], kind) == Some(c) {
            let i = choose|i: int| 0 <= i < prev.len() && #[trigger] event_call(h, prev[i], kind) == Some(c);
            assert(events[i] == prev[i]);
            let w = choose|w: int| 0 <= w < p.len() && p[w] == c;
            match event_call(h, events.last(), kind) {
                Some(x) => {
                    assert(p.push(x)[w] == c);
                },
                None => {},
            }
        }
        if calls_of_kind(h, events, kind).contains(c) {
            match event_call(h, events.last(), kind) {
                Some(x) => {
                    let w = choose|w: int| 0 <= w < p.len() + 1 && p.push(x)[w] == c;
                    if w == p.len() {
                        assert(event_call(h, events[n], kind) == Some(c));
                    } else {
                        assert(p[w] == c);
                        let i = choose|i: int| 0 <= i < prev.len() && #[trigger] event_call(h, prev[i], kind) == Some(c);
                        assert(events[i] == prev[i]);
                    }
                },
                None => {
                    let i = choose|i: int| 0 <= i < prev.len() && #[trigger] event_call(h, prev[i], kind) == Some(c);
                    assert(events[i] == prev[i]);
                },
            }
        }
        if exists|i: int| 0 <= i < events.len() && #[trigger] event_call(h, events[i], kind) == Some(c) {
            let i = choose|i: int| 0 <= i < events.len() && #[trigger] event_call(h, events[i], kind) == Some(c);
            if i == n {
                assert(p.push(c)[p.len() as int] == c);
            } else {
                assert(events[i] == prev[i]);
                assert(event_call(h, prev[i], kind) == Some(c));
                let w = choose|w: int| 0 <= w < p.len() && p[w] == c;
                match event_call(h, events.last(), kind) {
                    Some(x) => {
                        assert(p.push(x)[w] == c);
                    },
                    None => {},
                }
            }
        }
    }
}

/// One call per event that the script has a handler for.
proof fn lemma_calls_count<V>(h: ScriptHandlers, events: Seq<EventPayload<V>>)
    ensures
        calls_of_kind(h, events, EventKind::Collision).len() + calls_of_kind(h, events, EventKind::Spawned).len()
            + calls_of_kind(h, events, EventKind::Despawned).len() + calls_of_kind(h, events, EventKind::LifetimeExpired).len()
            == handled_count(h, events),
    decreases events.len(),
{
    if events.len() > 0 {
        lemma_calls_count(h, events.drop_last());
    }
}

/// What a frame's calls are, stated over the events: the per-frame handler is
/// called exactly when the script defines it; a spawn, despawn or expiry call
/// for an entity is made exactly when the script defines the handler of that
/// kind and an event of that kind names the entity; a collision call exactly
/// when the script defines the collision handler and a collision event carries
/// those entities, point and normal; and there is one call per event that the
/// script has a handler for, plus the per-frame call.
pub proof fn lemma_frame_calls_answer_events<V>(h: ScriptHandlers, events: Seq<EventPayload<V>>)
    ensures
        frame_calls_spec(h, events).contains(ScriptCall::Frame) <==> h.on_frame,
        forall|e: EntityId| #[trigger] frame_calls_spec(h, events).contains(ScriptCall::Spawned(e)) <==> (h.on_spawn && exists|i: int|
            0 <= i < events.len() && events[i] is Spawned && #[trigger] events[i].spec_primary() == Some(e)),
        forall|e: EntityId| #[trigger] frame_calls_spec(h, events).contains(ScriptCall::Despawned(e)) <==> (h.on_despawn && exists|i: int|
            0 <= i < events.len() && events[i] is Despawned && #[trigger] events[i].spec_primary() == Some(e)),
        forall|e: EntityId| #[trigger] frame_calls_spec(h, events).contains(ScriptCall::LifetimeExpired(e)) <==> (h.on_lifetime_expired && exists|i: int|
            0 <= i < events.len() && events[i] is LifetimeExpired && #[trigger] events[i].spec_primary() == Some(e)),
        forall|a: EntityId, d: EntityId, cp: V, nv: V|
            #[trigger] frame_calls_spec(h, events).contains((ScriptCall::Collision { attacker: a, defender: d, contact_point: cp, normal: nv })) <==> (
            h.on_collision && exists|i: int|
                0 <= i < events.len() && #[trigger] events[i] is Collision && events[i]->attacker == a && events[i]->defender == d
                    && events[i]->contact_point == cp && events[i]->normal == nv),
        frame_calls_spec(h, events).len() == (if h.on_frame { 1int } else { 0int }) + handled_count(h, events),
{
    let f: Seq<ScriptCall<V>> = if h.on_frame { seq![ScriptCall::Frame] } else { Seq::empty() };
    let cs = calls_of_kind(h, events, EventKind::Collision);
    let ss = calls_of_kind(h, events, EventKind::Spawned);
    let ds = calls_of_kind(h, events, EventKind::Despawned);
    let ls = calls_of_kind(h, events, EventKind::LifetimeExpired);
    let all = frame_calls_spec(h, events);
    assert(all == f + cs + ss + ds + ls);
    lemma_calls_count(h, events);
    // A call sits in the part of its own kind.
    assert forall|c: ScriptCall<V>| #[trigger] all.contains(c) <==> (f.contains(c) || cs.contains(c) || ss.contains(c) || ds.contains(c) || ls.contains(c)) by {
        let a1 = f + cs;
        let a2 = a1 + ss;
        let a3 = a2 + ds;
        if all.contains(c) {
            let w = choose|w: int| 0 <= w < all.len() && all[w] == c;
            if w < f.len() {
                assert(f[w] == c);
            } else if w < a1.len() {
                assert(cs[w - f.len()] == c);
            } else if w < a2.len() {
                assert(ss[w - a1.len()] == c);
            } else if w < a3.len() {
                assert(ds[w - a2.len()] == c);
            } else {
                assert(ls[w - a3.len()] == c);
            }
        }
        if f.contains(c) {
            let w = choose|w: int| 0 <= w < f.len() && f[w] == c;
            assert(all[w] == c);
        }
        if cs.contains(c) {
            let w = choose|w: int| 0 <= w < cs.len() && cs[w] == c;
            assert(all[f.len() + w] == c);
        }
        if ss.contains(c) {
            let w = choose|w: int| 0 <= w < ss.len() && ss[w] == c;
            assert(all[a1.len() + w] == c);
        }
        if ds.contains(c) {
            let w = choose|w: int| 0 <= w < ds.len() && ds[w] == c;
            assert(all[a2.len() + w] == c);
        }
        if ls.contains(c) {
            let w = choose|w: int| 0 <= w < ls.len() && ls[w] == c;
            assert(all[a3.len() + w] == c);
        }
    }
    assert forall|c: ScriptCall<V>| #[trigger] all.contains(c) <==> (f.contains(c)
        || (exists|i: int| 0 <= i < events.len() && #[trigger] event_call(h, events[i], EventKind::Collision) == Some(c))
        || (exists|i: int| 0 <= i < events.len() && #[trigger] event_call(h, events[i], EventKind::Spawned) == Some(c))
        || (exists|i: int| 0 <= i < events.len() && #[trigger] event_call(h, events[i], EventKind::Despawned) == Some(c))
        || (exists|i: int| 0 <= i < events.len() && #[trigger] event_call(h, events[i], EventKind::LifetimeExpired) == Some(c))) by {
        lemma_calls_contains(h, events, EventKind::Collision, c);
        lemma_calls_contains(h, events, EventKind::Spawned, c);
        lemma_calls_contains(h, events, EventKind::Despawned, c);
        lemma_calls_contains(h, events, EventKind::LifetimeExpired, c);
    }
    if h.on_frame {
        assert(f[0] == ScriptCall::<V>::Frame);
    }
    assert(all.contains(ScriptCall::Frame) ==> h.on_frame) by {
        if all.contains(ScriptCall::Frame) && !h.on_frame {
            assert(!f.contains(ScriptCall::Frame));
        }
    }
    assert forall|e: EntityId| #[trigger] all.contains(ScriptCall::Despawned(e)) <==> (h.on_despawn && exists|i: int|
        0 <= i < events.len() && events[i] is Despawned && #[trigger] events[i].spec_primary() == Some(e)) by {
        let c = ScriptCall::<V>::Despawned(e);
        assert(all.contains(c) <==> exists|i: int| 0 <= i < events.len() && #[trigger] event_call(h, events[i], EventKind::Despawned) == Some(c));
        if h.on_despawn && exists|i: int| 0 <= i < events.len() && events[i] is Despawned && #[trigger] events[i].spec_primary() == Some(e) {
            let i = choose|i: int| 0 <= i < events.len() && events[i] is Despawned && #[trigger] events[i].spec_primary() == Some(e);
            assert(event_call(h, events[i], EventKind::Despawned) == Some(c));
        }
        if all.contains(c) {
            let i = choose|i: int| 0 <= i < events.len() && #[trigger] event_call(h, events[i], EventKind::Despawned) == Some(c);
            assert(events[i].spec_primary() == Some(e));
        }
    }
    assert forall|e: EntityId| #[trigger] all.contains(ScriptCall::Spawned(e)) <==> (h.on_spawn && exists|i: int|
        0 <= i < events.len() && events[i] is Spawned && #[trigger] events[i].spec_primary() == Some(e)) by {
        let c = ScriptCall::<V>::Spawned(e);
        assert(all.contains(c) <==> exists|i: int| 0 <= i < events.len() && #[trigger] event_call(h, events[i], EventKind::Spawned) == Some(c));
        if h.on_spawn && exists|i: int| 0 <= i < events.len() && events[i] is Spawned && #[trigger] events[i].spec_primary() == Some(e) {
            let i = choose|i: int| 0 <= i < events.len() && events[i] is Spawned && #[trigger] events[i].spec_primary() == Some(e);
            assert(event_call(h, events[i], EventKind::Spawned) == Some(c));
        }
        if all.contains(c) {
            let i = choose|i: int| 0 <= i < events.len() && #[trigger] event_call(h, events[i], EventKind::Spawned) == Some(c);
            assert(events[i].spec_primary() == Some(e));
        }
    }
    assert forall|e: EntityId| #[trigger] all.contains(ScriptCall::LifetimeExpired(e)) <==> (h.on_lifetime_expired && exists|i: int|
        0 <= i < events.len() && events[i] is LifetimeExpired && #[trigger] events[i].spec_primary() == Some(e)) by {
        let c = ScriptCall::<V>::LifetimeExpired(e);
        assert(all.contains(c) <==> exists|i: int| 0 <= i < events.len() && #[trigger] event_call(h, events[i], EventKind::LifetimeExpired) == Some(c));
        if h.on_lifetime_expired && exists|i: int| 0 <= i < events.len() && events[i] is LifetimeExpired && #[trigger] events[i].spec_primary() == Some(e) {
            let i = choose|i: int| 0 <= i < events.len() && events[i] is LifetimeExpired && #[trigger] events[i].spec_primary() == Some(e);
            assert(event_call(h, events[i], EventKind::LifetimeExpired) == Some(c));
        }
        if all.contains(c) {
            let i = choose|i: int| 0 <= i < events.len() && #[trigger] event_call(h, events[i], EventKind::LifetimeExpired) == Some(c);
            assert(events[i].spec_primary() == Some(e));
        }
    }
    assert forall|a: EntityId, d: EntityId, cp: V, nv: V|
        #[trigger] all.contains((ScriptCall::Collision { attacker: a, defender: d, contact_point: cp, normal: nv })) <==> (
        h.on_collision && exists|i: int|
            0 <= i < events.len() && #[trigger] events[i] is Collision && events[i]->attacker == a && events[i]->defender == d
                && events[i]->contact_point == cp && events[i]->normal == nv) by {
        let c = ScriptCall::Collision { attacker: a, defender: d, contact_point: cp, normal: nv };
        assert(all.contains(c) <==> exists|i: int| 0 <= i < events.len() && #[trigger] event_call(h, events[i], EventKind::Collision) == Some(c));
        if h.on_collision && exists|i: int| 0 <= i < events.len() && #[trigger] events[i] is Collision && events[i]->attacker == a && events[i]->defender == d
                && events[i]->contact_point == cp && events[i]->normal == nv {
            let i = choose|i: int| 0 <= i < events.len() && #[trigger] events[i] is Collision && events[i]->attacker == a && events[i]->defender == d
                && events[i]->contact_point == cp && events[i]->normal == nv;
            assert(event_call(h, events[i], EventKind::Collision) == Some(c));
        }
        if all.contains(c) {
            let i = choose|i: int| 0 <= i < events.len() && #[trigger] event_call(h, events[i], EventKind::Collision) == Some(c);
            assert(events[i] is Collision);
        }
    }
}

/// The script calls of a frame, in the order the engine makes them (see
/// [`frame_calls_spec`]).
pub fn frame_calls<V: Copy>(handlers: ScriptHandlers, events: &[EventPayload<V>]) -> (r: Vec<ScriptCall<V>>)
    ensures
        r@ == frame_calls_spec(handlers, events@),
        r@.contains(ScriptCall::Frame) <==> handlers.on_frame,
        forall|e: EntityId| #[trigger] r@.contains(ScriptCall::Spawned(e)) <==> (handlers.on_spawn && exists|i: int|
            0 <= i < events@.len() && events@[i] is Spawned && #[trigger] events@[i].spec_primary() == Some(e)),
        forall|e: EntityId| #[trigger] r@.contains(ScriptCall::Despawned(e)) <==> (handlers.on_despawn && exists|i: int|
            0 <= i < events@.len() && events@[i] is Despawned && #[trigger] events@[i].spec_primary() == Some(e)),
        forall|e: EntityId| #[trigger] r@.contains(ScriptCall::LifetimeExpired(e)) <==> (handlers.on_lifetime_expired && exists|i: int|
            0 <= i < events@.len() && events@[i] is LifetimeExpired && #[trigger] events@[i].spec_primary() == Some(e)),
        forall|a: EntityId, d: EntityId, cp: V, nv: V|
            #[trigger] r@.contains((ScriptCall::Collision { attacker: a, defender: d, contact_point: cp, normal: nv })) <==> (
            handlers.on_collision && exists|i: int|
                0 <= i < events@.len() && #[trigger] events@[i] is Collision && events@[i]->attacker == a && events@[i]->defender == d
                    && events@[i]->contact_point == cp && events@[i]->normal == nv),
        r@.len() == (if handlers.on_frame { 1int } else { 0int }) + handled_count(handlers, events@),
{
    proof {
        lemma_frame_calls_answer_events(handlers, events@);
    }
    let mut out: Vec<ScriptCall<V>> = Vec::new();
    let has_event_handlers = handlers.on_collision || handlers.on_spawn || handlers.on_despawn || handlers.on_lifetime_expired;
    if !handlers.on_frame && !has_event_handlers {
        proof {
            assert forall|kind: EventKind| calls_of_kind(handlers, events@, kind) == Seq::<ScriptCall<V>>::empty() by {
                lemma_calls_none(handlers, events@, kind);
            }
            assert(frame_calls_spec(handlers, events@) =~= Seq::<ScriptCall<V>>::empty());
        }
        return out;
    }
    let mut collisions: Vec<ScriptCall<V>> = Vec::new();
    let mut spawns: Vec<ScriptCall<V>> = Vec::new();
    let mut despawns: Vec<ScriptCall<V>> = Vec::new();
    let mut expiries: Vec<ScriptCall<V>> = Vec::new();
    let mut k: usize = 0;
    while k < events.len()
        invariant
            k <= events@.len(),
            collisions@ == calls_of_kind(handlers, events@.take(k as int), EventKind::Collision),
            spawns@ == calls_of_kind(handlers, events@.take(k as int), EventKind::Spawned),
            despawns@ == calls_of_kind(handlers, events@.take(k as int), EventKind::Despawned),
            expiries@ == calls_of_kind(handlers, events@.take(k as int), EventKind::LifetimeExpired),
        decreases events@.len() - k,
    {
        proof {
            lemma_calls_push(handlers, events@, k as int, EventKind::Collision);
            lemma_calls_push(handlers, events@, k as int, EventKind::Spawned);
            lemma_calls_push(handlers, events@, k as int, EventKind::Despawned);
            lemma_calls_push(handlers, events@, k as int, EventKind::LifetimeExpired);
        }
        match &events[k] {
            EventPayload::Collision { attacker, defender, contact_point, normal, .. } => {
                if handlers.on_collision {
                    collisions.push(
                        ScriptCall::Collision { attacker: *attacker, defender: *defender, contact_point: *contact_point, normal: *normal },
                    );
                }
            },
            EventPayload::Spawned { entity, .. } => {
                if handlers.on_spawn {
                    spawns.push(ScriptCall::Spawned(*entity));
                }
            },
            EventPayload::Despawned { entity, .. } => {
                if handlers.on_despawn {
                    despawns.push(ScriptCall::Despawned(*entity));
                }
            },
            EventPayload::LifetimeExpired { entity, .. } => {
                if handlers.on_lifetime_expired {
                    expiries.push(ScriptCall::LifetimeExpired(*entity));
                }
            },
            EventPayload::Custom { .. } => {},
        }
        k = k + 1;
    }
    proof {
        assert(events@.take(k as int) =~= events@);
    }
    if handlers.on_frame {
        out.push(ScriptCall::Frame);
    }
    let ghost start = out@;
    out.append(&mut collisions);
    out.append(&mut spawns);
    out.append(&mut despawns);
    out.append(&mut expiries);
    proof {
        assert(start =~= (if handlers.on_frame { seq![ScriptCall::<V>::Frame] } else { Seq::<ScriptCall<V>>::empty() }));
    }
    out
}

/// With no handler of a kind defined, no call of that kind is made.
proof fn lemma_calls_none<V>(h: ScriptHandlers, events: Seq<EventPayload<V>>, kind: EventKind)
    requires
        !h.on_collision && !h.on_spawn && !h.on_despawn && !h.on_lifetime_expired,
    ensures
        calls_of_kind(h, events, kind) == Seq::<ScriptCall<V>>::empty(),
    decreases events.len(),
{
    if events.len() > 0 {
        lemma_calls_none(h, events.drop_last(), kind);
    }
}

} // verus!
