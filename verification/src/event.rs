use vstd::prelude::*;

use crate::types::{EntityId, Tick};

verus! {

/// Protocol for runtime events.
/// Events carry metadata about the running simulation.
pub trait EventLike {
    /// The primary entity involved in this event.
    fn primary_entity(&self) -> Option<EntityId>;

    /// The secondary entity involved, if any (e.g., defender in a Collision).
    fn secondary_entity(&self) -> Option<EntityId>;

    /// The simulation tick when this event occurred (None only for Custom).
    fn occurred_tick(&self) -> Option<Tick>;
}

/// A runtime event. `V` is the 2-D vector type that collision geometry is
/// reported in.
pub enum EventPayload<V> {
    /// Collision between two entities (attacker's Hitbox vs defender's Hurtbox).
    Collision { attacker: EntityId, defender: EntityId, contact_point: V, normal: V, tick: Tick },
    /// An entity was spawned.
    Spawned { entity: EntityId, tick: Tick },
    /// An entity was despawned.
    Despawned { entity: EntityId, tick: Tick },
    /// An entity's lifetime expired.
    LifetimeExpired { entity: EntityId, tick: Tick },
    /// Custom user-defined event.
    Custom { name: String, data: Vec<u8> },
}

impl<V> EventPayload<V> {
    /// The primary entity of the event.
    pub open spec fn spec_primary(&self) -> Option<EntityId> {
        match self {
            EventPayload::Collision { attacker, .. } => Some(*attacker),
            EventPayload::Spawned { entity, .. } => Some(*entity),
            EventPayload::Despawned { entity, .. } => Some(*entity),
            EventPayload::LifetimeExpired { entity, .. } => Some(*entity),
            EventPayload::Custom { .. } => None,
        }
    }

    /// The secondary entity of the event.
    pub open spec fn spec_secondary(&self) -> Option<EntityId> {
        match self {
            EventPayload::Collision { defender, .. } => Some(*defender),
            _ => None,
        }
    }

    /// The tick the event carries.
    pub open spec fn spec_tick(&self) -> Option<Tick> {
        match self {
            EventPayload::Collision { tick, .. } => Some(*tick),
            EventPayload::Spawned { tick, .. } => Some(*tick),
            EventPayload::Despawned { tick, .. } => Some(*tick),
            EventPayload::LifetimeExpired { tick, .. } => Some(*tick),
            EventPayload::Custom { .. } => None,
        }
    }
}

impl<V> EventLike for EventPayload<V> {
    fn primary_entity(&self) -> (r: Option<EntityId>)
        ensures
            r == self.spec_primary(),
    {
        match self {
            EventPayload::Collision { attacker, .. } => Some(*attacker),
            EventPayload::Spawned { entity, .. } => Some(*entity),
            EventPayload::Despawned { entity, .. } => Some(*entity),
            EventPayload::LifetimeExpired { entity, .. } => Some(*entity),
            EventPayload::Custom { .. } => None,
        }
    }

    fn secondary_entity(&self) -> (r: Option<EntityId>)
        ensures
            r == self.spec_secondary(),
    {
        match self {
            EventPayload::Collision { defender, .. } => Some(*defender),
            _ => None,
        }
    }

    fn occurred_tick(&self) -> (r: Option<Tick>)
        ensures
            r == self.spec_tick(),
    {
        match self {
            EventPayload::Collision { tick, .. } => Some(*tick),
            EventPayload::Spawned { tick, .. } => Some(*tick),
            EventPayload::Despawned { tick, .. } => Some(*tick),
            EventPayload::LifetimeExpired { tick, .. } => Some(*tick),
            EventPayload::Custom { .. } => None,
        }
    }
}

/// The queue of events emitted during the current frame.
pub struct EventBus<V> {
    queue: Vec<EventPayload<V>>,
}

impl<V> EventBus<V> {
    /// The queued events, oldest first.
    pub closed spec fn queued(&self) -> Seq<EventPayload<V>> {
        self.queue@
    }

    pub fn new() -> (r: Self)
        ensures
            r.queued() == Seq::<EventPayload<V>>::empty(),
    {
        EventBus { queue: Vec::new() }
    }

    /// Pushes an event into the queue for this frame.
    pub fn push(&mut self, event: EventPayload<V>)
        ensures
            final(self).queued() == old(self).queued().push(event),
    {
        self.queue.push(event);
    }

    /// Returns a read-only slice of all events queued this frame.
    pub fn events(&self) -> (r: &[EventPayload<V>])
        ensures
            r@ == self.queued(),
    {
        self.queue.as_slice()
    }

    /// Clears all events. Called once per frame.
    pub fn clear(&mut self)
        ensures
            final(self).queued() == Seq::<EventPayload<V>>::empty(),
    {
        self.queue.clear();
    }
}

impl<V> Default for EventBus<V> {
    fn default() -> (r: Self)
        ensures
            r.queued() == Seq::<EventPayload<V>>::empty(),
    {
        Self::new()
    }
}

} // verus!
