use std::any::TypeId;
use vstd::prelude::*;

use crate::collision::{collision_events, collision_outcome, collision_system, Contact, HitEntry, HurtEntry};
use crate::command::SpawnRequest;
use crate::commands::{Command, CommandBuffer};
use crate::component_storage::{flat_map, without_entity, ComponentStorage};
use crate::components::Lifetime;
use crate::event::{EventBus, EventPayload};
use crate::id_allocator::{AllocatorView, IdAllocator};
use crate::scheduler::StepResult;
use crate::systems::{counted_entry, expiring, lifetime_system, lifetime_trace_ok};
use crate::types::{EntityId, EverNightError, EverNightResult, TagFlags, Tick};

verus! {

/// The part of a world that committing commands changes: the allocator, the
/// components (by type and raw entity id) and the frame's events.
pub ghost struct CommitState<C, V> {
    pub alloc: AllocatorView,
    pub components: Map<(TypeId, u32), C>,
    pub events: Seq<EventPayload<V>>,
}

/// What the factories produced while one spawn command was applied: one
/// optional component per named payload of the request, and the template's
/// components when a template was looked up.
pub ghost struct SpawnTrace<C> {
    pub named: Seq<Option<(TypeId, C)>>,
    pub template: Option<Vec<(TypeId, C)>>,
}

/// The present values of a sequence of options, in order.
pub open spec fn somes<X>(s: Seq<Option<X>>) -> Seq<X>
    decreases s.len(),
{
    if s.len() == 0 {
        Seq::empty()
    } else {
        let rest = somes(s.drop_last());
        match s.last() {
            Some(x) => rest.push(x),
            None => rest,
        }
    }
}

/// The components a spawn stores, in the order they are stored: the named
/// ones first, then the template's.
pub open spec fn made_components<C>(t: SpawnTrace<C>) -> Seq<(TypeId, C)> {
    somes(t.named) + match t.template {
        Some(v) => v@,
        None => Seq::empty(),
    }
}

/// `m` after storing each of `made` as a component of entity `e`, in order.
pub open spec fn insert_all<C>(m: Map<(TypeId, u32), C>, e: u32, made: Seq<(TypeId, C)>) -> Map<(TypeId, u32), C>
    decreases made.len(),
{
    if made.len() == 0 {
        m
    } else {
        insert_all(m, e, made.drop_last()).insert((made.last().0, e), made.last().1)
    }
}

/// The factories were asked exactly what applying `cmd` asks them, and the
/// trace records their answers.
pub open spec fn trace_ok<C, CF, TF>(cmd: Command<C>, trace: SpawnTrace<C>, cf: Option<&CF>, tf: Option<&TF>) -> bool
    where
        CF: Fn(&String, &Vec<u8>) -> Option<(TypeId, C)>,
        TF: Fn(u32) -> Option<Vec<(TypeId, C)>>,
{
    match cmd {
        Command::Spawn { request, .. } => {
            let comps = request.spec_components();
            &&& trace.named.len() == comps.len()
            &&& forall|j: int| 0 <= j < comps.len() ==> match cf {
                Some(f) => call_ensures(*f, (&comps[j].0, &comps[j].1), #[trigger] trace.named[j]),
                None => trace.named[j] is None,
            }
            &&& match (tf, request.spec_template_id()) {
                (Some(f), Some(tid)) => call_ensures(*f, (tid,), trace.template),
                _ => trace.template is None,
            }
        },
        _ => true,
    }
}

/// Applying one command: a spawn stores what its factories made and reports
/// `Spawned`; a despawn of a live entity drops its components, releases its id
/// and reports `Despawned`, and of a dead one is refused; adding and removing a
/// component change that one component.
pub open spec fn commit_step<C, V>(st: CommitState<C, V>, cmd: Command<C>, trace: SpawnTrace<C>, tick: Tick) -> (CommitState<C, V>, EverNightResult<()>) {
    match cmd {
        Command::Spawn { entity, request } => (
            CommitState {
                components: insert_all(st.components, entity.0, made_components(trace)),
                events: st.events.push(EventPayload::Spawned { entity, tick }),
                ..st
            },
            Ok(()),
        ),
        Command::Despawn(entity) => if st.alloc.valid.contains(entity.0) {
            (
                CommitState {
                    alloc: st.alloc.deallocate(entity).0,
                    components: without_entity(st.components, entity.0),
                    events: st.events.push(EventPayload::Despawned { entity, tick }),
                },
                Ok(()),
            )
        } else {
            (st, Err(EverNightError::InvalidEntityId(entity)))
        },
        Command::AddComponent { entity, component_type_id, component } => (
            CommitState { components: st.components.insert((component_type_id, entity.0), component), ..st },
            Ok(()),
        ),
        Command::RemoveComponent { entity, component_type_id } => (
            CommitState { components: st.components.remove((component_type_id, entity.0)), ..st },
            Ok(()),
        ),
    }
}

/// Applying `cmds` in order, stopping at the first refused command.
pub open spec fn commit_fold<C, V>(st: CommitState<C, V>, cmds: Seq<Command<C>>, traces: Seq<SpawnTrace<C>>, tick: Tick) -> (CommitState<C, V>, EverNightResult<()>)
    decreases cmds.len(),
{
    if cmds.len() == 0 {
        (st, Ok(()))
    } else {
        let (mid, r) = commit_fold(st, cmds.drop_last(), traces, tick);
        if r is Err {
            (mid, r)
        } else {
            commit_step(mid, cmds.last(), traces[cmds.len() - 1], tick)
        }
    }
}

/// Committing `cmds` from state `st` ended in `post` with result `r`, after
/// applying the first `n` commands, whose factory answers `traces` records.
pub open spec fn commit_outcome<C, V, CF, TF>(
    st: CommitState<C, V>,
    cmds: Seq<Command<C>>,
    tick: Tick,
    cf: Option<&CF>,
    tf: Option<&TF>,
    n: int,
    traces: Seq<SpawnTrace<C>>,
    post: CommitState<C, V>,
    r: EverNightResult<()>,
) -> bool
    where
        CF: Fn(&String, &Vec<u8>) -> Option<(TypeId, C)>,
        TF: Fn(u32) -> Option<Vec<(TypeId, C)>>,
{
    &&& 0 <= n <= cmds.len()
    &&& traces.len() == n
    &&& (forall|i: int| 0 <= i < n ==> trace_ok(#[trigger] cmds[i], traces[i], cf, tf))
    &&& (post, r) == commit_fold(st, cmds.take(n), traces, tick)
    &&& (r is Ok ==> n == cmds.len())
}

/// The deterministic core of a game world: the entity allocator, the
/// component store, the pending commands, the frame's events and the tick.
///
/// `C` is the stored component value, `V` the vector type of collision
/// geometry in events and `S` the fixed time step the world was made with.
pub struct World<C, V, S> {
    id_allocator: IdAllocator,
    component_storage: ComponentStorage<C>,
    command_buffer: CommandBuffer<C>,
    event_bus: EventBus<V>,
    tick: Tick,
    fixed_step: S,
}

impl<C, V, S> World<C, V, S> {
    /// The allocator's state.
    pub closed spec fn allocator(&self) -> AllocatorView {
        self.id_allocator@
    }

    /// The component store.
    pub closed spec fn storage(&self) -> ComponentStorage<C> {
        self.component_storage
    }

    /// The commands waiting for the next commit.
    pub closed spec fn pending(&self) -> Seq<Command<C>> {
        self.command_buffer.pending()
    }

    /// The events emitted so far this frame.
    pub closed spec fn events(&self) -> Seq<EventPayload<V>> {
        self.event_bus.queued()
    }

    /// The current tick.
    pub closed spec fn spec_tick(&self) -> Tick {
        self.tick
    }

    /// The fixed step the world was made with.
    pub closed spec fn spec_fixed_step(&self) -> S {
        self.fixed_step
    }

    /// The allocator and the store keep their invariants.
    pub closed spec fn wf(&self) -> bool {
        self.id_allocator.wf() && self.component_storage.wf()
    }

    /// The state that committing commands changes.
    pub open spec fn commit_state(&self) -> CommitState<C, V> {
        CommitState { alloc: self.allocator(), components: flat_map(&self.storage()), events: self.events() }
    }

    pub fn new(fixed_step: S) -> (r: Self)
        ensures
            r.wf(),
            r.allocator().next == 1,
            r.allocator().free == Seq::<u32>::empty(),
            r.allocator().valid == Set::<u32>::empty(),
            r.commit_state().components == Map::<(TypeId, u32), C>::empty(),
            r.pending() == Seq::<Command<C>>::empty(),
            r.events() == Seq::<EventPayload<V>>::empty(),
            r.spec_tick() == Tick(0),
            r.spec_fixed_step() == fixed_step,
    {
        let r = World {
            id_allocator: IdAllocator::new(),
            component_storage: ComponentStorage::new(),
            command_buffer: CommandBuffer::new(),
            event_bus: EventBus::new(),
            tick: Tick::new(0),
            fixed_step,
        };
        assert(flat_map(&r.storage()) =~= Map::<(TypeId, u32), C>::empty());
        r
    }

    pub fn tick(&self) -> (r: Tick)
        ensures
            r == self.spec_tick(),
    {
        self.tick
    }

    /// The fixed step the world was made with.
    pub fn fixed_step(&self) -> (r: &S)
        ensures
            *r == self.spec_fixed_step(),
    {
        &self.fixed_step
    }

    /// Allocates an id for a new entity and queues its spawn; the entity is
    /// alive at once and its components appear at the next commit.
    pub fn spawn_entity(&mut self, request: SpawnRequest) -> (r: EverNightResult<EntityId>)
        requires
            old(self).wf(),
        ensures
            final(self).wf(),
            (final(self).allocator(), r) == old(self).allocator().allocate(),
            match r {
                Ok(entity) => final(self).pending() == old(self).pending().push(Command::Spawn { entity, request }),
                Err(_) => final(self).pending() == old(self).pending(),
            },
            final(self).storage() == old(self).storage(),
            final(self).events() == old(self).events(),
            final(self).spec_tick() == old(self).spec_tick(),
            final(self).spec_fixed_step() == old(self).spec_fixed_step(),
    {
        let entity = match self.id_allocator.allocate() {
            Ok(e) => e,
            Err(e) => {
                return Err(e);
            },
        };
        self.command_buffer.push(Command::Spawn { entity, request });
        Ok(entity)
    }

    /// Queues the despawn of a live entity; a dead entity is refused.
    pub fn despawn_entity(&mut self, entity: EntityId) -> (r: EverNightResult<()>)
        requires
            old(self).wf(),
        ensures
            final(self).wf(),
            r is Ok == old(self).allocator().valid.contains(entity.0),
            r is Err ==> r == Err::<(), EverNightError>(EverNightError::InvalidEntityId(entity)),
            final(self).pending() == if r is Ok {
                old(self).pending().push(Command::Despawn(entity))
            } else {
                old(self).pending()
            },
            final(self).allocator() == old(self).allocator(),
            final(self).storage() == old(self).storage(),
            final(self).events() == old(self).events(),
            final(self).spec_tick() == old(self).spec_tick(),
            final(self).spec_fixed_step() == old(self).spec_fixed_step(),
    {
        if !self.id_allocator.is_valid(entity) {
            return Err(EverNightError::InvalidEntityId(entity));
        }
        self.command_buffer.push(Command::Despawn(entity));
        Ok(())
    }

    /// Queues adding `component` (of type `type_id`) to a live entity; a dead
    /// entity is refused.
    pub fn add_component(&mut self, entity: EntityId, type_id: TypeId, component: C) -> (r: EverNightResult<()>)
        requires
            old(self).wf(),
        ensures
            final(self).wf(),
            r is Ok == old(self).allocator().valid.contains(entity.0),
            r is Err ==> r == Err::<(), EverNightError>(EverNightError::InvalidEntityId(entity)),
            final(self).pending() == if r is Ok {
                old(self).pending().push(Command::AddComponent { entity, component_type_id: type_id, component })
            } else {
                old(self).pending()
            },
            final(self).allocator() == old(self).allocator(),
            final(self).storage() == old(self).storage(),
            final(self).events() == old(self).events(),
            final(self).spec_tick() == old(self).spec_tick(),
            final(self).spec_fixed_step() == old(self).spec_fixed_step(),
    {
        if !self.id_allocator.is_valid(entity) {
            return Err(EverNightError::InvalidEntityId(entity));
        }
        self.command_buffer.push(Command::AddComponent { entity, component_type_id: type_id, component });
        Ok(())
    }

    /// Queues removing the component of type `type_id` from a live entity; a
    /// dead entity is refused.
    pub fn remove_component(&mut self, entity: EntityId, type_id: TypeId) -> (r: EverNightResult<()>)
        requires
            old(self).wf(),
        ensures
            final(self).wf(),
            r is Ok == old(self).allocator().valid.contains(entity.0),
            r is Err ==> r == Err::<(), EverNightError>(EverNightError::InvalidEntityId(entity)),
            final(self).pending() == if r is Ok {
                old(self).pending().push(Command::RemoveComponent { entity, component_type_id: type_id })
            } else {
                old(self).pending()
            },
            final(self).allocator() == old(self).allocator(),
            final(self).storage() == old(self).storage(),
            final(self).events() == old(self).events(),
            final(self).spec_tick() == old(self).spec_tick(),
            final(self).spec_fixed_step() == old(self).spec_fixed_step(),
    {
        if !self.id_allocator.is_valid(entity) {
            return Err(EverNightError::InvalidEntityId(entity));
        }
        self.command_buffer.push(Command::RemoveComponent { entity, component_type_id: type_id });
        Ok(())
    }

    /// The committed component of type `type_id` of `entity`, if any.
    pub fn get_component(&self, entity: EntityId, type_id: TypeId) -> (r: Option<&C>)
        requires
            self.wf(),
        ensures
            r is Some == self.commit_state().components.contains_key((type_id, entity.0)),
            r matches Some(c) ==> *c == self.commit_state().components[(type_id, entity.0)],
    {
        self.component_storage.get(entity, type_id)
    }

    /// Mutable access to the committed component of type `type_id` of `entity`.
    pub fn get_component_mut(&mut self, entity: EntityId, type_id: TypeId) -> (r: Option<&mut C>)
        requires
            old(self).wf(),
        ensures
            r is Some == old(self).storage().components(type_id).contains_key(entity.0),
            r matches Some(m) ==> *m == old(self).storage().components(type_id)[entity.0],
            r matches Some(m) ==> final(self).storage().components(type_id) == old(self).storage().components(type_id).insert(entity.0, *final(m)),
            r is Some ==> forall|t: TypeId| t != type_id ==> final(self).storage().ordered(t) == old(self).storage().ordered(t),
            r is Some ==> final(self).wf(),
            r is None ==> *final(self) == *old(self),
            final(self).allocator() == old(self).allocator(),
            final(self).pending() == old(self).pending(),
            final(self).events() == old(self).events(),
            final(self).spec_tick() == old(self).spec_tick(),
    {
        self.component_storage.get_mut(entity, type_id)
    }

    /// Returns all events emitted so far this frame.
    pub fn get_events(&self) -> (r: &[EventPayload<V>])
        ensures
            r@ == self.events(),
    {
        self.event_bus.events()
    }

    /// Entity IDs of all entities that have a component of type `type_id`, ascending.
    pub fn iter_entities_with_component(&self, type_id: TypeId) -> (r: Vec<EntityId>)
        requires
            self.wf(),
        ensures
            r@.len() == self.storage().ordered(type_id).len(),
            forall|i: int| 0 <= i < r@.len() ==> #[trigger] r@[i] == self.storage().ordered(type_id)[i].0,
    {
        self.component_storage.iter_ids(type_id)
    }

    /// All `(entity, component)` pairs of type `type_id`, in ascending entity order.
    pub fn iter_components(&self, type_id: TypeId) -> (r: Vec<(EntityId, &C)>)
        requires
            self.wf(),
        ensures
            r@.len() == self.storage().ordered(type_id).len(),
            forall|i: int| 0 <= i < r@.len() ==> (#[trigger] r@[i]).0 == self.storage().ordered(type_id)[i].0 && *r@[i].1 == self.storage().ordered(type_id)[i].1,
    {
        self.component_storage.iter(type_id)
    }

    /// Returns `true` if the entity exists and has not been despawned.
    pub fn is_alive(&self, entity: EntityId) -> (r: bool)
        requires
            self.wf(),
        ensures
            r == self.allocator().valid.contains(entity.0),
    {
        self.id_allocator.is_valid(entity)
    }

    /// Clears the event bus. Called once per frame, at the place `scheduler::frame_plan` gives.
    pub fn clear_events_for_frame(&mut self)
        ensures
            final(self).events() == Seq::<EventPayload<V>>::empty(),
            final(self).wf() == old(self).wf(),
            final(self).allocator() == old(self).allocator(),
            final(self).storage() == old(self).storage(),
            final(self).pending() == old(self).pending(),
            final(self).spec_tick() == old(self).spec_tick(),
            final(self).spec_fixed_step() == old(self).spec_fixed_step(),
    {
        self.event_bus.clear();
    }

    /// The store, the event bus and the command buffer, for the systems of a
    /// frame phase, together with the current tick.
    pub fn frame_parts_mut(&mut self) -> (r: (&mut ComponentStorage<C>, &mut EventBus<V>, &mut CommandBuffer<C>, Tick))
        ensures
            *r.0 == old(self).storage(),
            r.1.queued() == old(self).events(),
            r.2.pending() == old(self).pending(),
            r.3 == old(self).spec_tick(),
            final(self).storage() == *final(r.0),
            final(self).events() == final(r.1).queued(),
            final(self).pending() == final(r.2).pending(),
            final(self).allocator() == old(self).allocator(),
            final(self).spec_tick() == old(self).spec_tick(),
            final(self).spec_fixed_step() == old(self).spec_fixed_step(),
    {
        (&mut self.component_storage, &mut self.event_bus, &mut self.command_buffer, self.tick)
    }

    /// Advances the tick counter and returns the step result.
    pub fn advance_tick(&mut self) -> (r: StepResult)
        requires
            old(self).spec_tick().0 < u32::MAX,
        ensures
            final(self).spec_tick().0 == old(self).spec_tick().0 + 1,
            r.tick == final(self).spec_tick(),
            r.event_count == old(self).events().len(),
            final(self).wf() == old(self).wf(),
            final(self).allocator() == old(self).allocator(),
            final(self).storage() == old(self).storage(),
            final(self).pending() == old(self).pending(),
            final(self).events() == old(self).events(),
            final(self).spec_fixed_step() == old(self).spec_fixed_step(),
    {
        self.tick = Tick::new(self.tick.as_u32() + 1);
        StepResult { tick: self.tick, event_count: self.event_bus.events().len() }
    }
}

/// With every component missing, nothing is kept.
proof fn lemma_somes_none<X>(n: nat)
    ensures
        somes(Seq::new(n, |i: int| None::<X>)) == Seq::<X>::empty(),
    decreases n,
{
    if n > 0 {
        lemma_somes_none::<X>((n - 1) as nat);
        assert(Seq::new(n, |i: int| None::<X>).drop_last() =~= Seq::new((n - 1) as nat, |i: int| None::<X>));
    }
}

/// The fold reads only the traces of the commands it applies.
proof fn lemma_fold_traces<C, V>(st: CommitState<C, V>, cmds: Seq<Command<C>>, t1: Seq<SpawnTrace<C>>, t2: Seq<SpawnTrace<C>>, tick: Tick)
    requires
        forall|k: int| 0 <= k < cmds.len() ==> t1[k] == t2[k],
    ensures
        commit_fold(st, cmds, t1, tick) == commit_fold(st, cmds, t2, tick),
    decreases cmds.len(),
{
    if cmds.len() > 0 {
        lemma_fold_traces(st, cmds.drop_last(), t1, t2, tick);
    }
}

impl<C, V, S> World<C, V, S> {
    /// Applies a spawn: the named payloads through the component factory,
    /// then the template through the template factory, then `Spawned`.
    fn apply_spawn<CF, TF>(&mut self, entity: EntityId, request: SpawnRequest, component_factory: Option<&CF>, template_factory: Option<&TF>) -> (trace: Ghost<SpawnTrace<C>>)
        where
            CF: Fn(&String, &Vec<u8>) -> Option<(TypeId, C)>,
            TF: Fn(u32) -> Option<Vec<(TypeId, C)>>,
        requires
            old(self).wf(),
            component_factory matches Some(f) ==> forall|n: &String, d: &Vec<u8>| call_requires(*f, (n, d)),
            template_factory matches Some(f) ==> forall|id: u32| call_requires(*f, (id,)),
        ensures
            final(self).wf(),
            trace_ok(Command::Spawn { entity, request }, trace@, component_factory, template_factory),
            final(self).commit_state() == commit_step(old(self).commit_state(), Command::Spawn { entity, request }, trace@, old(self).spec_tick()).0,
            final(self).pending() == old(self).pending(),
            final(self).spec_tick() == old(self).spec_tick(),
            final(self).spec_fixed_step() == old(self).spec_fixed_step(),
    {
        let ghost m0 = flat_map(&self.component_storage);
        let ghost mut named: Seq<Option<(TypeId, C)>> = Seq::empty();
        let ghost mut made: Seq<(TypeId, C)> = Seq::empty();
        let comps = request.components();
        match component_factory {
            Some(factory) => {
                let mut j: usize = 0;
                while j < comps.len()
                    invariant
                        j <= comps@.len(),
                        comps@ == request.spec_components(),
                        named.len() == j,
                        forall|jj: int| 0 <= jj < j ==> call_ensures(*factory, (&comps@[jj].0, &comps@[jj].1), #[trigger] named[jj]),
                        forall|n: &String, d: &Vec<u8>| call_requires(*factory, (n, d)),
                        made == somes(named),
                        self.component_storage.wf(),
                        self.id_allocator.wf(),
                        flat_map(&self.component_storage) == insert_all(m0, entity.0, made),
                        self.id_allocator@ == old(self).id_allocator@,
                        self.event_bus.queued() == old(self).event_bus.queued(),
                        self.command_buffer.pending() == old(self).command_buffer.pending(),
                        self.tick == old(self).tick,
                        self.fixed_step == old(self).fixed_step,
                    decreases comps@.len() - j,
                {
                    let pair = &comps[j];
                    let res = factory(&pair.0, &pair.1);
                    proof {
                        assert(named.push(res).drop_last() =~= named);
                        named = named.push(res);
                    }
                    match res {
                        Some((t, c)) => {
                            let ghost pre = self.component_storage;
                            self.component_storage.insert(entity, t, c);
                            proof {
                                crate::component_storage::lemma_flat_insert(&pre, &self.component_storage, t, entity.0, c);
                                assert(made.push((t, c)).drop_last() =~= made);
                                made = made.push((t, c));
                            }
                        },
                        None => {},
                    }
                    j = j + 1;
                }
            },
            None => {
                proof {
                    named = Seq::new(comps@.len(), |i: int| None::<(TypeId, C)>);
                    lemma_somes_none::<(TypeId, C)>(comps@.len());
                }
            },
        }
        let ghost mut template: Option<Vec<(TypeId, C)>> = None;
        match template_factory {
            Some(tf) => {
                match request.template_id() {
                    Some(tid) => {
                        let res = tf(tid);
                        proof {
                            template = res;
                        }
                        match res {
                            Some(components) => {
                                let ghost all = components@;
                                let total: usize = components.len();
                                let ghost base = made;
                                let mut rest = components;
                                let mut k: usize = 0;
                                while rest.len() > 0
                                    invariant
                                        k + rest@.len() == all.len(),
                                        all.len() == total,
                                        rest@ == all.subrange(k as int, all.len() as int),
                                        made == base + all.take(k as int),
                                        self.component_storage.wf(),
                                        self.id_allocator.wf(),
                                        flat_map(&self.component_storage) == insert_all(m0, entity.0, made),
                                        self.id_allocator@ == old(self).id_allocator@,
                                        self.event_bus.queued() == old(self).event_bus.queued(),
                                        self.command_buffer.pending() == old(self).command_buffer.pending(),
                                        self.tick == old(self).tick,
                                        self.fixed_step == old(self).fixed_step,
                                    decreases rest@.len(),
                                {
                                    let (t, c) = rest.remove(0);
                                    let ghost pre = self.component_storage;
                                    self.component_storage.insert(entity, t, c);
                                    proof {
                                        crate::component_storage::lemma_flat_insert(&pre, &self.component_storage, t, entity.0, c);
                                        assert(all[k as int] == (t, c));
                                        assert(made.push((t, c)).drop_last() =~= made);
                                        assert(base + all.take(k + 1) =~= (base + all.take(k as int)).push((t, c)));
                                        made = made.push((t, c));
                                    }
                                    k = k + 1;
                                }
                                proof {
                                    assert(all.take(k as int) =~= all);
                                }
                            },
                            None => {},
                        }
                    },
                    None => {},
                }
            },
            None => {},
        }
        self.event_bus.push(EventPayload::Spawned { entity, tick: self.tick });
        let ghost trace = SpawnTrace { named, template };
        proof {
            assert(made == made_components(trace)) by {
                match template {
                    Some(v) => {},
                    None => {
                        assert(somes(named) + Seq::<(TypeId, C)>::empty() =~= somes(named));
                    },
                }
            }
        }
        Ghost(trace)
    }
}

impl<C, V, S> World<C, V, S> {
    /// Applies one command; see [`commit_step`].
    fn apply_command<CF, TF>(&mut self, cmd: Command<C>, component_factory: Option<&CF>, template_factory: Option<&TF>) -> (r: (EverNightResult<()>, Ghost<SpawnTrace<C>>))
        where
            CF: Fn(&String, &Vec<u8>) -> Option<(TypeId, C)>,
            TF: Fn(u32) -> Option<Vec<(TypeId, C)>>,
        requires
            old(self).wf(),
            component_factory matches Some(f) ==> forall|n: &String, d: &Vec<u8>| call_requires(*f, (n, d)),
            template_factory matches Some(f) ==> forall|id: u32| call_requires(*f, (id,)),
        ensures
            final(self).wf(),
            trace_ok(cmd, r.1@, component_factory, template_factory),
            (final(self).commit_state(), r.0) == commit_step(old(self).commit_state(), cmd, r.1@, old(self).spec_tick()),
            final(self).pending() == old(self).pending(),
            final(self).spec_tick() == old(self).spec_tick(),
            final(self).spec_fixed_step() == old(self).spec_fixed_step(),
    {
        let ghost none = SpawnTrace::<C> { named: Seq::empty(), template: None };
        let ghost cmd0 = cmd;
        match cmd {
            Command::Spawn { entity, request } => {
                let trace = self.apply_spawn(entity, request, component_factory, template_factory);
                (Ok(()), trace)
            },
            Command::Despawn(entity) => {
                if !self.id_allocator.is_valid(entity) {
                    return (Err(EverNightError::InvalidEntityId(entity)), Ghost(none));
                }
                let ghost pre = self.component_storage;
                self.component_storage.remove_all(entity);
                proof {
                    crate::component_storage::lemma_flat_remove_all(&pre, &self.component_storage, entity.0);
                }
                match self.id_allocator.deallocate(entity) {
                    Ok(()) => {},
                    Err(e) => {
                        return (Err(e), Ghost(none));
                    },
                }
                self.event_bus.push(EventPayload::Despawned { entity, tick: self.tick });
                (Ok(()), Ghost(none))
            },
            Command::AddComponent { entity, component_type_id, component } => {
                let ghost pre = self.component_storage;
                let ghost c = component;
                self.component_storage.insert(entity, component_type_id, component);
                proof {
                    crate::component_storage::lemma_flat_insert(&pre, &self.component_storage, component_type_id, entity.0, c);
                }
                (Ok(()), Ghost(none))
            },
            Command::RemoveComponent { entity, component_type_id } => {
                let ghost pre = self.component_storage;
                let _ = self.component_storage.remove(entity, component_type_id);
                proof {
                    crate::component_storage::lemma_flat_remove(&pre, &self.component_storage, component_type_id, entity.0);
                }
                (Ok(()), Ghost(none))
            },
        }
    }

    /// Drains and applies all buffered commands, in the order they were queued.
    ///
    /// `component_factory` instantiates the named components listed in a
    /// [`SpawnRequest`]; a payload it answers `None` for is skipped, and with no
    /// factory every payload is skipped. `template_factory` instantiates the
    /// components of the request's template, stored after the named ones so
    /// they can override them.
    ///
    /// Emits `Spawned` / `Despawned` events as side-effects. A despawn of an
    /// entity that is no longer alive stops the commit with an error; the
    /// commands after it are dropped.
    pub fn commit_commands<CF, TF>(&mut self, component_factory: Option<&CF>, template_factory: Option<&TF>) -> (r: EverNightResult<()>)
        where
            CF: Fn(&String, &Vec<u8>) -> Option<(TypeId, C)>,
            TF: Fn(u32) -> Option<Vec<(TypeId, C)>>,
        requires
            old(self).wf(),
            component_factory matches Some(f) ==> forall|n: &String, d: &Vec<u8>| call_requires(*f, (n, d)),
            template_factory matches Some(f) ==> forall|id: u32| call_requires(*f, (id,)),
        ensures
            final(self).wf(),
            final(self).pending() == Seq::<Command<C>>::empty(),
            final(self).spec_tick() == old(self).spec_tick(),
            final(self).spec_fixed_step() == old(self).spec_fixed_step(),
            exists|n: int, traces: Seq<SpawnTrace<C>>| #[trigger] commit_outcome(
                old(self).commit_state(),
                old(self).pending(),
                old(self).spec_tick(),
                component_factory,
                template_factory,
                n,
                traces,
                final(self).commit_state(),
                r,
            ),
    {
        let ghost st0 = self.commit_state();
        let ghost cmds0 = self.pending();
        let ghost tick = self.tick;
        let mut cmds = self.command_buffer.drain();
        let ghost total = cmds@.len();
        // Reverse the drained commands so that popping yields them oldest first.
        let mut rev: Vec<Command<C>> = Vec::new();
        while cmds.len() > 0
            invariant
                rev@.len() + cmds@.len() == total,
                total == cmds0.len(),
                cmds@ == cmds0.take(cmds@.len() as int),
                forall|k: int| 0 <= k < rev@.len() ==> #[trigger] rev@[k] == cmds0[total - 1 - k],
                self.commit_state() == st0,
                self.wf(),
                self.pending() == Seq::<Command<C>>::empty(),
                self.tick == tick,
                self.fixed_step == old(self).fixed_step,
                st0 == old(self).commit_state(),
                cmds0 == old(self).pending(),
                tick == old(self).spec_tick(),
            decreases cmds@.len(),
        {
            let ghost before = cmds@;
            let c = cmds.pop().unwrap();
            proof {
                assert(c == cmds0[cmds@.len() as int]);
                assert(cmds@ =~= cmds0.take(cmds@.len() as int));
            }
            rev.push(c);
        }
        let ghost mut traces: Seq<SpawnTrace<C>> = Seq::empty();
        let ghost mut done: int = 0;
        proof {
            assert(cmds0.take(0) =~= Seq::<Command<C>>::empty());
        }
        while rev.len() > 0
            invariant
                done + rev@.len() == total,
                total == cmds0.len(),
                0 <= done,
                forall|k: int| 0 <= k < rev@.len() ==> #[trigger] rev@[k] == cmds0[total - 1 - k],
                traces.len() == done,
                forall|i: int| 0 <= i < done ==> trace_ok(#[trigger] cmds0[i], traces[i], component_factory, template_factory),
                (self.commit_state(), Ok::<(), EverNightError>(())) == commit_fold(st0, cmds0.take(done), traces, tick),
                self.wf(),
                self.pending() == Seq::<Command<C>>::empty(),
                self.tick == tick,
                self.fixed_step == old(self).fixed_step,
                st0 == old(self).commit_state(),
                cmds0 == old(self).pending(),
                tick == old(self).spec_tick(),
                component_factory matches Some(f) ==> forall|n: &String, d: &Vec<u8>| call_requires(*f, (n, d)),
                template_factory matches Some(f) ==> forall|id: u32| call_requires(*f, (id,)),
            decreases rev@.len(),
        {
            let cmd = rev.pop().unwrap();
            let ghost pre_state = self.commit_state();
            proof {
                assert(cmd == cmds0[done]);
            }
            let (res, trace) = self.apply_command(cmd, component_factory, template_factory);
            proof {
                let new_traces = traces.push(trace@);
                assert(cmds0.take(done + 1).drop_last() =~= cmds0.take(done));
                lemma_fold_traces(st0, cmds0.take(done), traces, new_traces, tick);
                assert(cmds0.take(done + 1).last() == cmds0[done]);
                traces = new_traces;
                done = done + 1;
            }
            if res.is_err() {
                proof {
                    assert(commit_outcome(st0, cmds0, tick, component_factory, template_factory, done, traces, self.commit_state(), res));
                }
                return res;
            }
        }
        proof {
            assert(cmds0.take(done) =~= cmds0);
            assert(commit_outcome(st0, cmds0, tick, component_factory, template_factory, done, traces, self.commit_state(), Ok(())));
        }
        Ok(())
    }
}

/// One `LifetimeExpired` event per entity, in order.
pub open spec fn expiry_events<V>(expired: Seq<EntityId>, tick: Tick) -> Seq<EventPayload<V>> {
    expired.map_values(|e: EntityId| EventPayload::LifetimeExpired { entity: e, tick })
}

/// Despawning one expired entity: its components are dropped, then its id is
/// released, which is refused when the id is not live.
pub open spec fn expire_step<C, V>(st: CommitState<C, V>, e: EntityId) -> (CommitState<C, V>, EverNightResult<()>) {
    let components = without_entity(st.components, e.0);
    if st.alloc.valid.contains(e.0) {
        (CommitState { alloc: st.alloc.deallocate(e).0, components, ..st }, Ok(()))
    } else {
        (CommitState { components, ..st }, Err(EverNightError::InvalidEntityId(e)))
    }
}

/// Despawning the expired entities in order, stopping at the first refusal.
pub open spec fn expire_fold<C, V>(st: CommitState<C, V>, expired: Seq<EntityId>) -> (CommitState<C, V>, EverNightResult<()>)
    decreases expired.len(),
{
    if expired.len() == 0 {
        (st, Ok(()))
    } else {
        let (mid, r) = expire_fold(st, expired.drop_last());
        if r is Err {
            (mid, r)
        } else {
            expire_step(mid, expired.last())
        }
    }
}

/// Once a despawn is refused, later entities change nothing.
proof fn lemma_expire_fold_stops<C, V>(st: CommitState<C, V>, expired: Seq<EntityId>, n: int)
    requires
        0 <= n <= expired.len(),
        expire_fold(st, expired.take(n)).1 is Err,
    ensures
        expire_fold(st, expired) == expire_fold(st, expired.take(n)),
    decreases expired.len() - n,
{
    if n < expired.len() {
        assert(expired.take(n + 1).drop_last() =~= expired.take(n));
        lemma_expire_fold_stops(st, expired, n + 1);
    } else {
        assert(expired.take(n) =~= expired);
    }
}

/// The state after the count-down pass of the lifetime system over column
/// `s` of type `lt`, with the factories' answers `reads` and `made`: each
/// lifetime component is replaced, and one `LifetimeExpired` event is added
/// per expiring entity.
pub open spec fn lifetime_pass<C, V>(
    st: CommitState<C, V>,
    lt: TypeId,
    s: Seq<(EntityId, C)>,
    reads: Seq<Option<Lifetime>>,
    made: Seq<C>,
    tick: Tick,
    mid: CommitState<C, V>,
) -> bool {
    &&& mid.alloc == st.alloc
    &&& mid.events == st.events + expiry_events(expiring(s, reads), tick)
    &&& mid.components.dom() == st.components.dom()
    &&& forall|k: (TypeId, u32)| k.0 != lt && #[trigger] st.components.contains_key(k) ==> mid.components[k] == st.components[k]
    &&& forall|m: int| 0 <= m < s.len() ==> #[trigger] mid.components[(lt, s[m].0.0)] == counted_entry(s, reads, made, m)
}

/// The entities of column `s` whose tag, as `reads` gives it, has every bit
/// of `flags`, in column order.
pub open spec fn tagged<C>(s: Seq<(EntityId, C)>, reads: Seq<Option<TagFlags>>, flags: TagFlags) -> Seq<EntityId>
    decreases s.len(),
{
    if s.len() == 0 {
        Seq::empty()
    } else {
        let p = tagged(s.drop_last(), reads, flags);
        if reads[s.len() - 1] matches Some(f) && f.spec_has(flags) {
            p.push(s.last().0)
        } else {
            p
        }
    }
}

/// The entities of `s` that a change of `reads` past the column leaves alone.
proof fn lemma_tagged_reads<C>(s: Seq<(EntityId, C)>, r1: Seq<Option<TagFlags>>, r2: Seq<Option<TagFlags>>, flags: TagFlags)
    requires
        forall|m: int| 0 <= m < s.len() ==> r1[m] == r2[m],
    ensures
        tagged(s, r1, flags) == tagged(s, r2, flags),
    decreases s.len(),
{
    if s.len() > 0 {
        lemma_tagged_reads(s.drop_last(), r1, r2, flags);
    }
}

/// The (attacker, defender, normal) of each `Collision` event, in order.
pub open spec fn collision_triples<V>(ev: Seq<EventPayload<V>>) -> Seq<(EntityId, EntityId, V)>
    decreases ev.len(),
{
    if ev.len() == 0 {
        Seq::empty()
    } else {
        let p = collision_triples(ev.drop_last());
        match ev.last() {
            EventPayload::Collision { attacker, defender, normal, .. } => p.push((attacker, defender, normal)),
            _ => p,
        }
    }
}

/// Despawning a live entity kills it, drops every component it had and
/// reports `Despawned`; despawning a dead entity is refused and changes
/// nothing.
pub proof fn lemma_despawn_step<C, V>(st: CommitState<C, V>, e: EntityId, trace: SpawnTrace<C>, tick: Tick)
    requires
        st.alloc.wf(),
    ensures
        st.alloc.valid.contains(e.0) ==> {
            let (post, r) = commit_step(st, Command::Despawn(e), trace, tick);
            &&& r is Ok
            &&& post.alloc.wf()
            &&& !post.alloc.valid.contains(e.0)
            &&& forall|t: TypeId| !(#[trigger] post.components.contains_key((t, e.0)))
            &&& post.events == st.events.push(EventPayload::Despawned { entity: e, tick })
        },
        !st.alloc.valid.contains(e.0) ==> commit_step(st, Command::Despawn(e), trace, tick) == (st, Err::<(), EverNightError>(EverNightError::InvalidEntityId(e))),
{
    if st.alloc.valid.contains(e.0) {
        crate::id_allocator::lemma_deallocate_preserves_wf(st.alloc, e);
    }
}

/// After a successful commit, the last queued command decides the component
/// it names: one added last is present with the added value, one removed
/// last is absent.
pub proof fn lemma_commit_last_write_wins<C, V, CF, TF>(
    st: CommitState<C, V>,
    cmds: Seq<Command<C>>,
    tick: Tick,
    cf: Option<&CF>,
    tf: Option<&TF>,
    n: int,
    traces: Seq<SpawnTrace<C>>,
    post: CommitState<C, V>,
)
    where
        CF: Fn(&String, &Vec<u8>) -> Option<(TypeId, C)>,
        TF: Fn(u32) -> Option<Vec<(TypeId, C)>>,
    requires
        commit_outcome(st, cmds, tick, cf, tf, n, traces, post, Ok(())),
        cmds.len() > 0,
    ensures
        cmds.last() matches Command::AddComponent { entity, component_type_id, component } ==> {
            &&& post.components.contains_key((component_type_id, entity.0))
            &&& post.components[(component_type_id, entity.0)] == component
        },
        cmds.last() matches Command::RemoveComponent { entity, component_type_id } ==> !post.components.contains_key((component_type_id, entity.0)),
{
    assert(cmds.take(n) =~= cmds);
}

/// A commit fails only at a despawn of an entity that is not alive by then,
/// and reports that entity.
pub proof fn lemma_commit_error_cause<C, V>(st: CommitState<C, V>, cmds: Seq<Command<C>>, traces: Seq<SpawnTrace<C>>, tick: Tick)
    requires
        commit_fold(st, cmds, traces, tick).1 is Err,
    ensures
        exists|i: int| {
            &&& 0 <= i < cmds.len()
            &&& #[trigger] cmds[i] matches Command::Despawn(e)
            &&& commit_fold(st, cmds, traces, tick).1 == Err::<(), EverNightError>(EverNightError::InvalidEntityId(e))
            &&& !commit_fold(st, cmds.take(i), traces, tick).0.alloc.valid.contains(e.0)
        },
    decreases cmds.len(),
{
    let init = cmds.drop_last();
    let (mid, r) = commit_fold(st, init, traces, tick);
    if r is Err {
        lemma_commit_error_cause(st, init, traces, tick);
        let i = choose|i: int| {
            &&& 0 <= i < init.len()
            &&& #[trigger] init[i] matches Command::Despawn(e)
            &&& commit_fold(st, init, traces, tick).1 == Err::<(), EverNightError>(EverNightError::InvalidEntityId(e))
            &&& !commit_fold(st, init.take(i), traces, tick).0.alloc.valid.contains(e.0)
        };
        assert(init.take(i) =~= cmds.take(i));
        assert(cmds[i] == init[i]);
    } else {
        let i = cmds.len() - 1;
        assert(cmds.take(i) =~= init);
        assert(cmds[i] == cmds.last());
    }
}

/// After despawning expired entities without error, none of them is alive
/// and none has a component left.
pub proof fn lemma_expired_are_dead<C, V>(st: CommitState<C, V>, expired: Seq<EntityId>)
    requires
        expire_fold(st, expired).1 is Ok,
    ensures
        forall|k: int| 0 <= k < expired.len() ==> !expire_fold(st, expired).0.alloc.valid.contains(#[trigger] expired[k].0),
        forall|k: int, t: TypeId| 0 <= k < expired.len() ==> !#[trigger] expire_fold(st, expired).0.components.contains_key((t, expired[k].0)),
    decreases expired.len(),
{
    if expired.len() > 0 {
        let init = expired.drop_last();
        lemma_expired_are_dead(st, init);
        let (mid, r) = expire_fold(st, init);
        let post = expire_fold(st, expired).0;
        assert forall|k: int| 0 <= k < expired.len() implies !post.alloc.valid.contains(#[trigger] expired[k].0) by {
            if k < init.len() {
                assert(init[k] == expired[k]);
            }
        }
        assert forall|k: int, t: TypeId| 0 <= k < expired.len() implies !#[trigger] post.components.contains_key((t, expired[k].0)) by {
            if k < init.len() {
                assert(init[k] == expired[k]);
            }
        }
    }
}

impl<C, V, S> World<C, V, S> {
    /// Despawns the expired entities in order: drops each one's components and
    /// releases its id, stopping with an error at an id that is not live.
    fn despawn_expired(&mut self, expired: &Vec<EntityId>) -> (r: EverNightResult<()>)
        requires
            old(self).wf(),
        ensures
            final(self).wf(),
            (final(self).commit_state(), r) == expire_fold(old(self).commit_state(), expired@),
            final(self).pending() == old(self).pending(),
            final(self).spec_tick() == old(self).spec_tick(),
            final(self).spec_fixed_step() == old(self).spec_fixed_step(),
    {
        let ghost st1 = self.commit_state();
        let mut j: usize = 0;
        proof {
            assert(expired@.take(0) =~= Seq::<EntityId>::empty());
        }
        while j < expired.len()
            invariant
                j <= expired@.len(),
                self.wf(),
                (self.commit_state(), Ok::<(), EverNightError>(())) == expire_fold(st1, expired@.take(j as int)),
                self.pending() == old(self).pending(),
                self.tick == old(self).tick,
                self.fixed_step == old(self).fixed_step,
                st1 == old(self).commit_state(),
            decreases expired@.len() - j,
        {
            let entity = expired[j];
            let ghost pre = self.component_storage;
            self.component_storage.remove_all(entity);
            proof {
                crate::component_storage::lemma_flat_remove_all(&pre, &self.component_storage, entity.0);
                assert(expired@.take(j + 1).drop_last() =~= expired@.take(j as int));
            }
            if !self.id_allocator.is_valid(entity) {
                proof {
                    lemma_expire_fold_stops(st1, expired@, j + 1);
                }
                return Err(EverNightError::InvalidEntityId(entity));
            }
            match self.id_allocator.deallocate(entity) {
                Ok(()) => {},
                Err(e) => {
                    proof {
                        lemma_expire_fold_stops(st1, expired@, j + 1);
                    }
                    return Err(e);
                },
            }
            j = j + 1;
        }
        proof {
            assert(expired@.take(j as int) =~= expired@);
        }
        Ok(())
    }

    /// Runs the lifetime system and immediately despawns expired entities.
    ///
    /// `lifetime_type` is the type of the lifetime components; `read` gives
    /// the `Lifetime` a stored component holds and `make` stores one back.
    /// Every lifetime is counted down by one tick; each entity whose count is
    /// then zero gets a `LifetimeExpired` event, its components are dropped
    /// and its id is released. Releasing an id that is not live stops the
    /// pass with an error.
    pub fn run_lifetime_system<G, M>(&mut self, lifetime_type: TypeId, read: &G, make: &M) -> (r: EverNightResult<()>)
        where
            G: Fn(&C) -> Option<Lifetime>,
            M: Fn(Lifetime) -> C,
        requires
            old(self).wf(),
            forall|c: &C| call_requires(*read, (c,)),
            forall|l: Lifetime| call_requires(*make, (l,)),
        ensures
            final(self).wf(),
            exists|reads: Seq<Option<Lifetime>>, made: Seq<C>, mid: CommitState<C, V>| {
                &&& lifetime_trace_ok(old(self).storage().ordered(lifetime_type), read, make, reads, made)
                &&& #[trigger] lifetime_pass(old(self).commit_state(), lifetime_type, old(self).storage().ordered(lifetime_type), reads, made, old(self).spec_tick(), mid)
                &&& (final(self).commit_state(), r) == expire_fold(mid, expiring(old(self).storage().ordered(lifetime_type), reads))
            },
            final(self).pending() == old(self).pending(),
            final(self).spec_tick() == old(self).spec_tick(),
            final(self).spec_fixed_step() == old(self).spec_fixed_step(),
    {
        let ghost st0 = self.commit_state();
        let ghost pre = self.component_storage;
        let ghost s = pre.ordered(lifetime_type);
        let expired = lifetime_system(&mut self.component_storage, &mut self.event_bus, self.tick, lifetime_type, read, make);
        let ghost mid = self.commit_state();
        proof {
            let (reads, made) = choose|reads: Seq<Option<Lifetime>>, made: Seq<C>| {
                &&& #[trigger] lifetime_trace_ok(s, read, make, reads, made)
                &&& self.component_storage.components(lifetime_type).dom() == pre.components(lifetime_type).dom()
                &&& forall|k: int| 0 <= k < s.len() ==> #[trigger] self.component_storage.components(lifetime_type)[s[k].0.0] == counted_entry(s, reads, made, k)
                &&& expired@ == expiring(s, reads)
                &&& self.event_bus.queued() == st0.events + expired@.map_values(|e: EntityId| EventPayload::LifetimeExpired { entity: e, tick: self.tick })
            };
            crate::component_storage::lemma_flat_one_type(&pre, &self.component_storage, lifetime_type);
            assert(mid.components.dom() =~= st0.components.dom()) by {
                assert forall|k: (TypeId, u32)| #[trigger] mid.components.contains_key(k) == st0.components.contains_key(k) by {
                    if k.0 == lifetime_type {
                        assert(self.component_storage.components(lifetime_type).contains_key(k.1) == pre.components(lifetime_type).contains_key(k.1));
                    }
                }
            }
            assert(expiry_events::<V>(expiring(s, reads), self.tick) =~= expired@.map_values(|e: EntityId| EventPayload::<V>::LifetimeExpired { entity: e, tick: self.tick }));
            assert(lifetime_pass(st0, lifetime_type, s, reads, made, self.tick, mid));
        }
        let r = self.despawn_expired(&expired);
        proof {
            let (reads, made) = choose|reads: Seq<Option<Lifetime>>, made: Seq<C>| {
                &&& #[trigger] lifetime_trace_ok(s, read, make, reads, made)
                &&& lifetime_pass(st0, lifetime_type, s, reads, made, self.tick, mid)
                &&& expired@ == expiring(s, reads)
            };
            assert(lifetime_trace_ok(s, read, make, reads, made));
            assert(st0 == old(self).commit_state());
            assert(s == old(self).storage().ordered(lifetime_type));
            assert(self.tick == old(self).spec_tick());
            assert(lifetime_pass(old(self).commit_state(), lifetime_type, old(self).storage().ordered(lifetime_type), reads, made, old(self).spec_tick(), mid));
            assert((self.commit_state(), r) == expire_fold(mid, expiring(old(self).storage().ordered(lifetime_type), reads)));
        }
        r
    }

    /// Returns entity IDs of all entities whose tag has every bit of `flags`,
    /// in ascending entity order.
    ///
    /// `tag_type` is the type of the tag components and `read_flags` gives the
    /// built-in flags a stored tag component carries.
    pub fn find_entities_with_tag<G>(&self, tag_type: TypeId, flags: TagFlags, read_flags: &G) -> (r: Vec<EntityId>)
        where
            G: Fn(&C) -> Option<TagFlags>,
        requires
            self.wf(),
            forall|c: &C| call_requires(*read_flags, (c,)),
        ensures
            exists|reads: Seq<Option<TagFlags>>| {
                &&& reads.len() == self.storage().ordered(tag_type).len()
                &&& forall|k: int| 0 <= k < reads.len() ==> call_ensures(*read_flags, (&self.storage().ordered(tag_type)[k].1,), #[trigger] reads[k])
                &&& r@ == #[trigger] tagged(self.storage().ordered(tag_type), reads, flags)
            },
    {
        let entries = self.component_storage.iter(tag_type);
        let ghost s = self.component_storage.ordered(tag_type);
        let ghost mut reads: Seq<Option<TagFlags>> = Seq::empty();
        let mut out: Vec<EntityId> = Vec::new();
        let mut k: usize = 0;
        while k < entries.len()
            invariant
                k <= entries@.len(),
                entries@.len() == s.len(),
                forall|m: int| 0 <= m < entries@.len() ==> (#[trigger] entries@[m]).0 == s[m].0 && *entries@[m].1 == s[m].1,
                reads.len() == k,
                forall|m: int| 0 <= m < k ==> call_ensures(*read_flags, (&s[m].1,), #[trigger] reads[m]),
                out@ == tagged(s.take(k as int), reads, flags),
                forall|c: &C| call_requires(*read_flags, (c,)),
            decreases entries@.len() - k,
        {
            let (e, c) = entries[k];
            let f = read_flags(c);
            proof {
                lemma_tagged_reads(s.take(k as int), reads, reads.push(f), flags);
                reads = reads.push(f);
                assert(s.take(k + 1).drop_last() =~= s.take(k as int));
                assert(s.take(k + 1).last() == s[k as int]);
            }
            match f {
                Some(tf) => {
                    if tf.has(flags) {
                        out.push(e);
                    }
                },
                None => {},
            }
            k = k + 1;
        }
        proof {
            assert(s.take(k as int) =~= s);
            assert(s == self.storage().ordered(tag_type));
            assert(out@ == tagged(self.storage().ordered(tag_type), reads, flags));
        }
        out
    }

    /// Runs the collision system over the prepared hurtboxes and hitboxes of
    /// this frame (see [`collision_system`]) and adds its `Collision` events,
    /// stamped with the current tick, to the frame's events.
    pub fn run_collision_system<F>(&mut self, hurtboxes: &Vec<HurtEntry>, hitboxes: &Vec<HitEntry>, narrow: &F)
        where
            F: Fn(usize, usize) -> Option<(V, V)>,
        requires
            forall|a: usize, b: usize| call_requires(*narrow, (a, b)),
        ensures
            exists|traces: Seq<Seq<Option<(V, V)>>>, sorted: Seq<Contact<V>>| {
                &&& #[trigger] collision_outcome(hurtboxes@, hitboxes@, narrow, traces, sorted)
                &&& final(self).events() == old(self).events() + collision_events(sorted, old(self).spec_tick())
            },
            final(self).wf() == old(self).wf(),
            final(self).allocator() == old(self).allocator(),
            final(self).storage() == old(self).storage(),
            final(self).pending() == old(self).pending(),
            final(self).spec_tick() == old(self).spec_tick(),
            final(self).spec_fixed_step() == old(self).spec_fixed_step(),
    {
        collision_system(hurtboxes, hitboxes, narrow, &mut self.event_bus, self.tick);
    }

    /// The (attacker, defender, normal) of every `Collision` event of this
    /// frame, in order: what the elastic collision response works from.
    pub fn collision_pairs(&self) -> (r: Vec<(EntityId, EntityId, &V)>)
        ensures
            r@.len() == collision_triples(self.events()).len(),
            forall|k: int| 0 <= k < r@.len() ==> {
                &&& (#[trigger] r@[k]).0 == collision_triples(self.events())[k].0
                &&& r@[k].1 == collision_triples(self.events())[k].1
                &&& *r@[k].2 == collision_triples(self.events())[k].2
            },
    {
        let events = self.event_bus.events();
        let ghost ev = self.events();
        let mut out: Vec<(EntityId, EntityId, &V)> = Vec::new();
        let mut k: usize = 0;
        while k < events.len()
            invariant
                k <= events@.len(),
                events@ == ev,
                out@.len() == collision_triples(ev.take(k as int)).len(),
                forall|m: int| 0 <= m < out@.len() ==> {
                    &&& (#[trigger] out@[m]).0 == collision_triples(ev.take(k as int))[m].0
                    &&& out@[m].1 == collision_triples(ev.take(k as int))[m].1
                    &&& *out@[m].2 == collision_triples(ev.take(k as int))[m].2
                },
            decreases events@.len() - k,
        {
            proof {
                assert(ev.take(k + 1).drop_last() =~= ev.take(k as int));
                assert(ev.take(k + 1).last() == ev[k as int]);
            }
            match &events[k] {
                EventPayload::Collision { attacker, defender, normal, .. } => {
                    out.push((*attacker, *defender, normal));
                },
                _ => {},
            }
            k = k + 1;
        }
        proof {
            assert(ev.take(k as int) =~= ev);
        }
        out
    }
}

} // verus!
