use std::any::TypeId;

use evernight::collision::{HitEntry, HurtEntry};
use evernight::command::SpawnRequest;
use evernight::components::Lifetime;
use evernight::event::EventPayload;
use evernight::scheduler::{first_stage, next_stage, FrameStage, Phase, StepResult};
use evernight::spatial_hash::CellRange;
use evernight::systems::elastic_pairs;
use evernight::types::{CollisionMask, EntityId, EverNightError, EverNightResult, LayerBit, TagFlags, Tick};
use evernight::world::World;

struct TransformKind;
struct LifetimeKind;
struct HitboxKind;
struct HurtboxKind;
struct TagKind;

#[derive(Debug, Clone)]
enum Comp {
    Transform { x: f32, y: f32 },
    Life(Lifetime),
    Hitbox { cx: f32, cy: f32, r: f32, group: CollisionMask, hit_once: bool },
    Hurtbox { cx: f32, cy: f32, r: f32, layer: LayerBit },
    Tag(TagFlags),
}

type W = World<Comp, (f32, f32), f32>;
type NoComponentFactory = fn(&String, &Vec<u8>) -> Option<(TypeId, Comp)>;
type NoTemplateFactory = fn(u32) -> Option<Vec<(TypeId, Comp)>>;

const CELL_SIZE: f32 = 64.0;

fn make_world() -> W {
    World::new(1.0 / 60.0)
}

fn cells_of(cx: f32, cy: f32, r: f32) -> Option<CellRange> {
    Some(CellRange {
        x0: ((cx - r) / CELL_SIZE).floor() as i32,
        y0: ((cy - r) / CELL_SIZE).floor() as i32,
        x1: ((cx + r) / CELL_SIZE).floor() as i32,
        y1: ((cy + r) / CELL_SIZE).floor() as i32,
    })
}

fn read_lifetime(c: &Comp) -> Option<Lifetime> {
    match c {
        Comp::Life(l) => Some(*l),
        _ => None,
    }
}

fn make_lifetime(l: Lifetime) -> Comp {
    Comp::Life(l)
}

fn run_collision(world: &mut W) {
    let mut hurt = Vec::new();
    let mut hurt_shapes = Vec::new();
    for (e, c) in world.iter_components(TypeId::of::<HurtboxKind>()) {
        if let Comp::Hurtbox { cx, cy, r, layer } = c {
            hurt.push(HurtEntry { entity: e, layer: *layer, cells: cells_of(*cx, *cy, *r) });
            hurt_shapes.push((*cx, *cy, *r));
        }
    }
    let mut hits = Vec::new();
    let mut hit_shapes = Vec::new();
    for (e, c) in world.iter_components(TypeId::of::<HitboxKind>()) {
        if let Comp::Hitbox { cx, cy, r, group, hit_once } = c {
            hits.push(HitEntry { entity: e, group: *group, hit_once: *hit_once, cells: cells_of(*cx, *cy, *r) });
            hit_shapes.push((*cx, *cy, *r));
        }
    }
    let narrow = |i: usize, j: usize| -> Option<((f32, f32), (f32, f32))> {
        let (ax, ay, ar) = hit_shapes[i];
        let (bx, by, br) = hurt_shapes[j];
        let (dx, dy) = (bx - ax, by - ay);
        let d = (dx * dx + dy * dy).sqrt();
        if d < ar + br {
            let n = if d > 0.0 { (dx / d, dy / d) } else { (1.0, 0.0) };
            Some(((ax + n.0 * ar, ay + n.1 * ar), n))
        } else {
            None
        }
    };
    world.run_collision_system(&hurt, &hits, &narrow);
}

fn step(world: &mut W) -> EverNightResult<StepResult> {
    let mut seen = 0;
    step_observing_pre_update(world, &mut seen)
}

/// One frame, recording how many events the `PreUpdate` stage sees.
fn step_observing_pre_update(world: &mut W, seen: &mut usize) -> EverNightResult<StepResult> {
    let mut stage = first_stage(false);
    loop {
        match stage {
            FrameStage::RunPhase(Phase::PreUpdate) => *seen = world.get_events().len(),
            FrameStage::ClearEvents => world.clear_events_for_frame(),
            FrameStage::CommitCommands => world.commit_commands(None::<&NoComponentFactory>, None::<&NoTemplateFactory>)?,
            FrameStage::Collision => run_collision(world),
            FrameStage::Lifetime => world.run_lifetime_system(TypeId::of::<LifetimeKind>(), &read_lifetime, &make_lifetime)?,
            FrameStage::AdvanceTick => return Ok(world.advance_tick()),
            _ => {},
        }
        stage = next_stage(stage, false).unwrap();
    }
}

fn identity() -> Comp {
    Comp::Transform { x: 0.0, y: 0.0 }
}

fn add(world: &mut W, e: EntityId, kind: TypeId, c: Comp) {
    world.add_component(e, kind, c).unwrap();
}

fn collisions(world: &W) -> Vec<(u32, u32)> {
    world
        .get_events()
        .iter()
        .filter_map(|e| match e {
            EventPayload::Collision { attacker, defender, .. } => Some((attacker.as_u32(), defender.as_u32())),
            _ => None,
        })
        .collect()
}

#[test]
fn spawn_produces_spawned_event() {
    let mut world = make_world();
    let entity = world.spawn_entity(SpawnRequest::new()).unwrap();
    step(&mut world).unwrap();
    let events = world.get_events();
    assert!(events.iter().any(|e| matches!(e, EventPayload::Spawned { entity: e_id, .. } if *e_id == entity)));
}

#[test]
fn add_component_before_step_is_visible_after() {
    let mut world = make_world();
    let entity = world.spawn_entity(SpawnRequest::new()).unwrap();
    add(&mut world, entity, TypeId::of::<TransformKind>(), identity());
    step(&mut world).unwrap();
    assert!(world.get_component(entity, TypeId::of::<TransformKind>()).is_some());
}

#[test]
fn despawn_removes_components_and_emits_event() {
    let mut world = make_world();
    let entity = world.spawn_entity(SpawnRequest::new()).unwrap();
    add(&mut world, entity, TypeId::of::<TransformKind>(), identity());
    step(&mut world).unwrap();

    world.despawn_entity(entity).unwrap();
    step(&mut world).unwrap();

    assert!(!world.is_alive(entity));
    assert!(world.get_component(entity, TypeId::of::<TransformKind>()).is_none());
    let events = world.get_events();
    assert!(events.iter().any(|e| matches!(e, EventPayload::Despawned { entity: e_id, .. } if *e_id == entity)));
}

#[test]
fn despawn_invalid_entity_returns_error() {
    let mut world = make_world();
    let entity = world.spawn_entity(SpawnRequest::new()).unwrap();
    step(&mut world).unwrap();
    world.despawn_entity(entity).unwrap();
    step(&mut world).unwrap();
    assert!(world.despawn_entity(entity).is_err());
}

#[test]
fn remove_component_via_command() {
    let mut world = make_world();
    let entity = world.spawn_entity(SpawnRequest::new()).unwrap();
    add(&mut world, entity, TypeId::of::<TransformKind>(), identity());
    step(&mut world).unwrap();

    world.remove_component(entity, TypeId::of::<TransformKind>()).unwrap();
    step(&mut world).unwrap();

    assert!(world.get_component(entity, TypeId::of::<TransformKind>()).is_none());
}

#[test]
fn lifetime_one_tick_expires_immediately() {
    let mut world = make_world();
    let entity = world.spawn_entity(SpawnRequest::new()).unwrap();
    add(&mut world, entity, TypeId::of::<LifetimeKind>(), Comp::Life(Lifetime::new(Tick::new(1))));
    step(&mut world).unwrap();

    assert!(!world.is_alive(entity));
    let events = world.get_events();
    assert!(events.iter().any(|e| matches!(e, EventPayload::LifetimeExpired { entity: e_id, .. } if *e_id == entity)));
}

#[test]
fn lifetime_two_ticks_survives_first_step() {
    let mut world = make_world();
    let entity = world.spawn_entity(SpawnRequest::new()).unwrap();
    add(&mut world, entity, TypeId::of::<LifetimeKind>(), Comp::Life(Lifetime::new(Tick::new(2))));
    step(&mut world).unwrap();

    assert!(world.is_alive(entity), "entity should still be alive after 1 step");
    let remaining = match world.get_component(entity, TypeId::of::<LifetimeKind>()) {
        Some(Comp::Life(l)) => l.remaining.as_u32(),
        _ => panic!("lifetime missing"),
    };
    assert_eq!(remaining, 1);

    step(&mut world).unwrap();
    assert!(!world.is_alive(entity));
}

fn hitbox(cx: f32, cy: f32, r: f32, group: CollisionMask, hit_once: bool) -> Comp {
    Comp::Hitbox { cx, cy, r, group, hit_once }
}

fn hurtbox(cx: f32, cy: f32, r: f32, layer: LayerBit) -> Comp {
    Comp::Hurtbox { cx, cy, r, layer }
}

#[test]
fn overlapping_hitbox_hurtbox_emits_collision_event() {
    let mut world = make_world();
    let attacker = world.spawn_entity(SpawnRequest::new()).unwrap();
    add(&mut world, attacker, TypeId::of::<HitboxKind>(), hitbox(0.0, 0.0, 1.0, CollisionMask::new(1), false));
    let defender = world.spawn_entity(SpawnRequest::new()).unwrap();
    add(&mut world, defender, TypeId::of::<HurtboxKind>(), hurtbox(0.5, 0.0, 1.0, LayerBit::new(1)));

    step(&mut world).unwrap();

    let events = world.get_events();
    assert!(events.iter().any(|e| matches!(e,
        EventPayload::Collision { attacker: a, defender: d, .. }
        if *a == attacker && *d == defender
    )));
}

#[test]
fn non_overlapping_shapes_no_collision_event() {
    let mut world = make_world();
    let attacker = world.spawn_entity(SpawnRequest::new()).unwrap();
    add(&mut world, attacker, TypeId::of::<HitboxKind>(), hitbox(0.0, 0.0, 1.0, CollisionMask::new(1), false));
    let defender = world.spawn_entity(SpawnRequest::new()).unwrap();
    add(&mut world, defender, TypeId::of::<HurtboxKind>(), hurtbox(10.0, 0.0, 1.0, LayerBit::new(1)));

    step(&mut world).unwrap();

    assert!(!world.get_events().iter().any(|e| matches!(e, EventPayload::Collision { .. })));
}

#[test]
fn mask_mismatch_no_collision_event() {
    let mut world = make_world();
    let attacker = world.spawn_entity(SpawnRequest::new()).unwrap();
    add(&mut world, attacker, TypeId::of::<HitboxKind>(), hitbox(0.0, 0.0, 1.0, CollisionMask::new(1), false));
    let defender = world.spawn_entity(SpawnRequest::new()).unwrap();
    add(&mut world, defender, TypeId::of::<HurtboxKind>(), hurtbox(0.5, 0.0, 1.0, LayerBit::new(2)));

    step(&mut world).unwrap();

    assert!(!world.get_events().iter().any(|e| matches!(e, EventPayload::Collision { .. })));
}

#[test]
fn hit_once_emits_single_collision_for_multiple_defenders() {
    let mut world = make_world();
    let attacker = world.spawn_entity(SpawnRequest::new()).unwrap();
    add(&mut world, attacker, TypeId::of::<HitboxKind>(), hitbox(0.0, 0.0, 5.0, CollisionMask::new(1), true));
    for offset in [0.0_f32, 0.5, 1.0] {
        let def = world.spawn_entity(SpawnRequest::new()).unwrap();
        add(&mut world, def, TypeId::of::<HurtboxKind>(), hurtbox(offset, 0.0, 1.0, LayerBit::new(1)));
    }

    step(&mut world).unwrap();

    let collision_count = world
        .get_events()
        .iter()
        .filter(|e| matches!(e, EventPayload::Collision { attacker: a, .. } if *a == attacker))
        .count();
    assert_eq!(collision_count, 1, "hit_once hitbox should only fire once");
}

#[test]
fn events_cleared_at_start_of_next_step() {
    let mut world = make_world();
    let _entity = world.spawn_entity(SpawnRequest::new()).unwrap();
    step(&mut world).unwrap();
    assert!(!world.get_events().is_empty(), "should have Spawned event");
    step(&mut world).unwrap();
    assert!(world.get_events().is_empty());
}

#[test]
fn runtime_frame_clears_events_before_pre_update() {
    let mut world = make_world();
    let _entity = world.spawn_entity(SpawnRequest::new()).unwrap();
    step(&mut world).unwrap();
    assert_eq!(world.get_events().len(), 1);
    let mut seen = usize::MAX;
    step_observing_pre_update(&mut world, &mut seen).unwrap();
    assert_eq!(seen, 0);
    assert!(world.get_events().is_empty());
}

#[test]
fn collision_event_order_is_deterministic() {
    fn run_once() -> Vec<(u32, u32)> {
        let mut world = make_world();
        let att = world.spawn_entity(SpawnRequest::new()).unwrap();
        add(&mut world, att, TypeId::of::<HitboxKind>(), hitbox(0.0, 0.0, 10.0, CollisionMask::new(1), false));
        for i in 0..3 {
            let def = world.spawn_entity(SpawnRequest::new()).unwrap();
            add(&mut world, def, TypeId::of::<HurtboxKind>(), hurtbox(i as f32, 0.0, 1.0, LayerBit::new(1)));
        }
        step(&mut world).unwrap();
        collisions(&world)
    }

    let run_a = run_once();
    let run_b = run_once();
    assert!(!run_a.is_empty());
    assert_eq!(run_a, run_b, "collision event order must be deterministic across runs");
}

#[test]
fn collision_events_sorted_by_attacker_then_defender() {
    let mut world = make_world();
    let d1 = world.spawn_entity(SpawnRequest::new()).unwrap();
    let a1 = world.spawn_entity(SpawnRequest::new()).unwrap();
    let d2 = world.spawn_entity(SpawnRequest::new()).unwrap();
    let a2 = world.spawn_entity(SpawnRequest::new()).unwrap();
    add(&mut world, a2, TypeId::of::<HitboxKind>(), hitbox(0.0, 0.0, 3.0, CollisionMask::new(0), false));
    add(&mut world, a1, TypeId::of::<HitboxKind>(), hitbox(0.0, 0.0, 3.0, CollisionMask::new(0), false));
    add(&mut world, d2, TypeId::of::<HurtboxKind>(), hurtbox(1.0, 0.0, 1.0, LayerBit::new(0)));
    add(&mut world, d1, TypeId::of::<HurtboxKind>(), hurtbox(-1.0, 0.0, 1.0, LayerBit::new(0)));
    step(&mut world).unwrap();
    assert_eq!(collisions(&world), vec![(a1.0, d1.0), (a1.0, d2.0), (a2.0, d1.0), (a2.0, d2.0)]);
    let ticks: Vec<Tick> = world
        .get_events()
        .iter()
        .filter_map(|e| match e {
            EventPayload::Collision { tick, .. } => Some(*tick),
            _ => None,
        })
        .collect();
    assert!(ticks.iter().all(|t| *t == Tick(0)));
}

#[test]
fn hitbox_never_hits_its_own_entity() {
    let mut world = make_world();
    let e = world.spawn_entity(SpawnRequest::new()).unwrap();
    add(&mut world, e, TypeId::of::<HitboxKind>(), hitbox(0.0, 0.0, 1.0, CollisionMask::new(0), false));
    add(&mut world, e, TypeId::of::<HurtboxKind>(), hurtbox(0.0, 0.0, 1.0, LayerBit::new(0)));
    step(&mut world).unwrap();
    assert!(collisions(&world).is_empty());
}

#[test]
fn collision_across_cell_borders() {
    let mut world = make_world();
    let a = world.spawn_entity(SpawnRequest::new()).unwrap();
    let d = world.spawn_entity(SpawnRequest::new()).unwrap();
    add(&mut world, a, TypeId::of::<HitboxKind>(), hitbox(63.5, 63.5, 1.0, CollisionMask::new(3), false));
    add(&mut world, d, TypeId::of::<HurtboxKind>(), hurtbox(64.5, 64.5, 1.0, LayerBit::new(3)));
    step(&mut world).unwrap();
    assert_eq!(collisions(&world), vec![(a.0, d.0)]);
}

#[test]
fn tick_advances_once_per_step() {
    let mut world = make_world();
    assert_eq!(world.tick(), Tick(0));
    let r = step(&mut world).unwrap();
    assert_eq!(r.tick, Tick(1));
    assert_eq!(r.event_count, 0);
    let _ = world.spawn_entity(SpawnRequest::new()).unwrap();
    let r = step(&mut world).unwrap();
    assert_eq!(r.tick, Tick(2));
    assert_eq!(r.event_count, 1);
    assert_eq!(*world.fixed_step(), 1.0 / 60.0);
}

#[test]
fn commands_on_dead_entity_are_refused_before_queueing() {
    let mut world = make_world();
    let ghost = EntityId(77);
    assert_eq!(world.despawn_entity(ghost), Err(EverNightError::InvalidEntityId(ghost)));
    assert_eq!(
        world.add_component(ghost, TypeId::of::<TransformKind>(), identity()).unwrap_err(),
        EverNightError::InvalidEntityId(ghost)
    );
    assert_eq!(
        world.remove_component(ghost, TypeId::of::<TransformKind>()).unwrap_err(),
        EverNightError::InvalidEntityId(ghost)
    );
}

#[test]
fn commit_stops_at_second_despawn_of_same_entity() {
    let mut world = make_world();
    let e = world.spawn_entity(SpawnRequest::new()).unwrap();
    step(&mut world).unwrap();
    world.despawn_entity(e).unwrap();
    world.despawn_entity(e).unwrap();
    let later = world.spawn_entity(SpawnRequest::new()).unwrap();
    world.clear_events_for_frame();
    let r = world.commit_commands(None::<&NoComponentFactory>, None::<&NoTemplateFactory>);
    assert_eq!(r, Err(EverNightError::InvalidEntityId(e)));
    assert!(!world.is_alive(e));
    // The spawn queued after the failing despawn was dropped with it.
    assert!(!world.get_events().iter().any(|ev| matches!(ev, EventPayload::Spawned { entity, .. } if *entity == later)));
}

#[test]
fn last_queued_component_write_wins() {
    let mut world = make_world();
    let e = world.spawn_entity(SpawnRequest::new()).unwrap();
    add(&mut world, e, TypeId::of::<TransformKind>(), Comp::Transform { x: 1.0, y: 0.0 });
    world.remove_component(e, TypeId::of::<TransformKind>()).unwrap();
    add(&mut world, e, TypeId::of::<TransformKind>(), Comp::Transform { x: 2.0, y: 0.0 });
    step(&mut world).unwrap();
    match world.get_component(e, TypeId::of::<TransformKind>()) {
        Some(Comp::Transform { x, .. }) => assert_eq!(*x, 2.0),
        other => panic!("unexpected {other:?}"),
    }
}

#[test]
fn spawn_with_factories_builds_named_then_template_components() {
    let mut world = make_world();
    let e = world.spawn_entity(SpawnRequest::with_template(3).add_component("Transform", vec![5]).add_component("Unknown", vec![])).unwrap();
    let cf = |name: &String, data: &Vec<u8>| -> Option<(TypeId, Comp)> {
        if name == "Transform" {
            Some((TypeId::of::<TransformKind>(), Comp::Transform { x: data[0] as f32, y: 0.0 }))
        } else {
            None
        }
    };
    let tf = |id: u32| -> Option<Vec<(TypeId, Comp)>> {
        if id == 3 {
            Some(vec![
                (TypeId::of::<LifetimeKind>(), Comp::Life(Lifetime::new(Tick::new(9)))),
                (TypeId::of::<TagKind>(), Comp::Tag(TagFlags::enemy())),
            ])
        } else {
            None
        }
    };
    world.commit_commands(Some(&cf), Some(&tf)).unwrap();
    assert!(matches!(world.get_component(e, TypeId::of::<TransformKind>()), Some(Comp::Transform { x, .. }) if *x == 5.0));
    assert!(matches!(world.get_component(e, TypeId::of::<LifetimeKind>()), Some(Comp::Life(l)) if l.remaining == Tick(9)));
    assert!(matches!(world.get_component(e, TypeId::of::<TagKind>()), Some(Comp::Tag(_))));
    assert_eq!(world.iter_entities_with_component(TypeId::of::<TagKind>()), vec![e]);
}

#[test]
fn find_entities_with_tag_filters_by_flags() {
    let mut world = make_world();
    let a = world.spawn_entity(SpawnRequest::new()).unwrap();
    let b = world.spawn_entity(SpawnRequest::new()).unwrap();
    let c = world.spawn_entity(SpawnRequest::new()).unwrap();
    add(&mut world, a, TypeId::of::<TagKind>(), Comp::Tag(TagFlags::enemy().union(TagFlags::boss())));
    add(&mut world, b, TypeId::of::<TagKind>(), Comp::Tag(TagFlags::player()));
    add(&mut world, c, TypeId::of::<TagKind>(), Comp::Tag(TagFlags::enemy()));
    step(&mut world).unwrap();
    let read = |comp: &Comp| -> Option<TagFlags> {
        match comp {
            Comp::Tag(f) => Some(*f),
            _ => None,
        }
    };
    assert_eq!(world.find_entities_with_tag(TypeId::of::<TagKind>(), TagFlags::enemy(), &read), vec![a, c]);
    assert_eq!(
        world.find_entities_with_tag(TypeId::of::<TagKind>(), TagFlags::enemy().union(TagFlags::boss()), &read),
        vec![a]
    );
    assert!(world.find_entities_with_tag(TypeId::of::<TagKind>(), TagFlags::pickup(), &read).is_empty());
}

#[test]
fn get_component_mut_edits_committed_component() {
    let mut world = make_world();
    let e = world.spawn_entity(SpawnRequest::new()).unwrap();
    add(&mut world, e, TypeId::of::<TransformKind>(), identity());
    step(&mut world).unwrap();
    if let Some(Comp::Transform { x, .. }) = world.get_component_mut(e, TypeId::of::<TransformKind>()) {
        *x = 3.5;
    }
    assert!(matches!(world.get_component(e, TypeId::of::<TransformKind>()), Some(Comp::Transform { x, .. }) if *x == 3.5));
}

#[test]
fn collision_pairs_lists_collision_events() {
    let mut world = make_world();
    let a = world.spawn_entity(SpawnRequest::new()).unwrap();
    let d = world.spawn_entity(SpawnRequest::new()).unwrap();
    add(&mut world, a, TypeId::of::<HitboxKind>(), hitbox(0.0, 0.0, 1.0, CollisionMask::new(1), false));
    add(&mut world, d, TypeId::of::<HurtboxKind>(), hurtbox(1.0, 0.0, 1.0, LayerBit::new(1)));
    step(&mut world).unwrap();
    let pairs = world.collision_pairs();
    assert_eq!(pairs.len(), 1);
    assert_eq!((pairs[0].0, pairs[0].1), (a, d));
    assert_eq!(*pairs[0].2, (1.0, 0.0));
}

#[test]
fn elastic_pairs_keep_first_of_each_unordered_pair() {
    let p = |a: u32, b: u32| (EntityId(a), EntityId(b));
    let pairs = vec![p(1, 2), p(2, 1), p(3, 4), p(1, 2), p(4, 3), p(5, 6)];
    let eligible = vec![true, true, false, true, true, true];
    assert_eq!(elastic_pairs(&pairs, &eligible), vec![0, 4, 5]);
    assert!(elastic_pairs(&pairs, &vec![false; 6]).is_empty());
}
