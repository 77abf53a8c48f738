use std::any::TypeId;
use std::cell::Cell;

use evernight::benchmark::bench;
use evernight::collision::{collision_system, HitEntry, HurtEntry};
use evernight::command::{SpawnRequest, Spawnable};
use evernight::component_storage::ComponentStorage;
use evernight::components::Lifetime;
use evernight::event::{EventBus, EventLike, EventPayload};
use evernight::spatial_hash::CellRange;
use evernight::systems::lifetime_system;
use evernight::types::{CollisionMask, EntityId, LayerBit, Tick};

struct Bullet;

impl Spawnable for Bullet {
    fn create_entity() -> SpawnRequest {
        SpawnRequest::with_template(1).add_component("Velocity", vec![])
    }
}

#[test]
fn spawnable_describes_its_spawn() {
    let r = Bullet::create_entity();
    assert_eq!(r.template_id(), Some(1));
    assert_eq!(r.components().len(), 1);
}

#[test]
fn bench_runs_warmup_and_timed_iterations() {
    let calls = Cell::new(0u32);
    let r = bench("count", 3, 5, || calls.set(calls.get() + 1));
    assert_eq!(calls.get(), 8);
    assert_eq!(r.name, "count");
    assert_eq!(r.warmup, 3);
    assert_eq!(r.iterations, 5);
}

struct LifeKind;
struct OtherKind;

#[test]
fn lifetime_system_counts_down_and_reports_expired() {
    let mut storage: ComponentStorage<(u32, Option<Lifetime>)> = ComponentStorage::new();
    let life = TypeId::of::<LifeKind>();
    storage.insert(EntityId(3), life, (0, Some(Lifetime::new(Tick(1)))));
    storage.insert(EntityId(1), life, (0, Some(Lifetime::new(Tick(5)))));
    storage.insert(EntityId(2), life, (0, Some(Lifetime::new(Tick(0)))));
    storage.insert(EntityId(4), life, (0, None));
    storage.insert(EntityId(1), TypeId::of::<OtherKind>(), (9, None));
    let mut bus: EventBus<()> = EventBus::new();
    let read = |c: &(u32, Option<Lifetime>)| c.1;
    let make = |l: Lifetime| (1u32, Some(l));
    let expired = lifetime_system(&mut storage, &mut bus, Tick(7), life, &read, &make);
    assert_eq!(expired, vec![EntityId(2), EntityId(3)]);
    let remaining = |e: u32| storage.get(EntityId(e), life).and_then(|c| c.1).map(|l| l.remaining.as_u32());
    assert_eq!(remaining(1), Some(4));
    assert_eq!(remaining(2), Some(0));
    assert_eq!(remaining(3), Some(0));
    // a component that does not read as a lifetime is left alone
    assert_eq!(storage.get(EntityId(4), life).map(|c| c.0), Some(0));
    assert_eq!(storage.get(EntityId(1), TypeId::of::<OtherKind>()).map(|c| c.0), Some(9));
    let ev = bus.events();
    assert_eq!(ev.len(), 2);
    assert_eq!(ev[0].primary_entity(), Some(EntityId(2)));
    assert_eq!(ev[1].primary_entity(), Some(EntityId(3)));
    assert_eq!(ev[1].occurred_tick(), Some(Tick(7)));
    assert!(matches!(ev[0], EventPayload::LifetimeExpired { .. }));
}

#[test]
fn event_like_reports_entities_and_tick() {
    let c: EventPayload<u8> = EventPayload::Collision {
        attacker: EntityId(1),
        defender: EntityId(2),
        contact_point: 0,
        normal: 1,
        tick: Tick(4),
    };
    assert_eq!(c.primary_entity(), Some(EntityId(1)));
    assert_eq!(c.secondary_entity(), Some(EntityId(2)));
    assert_eq!(c.occurred_tick(), Some(Tick(4)));
    let custom: EventPayload<u8> = EventPayload::Custom { name: "boom".to_string(), data: vec![] };
    assert_eq!(custom.primary_entity(), None);
    assert_eq!(custom.secondary_entity(), None);
    assert_eq!(custom.occurred_tick(), None);
    let s: EventPayload<u8> = EventPayload::Spawned { entity: EntityId(5), tick: Tick(1) };
    assert_eq!(s.secondary_entity(), None);
    assert_eq!(s.primary_entity(), Some(EntityId(5)));
}

fn cell(x: i32, y: i32) -> Option<CellRange> {
    Some(CellRange { x0: x, y0: y, x1: x, y1: y })
}

#[test]
fn collision_system_tests_each_candidate_once_and_skips_unbounded() {
    let hurt = vec![
        HurtEntry { entity: EntityId(10), layer: LayerBit::new(0), cells: Some(CellRange { x0: 0, y0: 0, x1: 1, y1: 0 }) },
        HurtEntry { entity: EntityId(11), layer: LayerBit::new(0), cells: None },
        HurtEntry { entity: EntityId(12), layer: LayerBit::new(1), cells: cell(0, 0) },
    ];
    let hits = vec![
        HitEntry { entity: EntityId(1), group: CollisionMask::new(0) | CollisionMask::new(1), hit_once: false, cells: Some(CellRange { x0: 0, y0: 0, x1: 1, y1: 0 }) },
        HitEntry { entity: EntityId(2), group: CollisionMask::new(0), hit_once: false, cells: None },
    ];
    let calls = Cell::new(0u32);
    let narrow = |i: usize, j: usize| -> Option<(i32, i32)> {
        calls.set(calls.get() + 1);
        Some((i as i32, j as i32))
    };
    let mut bus: EventBus<i32> = EventBus::new();
    collision_system(&hurt, &hits, &narrow, &mut bus, Tick(3));
    // hurtbox 0 spans two cells but is tested once; hurtbox 1 has no cells; hitbox 1 has none either
    assert_eq!(calls.get(), 2);
    let got: Vec<(u32, u32, i32)> = bus
        .events()
        .iter()
        .map(|e| match e {
            EventPayload::Collision { attacker, defender, normal, .. } => (attacker.0, defender.0, *normal),
            _ => panic!("unexpected event"),
        })
        .collect();
    assert_eq!(got, vec![(1, 10, 0), (1, 12, 2)]);
}

#[test]
fn collision_system_hit_once_stops_at_first_confirmed_hit() {
    let hurt = vec![
        HurtEntry { entity: EntityId(20), layer: LayerBit::new(2), cells: cell(0, 0) },
        HurtEntry { entity: EntityId(21), layer: LayerBit::new(2), cells: cell(0, 0) },
        HurtEntry { entity: EntityId(22), layer: LayerBit::new(2), cells: cell(0, 0) },
    ];
    let hits = vec![HitEntry { entity: EntityId(5), group: CollisionMask::new(2), hit_once: true, cells: cell(0, 0) }];
    let calls = Cell::new(0u32);
    // the first candidate misses, the second hits: the third is never tested
    let narrow = |_i: usize, j: usize| -> Option<(u8, u8)> {
        calls.set(calls.get() + 1);
        if j == 0 { None } else { Some((0, 0)) }
    };
    let mut bus: EventBus<u8> = EventBus::new();
    collision_system(&hurt, &hits, &narrow, &mut bus, Tick(0));
    assert_eq!(calls.get(), 2);
    assert_eq!(bus.events().len(), 1);
    assert_eq!(bus.events()[0].secondary_entity(), Some(EntityId(21)));
}
