use evernight::command::{DespawnRequest, SpawnRequest};
use evernight::commands::{Command, CommandBuffer};
use evernight::id_allocator::IdAllocator;
use evernight::types::{
    flag_name_to_flags, CollisionMask, EntityId, EverNightError, Handle, LayerBit, TagFlags, Tick,
};

#[test]
fn entity_id_and_tick_round_trip() {
    assert_eq!(EntityId::new(42).as_u32(), 42);
    assert_eq!(Tick::new(7).as_u32(), 7);
    assert_eq!(EntityId::new(3), EntityId(3));
}

#[test]
fn layer_bit_sets_one_bit_per_layer() {
    assert_eq!(LayerBit::new(0).as_u32(), 1);
    assert_eq!(LayerBit::new(5).as_u32(), 32);
    assert_eq!(LayerBit::new(31).as_u32(), 0x8000_0000);
    assert_eq!(LayerBit::empty().as_u32(), 0);
}

#[test]
fn layer_bit_union_and_contains() {
    let both = LayerBit::new(1) | LayerBit::new(3);
    assert_eq!(both.as_u32(), 0b1010);
    assert!(both.contains(LayerBit::new(3)));
    assert!(!both.contains(LayerBit::new(2)));
    assert!(!LayerBit::empty().contains(LayerBit::new(0)));
}

#[test]
fn collision_mask_collides_with_matching_layer_only() {
    let mask = CollisionMask::new(1) | CollisionMask::new(4);
    assert_eq!(mask.as_u32(), 0b10010);
    assert!(mask.collides_with(LayerBit::new(1)));
    assert!(mask.collides_with(LayerBit::new(4)));
    assert!(!mask.collides_with(LayerBit::new(2)));
    assert!(!CollisionMask::empty().collides_with(LayerBit::new(1)));
}

#[test]
fn handle_carries_its_id() {
    let h: Handle<String> = Handle::new(9);
    let copy = h;
    assert_eq!(h.id(), 9);
    assert_eq!(copy.as_u32(), 9);
}

#[test]
fn tag_flags_constants_are_distinct_bits() {
    let all = [
        TagFlags::player(),
        TagFlags::enemy(),
        TagFlags::player_bullet(),
        TagFlags::enemy_bullet(),
        TagFlags::pickup(),
        TagFlags::boss(),
        TagFlags::invincible(),
        TagFlags::graze(),
    ];
    for (i, a) in all.iter().enumerate() {
        assert_eq!(a.0.count_ones(), 1);
        for b in all.iter().skip(i + 1) {
            assert_eq!(a.0 & b.0, 0);
        }
    }
    assert_eq!(TagFlags::none().0, 0);
}

#[test]
fn tag_flags_has_requires_every_bit() {
    let f = TagFlags::player().union(TagFlags::boss());
    assert!(f.has(TagFlags::player()));
    assert!(f.has(TagFlags::boss()));
    assert!(f.has(TagFlags::player().union(TagFlags::boss())));
    assert!(!f.has(TagFlags::player().union(TagFlags::enemy())));
    assert!(f.has(TagFlags::none()));
    let g = f.without(TagFlags::player());
    assert!(!g.has(TagFlags::player()));
    assert!(g.has(TagFlags::boss()));
}

#[test]
fn flag_names_map_to_flags() {
    assert_eq!(flag_name_to_flags("player").map(|f| f.0), Some(TagFlags::player().0));
    assert_eq!(flag_name_to_flags("enemy").map(|f| f.0), Some(TagFlags::enemy().0));
    assert_eq!(flag_name_to_flags("player_bullet").map(|f| f.0), Some(TagFlags::player_bullet().0));
    assert_eq!(flag_name_to_flags("enemy_bullet").map(|f| f.0), Some(TagFlags::enemy_bullet().0));
    assert_eq!(flag_name_to_flags("pickup").map(|f| f.0), Some(TagFlags::pickup().0));
    assert_eq!(flag_name_to_flags("boss").map(|f| f.0), Some(TagFlags::boss().0));
    assert_eq!(flag_name_to_flags("invincible").map(|f| f.0), Some(TagFlags::invincible().0));
    assert_eq!(flag_name_to_flags("graze").map(|f| f.0), Some(TagFlags::graze().0));
    assert!(flag_name_to_flags("Player").is_none());
    assert!(flag_name_to_flags("").is_none());
    assert!(flag_name_to_flags("unknown").is_none());
}

#[test]
fn allocator_starts_at_one_and_counts_up() {
    let mut a = IdAllocator::new();
    assert_eq!(a.allocate().unwrap(), EntityId(1));
    assert_eq!(a.allocate().unwrap(), EntityId(2));
    assert_eq!(a.allocate().unwrap(), EntityId(3));
    assert!(a.is_valid(EntityId(2)));
    assert!(!a.is_valid(EntityId(0)));
    assert!(!a.is_valid(EntityId(4)));
}

#[test]
fn allocator_recycles_last_released_id_first() {
    let mut a = IdAllocator::default();
    let e1 = a.allocate().unwrap();
    let e2 = a.allocate().unwrap();
    let _e3 = a.allocate().unwrap();
    a.deallocate(e1).unwrap();
    a.deallocate(e2).unwrap();
    assert!(!a.is_valid(e1));
    assert_eq!(a.allocate().unwrap(), e2);
    assert_eq!(a.allocate().unwrap(), e1);
    assert_eq!(a.allocate().unwrap(), EntityId(4));
}

#[test]
fn allocator_refuses_double_release() {
    let mut a = IdAllocator::new();
    let e = a.allocate().unwrap();
    assert!(a.deallocate(e).is_ok());
    assert_eq!(a.deallocate(e), Err(EverNightError::InvalidEntityId(e)));
}

#[test]
fn spawn_request_builder_keeps_components_in_order() {
    let r = SpawnRequest::new().add_component("Transform", vec![1, 2]).add_component("Velocity", vec![]);
    assert_eq!(r.template_id(), None);
    let comps = r.components();
    assert_eq!(comps.len(), 2);
    assert_eq!(comps[0].0, "Transform");
    assert_eq!(comps[0].1, vec![1, 2]);
    assert_eq!(comps[1].0, "Velocity");
    let names: Vec<&str> = r.components_iter().map(|(n, _)| n.as_str()).collect();
    assert_eq!(names, vec!["Transform", "Velocity"]);
}

#[test]
fn spawn_request_with_template_and_default() {
    let r = SpawnRequest::with_template(5);
    assert_eq!(r.template_id(), Some(5));
    assert!(r.components().is_empty());
    let d = SpawnRequest::default();
    assert_eq!(d.template_id(), None);
    assert!(d.components().is_empty());
}

#[test]
fn despawn_request_names_its_entity() {
    let r = DespawnRequest::new(EntityId(12));
    assert_eq!(r.entity(), EntityId(12));
}

#[test]
fn command_buffer_drains_in_push_order() {
    let mut buf: CommandBuffer<u8> = CommandBuffer::new();
    buf.push(Command::Despawn(EntityId(1)));
    buf.push(Command::Spawn { entity: EntityId(2), request: SpawnRequest::new() });
    let drained = buf.drain();
    assert_eq!(drained.len(), 2);
    assert!(matches!(drained[0], Command::Despawn(EntityId(1))));
    assert!(matches!(drained[1], Command::Spawn { entity: EntityId(2), .. }));
    assert!(buf.drain().is_empty());
}

#[test]
fn command_buffer_clear_drops_pending() {
    let mut buf: CommandBuffer<u8> = CommandBuffer::default();
    buf.push(Command::Despawn(EntityId(1)));
    buf.clear();
    assert!(buf.drain().is_empty());
}
