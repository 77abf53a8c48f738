use evernight::components::{Lifetime, Tag};
use evernight::input::InputSnapshot;
use evernight::types::{TagFlags, Tick};

#[test]
fn input_set_and_query_each_state() {
    let mut input = InputSnapshot::new();
    assert!(!input.is_pressed("fire"));
    input.set_pressed("fire", true);
    input.set_just_pressed("fire", true);
    input.set_just_released("bomb", true);
    assert!(input.is_pressed("fire"));
    assert!(input.is_just_pressed("fire"));
    assert!(!input.is_just_released("fire"));
    assert!(input.is_just_released("bomb"));
    assert!(!input.is_pressed("bomb"));
}

#[test]
fn input_release_clears_pressed() {
    let mut input = InputSnapshot::default();
    input.set_pressed("left", true);
    input.set_pressed("left", true);
    input.set_pressed("left", false);
    assert!(!input.is_pressed("left"));
    input.set_just_pressed("left", true);
    input.set_just_pressed("left", false);
    assert!(!input.is_just_pressed("left"));
}

#[test]
fn input_clear_transients_keeps_held_actions() {
    let mut input = InputSnapshot::new();
    input.set_pressed("up", true);
    input.set_just_pressed("up", true);
    input.set_just_released("down", true);
    input.clear_transients();
    assert!(input.is_pressed("up"));
    assert!(!input.is_just_pressed("up"));
    assert!(!input.is_just_released("down"));
}

#[test]
fn lifetime_counts_down_to_zero_and_stays() {
    let mut l = Lifetime::new(Tick::new(2));
    assert!(!l.is_expired());
    assert!(!l.count_down());
    assert_eq!(l.remaining.as_u32(), 1);
    assert!(l.count_down());
    assert_eq!(l.remaining.as_u32(), 0);
    assert!(l.is_expired());
    assert!(l.count_down());
    assert_eq!(l.remaining.as_u32(), 0);
}

#[test]
fn lifetime_default_is_expired() {
    let l = Lifetime::default();
    assert!(l.is_expired());
    assert_eq!(l.remaining, Tick(0));
}

#[test]
fn tag_flags_add_and_remove() {
    let mut tag = Tag::new(TagFlags::enemy());
    assert!(tag.has_flag(TagFlags::enemy()));
    assert!(!tag.has_flag(TagFlags::boss()));
    tag.add_flag(TagFlags::boss());
    assert!(tag.has_flag(TagFlags::boss()));
    assert!(tag.has_flag(TagFlags::enemy().union(TagFlags::boss())));
    tag.remove_flag(TagFlags::enemy());
    assert!(!tag.has_flag(TagFlags::enemy()));
    assert!(tag.has_flag(TagFlags::boss()));
}

#[test]
fn tag_custom_ids_add_remove_query() {
    let mut tag = Tag::new(TagFlags::none());
    assert!(!tag.has_custom(3));
    tag.add_custom(3);
    tag.add_custom(7);
    assert!(tag.has_custom(3));
    assert!(tag.has_custom(7));
    tag.remove_custom(3);
    assert!(!tag.has_custom(3));
    assert!(tag.has_custom(7));
    assert_eq!(tag.custom.iter().copied().collect::<Vec<u32>>(), vec![7]);
}
