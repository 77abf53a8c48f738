use evernight::benchmark::{AppFrameProfile, FrameProfile, ProfileAccumulator, Stats, WorldFrameProfile};

#[test]
fn stats_from_sorted_picks_percentiles() {
    let s = Stats::from_sorted(&[10, 20, 30, 40]);
    assert_eq!(s.min, 10);
    assert_eq!(s.max, 40);
    assert_eq!(s.mean, 25);
    assert_eq!(s.p50, 20);
    assert_eq!(s.p95, 40);
    assert_eq!(s.p99, 40);
}

#[test]
fn stats_from_single_sample() {
    let s = Stats::from_sorted(&[7]);
    assert_eq!((s.min, s.max, s.mean, s.p50, s.p95, s.p99), (7, 7, 7, 7, 7, 7));
}

#[test]
fn stats_mean_rounds_down() {
    let v: Vec<u128> = (1..=100).collect();
    let s = Stats::from_sorted(&v);
    assert_eq!(s.mean, 50);
    assert_eq!(s.p50, 50);
    assert_eq!(s.p95, 95);
    assert_eq!(s.p99, 99);
}

#[test]
fn world_profile_lists_phases_in_order_and_sums() {
    let p = WorldFrameProfile { pre_update: 1, movement: 4, post_update: 9, ..Default::default() };
    let phases = p.phases();
    assert_eq!(phases.len(), 13);
    assert_eq!(phases[0], ("pre_update", 1));
    assert_eq!(phases[4], ("movement", 4));
    assert_eq!(phases[12], ("post_update", 9));
    assert_eq!(p.total(), 14);
}

#[test]
fn app_profile_has_script_phase() {
    let p = AppFrameProfile { script_on_frame: 3, post_collision: 2, ..Default::default() };
    let phases = p.phases();
    assert_eq!(phases.len(), 14);
    assert_eq!(phases[8], ("post_collision", 2));
    assert_eq!(phases[9], ("script_on_frame", 3));
    assert_eq!(p.total(), 5);
}

#[test]
fn accumulator_computes_phase_and_total_stats() {
    let mut acc: ProfileAccumulator<WorldFrameProfile> = ProfileAccumulator::new();
    assert!(acc.is_empty());
    assert!(acc.phase_stats().is_empty());
    for (m, c) in [(30u128, 5u128), (10, 1), (20, 3)] {
        acc.push(WorldFrameProfile { movement: m, collision: c, ..Default::default() });
    }
    assert_eq!(acc.len(), 3);
    assert!(!acc.is_empty());
    let ps = acc.phase_stats();
    assert_eq!(ps.len(), 13);
    let (name, movement) = &ps[4];
    assert_eq!(*name, "movement");
    assert_eq!((movement.min, movement.max, movement.mean, movement.p50), (10, 30, 20, 20));
    let (name, collision) = &ps[7];
    assert_eq!(*name, "collision");
    assert_eq!((collision.min, collision.max, collision.mean), (1, 5, 3));
    let total = acc.total_stats();
    assert_eq!((total.min, total.max, total.mean, total.p50, total.p99), (11, 35, 23, 23, 35));
}

#[test]
fn accumulator_default_is_empty() {
    let acc: ProfileAccumulator<AppFrameProfile> = ProfileAccumulator::default();
    assert_eq!(acc.len(), 0);
}
