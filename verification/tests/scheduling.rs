use evernight::scheduler::{
    first_stage, insert_by_priority, next_stage, FrameStage, Phase, Scheduler, SystemEntry, PRIORITY_BUILTIN,
    PRIORITY_DEFAULT,
};

fn names(s: &mut Scheduler<&'static str>, phase: Phase) -> Vec<&'static str> {
    s.entries_mut(phase).iter().map(|e| e.system).collect()
}

#[test]
fn scheduler_runs_lower_priority_first() {
    let mut s: Scheduler<&'static str> = Scheduler::new();
    s.add_system(Phase::PostMovement, PRIORITY_DEFAULT, "user");
    s.add_system(Phase::PostMovement, PRIORITY_BUILTIN, "builtin");
    s.add_system(Phase::PostMovement, 50, "middle");
    assert_eq!(names(&mut s, Phase::PostMovement), vec!["builtin", "middle", "user"]);
    assert!(names(&mut s, Phase::PreMovement).is_empty());
}

#[test]
fn scheduler_equal_priority_is_fifo() {
    let mut s: Scheduler<&'static str> = Scheduler::default();
    s.add_system(Phase::PostCollision, PRIORITY_DEFAULT, "a");
    s.add_system(Phase::PostCollision, PRIORITY_DEFAULT, "b");
    s.add_system(Phase::PostCollision, PRIORITY_BUILTIN, "c");
    s.add_system(Phase::PostCollision, PRIORITY_DEFAULT, "d");
    assert_eq!(names(&mut s, Phase::PostCollision), vec!["c", "a", "b", "d"]);
}

#[test]
fn insert_by_priority_places_after_equal() {
    let mut v = vec![
        SystemEntry { priority: 0, system: 'a' },
        SystemEntry { priority: 5, system: 'b' },
        SystemEntry { priority: 9, system: 'c' },
    ];
    insert_by_priority(&mut v, SystemEntry { priority: 5, system: 'x' });
    insert_by_priority(&mut v, SystemEntry { priority: -1, system: 'y' });
    insert_by_priority(&mut v, SystemEntry { priority: 10, system: 'z' });
    let order: Vec<char> = v.iter().map(|e| e.system).collect();
    assert_eq!(order, vec!['y', 'a', 'b', 'x', 'c', 'z']);
}

fn walk(with_script: bool) -> Vec<FrameStage> {
    let mut out = vec![first_stage(with_script)];
    while let Some(next) = next_stage(*out.last().unwrap(), with_script) {
        out.push(next);
    }
    out
}

#[test]
fn frame_plan_runs_phases_in_declared_order() {
    let stages = walk(false);
    assert_eq!(
        stages,
        vec![
            FrameStage::ClearEvents,
            FrameStage::RunPhase(Phase::PreUpdate),
            FrameStage::CommitCommands,
            FrameStage::RunPhase(Phase::PostSpawnCommit),
            FrameStage::RunPhase(Phase::PreMovement),
            FrameStage::Movement,
            FrameStage::RunPhase(Phase::PostMovement),
            FrameStage::RunPhase(Phase::PreCollision),
            FrameStage::Collision,
            FrameStage::RunPhase(Phase::PostCollision),
            FrameStage::RunPhase(Phase::PreLifetime),
            FrameStage::Lifetime,
            FrameStage::RunPhase(Phase::PostLifetime),
            FrameStage::RunPhase(Phase::PostUpdate),
            FrameStage::AdvanceTick,
        ]
    );
}

#[test]
fn frame_plan_with_script_hooks_after_collision() {
    let stages = walk(true);
    assert_eq!(stages.len(), 16);
    let script = stages.iter().position(|s| *s == FrameStage::ScriptFrame).unwrap();
    assert_eq!(stages[script - 1], FrameStage::RunPhase(Phase::PostCollision));
    assert_eq!(stages[script + 1], FrameStage::RunPhase(Phase::PreLifetime));
    assert_eq!(*stages.last().unwrap(), FrameStage::AdvanceTick);
}

#[test]
fn scripted_frame_runs_pre_update_before_clearing_events() {
    let stages = walk(true);
    assert_eq!(stages[0], FrameStage::RunPhase(Phase::PreUpdate));
    assert_eq!(stages[1], FrameStage::ClearEvents);
    assert_eq!(stages[2], FrameStage::CommitCommands);
}

#[test]
fn phases_order_as_declared() {
    assert!(Phase::PreUpdate < Phase::PostSpawnCommit);
    assert!(Phase::PostLifetime < Phase::PostUpdate);
}
