use vstd::prelude::*;

use crate::types::Tick;

verus! {

/// Execution priority for built-in engine behaviors.
/// Lower value → runs earlier within a phase.
pub const PRIORITY_BUILTIN: i32 = 0i32;

/// Default execution priority for user-registered systems.
/// Runs after [`PRIORITY_BUILTIN`] systems.
pub const PRIORITY_DEFAULT: i32 = 100i32;

/// A system paired with its execution priority.
///
/// Within a phase, entries are sorted by `priority` ascending; equal-priority entries
/// run in registration order (FIFO).
pub struct SystemEntry<S> {
    /// Execution priority. Lower value → runs earlier.
    /// Use [`PRIORITY_BUILTIN`] for engine behaviors and [`PRIORITY_DEFAULT`] for user systems.
    pub priority: i32,
    pub system: S,
}

/// The phases of the fixed-step game loop, in execution order.
///
/// Each core system is bracketed by a `Pre` phase (intent: *prepare for* the system)
/// and a `Post` phase (intent: *react to* what the system just did).
#[derive(Debug, Clone, Copy, PartialEq, Eq, PartialOrd, Ord, Structural)]
pub enum Phase {
    /// Start of tick; also serves as the implicit *pre-spawn-commit* phase.
    /// Queue spawn / despawn / mutation commands here — they are applied
    /// immediately after all `PreUpdate` systems finish.
    PreUpdate,
    /// After commands are applied (spawns, despawns, component mutations).
    PostSpawnCommit,
    /// Just before the movement system runs. Intent: reposition / pre-integrate.
    PreMovement,
    /// After the movement system integrates velocity → position. Intent: react to new positions.
    PostMovement,
    /// Just before the collision system runs. Intent: adjust hitboxes or cull pairs.
    PreCollision,
    /// After the collision system emits `Collision` events. Intent: respond to overlaps.
    PostCollision,
    /// Just before the lifetime system runs. Intent: queue late despawns.
    PreLifetime,
    /// After the lifetime system decrements counters and despawns expired entities.
    PostLifetime,
    /// Final phase before the tick counter is incremented.
    PostUpdate,
}

/// The tick reached and the number of events emitted by one frame step.
#[derive(Debug, Clone, Copy)]
pub struct StepResult {
    pub tick: Tick,
    pub event_count: usize,
}

/// Priorities never decrease along the list.
pub open spec fn sorted_by_priority<S>(entries: Seq<SystemEntry<S>>) -> bool {
    forall|i: int, j: int| 0 <= i <= j < entries.len() ==> entries[i].priority <= entries[j].priority
}

/// `after` is `before` with `entry` inserted behind every entry whose priority
/// is at most `entry.priority` and ahead of every entry whose priority is greater.
pub open spec fn inserted_by_priority<S>(before: Seq<SystemEntry<S>>, entry: SystemEntry<S>, after: Seq<SystemEntry<S>>) -> bool {
    exists|pos: int| {
        &&& 0 <= pos <= before.len()
        &&& after == before.insert(pos, entry)
        &&& forall|i: int| 0 <= i < pos ==> #[trigger] before[i].priority <= entry.priority
        &&& forall|i: int| pos <= i < before.len() ==> #[trigger] before[i].priority > entry.priority
    }
}

/// Inserts `entry` into a priority-sorted list, after every entry of equal or
/// lower priority, so equal priorities keep registration order.
pub fn insert_by_priority<S>(entries: &mut Vec<SystemEntry<S>>, entry: SystemEntry<S>)
    requires
        sorted_by_priority(old(entries)@),
    ensures
        sorted_by_priority(final(entries)@),
        inserted_by_priority(old(entries)@, entry, final(entries)@),
{
    let p = entry.priority;
    let ghost ent = entry;
    // Binary search for the first entry whose priority exceeds `p`.
    let mut lo: usize = 0;
    let mut hi: usize = entries.len();
    while lo < hi
        invariant
            0 <= lo <= hi <= entries@.len(),
            sorted_by_priority(entries@),
            forall|i: int| 0 <= i < lo ==> #[trigger] entries@[i].priority <= p,
            forall|i: int| hi <= i < entries@.len() ==> #[trigger] entries@[i].priority > p,
        decreases hi - lo,
    {
        let mid = lo + (hi - lo) / 2;
        if entries[mid].priority <= p {
            lo = mid + 1;
        } else {
            hi = mid;
        }
    }
    let ghost before = entries@;
    entries.insert(lo, entry);
    proof {
        let after = entries@;
        assert(after == before.insert(lo as int, ent));
        assert forall|i: int, j: int| 0 <= i <= j < after.len() implies after[i].priority <= after[j].priority by {
            let i2 = if i < lo { i } else { i - 1 };
            let j2 = if j < lo { j } else { j - 1 };
            if i != lo && j != lo {
                assert(after[i] == before[i2] && after[j] == before[j2]);
            } else if i == lo && j != lo {
                assert(after[j] == before[j2]);
            } else if i != lo && j == lo {
                assert(after[i] == before[i2]);
            }
        }
        assert(inserted_by_priority(before, ent, after));
    }
}

/// Registration keeps order among equal priorities: an entry already present
/// whose priority is at most the new entry's keeps its position, and the new
/// entry lands behind it; an entry of greater priority moves one place back
/// and stays behind the new entry.
pub proof fn lemma_insert_keeps_order<S>(before: Seq<SystemEntry<S>>, entry: SystemEntry<S>, after: Seq<SystemEntry<S>>, i: int)
    requires
        inserted_by_priority(before, entry, after),
        0 <= i < before.len(),
    ensures
        after.len() == before.len() + 1,
        before[i].priority <= entry.priority ==> after[i] == before[i] && exists|pos: int| i < pos < after.len() && after[pos] == entry,
        before[i].priority > entry.priority ==> after[i + 1] == before[i] && exists|pos: int| 0 <= pos <= i && after[pos] == entry,
{
    let pos = choose|pos: int| {
        &&& 0 <= pos <= before.len()
        &&& after == before.insert(pos, entry)
        &&& forall|k: int| 0 <= k < pos ==> #[trigger] before[k].priority <= entry.priority
        &&& forall|k: int| pos <= k < before.len() ==> #[trigger] before[k].priority > entry.priority
    };
    assert(after[pos] == entry);
    if before[i].priority <= entry.priority {
        assert(i < pos);
    } else {
        assert(pos <= i);
    }
}

/// One stage of a fixed-step frame: the systems registered for a phase, or
/// one of the engine's own steps.
#[derive(Debug, Clone, Copy, PartialEq, Eq, Structural)]
pub enum FrameStage {
    /// Clear the event bus of the previous frame.
    ClearEvents,
    /// Run the systems registered for a phase, in priority order.
    RunPhase(Phase),
    /// Apply the buffered commands.
    CommitCommands,
    /// Integrate velocities into positions.
    Movement,
    /// Detect collisions and emit their events.
    Collision,
    /// Let the attached script engine run its per-frame hook.
    ScriptFrame,
    /// Count lifetimes down and despawn expired entities.
    Lifetime,
    /// Advance the tick counter.
    AdvanceTick,
}

/// The stages of one frame, in execution order. `with_script` selects the
/// scripted application's frame: it runs the `PreUpdate` hooks before the
/// event bus is cleared, so they still see the previous frame's events, and
/// adds the script engine's hook after the collision phases. The runtime's own
/// frame clears the event bus first and has no script hook.
pub open spec fn frame_plan(with_script: bool) -> Seq<FrameStage> {
    (if with_script {
        seq![FrameStage::RunPhase(Phase::PreUpdate), FrameStage::ClearEvents]
    } else {
        seq![FrameStage::ClearEvents, FrameStage::RunPhase(Phase::PreUpdate)]
    }) + seq![
        FrameStage::CommitCommands,
        FrameStage::RunPhase(Phase::PostSpawnCommit),
        FrameStage::RunPhase(Phase::PreMovement),
        FrameStage::Movement,
        FrameStage::RunPhase(Phase::PostMovement),
        FrameStage::RunPhase(Phase::PreCollision),
        FrameStage::Collision,
        FrameStage::RunPhase(Phase::PostCollision),
    ] + (if with_script { seq![FrameStage::ScriptFrame] } else { Seq::empty() }) + seq![
        FrameStage::RunPhase(Phase::PreLifetime),
        FrameStage::Lifetime,
        FrameStage::RunPhase(Phase::PostLifetime),
        FrameStage::RunPhase(Phase::PostUpdate),
        FrameStage::AdvanceTick,
    ]
}

/// The position of a phase in the declared phase order.
pub open spec fn phase_rank(p: Phase) -> int {
    match p {
        Phase::PreUpdate => 0,
        Phase::PostSpawnCommit => 1,
        Phase::PreMovement => 2,
        Phase::PostMovement => 3,
        Phase::PreCollision => 4,
        Phase::PostCollision => 5,
        Phase::PreLifetime => 6,
        Phase::PostLifetime => 7,
        Phase::PostUpdate => 8,
    }
}

/// The first stage of a frame.
pub fn first_stage(with_script: bool) -> (r: FrameStage)
    ensures
        r == frame_plan(with_script)[0],
{
    if with_script {
        FrameStage::RunPhase(Phase::PreUpdate)
    } else {
        FrameStage::ClearEvents
    }
}

/// The stage that follows `stage` in a frame, or `None` after the last one.
pub fn next_stage(stage: FrameStage, with_script: bool) -> (r: Option<FrameStage>)
    requires
        frame_plan(with_script).contains(stage),
    ensures
        forall|i: int| 0 <= i < frame_plan(with_script).len() && #[trigger] frame_plan(with_script)[i] == stage ==> r == if i + 1 < frame_plan(with_script).len() {
            Some(frame_plan(with_script)[i + 1])
        } else {
            None::<FrameStage>
        },
{
    match stage {
        FrameStage::RunPhase(Phase::PreUpdate) => if with_script {
            Some(FrameStage::ClearEvents)
        } else {
            Some(FrameStage::CommitCommands)
        },
        FrameStage::ClearEvents => if with_script {
            Some(FrameStage::CommitCommands)
        } else {
            Some(FrameStage::RunPhase(Phase::PreUpdate))
        },
        FrameStage::CommitCommands => Some(FrameStage::RunPhase(Phase::PostSpawnCommit)),
        FrameStage::RunPhase(Phase::PostSpawnCommit) => Some(FrameStage::RunPhase(Phase::PreMovement)),
        FrameStage::RunPhase(Phase::PreMovement) => Some(FrameStage::Movement),
        FrameStage::Movement => Some(FrameStage::RunPhase(Phase::PostMovement)),
        FrameStage::RunPhase(Phase::PostMovement) => Some(FrameStage::RunPhase(Phase::PreCollision)),
        FrameStage::RunPhase(Phase::PreCollision) => Some(FrameStage::Collision),
        FrameStage::Collision => Some(FrameStage::RunPhase(Phase::PostCollision)),
        FrameStage::RunPhase(Phase::PostCollision) => if with_script {
            Some(FrameStage::ScriptFrame)
        } else {
            Some(FrameStage::RunPhase(Phase::PreLifetime))
        },
        FrameStage::ScriptFrame => Some(FrameStage::RunPhase(Phase::PreLifetime)),
        FrameStage::RunPhase(Phase::PreLifetime) => Some(FrameStage::Lifetime),
        FrameStage::Lifetime => Some(FrameStage::RunPhase(Phase::PostLifetime)),
        FrameStage::RunPhase(Phase::PostLifetime) => Some(FrameStage::RunPhase(Phase::PostUpdate)),
        FrameStage::RunPhase(Phase::PostUpdate) => Some(FrameStage::AdvanceTick),
        FrameStage::AdvanceTick => None,
    }
}

/// The frame order: the scripted application's frame starts with the
/// `PreUpdate` systems, which still see the previous frame's events, and then
/// clears the event bus; the runtime's own frame clears the event bus first
/// and then runs the `PreUpdate` systems. Either frame ends by advancing the
/// tick; every stage occurs once; the phases run in their declared order;
/// commands are applied after both of these and before `PostSpawnCommit`, and each
/// engine system runs between its own `Pre` and `Post` phase; the script hook
/// comes after `PostCollision` and before `PreLifetime`.
pub proof fn lemma_frame_order(with_script: bool)
    ensures
        frame_plan(with_script)[0] == if with_script { FrameStage::RunPhase(Phase::PreUpdate) } else { FrameStage::ClearEvents },
        frame_plan(with_script).last() == FrameStage::AdvanceTick,
        forall|i: int, j: int| 0 <= i < j < frame_plan(with_script).len() ==> frame_plan(with_script)[i] != frame_plan(with_script)[j],
        forall|p: Phase| #[trigger] frame_plan(with_script).contains(FrameStage::RunPhase(p)),
        forall|i: int, j: int|
            0 <= i < frame_plan(with_script).len() && 0 <= j < frame_plan(with_script).len()
                && (#[trigger] frame_plan(with_script)[i]) is RunPhase
                && (#[trigger] frame_plan(with_script)[j]) is RunPhase
                && phase_rank(frame_plan(with_script)[i]->RunPhase_0) < phase_rank(frame_plan(with_script)[j]->RunPhase_0) ==> i < j,
        frame_plan(with_script)[2] == FrameStage::CommitCommands,
        frame_plan(with_script)[1] == if with_script { FrameStage::ClearEvents } else { FrameStage::RunPhase(Phase::PreUpdate) },
        frame_plan(with_script)[3] == FrameStage::RunPhase(Phase::PostSpawnCommit),
        frame_plan(with_script)[4] == FrameStage::RunPhase(Phase::PreMovement),
        frame_plan(with_script)[5] == FrameStage::Movement,
        frame_plan(with_script)[6] == FrameStage::RunPhase(Phase::PostMovement),
        frame_plan(with_script)[7] == FrameStage::RunPhase(Phase::PreCollision),
        frame_plan(with_script)[8] == FrameStage::Collision,
        frame_plan(with_script)[9] == FrameStage::RunPhase(Phase::PostCollision),
        with_script ==> frame_plan(with_script)[10] == FrameStage::ScriptFrame,
        frame_plan(with_script).contains(FrameStage::ScriptFrame) == with_script,
        frame_plan(with_script)[frame_plan(with_script).len() - 5] == FrameStage::RunPhase(Phase::PreLifetime),
        frame_plan(with_script)[frame_plan(with_script).len() - 4] == FrameStage::Lifetime,
        frame_plan(with_script)[frame_plan(with_script).len() - 3] == FrameStage::RunPhase(Phase::PostLifetime),
        frame_plan(with_script)[frame_plan(with_script).len() - 2] == FrameStage::RunPhase(Phase::PostUpdate),
{
    let plan = frame_plan(with_script);
    let n = plan.len();
    let off: int = if with_script { 1 } else { 0 };
    assert(n == 15 + off);
    // The position of each stage, read off the plan.
    let pos = |st: FrameStage| -> int {
        match st {
            FrameStage::ClearEvents => if with_script { 1 } else { 0 },
            FrameStage::RunPhase(p) => match p {
                Phase::PreUpdate => if with_script { 0 } else { 1 },
                Phase::PostSpawnCommit => 3,
                Phase::PreMovement => 4,
                Phase::PostMovement => 6,
                Phase::PreCollision => 7,
                Phase::PostCollision => 9,
                Phase::PreLifetime => 10 + off,
                Phase::PostLifetime => 12 + off,
                Phase::PostUpdate => 13 + off,
            },
            FrameStage::CommitCommands => 2,
            FrameStage::Movement => 5,
            FrameStage::Collision => 8,
            FrameStage::ScriptFrame => 10,
            FrameStage::Lifetime => 11 + off,
            FrameStage::AdvanceTick => 14 + off,
        }
    };
    assert forall|i: int| 0 <= i < n implies pos(#[trigger] plan[i]) == i by {
        if with_script {
            assert(plan[i] == seq![
                FrameStage::RunPhase(Phase::PreUpdate),
                FrameStage::ClearEvents,
                FrameStage::CommitCommands,
                FrameStage::RunPhase(Phase::PostSpawnCommit),
                FrameStage::RunPhase(Phase::PreMovement),
                FrameStage::Movement,
                FrameStage::RunPhase(Phase::PostMovement),
                FrameStage::RunPhase(Phase::PreCollision),
                FrameStage::Collision,
                FrameStage::RunPhase(Phase::PostCollision),
                FrameStage::ScriptFrame,
                FrameStage::RunPhase(Phase::PreLifetime),
                FrameStage::Lifetime,
                FrameStage::RunPhase(Phase::PostLifetime),
                FrameStage::RunPhase(Phase::PostUpdate),
                FrameStage::AdvanceTick,
            ][i]);
        } else {
            assert(plan[i] == seq![
                FrameStage::ClearEvents,
                FrameStage::RunPhase(Phase::PreUpdate),
                FrameStage::CommitCommands,
                FrameStage::RunPhase(Phase::PostSpawnCommit),
                FrameStage::RunPhase(Phase::PreMovement),
                FrameStage::Movement,
                FrameStage::RunPhase(Phase::PostMovement),
                FrameStage::RunPhase(Phase::PreCollision),
                FrameStage::Collision,
                FrameStage::RunPhase(Phase::PostCollision),
                FrameStage::RunPhase(Phase::PreLifetime),
                FrameStage::Lifetime,
                FrameStage::RunPhase(Phase::PostLifetime),
                FrameStage::RunPhase(Phase::PostUpdate),
                FrameStage::AdvanceTick,
            ][i]);
        }
    }
    assert forall|p: Phase| #[trigger] plan.contains(FrameStage::RunPhase(p)) by {
        let k = pos(FrameStage::RunPhase(p));
        assert(plan[k] == FrameStage::RunPhase(p)) by {
            assert(pos(plan[k]) == k);
        }
    }
    if !with_script {
        assert forall|i: int| 0 <= i < n implies plan[i] != FrameStage::ScriptFrame by {
            assert(pos(plan[i]) == i);
        }
    } else {
        assert(plan[10] == FrameStage::ScriptFrame);
    }
}

/// Holds systems called at specific phases of a frame step.
///
/// Each phase stores a priority-sorted list of [`SystemEntry`] values.  Lower
/// `priority` → runs earlier; equal-priority systems run in registration order (FIFO).
pub struct Scheduler<S> {
    pre_update: Vec<SystemEntry<S>>,
    post_spawn_commit: Vec<SystemEntry<S>>,
    pre_movement: Vec<SystemEntry<S>>,
    post_movement: Vec<SystemEntry<S>>,
    pre_collision: Vec<SystemEntry<S>>,
    post_collision: Vec<SystemEntry<S>>,
    pre_lifetime: Vec<SystemEntry<S>>,
    post_lifetime: Vec<SystemEntry<S>>,
    post_update: Vec<SystemEntry<S>>,
}

impl<S> Scheduler<S> {
    /// The entries registered for `phase`, in execution order.
    pub closed spec fn entries(&self, phase: Phase) -> Seq<SystemEntry<S>> {
        match phase {
            Phase::PreUpdate => self.pre_update@,
            Phase::PostSpawnCommit => self.post_spawn_commit@,
            Phase::PreMovement => self.pre_movement@,
            Phase::PostMovement => self.post_movement@,
            Phase::PreCollision => self.pre_collision@,
            Phase::PostCollision => self.post_collision@,
            Phase::PreLifetime => self.pre_lifetime@,
            Phase::PostLifetime => self.post_lifetime@,
            Phase::PostUpdate => self.post_update@,
        }
    }

    /// Every phase's list is sorted by priority.
    pub open spec fn wf(&self) -> bool {
        forall|phase: Phase| #[trigger] sorted_by_priority(self.entries(phase))
    }

    pub fn new() -> (r: Self)
        ensures
            r.wf(),
            forall|phase: Phase| r.entries(phase) == Seq::<SystemEntry<S>>::empty(),
    {
        Scheduler {
            pre_update: Vec::new(),
            post_spawn_commit: Vec::new(),
            pre_movement: Vec::new(),
            post_movement: Vec::new(),
            pre_collision: Vec::new(),
            post_collision: Vec::new(),
            pre_lifetime: Vec::new(),
            post_lifetime: Vec::new(),
            post_update: Vec::new(),
        }
    }

    /// Registers a system to run at the given `phase` with the specified `priority`.
    ///
    /// Lower priority value → runs earlier.  Equal-priority systems run in
    /// registration order (FIFO).
    pub fn add_system(&mut self, phase: Phase, priority: i32, system: S)
        requires
            old(self).wf(),
        ensures
            final(self).wf(),
            inserted_by_priority(old(self).entries(phase), SystemEntry { priority, system }, final(self).entries(phase)),
            forall|other: Phase| other != phase ==> final(self).entries(other) == old(self).entries(other),
    {
        let entries = self.entries_mut(phase);
        insert_by_priority(entries, SystemEntry { priority, system });
    }

    /// The list of `phase`, for running its systems in order.
    pub fn entries_mut(&mut self, phase: Phase) -> (r: &mut Vec<SystemEntry<S>>)
        ensures
            r@ == old(self).entries(phase),
            final(self).entries(phase) == final(r)@,
            forall|other: Phase| other != phase ==> final(self).entries(other) == old(self).entries(other),
    {
        match phase {
            Phase::PreUpdate => &mut self.pre_update,
            Phase::PostSpawnCommit => &mut self.post_spawn_commit,
            Phase::PreMovement => &mut self.pre_movement,
            Phase::PostMovement => &mut self.post_movement,
            Phase::PreCollision => &mut self.pre_collision,
            Phase::PostCollision => &mut self.post_collision,
            Phase::PreLifetime => &mut self.pre_lifetime,
            Phase::PostLifetime => &mut self.post_lifetime,
            Phase::PostUpdate => &mut self.post_update,
        }
    }
}

impl<S> Default for Scheduler<S> {
    fn default() -> (r: Self)
        ensures
            r.wf(),
            forall|phase: Phase| r.entries(phase) == Seq::<SystemEntry<S>>::empty(),
    {
        Self::new()
    }
}

} // verus!
