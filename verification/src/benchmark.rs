use std::time::Instant;
use vstd::prelude::*;

verus! {

// ── Statistics ────────────────────────────────────────────────────────────────

/// The sum of a list of durations (in nanoseconds).
pub open spec fn total_of(s: Seq<u128>) -> int
    decreases s.len(),
{
    if s.len() == 0 {
        0
    } else {
        total_of(s.drop_last()) + s.last()
    }
}

/// The values never decrease along the list.
pub open spec fn ascending(s: Seq<u128>) -> bool {
    forall|i: int, j: int| 0 <= i <= j < s.len() ==> s[i] <= s[j]
}

/// The position of percentile `pct` in an ascending list of `n` samples:
/// `(n * pct - 1) / 100`, with `n * pct - 1` held at 0.
pub open spec fn percentile_index(n: int, pct: int) -> int {
    (if n * pct >= 1 { n * pct - 1 } else { 0 }) / 100
}

/// Descriptive statistics for a set of duration samples, in nanoseconds.
#[derive(Debug, Clone)]
pub struct Stats {
    pub min: u128,
    pub max: u128,
    pub mean: u128,
    pub p50: u128,
    pub p95: u128,
    pub p99: u128,
}

/// The statistics of an ascending, non-empty list of samples: the extremes,
/// the mean rounded down and the samples at the 50th, 95th and 99th
/// percentile positions.
pub open spec fn stats_of(s: Seq<u128>) -> Stats {
    let n = s.len() as int;
    Stats {
        min: s[0],
        max: s[n - 1],
        mean: (total_of(s) / n) as u128,
        p50: s[percentile_index(n, 50)],
        p95: s[percentile_index(n, 95)],
        p99: s[percentile_index(n, 99)],
    }
}

proof fn lemma_percentile_in_range(n: int, pct: int)
    requires
        1 <= n,
        1 <= pct <= 100,
    ensures
        0 <= percentile_index(n, pct) < n,
{
    assert(n * pct >= 1) by (nonlinear_arith)
        requires
            1 <= n,
            1 <= pct,
    ;
    assert(n * pct <= n * 100) by (nonlinear_arith)
        requires
            1 <= n,
            pct <= 100,
    ;
}

/// Index of percentile `pct` in a list of `n` samples.
fn percentile_at(n: usize, pct: u64) -> (r: usize)
    requires
        1 <= n <= u32::MAX,
        1 <= pct <= 100,
    ensures
        r == percentile_index(n as int, pct as int),
        r < n,
{
    proof {
        lemma_percentile_in_range(n as int, pct as int);
        assert((n as int) * (pct as int) <= 100 * 0xffff_ffff) by (nonlinear_arith)
            requires
                n <= 0xffff_ffff,
                pct <= 100,
        ;
    }
    let scaled: u64 = (n as u64) * pct;
    let idx: u64 = scaled.saturating_sub(1) / 100;
    idx as usize
}

impl Stats {
    /// Computes stats from a **sorted** (ascending), non-empty slice.
    pub fn from_sorted(sorted: &[u128]) -> (r: Stats)
        requires
            sorted@.len() > 0,
            sorted@.len() <= u32::MAX,
            total_of(sorted@) <= u128::MAX,
        ensures
            r == stats_of(sorted@),
    {
        let n = sorted.len();
        let mut sum: u128 = 0;
        let mut i: usize = 0;
        while i < n
            invariant
                n == sorted@.len(),
                i <= n,
                sum == total_of(sorted@.take(i as int)),
                total_of(sorted@) <= u128::MAX,
            decreases n - i,
        {
            proof {
                assert(sorted@.take(i + 1).drop_last() =~= sorted@.take(i as int));
                lemma_total_prefix_bounded(sorted@, i + 1);
            }
            sum = sum + sorted[i];
            i = i + 1;
        }
        proof {
            assert(sorted@.take(n as int) =~= sorted@);
        }
        Stats {
            min: sorted[0],
            max: sorted[n - 1],
            mean: sum / (n as u128),
            p50: sorted[percentile_at(n, 50)],
            p95: sorted[percentile_at(n, 95)],
            p99: sorted[percentile_at(n, 99)],
        }
    }
}

/// A prefix of a list of durations sums to at most the whole list.
proof fn lemma_total_prefix_bounded(s: Seq<u128>, k: int)
    requires
        0 <= k <= s.len(),
    ensures
        total_of(s.take(k)) <= total_of(s),
    decreases s.len() - k,
{
    if k < s.len() {
        lemma_total_prefix_bounded(s, k + 1);
        assert(s.take(k + 1).drop_last() =~= s.take(k));
    } else {
        assert(s.take(k) =~= s);
    }
}

/// The longest duration `std::time::Duration` holds, in nanoseconds.
pub open spec fn max_duration_nanos() -> int {
    0xffff_ffff_ffff_ffffint * 1_000_000_000int + 999_999_999int
}

/// Every sample is a duration that `std::time::Duration` can hold.
pub open spec fn durations_in_range(s: Seq<u128>) -> bool {
    forall|i: int| 0 <= i < s.len() ==> #[trigger] s[i] <= max_duration_nanos()
}

/// Samples bounded by `max_duration_nanos` sum to at most their count times it.
proof fn lemma_total_bounded(s: Seq<u128>)
    requires
        durations_in_range(s),
    ensures
        total_of(s) <= s.len() * max_duration_nanos(),
        0 <= total_of(s),
    decreases s.len(),
{
    if s.len() > 0 {
        lemma_total_bounded(s.drop_last());
        assert(s.drop_last().len() * max_duration_nanos() + max_duration_nanos() == s.len() * max_duration_nanos()) by (nonlinear_arith)
            requires
                s.drop_last().len() + 1 == s.len(),
        ;
    }
}

/// Sorts durations ascending (`<[u128]>::sort`): the result is ascending and
/// holds the same samples.
#[verifier::external_body]
fn sort_durations(v: &mut Vec<u128>)
    ensures
        ascending(final(v)@),
        final(v)@.to_multiset() == old(v)@.to_multiset(),
{
    v.sort();
}

// ── Frame profiles ────────────────────────────────────────────────────────────

/// The durations of a list of `(phase, nanoseconds)` pairs.
pub open spec fn durations(phases: Seq<(&'static str, u128)>) -> Seq<u128> {
    phases.map_values(|p: (&'static str, u128)| p.1)
}

/// A per-frame timing breakdown whose phases can be listed.
pub trait FrameProfile: Sized {
    /// The phases, in execution order, with their durations in nanoseconds.
    spec fn spec_phases(&self) -> Seq<(&'static str, u128)>;

    /// Returns all phases as `(name, nanoseconds)` pairs in execution order.
    fn phases(&self) -> (r: Vec<(&'static str, u128)>)
        ensures
            r@ == self.spec_phases(),
    ;

    /// Sum of all phase durations.
    fn total(&self) -> (r: u128)
        requires
            total_of(durations(self.spec_phases())) <= u128::MAX,
        ensures
            r == total_of(durations(self.spec_phases())),
    {
        let phases = self.phases();
        let ghost d = durations(phases@);
        let mut sum: u128 = 0;
        let mut i: usize = 0;
        while i < phases.len()
            invariant
                i <= phases@.len(),
                d == durations(phases@),
                d.len() == phases@.len(),
                sum == total_of(d.take(i as int)),
                total_of(d) <= u128::MAX,
            decreases phases@.len() - i,
        {
            proof {
                assert(d.take(i + 1).drop_last() =~= d.take(i as int));
                lemma_total_prefix_bounded(d, i + 1);
                assert(d[i as int] == phases@[i as int].1);
            }
            sum = sum + phases[i].1;
            i = i + 1;
        }
        proof {
            assert(d.take(i as int) =~= d);
        }
        sum
    }
}

/// Per-phase timing breakdown for a single profiled world step, in nanoseconds.
#[derive(Debug, Default, Clone)]
pub struct WorldFrameProfile {
    pub pre_update: u128,
    pub spawn_commit: u128,
    pub post_spawn_commit: u128,
    pub pre_movement: u128,
    pub movement: u128,
    pub post_movement: u128,
    pub pre_collision: u128,
    pub collision: u128,
    pub post_collision: u128,
    pub pre_lifetime: u128,
    pub lifetime: u128,
    pub post_lifetime: u128,
    pub post_update: u128,
}

/// Per-phase timing breakdown for a single profiled application step, in
/// nanoseconds; it adds `script_on_frame` between `post_collision` and
/// `pre_lifetime` to capture the scripting engine cost.
#[derive(Debug, Default, Clone)]
pub struct AppFrameProfile {
    pub pre_update: u128,
    pub spawn_commit: u128,
    pub post_spawn_commit: u128,
    pub pre_movement: u128,
    pub movement: u128,
    pub post_movement: u128,
    pub pre_collision: u128,
    pub collision: u128,
    pub post_collision: u128,
    pub script_on_frame: u128,
    pub pre_lifetime: u128,
    pub lifetime: u128,
    pub post_lifetime: u128,
    pub post_update: u128,
}

impl FrameProfile for WorldFrameProfile {
    open spec fn spec_phases(&self) -> Seq<(&'static str, u128)> {
        seq![
            ("pre_update", self.pre_update),
            ("spawn_commit", self.spawn_commit),
            ("post_spawn_commit", self.post_spawn_commit),
            ("pre_movement", self.pre_movement),
            ("movement", self.movement),
            ("post_movement", self.post_movement),
            ("pre_collision", self.pre_collision),
            ("collision", self.collision),
            ("post_collision", self.post_collision),
            ("pre_lifetime", self.pre_lifetime),
            ("lifetime", self.lifetime),
            ("post_lifetime", self.post_lifetime),
            ("post_update", self.post_update),
        ]
    }

    fn phases(&self) -> (r: Vec<(&'static str, u128)>) {
        let r = vec![
            ("pre_update", self.pre_update),
            ("spawn_commit", self.spawn_commit),
            ("post_spawn_commit", self.post_spawn_commit),
            ("pre_movement", self.pre_movement),
            ("movement", self.movement),
            ("post_movement", self.post_movement),
            ("pre_collision", self.pre_collision),
            ("collision", self.collision),
            ("post_collision", self.post_collision),
            ("pre_lifetime", self.pre_lifetime),
            ("lifetime", self.lifetime),
            ("post_lifetime", self.post_lifetime),
            ("post_update", self.post_update),
        ];
        assert(r@ =~= self.spec_phases());
        r
    }
}

impl FrameProfile for AppFrameProfile {
    open spec fn spec_phases(&self) -> Seq<(&'static str, u128)> {
        seq![
            ("pre_update", self.pre_update),
            ("spawn_commit", self.spawn_commit),
            ("post_spawn_commit", self.post_spawn_commit),
            ("pre_movement", self.pre_movement),
            ("movement", self.movement),
            ("post_movement", self.post_movement),
            ("pre_collision", self.pre_collision),
            ("collision", self.collision),
            ("post_collision", self.post_collision),
            ("script_on_frame", self.script_on_frame),
            ("pre_lifetime", self.pre_lifetime),
            ("lifetime", self.lifetime),
            ("post_lifetime", self.post_lifetime),
            ("post_update", self.post_update),
        ]
    }

    fn phases(&self) -> (r: Vec<(&'static str, u128)>) {
        let r = vec![
            ("pre_update", self.pre_update),
            ("spawn_commit", self.spawn_commit),
            ("post_spawn_commit", self.post_spawn_commit),
            ("pre_movement", self.pre_movement),
            ("movement", self.movement),
            ("post_movement", self.post_movement),
            ("pre_collision", self.pre_collision),
            ("collision", self.collision),
            ("post_collision", self.post_collision),
            ("script_on_frame", self.script_on_frame),
            ("pre_lifetime", self.pre_lifetime),
            ("lifetime", self.lifetime),
            ("post_lifetime", self.post_lifetime),
            ("post_update", self.post_update),
        ];
        assert(r@ =~= self.spec_phases());
        r
    }
}

/// The phases of a world frame profile: the 13 declared phase names in execution order,
/// whatever the durations; the total is the sum of all 13 fields; and each
/// field is the duration of the phase of the same name only: setting it to `v`
/// changes that phase's duration to `v` and leaves every other phase as it was.
pub proof fn lemma_world_profile_phases(p: WorldFrameProfile, v: u128)
    ensures
        p.spec_phases().len() == 13,
        p.spec_phases().map_values(|e: (&'static str, u128)| e.0) == seq!["pre_update", "spawn_commit", "post_spawn_commit", "pre_movement", "movement", "post_movement", "pre_collision", "collision", "post_collision", "pre_lifetime", "lifetime", "post_lifetime", "post_update"],
        total_of(durations(p.spec_phases())) == p.pre_update + p.spawn_commit + p.post_spawn_commit + p.pre_movement + p.movement + p.post_movement + p.pre_collision + p.collision + p.post_collision + p.pre_lifetime + p.lifetime + p.post_lifetime + p.post_update,
        (WorldFrameProfile { pre_update: v, ..p }).spec_phases() == p.spec_phases().update(0, ("pre_update", v)),
        (WorldFrameProfile { spawn_commit: v, ..p }).spec_phases() == p.spec_phases().update(1, ("spawn_commit", v)),
        (WorldFrameProfile { post_spawn_commit: v, ..p }).spec_phases() == p.spec_phases().update(2, ("post_spawn_commit", v)),
        (WorldFrameProfile { pre_movement: v, ..p }).spec_phases() == p.spec_phases().update(3, ("pre_movement", v)),
        (WorldFrameProfile { movement: v, ..p }).spec_phases() == p.spec_phases().update(4, ("movement", v)),
        (WorldFrameProfile { post_movement: v, ..p }).spec_phases() == p.spec_phases().update(5, ("post_movement", v)),
        (WorldFrameProfile { pre_collision: v, ..p }).spec_phases() == p.spec_phases().update(6, ("pre_collision", v)),
        (WorldFrameProfile { collision: v, ..p }).spec_phases() == p.spec_phases().update(7, ("collision", v)),
        (WorldFrameProfile { post_collision: v, ..p }).spec_phases() == p.spec_phases().update(8, ("post_collision", v)),
        (WorldFrameProfile { pre_lifetime: v, ..p }).spec_phases() == p.spec_phases().update(9, ("pre_lifetime", v)),
        (WorldFrameProfile { lifetime: v, ..p }).spec_phases() == p.spec_phases().update(10, ("lifetime", v)),
        (WorldFrameProfile { post_lifetime: v, ..p }).spec_phases() == p.spec_phases().update(11, ("post_lifetime", v)),
        (WorldFrameProfile { post_update: v, ..p }).spec_phases() == p.spec_phases().update(12, ("post_update", v)),
{
    reveal_with_fuel(total_of, 14);
    assert(p.spec_phases().map_values(|e: (&'static str, u128)| e.0) =~= seq!["pre_update", "spawn_commit", "post_spawn_commit", "pre_movement", "movement", "post_movement", "pre_collision", "collision", "post_collision", "pre_lifetime", "lifetime", "post_lifetime", "post_update"]);
    let d = durations(p.spec_phases());
    assert(d =~= seq![p.pre_update, p.spawn_commit, p.post_spawn_commit, p.pre_movement, p.movement, p.post_movement, p.pre_collision, p.collision, p.post_collision, p.pre_lifetime, p.lifetime, p.post_lifetime, p.post_update]);
    assert((WorldFrameProfile { pre_update: v, ..p }).spec_phases() =~= p.spec_phases().update(0, ("pre_update", v)));
    assert((WorldFrameProfile { spawn_commit: v, ..p }).spec_phases() =~= p.spec_phases().update(1, ("spawn_commit", v)));
    assert((WorldFrameProfile { post_spawn_commit: v, ..p }).spec_phases() =~= p.spec_phases().update(2, ("post_spawn_commit", v)));
    assert((WorldFrameProfile { pre_movement: v, ..p }).spec_phases() =~= p.spec_phases().update(3, ("pre_movement", v)));
    assert((WorldFrameProfile { movement: v, ..p }).spec_phases() =~= p.spec_phases().update(4, ("movement", v)));
    assert((WorldFrameProfile { post_movement: v, ..p }).spec_phases() =~= p.spec_phases().update(5, ("post_movement", v)));
    assert((WorldFrameProfile { pre_collision: v, ..p }).spec_phases() =~= p.spec_phases().update(6, ("pre_collision", v)));
    assert((WorldFrameProfile { collision: v, ..p }).spec_phases() =~= p.spec_phases().update(7, ("collision", v)));
    assert((WorldFrameProfile { post_collision: v, ..p }).spec_phases() =~= p.spec_phases().update(8, ("post_collision", v)));
    assert((WorldFrameProfile { pre_lifetime: v, ..p }).spec_phases() =~= p.spec_phases().update(9, ("pre_lifetime", v)));
    assert((WorldFrameProfile { lifetime: v, ..p }).spec_phases() =~= p.spec_phases().update(10, ("lifetime", v)));
    assert((WorldFrameProfile { post_lifetime: v, ..p }).spec_phases() =~= p.spec_phases().update(11, ("post_lifetime", v)));
    assert((WorldFrameProfile { post_update: v, ..p }).spec_phases() =~= p.spec_phases().update(12, ("post_update", v)));
}

/// The phases of an application frame profile: the 14 declared phase names in execution order,
/// whatever the durations; the total is the sum of all 14 fields; and each
/// field is the duration of the phase of the same name only: setting it to `v`
/// changes that phase's duration to `v` and leaves every other phase as it was.
pub proof fn lemma_app_profile_phases(p: AppFrameProfile, v: u128)
    ensures
        p.spec_phases().len() == 14,
        p.spec_phases().map_values(|e: (&'static str, u128)| e.0) == seq!["pre_update", "spawn_commit", "post_spawn_commit", "pre_movement", "movement", "post_movement", "pre_collision", "collision", "post_collision", "script_on_frame", "pre_lifetime", "lifetime", "post_lifetime", "post_update"],
        total_of(durations(p.spec_phases())) == p.pre_update + p.spawn_commit + p.post_spawn_commit + p.pre_movement + p.movement + p.post_movement + p.pre_collision + p.collision + p.post_collision + p.script_on_frame + p.pre_lifetime + p.lifetime + p.post_lifetime + p.post_update,
        (AppFrameProfile { pre_update: v, ..p }).spec_phases() == p.spec_phases().update(0, ("pre_update", v)),
        (AppFrameProfile { spawn_commit: v, ..p }).spec_phases() == p.spec_phases().update(1, ("spawn_commit", v)),
        (AppFrameProfile { post_spawn_commit: v, ..p }).spec_phases() == p.spec_phases().update(2, ("post_spawn_commit", v)),
        (AppFrameProfile { pre_movement: v, ..p }).spec_phases() == p.spec_phases().update(3, ("pre_movement", v)),
        (AppFrameProfile { movement: v, ..p }).spec_phases() == p.spec_phases().update(4, ("movement", v)),
        (AppFrameProfile { post_movement: v, ..p }).spec_phases() == p.spec_phases().update(5, ("post_movement", v)),
        (AppFrameProfile { pre_collision: v, ..p }).spec_phases() == p.spec_phases().update(6, ("pre_collision", v)),
        (AppFrameProfile { collision: v, ..p }).spec_phases() == p.spec_phases().update(7, ("collision", v)),
        (AppFrameProfile { post_collision: v, ..p }).spec_phases() == p.spec_phases().update(8, ("post_collision", v)),
        (AppFrameProfile { script_on_frame: v, ..p }).spec_phases() == p.spec_phases().update(9, ("script_on_frame", v)),
        (AppFrameProfile { pre_lifetime: v, ..p }).spec_phases() == p.spec_phases().update(10, ("pre_lifetime", v)),
        (AppFrameProfile { lifetime: v, ..p }).spec_phases() == p.spec_phases().update(11, ("lifetime", v)),
        (AppFrameProfile { post_lifetime: v, ..p }).spec_phases() == p.spec_phases().update(12, ("post_lifetime", v)),
        (AppFrameProfile { post_update: v, ..p }).spec_phases() == p.spec_phases().update(13, ("post_update", v)),
{
    reveal_with_fuel(total_of, 15);
    assert(p.spec_phases().map_values(|e: (&'static str, u128)| e.0) =~= seq!["pre_update", "spawn_commit", "post_spawn_commit", "pre_movement", "movement", "post_movement", "pre_collision", "collision", "post_collision", "script_on_frame", "pre_lifetime", "lifetime", "post_lifetime", "post_update"]);
    let d = durations(p.spec_phases());
    assert(d =~= seq![p.pre_update, p.spawn_commit, p.post_spawn_commit, p.pre_movement, p.movement, p.post_movement, p.pre_collision, p.collision, p.post_collision, p.script_on_frame, p.pre_lifetime, p.lifetime, p.post_lifetime, p.post_update]);
    assert((AppFrameProfile { pre_update: v, ..p }).spec_phases() =~= p.spec_phases().update(0, ("pre_update", v)));
    assert((AppFrameProfile { spawn_commit: v, ..p }).spec_phases() =~= p.spec_phases().update(1, ("spawn_commit", v)));
    assert((AppFrameProfile { post_spawn_commit: v, ..p }).spec_phases() =~= p.spec_phases().update(2, ("post_spawn_commit", v)));
    assert((AppFrameProfile { pre_movement: v, ..p }).spec_phases() =~= p.spec_phases().update(3, ("pre_movement", v)));
    assert((AppFrameProfile { movement: v, ..p }).spec_phases() =~= p.spec_phases().update(4, ("movement", v)));
    assert((AppFrameProfile { post_movement: v, ..p }).spec_phases() =~= p.spec_phases().update(5, ("post_movement", v)));
    assert((AppFrameProfile { pre_collision: v, ..p }).spec_phases() =~= p.spec_phases().update(6, ("pre_collision", v)));
    assert((AppFrameProfile { collision: v, ..p }).spec_phases() =~= p.spec_phases().update(7, ("collision", v)));
    assert((AppFrameProfile { post_collision: v, ..p }).spec_phases() =~= p.spec_phases().update(8, ("post_collision", v)));
    assert((AppFrameProfile { script_on_frame: v, ..p }).spec_phases() =~= p.spec_phases().update(9, ("script_on_frame", v)));
    assert((AppFrameProfile { pre_lifetime: v, ..p }).spec_phases() =~= p.spec_phases().update(10, ("pre_lifetime", v)));
    assert((AppFrameProfile { lifetime: v, ..p }).spec_phases() =~= p.spec_phases().update(11, ("lifetime", v)));
    assert((AppFrameProfile { post_lifetime: v, ..p }).spec_phases() =~= p.spec_phases().update(12, ("post_lifetime", v)));
    assert((AppFrameProfile { post_update: v, ..p }).spec_phases() =~= p.spec_phases().update(13, ("post_update", v)));
}

// ── Profile accumulator ───────────────────────────────────────────────────────

/// The durations of phase `i` across `frames`, in frame order, from the frames
/// that have such a phase.
pub open spec fn column<P: FrameProfile>(frames: Seq<P>, i: int) -> Seq<u128>
    decreases frames.len(),
{
    if frames.len() == 0 {
        Seq::empty()
    } else {
        let c = column(frames.drop_last(), i);
        if 0 <= i < frames.last().spec_phases().len() {
            c.push(frames.last().spec_phases()[i].1)
        } else {
            c
        }
    }
}

/// The total duration of each frame, in frame order.
pub open spec fn frame_totals<P: FrameProfile>(frames: Seq<P>) -> Seq<u128> {
    Seq::new(frames.len(), |k: int| total_of(durations(frames[k].spec_phases())) as u128)
}

/// `r` is the statistics of the samples `samples` once sorted.
pub open spec fn stats_of_samples(samples: Seq<u128>, r: Stats) -> bool {
    exists|s: Seq<u128>| ascending(s) && s.to_multiset() == samples.to_multiset() && r == stats_of(s)
}

proof fn lemma_column_facts<P: FrameProfile>(frames: Seq<P>, i: int)
    requires
        forall|k: int| 0 <= k < frames.len() ==> durations_in_range(durations(#[trigger] frames[k].spec_phases())),
    ensures
        column(frames, i).len() <= frames.len(),
        durations_in_range(column(frames, i)),
        frames.len() > 0 && 0 <= i < frames[0].spec_phases().len() ==> column(frames, i).len() >= 1,
    decreases frames.len(),
{
    if frames.len() > 0 {
        let rest = frames.drop_last();
        assert forall|k: int| 0 <= k < rest.len() implies durations_in_range(durations(#[trigger] rest[k].spec_phases())) by {
            assert(rest[k] == frames[k]);
        }
        lemma_column_facts(rest, i);
        let last = frames.last();
        if 0 <= i < last.spec_phases().len() {
            assert(durations_in_range(durations(frames[frames.len() - 1].spec_phases())));
            assert(durations(last.spec_phases())[i] == last.spec_phases()[i].1);
        }
        if frames.len() > 1 {
            assert(rest[0] == frames[0]);
        }
    }
}

/// Samples drawn from bounded ones, by multiset, are bounded too.
proof fn lemma_sorted_in_range(s: Seq<u128>, samples: Seq<u128>)
    requires
        durations_in_range(samples),
        s.to_multiset() == samples.to_multiset(),
    ensures
        durations_in_range(s),
        s.len() == samples.len(),
{
    s.to_multiset_ensures();
    samples.to_multiset_ensures();
    assert forall|i: int| 0 <= i < s.len() implies #[trigger] s[i] <= max_duration_nanos() by {
        assert(s.contains(s[i]));
        assert(s.to_multiset().count(s[i]) > 0);
        assert(samples.to_multiset().count(s[i]) > 0);
        assert(samples.contains(s[i]));
        let k = choose|k: int| 0 <= k < samples.len() && samples[k] == s[i];
        assert(samples[k] <= max_duration_nanos());
    }
}

/// Sorts `samples` and computes their statistics.
fn stats_of_unsorted(samples: Vec<u128>) -> (r: Stats)
    requires
        samples@.len() > 0,
        samples@.len() <= u32::MAX,
        durations_in_range(samples@),
    ensures
        stats_of_samples(samples@, r),
{
    let ghost orig = samples@;
    let mut v = samples;
    sort_durations(&mut v);
    proof {
        lemma_sorted_in_range(v@, orig);
        lemma_total_bounded(v@);
        assert(v@.len() * max_duration_nanos() <= 0xffff_ffff * max_duration_nanos()) by (nonlinear_arith)
            requires
                v@.len() <= 0xffff_ffff,
                max_duration_nanos() >= 0,
        ;
    }
    let r = Stats::from_sorted(v.as_slice());
    proof {
        assert(ascending(v@) && v@.to_multiset() == orig.to_multiset() && r == stats_of(v@));
    }
    r
}

fn push_at(columns: &mut Vec<Vec<u128>>, i: usize, x: u128)
    requires
        i < old(columns)@.len(),
    ensures
        final(columns)@.len() == old(columns)@.len(),
        final(columns)@[i as int]@ == old(columns)@[i as int]@.push(x),
        forall|k: int| 0 <= k < old(columns)@.len() && k != i ==> #[trigger] final(columns)@[k] == old(columns)@[k],
{
    let col = &mut columns[i];
    col.push(x);
}

/// Collects per-frame [`FrameProfile`] samples and computes per-phase
/// [`Stats`] across all collected frames.
pub struct ProfileAccumulator<P> {
    frames: Vec<P>,
}

impl<P: FrameProfile> ProfileAccumulator<P> {
    /// The recorded frames, oldest first.
    pub closed spec fn frames(&self) -> Seq<P> {
        self.frames@
    }

    pub fn new() -> (r: Self)
        ensures
            r.frames() == Seq::<P>::empty(),
    {
        Self { frames: Vec::new() }
    }

    /// Record one frame's profile.
    pub fn push(&mut self, profile: P)
        ensures
            final(self).frames() == old(self).frames().push(profile),
    {
        self.frames.push(profile);
    }

    pub fn len(&self) -> (r: usize)
        ensures
            r == self.frames().len(),
    {
        self.frames.len()
    }

    pub fn is_empty(&self) -> (r: bool)
        ensures
            r == (self.frames().len() == 0),
    {
        self.frames.len() == 0
    }

    /// Computes per-phase [`Stats`] across all collected frames.
    ///
    /// Returns `(phase_name, stats)` pairs in execution order, named after the
    /// first frame's phases; phase `i`'s statistics are over the frames that
    /// have a phase `i`.
    pub fn phase_stats(&self) -> (r: Vec<(&'static str, Stats)>)
        requires
            self.frames().len() <= u32::MAX,
            forall|k: int| 0 <= k < self.frames().len() ==> durations_in_range(durations(#[trigger] self.frames()[k].spec_phases())),
            forall|k: int| 0 <= k < self.frames().len() ==> (#[trigger] self.frames()[k]).spec_phases().len() <= self.frames()[0].spec_phases().len(),
        ensures
            self.frames().len() == 0 ==> r@.len() == 0,
            self.frames().len() > 0 ==> {
                &&& r@.len() == self.frames()[0].spec_phases().len()
                &&& forall|i: int| 0 <= i < r@.len() ==> (#[trigger] r@[i]).0 == self.frames()[0].spec_phases()[i].0
                    && stats_of_samples(column(self.frames(), i), r@[i].1)
            },
    {
        let mut out: Vec<(&'static str, Stats)> = Vec::new();
        if self.frames.len() == 0 {
            return out;
        }
        let first_phases = self.frames[0].phases();
        let phase_count = first_phases.len();
        let ghost frames = self.frames@;

        // One duration list per phase.
        let mut columns: Vec<Vec<u128>> = Vec::new();
        let mut i: usize = 0;
        while i < phase_count
            invariant
                i <= phase_count,
                columns@.len() == i,
                forall|c: int| 0 <= c < i ==> (#[trigger] columns@[c])@ == Seq::<u128>::empty(),
            decreases phase_count - i,
        {
            columns.push(Vec::new());
            i = i + 1;
        }
        proof {
            assert forall|c: int| 0 <= c < phase_count implies (#[trigger] columns@[c])@ == column(frames.take(0), c) by {
                assert(frames.take(0).len() == 0);
            }
        }
        let mut f: usize = 0;
        while f < self.frames.len()
            invariant
                frames == self.frames@,
                f <= frames.len(),
                phase_count == frames[0].spec_phases().len(),
                columns@.len() == phase_count,
                forall|c: int| 0 <= c < phase_count ==> (#[trigger] columns@[c])@ == column(frames.take(f as int), c),
                forall|k: int| 0 <= k < frames.len() ==> (#[trigger] frames[k]).spec_phases().len() <= frames[0].spec_phases().len(),
            decreases frames.len() - f,
        {
            let phases = self.frames[f].phases();
            let ghost before = columns@;
            proof {
                assert(frames.take(f + 1).drop_last() =~= frames.take(f as int));
                assert(frames.take(f + 1).last() == frames[f as int]);
            }
            let mut j: usize = 0;
            while j < phases.len()
                invariant
                    phases@ == frames[f as int].spec_phases(),
                    phases@.len() <= phase_count,
                    j <= phases@.len(),
                    columns@.len() == phase_count,
                    forall|c: int| 0 <= c < j ==> (#[trigger] columns@[c])@ == before[c]@.push(phases@[c].1),
                    forall|c: int| j <= c < phase_count ==> #[trigger] columns@[c] == before[c],
                decreases phases@.len() - j,
            {
                push_at(&mut columns, j, phases[j].1);
                j = j + 1;
            }
            proof {
                assert forall|c: int| 0 <= c < phase_count implies (#[trigger] columns@[c])@ == column(frames.take(f + 1), c) by {
                    assert(before[c]@ == column(frames.take(f as int), c));
                }
            }
            f = f + 1;
        }
        proof {
            assert(frames.take(f as int) =~= frames);
        }

        // Statistics per phase, named after the first frame.
        let mut cols = columns;
        let mut c: usize = 0;
        let ghost all_cols = cols@;
        while c < phase_count
            invariant
                frames == self.frames@,
                c <= phase_count,
                phase_count == frames[0].spec_phases().len(),
                first_phases@ == frames[0].spec_phases(),
                cols@.len() == phase_count,
                forall|k: int| 0 <= k < phase_count ==> (#[trigger] all_cols[k])@ == column(frames, k),
                forall|k: int| c <= k < phase_count ==> #[trigger] cols@[k] == all_cols[k],
                out@.len() == c,
                forall|k: int| 0 <= k < c ==> (#[trigger] out@[k]).0 == frames[0].spec_phases()[k].0 && stats_of_samples(column(frames, k), out@[k].1),
                frames.len() > 0,
                frames.len() <= u32::MAX,
                forall|k: int| 0 <= k < frames.len() ==> durations_in_range(durations(#[trigger] frames[k].spec_phases())),
            decreases phase_count - c,
        {
            let mut samples: Vec<u128> = Vec::new();
            std::mem::swap(&mut samples, &mut cols[c]);
            proof {
                assert(samples@ == column(frames, c as int));
                lemma_column_facts(frames, c as int);
            }
            let stats = stats_of_unsorted(samples);
            out.push((first_phases[c].0, stats));
            c = c + 1;
        }
        out
    }

    /// [`Stats`] computed over the per-frame total durations.
    pub fn total_stats(&self) -> (r: Stats)
        requires
            self.frames().len() > 0,
            self.frames().len() <= u32::MAX,
            forall|k: int| 0 <= k < self.frames().len() ==> total_of(durations(#[trigger] self.frames()[k].spec_phases())) <= max_duration_nanos(),
        ensures
            stats_of_samples(frame_totals(self.frames()), r),
    {
        let ghost frames = self.frames@;
        let mut totals: Vec<u128> = Vec::new();
        let mut f: usize = 0;
        while f < self.frames.len()
            invariant
                frames == self.frames@,
                f <= frames.len(),
                totals@ == frame_totals(frames).take(f as int),
                forall|k: int| 0 <= k < frames.len() ==> total_of(durations(#[trigger] frames[k].spec_phases())) <= max_duration_nanos(),
            decreases frames.len() - f,
        {
            proof {
                lemma_total_nonneg(durations(frames[f as int].spec_phases()));
            }
            let t = self.frames[f].total();
            totals.push(t);
            proof {
                assert(totals@ =~= frame_totals(frames).take(f + 1));
            }
            f = f + 1;
        }
        proof {
            assert(frame_totals(frames).take(f as int) =~= frame_totals(frames));
            assert forall|k: int| 0 <= k < totals@.len() implies #[trigger] totals@[k] <= max_duration_nanos() by {
                lemma_total_nonneg(durations(frames[k].spec_phases()));
            }
        }
        stats_of_unsorted(totals)
    }
}

/// A sum of durations is never negative.
proof fn lemma_total_nonneg(s: Seq<u128>)
    ensures
        total_of(s) >= 0,
    decreases s.len(),
{
    if s.len() > 0 {
        lemma_total_nonneg(s.drop_last());
    }
}

impl<P: FrameProfile> Default for ProfileAccumulator<P> {
    fn default() -> (r: Self)
        ensures
            r.frames() == Seq::<P>::empty(),
    {
        Self::new()
    }
}

// ── Bench harness ─────────────────────────────────────────────────────────────

#[verifier::external_type_specification]
#[verifier::external_body]
pub struct ExInstant(Instant);

/// The current instant (`std::time::Instant::now`); nothing is promised of
/// its value, which the clock decides.
#[verifier::external_body]
fn clock_now() -> Instant {
    Instant::now()
}

/// Nanoseconds elapsed since `start` (`Instant::elapsed`, then
/// `Duration::as_nanos`); nothing is promised of the value, which the clock
/// decides.
#[verifier::external_body]
fn nanos_since(start: &Instant) -> u128 {
    start.elapsed().as_nanos()
}

/// Result of a single timed benchmark run; `total_nanos` is the time the
/// timed iterations took, in nanoseconds.
pub struct BenchResult {
    pub name: &'static str,
    pub warmup: u32,
    pub iterations: u32,
    pub total_nanos: u128,
}

/// Runs `f` for `warmup` iterations (discarded), then times `iterations` more.
pub fn bench<F: FnMut()>(name: &'static str, warmup: u32, iterations: u32, f: F) -> (r: BenchResult)
    requires
        forall|g: F| call_requires(g, ()),
    ensures
        r.name == name,
        r.warmup == warmup,
        r.iterations == iterations,
{
    let mut f = f;
    let mut i: u32 = 0;
    while i < warmup
        invariant
            forall|g: F| call_requires(g, ()),
        decreases warmup - i,
    {
        f();
        i = i + 1;
    }
    let start = clock_now();
    let mut k: u32 = 0;
    while k < iterations
        invariant
            forall|g: F| call_requires(g, ()),
        decreases iterations - k,
    {
        f();
        k = k + 1;
    }
    BenchResult { name, warmup, iterations, total_nanos: nanos_since(&start) }
}

} // verus!
