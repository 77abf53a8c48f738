use vstd::prelude::*;

verus! {

/// `a + b` modulo 2^64.
pub open spec fn add64(a: u64, b: u64) -> u64 {
    ((a as int + b as int) % 0x1_0000_0000_0000_0000) as u64
}

/// `a * b` modulo 2^64.
pub open spec fn mul64(a: u64, b: u64) -> u64 {
    ((a as int * b as int) % 0x1_0000_0000_0000_0000) as u64
}

/// Rotation of the 64 bits of `x` to the left by `k` places (0 < k < 64).
pub open spec fn rotl(x: u64, k: u64) -> u64 {
    (x << k) | (x >> (64 - k))
}

fn rotate_left(x: u64, k: u64) -> (r: u64)
    requires
        0 < k < 64,
    ensures
        r == rotl(x, k),
{
    (x << k) | (x >> (64 - k))
}

/// Core deterministic random-number generator interface.
///
/// Contract:
/// - Same algorithm + same initial state + same call sequence => identical output sequence.
/// - Implementors should avoid platform-dependent behavior.
pub trait DeterministicRng: Sized {
    /// The generator's transition: the state after one draw and the 64 bits it yields.
    spec fn rng_step(&self) -> (Self, u64);

    /// Produces the next 64 bits from the generator stream.
    fn next_u64(&mut self) -> (r: u64)
        ensures
            (*final(self), r) == old(self).rng_step(),
    ;

    /// Produces the next 32 bits (lower half of `next_u64`).
    fn next_u32(&mut self) -> (r: u32)
        ensures
            *final(self) == old(self).rng_step().0,
            r == old(self).rng_step().1 as u32,
    {
        let x = self.next_u64();
        x as u32
    }
}

/// The acceptance bound of uniform sampling over `width` values: the largest
/// multiple of `width` that is at most `u64::MAX`.
pub open spec fn range_zone(width: u64) -> int {
    (u64::MAX as int) - (u64::MAX as int) % (width as int)
}

/// One draw of uniform sampling in `[min, max_exclusive)` by rejection: a
/// draw `x` below the acceptance bound gives `min + x % width`, a draw at or
/// above it is rejected and another must be drawn.
pub fn range_sample(x: u64, min: u64, max_exclusive: u64) -> (r: Option<u64>)
    requires
        min < max_exclusive,
    ensures
        r == range_sample_spec(x, min, max_exclusive),
{
    let width = max_exclusive - min;
    let zone = u64::MAX - (u64::MAX % width);
    if x < zone {
        proof {
            assert(x % width < width) by (nonlinear_arith)
                requires
                    width > 0,
            ;
        }
        Some(min + (x % width))
    } else {
        None
    }
}

/// Rejection sampling has no modulo bias and always accepts something: the
/// acceptance bound is a positive multiple of the width, so every value of
/// the range has the same number of accepted draws, and an accepted draw
/// lands in the range.
pub proof fn lemma_range_sample_unbiased(min: u64, max_exclusive: u64)
    requires
        min < max_exclusive,
    ensures
        ({
            let width = (max_exclusive - min) as u64;
            &&& range_zone(width) % (width as int) == 0
            &&& width <= range_zone(width) <= u64::MAX
        }),
        forall|x: u64| (#[trigger] range_sample_spec(x, min, max_exclusive)) is Some ==> min <= range_sample_spec(x, min, max_exclusive)->0 < max_exclusive,
{
    let width = (max_exclusive - min) as u64;
    let m = u64::MAX as int;
    let w = width as int;
    assert(m % w < w && m % w >= 0) by (nonlinear_arith)
        requires
            w > 0,
    ;
    assert((m - m % w) % w == 0) by (nonlinear_arith)
        requires
            w > 0,
    {
        vstd::arithmetic::div_mod::lemma_fundamental_div_mod(m, w);
        vstd::arithmetic::div_mod::lemma_mod_multiples_basic(m / w, w);
    }
    assert(m - m % w >= w) by (nonlinear_arith)
        requires
            w > 0,
            w <= m,
            m % w < w,
            m % w >= 0,
            (m - m % w) % w == 0,
    {
        vstd::arithmetic::div_mod::lemma_fundamental_div_mod(m, w);
        if m / w == 0 {
            assert(m == m % w);
        }
    }
    assert forall|x: u64| (#[trigger] range_sample_spec(x, min, max_exclusive)) is Some implies min <= range_sample_spec(x, min, max_exclusive)->0 < max_exclusive by {
        if x < range_zone(width) {
            assert(x % width < width) by (nonlinear_arith)
                requires
                    width > 0,
            ;
        }
    }
}

/// The outcome of [`range_sample`] on draw `x`.
pub open spec fn range_sample_spec(x: u64, min: u64, max_exclusive: u64) -> Option<u64> {
    if x < range_zone((max_exclusive - min) as u64) {
        Some((min + x % ((max_exclusive - min) as u64)) as u64)
    } else {
        None
    }
}

/// Seed management for deterministic RNGs.
pub trait SeedableRng: Sized {
    /// The generator that a seed determines.
    spec fn seeded(seed: u64) -> Self;

    /// Creates an RNG from a deterministic 64-bit seed.
    fn from_seed(seed: u64) -> (r: Self)
        ensures
            r == Self::seeded(seed),
    ;

    /// Resets internal state from a deterministic 64-bit seed.
    fn reseed(&mut self, seed: u64)
        ensures
            *final(self) == Self::seeded(seed),
    ;
}

/// Snapshot/restore interface for replay, save/load, and rollback.
pub trait StatefulRng: Sized {
    type State;

    /// The generator's full internal state.
    spec fn spec_state(&self) -> Self::State;

    /// Returns the full internal state.
    fn state(&self) -> (r: Self::State)
        ensures
            r == self.spec_state(),
    ;

    /// Restores a previously captured state.
    fn set_state(&mut self, state: Self::State)
        ensures
            final(self).spec_state() == state,
    ;
}

// ── SplitMix64 ──────────────────────────────────────────────────────────────

/// The SplitMix64 increment (the 64-bit golden ratio).
pub open spec fn splitmix_gamma() -> u64 {
    0x9E3779B97F4A7C15u64
}

/// The SplitMix64 output function applied to an already advanced state.
pub open spec fn splitmix_mix(state: u64) -> u64 {
    let z1 = mul64(state ^ (state >> 30u64), 0xBF58476D1CE4E5B9u64);
    let z2 = mul64(z1 ^ (z1 >> 27u64), 0x94D049BB133111EBu64);
    z2 ^ (z2 >> 31u64)
}

/// A simple, fast, non-cryptographic RNG with good statistical properties.
/// https://prng.di.unimi.it/splitmix64.c
pub struct SplitMix64Algorithm {
    state: u64,
}

impl SplitMix64Algorithm {
    /// The generator's state word.
    pub closed spec fn spec_state_word(&self) -> u64 {
        self.state
    }

    pub fn new(seed: u64) -> (r: Self)
        ensures
            r.spec_state_word() == seed,
    {
        Self { state: seed }
    }
}

impl DeterministicRng for SplitMix64Algorithm {
    open spec fn rng_step(&self) -> (Self, u64) {
        let s = add64(self.spec_state_word(), splitmix_gamma());
        (SplitMix64Algorithm::seeded(s), splitmix_mix(s))
    }

    fn next_u64(&mut self) -> (r: u64) {
        self.state = self.state.wrapping_add(0x9E3779B97F4A7C15);
        let mut z = self.state;
        z = (z ^ (z >> 30)).wrapping_mul(0xBF58476D1CE4E5B9);
        z = (z ^ (z >> 27)).wrapping_mul(0x94D049BB133111EB);
        z ^ (z >> 31)
    }
}

impl SeedableRng for SplitMix64Algorithm {
    closed spec fn seeded(seed: u64) -> Self {
        SplitMix64Algorithm { state: seed }
    }

    fn from_seed(seed: u64) -> (r: Self) {
        Self::new(seed)
    }

    fn reseed(&mut self, seed: u64) {
        self.state = seed;
    }
}

impl StatefulRng for SplitMix64Algorithm {
    type State = u64;

    closed spec fn spec_state(&self) -> u64 {
        self.state
    }

    fn state(&self) -> (r: u64) {
        self.state
    }

    fn set_state(&mut self, state: u64) {
        self.state = state;
    }
}

impl SplitMix64Algorithm {
    /// A seeded SplitMix64 generator holds the seed as its state word, and its
    /// snapshot state is that word.
    pub proof fn lemma_seeded(seed: u64)
        ensures
            SplitMix64Algorithm::seeded(seed).spec_state_word() == seed,
            SplitMix64Algorithm::seeded(seed).spec_state() == seed,
    {
    }

    /// The snapshot state determines the generator.
    pub proof fn lemma_state_determines(a: SplitMix64Algorithm, b: SplitMix64Algorithm)
        requires
            a.spec_state() == b.spec_state(),
        ensures
            a == b,
            a.spec_state_word() == a.spec_state(),
    {
    }
}

// ── Xoroshiro128++ ──────────────────────────────────────────────────────────

/// The Xoroshiro128++ output for state `(s0, s1)`.
pub open spec fn xoroshiro_output(s0: u64, s1: u64) -> u64 {
    add64(rotl(add64(s0, s1), 17), s0)
}

/// The Xoroshiro128++ state transition.
pub open spec fn xoroshiro_advance(s0: u64, s1: u64) -> (u64, u64) {
    let t = s1 ^ s0;
    ((rotl(s0, 49) ^ t) ^ (t << 21u64), rotl(t, 28))
}

/// The first jump polynomial word.
pub open spec fn jump_word0() -> u64 {
    0x2bd7a6a6e99c2ddcu64
}

/// The second jump polynomial word.
pub open spec fn jump_word1() -> u64 {
    0x0992ccaf6a6fca05u64
}

/// The jump's working state: the generator state being stepped and the two
/// accumulator words that become the new state.
pub struct JumpState {
    pub s0: u64,
    pub s1: u64,
    pub a0: u64,
    pub a1: u64,
}

/// One round of the jump for bit `b` of `word`: when the bit is set the
/// accumulator absorbs the current state, and the state takes one generator
/// step.
pub open spec fn jump_round(word: u64, b: u64, st: JumpState) -> JumpState {
    let hit = word & (1u64 << b) != 0;
    let next = xoroshiro_advance(st.s0, st.s1);
    JumpState {
        s0: next.0,
        s1: next.1,
        a0: if hit { st.a0 ^ st.s0 } else { st.a0 },
        a1: if hit { st.a1 ^ st.s1 } else { st.a1 },
    }
}

/// The first `n` rounds of the jump over `word`, bit 0 first.
pub open spec fn jump_rounds(word: u64, st: JumpState, n: nat) -> JumpState
    decreases n,
{
    if n == 0 {
        st
    } else {
        jump_round(word, (n - 1) as u64, jump_rounds(word, st, (n - 1) as nat))
    }
}

/// The working state after both jump words have been processed from the state
/// `(s0, s1)` with an empty accumulator.
pub open spec fn jump_result(s0: u64, s1: u64) -> JumpState {
    jump_rounds(jump_word1(), jump_rounds(jump_word0(), JumpState { s0, s1, a0: 0, a1: 0 }, 64), 64)
}

/// The state that a jump from `(s0, s1)` reaches: the XOR of the states
/// `advance^k(s0, s1)` over the exponents `k` whose bit is set in the jump
/// polynomial.
pub open spec fn xoroshiro_jump(s0: u64, s1: u64) -> (u64, u64) {
    (jump_result(s0, s1).a0, jump_result(s0, s1).a1)
}

/// Both halves of a jump working state take one generator step.
pub open spec fn jump_state_advance(st: JumpState) -> JumpState {
    let s = xoroshiro_advance(st.s0, st.s1);
    let a = xoroshiro_advance(st.a0, st.a1);
    JumpState { s0: s.0, s1: s.1, a0: a.0, a1: a.1 }
}

/// The generator step is linear over XOR, and fixes the zero state.
proof fn lemma_advance_linear(a0: u64, a1: u64, b0: u64, b1: u64)
    ensures
        xoroshiro_advance(a0 ^ b0, a1 ^ b1) == (
            xoroshiro_advance(a0, a1).0 ^ xoroshiro_advance(b0, b1).0,
            xoroshiro_advance(a0, a1).1 ^ xoroshiro_advance(b0, b1).1,
        ),
        xoroshiro_advance(0, 0) == (0u64, 0u64),
{
    assert(((rotl(a0 ^ b0, 49) ^ ((a1 ^ b1) ^ (a0 ^ b0))) ^ (((a1 ^ b1) ^ (a0 ^ b0)) << 21u64))
        == ((rotl(a0, 49) ^ (a1 ^ a0)) ^ ((a1 ^ a0) << 21u64)) ^ ((rotl(b0, 49) ^ (b1 ^ b0)) ^ ((b1 ^ b0) << 21u64)))
        by (bit_vector);
    assert(rotl((a1 ^ b1) ^ (a0 ^ b0), 28) == rotl(a1 ^ a0, 28) ^ rotl(b1 ^ b0, 28)) by (bit_vector);
    assert(((rotl(0u64, 49) ^ (0u64 ^ 0u64)) ^ ((0u64 ^ 0u64) << 21u64)) == 0u64) by (bit_vector);
    assert(rotl(0u64 ^ 0u64, 28) == 0u64) by (bit_vector);
}

/// Stepping the whole working state before `n` jump rounds gives the same as
/// stepping it after them.
proof fn lemma_jump_rounds_commute(word: u64, st: JumpState, n: nat)
    ensures
        jump_rounds(word, jump_state_advance(st), n) == jump_state_advance(jump_rounds(word, st, n)),
    decreases n,
{
    if n > 0 {
        lemma_jump_rounds_commute(word, st, (n - 1) as nat);
        let prev = jump_rounds(word, st, (n - 1) as nat);
        lemma_advance_linear(prev.a0, prev.a1, prev.s0, prev.s1);
    }
}

/// A jump commutes with a generator step: jumping from the stepped state
/// reaches the stepped jump state, as taking any fixed number of steps does.
pub proof fn lemma_jump_commutes_with_step(s0: u64, s1: u64)
    ensures
        xoroshiro_jump(xoroshiro_advance(s0, s1).0, xoroshiro_advance(s0, s1).1) == xoroshiro_advance(
            xoroshiro_jump(s0, s1).0,
            xoroshiro_jump(s0, s1).1,
        ),
{
    let init = JumpState { s0, s1, a0: 0, a1: 0 };
    let n = xoroshiro_advance(s0, s1);
    lemma_advance_linear(0, 0, 0, 0);
    assert(jump_state_advance(init) == JumpState { s0: n.0, s1: n.1, a0: 0, a1: 0 });
    lemma_jump_rounds_commute(jump_word0(), init, 64);
    lemma_jump_rounds_commute(jump_word1(), jump_rounds(jump_word0(), init, 64), 64);
}

/// A high-quality, fast RNG suitable for general use, including games and simulations.
/// https://prng.di.unimi.it/xoroshiro128plusplus.c
pub struct Xoroshiro128ppAlgorithm {
    s0: u64,
    s1: u64,
}

/// The Xoroshiro128++ state that a seed gives: the first two SplitMix64 outputs
/// of that seed.
pub open spec fn xoroshiro_seed_state(seed: u64) -> (u64, u64) {
    let a = add64(seed, splitmix_gamma());
    let b = add64(a, splitmix_gamma());
    (splitmix_mix(a), splitmix_mix(b))
}

impl Xoroshiro128ppAlgorithm {
    /// The two state words.
    pub closed spec fn words(&self) -> (u64, u64) {
        (self.s0, self.s1)
    }

    /// The generator with state words `st`.
    pub closed spec fn with_words(st: (u64, u64)) -> Self {
        Xoroshiro128ppAlgorithm { s0: st.0, s1: st.1 }
    }

    /// The state words of a generator built from words are those words, and
    /// the words determine the generator.
    pub proof fn lemma_words(st: (u64, u64), g: Xoroshiro128ppAlgorithm)
        ensures
            Self::with_words(st).words() == st,
            Self::with_words(g.words()) == g,
            g.spec_state() == g.words(),
    {
    }

    /// A seeded generator holds the first two SplitMix64 outputs of the seed,
    /// the first as `s0` and the second as `s1`; its snapshot state is that
    /// pair. `new`, `from_seed` and `reseed` all give this state.
    pub proof fn lemma_seeded(seed: u64)
        ensures
            Self::seeded(seed).words() == xoroshiro_seed_state(seed),
            Self::seeded(seed).spec_state() == xoroshiro_seed_state(seed),
    {
    }

    pub fn new(seed: u64) -> (r: Self)
        ensures
            r.words() == xoroshiro_seed_state(seed),
    {
        let mut sm64 = SplitMix64Algorithm::new(seed);
        let s0 = sm64.next_u64();
        let s1 = sm64.next_u64();
        Self { s0, s1 }
    }

    /// Processes the 64 bits of `word` through the jump, starting from the
    /// working state `st`.
    fn jump_word(word: u64, st: JumpState) -> (r: JumpState)
        ensures
            r == jump_rounds(word, st, 64),
    {
        let mut s0 = st.s0;
        let mut s1 = st.s1;
        let mut a0 = st.a0;
        let mut a1 = st.a1;
        let ghost start = st;
        let mut b: u64 = 0;
        while b < 64
            invariant
                b <= 64,
                (JumpState { s0, s1, a0, a1 }) == jump_rounds(word, start, b as nat),
            decreases 64 - b,
        {
            if (word & (1u64 << b)) != 0 {
                a0 ^= s0;
                a1 ^= s1;
            }
            let t = s1 ^ s0;
            s0 = rotate_left(s0, 49) ^ t ^ (t << 21u64);
            s1 = rotate_left(t, 28);
            b = b + 1;
        }
        JumpState { s0, s1, a0, a1 }
    }

    /// Equivalent to 2^64 calls to next_u64(), for parallel streams.
    ///
    /// This is the published Xoroshiro128++ jump: the new state is the XOR of
    /// the states `advance^k(s)` over the exponents `k` set in the jump
    /// polynomial, whose value is the 2^64-th power of the step.
    pub fn jump(&mut self)
        ensures
            final(self).words() == xoroshiro_jump(old(self).words().0, old(self).words().1),
    {
        let first = Self::jump_word(0x2bd7a6a6e99c2ddcu64, JumpState { s0: self.s0, s1: self.s1, a0: 0, a1: 0 });
        let done = Self::jump_word(0x0992ccaf6a6fca05u64, first);
        self.s0 = done.a0;
        self.s1 = done.a1;
    }
}

impl DeterministicRng for Xoroshiro128ppAlgorithm {
    open spec fn rng_step(&self) -> (Self, u64) {
        (Self::with_words(xoroshiro_advance(self.words().0, self.words().1)), xoroshiro_output(self.words().0, self.words().1))
    }

    fn next_u64(&mut self) -> (r: u64) {
        let s0 = self.s0;
        let mut s1 = self.s1;
        let result = rotate_left(s0.wrapping_add(s1), 17).wrapping_add(s0);
        s1 ^= s0;
        self.s0 = rotate_left(s0, 49) ^ s1 ^ (s1 << 21u64);
        self.s1 = rotate_left(s1, 28);
        result
    }
}

impl SeedableRng for Xoroshiro128ppAlgorithm {
    closed spec fn seeded(seed: u64) -> Self {
        Self::with_words(xoroshiro_seed_state(seed))
    }

    fn from_seed(seed: u64) -> (r: Self) {
        Self::new(seed)
    }

    fn reseed(&mut self, seed: u64) {
        let mut sm64 = SplitMix64Algorithm::new(seed);
        self.s0 = sm64.next_u64();
        self.s1 = sm64.next_u64();
    }
}

impl StatefulRng for Xoroshiro128ppAlgorithm {
    type State = (u64, u64);

    closed spec fn spec_state(&self) -> (u64, u64) {
        (self.s0, self.s1)
    }

    fn state(&self) -> (r: (u64, u64)) {
        (self.s0, self.s1)
    }

    fn set_state(&mut self, state: (u64, u64)) {
        self.s0 = state.0;
        self.s1 = state.1;
    }
}

// ── Factory ─────────────────────────────────────────────────────────────────

pub struct RngFactory;

impl RngFactory {
    /// Builds a generator of type `T` from `seed`.
    pub fn create<T>(&self, seed: u64) -> (r: T)
        where
            T: SeedableRng + DeterministicRng + StatefulRng,
        ensures
            r == T::seeded(seed),
    {
        T::from_seed(seed)
    }
}

} // verus!
