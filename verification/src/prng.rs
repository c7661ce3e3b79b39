//! Stateful xoroshiro128+ generator for replayable timelines.
//!
//! The generator is not cryptographically secure. Equal seeds give equal
//! output sequences on every platform, provided draws are consumed in the
//! same order.
use vstd::prelude::*;

verus! {

/// Version of the generator's bit-exact behaviour. It changes only together
/// with the update rule or the seeding rules, and every recorded sequence is
/// tied to the version that produced it.
pub const PRNG_ALGO_VERSION: u32 = 1;

/// Increment of the seed expansion, derived from the golden ratio. It also
/// replaces the first state word when both seed words are zero.
pub const GOLDEN_GAMMA: u64 = 0x9e37_79b9_7f4a_7c15;

/// First multiplier of the seed expansion's mixing rounds.
pub const MIX_MUL_A: u64 = 0xbf58_476d_1ce4_e5b9;

/// Second multiplier of the seed expansion's mixing rounds.
pub const MIX_MUL_B: u64 = 0x94d0_49bb_1331_11eb;

/// Exponent pattern of the binary32 values in `[1.0, 2.0)`.
pub const UNIT_EXPONENT_BITS: u32 = 0x3f80_0000;

/// The largest number of candidates in a row that `next_int` can discard:
/// no state gives five words in a row among the top `2^32` values.
pub const MAX_REJECTIONS: u64 = 4;

/// Smallest of the words that a draw from some range may discard.
pub const REJECT_FLOOR: u64 = 0xffff_ffff_0000_0000;

/// Generator state as a pair of words `(s0, s1)`.
pub type State = (u64, u64);

/// `x` rotated left by `k` bits, for `0 < k < 64`.
pub open spec fn rotl(x: u64, k: u64) -> u64 {
    (x << k) | (x >> ((64 - k) as u64))
}

/// The word that one update step returns: the wrapping sum of both words.
pub open spec fn step_output(s: State) -> u64 {
    ((s.0 + s.1) % 0x1_0000_0000_0000_0000) as u64
}

/// The state after one update step.
pub open spec fn step_state(s: State) -> State {
    let t = s.1 ^ s.0;
    (rotl(s.0, 55) ^ t ^ (t << 14), rotl(t, 36))
}

/// The state that seeding with two words gives.
pub open spec fn seeded(seed0: u64, seed1: u64) -> State {
    if seed0 == 0 && seed1 == 0 {
        (GOLDEN_GAMMA, 0)
    } else {
        (seed0, seed1)
    }
}

/// The running value of the seed expansion after one more increment.
pub open spec fn mix_advance(x: u64) -> u64 {
    ((x + GOLDEN_GAMMA) % 0x1_0000_0000_0000_0000) as u64
}

/// The output of the seed expansion for the running value `x`.
pub open spec fn mix_finish(x: u64) -> u64 {
    let a = (((x ^ (x >> 30)) * MIX_MUL_A) % 0x1_0000_0000_0000_0000) as u64;
    let b = (((a ^ (a >> 27)) * MIX_MUL_B) % 0x1_0000_0000_0000_0000) as u64;
    b ^ (b >> 31)
}

/// The state that seeding with one word gives.
pub open spec fn expanded(seed: u64) -> State {
    let x1 = mix_advance(seed);
    let x2 = mix_advance(x1);
    seeded(mix_finish(x1), mix_finish(x2))
}

/// Whether `n` is a power of two.
pub open spec fn is_power_of_two(n: u64) -> bool {
    n != 0 && n & ((n - 1) as u64) == 0
}

/// Number of values `max - min + 1` in the inclusive range.
pub open spec fn span_of(min: i32, max: i32) -> int {
    max - min + 1
}

/// Exclusive upper limit of the candidates that are reduced modulo `span`.
/// It is a whole multiple of `span`, so every residue has the same number of
/// candidates below it: all 64-bit words for a power of two, otherwise the
/// largest multiple of `span` that does not exceed the largest word.
pub open spec fn accept_limit(span: u64) -> int {
    if is_power_of_two(span) {
        0x1_0000_0000_0000_0000
    } else {
        u64::MAX - u64::MAX % span
    }
}

/// The first candidate drawn from `s` that lies below the accept limit of
/// `span`, with the state after drawing it, where at most `budget`
/// candidates are discarded before it. A budget of `MAX_REJECTIONS` never
/// runs out.
pub open spec fn first_accepted(s: State, span: u64, budget: nat) -> (u64, State)
    decreases budget,
{
    let c = step_output(s);
    if c < accept_limit(span) || budget == 0 {
        (c, step_state(s))
    } else {
        first_accepted(step_state(s), span, (budget - 1) as nat)
    }
}

/// The integer that a draw from the inclusive range `[min, max]` returns in
/// state `s`, with the state after the draw. A range of one value consumes
/// no candidate.
pub open spec fn int_draw(s: State, min: i32, max: i32) -> (int, State) {
    let span = span_of(min, max) as u64;
    if span == 1 {
        (min as int, s)
    } else {
        let d = first_accepted(s, span, MAX_REJECTIONS as nat);
        (min + d.0 % span, d.1)
    }
}

/// Bit pattern of the binary32 value in `[1.0, 2.0)` whose mantissa is the
/// top 23 bits of `raw`.
pub open spec fn unit_float_bits(raw: u64) -> u32 {
    UNIT_EXPONENT_BITS | ((raw >> 41) as u32)
}

/// Whether the next word drawn in state `s` is among the top `2^32` values,
/// the only words that a draw from any range discards.
pub open spec fn draws_high(s: State) -> bool {
    step_output(s) >= REJECT_FLOOR
}

/// Whether each of the next `n` words drawn from state `s` is among the top
/// `2^32` values.
pub open spec fn all_high(s: State, n: nat) -> bool
    decreases n,
{
    n == 0 || (all_high(s, (n - 1) as nat) && draws_high(state_after(s, (n - 1) as nat)))
}

/// The state reached from `s` after `n` update steps.
pub open spec fn state_after(s: State, n: nat) -> State
    decreases n,
{
    if n == 0 {
        s
    } else {
        step_state(state_after(s, (n - 1) as nat))
    }
}

/// A generator with 128 bits of state that are never all zero.
#[derive(Debug)]
pub struct Prng {
    s0: u64,
    s1: u64,
}

impl Clone for Prng {
    /// The copy continues the same stream from the same point.
    fn clone(&self) -> (g: Prng)
        ensures
            g@ == self@,
            g@ != (0u64, 0u64),
    {
        proof {
            use_type_invariant(self);
        }
        Prng { s0: self.s0, s1: self.s1 }
    }
}

impl View for Prng {
    type V = State;

    closed spec fn view(&self) -> State {
        (self.s0, self.s1)
    }
}

fn mix_step(x: u64) -> (r: (u64, u64))
    ensures
        r.0 == mix_advance(x),
        r.1 == mix_finish(r.0),
{
    let next: u64 = x.wrapping_add(GOLDEN_GAMMA);
    let a: u64 = (next ^ (next >> 30)).wrapping_mul(MIX_MUL_A);
    let b: u64 = (a ^ (a >> 27)).wrapping_mul(MIX_MUL_B);
    (next, b ^ (b >> 31))
}

impl Prng {
    #[verifier::type_invariant]
    spec fn nonzero(&self) -> bool {
        self.s0 != 0 || self.s1 != 0
    }

    /// Builds a generator from two seed words. A pair of zeros is replaced so
    /// that the state is never all zero.
    pub fn from_seed(seed0: u64, seed1: u64) -> (g: Prng)
        ensures
            g@ == seeded(seed0, seed1),
            g@ != (0u64, 0u64),
    {
        if seed0 == 0 && seed1 == 0 {
            Prng { s0: GOLDEN_GAMMA, s1: 0 }
        } else {
            Prng { s0: seed0, s1: seed1 }
        }
    }

    /// Builds a generator from one seed word, expanded into two by two rounds
    /// of mixing.
    pub fn from_seed_u64(seed: u64) -> (g: Prng)
        ensures
            g@ == expanded(seed),
            g@ != (0u64, 0u64),
    {
        let first = mix_step(seed);
        let second = mix_step(first.0);
        Prng::from_seed(first.1, second.1)
    }

    /// Draws the next 64-bit word and advances the state by one step.
    pub fn next_u64(&mut self) -> (r: u64)
        ensures
            r == step_output(old(self)@),
            final(self)@ == step_state(old(self)@),
            final(self)@ != (0u64, 0u64),
    {
        proof {
            use_type_invariant(&*self);
        }
        let s0: u64 = self.s0;
        let s1: u64 = self.s1;
        let result: u64 = s0.wrapping_add(s1);
        let t: u64 = s1 ^ s0;
        let n0: u64 = ((s0 << 55) | (s0 >> 9)) ^ t ^ (t << 14);
        let n1: u64 = (t << 36) | (t >> 28);
        proof {
            lemma_step_keeps_nonzero(s0, s1);
        }
        *self = Prng { s0: n0, s1: n1 };
        result
    }

    /// Draws one word and returns the bit pattern of a binary32 value in
    /// `[1.0, 2.0)`: the exponent pattern of that interval with the word's top
    /// 23 bits as mantissa. Subtracting `1.0` from the value gives a uniform
    /// value in `[0, 1)`, namely `m / 2^23` for the mantissa `m`.
    pub fn next_f32_bits(&mut self) -> (bits: u32)
        ensures
            bits == unit_float_bits(step_output(old(self)@)),
            bits == UNIT_EXPONENT_BITS + (step_output(old(self)@) >> 41),
            UNIT_EXPONENT_BITS <= bits < 0x4000_0000,
            final(self)@ == step_state(old(self)@),
            final(self)@ != (0u64, 0u64),
    {
        let raw: u64 = self.next_u64();
        let top: u64 = raw >> 41;
        assert(top < 0x80_0000) by (bit_vector)
            requires
                top == raw >> 41,
        ;
        let mantissa: u32 = top as u32;
        let bits: u32 = mantissa | UNIT_EXPONENT_BITS;
        assert(bits == mantissa + 0x3f80_0000 && bits == 0x3f80_0000u32 | mantissa) by (bit_vector)
            requires
                mantissa < 0x80_0000,
                bits == mantissa | 0x3f80_0000u32,
        ;
        bits
    }

    /// Draws an integer from the inclusive range `[min, max]`.
    ///
    /// A range of one value returns it without drawing. For a span that is a
    /// power of two the low bits of one word are taken. Otherwise words are
    /// drawn until one lies below the largest multiple of the span, and that
    /// word is reduced modulo the span, so that no value of the range is
    /// favoured. At most four words are discarded.
    pub fn next_int(&mut self, min: i32, max: i32) -> (v: i32)
        requires
            min <= max,
        ensures
            min <= v <= max,
            min == max ==> v == min && final(self)@ == old(self)@,
            v == int_draw(old(self)@, min, max).0,
            final(self)@ == int_draw(old(self)@, min, max).1,
            min < max ==> first_accepted(
                old(self)@,
                span_of(min, max) as u64,
                MAX_REJECTIONS as nat,
            ).0 < accept_limit(span_of(min, max) as u64),
            final(self)@ != (0u64, 0u64),
    {
        proof {
            use_type_invariant(&*self);
        }
        let span: u64 = (max as i64 - min as i64) as u64 + 1;
        if span == 1 {
            return min;
        }
        let ghost start = self@;
        proof {
            lemma_first_accepted_below_limit(start, span);
        }
        let value: u64 = if span & (span - 1) == 0 {
            let word: u64 = self.next_u64();
            let low: u64 = word & (span - 1);
            proof {
                lemma_mask_is_mod(word, span);
            }
            low
        } else {
            let bound: u64 = u64::MAX - u64::MAX % span;
            let ghost mut prev = start;
            let ghost mut discarded: nat = 0;
            let mut candidate: u64 = self.next_u64();
            while candidate >= bound
                invariant
                    bound == accept_limit(span),
                    bound >= REJECT_FLOOR,
                    candidate == step_output(prev),
                    self@ == step_state(prev),
                    self@ != (0u64, 0u64),
                    discarded <= MAX_REJECTIONS,
                    prev == state_after(start, discarded),
                    all_high(start, discarded),
                    first_accepted(start, span, MAX_REJECTIONS as nat) == first_accepted(
                        prev,
                        span,
                        (MAX_REJECTIONS - discarded) as nat,
                    ),
                decreases MAX_REJECTIONS - discarded,
            {
                proof {
                    assert(all_high(start, discarded + 1));
                    if discarded == MAX_REJECTIONS {
                        lemma_no_five_high_words(start);
                    }
                    prev = self@;
                    discarded = discarded + 1;
                }
                candidate = self.next_u64();
            }
            candidate % span
        };
        let offset: i64 = value as i64 + min as i64;
        offset as i32
    }
}

/// Seeding never gives the all-zero state, whatever the seed words are.
pub proof fn lemma_seeded_nonzero(seed0: u64, seed1: u64)
    ensures
        seeded(seed0, seed1) != (0u64, 0u64),
        seeded(0, 0) == (GOLDEN_GAMMA, 0u64),
{
}

/// No number of update steps leads from a state that is not all zero to the
/// all-zero state.
pub proof fn lemma_stream_never_zero(s: State, n: nat)
    requires
        s != (0u64, 0u64),
    ensures
        state_after(s, n) != (0u64, 0u64),
    decreases n,
{
    if n > 0 {
        lemma_stream_never_zero(s, (n - 1) as nat);
        let t = state_after(s, (n - 1) as nat);
        lemma_step_keeps_nonzero(t.0, t.1);
    }
}

/// Generators seeded with the same words are in the same state, so they
/// return the same word and the same integer of any range at every position
/// of their streams, and stay in step.
pub proof fn lemma_equal_seeds_equal_streams(
    a0: u64,
    a1: u64,
    b0: u64,
    b1: u64,
    n: nat,
    min: i32,
    max: i32,
)
    requires
        a0 == b0,
        a1 == b1,
    ensures
        state_after(seeded(a0, a1), n) == state_after(seeded(b0, b1), n),
        step_output(state_after(seeded(a0, a1), n)) == step_output(state_after(seeded(b0, b1), n)),
        int_draw(state_after(seeded(a0, a1), n), min, max) == int_draw(
            state_after(seeded(b0, b1), n),
            min,
            max,
        ),
{
}

/// What a draw returns depends on the state alone: two generators in the same
/// state return the same word, the same integer and the same float pattern,
/// and are in the same state afterwards.
pub proof fn lemma_draws_depend_on_state(a: Prng, b: Prng, min: i32, max: i32)
    requires
        a@ == b@,
    ensures
        step_output(a@) == step_output(b@),
        step_state(a@) == step_state(b@),
        unit_float_bits(step_output(a@)) == unit_float_bits(step_output(b@)),
        int_draw(a@, min, max) == int_draw(b@, min, max),
{
}

/// The candidates that are reduced modulo a span form a whole number of
/// copies of the span, so the reduction favours no residue; and fewer than
/// `span` of all 64-bit words are ever discarded.
pub proof fn lemma_accept_limit_unbiased(span: u64)
    requires
        1 <= span <= 0x1_0000_0000,
    ensures
        accept_limit(span) % (span as int) == 0,
        0x1_0000_0000_0000_0000 - span <= accept_limit(span) <= 0x1_0000_0000_0000_0000,
{
    if is_power_of_two(span) {
        lemma_power_of_two_values(span);
    } else {
        let m = u64::MAX as int;
        let d = span as int;
        vstd::arithmetic::div_mod::lemma_fundamental_div_mod(m, d);
        vstd::arithmetic::div_mod::lemma_mod_multiples_basic(m / d, d);
        assert(m - m % d == (m / d) * d) by (nonlinear_arith)
            requires
                m == d * (m / d) + m % d,
        ;
    }
}

/// A draw from a range whose span is a power of two consumes one word and
/// returns `min` plus the word's low bits, which are the word's residue
/// modulo the span: every word is accepted.
pub proof fn lemma_power_of_two_draw(s: State, min: i32, max: i32)
    requires
        min < max,
        is_power_of_two(span_of(min, max) as u64),
    ensures
        int_draw(s, min, max).1 == step_state(s),
        int_draw(s, min, max).0 == min + step_output(s) % (span_of(min, max) as u64),
        int_draw(s, min, max).0 == min + (step_output(s) & ((span_of(min, max) - 1) as u64)),
{
    lemma_mask_is_mod(step_output(s), span_of(min, max) as u64);
}

/// A draw from a range returns a value of the range, consumes at most five
/// words, and consumes none where the range holds one value.
pub proof fn lemma_int_draw_bounds(s: State, min: i32, max: i32)
    requires
        min <= max,
    ensures
        min <= int_draw(s, min, max).0 <= max,
        min == max ==> int_draw(s, min, max) == (min as int, s),
        exists|n: nat| 0 <= n <= 5 && int_draw(s, min, max).1 == #[trigger] state_after(s, n),
{
    let span = span_of(min, max) as u64;
    if span == 1 {
        assert(int_draw(s, min, max).1 == state_after(s, 0));
    } else {
        lemma_no_five_high_words(s);
        lemma_accept_limit_unbiased(span);
        reveal_with_fuel(all_high, 6);
        reveal_with_fuel(state_after, 6);
        reveal_with_fuel(first_accepted, 6);
        let end = int_draw(s, min, max).1;
        assert(end == state_after(s, 1) || end == state_after(s, 2) || end == state_after(s, 3)
            || end == state_after(s, 4) || end == state_after(s, 5));
    }
}

/// The wrapping sum of two words is among the top `2^32` values.
spec fn sum_high(s0: u64, s1: u64) -> bool {
    ((s0 + s1) as u64) >= 0xffff_ffff_0000_0000u64
}

/// First word of the state after one update step.
spec fn next_s0(s0: u64, s1: u64) -> u64 {
    ((s0 << 55) | (s0 >> 9)) ^ (s1 ^ s0) ^ ((s1 ^ s0) << 14)
}

/// Second word of the state after one update step.
spec fn next_s1(s0: u64, s1: u64) -> u64 {
    ((s1 ^ s0) << 36) | ((s1 ^ s0) >> 28)
}

/// No two words start five update steps that each return a word among the
/// top `2^32` values.
#[verifier::rlimit(100)]
proof fn lemma_no_five_high_sums(a0: u64, a1: u64)
    by (bit_vector)
    ensures
        !(sum_high(a0, a1) && sum_high(next_s0(a0, a1), next_s1(a0, a1)) && sum_high(
            next_s0(next_s0(a0, a1), next_s1(a0, a1)),
            next_s1(next_s0(a0, a1), next_s1(a0, a1)),
        ) && sum_high(
            next_s0(
                next_s0(next_s0(a0, a1), next_s1(a0, a1)),
                next_s1(next_s0(a0, a1), next_s1(a0, a1)),
            ),
            next_s1(
                next_s0(next_s0(a0, a1), next_s1(a0, a1)),
                next_s1(next_s0(a0, a1), next_s1(a0, a1)),
            ),
        ) && sum_high(
            next_s0(
                next_s0(
                    next_s0(next_s0(a0, a1), next_s1(a0, a1)),
                    next_s1(next_s0(a0, a1), next_s1(a0, a1)),
                ),
                next_s1(
                    next_s0(next_s0(a0, a1), next_s1(a0, a1)),
                    next_s1(next_s0(a0, a1), next_s1(a0, a1)),
                ),
            ),
            next_s1(
                next_s0(
                    next_s0(next_s0(a0, a1), next_s1(a0, a1)),
                    next_s1(next_s0(a0, a1), next_s1(a0, a1)),
                ),
                next_s1(
                    next_s0(next_s0(a0, a1), next_s1(a0, a1)),
                    next_s1(next_s0(a0, a1), next_s1(a0, a1)),
                ),
            ),
        )),
{
}

/// The update step and its output in terms of the two state words.
proof fn lemma_step_by_words(s: State)
    ensures
        step_state(s) == (next_s0(s.0, s.1), next_s1(s.0, s.1)),
        draws_high(s) == sum_high(s.0, s.1),
{
    let a = s.0;
    let b = s.1;
    assert(((a + b) as u64) == ((a + b) % 0x1_0000_0000_0000_0000) as u64) by (bit_vector);
}

/// From no state are five words in a row among the top `2^32` values, so a
/// draw from a range discards at most four candidates.
pub proof fn lemma_no_five_high_words(s: State)
    ensures
        !all_high(s, 5),
{
    let s1 = step_state(s);
    let s2 = step_state(s1);
    let s3 = step_state(s2);
    let s4 = step_state(s3);
    lemma_step_by_words(s);
    lemma_step_by_words(s1);
    lemma_step_by_words(s2);
    lemma_step_by_words(s3);
    lemma_step_by_words(s4);
    lemma_no_five_high_sums(s.0, s.1);
    reveal_with_fuel(all_high, 6);
    reveal_with_fuel(state_after, 6);
}

/// A draw from a range never runs out of its budget: the candidate that it
/// reduces lies below the accept limit, after at most four discarded ones.
pub proof fn lemma_first_accepted_below_limit(s: State, span: u64)
    requires
        2 <= span <= 0x1_0000_0000,
    ensures
        first_accepted(s, span, MAX_REJECTIONS as nat).0 < accept_limit(span),
{
    lemma_accept_limit_unbiased(span);
    lemma_no_five_high_words(s);
    reveal_with_fuel(all_high, 6);
    reveal_with_fuel(state_after, 6);
    reveal_with_fuel(first_accepted, 6);
}

/// One update step never reaches the all-zero state from another state.
pub proof fn lemma_step_keeps_nonzero(s0: u64, s1: u64)
    requires
        s0 != 0 || s1 != 0,
    ensures
        step_state((s0, s1)) != (0u64, 0u64),
{
    let t = s1 ^ s0;
    assert((s0 != 0 || s1 != 0) ==> (((s0 << 55) | (s0 >> 9)) ^ (s1 ^ s0) ^ ((s1 ^ s0) << 14)) != 0
        || (((s1 ^ s0) << 36) | ((s1 ^ s0) >> 28)) != 0) by (bit_vector);
}

/// The powers of two up to `2^32` are the 33 values `1, 2, 4, ..`, each a
/// divisor of `2^64`.
pub proof fn lemma_power_of_two_values(span: u64)
    requires
        is_power_of_two(span),
        span <= 0x1_0000_0000,
    ensures
        span == 0x1 || span == 0x2 || span == 0x4 || span == 0x8 || span == 0x10 || span == 0x20 || span == 0x40 || span == 0x80 || span == 0x100 || span == 0x200 || span == 0x400 || span == 0x800 || span == 0x1000 || span == 0x2000 || span == 0x4000 || span == 0x8000 || span == 0x10000 || span == 0x20000 || span == 0x40000 || span == 0x80000 || span == 0x100000 || span == 0x200000 || span == 0x400000 || span == 0x800000 || span == 0x1000000 || span == 0x2000000 || span == 0x4000000 || span == 0x8000000 || span == 0x10000000 || span == 0x20000000 || span == 0x40000000 || span == 0x80000000 || span == 0x100000000,
        0x1_0000_0000_0000_0000int % (span as int) == 0,
{
    assert(span != 0 && span & ((span - 1) as u64) == 0 && span <= 0x1_0000_0000 ==> (span == 0x1 || span == 0x2 || span == 0x4 || span == 0x8 || span == 0x10 || span == 0x20 || span == 0x40 || span == 0x80 || span == 0x100 || span == 0x200 || span == 0x400 || span == 0x800 || span == 0x1000 || span == 0x2000 || span == 0x4000 || span == 0x8000 || span == 0x10000 || span == 0x20000 || span == 0x40000 || span == 0x80000 || span == 0x100000 || span == 0x200000 || span == 0x400000 || span == 0x800000 || span == 0x1000000 || span == 0x2000000 || span == 0x4000000 || span == 0x8000000 || span == 0x10000000 || span == 0x20000000 || span == 0x40000000 || span == 0x80000000 || span == 0x100000000)) by (bit_vector);
}

/// For a power of two that a 32-bit range can span, masking the low bits of
/// a word is reduction modulo the span.
pub proof fn lemma_mask_is_mod(word: u64, span: u64)
    requires
        is_power_of_two(span),
        span <= 0x1_0000_0000,
    ensures
        word & ((span - 1) as u64) == word % span,
{
    lemma_power_of_two_values(span);
    vstd::arithmetic::power2::lemma2_to64();
    vstd::bits::lemma_low_bits_mask_values();
    if span == 1 {
        assert(word & 0 == 0) by (bit_vector);
    }
    if span == 0x2 {
        vstd::bits::lemma_u64_low_bits_mask_is_mod(word, 1);
    }
    if span == 0x4 {
        vstd::bits::lemma_u64_low_bits_mask_is_mod(word, 2);
    }
    if span == 0x8 {
        vstd::bits::lemma_u64_low_bits_mask_is_mod(word, 3);
    }
    if span == 0x10 {
        vstd::bits::lemma_u64_low_bits_mask_is_mod(word, 4);
    }
    if span == 0x20 {
        vstd::bits::lemma_u64_low_bits_mask_is_mod(word, 5);
    }
    if span == 0x40 {
        vstd::bits::lemma_u64_low_bits_mask_is_mod(word, 6);
    }
    if span == 0x80 {
        vstd::bits::lemma_u64_low_bits_mask_is_mod(word, 7);
    }
    if span == 0x100 {
        vstd::bits::lemma_u64_low_bits_mask_is_mod(word, 8);
    }
    if span == 0x200 {
        vstd::bits::lemma_u64_low_bits_mask_is_mod(word, 9);
    }
    if span == 0x400 {
        vstd::bits::lemma_u64_low_bits_mask_is_mod(word, 10);
    }
    if span == 0x800 {
        vstd::bits::lemma_u64_low_bits_mask_is_mod(word, 11);
    }
    if span == 0x1000 {
        vstd::bits::lemma_u64_low_bits_mask_is_mod(word, 12);
    }
    if span == 0x2000 {
        vstd::bits::lemma_u64_low_bits_mask_is_mod(word, 13);
    }
    if span == 0x4000 {
        vstd::bits::lemma_u64_low_bits_mask_is_mod(word, 14);
    }
    if span == 0x8000 {
        vstd::bits::lemma_u64_low_bits_mask_is_mod(word, 15);
    }
    if span == 0x10000 {
        vstd::bits::lemma_u64_low_bits_mask_is_mod(word, 16);
    }
    if span == 0x20000 {
        vstd::bits::lemma_u64_low_bits_mask_is_mod(word, 17);
    }
    if span == 0x40000 {
        vstd::bits::lemma_u64_low_bits_mask_is_mod(word, 18);
    }
    if span == 0x80000 {
        vstd::bits::lemma_u64_low_bits_mask_is_mod(word, 19);
    }
    if span == 0x100000 {
        vstd::bits::lemma_u64_low_bits_mask_is_mod(word, 20);
    }
    if span == 0x200000 {
        vstd::bits::lemma_u64_low_bits_mask_is_mod(word, 21);
    }
    if span == 0x400000 {
        vstd::bits::lemma_u64_low_bits_mask_is_mod(word, 22);
    }
    if span == 0x800000 {
        vstd::bits::lemma_u64_low_bits_mask_is_mod(word, 23);
    }
    if span == 0x1000000 {
        vstd::bits::lemma_u64_low_bits_mask_is_mod(word, 24);
    }
    if span == 0x2000000 {
        vstd::bits::lemma_u64_low_bits_mask_is_mod(word, 25);
    }
    if span == 0x4000000 {
        vstd::bits::lemma_u64_low_bits_mask_is_mod(word, 26);
    }
    if span == 0x8000000 {
        vstd::bits::lemma_u64_low_bits_mask_is_mod(word, 27);
    }
    if span == 0x10000000 {
        vstd::bits::lemma_u64_low_bits_mask_is_mod(word, 28);
    }
    if span == 0x20000000 {
        vstd::bits::lemma_u64_low_bits_mask_is_mod(word, 29);
    }
    if span == 0x40000000 {
        vstd::bits::lemma_u64_low_bits_mask_is_mod(word, 30);
    }
    if span == 0x80000000 {
        vstd::bits::lemma_u64_low_bits_mask_is_mod(word, 31);
    }
    if span == 0x100000000 {
        vstd::bits::lemma_u64_low_bits_mask_is_mod(word, 32);
    }
}

} // verus!
