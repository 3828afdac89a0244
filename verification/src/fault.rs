//! The per-direction fault pipeline.

pub use crate::seed::derive_seed;

use crate::bits::{
    bit_differs, differing_bits, flip_bits, hamming_distance, invert_bit,
    law_flip_bits_changes_exactly, matching_below, nth_matching_bit, positions_within,
};
use crate::config::FaultConfig;
use crate::probability::Probability;
use crate::rng::{
    double_word, draw_below, draw_double_word, draw_up_to, ranged_draw, seeded, seeded_words,
    skip_words, upcoming,
};
use rand::rngs::StdRng;
use vstd::prelude::*;

verus! {

/// Per-chunk decisions produced by the pipeline.
#[derive(Debug)]
pub struct Outcome {
    /// The (possibly corrupted) chunk to forward. `None` means "drop this chunk".
    pub payload: Option<Vec<u8>>,
    /// If `true`, the connection should be closed after this chunk is processed.
    pub close_after: bool,
    /// Whether the drop fault fired on this chunk.
    pub dropped: bool,
    /// Whether the corrupt fault fired on this chunk.
    pub corrupted: bool,
    /// Whether this chunk is to be delayed at all.
    pub latency_applied: bool,
    /// How long to wait, in milliseconds, before acting on the rest of the outcome.
    pub latency_ms: u64,
}

/// An outcome with its payload as a sequence of bytes.
#[verifier::ext_equal]
pub struct OutcomeView {
    pub payload: Option<Seq<u8>>,
    pub close_after: bool,
    pub dropped: bool,
    pub corrupted: bool,
    pub latency_applied: bool,
    pub latency_ms: u64,
}

impl View for Outcome {
    type V = OutcomeView;

    open spec fn view(&self) -> OutcomeView {
        OutcomeView {
            payload: match self.payload {
                Some(bytes) => Some(bytes@),
                None => None,
            },
            close_after: self.close_after,
            dropped: self.dropped,
            corrupted: self.corrupted,
            latency_applied: self.latency_applied,
            latency_ms: self.latency_ms,
        }
    }
}

/// Running counters for fault events on a single stream (one direction of one
/// connection). The event counters wrap around at the largest `u64`.
#[derive(Debug, Clone, Copy, PartialEq, Eq, Structural)]
pub struct InjectionStats {
    pub latency_events: u64,
    pub dropped: u64,
    pub corrupted: u64,
    /// 0 or 1: a stream is closed at most once.
    pub closed: u64,
}

/// `n` counted up by one if `event` happened.
pub open spec fn counted(n: u64, event: bool) -> u64 {
    if event {
        n.wrapping_add(1)
    } else {
        n
    }
}

impl InjectionStats {
    /// The counters before any chunk.
    pub open spec fn zero() -> InjectionStats {
        InjectionStats { latency_events: 0, dropped: 0, corrupted: 0, closed: 0 }
    }

    /// The counters once a chunk with this outcome has been processed.
    pub open spec fn after(self, outcome: OutcomeView) -> InjectionStats {
        InjectionStats {
            latency_events: counted(self.latency_events, outcome.latency_applied),
            dropped: counted(self.dropped, outcome.dropped),
            corrupted: counted(self.corrupted, outcome.corrupted),
            closed: if outcome.close_after {
                1
            } else {
                self.closed
            },
        }
    }

    /// Counts the events of one processed chunk.
    pub fn record(&mut self, outcome: &Outcome)
        ensures
            *final(self) == old(self).after(outcome@),
    {
        if outcome.latency_applied {
            self.latency_events = self.latency_events.wrapping_add(1);
        }
        if outcome.dropped {
            self.dropped = self.dropped.wrapping_add(1);
        }
        if outcome.corrupted {
            self.corrupted = self.corrupted.wrapping_add(1);
        }
        if outcome.close_after {
            self.closed = 1;
        }
    }
}

impl Default for InjectionStats {
    fn default() -> (stats: Self)
        ensures
            stats == InjectionStats::zero(),
    {
        InjectionStats { latency_events: 0, dropped: 0, corrupted: 0, closed: 0 }
    }
}

/// The delay of one chunk, given the jitter that was drawn for it.
pub open spec fn delay_with(latency_ms: u64, jitter_ms: u64) -> u64 {
    latency_ms.saturating_add(jitter_ms)
}

/// The delay of the next chunk, and the words left after drawing its jitter. No
/// word is taken where the settings ask for no jitter.
pub open spec fn latency_step(config: FaultConfig, words: Map<nat, u32>) -> (u64, Map<nat, u32>) {
    if config.latency_jitter_ms > 0 {
        let (jitter, used) = ranged_draw(words, config.latency_jitter_ms, 64);
        (delay_with(config.latency_ms, jitter), skip_words(words, used))
    } else {
        (config.latency_ms, words)
    }
}

/// Whether a fault of probability `p` fires, and the words left after rolling for
/// it. Certain and impossible faults take no word.
pub open spec fn roll_step(p: Probability, words: Map<nat, u32>) -> (bool, Map<nat, u32>) {
    if p.at_most_zero() {
        (false, words)
    } else if p.at_least_one() {
        (true, words)
    } else {
        (p.exceeds(double_word(words)), skip_words(words, 2))
    }
}

/// The number of bits of a chunk of `len` bytes that a position can name.
pub open spec fn drawable_bits(len: nat) -> nat {
    if 8 * len <= usize::MAX {
        8 * len
    } else {
        usize::MAX as nat
    }
}

/// How many bits corruption flips in a chunk of `len` bytes.
pub open spec fn bits_to_flip(corrupt_bits: u32, len: nat) -> nat {
    if (corrupt_bits as nat) < drawable_bits(len) {
        corrupt_bits as nat
    } else {
        drawable_bits(len)
    }
}

/// How many positions below `n` have not been chosen.
pub open spec fn free_below(chosen: Seq<int>, n: int) -> nat
    decreases n,
{
    if n <= 0 {
        0
    } else if chosen.contains(n - 1) {
        free_below(chosen, n - 1)
    } else {
        free_below(chosen, n - 1) + 1
    }
}

/// `p` has not been chosen, and has `rank` positions below it that have not.
pub open spec fn is_nth_free(chosen: Seq<int>, rank: nat, p: int) -> bool {
    0 <= p && !chosen.contains(p) && free_below(chosen, p) == rank
}

/// The first `n` bit positions drawn without replacement from the first `total`, and
/// the words left after drawing them.
///
/// Each position is drawn as a `usize` from all `total`. Where the draw hits a position that was
/// chosen before, a second draw picks one of those still free. So if the draws are
/// uniform, each free position is as likely as the others to be chosen next.
pub open spec fn choose_bits(words: Map<nat, u32>, total: nat, n: nat) -> (
    Seq<int>,
    Map<nat, u32>,
)
    decreases n,
{
    if n == 0 {
        (Seq::<int>::empty(), words)
    } else {
        let (chosen, before) = choose_bits(words, total, (n - 1) as nat);
        let (drawn, used) = ranged_draw(before, (total - 1) as u64, usize::BITS);
        let rest = skip_words(before, used);
        if chosen.contains(drawn as int) {
            let (rank, used_again) = ranged_draw(rest, (total - n) as u64, usize::BITS);
            let position = choose|p: int| is_nth_free(chosen, rank as nat, p);
            (chosen.push(position), skip_words(rest, used_again))
        } else {
            (chosen.push(drawn as int), rest)
        }
    }
}

/// Each of the numbers drawn on the way to the first `n` positions lies in the range
/// that it was drawn from.
pub open spec fn draws_in_range(words: Map<nat, u32>, total: nat, n: nat) -> bool
    decreases n,
{
    if n == 0 {
        true
    } else {
        let (chosen, before) = choose_bits(words, total, (n - 1) as nat);
        let (drawn, used) = ranged_draw(before, (total - 1) as u64, usize::BITS);
        let (rank, _) = ranged_draw(
            skip_words(before, used),
            (total - n) as u64,
            usize::BITS,
        );
        &&& draws_in_range(words, total, (n - 1) as nat)
        &&& drawn < total
        &&& chosen.contains(drawn as int) ==> rank <= total - n
    }
}

/// What corruption makes of a chunk, and the words left afterwards.
pub open spec fn corrupt_step(corrupt_bits: u32, words: Map<nat, u32>, chunk: Seq<u8>) -> (
    Seq<u8>,
    Map<nat, u32>,
) {
    let count = bits_to_flip(corrupt_bits, chunk.len());
    let (chosen, rest) = choose_bits(words, drawable_bits(chunk.len()), count);
    (flip_bits(chunk, chosen), rest)
}

/// The words from which the bits to flip are drawn: those left after the delay and
/// the rolls for drop and corrupt.
pub open spec fn words_for_bits(config: FaultConfig, words: Map<nat, u32>) -> Map<nat, u32> {
    let after_latency = latency_step(config, words).1;
    let after_drop = roll_step(config.drop_probability, after_latency).1;
    roll_step(config.corrupt_probability, after_drop).1
}

/// What the pipeline does with one chunk, and the words left afterwards.
pub open spec fn chunk_step(config: FaultConfig, words: Map<nat, u32>, chunk: Seq<u8>) -> (
    OutcomeView,
    Map<nat, u32>,
) {
    let (latency_ms, after_latency) = latency_step(config, words);
    let (dropped, after_drop) = roll_step(config.drop_probability, after_latency);
    let (corrupted, after_roll) = if dropped {
        (false, after_drop)
    } else {
        roll_step(config.corrupt_probability, after_drop)
    };
    let (bytes, after_corrupt) = if corrupted {
        corrupt_step(config.corrupt_bits, after_roll, chunk)
    } else {
        (chunk, after_roll)
    };
    let (close_after, rest) = roll_step(config.close_probability, after_corrupt);
    let outcome = OutcomeView {
        payload: if dropped {
            None
        } else {
            Some(bytes)
        },
        close_after,
        dropped,
        corrupted,
        latency_applied: latency_ms != 0,
        latency_ms,
    };
    (outcome, rest)
}

/// The delay of one chunk: the fixed part plus the drawn jitter, capped at the
/// largest number of milliseconds.
pub fn chunk_delay(latency_ms: u64, jitter_ms: u64) -> (delay_ms: u64)
    ensures
        delay_ms == delay_with(latency_ms, jitter_ms),
        delay_ms == if latency_ms + jitter_ms > u64::MAX {
            u64::MAX as int
        } else {
            latency_ms + jitter_ms
        },
{
    latency_ms.saturating_add(jitter_ms)
}

/// Composable fault pipeline for one direction of a single connection.
///
/// Steps are applied in this fixed order per chunk: `latency` (sleep for
/// `latency_ms` + Uniform(0, `latency_jitter_ms`)), then `drop` (with
/// `drop_probability`, discard the chunk), then `corrupt` (with
/// `corrupt_probability`, flip `corrupt_bits` random bits), then `close`
/// (with `close_probability`, signal that the connection should be closed
/// after this chunk).
///
/// `drop` runs before `corrupt`, so a dropped chunk is never also corrupted
/// (there is nothing to corrupt). `close` is evaluated regardless of whether
/// the chunk was dropped, because a dropped chunk is still a processed chunk.
pub struct FaultPipeline {
    config: FaultConfig,
    rng: StdRng,
    stats: InjectionStats,
}

impl FaultPipeline {
    /// The settings of the pipeline.
    pub closed spec fn config(self) -> FaultConfig {
        self.config
    }

    /// The random words that the pipeline has still to use.
    pub closed spec fn words(self) -> Map<nat, u32> {
        upcoming(self.rng)
    }

    /// The events counted so far.
    pub closed spec fn injected(self) -> InjectionStats {
        self.stats
    }

    /// The close counter is a flag.
    pub open spec fn wf(self) -> bool {
        self.injected().closed <= 1
    }

    /// A pipeline that has seen no chunk yet, its random stream given by `seed`.
    pub fn new(config: FaultConfig, seed: u64) -> (pipeline: Self)
        ensures
            pipeline.wf(),
            made_with(pipeline, config, seed),
            pipeline.config() == config,
            pipeline.words() == seeded_words(seed),
            pipeline.injected() == (InjectionStats {
                latency_events: 0,
                dropped: 0,
                corrupted: 0,
                closed: 0,
            }),
    {
        FaultPipeline { config, rng: seeded(seed), stats: InjectionStats::default() }
    }

    /// Apply the pipeline to a single chunk. The caller waits for the outcome's
    /// `latency_ms` before it acts on the rest.
    pub fn process(&mut self, chunk: Vec<u8>) -> (outcome: Outcome)
        ensures
            processed(*old(self), *final(self), chunk@, outcome@),
            old(self).wf() ==> final(self).wf(),
    {
        let config = self.config;
        let latency_ms: u64 = self.compute_latency();
        let dropped = self.roll(config.drop_probability);
        let corrupted = !dropped && self.roll(config.corrupt_probability);
        let payload = if dropped {
            None
        } else if corrupted {
            Some(self.corrupt(chunk))
        } else {
            Some(chunk)
        };
        let close_after = self.roll(config.close_probability);
        let outcome = Outcome {
            payload,
            close_after,
            dropped,
            corrupted,
            latency_applied: latency_ms != 0,
            latency_ms,
        };
        self.stats.record(&outcome);
        outcome
    }

    /// The events counted so far.
    pub fn stats(&self) -> (stats: InjectionStats)
        ensures
            stats == self.injected(),
    {
        self.stats
    }

    fn compute_latency(&mut self) -> (delay_ms: u64)
        ensures
            (delay_ms, final(self).words()) == latency_step(old(self).config(), old(self).words()),
            old(self).config().latency_ms <= delay_ms <= delay_with(
                old(self).config().latency_ms,
                old(self).config().latency_jitter_ms,
            ),
            final(self).config() == old(self).config(),
            final(self).injected() == old(self).injected(),
    {
        if self.config.latency_jitter_ms > 0 {
            let jitter: u64 = draw_up_to(&mut self.rng, self.config.latency_jitter_ms);
            chunk_delay(self.config.latency_ms, jitter)
        } else {
            chunk_delay(self.config.latency_ms, 0)
        }
    }

    // Short-circuit the endpoints so a zero-probability fault doesn't consume
    // any RNG entropy: keeps sequences stable if a user toggles a fault off.
    fn roll(&mut self, p: Probability) -> (fires: bool)
        ensures
            (fires, final(self).words()) == roll_step(p, old(self).words()),
            final(self).config() == old(self).config(),
            final(self).injected() == old(self).injected(),
    {
        if p.is_at_most_zero() {
            return false;
        }
        if p.is_at_least_one() {
            return true;
        }
        p.is_above(draw_double_word(&mut self.rng))
    }

    fn corrupt(&mut self, chunk: Vec<u8>) -> (out: Vec<u8>)
        ensures
            (out@, final(self).words()) == corrupt_step(
                old(self).config().corrupt_bits,
                old(self).words(),
                chunk@,
            ),
            draws_in_range(
                old(self).words(),
                drawable_bits(chunk@.len()),
                bits_to_flip(old(self).config().corrupt_bits, chunk@.len()),
            ),
            out@.len() == chunk@.len(),
            hamming_distance(chunk@, out@) == bits_to_flip(
                old(self).config().corrupt_bits,
                chunk@.len(),
            ),
            final(self).config() == old(self).config(),
            final(self).injected() == old(self).injected(),
    {
        let total_bits: usize = match chunk.len().checked_mul(8) {
            Some(n) => n,
            None => usize::MAX,
        };
        let wanted: usize = self.config.corrupt_bits as usize;
        let count: usize = if wanted < total_bits {
            wanted
        } else {
            total_bits
        };
        let original = chunk.clone();
        let mut out = chunk;
        assert(original@ =~= chunk@);
        let ghost words = self.words();
        let ghost total = total_bits as nat;
        proof {
            lemma_all_free(total_bits as int);
        }
        let mut i: usize = 0;
        while i < count
            invariant
                i <= count <= total_bits,
                total_bits <= 8 * original@.len(),
                total == total_bits,
                out@ == flip_bits(original@, choose_bits(words, total, i as nat).0),
                self.words() == choose_bits(words, total, i as nat).1,
                distinct_below(choose_bits(words, total, i as nat).0, total_bits as int),
                choose_bits(words, total, i as nat).0.len() == i,
                draws_in_range(words, total, i as nat),
                free_below(choose_bits(words, total, i as nat).0, total_bits as int) == total_bits
                    - i,
                self.config() == old(self).config(),
                self.injected() == old(self).injected(),
            decreases count - i,
        {
            let ghost chosen = choose_bits(words, total, i as nat).0;
            proof {
                law_flip_bits_changes_exactly(original@, chosen);
            }
            let drawn: usize = draw_below(&mut self.rng, total_bits);
            assert(differing_bits(original@, out@).contains(drawn as int) == chosen.to_set().contains(
                drawn as int,
            ));
            let position: usize = if bit_differs(&original, &out, drawn) {
                let rank: usize = draw_below(&mut self.rng, total_bits - i);
                proof {
                    lemma_free_bits_match(original@, chosen, total_bits as int);
                }
                let p: usize = nth_matching_bit(&original, &out, rank, total_bits);
                proof {
                    lemma_free_bits_match(original@, chosen, p as int);
                    assert(differing_bits(original@, out@).contains(p as int)
                        == chosen.to_set().contains(p as int));
                    assert(is_nth_free(chosen, rank as nat, p as int));
                    let q = choose|q: int| is_nth_free(chosen, rank as nat, q);
                    lemma_nth_free_is_unique(chosen, rank as nat, p as int, q);
                }
                p
            } else {
                drawn
            };
            invert_bit(&mut out, position);
            proof {
                let next = choose_bits(words, total, (i + 1) as nat).0;
                assert(next == chosen.push(position as int));
                assert(next.drop_last() =~= chosen);
                lemma_choosing_takes_one(chosen, position as int, total_bits as int);
            }
            i += 1;
        }
        proof {
            law_flip_bits_changes_exactly(original@, choose_bits(words, total, count as nat).0);
        }
        out
    }
}

/// Before anything is chosen, every position is free.
proof fn lemma_all_free(n: int)
    requires
        0 <= n,
    ensures
        free_below(Seq::<int>::empty(), n) == n,
    decreases n,
{
    if n > 0 {
        lemma_all_free(n - 1);
    }
}

/// Choosing a free position leaves one free position less above it.
proof fn lemma_choosing_takes_one(chosen: Seq<int>, p: int, n: int)
    requires
        0 <= p,
        !chosen.contains(p),
    ensures
        free_below(chosen.push(p), n) == free_below(chosen, n) - if p < n {
            1int
        } else {
            0int
        },
    decreases n,
{
    if n > 0 {
        lemma_choosing_takes_one(chosen, p, n - 1);
        let next = chosen.push(p);
        if chosen.contains(n - 1) {
            let i = chosen.index_of(n - 1);
            assert(next[i] == n - 1);
        }
        if next.contains(n - 1) && n - 1 != p {
            let i = next.index_of(n - 1);
            assert(chosen[i] == n - 1);
        }
        if n - 1 == p {
            assert(next[chosen.len() as int] == p);
        }
    }
}

/// There are no fewer free positions below a larger bound.
proof fn lemma_free_below_grows(chosen: Seq<int>, n: int, m: int)
    requires
        n <= m,
    ensures
        free_below(chosen, n) <= free_below(chosen, m),
    decreases m - n,
{
    if n < m {
        lemma_free_below_grows(chosen, n, m - 1);
    }
}

/// No two free positions have the same number of free positions below them.
proof fn lemma_nth_free_is_unique(chosen: Seq<int>, rank: nat, p: int, q: int)
    requires
        is_nth_free(chosen, rank, p),
        is_nth_free(chosen, rank, q),
    ensures
        p == q,
{
    if p < q {
        lemma_free_below_grows(chosen, p + 1, q);
    } else if q < p {
        lemma_free_below_grows(chosen, q + 1, p);
    }
}

/// Every rank below the number of free positions belongs to one of them.
proof fn lemma_nth_free_exists(chosen: Seq<int>, rank: nat, n: int) -> (p: int)
    requires
        rank < free_below(chosen, n),
    ensures
        p < n,
        is_nth_free(chosen, rank, p),
    decreases n,
{
    if rank < free_below(chosen, n - 1) {
        lemma_nth_free_exists(chosen, rank, n - 1)
    } else {
        n - 1
    }
}

/// The number of free positions is the size of the set of them.
pub proof fn law_free_positions_are_counted(chosen: Seq<int>, n: int)
    ensures
        Set::new(|p: int| 0 <= p < n && !chosen.contains(p)).finite(),
        free_below(chosen, n) == Set::new(|p: int| 0 <= p < n && !chosen.contains(p)).len(),
    decreases n,
{
    let free = Set::new(|p: int| 0 <= p < n && !chosen.contains(p));
    if n <= 0 {
        assert(free =~= Set::empty());
    } else {
        law_free_positions_are_counted(chosen, n - 1);
        let fewer = Set::new(|p: int| 0 <= p < n - 1 && !chosen.contains(p));
        if chosen.contains(n - 1) {
            assert(free =~= fewer);
        } else {
            assert(free =~= fewer.insert(n - 1));
        }
    }
}

/// If the draws lie in their ranges, the positions chosen are distinct, and the last
/// of them is either the number drawn or, if that was taken, the free position of
/// the rank drawn next.
pub proof fn lemma_chosen_bits(words: Map<nat, u32>, total: nat, n: nat)
    requires
        draws_in_range(words, total, n),
        n <= total,
    ensures
        ({
            let chosen = choose_bits(words, total, n).0;
            &&& chosen.len() == n
            &&& distinct_below(chosen, total as int)
            &&& free_below(chosen, total as int) == total - n
        }),
        n > 0 ==> {
            let (prev, before) = choose_bits(words, total, (n - 1) as nat);
            let (drawn, used) = ranged_draw(before, (total - 1) as u64, usize::BITS);
            let rest = skip_words(before, used);
            let (rank, used_again) = ranged_draw(rest, (total - n) as u64, usize::BITS);
            let (chosen, left) = choose_bits(words, total, n);
            &&& chosen.drop_last() == prev
            &&& if prev.contains(drawn as int) {
                &&& is_nth_free(prev, rank as nat, chosen.last())
                &&& left == skip_words(rest, used_again)
            } else {
                &&& chosen.last() == drawn
                &&& left == rest
            }
        },
    decreases n,
{
    if n == 0 {
        lemma_all_free(total as int);
    } else {
        lemma_chosen_bits(words, total, (n - 1) as nat);
        let (prev, before) = choose_bits(words, total, (n - 1) as nat);
        let (drawn, used) = ranged_draw(before, (total - 1) as u64, usize::BITS);
        let rest = skip_words(before, used);
        let rank = ranged_draw(rest, (total - n) as u64, usize::BITS).0;
        let chosen = choose_bits(words, total, n).0;
        if prev.contains(drawn as int) {
            let p = lemma_nth_free_exists(prev, rank as nat, total as int);
            let q = choose|q: int| is_nth_free(prev, rank as nat, q);
            lemma_nth_free_is_unique(prev, rank as nat, p, q);
        }
        assert(chosen.drop_last() =~= prev);
        lemma_choosing_takes_one(prev, chosen.last(), total as int);
        assert(chosen == prev.push(chosen.last()));
    }
}

/// The positions chosen first do not depend on how many are chosen after them.
pub proof fn lemma_chosen_bits_prefix(words: Map<nat, u32>, total: nat, i: nat, n: nat)
    requires
        draws_in_range(words, total, n),
        i <= n <= total,
    ensures
        draws_in_range(words, total, i),
        choose_bits(words, total, i).0 == choose_bits(words, total, n).0.take(i as int),
    decreases n,
{
    lemma_chosen_bits(words, total, n);
    let chosen = choose_bits(words, total, n).0;
    if i < n {
        lemma_chosen_bits_prefix(words, total, i, (n - 1) as nat);
        assert(chosen.drop_last().take(i as int) =~= chosen.take(i as int));
    } else {
        assert(chosen.take(n as int) =~= chosen);
    }
}

/// The free positions are those whose bits have not been flipped.
proof fn lemma_free_bits_match(original: Seq<u8>, chosen: Seq<int>, n: int)
    requires
        positions_within(chosen, original),
        chosen.no_duplicates(),
        n <= 8 * original.len(),
    ensures
        matching_below(original, flip_bits(original, chosen), n) == free_below(chosen, n),
    decreases n,
{
    if n > 0 {
        lemma_free_bits_match(original, chosen, n - 1);
        law_flip_bits_changes_exactly(original, chosen);
        assert(differing_bits(original, flip_bits(original, chosen)).contains(n - 1)
            == chosen.to_set().contains(n - 1));
    }
}

/// The positions are distinct and lie below `bound`.
pub open spec fn distinct_below(positions: Seq<int>, bound: int) -> bool {
    &&& positions.no_duplicates()
    &&& forall|i: int| 0 <= i < positions.len() ==> 0 <= #[trigger] positions[i] < bound
}

/// The pipeline has these settings, draws from the random stream of `seed`, and has
/// seen no chunk yet.
pub open spec fn made_with(pipeline: FaultPipeline, config: FaultConfig, seed: u64) -> bool {
    &&& pipeline.config() == config
    &&& pipeline.words() == seeded_words(seed)
    &&& pipeline.injected() == InjectionStats::zero()
}

/// The pipeline went from `before` to `after` by processing `chunk` with this
/// outcome. The outcome is that of `chunk_step`; its delay keeps within the
/// settings, what is forwarded has the length of the chunk, and a corrupted chunk
/// has as many bits flipped as the settings ask for.
pub open spec fn processed(
    before: FaultPipeline,
    after: FaultPipeline,
    chunk: Seq<u8>,
    outcome: OutcomeView,
) -> bool {
    &&& (outcome, after.words()) == chunk_step(before.config(), before.words(), chunk)
    &&& after.config() == before.config()
    &&& after.injected() == before.injected().after(outcome)
    &&& before.config().latency_ms <= outcome.latency_ms <= delay_with(
        before.config().latency_ms,
        before.config().latency_jitter_ms,
    )
    &&& outcome.corrupted ==> draws_in_range(
        words_for_bits(before.config(), before.words()),
        drawable_bits(chunk.len()),
        bits_to_flip(before.config().corrupt_bits, chunk.len()),
    )
    &&& outcome.payload matches Some(payload) ==> payload.len() == chunk.len()
    &&& outcome.corrupted ==> hamming_distance(chunk, outcome.payload->0) == bits_to_flip(
        before.config().corrupt_bits,
        chunk.len(),
    )
}

} // verus!
