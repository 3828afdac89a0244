//! What holds of the fault pipeline and of the proxy as a whole.

use crate::bits::{
    bit_at, differing_bits, hamming_distance, law_flip_bits_changes_exactly,
};
use crate::config::FaultConfig;
use crate::fault::{
    bits_to_flip, choose_bits, chunk_step, counted, drawable_bits, latency_step,
    law_free_positions_are_counted, lemma_chosen_bits, lemma_chosen_bits_prefix, made_with,
    processed, roll_step, words_for_bits, FaultPipeline, InjectionStats, Outcome, OutcomeView,
};
use crate::probability::Probability;
use crate::proxy::{
    accept_stepped, fresh_pipeline, starts, stepped, AcceptAction, AcceptEvent, ConnectionIds,
    Direction, ForwardAction, ForwardActionView, ForwardEvent, ForwardEventView, ForwardFailure,
    ForwardModel, Forwarder, PhaseView, BUFFER_SIZE, FIRST_CONN_ID, SHUTDOWN_DRAIN_TIMEOUT_MS,
};
use crate::rng::{double_word, ranged_draw, skip_words};
use crate::seed::{stream_seed, CONNECTION_FACTOR, DIRECTION_FACTOR};
use crate::stats::{DirectionStats, Stats};
use vstd::prelude::*;

verus! {

// ---------------------------------------------------------------------------
// The fault pipeline, chunk by chunk
// ---------------------------------------------------------------------------

/// The default settings do nothing: every chunk goes out at once and unchanged,
/// and no random word is used.
pub proof fn law_default_settings_do_nothing(words: Map<nat, u32>, chunk: Seq<u8>)
    ensures
        chunk_step(FaultConfig::benign(), words, chunk) == (
            OutcomeView {
                payload: Some(chunk),
                close_after: false,
                dropped: false,
                corrupted: false,
                latency_applied: false,
                latency_ms: 0,
            },
            words,
        ),
{
}

/// With drop, corrupt and close switched off, every chunk is forwarded unchanged,
/// whatever the latency.
pub proof fn law_latency_alone_loses_nothing(
    config: FaultConfig,
    words: Map<nat, u32>,
    chunk: Seq<u8>,
)
    requires
        config.drop_probability.at_most_zero(),
        config.corrupt_probability.at_most_zero(),
        config.close_probability.at_most_zero(),
    ensures
        chunk_step(config, words, chunk).0.payload == Some(chunk),
        !chunk_step(config, words, chunk).0.dropped,
        !chunk_step(config, words, chunk).0.corrupted,
        !chunk_step(config, words, chunk).0.close_after,
{
}

/// A chunk is either dropped, and then neither forwarded nor corrupted, or it is
/// forwarded at its full length; unless it is corrupted, its bytes are unchanged.
pub proof fn law_dropped_or_forwarded(
    before: FaultPipeline,
    after: FaultPipeline,
    chunk: Seq<u8>,
    outcome: OutcomeView,
)
    requires
        processed(before, after, chunk, outcome),
    ensures
        outcome.dropped <==> outcome.payload is None,
        outcome.dropped ==> !outcome.corrupted,
        outcome.payload matches Some(payload) ==> payload.len() == chunk.len(),
        !outcome.dropped && !outcome.corrupted ==> outcome.payload == Some(chunk),
{
}

/// Corruption flips exactly as many distinct bits as the settings say, or every bit
/// if the chunk has fewer.
pub proof fn law_corruption_flips_distinct_bits(
    before: FaultPipeline,
    after: FaultPipeline,
    chunk: Seq<u8>,
    outcome: OutcomeView,
)
    requires
        processed(before, after, chunk, outcome),
        outcome.corrupted,
    ensures
        hamming_distance(chunk, outcome.payload->0) == if before.config().corrupt_bits <= 8
            * chunk.len() {
            before.config().corrupt_bits as nat
        } else {
            8 * chunk.len()
        },
{
}

/// A certain drop fault drops every chunk.
pub proof fn law_certain_drop(config: FaultConfig, words: Map<nat, u32>, chunk: Seq<u8>)
    requires
        config.drop_probability.at_least_one(),
    ensures
        chunk_step(config, words, chunk).0.dropped,
        chunk_step(config, words, chunk).0.payload is None,
{
}

/// An impossible drop fault drops no chunk.
pub proof fn law_impossible_drop(config: FaultConfig, words: Map<nat, u32>, chunk: Seq<u8>)
    requires
        config.drop_probability.at_most_zero(),
    ensures
        !chunk_step(config, words, chunk).0.dropped,
        chunk_step(config, words, chunk).0.payload is Some,
{
}

/// A certain corrupt fault corrupts every chunk that is not dropped, an impossible
/// one corrupts none.
pub proof fn law_corrupt_endpoints(config: FaultConfig, words: Map<nat, u32>, chunk: Seq<u8>)
    ensures
        ({
            let outcome = chunk_step(config, words, chunk).0;
            &&& config.corrupt_probability.at_least_one() ==> outcome.corrupted == !outcome.dropped
            &&& config.corrupt_probability.at_most_zero() ==> !outcome.corrupted
        }),
{
}

/// The close fault is evaluated whether or not the chunk was dropped: a certain one
/// closes after every chunk, an impossible one after none.
pub proof fn law_close_endpoints(config: FaultConfig, words: Map<nat, u32>, chunk: Seq<u8>)
    ensures
        config.close_probability.at_least_one() ==> chunk_step(config, words, chunk).0.close_after,
        config.close_probability.at_most_zero() ==> !chunk_step(config, words, chunk).0.close_after,
{
}

/// With no bits to flip, or nothing to flip them in, a corrupted chunk goes out
/// unchanged.
pub proof fn law_nothing_to_flip(config: FaultConfig, words: Map<nat, u32>, chunk: Seq<u8>)
    requires
        config.corrupt_bits == 0 || chunk.len() == 0,
    ensures
        !chunk_step(config, words, chunk).0.dropped ==> chunk_step(config, words, chunk).0.payload
            == Some(chunk),
{
}

/// The delay is counted as a latency event exactly if there is one, and without
/// jitter it is the fixed latency.
pub proof fn law_latency(config: FaultConfig, words: Map<nat, u32>, chunk: Seq<u8>)
    ensures
        ({
            let outcome = chunk_step(config, words, chunk).0;
            &&& outcome.latency_applied <==> outcome.latency_ms > 0
            &&& outcome.latency_ms >= config.latency_ms
            &&& config.latency_jitter_ms == 0 ==> outcome.latency_ms == config.latency_ms
        }),
{
}

/// Switching a fault off, or making it certain, keeps it from using random words.
pub proof fn law_settled_fault_draws_nothing(p: Probability, words: Map<nat, u32>)
    requires
        p.at_most_zero() || p.at_least_one(),
    ensures
        roll_step(p, words).1 == words,
{
}

/// Without jitter the delay uses no random word.
pub proof fn law_fixed_latency_draws_nothing(config: FaultConfig, words: Map<nat, u32>)
    requires
        config.latency_jitter_ms == 0,
    ensures
        latency_step(config, words).1 == words,
{
}

/// Rolling by the endpoints gives what rolling with a draw would have given.
pub proof fn law_short_circuit_is_faithful(p: Probability, words: Map<nat, u32>)
    ensures
        roll_step(p, words).0 == p.exceeds(double_word(words)),
{
    crate::probability::law_endpoints_need_no_draw(p, double_word(words));
}

/// What becomes of a chunk, from the settings and the random words alone. The
/// positions of the flipped bits and the words left before each of them are
/// returned.
///
/// The delay is the fixed latency plus, if there is jitter, a number drawn from zero
/// up to the jitter. Drop, corrupt and close each fire exactly if their probability
/// exceeds the next two words; where the outcome is certain those words are kept. A
/// dropped chunk is not rolled for corruption. Each bit to flip is drawn from all
/// bits of the chunk. If it was flipped before, a second draw says how many of the
/// bits not flipped yet lie below the one to flip instead. What goes out differs
/// from the chunk in these bits and no others.
pub proof fn law_fate_of_a_chunk(
    before: FaultPipeline,
    after: FaultPipeline,
    chunk: Seq<u8>,
    outcome: OutcomeView,
) -> (flips: (Seq<int>, Seq<Map<nat, u32>>))
    requires
        processed(before, after, chunk, outcome),
    ensures
        ({
            let config = before.config();
            let words = before.words();
            let certain = |p: Probability| p.at_most_zero() || p.at_least_one();
            let (jitter, jitter_words) = ranged_draw(words, config.latency_jitter_ms, 64);
            let delay = config.latency_ms + if config.latency_jitter_ms > 0 {
                jitter as int
            } else {
                0
            };
            let w1 = if config.latency_jitter_ms > 0 {
                skip_words(words, jitter_words)
            } else {
                words
            };
            let w2 = if certain(config.drop_probability) {
                w1
            } else {
                skip_words(w1, 2)
            };
            let w3 = if outcome.dropped || certain(config.corrupt_probability) {
                w2
            } else {
                skip_words(w2, 2)
            };
            let total: int = if 8 * chunk.len() <= usize::MAX {
                8 * chunk.len() as int
            } else {
                usize::MAX as int
            };
            let (positions, streams) = flips;
            let w4 = streams.last();
            &&& outcome.latency_ms == if delay <= u64::MAX {
                delay
            } else {
                u64::MAX as int
            }
            &&& outcome.latency_applied == (outcome.latency_ms != 0)
            &&& outcome.dropped == config.drop_probability.exceeds(double_word(w1))
            &&& outcome.corrupted == (!outcome.dropped && config.corrupt_probability.exceeds(
                double_word(w2),
            ))
            &&& positions.len() == if !outcome.corrupted {
                0
            } else if config.corrupt_bits <= total {
                config.corrupt_bits as int
            } else {
                total
            }
            &&& streams.len() == positions.len() + 1
            &&& streams[0] == w3
            &&& forall|i: int|
                0 <= i < positions.len() ==> {
                    let (drawn, used) = ranged_draw(
                        streams[i],
                        (total - 1) as u64,
                        usize::BITS,
                    );
                    let rest = skip_words(streams[i], used);
                    let (rank, used_again) = ranged_draw(
                        rest,
                        (total - 1 - i) as u64,
                        usize::BITS,
                    );
                    let earlier = positions.take(i);
                    &&& 0 <= #[trigger] positions[i] < total
                    &&& !earlier.contains(positions[i])
                    &&& drawn < total
                    &&& if earlier.contains(drawn as int) {
                        &&& rank < total - i
                        &&& Set::new(|q: int| 0 <= q < positions[i] && !earlier.contains(q)).len()
                            == rank
                        &&& streams[i + 1] == skip_words(rest, used_again)
                    } else {
                        &&& positions[i] == drawn
                        &&& streams[i + 1] == rest
                    }
                }
            &&& match outcome.payload {
                Some(payload) => {
                    &&& !outcome.dropped
                    &&& payload.len() == chunk.len()
                    &&& forall|p: int|
                        0 <= p < 8 * chunk.len() ==> (#[trigger] bit_at(payload, p) != bit_at(
                            chunk,
                            p,
                        )) == positions.contains(p)
                },
                None => outcome.dropped,
            }
            &&& outcome.close_after == config.close_probability.exceeds(double_word(w4))
            &&& after.words() == if certain(config.close_probability) {
                w4
            } else {
                skip_words(w4, 2)
            }
            &&& after.config() == config
        }),
{
    let config = before.config();
    let words = before.words();
    let (_, w1) = latency_step(config, words);
    let (dropped, w2) = roll_step(config.drop_probability, w1);
    law_short_circuit_is_faithful(config.drop_probability, w1);
    law_short_circuit_is_faithful(config.corrupt_probability, w2);
    if !outcome.corrupted {
        let w3 = if dropped {
            w2
        } else {
            roll_step(config.corrupt_probability, w2).1
        };
        law_short_circuit_is_faithful(config.close_probability, w3);
        (Seq::empty(), seq![w3])
    } else {
        let w3 = roll_step(config.corrupt_probability, w2).1;
        assert(w3 == words_for_bits(config, words));
        let total = drawable_bits(chunk.len());
        let n = bits_to_flip(config.corrupt_bits, chunk.len());
        let positions = choose_bits(w3, total, n).0;
        let streams = Seq::new(n + 1, |i: int| choose_bits(w3, total, i as nat).1);
        law_short_circuit_is_faithful(config.close_probability, streams.last());
        lemma_chosen_bits(w3, total, n);
        assert forall|i: int| 0 <= i < positions.len() implies {
            let (drawn, used) = ranged_draw(streams[i], (total - 1) as u64, usize::BITS);
            let rest = skip_words(streams[i], used);
            let (rank, used_again) = ranged_draw(rest, (total - 1 - i) as u64, usize::BITS);
            let earlier = positions.take(i);
            &&& 0 <= #[trigger] positions[i] < total
            &&& !earlier.contains(positions[i])
            &&& drawn < total
            &&& if earlier.contains(drawn as int) {
                &&& rank < total - i
                &&& Set::new(|q: int| 0 <= q < positions[i] && !earlier.contains(q)).len() == rank
                &&& streams[i + 1] == skip_words(rest, used_again)
            } else {
                &&& positions[i] == drawn
                &&& streams[i + 1] == rest
            }
        } by {
            let k = (i + 1) as nat;
            lemma_chosen_bits_prefix(w3, total, i as nat, n);
            lemma_chosen_bits_prefix(w3, total, k, n);
            lemma_chosen_bits(w3, total, k);
            let chosen = choose_bits(w3, total, k).0;
            assert((k - 1) as nat == i as nat);
            assert(total - k == total - 1 - i);
            assert(chosen.last() == positions[i]);
            law_free_positions_are_counted(positions.take(i), positions[i]);
            if positions.take(i).contains(positions[i]) {
                let j = positions.take(i).index_of(positions[i]);
                assert(positions[j] == positions[i]);
            }
        }
        law_flip_bits_changes_exactly(chunk, positions);
        let payload = outcome.payload->0;
        assert forall|p: int| 0 <= p < 8 * chunk.len() implies (#[trigger] bit_at(payload, p)
            != bit_at(chunk, p)) == positions.contains(p) by {
            assert(differing_bits(chunk, payload).contains(p) == positions.to_set().contains(p));
        }
        (positions, streams)
    }
}

/// With one bit to flip, the one bit that changes is drawn from all bits of the
/// chunk.
pub proof fn law_single_flip_is_drawn_from_the_whole_chunk(
    before: FaultPipeline,
    after: FaultPipeline,
    chunk: Seq<u8>,
    outcome: OutcomeView,
    words: Map<nat, u32>,
)
    requires
        processed(before, after, chunk, outcome),
        outcome.corrupted,
        before.config().corrupt_bits == 1,
        0 < 8 * chunk.len() <= usize::MAX,
        before.config().latency_jitter_ms == 0,
        before.config().drop_probability.at_most_zero(),
        words == if before.config().corrupt_probability.at_least_one() {
            before.words()
        } else {
            skip_words(before.words(), 2)
        },
    ensures
        ({
            let drawn = ranged_draw(words, (8 * chunk.len() - 1) as u64, usize::BITS).0;
            &&& drawn < 8 * chunk.len()
            &&& differing_bits(chunk, outcome.payload->0) == set![drawn as int]
        }),
{
    let (positions, streams) = law_fate_of_a_chunk(before, after, chunk, outcome);
    crate::probability::law_endpoints_need_no_draw(
        before.config().corrupt_probability,
        double_word(before.words()),
    );
    let drawn = ranged_draw(words, (8 * chunk.len() - 1) as u64, usize::BITS).0;
    assert(positions[0] == drawn);
    assert forall|p: int|
        differing_bits(chunk, outcome.payload->0).contains(p) <==> p == drawn by {
        if 0 <= p < 8 * chunk.len() {
            assert(positions.contains(p) <==> p == positions[0]);
            assert((bit_at(outcome.payload->0, p) != bit_at(chunk, p)) == positions.contains(p));
        }
    }
    assert(differing_bits(chunk, outcome.payload->0) =~= set![drawn as int]);
}

/// Where nothing else is active, the next two words decide whether the one active
/// fault fires, and a fault that is neither certain nor impossible uses them up.
pub proof fn law_lone_fault_follows_the_words(
    before: FaultPipeline,
    after: FaultPipeline,
    chunk: Seq<u8>,
    outcome: OutcomeView,
)
    requires
        processed(before, after, chunk, outcome),
        before.config().latency_jitter_ms == 0,
    ensures
        ({
            let config = before.config();
            let word = double_word(before.words());
            let off = |p: Probability| p.at_most_zero();
            let open = |p: Probability| !p.at_most_zero() && !p.at_least_one();
            &&& outcome.dropped == config.drop_probability.exceeds(word)
            &&& off(config.drop_probability) ==> outcome.corrupted
                == config.corrupt_probability.exceeds(word)
            &&& off(config.drop_probability) && off(config.corrupt_probability) ==> {
                &&& outcome.close_after == config.close_probability.exceeds(word)
                &&& open(config.close_probability) ==> after.words() == skip_words(
                    before.words(),
                    2,
                )
            }
        }),
{
    let _ = law_fate_of_a_chunk(before, after, chunk, outcome);
    let config = before.config();
    let word = double_word(before.words());
    crate::probability::law_endpoints_need_no_draw(config.drop_probability, word);
    crate::probability::law_endpoints_need_no_draw(config.corrupt_probability, word);
}

/// The events of a chunk are counted one by one, wrapping around at 2^64; closing is
/// noted once.
pub proof fn law_chunk_events_are_counted(
    before: FaultPipeline,
    after: FaultPipeline,
    chunk: Seq<u8>,
    outcome: OutcomeView,
)
    requires
        processed(before, after, chunk, outcome),
    ensures
        ({
            let (old_stats, new_stats) = (before.injected(), after.injected());
            let one_more = |n: u64, event: bool|
                (n + if event {
                    1int
                } else {
                    0
                }) % 0x1_0000_0000_0000_0000;
            &&& new_stats.latency_events == one_more(
                old_stats.latency_events,
                outcome.latency_ms > 0,
            )
            &&& new_stats.dropped == one_more(old_stats.dropped, outcome.payload is None)
            &&& new_stats.corrupted == one_more(old_stats.corrupted, outcome.corrupted)
            &&& new_stats.closed == if outcome.close_after {
                1
            } else {
                old_stats.closed
            }
        }),
{
}

/// A new pipeline has the settings that it was given, draws from the stream of its
/// seed, and has counted nothing.
pub proof fn law_new_pipeline(pipeline: FaultPipeline, config: FaultConfig, seed: u64)
    requires
        made_with(pipeline, config, seed),
    ensures
        pipeline.config() == config,
        pipeline.words() == crate::rng::seeded_words(seed),
        pipeline.injected().latency_events == 0,
        pipeline.injected().dropped == 0,
        pipeline.injected().corrupted == 0,
        pipeline.injected().closed == 0,
{
}

/// Skipping words leaves the later ones in order, and two words make one number.
pub proof fn law_words(words: Map<nat, u32>, n: nat, i: nat)
    ensures
        skip_words(words, n)[i] == words[n + i],
        double_word(words) % 0x1_0000_0000 == words[0],
        double_word(words) / 0x1_0000_0000 == words[1],
{
}

// ---------------------------------------------------------------------------
// The fault pipeline, over a whole stream
// ---------------------------------------------------------------------------

/// `states` are the pipeline before and after each of `chunks`, which had these
/// outcomes.
pub open spec fn pipeline_run(
    states: Seq<FaultPipeline>,
    chunks: Seq<Seq<u8>>,
    outcomes: Seq<OutcomeView>,
) -> bool {
    &&& states.len() == chunks.len() + 1
    &&& outcomes.len() == chunks.len()
    &&& forall|i: int|
        0 <= i < chunks.len() ==> processed(
            states[i],
            states[i + 1],
            chunks[i],
            #[trigger] outcomes[i],
        )
}

proof fn lemma_runs_agree(
    a: Seq<FaultPipeline>,
    b: Seq<FaultPipeline>,
    chunks: Seq<Seq<u8>>,
    a_outcomes: Seq<OutcomeView>,
    b_outcomes: Seq<OutcomeView>,
    n: int,
)
    requires
        pipeline_run(a, chunks, a_outcomes),
        pipeline_run(b, chunks, b_outcomes),
        a[0].config() == b[0].config(),
        a[0].words() == b[0].words(),
        0 <= n <= chunks.len(),
    ensures
        a[n].config() == b[n].config(),
        a[n].words() == b[n].words(),
        forall|i: int| 0 <= i < n ==> #[trigger] a_outcomes[i] == b_outcomes[i],
    decreases n,
{
    if n > 0 {
        let i = n - 1;
        lemma_runs_agree(a, b, chunks, a_outcomes, b_outcomes, i);
        assert(processed(a[i], a[i + 1], chunks[i], a_outcomes[i]));
        assert(processed(b[i], b[i + 1], chunks[i], b_outcomes[i]));
    }
}

/// Two pipelines that have the same settings and the same random words to come
/// treat the same chunks alike, byte for byte.
pub proof fn law_runs_are_reproducible(
    a: Seq<FaultPipeline>,
    b: Seq<FaultPipeline>,
    chunks: Seq<Seq<u8>>,
    a_outcomes: Seq<OutcomeView>,
    b_outcomes: Seq<OutcomeView>,
)
    requires
        pipeline_run(a, chunks, a_outcomes),
        pipeline_run(b, chunks, b_outcomes),
        a[0].config() == b[0].config(),
        a[0].words() == b[0].words(),
    ensures
        a_outcomes == b_outcomes,
        a.last().words() == b.last().words(),
{
    lemma_runs_agree(a, b, chunks, a_outcomes, b_outcomes, chunks.len() as int);
    assert(a_outcomes =~= b_outcomes);
}

/// Two pipelines made with the same settings and the same seed treat the same
/// chunks alike, byte for byte.
pub proof fn law_same_seed_same_faults(
    config: FaultConfig,
    seed: u64,
    a: Seq<FaultPipeline>,
    b: Seq<FaultPipeline>,
    chunks: Seq<Seq<u8>>,
    a_outcomes: Seq<OutcomeView>,
    b_outcomes: Seq<OutcomeView>,
)
    requires
        pipeline_run(a, chunks, a_outcomes),
        pipeline_run(b, chunks, b_outcomes),
        made_with(a[0], config, seed),
        made_with(b[0], config, seed),
    ensures
        a_outcomes == b_outcomes,
{
    law_runs_are_reproducible(a, b, chunks, a_outcomes, b_outcomes);
}

/// The settings differ at most in faults that both switch off.
pub open spec fn same_active_faults(a: FaultConfig, b: FaultConfig) -> bool {
    let off = |p: Probability, q: Probability| p.at_most_zero() && q.at_most_zero();
    &&& a.latency_ms == b.latency_ms
    &&& a.latency_jitter_ms == b.latency_jitter_ms
    &&& a.drop_probability == b.drop_probability || off(a.drop_probability, b.drop_probability)
    &&& (a.corrupt_probability == b.corrupt_probability && a.corrupt_bits == b.corrupt_bits) || off(
        a.corrupt_probability,
        b.corrupt_probability,
    )
    &&& a.close_probability == b.close_probability || off(a.close_probability, b.close_probability)
}

/// A fault that is switched off leaves no trace on a chunk.
proof fn lemma_same_step(a: FaultConfig, b: FaultConfig, words: Map<nat, u32>, chunk: Seq<u8>)
    requires
        same_active_faults(a, b),
    ensures
        chunk_step(a, words, chunk) == chunk_step(b, words, chunk),
{
}

proof fn lemma_active_faults_decide(
    a: Seq<FaultPipeline>,
    b: Seq<FaultPipeline>,
    chunks: Seq<Seq<u8>>,
    a_outcomes: Seq<OutcomeView>,
    b_outcomes: Seq<OutcomeView>,
    n: int,
)
    requires
        pipeline_run(a, chunks, a_outcomes),
        pipeline_run(b, chunks, b_outcomes),
        same_active_faults(a[0].config(), b[0].config()),
        a[0].words() == b[0].words(),
        0 <= n <= chunks.len(),
    ensures
        a[n].config() == a[0].config(),
        b[n].config() == b[0].config(),
        a[n].words() == b[n].words(),
        forall|i: int| 0 <= i < n ==> #[trigger] a_outcomes[i] == b_outcomes[i],
    decreases n,
{
    if n > 0 {
        let i = n - 1;
        lemma_active_faults_decide(a, b, chunks, a_outcomes, b_outcomes, i);
        assert(processed(a[i], a[i + 1], chunks[i], a_outcomes[i]));
        assert(processed(b[i], b[i + 1], chunks[i], b_outcomes[i]));
        lemma_same_step(a[i].config(), b[i].config(), a[i].words(), chunks[i]);
    }
}

/// A fault that is switched off leaves no trace in a stream: whatever else its
/// settings say, the chunks are treated alike and the same random words are used.
pub proof fn law_switched_off_faults_leave_no_trace(
    a: Seq<FaultPipeline>,
    b: Seq<FaultPipeline>,
    chunks: Seq<Seq<u8>>,
    a_outcomes: Seq<OutcomeView>,
    b_outcomes: Seq<OutcomeView>,
)
    requires
        pipeline_run(a, chunks, a_outcomes),
        pipeline_run(b, chunks, b_outcomes),
        same_active_faults(a[0].config(), b[0].config()),
        a[0].words() == b[0].words(),
    ensures
        a_outcomes == b_outcomes,
        a.last().words() == b.last().words(),
{
    lemma_active_faults_decide(a, b, chunks, a_outcomes, b_outcomes, chunks.len() as int);
    assert(a_outcomes =~= b_outcomes);
}

/// How many of the outcomes are of a kind.
pub open spec fn count_of(outcomes: Seq<OutcomeView>, kind: spec_fn(OutcomeView) -> bool) -> nat
    decreases outcomes.len(),
{
    if outcomes.len() == 0 {
        0
    } else {
        count_of(outcomes.drop_last(), kind) + if kind(outcomes.last()) {
            1nat
        } else {
            0nat
        }
    }
}

/// The counters of a fresh pipeline count the events of its stream: delays, drops
/// and corruptions one by one (as long as they fit), and whether it was closed.
pub proof fn law_counters_count_events(
    states: Seq<FaultPipeline>,
    chunks: Seq<Seq<u8>>,
    outcomes: Seq<OutcomeView>,
)
    requires
        pipeline_run(states, chunks, outcomes),
        states[0].injected() == InjectionStats::zero(),
        chunks.len() <= u64::MAX,
    ensures
        ({
            let stats = states.last().injected();
            &&& stats.latency_events == count_of(outcomes, |o: OutcomeView| o.latency_applied)
            &&& stats.dropped == count_of(outcomes, |o: OutcomeView| o.dropped)
            &&& stats.corrupted == count_of(outcomes, |o: OutcomeView| o.corrupted)
            &&& stats.closed == if exists|i: int|
                0 <= i < outcomes.len() && (#[trigger] outcomes[i]).close_after {
                1u64
            } else {
                0u64
            }
        }),
    decreases chunks.len(),
{
    let n = chunks.len() as int;
    if n > 0 {
        let s = states.drop_last();
        let c = chunks.drop_last();
        let o = outcomes.drop_last();
        assert forall|i: int| 0 <= i < c.len() implies processed(
            s[i],
            s[i + 1],
            c[i],
            #[trigger] o[i],
        ) by {
            assert(processed(states[i], states[i + 1], chunks[i], outcomes[i]));
        }
        law_counters_count_events(s, c, o);
        assert(processed(states[n - 1], states[n], chunks[n - 1], outcomes[n - 1]));
        lemma_count_is_bounded(o, |o: OutcomeView| o.latency_applied);
        lemma_count_is_bounded(o, |o: OutcomeView| o.dropped);
        lemma_count_is_bounded(o, |o: OutcomeView| o.corrupted);
        if exists|i: int| 0 <= i < o.len() && (#[trigger] o[i]).close_after {
            let i = choose|i: int| 0 <= i < o.len() && (#[trigger] o[i]).close_after;
            assert(outcomes[i].close_after);
        }
        if exists|i: int| 0 <= i < n && (#[trigger] outcomes[i]).close_after {
            let i = choose|i: int| 0 <= i < n && (#[trigger] outcomes[i]).close_after;
            if i < n - 1 {
                assert(o[i].close_after);
            }
        }
    }
}

proof fn lemma_count_is_bounded(outcomes: Seq<OutcomeView>, kind: spec_fn(OutcomeView) -> bool)
    ensures
        count_of(outcomes, kind) <= outcomes.len(),
    decreases outcomes.len(),
{
    if outcomes.len() > 0 {
        lemma_count_is_bounded(outcomes.drop_last(), kind);
    }
}

/// The close counter is 0 or 1 throughout, and once it is 1 it stays so.
pub proof fn law_closed_at_most_once(
    before: FaultPipeline,
    after: FaultPipeline,
    chunk: Seq<u8>,
    outcome: OutcomeView,
)
    requires
        processed(before, after, chunk, outcome),
        before.wf(),
    ensures
        after.wf(),
        before.injected().closed <= after.injected().closed,
        outcome.close_after ==> after.injected().closed == 1,
{
}

// ---------------------------------------------------------------------------
// Forwarding
// ---------------------------------------------------------------------------

/// A half that has stopped expects nothing more; any other half expects something.
pub proof fn law_stopped_means_done(model: ForwardModel)
    ensures
        model.phase is Finished || model.phase is Failed <==> forall|event: ForwardEventView|
            !model.expects(event),
{
    assert(model.phase is Reading ==> model.expects(ForwardEventView::Eof));
    assert(model.phase is Waiting ==> model.expects(ForwardEventView::Waited));
    assert(model.phase is Writing ==> model.expects(ForwardEventView::Written));
}

/// A half that reads takes what a read can bring, a half that waits takes the end of
/// the wait, and a half that writes takes the end of the write.
pub proof fn law_events_fit_the_phase(model: ForwardModel, chunk: Seq<u8>)
    ensures
        model.expects(ForwardEventView::Received(chunk)) == (model.phase is Reading),
        model.expects(ForwardEventView::Eof) == (model.phase is Reading),
        model.expects(ForwardEventView::Cancelled) == (model.phase is Reading),
        model.expects(ForwardEventView::ReadFailed) == (model.phase is Reading),
        model.expects(ForwardEventView::Waited) == (model.phase is Waiting),
        model.expects(ForwardEventView::Written) == (model.phase is Writing),
        model.expects(ForwardEventView::WriteFailed) == (model.phase is Writing),
{
}

/// Events and actions are modelled by what they hold.
pub proof fn law_views_are_faithful(event: ForwardEvent, action: ForwardAction, outcome: Outcome)
    ensures
        event@ is Cancelled <==> event is Cancelled,
        event@ is Eof <==> event is Eof,
        event@ is ReadFailed <==> event is ReadFailed,
        event@ is Waited <==> event is Waited,
        event@ is Written <==> event is Written,
        event@ is WriteFailed <==> event is WriteFailed,
        event@ is Received <==> event is Received,
        event matches ForwardEvent::Received(chunk) ==> event@ == ForwardEventView::Received(chunk@),
        action@ is Read <==> action is Read,
        action matches ForwardAction::Wait(ms) ==> action@ == ForwardActionView::Wait(ms),
        action matches ForwardAction::Write(payload) ==> action@ == ForwardActionView::Write(
            payload@,
        ),
        action matches ForwardAction::Finish { cancel } ==> action@ == (ForwardActionView::Finish {
            cancel,
        }),
        action matches ForwardAction::Fail(failure) ==> action@ == ForwardActionView::Fail(failure),
        outcome.payload is None <==> outcome@.payload is None,
        outcome.payload matches Some(payload) ==> outcome@.payload == Some(payload@),
        outcome@.close_after == outcome.close_after,
        outcome@.dropped == outcome.dropped,
        outcome@.corrupted == outcome.corrupted,
        outcome@.latency_applied == outcome.latency_applied,
        outcome@.latency_ms == outcome.latency_ms,
{
}

/// A chunk that is read goes through the pipeline, once. If it is to be delayed, the
/// half waits for just that delay, holds the outcome back, and nothing is counted
/// yet.
pub proof fn law_delay_is_waited_out(
    before: Forwarder,
    after: Forwarder,
    chunk: Seq<u8>,
    action: ForwardActionView,
    stats_before: Stats,
    stats_after: Stats,
) -> (outcome: OutcomeView)
    requires
        stepped(
            before,
            after,
            ForwardEventView::Received(chunk),
            action,
            stats_before,
            stats_after,
        ),
    ensures
        processed(before.pipeline(), after.pipeline(), chunk, outcome),
        after.direction() == before.direction(),
        action is Wait <==> outcome.latency_ms > 0,
        outcome.latency_ms > 0 ==> {
            &&& action == ForwardActionView::Wait(outcome.latency_ms)
            &&& after.phase() == PhaseView::Waiting(outcome)
            &&& after.total() == before.total()
            &&& after.closed_by_fault() == before.closed_by_fault()
            &&& stats_after == stats_before
        },
        ({
            let config = before.pipeline().config();
            &&& action matches ForwardActionView::Wait(ms) ==> config.latency_ms <= ms
                <= config.latency_ms + config.latency_jitter_ms
            &&& config.latency_ms > 0 ==> action is Wait
            &&& config.latency_ms > 0 && config.latency_jitter_ms == 0 ==> action
                == ForwardActionView::Wait(config.latency_ms)
        }),
{
    let outcome = chunk_step(before.pipeline().config(), before.pipeline().words(), chunk).0;
    let _ = law_fate_of_a_chunk(before.pipeline(), after.pipeline(), chunk, outcome);
    outcome
}

/// Once its delay is over, or at once if it has none, a chunk is delivered: its
/// faults are counted in its direction and nowhere else, and what is left of it is
/// handed out for writing. A dropped chunk is done with: the half reads on, or, if
/// the close fault fired, cancels the connection and stops.
#[verifier::spinoff_prover]
pub proof fn law_delivery(
    before: Forwarder,
    after: Forwarder,
    event: ForwardEventView,
    outcome: OutcomeView,
    action: ForwardActionView,
    stats_before: Stats,
    stats_after: Stats,
)
    requires
        stepped(before, after, event, action, stats_before, stats_after),
        ({
            ||| event is Waited && before.phase() == PhaseView::Waiting(outcome)
            ||| event is Received && outcome.latency_ms == 0 && processed(
                before.pipeline(),
                after.pipeline(),
                event->Received_0,
                outcome,
            )
        }),
    ensures
        ({
            let (old_own, new_own, old_other, new_other) = match before.direction() {
                Direction::ClientToServer => (
                    stats_before.client_to_server,
                    stats_after.client_to_server,
                    stats_before.server_to_client,
                    stats_after.server_to_client,
                ),
                Direction::ServerToClient => (
                    stats_before.server_to_client,
                    stats_after.server_to_client,
                    stats_before.client_to_server,
                    stats_after.client_to_server,
                ),
            };
            let one_more = |n: u64, event: bool|
                (n + if event {
                    1int
                } else {
                    0
                }) % 0x1_0000_0000_0000_0000;
            &&& new_own.latency_events == one_more(old_own.latency_events, outcome.latency_applied)
            &&& new_own.chunks_dropped == one_more(old_own.chunks_dropped, outcome.dropped)
            &&& new_own.chunks_corrupted == one_more(old_own.chunks_corrupted, outcome.corrupted)
            &&& new_own.close_fault_fired == one_more(
                old_own.close_fault_fired,
                outcome.close_after,
            )
            &&& new_own.bytes_forwarded == old_own.bytes_forwarded
            &&& new_other == old_other
            &&& stats_after.connections_handled == stats_before.connections_handled
            &&& after.direction() == before.direction()
            &&& after.total() == before.total()
            &&& event is Waited ==> after.pipeline() == before.pipeline()
            &&& match outcome.payload {
                Some(payload) => {
                    &&& action == ForwardActionView::Write(payload)
                    &&& after.phase() is Writing
                    &&& payload.len() <= u64::MAX ==> after.phase()->len == payload.len()
                    &&& after.phase()->Writing_close_after == outcome.close_after
                    &&& after.closed_by_fault() == before.closed_by_fault()
                },
                None => if outcome.close_after {
                    &&& action == (ForwardActionView::Finish { cancel: true })
                    &&& after.phase() is Finished
                    &&& after.closed_by_fault()
                } else {
                    &&& action is Read
                    &&& after.phase() is Reading
                    &&& after.closed_by_fault() == before.closed_by_fault()
                },
            }
        }),
{
    let model = before.model(stats_before);
    assert((after.model(stats_after), action) == model.deliver(outcome)) by {
        if event is Received {
            lemma_outcome_is_decided(before.pipeline(), after.pipeline(), event->Received_0, outcome);
        }
    }
    crate::stats::law_counting_adds(model.counters, outcome, 0);
}

/// The settings, the words and the chunk leave no choice of outcome.
proof fn lemma_outcome_is_decided(
    before: FaultPipeline,
    after: FaultPipeline,
    chunk: Seq<u8>,
    outcome: OutcomeView,
)
    requires
        processed(before, after, chunk, outcome),
    ensures
        outcome == chunk_step(before.config(), before.words(), chunk).0,
{
}

/// When a payload is written its bytes are counted, for the half and for its
/// direction. Then the half reads on, or, if the close fault fired, cancels the
/// connection and stops.
pub proof fn law_written_bytes_are_counted(
    before: Forwarder,
    after: Forwarder,
    len: u64,
    close_after: bool,
    action: ForwardActionView,
    stats_before: Stats,
    stats_after: Stats,
)
    requires
        before.phase() == (PhaseView::Writing { len, close_after }),
        stepped(before, after, ForwardEventView::Written, action, stats_before, stats_after),
    ensures
        ({
            let (old_own, new_own, old_other, new_other) = match before.direction() {
                Direction::ClientToServer => (
                    stats_before.client_to_server,
                    stats_after.client_to_server,
                    stats_before.server_to_client,
                    stats_after.server_to_client,
                ),
                Direction::ServerToClient => (
                    stats_before.server_to_client,
                    stats_after.server_to_client,
                    stats_before.client_to_server,
                    stats_after.client_to_server,
                ),
            };
            &&& new_own.bytes_forwarded == (old_own.bytes_forwarded + len)
                % 0x1_0000_0000_0000_0000
            &&& new_own.latency_events == old_own.latency_events
            &&& new_own.chunks_dropped == old_own.chunks_dropped
            &&& new_own.chunks_corrupted == old_own.chunks_corrupted
            &&& new_own.close_fault_fired == old_own.close_fault_fired
            &&& new_other == old_other
            &&& stats_after.connections_handled == stats_before.connections_handled
            &&& after.direction() == before.direction()
            &&& after.pipeline() == before.pipeline()
            &&& after.total() == (before.total() + len) % 0x1_0000_0000_0000_0000
            &&& if close_after {
                &&& action == (ForwardActionView::Finish { cancel: true })
                &&& after.phase() is Finished
                &&& after.closed_by_fault()
            } else {
                &&& action is Read
                &&& after.phase() is Reading
                &&& after.closed_by_fault() == before.closed_by_fault()
            }
        }),
{
}

/// The end of the stream and cancellation stop a half without cancelling the other;
/// a failed read or write stops it with an error. Nothing is counted.
pub proof fn law_stopping_counts_nothing(
    before: Forwarder,
    after: Forwarder,
    event: ForwardEventView,
    action: ForwardActionView,
    stats_before: Stats,
    stats_after: Stats,
)
    requires
        stepped(before, after, event, action, stats_before, stats_after),
        event is Eof || event is Cancelled || event is ReadFailed || event is WriteFailed,
    ensures
        event is Eof || event is Cancelled ==> action == (ForwardActionView::Finish {
            cancel: false,
        }) && after.phase() is Finished,
        event is ReadFailed ==> action == ForwardActionView::Fail(ForwardFailure::Read),
        event is WriteFailed ==> action == ForwardActionView::Fail(ForwardFailure::Write),
        event is ReadFailed || event is WriteFailed ==> after.phase() is Failed,
        stats_after.connections_handled == stats_before.connections_handled,
        stats_after.client_to_server == stats_before.client_to_server,
        stats_after.server_to_client == stats_before.server_to_client,
        after.pipeline() == before.pipeline(),
        after.direction() == before.direction(),
        after.total() == before.total(),
        after.closed_by_fault() == before.closed_by_fault(),
{
}

/// A half stops exactly when it says so.
pub proof fn law_actions_announce_the_end(
    before: Forwarder,
    after: Forwarder,
    event: ForwardEventView,
    action: ForwardActionView,
    stats_before: Stats,
    stats_after: Stats,
)
    requires
        stepped(before, after, event, action, stats_before, stats_after),
        before.model(stats_before).expects(event),
    ensures
        action is Finish <==> after.phase() is Finished,
        action is Fail <==> after.phase() is Failed,
        action is Read <==> after.phase() is Reading,
        action is Wait <==> after.phase() is Waiting,
        action is Write <==> after.phase() is Writing,
{
}

/// The end of the stream and cancellation end a half in good order, and leave the
/// counters and the other half alone; a failed read or write ends it with an error.
pub proof fn law_how_a_half_ends(model: ForwardModel, fresh: OutcomeView)
    ensures
        model.react(ForwardEventView::Eof, fresh).1 == (ForwardActionView::Finish {
            cancel: false,
        }),
        model.react(ForwardEventView::Cancelled, fresh).1 == (ForwardActionView::Finish {
            cancel: false,
        }),
        model.react(ForwardEventView::ReadFailed, fresh).1 is Fail,
        model.react(ForwardEventView::WriteFailed, fresh).1 is Fail,
        model.react(ForwardEventView::Eof, fresh).0.counters == model.counters,
        model.react(ForwardEventView::Cancelled, fresh).0.counters == model.counters,
{
}

/// The close fault takes effect after the chunk: what is left of the chunk is
/// written first, and then the half cancels the connection and stops.
pub proof fn law_close_comes_after_the_chunk(model: ForwardModel, outcome: OutcomeView)
    requires
        outcome.close_after,
    ensures
        ({
            let (delivering, action) = model.deliver(outcome);
            match outcome.payload {
                Some(payload) => {
                    let (closing, last) = delivering.react(ForwardEventView::Written, outcome);
                    &&& action == ForwardActionView::Write(payload)
                    &&& last == (ForwardActionView::Finish { cancel: true })
                    &&& closing.closed_by_fault
                },
                None => action == (ForwardActionView::Finish { cancel: true })
                    && delivering.closed_by_fault,
            }
        }),
{
}

/// The faults of a chunk are counted before any of it is written, and its bytes
/// only once they are: a failed write leaves the byte counts alone.
pub proof fn law_counted_live(model: ForwardModel, outcome: OutcomeView)
    ensures
        ({
            let (delivering, action) = model.deliver(outcome);
            &&& delivering.counters == model.counters.with_faults(outcome)
            &&& delivering.total == model.total
            &&& delivering.react(ForwardEventView::WriteFailed, outcome).0.counters
                == delivering.counters
            &&& delivering.react(ForwardEventView::WriteFailed, outcome).0.total == model.total
            &&& outcome.payload matches Some(payload) ==> {
                let (written, next) = delivering.react(ForwardEventView::Written, outcome);
                &&& written.total == model.total.wrapping_add(payload.len() as u64)
                &&& written.counters == model.counters.with_faults(outcome).with_bytes(
                    payload.len() as u64,
                )
            }
        }),
{
}

/// Dropped bytes are not counted as forwarded.
pub proof fn law_dropped_bytes_are_not_counted(model: ForwardModel, outcome: OutcomeView)
    requires
        outcome.payload is None,
    ensures
        model.deliver(outcome).0.counters.bytes_forwarded == model.counters.bytes_forwarded,
        model.deliver(outcome).0.total == model.total,
        model.deliver(outcome).1 !is Write,
{
}

/// With drop, corrupt and close switched off a half writes out exactly the bytes
/// that it reads, after a wait if there is latency, and then reads on.
pub proof fn law_latency_alone_forwards_verbatim(
    before: Forwarder,
    after: Forwarder,
    chunk: Seq<u8>,
    action: ForwardActionView,
    stats_before: Stats,
    stats_after: Stats,
)
    requires
        before.phase() is Reading,
        before.pipeline().config().drop_probability.at_most_zero(),
        before.pipeline().config().corrupt_probability.at_most_zero(),
        before.pipeline().config().close_probability.at_most_zero(),
        stepped(
            before,
            after,
            ForwardEventView::Received(chunk),
            action,
            stats_before,
            stats_after,
        ),
    ensures
        ({
            let fresh = after.phase()->Waiting_0;
            let (delivering, write) = if action is Wait {
                after.model(stats_after).react(ForwardEventView::Waited, fresh)
            } else {
                (after.model(stats_after), action)
            };
            let (settled, next) = delivering.react(ForwardEventView::Written, fresh);
            &&& write == ForwardActionView::Write(chunk)
            &&& next is Read
            &&& settled.phase is Reading
            &&& settled.total == before.total().wrapping_add(chunk.len() as u64)
        }),
{
    law_latency_alone_loses_nothing(before.pipeline().config(), before.pipeline().words(), chunk);
}

/// A half touches the counters of its own direction only.
pub proof fn law_other_direction_is_untouched(
    before: Forwarder,
    after: Forwarder,
    event: ForwardEventView,
    action: ForwardActionView,
    stats_before: Stats,
    stats_after: Stats,
)
    requires
        stepped(before, after, event, action, stats_before, stats_after),
    ensures
        stats_after.connections_handled == stats_before.connections_handled,
        before.direction() is ClientToServer ==> stats_after.server_to_client
            == stats_before.server_to_client,
        before.direction() is ServerToClient ==> stats_after.client_to_server
            == stats_before.client_to_server,
{
}

/// The counters of a direction, taken as `others` (what all other halves of that
/// direction have contributed) plus what this half did: its bytes and the events
/// of its pipeline, those of a chunk that is still waiting left out.
pub open spec fn accounts(
    half: Forwarder,
    counters: DirectionStats,
    others: DirectionStats,
) -> bool {
    let injected = half.pipeline().injected();
    let settled = match half.phase() {
        PhaseView::Waiting(outcome) => counters.with_faults(outcome),
        _ => counters,
    };
    let close_pending = match half.phase() {
        PhaseView::Reading => false,
        PhaseView::Waiting(outcome) => outcome.close_after,
        PhaseView::Writing { len, close_after } => close_after,
        _ => true,
    };
    &&& settled.bytes_forwarded == others.bytes_forwarded.wrapping_add(half.total())
    &&& settled.latency_events == others.latency_events.wrapping_add(injected.latency_events)
    &&& settled.chunks_dropped == others.chunks_dropped.wrapping_add(injected.dropped)
    &&& settled.chunks_corrupted == others.chunks_corrupted.wrapping_add(injected.corrupted)
    &&& settled.close_fault_fired == others.close_fault_fired.wrapping_add(injected.closed)
    &&& !close_pending ==> injected.closed == 0
}

/// A new half has contributed nothing.
pub proof fn law_accounts_open(half: Forwarder, pipeline: FaultPipeline, counters: DirectionStats)
    requires
        starts(half, pipeline, half.direction()),
        pipeline.injected() == InjectionStats::zero(),
    ensures
        accounts(half, counters, counters),
{
}

/// Whatever happens to a half, the counters of its direction keep agreeing with
/// what it and the others did, so a run that is cut short has accurate counters
/// for everything processed up to that point.
pub proof fn law_accounts_are_kept(
    before: Forwarder,
    after: Forwarder,
    event: ForwardEventView,
    action: ForwardActionView,
    stats_before: Stats,
    stats_after: Stats,
    others: DirectionStats,
)
    requires
        stepped(before, after, event, action, stats_before, stats_after),
        before.model(stats_before).expects(event),
        accounts(before, before.direction().counters(stats_before), others),
    ensures
        accounts(after, after.direction().counters(stats_after), others),
{
    assert forall|a: u64, b: u64, event: bool|
        counted(#[trigger] a.wrapping_add(b), event) == a.wrapping_add(
            #[trigger] counted(b, event),
        ) by {}
    assert forall|a: u64, b: u64, c: u64|
        (#[trigger] a.wrapping_add(b)).wrapping_add(c) == a.wrapping_add(
            #[trigger] b.wrapping_add(c),
        ) by {}
}

/// `states` are a half before and after each of `events`, at which it asked for
/// these actions, met these counters and left those.
pub open spec fn forward_run(
    states: Seq<Forwarder>,
    events: Seq<ForwardEventView>,
    actions: Seq<ForwardActionView>,
    met: Seq<Stats>,
    left: Seq<Stats>,
) -> bool {
    &&& states.len() == events.len() + 1
    &&& actions.len() == events.len()
    &&& met.len() == events.len()
    &&& left.len() == events.len()
    &&& forall|i: int|
        0 <= i < events.len() ==> (#[trigger] states[i]).model(met[i]).expects(events[i])
            && stepped(states[i], states[i + 1], events[i], actions[i], met[i], left[i])
}

/// The two halves differ in nothing that decides what they do.
pub open spec fn alike(a: Forwarder, b: Forwarder) -> bool {
    &&& a.pipeline().config() == b.pipeline().config()
    &&& a.pipeline().words() == b.pipeline().words()
    &&& a.phase() == b.phase()
    &&& a.total() == b.total()
    &&& a.closed_by_fault() == b.closed_by_fault()
}

/// Halves that are alike do the same at the same event and stay alike.
proof fn lemma_alike_halves_step_alike(
    a: Forwarder,
    a_next: Forwarder,
    b: Forwarder,
    b_next: Forwarder,
    event: ForwardEventView,
    a_action: ForwardActionView,
    b_action: ForwardActionView,
    a_stats: (Stats, Stats),
    b_stats: (Stats, Stats),
)
    requires
        alike(a, b),
        stepped(a, a_next, event, a_action, a_stats.0, a_stats.1),
        stepped(b, b_next, event, b_action, b_stats.0, b_stats.1),
    ensures
        alike(a_next, b_next),
        a_action == b_action,
{
}

proof fn lemma_forward_runs_agree(
    a: Seq<Forwarder>,
    b: Seq<Forwarder>,
    events: Seq<ForwardEventView>,
    a_actions: Seq<ForwardActionView>,
    b_actions: Seq<ForwardActionView>,
    a_met: Seq<Stats>,
    a_left: Seq<Stats>,
    b_met: Seq<Stats>,
    b_left: Seq<Stats>,
    n: int,
)
    requires
        forward_run(a, events, a_actions, a_met, a_left),
        forward_run(b, events, b_actions, b_met, b_left),
        alike(a[0], b[0]),
        0 <= n <= events.len(),
    ensures
        alike(a[n], b[n]),
        forall|i: int| 0 <= i < n ==> #[trigger] a_actions[i] == b_actions[i],
    decreases n,
{
    if n > 0 {
        let i = n - 1;
        lemma_forward_runs_agree(
            a,
            b,
            events,
            a_actions,
            b_actions,
            a_met,
            a_left,
            b_met,
            b_left,
            i,
        );
        assert(stepped(a[i], a[i + 1], events[i], a_actions[i], a_met[i], a_left[i]));
        assert(stepped(b[i], b[i + 1], events[i], b_actions[i], b_met[i], b_left[i]));
        lemma_alike_halves_step_alike(
            a[i],
            a[i + 1],
            b[i],
            b[i + 1],
            events[i],
            a_actions[i],
            b_actions[i],
            (a_met[i], a_left[i]),
            (b_met[i], b_left[i]),
        );
    }
}

/// What a half does depends on its settings, its seed and what happens to it, and
/// not on the counters: whatever other connections do in the meantime, the same
/// events bring the same actions.
pub proof fn law_forwarding_is_reproducible(
    a: Seq<Forwarder>,
    b: Seq<Forwarder>,
    events: Seq<ForwardEventView>,
    a_actions: Seq<ForwardActionView>,
    b_actions: Seq<ForwardActionView>,
    a_met: Seq<Stats>,
    a_left: Seq<Stats>,
    b_met: Seq<Stats>,
    b_left: Seq<Stats>,
)
    requires
        forward_run(a, events, a_actions, a_met, a_left),
        forward_run(b, events, b_actions, b_met, b_left),
        alike(a[0], b[0]),
    ensures
        a_actions == b_actions,
        alike(a.last(), b.last()),
{
    lemma_forward_runs_agree(
        a,
        b,
        events,
        a_actions,
        b_actions,
        a_met,
        a_left,
        b_met,
        b_left,
        events.len() as int,
    );
    assert(a_actions =~= b_actions);
}

/// The settings, the master seed, the connection id and the direction decide all
/// that a new half will ever do: halves opened with the same four are alike.
pub proof fn law_master_seed_decides(
    a: Forwarder,
    b: Forwarder,
    faults: FaultConfig,
    master_seed: u64,
    conn_id: u64,
    dir: Direction,
)
    requires
        starts(a, a.pipeline(), dir),
        starts(b, b.pipeline(), dir),
        fresh_pipeline(a.pipeline(), faults, master_seed, conn_id, dir),
        fresh_pipeline(b.pipeline(), faults, master_seed, conn_id, dir),
    ensures
        alike(a, b),
{
}

/// The bytes that the first `n` events brought in.
pub open spec fn received_bytes(events: Seq<ForwardEventView>, n: int) -> Seq<u8>
    decreases n,
{
    if n <= 0 {
        Seq::<u8>::empty()
    } else {
        received_bytes(events, n - 1) + match events[n - 1] {
            ForwardEventView::Received(chunk) => chunk,
            _ => Seq::<u8>::empty(),
        }
    }
}

/// The bytes that the first `n` actions handed out for writing.
pub open spec fn issued_bytes(actions: Seq<ForwardActionView>, n: int) -> Seq<u8>
    decreases n,
{
    if n <= 0 {
        Seq::<u8>::empty()
    } else {
        issued_bytes(actions, n - 1) + match actions[n - 1] {
            ForwardActionView::Write(payload) => payload,
            _ => Seq::<u8>::empty(),
        }
    }
}

/// The bytes of a chunk that is still waiting for its delay to pass.
pub open spec fn waiting_bytes(half: Forwarder) -> Seq<u8> {
    match half.phase() {
        PhaseView::Waiting(outcome) => match outcome.payload {
            Some(payload) => payload,
            None => Seq::<u8>::empty(),
        },
        _ => Seq::<u8>::empty(),
    }
}

proof fn lemma_transparent_up_to(
    states: Seq<Forwarder>,
    events: Seq<ForwardEventView>,
    actions: Seq<ForwardActionView>,
    met: Seq<Stats>,
    left: Seq<Stats>,
    n: int,
)
    requires
        forward_run(states, events, actions, met, left),
        states[0].phase() is Reading,
        states[0].pipeline().config().drop_probability.at_most_zero(),
        states[0].pipeline().config().corrupt_probability.at_most_zero(),
        states[0].pipeline().config().close_probability.at_most_zero(),
        0 <= n <= events.len(),
    ensures
        states[n].pipeline().config() == states[0].pipeline().config(),
        issued_bytes(actions, n) + waiting_bytes(states[n]) == received_bytes(events, n),
    decreases n,
{
    if n > 0 {
        let i = n - 1;
        lemma_transparent_up_to(states, events, actions, met, left, i);
        let (before, after) = (states[i], states[i + 1]);
        assert(before.model(met[i]).expects(events[i]));
        assert(stepped(before, after, events[i], actions[i], met[i], left[i]));
        if let ForwardEventView::Received(chunk) = events[i] {
            law_latency_alone_loses_nothing(
                before.pipeline().config(),
                before.pipeline().words(),
                chunk,
            );
        }
    }
    assert(issued_bytes(actions, n) + waiting_bytes(states[n]) =~= received_bytes(events, n));
}

/// With drop, corrupt and close switched off, what a half hands out for writing is,
/// byte for byte and in order, what it has read, but for the chunk that is still
/// waiting, however long the delays and however the stream ends.
pub proof fn law_latency_alone_is_transparent(
    states: Seq<Forwarder>,
    events: Seq<ForwardEventView>,
    actions: Seq<ForwardActionView>,
    met: Seq<Stats>,
    left: Seq<Stats>,
)
    requires
        forward_run(states, events, actions, met, left),
        states[0].phase() is Reading,
        states[0].pipeline().config().drop_probability.at_most_zero(),
        states[0].pipeline().config().corrupt_probability.at_most_zero(),
        states[0].pipeline().config().close_probability.at_most_zero(),
    ensures
        issued_bytes(actions, actions.len() as int) + waiting_bytes(states.last())
            == received_bytes(events, events.len() as int),
{
    lemma_transparent_up_to(states, events, actions, met, left, events.len() as int);
}

proof fn lemma_silent_up_to(
    states: Seq<Forwarder>,
    events: Seq<ForwardEventView>,
    actions: Seq<ForwardActionView>,
    met: Seq<Stats>,
    left: Seq<Stats>,
    n: int,
)
    requires
        forward_run(states, events, actions, met, left),
        states[0].phase() is Reading,
        states[0].pipeline().config().drop_probability.at_least_one(),
        0 <= n <= events.len(),
    ensures
        states[n].pipeline().config() == states[0].pipeline().config(),
        states[n].phase() matches PhaseView::Waiting(outcome) ==> outcome.payload is None,
        states[n].phase() !is Writing,
        states[n].total() == states[0].total(),
        issued_bytes(actions, n) == Seq::<u8>::empty(),
    decreases n,
{
    if n > 0 {
        let i = n - 1;
        lemma_silent_up_to(states, events, actions, met, left, i);
        let (before, after) = (states[i], states[i + 1]);
        assert(before.model(met[i]).expects(events[i]));
        assert(stepped(before, after, events[i], actions[i], met[i], left[i]));
        if let ForwardEventView::Received(chunk) = events[i] {
            law_certain_drop(before.pipeline().config(), before.pipeline().words(), chunk);
        }
        assert(issued_bytes(actions, n) =~= Seq::<u8>::empty());
    }
}

/// With a certain drop fault nothing is ever handed out for writing, and no byte is
/// counted.
pub proof fn law_certain_drop_is_silent(
    states: Seq<Forwarder>,
    events: Seq<ForwardEventView>,
    actions: Seq<ForwardActionView>,
    met: Seq<Stats>,
    left: Seq<Stats>,
)
    requires
        forward_run(states, events, actions, met, left),
        states[0].phase() is Reading,
        states[0].pipeline().config().drop_probability.at_least_one(),
    ensures
        issued_bytes(actions, actions.len() as int) == Seq::<u8>::empty(),
        states.last().total() == states[0].total(),
{
    lemma_silent_up_to(states, events, actions, met, left, events.len() as int);
}

// ---------------------------------------------------------------------------
// Connections
// ---------------------------------------------------------------------------

/// The pipeline of one direction of a connection has the settings that it was given,
/// all of them, and draws from the stream of its own seed: client to server has tag
/// 0 and server to client has tag 1.
pub proof fn law_pipeline_obeys_its_settings(
    pipeline: FaultPipeline,
    cfg: FaultConfig,
    master_seed: u64,
    conn_id: u64,
    dir: Direction,
)
    requires
        fresh_pipeline(pipeline, cfg, master_seed, conn_id, dir),
    ensures
        pipeline.config().latency_ms == cfg.latency_ms,
        pipeline.config().latency_jitter_ms == cfg.latency_jitter_ms,
        pipeline.config().drop_probability.bits == cfg.drop_probability.bits,
        pipeline.config().corrupt_probability.bits == cfg.corrupt_probability.bits,
        pipeline.config().corrupt_bits == cfg.corrupt_bits,
        pipeline.config().close_probability.bits == cfg.close_probability.bits,
        dir is ClientToServer ==> pipeline.words() == crate::rng::seeded_words(
            stream_seed(master_seed, conn_id, 0),
        ),
        dir is ServerToClient ==> pipeline.words() == crate::rng::seeded_words(
            stream_seed(master_seed, conn_id, 1),
        ),
        pipeline.injected().latency_events == 0,
        pipeline.injected().dropped == 0,
        pipeline.injected().corrupted == 0,
        pipeline.injected().closed == 0,
{
}

/// A new half is about to read, has written nothing, and has its own pipeline and
/// direction.
pub proof fn law_new_half(half: Forwarder, pipeline: FaultPipeline, dir: Direction)
    requires
        starts(half, pipeline, dir),
    ensures
        half.pipeline() == pipeline,
        half.direction() == dir,
        half.phase() is Reading,
        half.total() == 0,
        !half.closed_by_fault(),
{
}

/// Every direction has its own name, its own tag and its own counters.
pub proof fn law_directions_stand_apart(stats: Stats, counters: DirectionStats)
    ensures
        Direction::ClientToServer.name() == "c2s"@,
        Direction::ServerToClient.name() == "s2c"@,
        Direction::ClientToServer.tag() == 0,
        Direction::ServerToClient.tag() == 1,
        Direction::ClientToServer.counters(stats) == stats.client_to_server,
        Direction::ServerToClient.counters(stats) == stats.server_to_client,
        ({
            let changed = Direction::ClientToServer.with_counters(stats, counters);
            &&& changed.client_to_server == counters
            &&& changed.server_to_client == stats.server_to_client
            &&& changed.connections_handled == stats.connections_handled
        }),
        ({
            let changed = Direction::ServerToClient.with_counters(stats, counters);
            &&& changed.server_to_client == counters
            &&& changed.client_to_server == stats.client_to_server
            &&& changed.connections_handled == stats.connections_handled
        }),
{
}

/// The text of a failure says what failed, and then in which direction.
pub proof fn law_failure_texts()
    ensures
        ForwardFailure::Read.text(Direction::ClientToServer) == "read failed on c2s"@,
        ForwardFailure::Read.text(Direction::ServerToClient) == "read failed on s2c"@,
        ForwardFailure::Write.text(Direction::ClientToServer) == "write failed on c2s"@,
        ForwardFailure::Write.text(Direction::ServerToClient) == "write failed on s2c"@,
{
    reveal_strlit("c2s");
    reveal_strlit("s2c");
    reveal_strlit("read failed on ");
    reveal_strlit("write failed on ");
    reveal_strlit("read failed on c2s");
    reveal_strlit("read failed on s2c");
    reveal_strlit("write failed on c2s");
    reveal_strlit("write failed on s2c");
    assert(ForwardFailure::Read.text(Direction::ClientToServer) =~= "read failed on c2s"@);
    assert(ForwardFailure::Read.text(Direction::ServerToClient) =~= "read failed on s2c"@);
    assert(ForwardFailure::Write.text(Direction::ClientToServer) =~= "write failed on c2s"@);
    assert(ForwardFailure::Write.text(Direction::ServerToClient) =~= "write failed on s2c"@);
}

/// Reads bring at most 8 KiB, connections get five seconds to drain, and ids start
/// at one.
pub proof fn law_fixed_limits()
    ensures
        BUFFER_SIZE == 8 * 1024,
        SHUTDOWN_DRAIN_TIMEOUT_MS == 5 * 1000,
        FIRST_CONN_ID == 1,
{
}

/// An accepted connection takes the next id and is counted; the counters of the
/// directions stay as they are.
pub proof fn law_accepting_counts_one(
    action: AcceptAction,
    ids_before: ConnectionIds,
    ids_after: ConnectionIds,
    stats_before: Stats,
    stats_after: Stats,
)
    requires
        accept_stepped(
            AcceptEvent::Accepted,
            action,
            ids_before,
            ids_after,
            stats_before,
            stats_after,
        ),
    ensures
        action == (AcceptAction::Handle { conn_id: ids_before.next() }),
        ids_after.next() == (ids_before.next() + 1) % 0x1_0000_0000_0000_0000,
        stats_after.connections_handled == (stats_before.connections_handled + 1)
            % 0x1_0000_0000_0000_0000,
        stats_after.client_to_server == stats_before.client_to_server,
        stats_after.server_to_client == stats_before.server_to_client,
{
}

/// Shutdown uses up no id and changes no counter.
pub proof fn law_shutdown_drains(
    action: AcceptAction,
    ids_before: ConnectionIds,
    ids_after: ConnectionIds,
    stats_before: Stats,
    stats_after: Stats,
)
    requires
        accept_stepped(
            AcceptEvent::Shutdown,
            action,
            ids_before,
            ids_after,
            stats_before,
            stats_after,
        ),
    ensures
        action == AcceptAction::Drain,
        ids_after.next() == ids_before.next(),
        stats_after == stats_before,
{
}

/// The two directions of a connection have different seeds.
pub proof fn law_directions_have_own_seeds(master_seed: u64, conn_id: u64)
    ensures
        stream_seed(master_seed, conn_id, Direction::ClientToServer.tag()) != stream_seed(
            master_seed,
            conn_id,
            Direction::ServerToClient.tag(),
        ),
{
    crate::seed::law_directions_are_separated(master_seed, conn_id, 0, 1);
}

/// Different streams of one run have different seeds, apart from those opposite
/// directions of two connections whose spread ids differ by exactly the spread
/// tag.
pub proof fn law_streams_have_own_seeds(
    master_seed: u64,
    c1: u64,
    d1: Direction,
    c2: u64,
    d2: Direction,
)
    requires
        c1 != c2 || d1 != d2,
        d1 != d2 ==> c1.wrapping_mul(CONNECTION_FACTOR) ^ c2.wrapping_mul(CONNECTION_FACTOR)
            != DIRECTION_FACTOR,
    ensures
        stream_seed(master_seed, c1, d1.tag()) != stream_seed(master_seed, c2, d2.tag()),
{
    if d1 == d2 {
        crate::seed::law_connections_are_separated(master_seed, c1, c2, d1.tag());
    } else {
        let f: u64 = DIRECTION_FACTOR;
        assert(0u64.wrapping_mul(f) == 0);
        assert(1u64.wrapping_mul(f) == f);
        assert(0u64 ^ f == f && f ^ 0u64 == f) by (bit_vector);
        crate::seed::law_streams_are_separated(master_seed, c1, d1.tag(), c2, d2.tag());
    }
}

/// `ids` are the id source before and after each of `events`, at which the accept
/// loop asked for these actions, met these counters and left those. Between two
/// events the forwarding halves may count, which leaves the connection count alone.
pub open spec fn accept_run(
    events: Seq<AcceptEvent>,
    actions: Seq<AcceptAction>,
    ids: Seq<ConnectionIds>,
    met: Seq<Stats>,
    left: Seq<Stats>,
) -> bool {
    &&& ids.len() == events.len() + 1
    &&& actions.len() == events.len()
    &&& met.len() == events.len()
    &&& left.len() == events.len()
    &&& forall|i: int|
        0 <= i < events.len() ==> accept_stepped(
            #[trigger] events[i],
            actions[i],
            ids[i],
            ids[i + 1],
            met[i],
            left[i],
        )
    &&& forall|i: int|
        0 < i < events.len() ==> (#[trigger] met[i]).connections_handled
            == left[i - 1].connections_handled
}

/// How many of the first `n` events were accepted connections.
pub open spec fn accepted_among(events: Seq<AcceptEvent>, n: int) -> nat
    decreases n,
{
    if n <= 0 {
        0
    } else if events[n - 1] == AcceptEvent::Accepted {
        accepted_among(events, n - 1) + 1
    } else {
        accepted_among(events, n - 1)
    }
}

/// `start` counted up `n` times, wrapping around at the largest `u64`.
pub open spec fn counted_up(start: u64, n: nat) -> int {
    (start + n) % 0x1_0000_0000_0000_0000
}

proof fn lemma_accepts_up_to(
    events: Seq<AcceptEvent>,
    actions: Seq<AcceptAction>,
    ids: Seq<ConnectionIds>,
    met: Seq<Stats>,
    left: Seq<Stats>,
    n: int,
)
    requires
        accept_run(events, actions, ids, met, left),
        0 <= n <= events.len(),
    ensures
        ids[n].next() == counted_up(ids[0].next(), accepted_among(events, n)),
        n > 0 ==> left[n - 1].connections_handled == counted_up(
            met[0].connections_handled,
            accepted_among(events, n),
        ),
    decreases n,
{
    if n > 0 {
        let i = n - 1;
        lemma_accepts_up_to(events, actions, ids, met, left, i);
        assert(accept_stepped(events[i], actions[i], ids[i], ids[i + 1], met[i], left[i]));
        if i > 0 {
            assert(met[i].connections_handled == left[i - 1].connections_handled);
        }
    }
}

/// Over any stretch of the accept loop, the connection count grows by the number of
/// accepted connections, whatever else happens.
pub proof fn law_every_connection_is_counted(
    events: Seq<AcceptEvent>,
    actions: Seq<AcceptAction>,
    ids: Seq<ConnectionIds>,
    met: Seq<Stats>,
    left: Seq<Stats>,
)
    requires
        accept_run(events, actions, ids, met, left),
        events.len() > 0,
    ensures
        left.last().connections_handled == counted_up(
            met[0].connections_handled,
            accepted_among(events, events.len() as int),
        ),
{
    lemma_accepts_up_to(events, actions, ids, met, left, events.len() as int);
}

/// From a new id source, accepted connections are served under the ids
/// `FIRST_CONN_ID`, `FIRST_CONN_ID` + 1, and so on, wrapping around at the end.
pub proof fn law_connection_ids_count_up(
    events: Seq<AcceptEvent>,
    actions: Seq<AcceptAction>,
    ids: Seq<ConnectionIds>,
    met: Seq<Stats>,
    left: Seq<Stats>,
    i: int,
)
    requires
        accept_run(events, actions, ids, met, left),
        ids[0].next() == FIRST_CONN_ID,
        0 <= i < events.len(),
    ensures
        actions[i] is Handle <==> events[i] == AcceptEvent::Accepted,
        actions[i] matches AcceptAction::Handle { conn_id } ==> conn_id == counted_up(
            FIRST_CONN_ID,
            accepted_among(events, i),
        ),
{
    lemma_accepts_up_to(events, actions, ids, met, left, i);
    assert(accept_stepped(events[i], actions[i], ids[i], ids[i + 1], met[i], left[i]));
}

/// No two connections share an id, as long as there are ids left.
pub proof fn law_connection_ids_are_distinct(
    events: Seq<AcceptEvent>,
    actions: Seq<AcceptAction>,
    ids: Seq<ConnectionIds>,
    met: Seq<Stats>,
    left: Seq<Stats>,
    i: int,
    j: int,
)
    requires
        accept_run(events, actions, ids, met, left),
        0 <= i < j < events.len(),
        events[i] == AcceptEvent::Accepted,
        events[j] == AcceptEvent::Accepted,
        accepted_among(events, events.len() as int) <= u64::MAX,
    ensures
        actions[i] is Handle,
        actions[j] is Handle,
        actions[i] != actions[j],
{
    lemma_accepts_up_to(events, actions, ids, met, left, i);
    lemma_accepts_up_to(events, actions, ids, met, left, j);
    assert(accept_stepped(events[i], actions[i], ids[i], ids[i + 1], met[i], left[i]));
    assert(accept_stepped(events[j], actions[j], ids[j], ids[j + 1], met[j], left[j]));
    lemma_accepted_grows(events, i + 1, j);
    lemma_accepted_grows(events, j, events.len() as int);
}

proof fn lemma_accepted_grows(events: Seq<AcceptEvent>, n: int, m: int)
    requires
        0 <= n <= m,
    ensures
        accepted_among(events, n) <= accepted_among(events, m),
    decreases m - n,
{
    if n < m {
        lemma_accepted_grows(events, n, m - 1);
    }
}

/// A failed accept changes nothing and does not stop the loop.
pub proof fn law_failed_accept_is_harmless(
    action: AcceptAction,
    ids_before: ConnectionIds,
    ids_after: ConnectionIds,
    stats_before: Stats,
    stats_after: Stats,
)
    requires
        accept_stepped(
            AcceptEvent::Failed,
            action,
            ids_before,
            ids_after,
            stats_before,
            stats_after,
        ),
    ensures
        action == AcceptAction::Continue,
        ids_after.next() == ids_before.next(),
        stats_after == stats_before,
{
}

/// The loop stops accepting exactly when shutdown is requested.
pub proof fn law_only_shutdown_stops_accepting(
    event: AcceptEvent,
    action: AcceptAction,
    ids_before: ConnectionIds,
    ids_after: ConnectionIds,
    stats_before: Stats,
    stats_after: Stats,
)
    requires
        accept_stepped(event, action, ids_before, ids_after, stats_before, stats_after),
    ensures
        action == AcceptAction::Drain <==> event == AcceptEvent::Shutdown,
{
}

} // verus!
