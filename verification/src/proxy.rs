//! The decisions of the proxy: accepting connections, and forwarding each
//! direction of a connection through its fault pipeline.
//!
//! Reading, writing, waiting and accepting are done elsewhere. What happens is
//! handed to `Forwarder::step` and `accept_step` as events; they say what to do
//! next.

use crate::config::{Config, FaultConfig};
use crate::fault::{
    chunk_step, made_with, processed, FaultPipeline, InjectionStats, Outcome, OutcomeView,
};
use crate::seed::{derive_seed, stream_seed};
use crate::stats::{DirectionStats, Stats};
use vstd::prelude::*;

verus! {

/// How many bytes are read at a time.
pub const BUFFER_SIZE: usize = 8192;

/// Time in milliseconds to wait for in-flight connections to drain on shutdown
/// before we give up and let them be aborted.
pub const SHUTDOWN_DRAIN_TIMEOUT_MS: u64 = 5000;

/// The id of the first connection.
pub const FIRST_CONN_ID: u64 = 1;

/// Direction of a forwarding half.
#[derive(Debug, Clone, Copy, PartialEq, Eq, Structural)]
pub enum Direction {
    ClientToServer,
    ServerToClient,
}

impl Direction {
    /// The short name of the direction.
    pub open spec fn name(self) -> Seq<char> {
        match self {
            Direction::ClientToServer => "c2s"@,
            Direction::ServerToClient => "s2c"@,
        }
    }

    /// The number that stands for the direction in seeds.
    pub open spec fn tag(self) -> u64 {
        match self {
            Direction::ClientToServer => 0,
            Direction::ServerToClient => 1,
        }
    }

    /// The counters of the direction.
    pub open spec fn counters(self, stats: Stats) -> DirectionStats {
        match self {
            Direction::ClientToServer => stats.client_to_server,
            Direction::ServerToClient => stats.server_to_client,
        }
    }

    /// `stats` with the counters of the direction replaced.
    pub open spec fn with_counters(self, stats: Stats, counters: DirectionStats) -> Stats {
        match self {
            Direction::ClientToServer => Stats { client_to_server: counters, ..stats },
            Direction::ServerToClient => Stats { server_to_client: counters, ..stats },
        }
    }

    pub fn as_str(self) -> (name: &'static str)
        ensures
            name@ == self.name(),
    {
        match self {
            Direction::ClientToServer => "c2s",
            Direction::ServerToClient => "s2c",
        }
    }

    /// Stable tag used to seed the per-direction RNG.
    pub fn seed_tag(self) -> (tag: u64)
        ensures
            tag == self.tag(),
    {
        match self {
            Direction::ClientToServer => 0,
            Direction::ServerToClient => 1,
        }
    }

    pub fn stats_for(self, stats: &Stats) -> (counters: &DirectionStats)
        ensures
            *counters == self.counters(*stats),
    {
        match self {
            Direction::ClientToServer => &stats.client_to_server,
            Direction::ServerToClient => &stats.server_to_client,
        }
    }

    /// Counts the faults that one chunk of this direction met with.
    fn record_faults(self, stats: &mut Stats, outcome: &Outcome)
        ensures
            *final(stats) == self.with_counters(
                *old(stats),
                self.counters(*old(stats)).with_faults(outcome@),
            ),
    {
        match self {
            Direction::ClientToServer => stats.client_to_server.record_faults(outcome),
            Direction::ServerToClient => stats.server_to_client.record_faults(outcome),
        }
    }

    /// Counts bytes of this direction that went out.
    fn record_forwarded(self, stats: &mut Stats, len: u64)
        ensures
            *final(stats) == self.with_counters(
                *old(stats),
                self.counters(*old(stats)).with_bytes(len),
            ),
    {
        match self {
            Direction::ClientToServer => stats.client_to_server.record_forwarded(len),
            Direction::ServerToClient => stats.server_to_client.record_forwarded(len),
        }
    }
}

/// The pipeline of one direction of one connection, seeded from the master seed.
pub fn build_pipeline(
    cfg: &FaultConfig,
    master_seed: u64,
    conn_id: u64,
    dir: Direction,
) -> (pipeline: FaultPipeline)
    ensures
        fresh_pipeline(pipeline, *cfg, master_seed, conn_id, dir),
        pipeline.config() == *cfg,
{
    let seed: u64 = derive_seed(master_seed, conn_id, dir.seed_tag());
    FaultPipeline::new(*cfg, seed)
}

/// `pipeline` has seen no chunk yet and draws from the random stream of this
/// direction of this connection.
pub open spec fn fresh_pipeline(
    pipeline: FaultPipeline,
    cfg: FaultConfig,
    master_seed: u64,
    conn_id: u64,
    dir: Direction,
) -> bool {
    pipeline.wf() && made_with(pipeline, cfg, stream_seed(master_seed, conn_id, dir.tag()))
}

/// What one direction of a connection did.
#[derive(Debug, Clone, Copy, PartialEq, Eq, Structural)]
pub struct ForwardOutput {
    pub bytes: u64,
    pub stats: InjectionStats,
}

/// The output of a forwarding task; a task that failed or panicked counts for
/// nothing.
pub fn collect_forward_result<E, P>(joined: Result<Result<ForwardOutput, E>, P>) -> (out:
    ForwardOutput)
    ensures
        out == match joined {
            Ok(Ok(out)) => out,
            _ => ForwardOutput { bytes: 0, stats: InjectionStats::zero() },
        },
        !(joined matches Ok(Ok(_))) ==> {
            &&& out.bytes == 0
            &&& out.stats.latency_events == 0
            &&& out.stats.dropped == 0
            &&& out.stats.corrupted == 0
            &&& out.stats.closed == 0
        },
{
    match joined {
        Ok(Ok(out)) => out,
        Ok(Err(_)) => ForwardOutput { bytes: 0, stats: InjectionStats::default() },
        Err(_) => ForwardOutput { bytes: 0, stats: InjectionStats::default() },
    }
}

/// What a connection did, for its closing log line.
#[derive(Debug, Clone, Copy, PartialEq, Eq, Structural)]
pub struct ConnectionSummary {
    pub c2s: ForwardOutput,
    pub s2c: ForwardOutput,
    /// Whether the close fault fired in either direction.
    pub closed_by_fault: bool,
}

/// Sums up a connection from the outputs of its two directions.
pub fn summarize(c2s: ForwardOutput, s2c: ForwardOutput) -> (summary: ConnectionSummary)
    ensures
        summary.c2s == c2s,
        summary.s2c == s2c,
        summary.closed_by_fault <==> c2s.stats.closed + s2c.stats.closed > 0,
{
    let closed_by_fault = c2s.stats.closed > 0 || s2c.stats.closed > 0;
    ConnectionSummary { c2s, s2c, closed_by_fault }
}

/// Something that happened to a forwarding half.
#[derive(Debug)]
pub enum ForwardEvent {
    /// The connection was cancelled while a read was pending.
    Cancelled,
    /// The read came to the end of the stream.
    Eof,
    /// The read failed.
    ReadFailed,
    /// The read brought a chunk.
    Received(Vec<u8>),
    /// The wait is over.
    Waited,
    /// The whole payload was written.
    Written,
    /// The write failed.
    WriteFailed,
}

/// What a forwarding half has to do next.
#[derive(Debug)]
pub enum ForwardAction {
    /// Read the next chunk, watching for cancellation.
    Read,
    /// Wait for so many milliseconds.
    Wait(u64),
    /// Write the payload to the peer.
    Write(Vec<u8>),
    /// Half-close the write side and stop; before that, cancel the other
    /// direction of the connection if `cancel` is set.
    Finish { cancel: bool },
    /// Stop at once with an error.
    Fail(ForwardFailure),
}

/// The operation that a forwarding half failed in.
#[derive(Debug, Clone, Copy, PartialEq, Eq, Structural)]
pub enum ForwardFailure {
    Read,
    Write,
}

impl ForwardFailure {
    /// The text that says what failed in which direction.
    pub open spec fn text(self, dir: Direction) -> Seq<char> {
        match self {
            ForwardFailure::Read => "read failed on "@ + dir.name(),
            ForwardFailure::Write => "write failed on "@ + dir.name(),
        }
    }

    /// Says what failed in which direction.
    pub fn context(self, dir: Direction) -> (text: String)
        ensures
            text@ == self.text(dir),
    {
        let mut text = match self {
            ForwardFailure::Read => String::from_str("read failed on "),
            ForwardFailure::Write => String::from_str("write failed on "),
        };
        text.append(dir.as_str());
        text
    }
}

/// What a forwarding half is waiting for.
#[derive(Debug)]
enum Phase {
    Reading,
    Waiting(Outcome),
    Writing { len: u64, close_after: bool },
    Finished,
    Failed,
}

/// An event with its bytes as a sequence.
pub enum ForwardEventView {
    Cancelled,
    Eof,
    ReadFailed,
    Received(Seq<u8>),
    Waited,
    Written,
    WriteFailed,
}

/// An action with its bytes as a sequence.
pub enum ForwardActionView {
    Read,
    Wait(u64),
    Write(Seq<u8>),
    Finish { cancel: bool },
    Fail(ForwardFailure),
}

/// What a forwarding half is waiting for, with bytes as sequences.
pub enum PhaseView {
    Reading,
    Waiting(OutcomeView),
    Writing { len: u64, close_after: bool },
    Finished,
    Failed,
}

impl View for ForwardEvent {
    type V = ForwardEventView;

    open spec fn view(&self) -> ForwardEventView {
        match self {
            ForwardEvent::Cancelled => ForwardEventView::Cancelled,
            ForwardEvent::Eof => ForwardEventView::Eof,
            ForwardEvent::ReadFailed => ForwardEventView::ReadFailed,
            ForwardEvent::Received(chunk) => ForwardEventView::Received(chunk@),
            ForwardEvent::Waited => ForwardEventView::Waited,
            ForwardEvent::Written => ForwardEventView::Written,
            ForwardEvent::WriteFailed => ForwardEventView::WriteFailed,
        }
    }
}

impl View for ForwardAction {
    type V = ForwardActionView;

    open spec fn view(&self) -> ForwardActionView {
        match self {
            ForwardAction::Read => ForwardActionView::Read,
            ForwardAction::Wait(ms) => ForwardActionView::Wait(*ms),
            ForwardAction::Write(payload) => ForwardActionView::Write(payload@),
            ForwardAction::Finish { cancel } => ForwardActionView::Finish { cancel: *cancel },
            ForwardAction::Fail(failure) => ForwardActionView::Fail(*failure),
        }
    }
}

/// The state of a forwarding half, together with the counters of its direction.
pub struct ForwardModel {
    pub phase: PhaseView,
    pub total: u64,
    pub closed_by_fault: bool,
    pub counters: DirectionStats,
}

impl ForwardModel {
    /// The chunk is dealt with: go on reading, or stop if the close fault fired.
    pub open spec fn settle(self, close_after: bool) -> (ForwardModel, ForwardActionView) {
        if close_after {
            (
                ForwardModel { phase: PhaseView::Finished, closed_by_fault: true, ..self },
                ForwardActionView::Finish { cancel: true },
            )
        } else {
            (ForwardModel { phase: PhaseView::Reading, ..self }, ForwardActionView::Read)
        }
    }

    /// The delay is over: count the faults, then write what is left of the chunk.
    pub open spec fn deliver(self, outcome: OutcomeView) -> (ForwardModel, ForwardActionView) {
        let recorded = ForwardModel { counters: self.counters.with_faults(outcome), ..self };
        match outcome.payload {
            Some(payload) => (
                ForwardModel {
                    phase: PhaseView::Writing {
                        len: payload.len() as u64,
                        close_after: outcome.close_after,
                    },
                    ..recorded
                },
                ForwardActionView::Write(payload),
            ),
            None => recorded.settle(outcome.close_after),
        }
    }

    /// The events that can happen in this state.
    pub open spec fn expects(self, event: ForwardEventView) -> bool {
        match self.phase {
            PhaseView::Reading => event is Cancelled || event is Eof || event is ReadFailed
                || event is Received,
            PhaseView::Waiting(_) => event is Waited,
            PhaseView::Writing { .. } => event is Written || event is WriteFailed,
            PhaseView::Finished => false,
            PhaseView::Failed => false,
        }
    }

    /// The reaction to an expected event, `fresh` being what the pipeline makes of
    /// the chunk if the event brings one.
    pub open spec fn react(self, event: ForwardEventView, fresh: OutcomeView) -> (
        ForwardModel,
        ForwardActionView,
    ) {
        match event {
            ForwardEventView::Cancelled | ForwardEventView::Eof => (
                ForwardModel { phase: PhaseView::Finished, ..self },
                ForwardActionView::Finish { cancel: false },
            ),
            ForwardEventView::ReadFailed => (
                ForwardModel { phase: PhaseView::Failed, ..self },
                ForwardActionView::Fail(ForwardFailure::Read),
            ),
            ForwardEventView::Received(_) => if fresh.latency_ms > 0 {
                (
                    ForwardModel { phase: PhaseView::Waiting(fresh), ..self },
                    ForwardActionView::Wait(fresh.latency_ms),
                )
            } else {
                self.deliver(fresh)
            },
            ForwardEventView::Waited => self.deliver(self.phase->Waiting_0),
            ForwardEventView::Written => ForwardModel {
                total: self.total.wrapping_add(self.phase->len),
                counters: self.counters.with_bytes(self.phase->len),
                ..self
            }.settle(self.phase->close_after),
            ForwardEventView::WriteFailed => (
                ForwardModel { phase: PhaseView::Failed, ..self },
                ForwardActionView::Fail(ForwardFailure::Write),
            ),
        }
    }
}

/// One direction of a connection: reads chunks, runs each through the pipeline,
/// and writes the result. Terminates on EOF, I/O error, the pipeline requesting
/// close, or cancellation (which can mean either that the other direction's
/// pipeline asked to close, or that global shutdown was requested).
pub struct Forwarder {
    pipeline: FaultPipeline,
    dir: Direction,
    phase: Phase,
    total: u64,
    closed_by_fault: bool,
}

impl Forwarder {
    /// The pipeline of this half.
    pub closed spec fn pipeline(self) -> FaultPipeline {
        self.pipeline
    }

    /// The direction of this half.
    pub closed spec fn direction(self) -> Direction {
        self.dir
    }

    /// What this half is waiting for.
    pub closed spec fn phase(self) -> PhaseView {
        match self.phase {
            Phase::Reading => PhaseView::Reading,
            Phase::Waiting(outcome) => PhaseView::Waiting(outcome@),
            Phase::Writing { len, close_after } => PhaseView::Writing { len, close_after },
            Phase::Finished => PhaseView::Finished,
            Phase::Failed => PhaseView::Failed,
        }
    }

    /// The bytes written so far.
    pub closed spec fn total(self) -> u64 {
        self.total
    }

    /// Whether the close fault of this half has fired.
    pub closed spec fn closed_by_fault(self) -> bool {
        self.closed_by_fault
    }

    /// How far this half has come, with the counters of its direction. The pipeline
    /// and the direction stand apart.
    pub open spec fn model(self, stats: Stats) -> ForwardModel {
        ForwardModel {
            phase: self.phase(),
            total: self.total(),
            closed_by_fault: self.closed_by_fault(),
            counters: self.direction().counters(stats),
        }
    }

    /// A half that is about to read its first chunk.
    pub fn new(pipeline: FaultPipeline, dir: Direction) -> (half: Self)
        ensures
            starts(half, pipeline, dir),
    {
        Forwarder { pipeline, dir, phase: Phase::Reading, total: 0, closed_by_fault: false }
    }

    /// Whether `event` can happen to this half now.
    pub fn accepts(&self, event: &ForwardEvent) -> (r: bool)
        ensures
            forall|stats: Stats| r == (#[trigger] self.model(stats)).expects(event@),
    {
        match (&self.phase, event) {
            (Phase::Reading, ForwardEvent::Cancelled) => true,
            (Phase::Reading, ForwardEvent::Eof) => true,
            (Phase::Reading, ForwardEvent::ReadFailed) => true,
            (Phase::Reading, ForwardEvent::Received(_)) => true,
            (Phase::Waiting(_), ForwardEvent::Waited) => true,
            (Phase::Writing { .. }, ForwardEvent::Written) => true,
            (Phase::Writing { .. }, ForwardEvent::WriteFailed) => true,
            _ => false,
        }
    }

    /// Takes note of `event` and says what to do next. The counters of the
    /// direction are brought up to date on the way: the faults of a chunk before
    /// anything of it is written, its bytes once they are written.
    pub fn step(self, event: ForwardEvent, stats: &mut Stats) -> (next: (Self, ForwardAction))
        requires
            self.model(*old(stats)).expects(event@),
        ensures
            stepped(self, next.0, event@, next.1@, *old(stats), *final(stats)),
    {
        let Forwarder { mut pipeline, dir, phase, mut total, closed_by_fault } = self;
        match (event, phase) {
            (ForwardEvent::Received(chunk), _) => {
                let outcome = pipeline.process(chunk);
                if outcome.latency_ms > 0 {
                    let ms: u64 = outcome.latency_ms;
                    let phase = Phase::Waiting(outcome);
                    let half = Forwarder { pipeline, dir, phase, total, closed_by_fault };
                    (half, ForwardAction::Wait(ms))
                } else {
                    let phase = Phase::Reading;
                    let half = Forwarder { pipeline, dir, phase, total, closed_by_fault };
                    half.deliver(outcome, stats)
                }
            },
            (ForwardEvent::Waited, Phase::Waiting(outcome)) => {
                let phase = Phase::Reading;
                let half = Forwarder { pipeline, dir, phase, total, closed_by_fault };
                half.deliver(outcome, stats)
            },
            (ForwardEvent::Written, Phase::Writing { len, close_after }) => {
                total = total.wrapping_add(len);
                dir.record_forwarded(stats, len);
                let phase = Phase::Reading;
                let half = Forwarder { pipeline, dir, phase, total, closed_by_fault };
                half.settle(close_after)
            },
            (ForwardEvent::ReadFailed, _) => {
                let phase = Phase::Failed;
                let half = Forwarder { pipeline, dir, phase, total, closed_by_fault };
                (half, ForwardAction::Fail(ForwardFailure::Read))
            },
            (ForwardEvent::WriteFailed, _) => {
                let phase = Phase::Failed;
                let half = Forwarder { pipeline, dir, phase, total, closed_by_fault };
                (half, ForwardAction::Fail(ForwardFailure::Write))
            },
            // Cancelled or at the end of the stream.
            _ => {
                let phase = Phase::Finished;
                let half = Forwarder { pipeline, dir, phase, total, closed_by_fault };
                (half, ForwardAction::Finish { cancel: false })
            },
        }
    }

    /// The delay is over: counts the faults, then hands out the payload.
    fn deliver(self, outcome: Outcome, stats: &mut Stats) -> (next: (Self, ForwardAction))
        ensures
            (next.0.model(*final(stats)), next.1@) == self.model(*old(stats)).deliver(outcome@),
            next.0.pipeline() == self.pipeline(),
            next.0.direction() == self.direction(),
            *final(stats) == self.direction().with_counters(
                *old(stats),
                self.direction().counters(*old(stats)).with_faults(outcome@),
            ),
    {
        self.dir.record_faults(stats, &outcome);
        match outcome.payload {
            Some(payload) => {
                let mut half = self;
                half.phase = Phase::Writing {
                    len: payload.len() as u64,
                    close_after: outcome.close_after,
                };
                (half, ForwardAction::Write(payload))
            },
            None => self.settle(outcome.close_after),
        }
    }

    /// The chunk is dealt with: goes on reading, or stops if the close fault fired.
    fn settle(self, close_after: bool) -> (next: (Self, ForwardAction))
        ensures
            forall|stats: Stats|
                (#[trigger] next.0.model(stats), next.1@) == self.model(stats).settle(close_after),
            next.0.pipeline() == self.pipeline(),
            next.0.direction() == self.direction(),
    {
        let mut half = self;
        if close_after {
            half.phase = Phase::Finished;
            half.closed_by_fault = true;
            (half, ForwardAction::Finish { cancel: true })
        } else {
            half.phase = Phase::Reading;
            (half, ForwardAction::Read)
        }
    }

    /// What this half has done so far.
    pub fn output(&self) -> (out: ForwardOutput)
        ensures
            out.bytes == self.total(),
            out.stats == self.pipeline().injected(),
    {
        ForwardOutput { bytes: self.total, stats: self.pipeline.stats() }
    }

    /// Whether the close fault of this half has fired.
    pub fn is_closed_by_fault(&self) -> (r: bool)
        ensures
            r == self.closed_by_fault(),
    {
        self.closed_by_fault
    }
}

/// `half` is about to read its first chunk.
pub open spec fn starts(half: Forwarder, pipeline: FaultPipeline, dir: Direction) -> bool {
    &&& half.pipeline() == pipeline
    &&& half.direction() == dir
    &&& half.phase() == PhaseView::Reading
    &&& half.total() == 0
    &&& !half.closed_by_fault()
}

/// What the pipeline of `half` makes of the chunk that `event` brings.
pub open spec fn fresh_outcome(half: Forwarder, event: ForwardEventView) -> OutcomeView {
    chunk_step(half.pipeline().config(), half.pipeline().words(), event->Received_0).0
}

/// A forwarding half went from `before` to `after` at `event` and asked for
/// `action`, changing the counters from `stats_before` to `stats_after`.
pub open spec fn stepped(
    before: Forwarder,
    after: Forwarder,
    event: ForwardEventView,
    action: ForwardActionView,
    stats_before: Stats,
    stats_after: Stats,
) -> bool {
    &&& (after.model(stats_after), action) == before.model(stats_before).react(
        event,
        fresh_outcome(before, event),
    )
    &&& after.direction() == before.direction()
    &&& stats_after == before.direction().with_counters(
        stats_before,
        before.direction().counters(stats_after),
    )
    &&& if event is Received {
        processed(
            before.pipeline(),
            after.pipeline(),
            event->Received_0,
            fresh_outcome(before, event),
        )
    } else {
        after.pipeline() == before.pipeline()
    }
}

/// The two halves of a new connection: client to server first.
pub fn open_connection<A>(config: &Config<A>, conn_id: u64) -> (halves: (Forwarder, Forwarder))
    ensures
        halves.0.pipeline().config() == config.client_to_server,
        halves.1.pipeline().config() == config.server_to_client,
        halves.0.direction() is ClientToServer,
        halves.1.direction() is ServerToClient,
        starts(halves.0, halves.0.pipeline(), Direction::ClientToServer),
        starts(halves.1, halves.1.pipeline(), Direction::ServerToClient),
        fresh_pipeline(
            halves.0.pipeline(),
            config.client_to_server,
            config.seed,
            conn_id,
            Direction::ClientToServer,
        ),
        fresh_pipeline(
            halves.1.pipeline(),
            config.server_to_client,
            config.seed,
            conn_id,
            Direction::ServerToClient,
        ),
{
    let c2s = build_pipeline(
        &config.client_to_server,
        config.seed,
        conn_id,
        Direction::ClientToServer,
    );
    let s2c = build_pipeline(
        &config.server_to_client,
        config.seed,
        conn_id,
        Direction::ServerToClient,
    );
    (
        Forwarder::new(c2s, Direction::ClientToServer),
        Forwarder::new(s2c, Direction::ServerToClient),
    )
}

/// The source of connection ids, counting up from `FIRST_CONN_ID`.
#[derive(Debug)]
pub struct ConnectionIds {
    next: u64,
}

impl ConnectionIds {
    /// The id that the next connection gets.
    pub closed spec fn next(self) -> u64 {
        self.next
    }

    pub fn new() -> (ids: Self)
        ensures
            ids.next() == FIRST_CONN_ID,
            ids.next() == 1,
    {
        ConnectionIds { next: FIRST_CONN_ID }
    }

    /// Hands out the next id.
    pub fn allocate(&mut self) -> (id: u64)
        ensures
            id == old(self).next(),
            final(self).next() == old(self).next().wrapping_add(1),
    {
        let id: u64 = self.next;
        self.next = self.next.wrapping_add(1);
        id
    }
}

/// Something that happened to the accept loop.
#[derive(Debug, Clone, Copy, PartialEq, Eq, Structural)]
pub enum AcceptEvent {
    /// Shutdown was requested.
    Shutdown,
    /// A client connected.
    Accepted,
    /// Accepting failed. Such errors are typically transient (too many open files).
    Failed,
}

/// What the accept loop has to do next.
#[derive(Debug, Clone, Copy, PartialEq, Eq, Structural)]
pub enum AcceptAction {
    /// Accept no more connections, and let those in flight drain.
    Drain,
    /// Serve the new connection under this id, and go on accepting.
    Handle { conn_id: u64 },
    /// Go on accepting.
    Continue,
}

/// The accept loop asked for `action` at `event`; the id source and the counters
/// changed as given.
pub open spec fn accept_stepped(
    event: AcceptEvent,
    action: AcceptAction,
    ids_before: ConnectionIds,
    ids_after: ConnectionIds,
    stats_before: Stats,
    stats_after: Stats,
) -> bool {
    match event {
        AcceptEvent::Shutdown => {
            &&& action == AcceptAction::Drain
            &&& ids_after.next() == ids_before.next()
            &&& stats_after == stats_before
        },
        AcceptEvent::Accepted => {
            &&& action == AcceptAction::Handle { conn_id: ids_before.next() }
            &&& ids_after.next() == ids_before.next().wrapping_add(1)
            &&& stats_after == (Stats {
                connections_handled: stats_before.connections_handled.wrapping_add(1),
                ..stats_before
            })
        },
        AcceptEvent::Failed => {
            &&& action == AcceptAction::Continue
            &&& ids_after.next() == ids_before.next()
            &&& stats_after == stats_before
        },
    }
}

/// Takes note of `event` and says what to do next. A new connection gets an id and
/// is counted; a failed accept does not bring down the proxy.
pub fn accept_step(event: AcceptEvent, ids: &mut ConnectionIds, stats: &mut Stats) -> (action:
    AcceptAction)
    ensures
        accept_stepped(event, action, *old(ids), *final(ids), *old(stats), *final(stats)),
{
    match event {
        AcceptEvent::Shutdown => AcceptAction::Drain,
        AcceptEvent::Accepted => {
            let conn_id: u64 = ids.allocate();
            stats.record_connection();
            AcceptAction::Handle { conn_id }
        },
        AcceptEvent::Failed => AcceptAction::Continue,
    }
}

} // verus!
