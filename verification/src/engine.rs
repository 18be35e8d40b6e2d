//! The block fan-out engine: the decisions of one operation's run.
//!
//! The engine reads nothing and writes nothing. It says what is to be done
//! next ([`Engine::action`]) and is told what came of it ([`Engine::step`]);
//! whoever drives it opens the input and the sinks, reads the blocks and hands
//! each block to the sinks.
//!
//! A run opens the input, then each sink in order. It then reads one block
//! after another and hands every block to all sinks that are still live, at
//! once. It waits until each of them has taken the block or failed before it
//! reads the next one: a slow sink holds the reader back, and no sink misses a
//! block. A sink that fails to open, or fails on a write, is dead for the rest
//! of the run; the other sinks go on. The run ends at the end of the input,
//! when the block count is reached, when no sink is left, when the input
//! cannot be opened or read, or when it is cancelled. Before it is done,
//! whatever it ended by, it has every handle released.
//!
//! An empty read ends the run, also for an input that is still being written
//! to. For such an input the read action says so, and the driver may wait for
//! more before it reports an empty read.
//!
//! The counters saturate at the largest number of 64 bits.

use crate::arguments::{Operation, OperationView};
use vstd::prelude::*;

verus! {

/// What has become of a sink.
#[derive(Clone, Copy, Debug, PartialEq, Eq, Structural)]
pub enum SinkState {
    /// Not opened yet.
    Pending,
    /// Open, and every block so far was written.
    Live,
    /// Could not be opened.
    FailedAtOpen,
    /// Failed on a write.
    FailedAtWrite,
}

/// The account of one sink.
#[derive(Clone, Debug, PartialEq, Eq)]
pub struct SinkReport {
    pub state: SinkState,
    /// Blocks that the sink has taken.
    pub blocks_written: u64,
    /// The error that the sink failed with.
    pub error: Option<String>,
}

pub struct SinkView {
    pub state: SinkState,
    pub written: nat,
    pub error: Option<Seq<char>>,
}

/// The text of an optional message.
pub open spec fn message_view(m: Option<String>) -> Option<Seq<char>> {
    match m {
        Some(text) => Some(text@),
        None => None,
    }
}

impl View for SinkReport {
    type V = SinkView;

    open spec fn view(&self) -> SinkView {
        SinkView {
            state: self.state,
            written: self.blocks_written as nat,
            error: message_view(self.error),
        }
    }
}

/// The views of a list of accounts, in order.
pub open spec fn sink_views(sinks: Seq<SinkReport>) -> Seq<SinkView> {
    Seq::new(sinks.len(), |i: int| sinks[i]@)
}

/// The views of a list of optional messages, in order.
pub open spec fn message_views(messages: Seq<Option<String>>) -> Seq<Option<Seq<char>>> {
    Seq::new(messages.len(), |i: int| message_view(messages[i]))
}

/// Where a run stands; each phase waits for the outcome of one action.
#[derive(Clone, Copy, Debug, PartialEq, Eq, Structural)]
pub enum Phase {
    OpenInput,
    /// The sinks before this one were opened or have failed to open.
    OpenSink(usize),
    Read,
    Deliver,
    Close,
    Done,
}

/// Why a run has ended.
#[derive(Clone, Copy, Debug, PartialEq, Eq, Structural)]
pub enum Stop {
    EndOfInput,
    CountReached,
    AllSinksDead,
    InputUnavailable,
    ReadFailed,
    Cancelled,
}

/// What the driver is to do next.
#[derive(Clone, Copy, Debug, PartialEq, Eq, Structural)]
pub enum Action {
    /// Open the input for reading.
    OpenInput,
    /// Open the sink with this index.
    OpenSink(usize),
    /// Read one block of at most `max` bytes. `follow` marks an input that
    /// is still being written to.
    Read { max: u64, follow: bool },
    /// Hand the block that was read to every live sink.
    Deliver,
    /// Release the input and every sink.
    Close,
    /// Nothing: the run is over.
    Done,
}

/// What came of an action.
#[derive(Clone, Debug, PartialEq, Eq)]
pub enum Event {
    InputOpened,
    InputFailed(String),
    SinkOpened,
    SinkFailed(String),
    /// A read gave this many bytes; none at the end of the input.
    Block(u64),
    ReadFailed(String),
    /// What became of the block at each sink, by the sink's index: `None`
    /// where the sink took it, its error where it did not. The entry of a
    /// sink that is not live is not looked at.
    Delivered(Vec<Option<String>>),
    Closed,
    /// The run is to stop. Not accepted while a block is with the sinks: the
    /// driver reports what became of it first.
    Cancelled,
}

pub enum EventView {
    InputOpened,
    InputFailed(Seq<char>),
    SinkOpened,
    SinkFailed(Seq<char>),
    Block(nat),
    ReadFailed(Seq<char>),
    Delivered(Seq<Option<Seq<char>>>),
    Closed,
    Cancelled,
}

impl View for Event {
    type V = EventView;

    open spec fn view(&self) -> EventView {
        match *self {
            Event::InputOpened => EventView::InputOpened,
            Event::InputFailed(m) => EventView::InputFailed(m@),
            Event::SinkOpened => EventView::SinkOpened,
            Event::SinkFailed(m) => EventView::SinkFailed(m@),
            Event::Block(n) => EventView::Block(n as nat),
            Event::ReadFailed(m) => EventView::ReadFailed(m@),
            Event::Delivered(outcomes) => EventView::Delivered(message_views(outcomes@)),
            Event::Closed => EventView::Closed,
            Event::Cancelled => EventView::Cancelled,
        }
    }
}

/// `n`, or the largest number of 64 bits where `n` is above it.
pub open spec fn saturated(n: nat) -> nat {
    if n > u64::MAX {
        u64::MAX as nat
    } else {
        n
    }
}

impl SinkView {
    pub open spec fn pending() -> SinkView {
        SinkView { state: SinkState::Pending, written: 0, error: None }
    }

    pub open spec fn failed(self) -> bool {
        self.state == SinkState::FailedAtOpen || self.state == SinkState::FailedAtWrite
    }

    /// The sink after it was tried: open, or failed with `error`.
    pub open spec fn after_open(self, error: Option<Seq<char>>) -> SinkView {
        match error {
            None => SinkView { state: SinkState::Live, ..self },
            Some(m) => SinkView { state: SinkState::FailedAtOpen, error: Some(m), ..self },
        }
    }

    /// The sink after a block went round: a sink that is not live is as it
    /// was; a live one has one block more, or has failed with `outcome`.
    pub open spec fn after_write(self, outcome: Option<Seq<char>>) -> SinkView {
        if self.state != SinkState::Live {
            self
        } else {
            match outcome {
                None => SinkView { written: saturated(self.written + 1), ..self },
                Some(m) => SinkView { state: SinkState::FailedAtWrite, error: Some(m), ..self },
            }
        }
    }
}

/// The state of a run.
pub struct EngineView {
    pub block_size: nat,
    /// The most blocks to deliver; 0 sets no limit.
    pub block_count: nat,
    pub follow: bool,
    pub phase: Phase,
    pub sinks: Seq<SinkView>,
    /// Blocks read and handed to the sinks.
    pub delivered: nat,
    pub bytes_read: nat,
    pub stop: Option<Stop>,
    /// The error that the input failed with.
    pub error: Option<Seq<char>>,
}

impl EngineView {
    /// The state before anything was done.
    pub open spec fn start(op: OperationView) -> EngineView {
        EngineView {
            block_size: op.block_size as nat,
            block_count: op.count as nat,
            follow: op.is_redirected,
            phase: Phase::OpenInput,
            sinks: Seq::new(op.outputs.len(), |i: int| SinkView::pending()),
            delivered: 0,
            bytes_read: 0,
            stop: None,
            error: None,
        }
    }

    pub open spec fn any_live(self) -> bool {
        exists|i: int| 0 <= i < self.sinks.len() && (#[trigger] self.sinks[i]).state == SinkState::Live
    }

    pub open spec fn capped(self) -> bool {
        self.block_count > 0 && self.delivered >= self.block_count
    }

    /// What holds of sink `i` in every state that a run passes through: it has
    /// no more blocks than were delivered, none if it never opened, no error
    /// unless it failed, and it is pending until its turn to be opened has come.
    pub open spec fn sink_wf(self, i: int) -> bool {
        let sink = self.sinks[i];
        &&& sink.written <= self.delivered
        &&& sink.state == SinkState::Pending || sink.state == SinkState::FailedAtOpen
            ==> sink.written == 0
        &&& self.phase == Phase::Deliver && sink.state == SinkState::Live ==> saturated(
            sink.written + 1,
        ) <= self.delivered
        &&& sink.state == SinkState::Pending || sink.state == SinkState::Live ==> sink.error is None
        &&& self.phase == Phase::OpenInput ==> sink.state == SinkState::Pending
        &&& self.phase matches Phase::OpenSink(k) ==> i >= k ==> sink.state == SinkState::Pending
    }

    /// What holds of every state that a run passes through.
    pub open spec fn wf(self) -> bool {
        &&& 0 < self.block_size <= u64::MAX
        &&& 0 < self.sinks.len() <= usize::MAX
        &&& self.block_count <= u64::MAX
        &&& self.delivered <= u64::MAX
        &&& self.bytes_read <= u64::MAX
        &&& self.phase matches Phase::OpenSink(i) ==> i < self.sinks.len()
        &&& self.block_count > 0 ==> self.delivered <= self.block_count
        &&& self.stop is Some <==> self.phase == Phase::Close || self.phase == Phase::Done
        &&& self.phase == Phase::Read ==> self.any_live() && !self.capped()
        &&& forall|i: int| 0 <= i < self.sinks.len() ==> #[trigger] self.sink_wf(i)
    }

    /// What the driver is to do in this state.
    pub open spec fn action(self) -> Action {
        match self.phase {
            Phase::OpenInput => Action::OpenInput,
            Phase::OpenSink(i) => Action::OpenSink(i),
            Phase::Read => Action::Read { max: self.block_size as u64, follow: self.follow },
            Phase::Deliver => Action::Deliver,
            Phase::Close => Action::Close,
            Phase::Done => Action::Done,
        }
    }

    /// The run has ended by `why`; what is left is to release the handles.
    pub open spec fn ended(self, why: Stop, error: Option<Seq<char>>) -> EngineView {
        EngineView { phase: Phase::Close, stop: Some(why), error, ..self }
    }

    /// The decision before each read: stop at the block count, stop when no
    /// sink is left, else read.
    pub open spec fn settled(self) -> EngineView {
        if self.capped() {
            self.ended(Stop::CountReached, None)
        } else if !self.any_live() {
            self.ended(Stop::AllSinksDead, None)
        } else {
            EngineView { phase: Phase::Read, ..self }
        }
    }

    /// The state after sink `i` was tried.
    pub open spec fn after_open(self, i: int, error: Option<Seq<char>>) -> EngineView {
        let tried = EngineView { sinks: self.sinks.update(i, self.sinks[i].after_open(error)), ..self };
        if i + 1 < self.sinks.len() {
            EngineView { phase: Phase::OpenSink((i + 1) as usize), ..tried }
        } else {
            tried.settled()
        }
    }

    /// The state after a read of `n` bytes.
    pub open spec fn after_read(self, n: nat) -> EngineView {
        if n == 0 {
            self.ended(Stop::EndOfInput, None)
        } else {
            EngineView {
                phase: Phase::Deliver,
                delivered: saturated(self.delivered + 1),
                bytes_read: saturated(self.bytes_read + n),
                ..self
            }
        }
    }

    /// The state after the block went round.
    pub open spec fn after_delivery(self, outcomes: Seq<Option<Seq<char>>>) -> EngineView {
        EngineView {
            sinks: Seq::new(self.sinks.len(), |i: int| self.sinks[i].after_write(outcomes[i])),
            ..self
        }.settled()
    }

    /// The state after `event`, or `None` where the state does not wait for it.
    pub open spec fn step(self, event: EventView) -> Option<EngineView> {
        match (self.phase, event) {
            (Phase::OpenInput, EventView::InputOpened) => Some(
                EngineView { phase: Phase::OpenSink(0), ..self },
            ),
            (Phase::OpenInput, EventView::InputFailed(m)) => Some(
                self.ended(Stop::InputUnavailable, Some(m)),
            ),
            (Phase::OpenSink(i), EventView::SinkOpened) => Some(self.after_open(i as int, None)),
            (Phase::OpenSink(i), EventView::SinkFailed(m)) => Some(
                self.after_open(i as int, Some(m)),
            ),
            (Phase::Read, EventView::Block(n)) => if n <= self.block_size {
                Some(self.after_read(n))
            } else {
                None
            },
            (Phase::Read, EventView::ReadFailed(m)) => Some(self.ended(Stop::ReadFailed, Some(m))),
            (Phase::Deliver, EventView::Delivered(outcomes)) => if outcomes.len()
                == self.sinks.len() {
                Some(self.after_delivery(outcomes))
            } else {
                None
            },
            (Phase::Close, EventView::Closed) => Some(EngineView { phase: Phase::Done, ..self }),
            (Phase::OpenInput, EventView::Cancelled)
            | (Phase::OpenSink(_), EventView::Cancelled)
            | (Phase::Read, EventView::Cancelled) => Some(self.ended(Stop::Cancelled, None)),
            _ => None,
        }
    }
}

/// A step keeps what holds of every state of a run.
pub proof fn lemma_step_wf(s: EngineView, event: EventView)
    requires
        s.wf(),
        s.step(event) is Some,
    ensures
        s.step(event)->0.wf(),
{
    let next = s.step(event)->0;
    assert(next.sinks.len() == s.sinks.len());
    assert forall|i: int| 0 <= i < s.sinks.len() implies #[trigger] next.sink_wf(i) by {
        assert(s.sink_wf(i));
    }
}

/// A run is done only once its handles were released: whatever it ended by,
/// it asks for the release first, and only the word that this was done
/// brings it to its end.
pub proof fn law_done_comes_after_close(s: EngineView, event: EventView)
    requires
        s.wf(),
        s.step(event) is Some,
    ensures
        s.step(event)->0.phase == Phase::Done ==> s.phase == Phase::Close && event
            == EventView::Closed,
        s.stop is None && s.step(event)->0.stop is Some ==> s.step(event)->0.action()
            == Action::Close,
{
}

/// With a block count, no sink has more blocks than the count, in no state
/// that a run passes through and whatever its driver reports.
pub proof fn law_no_sink_beyond_the_count(s: EngineView, i: int)
    requires
        s.wf(),
        s.block_count > 0,
        0 <= i < s.sinks.len(),
    ensures
        s.sinks[i].written <= s.delivered <= s.block_count,
{
    assert(s.sink_wf(i));
}

/// A sink that has failed is left as it is by whatever comes after: its
/// state, its number of blocks and its error stay.
pub proof fn law_failed_sink_is_left_alone(s: EngineView, event: EventView, i: int)
    requires
        s.wf(),
        0 <= i < s.sinks.len(),
        s.sinks[i].failed(),
        s.step(event) is Some,
    ensures
        s.step(event)->0.sinks[i] == s.sinks[i],
{
    assert(s.sink_wf(i));
}

/// What a block's round makes of a sink depends on that sink and on what
/// became of the block there, not on how the other sinks fared.
pub proof fn law_round_tells_sinks_apart(
    s: EngineView,
    a: Seq<Option<Seq<char>>>,
    b: Seq<Option<Seq<char>>>,
    i: int,
)
    requires
        0 <= i < s.sinks.len(),
        a[i] == b[i],
    ensures
        s.after_delivery(a).sinks[i] == s.after_delivery(b).sinks[i],
        s.after_delivery(a).sinks[i] == s.sinks[i].after_write(a[i]),
{
}

/// A sink that a write failed on keeps the number of blocks that it had
/// taken before, and is dead from then on.
pub proof fn law_failed_write_keeps_the_count(
    s: EngineView,
    outcomes: Seq<Option<Seq<char>>>,
    i: int,
)
    requires
        0 <= i < s.sinks.len(),
        s.sinks[i].state == SinkState::Live,
        outcomes[i] is Some,
    ensures
        s.after_delivery(outcomes).sinks[i].state == SinkState::FailedAtWrite,
        s.after_delivery(outcomes).sinks[i].written == s.sinks[i].written,
        s.after_delivery(outcomes).sinks[i].error == outcomes[i],
{
}

/// What a run has come to.
#[derive(Clone, Debug, PartialEq, Eq)]
pub struct OperationResult {
    /// Blocks read and handed to the sinks.
    pub blocks_delivered: u64,
    pub bytes_read: u64,
    /// The account of each sink, in the order of the operation's outputs.
    pub sinks: Vec<SinkReport>,
    /// Why the run ended.
    pub stop: Stop,
    /// The error that the input failed with.
    pub error: Option<String>,
}

pub struct ResultView {
    pub delivered: nat,
    pub bytes_read: nat,
    pub sinks: Seq<SinkView>,
    pub stop: Stop,
    pub error: Option<Seq<char>>,
}

impl View for OperationResult {
    type V = ResultView;

    open spec fn view(&self) -> ResultView {
        ResultView {
            delivered: self.blocks_delivered as nat,
            bytes_read: self.bytes_read as nat,
            sinks: sink_views(self.sinks@),
            stop: self.stop,
            error: message_view(self.error),
        }
    }
}

/// A run's result at a glance.
#[derive(Clone, Copy, Debug, PartialEq, Eq, Structural)]
pub enum Status {
    /// The run came to its end and no sink failed.
    Complete,
    /// The run came to its end or ran out of sinks, and `failed` of its
    /// `total` sinks failed.
    Partial { failed: usize, total: usize },
    /// The run was cancelled.
    Cancelled,
    /// Reading the input failed.
    Aborted,
    /// The input could not be opened.
    DidNotRun,
}

/// How many of the sinks have failed.
pub open spec fn failed_count(sinks: Seq<SinkView>) -> nat
    decreases sinks.len(),
{
    if sinks.len() == 0 {
        0
    } else {
        failed_count(sinks.drop_last()) + if sinks.last().failed() {
            1nat
        } else {
            0nat
        }
    }
}

impl ResultView {
    /// Whether the input failed: it could not be opened or not be read.
    pub open spec fn fatal(self) -> bool {
        self.stop == Stop::InputUnavailable || self.stop == Stop::ReadFailed
    }

    pub open spec fn status(self) -> Status {
        if self.stop == Stop::InputUnavailable {
            Status::DidNotRun
        } else if self.stop == Stop::ReadFailed {
            Status::Aborted
        } else if self.stop == Stop::Cancelled {
            Status::Cancelled
        } else if failed_count(self.sinks) == 0 {
            Status::Complete
        } else {
            Status::Partial {
                failed: failed_count(self.sinks) as usize,
                total: self.sinks.len() as usize,
            }
        }
    }
}

impl EngineView {
    /// The result of a run that is done.
    pub open spec fn result(self) -> Option<ResultView> {
        if self.phase == Phase::Done && self.stop is Some {
            Some(
                ResultView {
                    delivered: self.delivered,
                    bytes_read: self.bytes_read,
                    sinks: self.sinks,
                    stop: self.stop->0,
                    error: self.error,
                },
            )
        } else {
            None
        }
    }
}

impl OperationResult {
    /// How many of the sinks have failed, at opening or on a write.
    pub fn failed_sinks(&self) -> (r: usize)
        ensures
            r == failed_count(self@.sinks),
            r <= self.sinks.len(),
    {
        let mut count: usize = 0;
        let mut i: usize = 0;
        assert(self@.sinks.take(0) =~= Seq::empty());
        while i < self.sinks.len()
            invariant
                i <= self.sinks.len(),
                count <= i,
                count == failed_count(self@.sinks.take(i as int)),
            decreases self.sinks.len() - i,
        {
            proof {
                assert(self@.sinks.take(i + 1).drop_last() =~= self@.sinks.take(i as int));
                assert(self@.sinks.take(i + 1).last() == self.sinks@[i as int]@);
            }
            match self.sinks[i].state {
                SinkState::FailedAtOpen | SinkState::FailedAtWrite => {
                    count += 1;
                },
                _ => {},
            }
            i += 1;
        }
        assert(self@.sinks.take(i as int) =~= self@.sinks);
        count
    }

    /// Whether the input failed, so that the operation as a whole did.
    pub fn is_fatal(&self) -> (r: bool)
        ensures
            r == self@.fatal(),
    {
        match self.stop {
            Stop::InputUnavailable | Stop::ReadFailed => true,
            _ => false,
        }
    }

    /// The result at a glance.
    pub fn status(&self) -> (r: Status)
        ensures
            r == self@.status(),
    {
        match self.stop {
            Stop::InputUnavailable => Status::DidNotRun,
            Stop::ReadFailed => Status::Aborted,
            Stop::Cancelled => Status::Cancelled,
            _ => {
                let failed = self.failed_sinks();
                if failed == 0 {
                    Status::Complete
                } else {
                    Status::Partial { failed, total: self.sinks.len() }
                }
            },
        }
    }
}

/// Notes what became of a block at each live sink.
fn record(sinks: &mut Vec<SinkReport>, outcomes: &Vec<Option<String>>)
    requires
        outcomes.len() == old(sinks).len(),
        forall|i: int|
            0 <= i < old(sinks).len() && (#[trigger] old(sinks)[i]).state == SinkState::Live
                ==> old(sinks)[i].error is None,
    ensures
        sink_views(final(sinks)@) == Seq::new(
            old(sinks).len() as nat,
            |i: int| old(sinks)[i]@.after_write(message_view(outcomes[i])),
        ),
{
    let n: usize = sinks.len();
    let mut i: usize = 0;
    while i < n
        invariant
            i <= n,
            n == sinks.len(),
            n == old(sinks).len(),
            n == outcomes.len(),
            forall|k: int| 0 <= k < i ==> (#[trigger] sinks[k])@ == old(sinks)[k]@.after_write(
                message_view(outcomes[k]),
            ),
            forall|k: int| i <= k < n ==> #[trigger] sinks[k] == old(sinks)[k],
            forall|k: int|
                0 <= k < n && (#[trigger] old(sinks)[k]).state == SinkState::Live ==> old(
                    sinks,
                )[k].error is None,
        decreases n - i,
    {
        let written: u64 = sinks[i].blocks_written;
        match sinks[i].state {
            SinkState::Live => {
                let ghost before = sinks[i as int];
                assert(before == old(sinks)[i as int]);
                let after = match &outcomes[i] {
                    None => SinkReport {
                        state: SinkState::Live,
                        blocks_written: written.saturating_add(1),
                        error: None,
                    },
                    Some(m) => SinkReport {
                        state: SinkState::FailedAtWrite,
                        blocks_written: written,
                        error: Some(m.clone()),
                    },
                };
                assert(after@ == before@.after_write(message_view(outcomes[i as int])));
                sinks.set(i, after);
            },
            _ => {},
        }
        i += 1;
    }
    assert(sink_views(sinks@) =~= Seq::new(
        n as nat,
        |i: int| old(sinks)[i]@.after_write(message_view(outcomes[i])),
    ));
}

/// The engine of one operation's run.
#[derive(Debug)]
pub struct Engine {
    block_size: u64,
    block_count: u64,
    follow: bool,
    phase: Phase,
    sinks: Vec<SinkReport>,
    delivered: u64,
    bytes_read: u64,
    stop: Option<Stop>,
    error: Option<String>,
}

impl View for Engine {
    type V = EngineView;

    closed spec fn view(&self) -> EngineView {
        EngineView {
            block_size: self.block_size as nat,
            block_count: self.block_count as nat,
            follow: self.follow,
            phase: self.phase,
            sinks: sink_views(self.sinks@),
            delivered: self.delivered as nat,
            bytes_read: self.bytes_read as nat,
            stop: self.stop,
            error: message_view(self.error),
        }
    }
}

impl Engine {
    /// The engine for `op`, before anything was done.
    pub fn new(op: &Operation) -> (r: Engine)
        requires
            op@.valid(),
        ensures
            r@ == EngineView::start(op@),
            r@.wf(),
    {
        let n: usize = op.outputs.len();
        let mut sinks: Vec<SinkReport> = Vec::new();
        let mut i: usize = 0;
        while i < n
            invariant
                i <= n,
                sinks.len() == i,
                forall|k: int| 0 <= k < i ==> (#[trigger] sinks[k])@ == SinkView::pending(),
            decreases n - i,
        {
            sinks.push(SinkReport { state: SinkState::Pending, blocks_written: 0, error: None });
            i += 1;
        }
        let r = Engine {
            block_size: op.block_size,
            block_count: op.count,
            follow: op.is_redirected,
            phase: Phase::OpenInput,
            sinks,
            delivered: 0,
            bytes_read: 0,
            stop: None,
            error: None,
        };
        proof {
            assert(r@.sinks =~= EngineView::start(op@).sinks);
            assert forall|k: int| 0 <= k < r@.sinks.len() implies #[trigger] r@.sink_wf(k) by {}
        }
        r
    }

    /// What the driver is to do next.
    pub fn action(&self) -> (r: Action)
        ensures
            r == self@.action(),
    {
        match self.phase {
            Phase::OpenInput => Action::OpenInput,
            Phase::OpenSink(i) => Action::OpenSink(i),
            Phase::Read => Action::Read { max: self.block_size, follow: self.follow },
            Phase::Deliver => Action::Deliver,
            Phase::Close => Action::Close,
            Phase::Done => Action::Done,
        }
    }

    /// Whether the run is over.
    pub fn is_done(&self) -> (r: bool)
        ensures
            r == (self@.phase == Phase::Done),
    {
        match self.phase {
            Phase::Done => true,
            _ => false,
        }
    }

    /// The number of sinks.
    pub fn sink_count(&self) -> (r: usize)
        ensures
            r == self@.sinks.len(),
    {
        self.sinks.len()
    }

    /// The sinks that are live, in rising order: those that a block is
    /// handed to, and no others.
    pub fn live_sinks(&self) -> (r: Vec<usize>)
        ensures
            forall|k: int| 0 <= k < r.len() ==> r[k] < self@.sinks.len() && (
            #[trigger] self@.sinks[r[k] as int]).state == SinkState::Live,
            forall|j: int, k: int| 0 <= j < k < r.len() ==> r[j] < r[k],
            forall|i: int|
                0 <= i < self@.sinks.len() && (#[trigger] self@.sinks[i]).state == SinkState::Live
                    ==> r@.contains(i as usize),
    {
        let mut live: Vec<usize> = Vec::new();
        let mut i: usize = 0;
        while i < self.sinks.len()
            invariant
                i <= self.sinks.len(),
                forall|k: int| 0 <= k < live.len() ==> (#[trigger] live[k]) < i,
                forall|k: int|
                    0 <= k < live.len() ==> (#[trigger] self@.sinks[live[k] as int]).state
                        == SinkState::Live,
                forall|j: int, k: int| 0 <= j < k < live.len() ==> live[j] < live[k],
                forall|s: int|
                    0 <= s < i && (#[trigger] self@.sinks[s]).state == SinkState::Live
                        ==> live@.contains(s as usize),
            decreases self.sinks.len() - i,
        {
            let ghost before = live@;
            match self.sinks[i].state {
                SinkState::Live => {
                    live.push(i);
                    assert(live@[before.len() as int] == i);
                    assert forall|s: int|
                        0 <= s < i + 1 && (#[trigger] self@.sinks[s]).state
                            == SinkState::Live implies live@.contains(s as usize) by {
                        if s < i {
                            let k = choose|k: int| 0 <= k < before.len() && before[k] == s as usize;
                            assert(live@[k] == s as usize);
                        }
                    }
                },
                _ => {},
            }
            i += 1;
        }
        live
    }

    /// Tells the engine what came of the action that it asked for. `true`
    /// where the event answers that action; an event that does not is
    /// refused and changes nothing.
    pub fn step(&mut self, event: Event) -> (accepted: bool)
        requires
            old(self)@.wf(),
        ensures
            match old(self)@.step(event@) {
                Some(next) => accepted && final(self)@ == next,
                None => !accepted && final(self)@ == old(self)@,
            },
            final(self)@.wf(),
    {
        proof {
            if old(self)@.step(event@) is Some {
                lemma_step_wf(old(self)@, event@);
            }
        }
        match self.phase {
            Phase::OpenInput => match event {
                Event::InputOpened => {
                    self.phase = Phase::OpenSink(0);
                    true
                },
                Event::InputFailed(m) => {
                    self.end(Stop::InputUnavailable, Some(m));
                    true
                },
                Event::Cancelled => {
                    self.end(Stop::Cancelled, None);
                    true
                },
                _ => false,
            },
            Phase::OpenSink(i) => match event {
                Event::SinkOpened => {
                    self.opened(i, None);
                    true
                },
                Event::SinkFailed(m) => {
                    self.opened(i, Some(m));
                    true
                },
                Event::Cancelled => {
                    self.end(Stop::Cancelled, None);
                    true
                },
                _ => false,
            },
            Phase::Read => match event {
                Event::Block(n) => {
                    if n > self.block_size {
                        false
                    } else if n == 0 {
                        self.end(Stop::EndOfInput, None);
                        true
                    } else {
                        self.delivered = self.delivered.saturating_add(1);
                        self.bytes_read = self.bytes_read.saturating_add(n);
                        self.phase = Phase::Deliver;
                        true
                    }
                },
                Event::ReadFailed(m) => {
                    self.end(Stop::ReadFailed, Some(m));
                    true
                },
                Event::Cancelled => {
                    self.end(Stop::Cancelled, None);
                    true
                },
                _ => false,
            },
            Phase::Deliver => match event {
                Event::Delivered(outcomes) => {
                    if outcomes.len() != self.sinks.len() {
                        false
                    } else {
                        proof {
                            assert forall|i: int|
                                0 <= i < self.sinks.len() && (#[trigger] self.sinks[i]).state
                                    == SinkState::Live implies self.sinks[i].error is None by {
                                assert(self@.sink_wf(i));
                            }
                        }
                        record(&mut self.sinks, &outcomes);
                        assert(self@.sinks =~= Seq::new(
                            old(self)@.sinks.len(),
                            |i: int| old(self)@.sinks[i].after_write(message_views(outcomes@)[i]),
                        ));
                        self.settle();
                        true
                    }
                },
                _ => false,
            },
            Phase::Close => match event {
                Event::Closed => {
                    self.phase = Phase::Done;
                    true
                },
                _ => false,
            },
            Phase::Done => false,
        }
    }

    /// The result, once the run is done.
    pub fn finish(self) -> (r: Option<OperationResult>)
        ensures
            match r {
                Some(result) => self@.result() == Some(result@),
                None => self@.result() is None,
            },
    {
        match self.phase {
            Phase::Done => match self.stop {
                Some(stop) => Some(
                    OperationResult {
                        blocks_delivered: self.delivered,
                        bytes_read: self.bytes_read,
                        sinks: self.sinks,
                        stop,
                        error: self.error,
                    },
                ),
                None => None,
            },
            _ => None,
        }
    }

    fn end(&mut self, why: Stop, error: Option<String>)
        ensures
            final(self)@ == old(self)@.ended(why, message_view(error)),
    {
        self.phase = Phase::Close;
        self.stop = Some(why);
        self.error = error;
    }

    fn has_live(&self) -> (r: bool)
        ensures
            r == self@.any_live(),
    {
        let mut i: usize = 0;
        while i < self.sinks.len()
            invariant
                i <= self.sinks.len(),
                forall|k: int| 0 <= k < i ==> (#[trigger] self@.sinks[k]).state != SinkState::Live,
            decreases self.sinks.len() - i,
        {
            match self.sinks[i].state {
                SinkState::Live => {
                    assert(self@.sinks[i as int].state == SinkState::Live);
                    return true;
                },
                _ => {},
            }
            i += 1;
        }
        false
    }

    fn settle(&mut self)
        ensures
            final(self)@ == old(self)@.settled(),
    {
        if self.block_count > 0 && self.delivered >= self.block_count {
            self.end(Stop::CountReached, None);
        } else if !self.has_live() {
            self.end(Stop::AllSinksDead, None);
        } else {
            self.phase = Phase::Read;
        }
    }

    fn opened(&mut self, i: usize, error: Option<String>)
        requires
            old(self)@.wf(),
            old(self)@.phase == Phase::OpenSink(i),
        ensures
            final(self)@ == old(self)@.after_open(i as int, message_view(error)),
    {
        assert(self@.sink_wf(i as int));
        let written: u64 = self.sinks[i].blocks_written;
        let state = match error {
            None => SinkState::Live,
            Some(_) => SinkState::FailedAtOpen,
        };
        self.sinks.set(i, SinkReport { state, blocks_written: written, error });
        assert(self@.sinks =~= old(self)@.sinks.update(
            i as int,
            old(self)@.sinks[i as int].after_open(message_view(error)),
        ));
        if i + 1 < self.sinks.len() {
            self.phase = Phase::OpenSink(i + 1);
        } else {
            self.settle();
        }
    }
}

} // verus!
