//! Whole runs: what an engine comes to when its driver does what it asks for,
//! on an input that opens and can be read to its end.
//!
//! Nothing here is executed. A [`Setting`] says how the outside answers: what
//! the input holds, which sinks open, and on which write a sink fails. A
//! [`World`] is the engine together with what the outside has seen of the run:
//! how far the input was read, the write calls made to each sink and the
//! blocks that each sink took.
//!
//! The driver of these runs fills every block: a read gives fewer bytes than
//! were asked for only where the input ends. It hands a block to the live
//! sinks and to no others, and it is never cancelled.

use crate::arguments::OperationView;
use crate::engine::{Action, EngineView, EventView, Phase, SinkState, Stop};
use vstd::arithmetic::div_mod::{lemma_fundamental_div_mod, lemma_mod_bound};
use vstd::prelude::*;

verus! {

/// The smaller of two numbers.
pub open spec fn least(a: nat, b: nat) -> nat {
    if a <= b {
        a
    } else {
        b
    }
}

/// Where block `k` starts in an input of `len` bytes: `k` blocks on, or at
/// the end.
pub open spec fn offset(k: nat, bs: nat, len: nat) -> nat {
    least(k * bs, len)
}

/// Block `k` of the input, counted from 0: the bytes from `k` blocks on up to
/// the start of the next block or the end of the input.
pub open spec fn block_at(input: Seq<u8>, bs: nat, k: nat) -> Seq<u8> {
    input.subrange(offset(k, bs, input.len()) as int, offset(k + 1, bs, input.len()) as int)
}

/// The first `m` blocks of the input.
pub open spec fn blocks(input: Seq<u8>, bs: nat, m: nat) -> Seq<Seq<u8>> {
    Seq::new(m, |k: int| block_at(input, bs, k as nat))
}

/// The number of blocks in `len` bytes, the last of which may be short.
pub open spec fn blocks_in(len: nat, bs: nat) -> nat {
    if len % bs == 0 {
        len / bs
    } else {
        len / bs + 1
    }
}

/// The number of blocks that a run delivers if a sink stays with it to the
/// end: all blocks of the input, or `count` of them where that is fewer.
pub open spec fn total(op: OperationView, len: nat) -> nat {
    let all = blocks_in(len, op.block_size as nat);
    if op.count == 0 {
        all
    } else {
        least(op.count as nat, all)
    }
}

/// How the outside answers during one run.
pub struct Setting {
    pub input: Seq<u8>,
    /// Whether the sink with this index opens.
    pub opens: Seq<bool>,
    /// The write, counted from 1, on which the sink with this index fails;
    /// 0 where it never fails.
    pub fails_at: Seq<nat>,
}

impl Setting {
    /// The setting answers for every sink of `op`, and its input has a length
    /// of 64 bits.
    pub open spec fn fits(self, op: OperationView) -> bool {
        &&& self.opens.len() == op.outputs.len()
        &&& self.fails_at.len() == op.outputs.len()
        &&& self.input.len() <= u64::MAX
    }

    /// The number of blocks that sink `i` has taken once `k` blocks went round.
    pub open spec fn share(self, i: int, k: nat) -> nat {
        if !self.opens[i] {
            0
        } else if self.fails_at[i] == 0 || k < self.fails_at[i] {
            k
        } else {
            (self.fails_at[i] - 1) as nat
        }
    }

    /// The number of write calls made to sink `i` once `k` blocks went round.
    pub open spec fn calls(self, i: int, k: nat) -> nat {
        if !self.opens[i] {
            0
        } else if self.fails_at[i] == 0 || k < self.fails_at[i] {
            k
        } else {
            self.fails_at[i]
        }
    }

    /// What has become of sink `i` once it was tried and `k` blocks went round.
    pub open spec fn state(self, i: int, k: nat) -> SinkState {
        if !self.opens[i] {
            SinkState::FailedAtOpen
        } else if self.fails_at[i] == 0 || k < self.fails_at[i] {
            SinkState::Live
        } else {
            SinkState::FailedAtWrite
        }
    }
}

/// An engine and what the outside has seen of its run.
pub struct World {
    pub engine: EngineView,
    /// Bytes of the input that were read.
    pub pos: nat,
    /// The block that was read last.
    pub block: Seq<u8>,
    /// The write calls made to each sink.
    pub calls: Seq<nat>,
    /// The blocks that each sink took, in order.
    pub taken: Seq<Seq<Seq<u8>>>,
}

impl World {
    /// The world before anything was done.
    pub open spec fn start(op: OperationView) -> World {
        World {
            engine: EngineView::start(op),
            pos: 0,
            block: Seq::empty(),
            calls: Seq::new(op.outputs.len(), |i: int| 0nat),
            taken: Seq::new(op.outputs.len(), |i: int| Seq::empty()),
        }
    }

    /// The world after the engine was told `event`.
    pub open spec fn told(self, event: EventView) -> World {
        World {
            engine: match self.engine.step(event) {
                Some(next) => next,
                None => self.engine,
            },
            ..self
        }
    }

    /// Whether the block that is going round is handed to sink `i`.
    pub open spec fn writes_to(self, i: int) -> bool {
        self.engine.sinks[i].state == SinkState::Live
    }

    /// Whether the write that sink `i` is called with now is the one it fails on.
    pub open spec fn fails_now(self, s: Setting, i: int) -> bool {
        s.fails_at[i] == self.calls[i] + 1
    }

    /// The world after a block went round: every live sink was called once,
    /// and took the block unless this was the call that it fails on.
    pub open spec fn deliver(self, s: Setting) -> World {
        let n = self.engine.sinks.len();
        World {
            calls: Seq::new(
                n,
                |i: int|
                    if self.writes_to(i) {
                        self.calls[i] + 1
                    } else {
                        self.calls[i]
                    },
            ),
            taken: Seq::new(
                n,
                |i: int|
                    if self.writes_to(i) && !self.fails_now(s, i) {
                        self.taken[i].push(self.block)
                    } else {
                        self.taken[i]
                    },
            ),
            ..self
        }.told(
            EventView::Delivered(
                Seq::new(
                    n,
                    |i: int|
                        if self.writes_to(i) && self.fails_now(s, i) {
                            Some(Seq::empty())
                        } else {
                            None
                        },
                ),
            ),
        )
    }

    /// The world after a read of at most `max` bytes.
    pub open spec fn read(self, s: Setting, max: nat) -> World {
        let end = least(self.pos + max, s.input.len());
        let block = s.input.subrange(self.pos as int, end as int);
        World { pos: end, block, ..self }.told(EventView::Block(block.len()))
    }

    /// The world after the driver did what the engine asks for.
    pub open spec fn next(self, s: Setting) -> World {
        match self.engine.action() {
            Action::OpenInput => self.told(EventView::InputOpened),
            Action::OpenSink(i) => self.told(
                if s.opens[i as int] {
                    EventView::SinkOpened
                } else {
                    EventView::SinkFailed(Seq::empty())
                },
            ),
            Action::Read { max, follow } => self.read(s, max as nat),
            Action::Deliver => self.deliver(s),
            Action::Close => self.told(EventView::Closed),
            Action::Done => self,
        }
    }

    /// Whether sink `i` was tried already.
    pub open spec fn tried(self, i: int) -> bool {
        match self.engine.phase {
            Phase::OpenInput => false,
            Phase::OpenSink(m) => i < m,
            _ => true,
        }
    }

    /// The number of blocks that have gone round.
    pub open spec fn rounds(self) -> nat {
        if self.engine.phase == Phase::Deliver {
            (self.engine.delivered - 1) as nat
        } else {
            self.engine.delivered
        }
    }

    /// Sink `i` is what the setting makes of it once `k` blocks went round: so
    /// it is reported, so often it was called, and it took the first blocks of
    /// the input, as many as its share.
    pub open spec fn sink_after(self, op: OperationView, s: Setting, i: int, k: nat) -> bool {
        let sink = self.engine.sinks[i];
        &&& sink.state == s.state(i, k)
        &&& sink.written == s.share(i, k)
        &&& self.calls[i] == s.calls(i, k)
        &&& self.taken[i] == blocks(s.input, op.block_size as nat, s.share(i, k))
    }

    /// What holds of sink `i` throughout a run: before it was tried it is
    /// pending and untouched, and from then on it is what the setting makes
    /// of it after the blocks that have gone round.
    pub open spec fn sink_inv(self, op: OperationView, s: Setting, i: int) -> bool {
        let sink = self.engine.sinks[i];
        if self.tried(i) {
            self.sink_after(op, s, i, self.rounds())
        } else {
            &&& sink.state == SinkState::Pending
            &&& sink.written == 0
            &&& self.calls[i] == 0
            &&& self.taken[i] == Seq::<Seq<u8>>::empty()
        }
    }

    /// What holds throughout a run.
    pub open spec fn inv(self, op: OperationView, s: Setting) -> bool {
        let e = self.engine;
        let k = e.delivered;
        let bs = op.block_size as nat;
        let len = s.input.len();
        &&& e.wf()
        &&& e.block_size == bs
        &&& e.block_count == op.count
        &&& e.follow == op.is_redirected
        &&& e.sinks.len() == op.outputs.len()
        &&& self.calls.len() == op.outputs.len()
        &&& self.taken.len() == op.outputs.len()
        &&& self.pos == offset(k, bs, len)
        &&& e.bytes_read == self.pos
        &&& k <= self.pos
        &&& k > 0 ==> offset((k - 1) as nat, bs, len) < len
        &&& match e.phase {
            Phase::OpenInput | Phase::OpenSink(_) => k == 0,
            Phase::Read => true,
            Phase::Deliver => k > 0 && self.block == block_at(s.input, bs, (k - 1) as nat),
            Phase::Close | Phase::Done => match e.stop {
                Some(Stop::EndOfInput) => self.pos == len,
                Some(Stop::CountReached) => op.count > 0 && k == op.count,
                Some(Stop::AllSinksDead) => !e.any_live(),
                _ => false,
            },
        }
        &&& forall|i: int| 0 <= i < op.outputs.len() ==> #[trigger] self.sink_inv(op, s, i)
    }
}

/// The world after `steps` steps of a run of `op` in the setting `s`.
pub open spec fn run(op: OperationView, s: Setting, steps: nat) -> World
    decreases steps,
{
    if steps == 0 {
        World::start(op)
    } else {
        run(op, s, (steps - 1) as nat).next(s)
    }
}

/// The next block starts one block on, or at the end of the input.
pub proof fn lemma_offset_next(k: nat, bs: nat, len: nat)
    ensures
        offset(k + 1, bs, len) == least(offset(k, bs, len) + bs, len),
{
    assert((k + 1) * bs == k * bs + bs) by (nonlinear_arith);
}

proof fn lemma_start_inv(op: OperationView, s: Setting)
    requires
        op.valid(),
        s.fits(op),
    ensures
        World::start(op).inv(op, s),
{
    let w = World::start(op);
    assert(0 * (op.block_size as nat) == 0) by (nonlinear_arith);
    assert forall|i: int| 0 <= i < op.outputs.len() implies #[trigger] w.engine.sink_wf(i) by {}
    assert forall|i: int| 0 <= i < op.outputs.len() implies #[trigger] w.sink_inv(op, s, i) by {}
}

proof fn lemma_next_inv(op: OperationView, s: Setting, w: World)
    requires
        op.valid(),
        s.fits(op),
        w.inv(op, s),
    ensures
        w.next(s).inv(op, s),
{
    let e = w.engine;
    let after = w.next(s);
    let k = e.delivered;
    let bs = op.block_size as nat;
    let len = s.input.len();
    let n = op.outputs.len() as int;
    match e.phase {
        Phase::OpenInput => {
            let event = EventView::InputOpened;
            crate::engine::lemma_step_wf(e, event);
            assert forall|i: int| 0 <= i < n implies #[trigger] after.sink_inv(op, s, i) by {
                assert(w.sink_inv(op, s, i));
            }
        },
        Phase::OpenSink(m) => {
            let event = if s.opens[m as int] {
                EventView::SinkOpened
            } else {
                EventView::SinkFailed(Seq::empty())
            };
            crate::engine::lemma_step_wf(e, event);
            assert(w.sink_inv(op, s, m as int));
            assert forall|i: int| 0 <= i < n implies #[trigger] after.sink_inv(op, s, i) by {
                assert(w.sink_inv(op, s, i));
                assert(blocks(s.input, bs, 0) =~= Seq::<Seq<u8>>::empty());
            }
        },
        Phase::Read => {
            let end = least(w.pos + bs, len);
            let block = s.input.subrange(w.pos as int, end as int);
            let event = EventView::Block(block.len());
            crate::engine::lemma_step_wf(e, event);
            lemma_offset_next(k, bs, len);
            assert forall|i: int| 0 <= i < n implies #[trigger] after.sink_inv(op, s, i) by {
                assert(w.sink_inv(op, s, i));
            }
        },
        Phase::Deliver => {
            let outcomes = Seq::new(
                e.sinks.len(),
                |i: int|
                    if w.writes_to(i) && w.fails_now(s, i) {
                        Some(Seq::<char>::empty())
                    } else {
                        None
                    },
            );
            let event = EventView::Delivered(outcomes);
            crate::engine::lemma_step_wf(e, event);
            assert forall|i: int| 0 <= i < n implies #[trigger] after.sink_inv(op, s, i) by {
                assert(w.sink_inv(op, s, i));
                assert(e.sink_wf(i));
                assert(after.engine.sinks[i] == e.sinks[i].after_write(outcomes[i]));
                let j = (k - 1) as nat;
                if w.writes_to(i) && !w.fails_now(s, i) {
                    assert(blocks(s.input, bs, j).push(w.block) =~= blocks(s.input, bs, k));
                }
            }
        },
        Phase::Close => {
            crate::engine::lemma_step_wf(e, EventView::Closed);
            assert forall|i: int| 0 <= i < n implies #[trigger] after.sink_inv(op, s, i) by {
                assert(w.sink_inv(op, s, i));
            }
        },
        Phase::Done => {},
    }
}

/// Every state of a run is as the setting makes it.
pub proof fn lemma_run_inv(op: OperationView, s: Setting, steps: nat)
    requires
        op.valid(),
        s.fits(op),
    ensures
        run(op, s, steps).inv(op, s),
    decreases steps,
{
    if steps == 0 {
        lemma_start_inv(op, s);
    } else {
        lemma_run_inv(op, s, (steps - 1) as nat);
        lemma_next_inv(op, s, run(op, s, (steps - 1) as nat));
    }
}

/// A number of steps that no run exceeds.
pub open spec fn span(op: OperationView, s: Setting) -> nat {
    op.outputs.len() + 2 * s.input.len() + 4
}

/// The world at the end of the run of `op` in the setting `s`.
pub open spec fn outcome(op: OperationView, s: Setting) -> World {
    run(op, s, span(op, s))
}

/// All bytes of a list of blocks, in order.
pub open spec fn joined(parts: Seq<Seq<u8>>) -> Seq<u8>
    decreases parts.len(),
{
    if parts.len() == 0 {
        Seq::empty()
    } else {
        joined(parts.drop_last()) + parts.last()
    }
}

/// A bound on the steps that are left to a run.
spec fn rank(op: OperationView, s: Setting, w: World) -> nat {
    let left = (s.input.len() - w.pos) as nat;
    match w.engine.phase {
        Phase::OpenInput => op.outputs.len() + 2 * s.input.len() + 4,
        Phase::OpenSink(i) => (op.outputs.len() - i) as nat + 2 * s.input.len() + 3,
        Phase::Read => 2 * left + 2,
        Phase::Deliver => 2 * left + 3,
        Phase::Close => 1,
        Phase::Done => 0,
    }
}

proof fn lemma_rank_drops(op: OperationView, s: Setting, w: World)
    requires
        op.valid(),
        s.fits(op),
        w.inv(op, s),
        w.engine.phase != Phase::Done,
    ensures
        rank(op, s, w.next(s)) < rank(op, s, w),
{
    lemma_next_inv(op, s, w);
    let e = w.engine;
    match e.phase {
        Phase::Read => {
            lemma_offset_next(e.delivered, op.block_size as nat, s.input.len());
        },
        _ => {},
    }
}

proof fn lemma_run_rank(op: OperationView, s: Setting, steps: nat)
    requires
        op.valid(),
        s.fits(op),
    ensures
        run(op, s, steps).engine.phase == Phase::Done || rank(op, s, run(op, s, steps)) + steps
            <= span(op, s),
    decreases steps,
{
    if steps > 0 {
        let before = run(op, s, (steps - 1) as nat);
        lemma_run_rank(op, s, (steps - 1) as nat);
        lemma_run_inv(op, s, (steps - 1) as nat);
        if before.engine.phase != Phase::Done {
            lemma_rank_drops(op, s, before);
        }
    }
}

/// `m` blocks end before the input does just where the input holds more
/// than `m` blocks.
pub proof fn lemma_blocks_in(len: nat, bs: nat, m: nat)
    requires
        bs > 0,
    ensures
        m * bs < len <==> m < blocks_in(len, bs),
{
    let q = len / bs;
    let r = len % bs;
    lemma_fundamental_div_mod(len as int, bs as int);
    lemma_mod_bound(len as int, bs as int);
    assert(len == bs * q + r);
    if m < q {
        assert(m * bs + bs <= q * bs) by (nonlinear_arith)
            requires
                m < q,
                bs > 0,
        ;
        assert(bs * q == q * bs) by (nonlinear_arith);
    } else if m == q {
        assert(bs * q == q * bs) by (nonlinear_arith);
    } else {
        assert(m * bs >= q * bs + bs) by (nonlinear_arith)
            requires
                m > q,
                bs > 0,
        ;
        assert(bs * q == q * bs) by (nonlinear_arith);
    }
}

/// The first `m` blocks, joined, are the input up to where block `m` starts.
pub proof fn lemma_joined_blocks(input: Seq<u8>, bs: nat, m: nat)
    ensures
        joined(blocks(input, bs, m)) == input.take(offset(m, bs, input.len()) as int),
    decreases m,
{
    let len = input.len();
    if m == 0 {
        assert(0 * bs == 0) by (nonlinear_arith);
        assert(input.take(0) =~= Seq::<u8>::empty());
    } else {
        let before = (m - 1) as nat;
        lemma_joined_blocks(input, bs, before);
        lemma_offset_next(before, bs, len);
        assert(blocks(input, bs, m).drop_last() =~= blocks(input, bs, before));
        assert(blocks(input, bs, m).last() == block_at(input, bs, before));
        assert(input.take(offset(before, bs, len) as int) + block_at(input, bs, before)
            =~= input.take(offset(m, bs, len) as int));
    }
}

/// The last block of an input that is not empty is as long as what the
/// full blocks leave over, or full where they leave nothing.
pub proof fn lemma_last_block(input: Seq<u8>, bs: nat)
    requires
        bs > 0,
        input.len() > 0,
    ensures
        blocks_in(input.len(), bs) > 0,
        block_at(input, bs, (blocks_in(input.len(), bs) - 1) as nat).len() == if input.len() % bs
            == 0 {
            bs
        } else {
            input.len() % bs
        },
{
    let len = input.len();
    let q = len / bs;
    let r = len % bs;
    let t = blocks_in(len, bs);
    lemma_fundamental_div_mod(len as int, bs as int);
    lemma_mod_bound(len as int, bs as int);
    assert(bs * q == q * bs) by (nonlinear_arith);
    lemma_blocks_in(len, bs, 0);
    assert(0 * bs == 0) by (nonlinear_arith);
    let last = (t - 1) as nat;
    lemma_blocks_in(len, bs, last);
    lemma_blocks_in(len, bs, t);
    assert((last + 1) * bs == last * bs + bs) by (nonlinear_arith);
    if r == 0 {
        assert(last * bs + bs == q * bs) by (nonlinear_arith)
            requires
                last + 1 == q,
        ;
    } else {
        assert(last == q);
    }
}

/// What a run comes to. It ends, and every sink is then what the setting
/// makes of it after all the blocks of the run: it has taken the first
/// blocks of the input, as many as its share.
pub proof fn lemma_outcome(op: OperationView, s: Setting)
    requires
        op.valid(),
        s.fits(op),
    ensures
        outcome(op, s).engine.phase == Phase::Done,
        outcome(op, s).inv(op, s),
        outcome(op, s).engine.delivered <= total(op, s.input.len()),
        forall|i: int|
            0 <= i < op.outputs.len() ==> #[trigger] outcome(op, s).sink_after(
                op,
                s,
                i,
                total(op, s.input.len()),
            ),
{
    let w = outcome(op, s);
    let e = w.engine;
    let k = e.delivered;
    let bs = op.block_size as nat;
    let len = s.input.len();
    let t = total(op, len);
    lemma_run_rank(op, s, span(op, s));
    lemma_run_inv(op, s, span(op, s));
    lemma_blocks_in(len, bs, k);
    if k > 0 {
        lemma_blocks_in(len, bs, (k - 1) as nat);
    }
    assert(k <= t);
    assert forall|i: int| 0 <= i < op.outputs.len() implies #[trigger] w.sink_after(
        op,
        s,
        i,
        t,
    ) by {
        assert(w.sink_inv(op, s, i));
    }
}

/// With no block count, a sink that is live at the end of a run has taken
/// every block of the input: as many as the input holds, the last of them as
/// long as what the full blocks leave over.
pub proof fn law_live_sink_takes_every_block(op: OperationView, s: Setting, i: int)
    requires
        op.valid(),
        s.fits(op),
        op.count == 0,
        0 <= i < op.outputs.len(),
        outcome(op, s).engine.sinks[i].state == SinkState::Live,
    ensures
        outcome(op, s).engine.phase == Phase::Done,
        outcome(op, s).engine.sinks[i].written == blocks_in(s.input.len(), op.block_size as nat),
        outcome(op, s).taken[i] == blocks(
            s.input,
            op.block_size as nat,
            blocks_in(s.input.len(), op.block_size as nat),
        ),
        s.input.len() > 0 ==> outcome(op, s).taken[i].last().len() == if s.input.len() % (
        op.block_size as nat) == 0 {
            op.block_size as nat
        } else {
            s.input.len() % (op.block_size as nat)
        },
{
    lemma_outcome(op, s);
    assert(outcome(op, s).sink_after(op, s, i, total(op, s.input.len())));
    if s.input.len() > 0 {
        lemma_last_block(s.input, op.block_size as nat);
    }
}

/// With a block count, no sink is ever called for more blocks than the
/// count, nor takes more, however much the input holds.
pub proof fn law_count_bounds_every_sink(op: OperationView, s: Setting, steps: nat, i: int)
    requires
        op.valid(),
        s.fits(op),
        op.count > 0,
        0 <= i < op.outputs.len(),
    ensures
        run(op, s, steps).engine.delivered <= op.count,
        run(op, s, steps).calls[i] <= op.count,
        run(op, s, steps).taken[i].len() <= op.count,
        run(op, s, steps).engine.sinks[i].written <= op.count,
{
    lemma_run_inv(op, s, steps);
    assert(run(op, s, steps).sink_inv(op, s, i));
}

/// A sink that fails to open is never called with a block, at no step of the
/// run, and is reported as failed at opening with no block written.
pub proof fn law_unopened_sink_gets_nothing(op: OperationView, s: Setting, steps: nat, i: int)
    requires
        op.valid(),
        s.fits(op),
        0 <= i < op.outputs.len(),
        !s.opens[i],
    ensures
        run(op, s, steps).calls[i] == 0,
        run(op, s, steps).taken[i].len() == 0,
        run(op, s, steps).engine.sinks[i].written == 0,
        outcome(op, s).engine.sinks[i].state == SinkState::FailedAtOpen,
{
    lemma_run_inv(op, s, steps);
    assert(run(op, s, steps).sink_inv(op, s, i));
    lemma_outcome(op, s);
    assert(outcome(op, s).sink_after(op, s, i, total(op, s.input.len())));
}

/// A sink that fails on its `j`-th write, in a run that gets that far, is
/// reported as failed on a write with `j - 1` blocks written. It took the
/// first `j - 1` blocks, and at no step of the run was it called more than
/// `j` times.
pub proof fn law_failed_sink_keeps_its_blocks(op: OperationView, s: Setting, steps: nat, i: int)
    requires
        op.valid(),
        s.fits(op),
        0 <= i < op.outputs.len(),
        s.opens[i],
        0 < s.fails_at[i] <= total(op, s.input.len()),
    ensures
        outcome(op, s).engine.sinks[i].state == SinkState::FailedAtWrite,
        outcome(op, s).engine.sinks[i].written == s.fails_at[i] - 1,
        outcome(op, s).calls[i] == s.fails_at[i],
        outcome(op, s).taken[i] == blocks(
            s.input,
            op.block_size as nat,
            (s.fails_at[i] - 1) as nat,
        ),
        run(op, s, steps).calls[i] <= s.fails_at[i],
{
    lemma_outcome(op, s);
    assert(outcome(op, s).sink_after(op, s, i, total(op, s.input.len())));
    lemma_run_inv(op, s, steps);
    assert(run(op, s, steps).sink_inv(op, s, i));
}

/// What a sink that is live at the end of a run has taken is, joined in
/// order, the input; with a block count, the input up to that many blocks.
pub proof fn law_live_sink_holds_the_input(op: OperationView, s: Setting, i: int)
    requires
        op.valid(),
        s.fits(op),
        0 <= i < op.outputs.len(),
        outcome(op, s).engine.sinks[i].state == SinkState::Live,
    ensures
        joined(outcome(op, s).taken[i]) == if op.count == 0 {
            s.input
        } else {
            s.input.take(least(s.input.len(), op.count as nat * op.block_size as nat) as int)
        },
{
    let bs = op.block_size as nat;
    let len = s.input.len();
    let t = total(op, len);
    let all = blocks_in(len, bs);
    lemma_outcome(op, s);
    assert(outcome(op, s).sink_after(op, s, i, total(op, s.input.len())));
    lemma_joined_blocks(s.input, bs, t);
    lemma_blocks_in(len, bs, all);
    assert(s.input.take(len as int) =~= s.input);
    if op.count > 0 && all < op.count {
        assert(all * bs <= op.count as nat * bs) by (nonlinear_arith)
            requires
                all < op.count,
        ;
    }
}

/// What a sink takes and how it is reported depends on the input and on the
/// sink alone: however the other sinks fare, it comes to the same.
pub proof fn law_sinks_do_not_affect_each_other(
    op: OperationView,
    s1: Setting,
    s2: Setting,
    i: int,
)
    requires
        op.valid(),
        s1.fits(op),
        s2.fits(op),
        0 <= i < op.outputs.len(),
        s1.input == s2.input,
        s1.opens[i] == s2.opens[i],
        s1.fails_at[i] == s2.fails_at[i],
    ensures
        outcome(op, s1).taken[i] == outcome(op, s2).taken[i],
        outcome(op, s1).calls[i] == outcome(op, s2).calls[i],
        outcome(op, s1).engine.sinks[i].written == outcome(op, s2).engine.sinks[i].written,
        outcome(op, s1).engine.sinks[i].state == outcome(op, s2).engine.sinks[i].state,
{
    lemma_outcome(op, s1);
    lemma_outcome(op, s2);
    assert(outcome(op, s1).sink_after(op, s1, i, total(op, s1.input.len())));
    assert(outcome(op, s2).sink_after(op, s2, i, total(op, s2.input.len())));
}

} // verus!
