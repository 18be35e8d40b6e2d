//! Runs the operations of a command line one after another, in the order in
//! which they were given.
//!
//! Operations share nothing. Whatever one of them comes to, be it that its
//! input cannot even be opened, the next one is started.

use crate::arguments::{operation_views, Arguments, Operation, OperationView};
use crate::engine::{Engine, EngineView, OperationResult, ResultView};
use vstd::prelude::*;

verus! {

/// The views of a list of results, in order.
pub open spec fn result_views(results: Seq<OperationResult>) -> Seq<ResultView> {
    Seq::new(results.len(), |i: int| results[i]@)
}

/// Whether the input of one of the operations failed.
pub open spec fn any_fatal(results: Seq<ResultView>) -> bool {
    exists|i: int| 0 <= i < results.len() && (#[trigger] results[i]).fatal()
}

/// The operations to run and the results of those that have run.
#[derive(Debug)]
pub struct Sequencer {
    operations: Vec<Operation>,
    results: Vec<OperationResult>,
}

pub struct SequencerView {
    pub operations: Seq<OperationView>,
    /// The result of each operation that has run: as many as have run, in
    /// the order of the operations.
    pub results: Seq<ResultView>,
}

impl SequencerView {
    /// Every operation can be run, and no more have run than there are.
    pub open spec fn wf(self) -> bool {
        &&& self.results.len() <= self.operations.len()
        &&& forall|i: int| 0 <= i < self.operations.len() ==> (#[trigger] self.operations[i]).valid()
    }

    pub open spec fn finished(self) -> bool {
        self.results.len() == self.operations.len()
    }
}

impl View for Sequencer {
    type V = SequencerView;

    closed spec fn view(&self) -> SequencerView {
        SequencerView {
            operations: operation_views(self.operations@),
            results: result_views(self.results@),
        }
    }
}

impl Sequencer {
    /// A sequencer for the operations of `args`, none of which has run.
    pub fn new(args: Arguments) -> (r: Sequencer)
        requires
            forall|i: int| 0 <= i < args@.len() ==> (#[trigger] args@[i]).valid(),
        ensures
            r@.operations == args@,
            r@.results.len() == 0,
            r@.wf(),
    {
        Sequencer { operations: args.operations, results: Vec::new() }
    }

    /// Whether every operation has run.
    pub fn is_finished(&self) -> (r: bool)
        requires
            self@.wf(),
        ensures
            r == self@.finished(),
    {
        self.results.len() >= self.operations.len()
    }

    /// The operation whose turn it is, unless every operation has run.
    pub fn operation(&self) -> (r: Option<&Operation>)
        requires
            self@.wf(),
        ensures
            match r {
                Some(op) => !self@.finished() && op@ == self@.operations[
                    self@.results.len() as int
                ],
                None => self@.finished(),
            },
    {
        if self.results.len() < self.operations.len() {
            Some(&self.operations[self.results.len()])
        } else {
            None
        }
    }

    /// A fresh engine for the operation whose turn it is, unless every
    /// operation has run.
    pub fn engine(&self) -> (r: Option<Engine>)
        requires
            self@.wf(),
        ensures
            match r {
                Some(engine) => !self@.finished() && engine@ == EngineView::start(
                    self@.operations[self@.results.len() as int],
                ) && engine@.wf(),
                None => self@.finished(),
            },
    {
        if self.results.len() < self.operations.len() {
            let op = &self.operations[self.results.len()];
            assert(op@ == self@.operations[self.results.len() as int]);
            Some(Engine::new(op))
        } else {
            None
        }
    }

    /// Notes what the operation whose turn it was has come to; the turn
    /// passes to the next operation, whatever the result is. `false`, and
    /// nothing changes, where every operation has run already.
    pub fn record(&mut self, result: OperationResult) -> (accepted: bool)
        requires
            old(self)@.wf(),
        ensures
            accepted == !old(self)@.finished(),
            final(self)@.operations == old(self)@.operations,
            final(self)@.results == if accepted {
                old(self)@.results.push(result@)
            } else {
                old(self)@.results
            },
            final(self)@.wf(),
    {
        if self.results.len() < self.operations.len() {
            self.results.push(result);
            assert(result_views(self.results@) =~= result_views(old(self).results@).push(result@));
            true
        } else {
            false
        }
    }

    /// The results of the operations that have run, in order.
    pub fn results(&self) -> (r: &Vec<OperationResult>)
        ensures
            result_views(r@) == self@.results,
    {
        &self.results
    }

    /// Whether the input of one of the operations that have run failed: what
    /// the exit status of a program is to tell.
    pub fn any_fatal(&self) -> (r: bool)
        ensures
            r == any_fatal(self@.results),
    {
        let mut i: usize = 0;
        while i < self.results.len()
            invariant
                i <= self.results.len(),
                forall|k: int| 0 <= k < i ==> !(#[trigger] self@.results[k]).fatal(),
            decreases self.results.len() - i,
        {
            if self.results[i].is_fatal() {
                assert(self@.results[i as int].fatal());
                return true;
            }
            i += 1;
        }
        false
    }
}

} // verus!
