//! The executable engine.

use vstd::prelude::*;
use crate::model::State;
use crate::protocol::{Action, Event, Failure, Phase};

verus! {

/// The bookkeeping of one sort: the elements that wait for a task, the
/// elements that came back, and where the sort stands.
pub struct Engine<T> {
    pending: Vec<T>,
    output: Vec<T>,
    total: usize,
    phase: Phase,
    launched: Ghost<Seq<T>>,
}

impl<T> View for Engine<T> {
    type V = State<T>;

    closed spec fn view(&self) -> State<T> {
        State {
            pending: self.pending@,
            launched: self.launched@,
            output: self.output@,
            phase: self.phase,
        }
    }
}

impl<T> Engine<T> {
    /// Whether the engine is one that `new` made and `step` changed: its
    /// state is well-formed and its count of elements is that of the state.
    pub closed spec fn wf(&self) -> bool {
        &&& self@.well_formed()
        &&& self.total == self@.total()
    }

    /// The state of a valid engine is well-formed, and its elements can be
    /// counted in a `usize`.
    pub proof fn lemma_wf(&self)
        requires
            self.wf(),
        ensures
            self@.well_formed(),
            self@.total() <= usize::MAX,
    {
    }

    /// An engine that is about to sort `elements`.
    pub fn new(elements: Vec<T>) -> (engine: Self)
        ensures
            engine.wf(),
            engine@ == State::init(elements@),
    {
        let total: usize = elements.len();
        Engine {
            pending: elements,
            output: Vec::new(),
            total,
            phase: Phase::Dispatching,
            launched: Ghost(Seq::empty()),
        }
    }

    /// The number of elements of the sort: the size that the barrier needs.
    pub fn participants(&self) -> (n: usize)
        requires
            self.wf(),
        ensures
            n == self@.total(),
    {
        self.total
    }

    /// Where the sort stands.
    pub fn phase(&self) -> (phase: Phase)
        ensures
            phase == self@.phase,
    {
        self.phase
    }

    /// Takes one report and says what to do next.
    pub fn step(&mut self, event: Event<T>) -> (action: Action<T>)
        requires
            old(self).wf(),
        ensures
            final(self).wf(),
            final(self)@ == old(self)@.next(event),
            action == old(self)@.action(event),
    {
        match self.phase {
            Phase::Dispatching => match event {
                Event::Proceed => match self.pending.pop() {
                    Some(item) => {
                        proof {
                            self.launched@ = seq![item] + self.launched@;
                        }
                        Action::Launch(item)
                    },
                    None => {
                        self.phase = Phase::Closing;
                        Action::CloseSender
                    },
                },
                _ => self.fail(Failure::OutOfTurn),
            },
            Phase::Closing => match event {
                Event::Proceed => {
                    self.phase = Phase::Collecting;
                    Action::Receive
                },
                _ => self.fail(Failure::OutOfTurn),
            },
            Phase::Collecting => match event {
                Event::Arrived(item) => if self.output.len() < self.total {
                    self.output.push(item);
                    Action::Receive
                } else {
                    self.fail(Failure::Surplus)
                },
                Event::Exhausted => if self.output.len() == self.total {
                    self.phase = Phase::Complete;
                    Action::Finish
                } else {
                    self.fail(Failure::Incomplete)
                },
                Event::Proceed => self.fail(Failure::OutOfTurn),
            },
            Phase::Complete => Action::Finish,
            Phase::Failed(failure) => Action::Fail(failure),
        }
    }

    /// Breaks the sort off.
    fn fail(&mut self, failure: Failure) -> (action: Action<T>)
        requires
            old(self).wf(),
        ensures
            final(self).wf(),
            final(self)@ == old(self)@.failed(failure),
            action == Action::<T>::Fail(failure),
    {
        self.phase = Phase::Failed(failure);
        Action::Fail(failure)
    }

    /// Hands the sorted elements back, if the sort is complete.
    pub fn into_output(self) -> (sorted: Option<Vec<T>>)
        requires
            self.wf(),
        ensures
            match sorted {
                Some(v) => self@.phase is Complete && v@ == self@.output,
                None => !(self@.phase is Complete),
            },
    {
        match self.phase {
            Phase::Complete => Some(self.output),
            _ => None,
        }
    }
}

} // verus!
