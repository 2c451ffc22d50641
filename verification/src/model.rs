//! The engine as a mathematical state machine.

use vstd::prelude::*;
use vstd::multiset::Multiset;
use crate::protocol::{Action, Event, Failure, Phase};

verus! {

/// The state of one sort. An element is in one of three places: still
/// `pending`, or `launched` (handed to a task), and of the launched ones those
/// that came back stand in `output` as well.
#[verifier::ext_equal]
pub struct State<T> {
    /// The elements not yet handed to a task, in the order of the input.
    pub pending: Seq<T>,
    /// The elements handed to a task, in the order of the input.
    pub launched: Seq<T>,
    /// The elements that the channel delivered, in the order of delivery.
    pub output: Seq<T>,
    /// Where the sort stands.
    pub phase: Phase,
}

impl<T> State<T> {
    /// The state before anything has happened.
    pub open spec fn init(input: Seq<T>) -> State<T> {
        State {
            pending: input,
            launched: Seq::empty(),
            output: Seq::empty(),
            phase: Phase::Dispatching,
        }
    }

    /// The elements that the sort was given, in their order.
    pub open spec fn supplied(self) -> Seq<T> {
        self.pending + self.launched
    }

    /// The number of elements that the sort was given: the size of the barrier.
    pub open spec fn total(self) -> nat {
        self.pending.len() + self.launched.len()
    }

    /// The elements that are with a task or in the channel.
    pub open spec fn in_flight(self) -> Multiset<T> {
        self.launched.to_multiset().sub(self.output.to_multiset())
    }

    /// The same sort, broken off.
    pub open spec fn failed(self, failure: Failure) -> State<T> {
        State { phase: Phase::Failed(failure), ..self }
    }

    /// What one report does to the state, and what the engine asks for next.
    ///
    /// While dispatching, the last pending element is launched, until none is
    /// left; then the engine's own sending end is closed, and then the engine
    /// receives until the channel runs dry. A sort that is over stays as it is
    /// and repeats its verdict.
    pub open spec fn transition(self, event: Event<T>) -> (State<T>, Action<T>) {
        match self.phase {
            Phase::Dispatching => match event {
                Event::Proceed => if self.pending.len() > 0 {
                    (
                        State {
                            pending: self.pending.drop_last(),
                            launched: seq![self.pending.last()] + self.launched,
                            ..self
                        },
                        Action::Launch(self.pending.last()),
                    )
                } else {
                    (State { phase: Phase::Closing, ..self }, Action::CloseSender)
                },
                _ => (self.failed(Failure::OutOfTurn), Action::Fail(Failure::OutOfTurn)),
            },
            Phase::Closing => match event {
                Event::Proceed => (State { phase: Phase::Collecting, ..self }, Action::Receive),
                _ => (self.failed(Failure::OutOfTurn), Action::Fail(Failure::OutOfTurn)),
            },
            Phase::Collecting => match event {
                Event::Arrived(item) => if self.output.len() < self.total() {
                    (State { output: self.output.push(item), ..self }, Action::Receive)
                } else {
                    (self.failed(Failure::Surplus), Action::Fail(Failure::Surplus))
                },
                Event::Exhausted => if self.output.len() == self.total() {
                    (State { phase: Phase::Complete, ..self }, Action::Finish)
                } else {
                    (self.failed(Failure::Incomplete), Action::Fail(Failure::Incomplete))
                },
                Event::Proceed => (
                    self.failed(Failure::OutOfTurn),
                    Action::Fail(Failure::OutOfTurn),
                ),
            },
            Phase::Complete => (self, Action::Finish),
            Phase::Failed(failure) => (self, Action::Fail(failure)),
        }
    }

    /// The state after one report.
    pub open spec fn next(self, event: Event<T>) -> State<T> {
        self.transition(event).0
    }

    /// What the engine asks for after one report.
    pub open spec fn action(self, event: Event<T>) -> Action<T> {
        self.transition(event).1
    }

    /// The state after a sequence of reports.
    pub open spec fn run(self, events: Seq<Event<T>>) -> State<T>
        decreases events.len(),
    {
        if events.len() == 0 {
            self
        } else {
            self.run(events.drop_last()).next(events.last())
        }
    }

    /// What holds of every state that the engine can be in, whatever it was
    /// told: nothing is received before all is launched, and no more comes
    /// back than went out.
    pub open spec fn well_formed(self) -> bool {
        &&& self.output.len() <= self.total()
        &&& self.phase is Dispatching ==> self.output.len() == 0
        &&& self.phase is Closing ==> self.pending.len() == 0 && self.output.len() == 0
        &&& self.phase is Collecting ==> self.pending.len() == 0
        &&& self.phase is Complete ==> self.pending.len() == 0 && self.output.len()
            == self.total()
    }

    /// Whether the report is one that a channel can give: an element that
    /// arrives is one that is in flight.
    pub open spec fn admits(self, event: Event<T>) -> bool {
        event matches Event::Arrived(item) ==> self.in_flight().count(item) > 0
    }

    /// Whether each report of the sequence is one that a channel can give in
    /// the state in which it comes.
    pub open spec fn admits_all(self, events: Seq<Event<T>>) -> bool
        decreases events.len(),
    {
        events.len() > 0 ==> {
            &&& self.admits_all(events.drop_last())
            &&& self.run(events.drop_last()).admits(events.last())
        }
    }

    /// The reports that the engine gets during a sort of `n` elements in
    /// which every launch and the closing of the sending end are carried out,
    /// the channel delivers `arrivals` in that order, and then runs dry.
    pub open spec fn reports(n: nat, arrivals: Seq<T>) -> Seq<Event<T>> {
        Seq::new(n + 2, |i: int| Event::Proceed) + Seq::new(
            arrivals.len(),
            |i: int| Event::Arrived(arrivals[i]),
        ) + seq![Event::Exhausted]
    }

    /// A bound on the number of reports that the sort can still take before
    /// it is over: one for each launch, one for closing the sending end, one
    /// for turning to the channel, one for each element that is not back, and
    /// one for the channel running dry.
    pub open spec fn remaining(self) -> nat {
        let awaited = if self.output.len() <= self.total() {
            (self.total() - self.output.len()) as nat
        } else {
            0
        };
        match self.phase {
            Phase::Dispatching => self.pending.len() + awaited + 3,
            Phase::Closing => awaited + 2,
            Phase::Collecting => awaited + 1,
            Phase::Complete => 0,
            Phase::Failed(_) => 0,
        }
    }

    /// Whether what has come back is part of what went out.
    pub open spec fn accounted(self) -> bool {
        self.output.to_multiset().subset_of(self.launched.to_multiset())
    }
}

} // verus!
