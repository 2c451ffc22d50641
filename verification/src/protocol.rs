//! What the engine and its driver say to each other.

use vstd::prelude::*;

verus! {

/// Why a sort broke off.
#[derive(Clone, Copy, Debug, PartialEq, Eq, Structural)]
pub enum Failure {
    /// The channel ran dry before every element had come back: a task ended
    /// without delivering its element.
    Incomplete,
    /// The channel delivered an element although every element was back.
    Surplus,
    /// The driver reported something that the engine had not asked for.
    OutOfTurn,
}

/// Where a sort stands.
#[derive(Clone, Copy, Debug, PartialEq, Eq, Structural)]
pub enum Phase {
    /// Elements are being handed to tasks.
    Dispatching,
    /// Every element is with a task, and the engine has asked for its own
    /// sending end of the channel to be dropped.
    Closing,
    /// The engine is receiving from the channel.
    Collecting,
    /// The channel ran dry after every element had come back.
    Complete,
    /// The sort broke off.
    Failed(Failure),
}

/// What the driver reports to the engine.
#[derive(Debug, PartialEq, Eq)]
pub enum Event<T> {
    /// Nothing to report: the engine is new, or the task was launched, or the
    /// sending end was dropped.
    Proceed,
    /// The channel handed over an element.
    Arrived(T),
    /// The channel has no sender left and nothing pending.
    Exhausted,
}

/// What the engine asks the driver to do next.
#[derive(Debug, PartialEq, Eq)]
pub enum Action<T> {
    /// Start a task that owns this element: it waits at the barrier, sleeps
    /// for as long as the element says, and sends the element.
    Launch(T),
    /// Drop the sending end that no task owns, so that the channel can run dry.
    CloseSender,
    /// Receive from the channel once, and report what came of it.
    Receive,
    /// The sort is done.
    Finish,
    /// The sort broke off.
    Fail(Failure),
}

impl Phase {
    /// Whether the sort has ended, well or badly.
    pub open spec fn is_over(self) -> bool {
        self is Complete || self is Failed
    }
}

} // verus!
