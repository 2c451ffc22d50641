//! A sleep-sort engine: the bookkeeping of a sort that hands every element to
//! a task of its own, lets each task wait for as long as its element says, and
//! gathers the elements in the order in which the tasks deliver them.
//!
//! The tasks, their barrier and their channel live with the caller. The engine
//! decides what happens next: it is told what the channel did, and answers with
//! the next thing to do.

pub mod engine;
pub mod laws;
pub mod model;
pub mod protocol;
