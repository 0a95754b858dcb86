//! Tasks: when they end, and how long they wait.

use std::sync::atomic::AtomicUsize;
use std::sync::Arc;

use vstd::prelude::*;

verus! {

/// What a look at a one-shot channel shows.
#[derive(Debug, Clone, Copy, PartialEq, Eq, Structural)]
pub enum OneshotPoll {
    /// Something was sent.
    Fired,
    /// Whoever could send is gone.
    Closed,
    /// Nothing was sent yet.
    Empty,
}

/// Whether a task is to end: it is told to, or nobody is left who could tell
/// it.
pub fn kill_requested(poll: OneshotPoll) -> (kill: bool)
    ensures
        kill == (poll != OneshotPoll::Empty),
{
    match poll {
        OneshotPoll::Fired => true,
        OneshotPoll::Closed => true,
        OneshotPoll::Empty => false,
    }
}

/// Tells of a task's end: its name is logged, and the tally goes up by one.
pub struct ThreadDeathReporter {
    pub name: String,
    pub death_tally: Arc<AtomicUsize>,
}

impl ThreadDeathReporter {
    /// A reporter for a named task.
    pub fn new(tally: &Arc<AtomicUsize>, name: String) -> (r: Self)
        ensures
            r.name == name,
            r.death_tally == *tally,
    {
        ThreadDeathReporter { death_tally: Arc::clone(tally), name }
    }
}

/// How waiting for a value ended.
pub enum TimeoutOutcome<T> {
    Value(T),
    Closed,
    Timeout,
}

impl<T> TimeoutOutcome<T> {
    /// The value, where one came.
    pub fn value(self) -> (v: Option<T>)
        ensures
            v == (match self {
                TimeoutOutcome::Value(v) => Some(v),
                _ => None,
            }),
    {
        match self {
            TimeoutOutcome::Value(v) => Some(v),
            TimeoutOutcome::Timeout => None,
            TimeoutOutcome::Closed => None,
        }
    }

    /// The outcome of waiting: what the channel gave within the time, where it
    /// gave anything.
    pub fn from_wait(received: Option<Option<T>>) -> (outcome: Self)
        ensures
            outcome == (match received {
                Some(Some(v)) => TimeoutOutcome::Value(v),
                Some(None) => TimeoutOutcome::Closed,
                None => TimeoutOutcome::Timeout,
            }),
    {
        match received {
            Some(Some(v)) => TimeoutOutcome::Value(v),
            Some(None) => TimeoutOutcome::Closed,
            None => TimeoutOutcome::Timeout,
        }
    }
}

} // verus!
