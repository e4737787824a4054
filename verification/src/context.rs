//! Why a cancellable context is done, and the rule by which it becomes so:
//! the first reason given settles it, and later ones change nothing.

use vstd::prelude::*;

verus! {

/// Why a context is done.
#[derive(Debug, Clone, PartialEq, Eq)]
pub enum ContextDoneReason<T> {
    /// It was cancelled, with the value that the canceller gave.
    Cancelled(T),
    /// Its time ran out.
    Timeout,
}

/// What the handles of one context share: the reason it is done for, once
/// there is one.
pub struct DoneState<T> {
    pub done_reason: Option<ContextDoneReason<T>>,
}

impl<T> DoneState<T> {
    /// The state of a context that is not done.
    pub fn new() -> (state: Self)
        ensures
            state.done_reason is None,
    {
        DoneState { done_reason: None }
    }

    /// Whether the context is done.
    pub fn is_done(&self) -> (done: bool)
        ensures
            done == self.done_reason is Some,
    {
        self.done_reason.is_some()
    }

    /// Settles the context for `reason` unless it is done already. Returns
    /// whether this call settled it, which is when those waiting for it are
    /// to be woken.
    pub fn settle(&mut self, reason: ContextDoneReason<T>) -> (settled: bool)
        ensures
            settled == old(self).done_reason is None,
            *final(self) == settled_with(*old(self), reason),
    {
        if self.done_reason.is_some() {
            return false;
        }
        self.done_reason = Some(reason);
        true
    }
}

/// The state after `reason` was given to `state`: settled for `reason` where
/// `state` was not done, else `state` as it was.
pub open spec fn settled_with<T>(state: DoneState<T>, reason: ContextDoneReason<T>) -> DoneState<T> {
    if state.done_reason is None {
        DoneState { done_reason: Some(reason) }
    } else {
        state
    }
}

/// A settled context stays settled for the reason it was first given.
pub proof fn lemma_first_reason_stays<T>(
    before: DoneState<T>,
    first: ContextDoneReason<T>,
    second: ContextDoneReason<T>,
)
    requires
        before.done_reason is None,
    ensures
        settled_with(settled_with(before, first), second).done_reason == Some(first),
{
}

} // verus!
