//! The count behind a wait group: how many tokens are out, and when the
//! last of them comes back.

use vstd::prelude::*;

verus! {

/// The number of tokens of a wait group that have not been dropped.
pub struct TokenCount {
    pub count: usize,
}

impl TokenCount {
    /// The count of a wait group that has handed out no token.
    pub fn new() -> (tokens: Self)
        ensures
            tokens.count == 0,
    {
        TokenCount { count: 0 }
    }

    /// Whether no token is out, which is when the wait group is done.
    pub fn is_idle(&self) -> (idle: bool)
        ensures
            idle == (self.count == 0),
    {
        self.count == 0
    }

    /// Counts a token that is handed out.
    pub fn acquire(&mut self)
        requires
            old(self).count < usize::MAX,
        ensures
            final(self).count == old(self).count + 1,
    {
        self.count = self.count + 1;
    }

    /// Counts a token that is dropped. Returns whether it was the last one
    /// out, which is when whoever waits for the group is to be woken.
    pub fn release(&mut self) -> (last: bool)
        requires
            old(self).count > 0,
        ensures
            final(self).count == old(self).count - 1,
            last == (final(self).count == 0),
    {
        self.count = self.count - 1;
        self.count == 0
    }
}

} // verus!
