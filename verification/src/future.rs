use vstd::prelude::*;

verus! {

/// What one poll of a future came to.
#[derive(PartialEq, Eq, Debug)]
pub enum Poll<T> {
    /// The future has finished with this value.
    Ready(T),
    /// The future is not done, and has to be polled again later.
    Pending,
}

impl<T> Poll<T> {
    /// Whether the future has finished.
    pub fn is_ready(&self) -> (ready: bool)
        ensures
            ready == (self is Ready),
    {
        match self {
            Poll::Ready(_) => true,
            Poll::Pending => false,
        }
    }

    /// Whether the future has to be polled again.
    pub fn is_pending(&self) -> (pending: bool)
        ensures
            pending == (self is Pending),
    {
        !self.is_ready()
    }
}

/// A value that is driven to completion by polling it.
///
/// What a poll does is the implementor's own affair: `polls` relates the future
/// and the context before a poll to both after it and to the outcome. The one
/// thing asked of every future is that a pending one can be polled again.
pub trait Future: Sized {
    /// What a poll is given to work with.
    type Context;

    /// What the future finishes with.
    type Output;

    /// Whether the future may be polled; always, if nothing else is said.
    open spec fn pollable(&self) -> bool {
        true
    }

    /// Whether polling `before` with `cx_before` can leave `after` and
    /// `cx_after` behind and come to `outcome`; anything can, if nothing else is
    /// said.
    open spec fn polls(
        before: Self,
        cx_before: Self::Context,
        after: Self,
        cx_after: Self::Context,
        outcome: Poll<Self::Output>,
    ) -> bool {
        true
    }

    /// Polls the future once.
    fn poll(&mut self, cx: &mut Self::Context) -> (outcome: Poll<Self::Output>)
        requires
            old(self).pollable(),
        ensures
            Self::polls(*old(self), *old(cx), *final(self), *final(cx), outcome),
            outcome is Pending ==> final(self).pollable(),
    ;
}

} // verus!
