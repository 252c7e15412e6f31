use vstd::prelude::*;

use crate::future::Poll;
use crate::rrest::error::IoError;

verus! {

/// A stream of bytes to a server and back.
///
/// Both operations may be pending: they have then done what they could, and are
/// to be called again with the same arguments. What an operation does is the
/// implementor's own affair: `reads` and `writes` relate the stream before the
/// call to the stream after it and to the answer.
pub trait Connection: Sized {
    /// Whether asking `before` for up to `size` bytes can leave `after` behind and
    /// be answered so; it always can, if nothing else is said.
    open spec fn reads(
        before: Self,
        size: usize,
        after: Self,
        answer: Poll<Result<Vec<u8>, IoError>>,
    ) -> bool {
        true
    }

    /// Whether offering all of `buf` to `before` can leave `after` behind and be
    /// answered so; it always can, if nothing else is said.
    open spec fn writes(
        before: Self,
        buf: Seq<u8>,
        after: Self,
        answer: Poll<Result<(), IoError>>,
    ) -> bool {
        true
    }

    /// Asks for up to `size` bytes, which is no more than a buffer can hold. No
    /// bytes at all means that there will be no more.
    fn read(&mut self, size: usize) -> (answer: Poll<Result<Vec<u8>, IoError>>)
        requires
            size <= isize::MAX,
        ensures
            Self::reads(*old(self), size, *final(self), answer),
            answer matches Poll::Ready(Ok(bytes)) ==> bytes@.len() <= size,
    ;

    /// Offers all of `buf`.
    fn write_all(&mut self, buf: &[u8]) -> (answer: Poll<Result<(), IoError>>)
        ensures
            Self::writes(*old(self), buf@, *final(self), answer),
    ;
}

impl<C: Connection> Connection for Box<C> {
    open spec fn reads(
        before: Self,
        size: usize,
        after: Self,
        answer: Poll<Result<Vec<u8>, IoError>>,
    ) -> bool {
        C::reads(*before, size, *after, answer)
    }

    open spec fn writes(
        before: Self,
        buf: Seq<u8>,
        after: Self,
        answer: Poll<Result<(), IoError>>,
    ) -> bool {
        C::writes(*before, buf, *after, answer)
    }

    fn read(&mut self, size: usize) -> (answer: Poll<Result<Vec<u8>, IoError>>) {
        (**self).read(size)
    }

    fn write_all(&mut self, buf: &[u8]) -> (answer: Poll<Result<(), IoError>>) {
        (**self).write_all(buf)
    }
}

/// A connection in a box is the connection: it reads and writes what that one does.
pub proof fn law_box_adds_nothing<C: Connection>(
    before: C,
    after: C,
    size: usize,
    read: Poll<Result<Vec<u8>, IoError>>,
    buf: Seq<u8>,
    written: Poll<Result<(), IoError>>,
)
    ensures
        Box::<C>::reads(Box::new(before), size, Box::new(after), read) == C::reads(
            before,
            size,
            after,
            read,
        ),
        Box::<C>::writes(Box::new(before), buf, Box::new(after), written) == C::writes(
            before,
            buf,
            after,
            written,
        ),
{
}

} // verus!
