//! Output sinks: where tailed bytes and banners go.

use vstd::prelude::*;
use crate::error::IoError;

verus! {

/// The mathematical picture of a sink: the bytes it has accepted so far.
///
/// A sink that states its picture answers `true` to `modeled`; the contracts
/// of `Sink` then bind it. The defaults state none, and nothing is claimed of
/// such a sink.
pub trait ByteSink: Sized {
    /// Whether this sink states what it has accepted.
    open spec fn modeled(&self) -> bool {
        false
    }

    /// Every byte accepted so far, oldest first.
    open spec fn emitted(&self) -> Seq<u8> {
        Seq::empty()
    }

    /// Whether `write` and `flush` are known never to fail.
    open spec fn infallible(&self) -> bool {
        false
    }

    /// How many of the accepted bytes still wait in a buffer of the sink and
    /// have not gone on to where the sink sends them.
    open spec fn pending(&self) -> nat {
        0
    }
}

/// What `write` promises: a sink states its picture afterwards if and only
/// if it did before, and a modeled sink has all of `buf` appended on success
/// and no more than `buf` on failure. On success no more bytes wait in the
/// buffer than waited before and were handed over now.
pub open spec fn write_outcome<W: ByteSink>(
    before: &W,
    after: &W,
    buf: Seq<u8>,
    r: Result<usize, IoError>,
) -> bool {
    &&& after.modeled() == before.modeled()
    &&& before.modeled() ==> {
        &&& after.infallible() == before.infallible()
        &&& before.infallible() ==> r is Ok
        &&& r matches Ok(n) ==> {
            &&& n == buf.len()
            &&& after.emitted() == before.emitted() + buf
            &&& after.pending() <= before.pending() + buf.len()
        }
        &&& r is Err ==> before.emitted().is_prefix_of(after.emitted())
    }
}

/// What `flush` promises: a sink states its picture afterwards if and only
/// if it did before. The bytes that a modeled sink accepted stay as they
/// are; on success none of them waits in the buffer any more, and on failure
/// no more of them wait than before.
pub open spec fn flush_outcome<W: ByteSink>(before: &W, after: &W, r: Result<(), IoError>) -> bool {
    &&& after.modeled() == before.modeled()
    &&& before.modeled() ==> {
        &&& after.infallible() == before.infallible()
        &&& before.infallible() ==> r is Ok
        &&& after.emitted() == before.emitted()
        &&& r is Ok ==> after.pending() == 0
        &&& r is Err ==> after.pending() <= before.pending()
    }
}

/// A byte sink.
pub trait Sink: ByteSink {
    /// Appends all of `buf`, or fails.
    fn write(&mut self, buf: &[u8]) -> (r: Result<usize, IoError>)
        ensures
            write_outcome(old(self), final(self), buf@, r),
    ;

    /// Pushes buffered bytes on to their destination.
    fn flush(&mut self) -> (r: Result<(), IoError>)
        ensures
            flush_outcome(old(self), final(self), r),
    ;
}

impl ByteSink for Vec<u8> {
    open spec fn modeled(&self) -> bool {
        true
    }

    open spec fn emitted(&self) -> Seq<u8> {
        self@
    }

    open spec fn infallible(&self) -> bool {
        true
    }
}

/// A growable byte vector is a sink that never fails and keeps nothing
/// waiting.
impl Sink for Vec<u8> {
    fn write(&mut self, buf: &[u8]) -> (r: Result<usize, IoError>) {
        let n: usize = buf.len();
        let mut i: usize = 0;
        while i < n
            invariant
                n == buf@.len(),
                i <= n,
                self@ == old(self)@ + buf@.subrange(0, i as int),
            decreases n - i,
        {
            self.push(buf[i]);
            i = i + 1;
        }
        assert(buf@.subrange(0, n as int) == buf@);
        Ok(n)
    }

    fn flush(&mut self) -> (r: Result<(), IoError>) {
        Ok(())
    }
}

} // verus!
