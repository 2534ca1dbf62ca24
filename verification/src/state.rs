//! Per-file tail state: a reader, the sink its bytes go to, and whether the
//! last byte written ended a line.

use vstd::prelude::*;
use crate::error::IoError;
use crate::reader::{len_outcome, read_outcome, same_source, seek_outcome, Reader, SeekFrom};
use crate::sink::{flush_outcome, write_outcome, Sink};
use crate::tail::{dumped, eol_follows, flushed_after, sink_extended, tail_start, tailed};

verus! {

/// A reader, a sink and the end-of-line flag of what was last written.
pub struct TailState<T: Reader, U: Sink> {
    reader: T,
    writer: U,
    printed_eol: bool,
}

impl<T: Reader, U: Sink> TailState<T, U> {
    /// The reader.
    pub closed spec fn source(&self) -> T {
        self.reader
    }

    /// The sink.
    pub closed spec fn target(&self) -> U {
        self.writer
    }

    /// Whether the last byte written through this state was a line terminator.
    pub closed spec fn eol(&self) -> bool {
        self.printed_eol
    }

    /// The state is usable when its reader is.
    pub open spec fn wf(&self) -> bool {
        self.source().wf()
    }

    /// True when only the reader may differ between `self` and `after`.
    pub open spec fn only_source_moved(&self, after: &Self) -> bool {
        after.target() == self.target() && after.eol() == self.eol()
    }

    /// True when only the sink may differ between `self` and `after`.
    pub open spec fn only_target_moved(&self, after: &Self) -> bool {
        after.source() == self.source() && after.eol() == self.eol()
    }

    /// A state over `reader` and `writer` through which nothing was written.
    pub fn new(reader: T, writer: U) -> (state: Self)
        ensures
            state.source() == reader,
            state.target() == writer,
            !state.eol(),
    {
        TailState { reader, writer, printed_eol: false }
    }

    /// Gives the parts back: reader, sink and flag.
    pub fn into_parts(self) -> (parts: (T, U, bool))
        ensures
            parts.0 == self.source(),
            parts.1 == self.target(),
            parts.2 == self.eol(),
    {
        (self.reader, self.writer, self.printed_eol)
    }

    /// The sink, to look at what was written.
    pub fn writer(&self) -> (w: &U)
        ensures
            *w == self.target(),
    {
        &self.writer
    }

    /// Reads at most `limit` bytes at the cursor onto the end of `buf`.
    pub fn read(&mut self, buf: &mut Vec<u8>, limit: usize) -> (r: Result<usize, IoError>)
        requires
            old(self).wf(),
        ensures
            read_outcome(&old(self).source(), &final(self).source(), old(buf)@, final(buf)@, limit, r),
            old(self).only_source_moved(final(self)),
    {
        self.reader.read(buf, limit)
    }

    /// Writes all of `buf` to the sink.
    pub fn write(&mut self, buf: &[u8]) -> (r: Result<usize, IoError>)
        ensures
            write_outcome(&old(self).target(), &final(self).target(), buf@, r),
            old(self).only_target_moved(final(self)),
    {
        self.writer.write(buf)
    }

    /// Flushes the sink: on success none of the bytes that a modeled sink
    /// accepted waits in its buffer any more.
    pub fn flush(&mut self) -> (r: Result<(), IoError>)
        ensures
            flush_outcome(&old(self).target(), &final(self).target(), r),
            old(self).only_target_moved(final(self)),
    {
        self.writer.flush()
    }

    /// Moves the cursor.
    pub fn seek(&mut self, seek: SeekFrom) -> (r: Result<u64, IoError>)
        requires
            old(self).wf(),
        ensures
            seek_outcome(&old(self).source(), &final(self).source(), seek, r),
            old(self).only_source_moved(final(self)),
    {
        self.reader.seek(seek)
    }

    /// The cursor.
    pub fn current_seek(&self) -> (pos: u64)
        requires
            self.wf(),
        ensures
            self.source().modeled() ==> pos == self.source().position(),
    {
        self.reader.seek_pos()
    }

    /// The length of the content.
    pub fn len(&mut self) -> (r: Result<u64, IoError>)
        requires
            old(self).wf(),
        ensures
            len_outcome(&old(self).source(), &final(self).source(), r),
            old(self).only_source_moved(final(self)),
    {
        self.reader.len()
    }

    /// Whether the last byte written through this state was a line
    /// terminator.
    pub fn printed_eol(&self) -> (b: bool)
        ensures
            b == self.eol(),
    {
        self.printed_eol
    }

    /// The offset at which the last `tail_count` lines begin.
    pub fn tail_start_position(&mut self, tail_count: u64) -> (r: Result<u64, IoError>)
        requires
            old(self).wf(),
        ensures
            same_source(&old(self).source(), &final(self).source()),
            old(self).only_source_moved(final(self)),
            old(self).source().modeled() ==> {
                &&& old(self).source().infallible() ==> r is Ok
                &&& r matches Ok(offset) ==> offset == tail_start(
                    old(self).source().content(),
                    tail_count as nat,
                )
                &&& r is Ok && tail_count == 0 ==> final(self).source().position() == if old(
                    self,
                ).source().content().len() == 0 {
                    old(self).source().position()
                } else {
                    old(self).source().content().len()
                }
            },
    {
        crate::tail::tail_start_position(&mut self.reader, tail_count)
    }

    /// Detects truncation below `offset`: the cursor returns to the first
    /// byte and the answer is `true`, or nothing changes and it is `false`.
    pub fn handle_shrink(&mut self, offset: u64) -> (r: Result<bool, IoError>)
        requires
            old(self).wf(),
        ensures
            same_source(&old(self).source(), &final(self).source()),
            old(self).only_source_moved(final(self)),
            old(self).source().modeled() ==> {
                &&& old(self).source().infallible() ==> r is Ok
                &&& r matches Ok(shrunk) ==> {
                    &&& shrunk == (old(self).source().content().len() < offset)
                    &&& shrunk ==> final(self).source().position() == 0
                    &&& !shrunk ==> final(self).source().position() == old(
                        self,
                    ).source().position()
                }
            },
    {
        crate::tail::handle_shrink(&mut self.reader, offset)
    }

    /// Moves the cursor to `offset`, or to the first byte when the content
    /// has become shorter than that.
    pub fn seek_with_shrink_handling(&mut self, offset: u64) -> (r: Result<u64, IoError>)
        requires
            old(self).wf(),
        ensures
            same_source(&old(self).source(), &final(self).source()),
            old(self).only_source_moved(final(self)),
            old(self).source().modeled() ==> {
                &&& old(self).source().infallible() ==> r is Ok
                &&& r matches Ok(pos) ==> {
                    &&& final(self).source().position() == pos
                    &&& pos == if old(self).source().content().len() < offset {
                        0
                    } else {
                        offset
                    }
                }
            },
    {
        crate::tail::seek_with_shrink_handling(&mut self.reader, offset)
    }

    /// Copies everything from the cursor to the end of the content into the
    /// sink and returns the offset reached.
    pub fn dump_to_tail(&mut self) -> (r: Result<u64, IoError>)
        requires
            old(self).wf(),
        ensures
            same_source(&old(self).source(), &final(self).source()),
            sink_extended(&old(self).target(), &final(self).target()),
            r is Err ==> final(self).eol() == old(self).eol(),
            old(self).target().modeled() && r is Ok ==> eol_follows(
                old(self).target().emitted(),
                final(self).target().emitted(),
                old(self).eol(),
                final(self).eol(),
            ),
            old(self).target().modeled() && r is Ok ==> flushed_after(
                &old(self).target(),
                &final(self).target(),
            ),
            old(self).source().modeled() && old(self).target().modeled() ==> {
                &&& old(self).source().infallible() && old(self).target().infallible() ==> r is Ok
                &&& r matches Ok(end) ==> dumped(
                    old(self).source().content(),
                    old(self).source().position(),
                    old(self).target().emitted(),
                    old(self).eol(),
                    end,
                    final(self).source().position(),
                    final(self).target().emitted(),
                    final(self).eol(),
                )
            },
    {
        crate::tail::dump_to_tail(&mut self.reader, &mut self.writer, &mut self.printed_eol)
    }
}

/// Writes the last `tail_count` lines of the state's content to its sink and
/// leaves the cursor at the end of the content.
pub fn tail_from_reader<T: Reader, U: Sink>(reader: &mut TailState<T, U>, tail_count: u64) -> (r:
    Result<u64, IoError>)
    requires
        old(reader).wf(),
    ensures
        same_source(&old(reader).source(), &final(reader).source()),
        sink_extended(&old(reader).target(), &final(reader).target()),
        r is Err ==> final(reader).eol() == old(reader).eol(),
        old(reader).target().modeled() && r is Ok ==> eol_follows(
            old(reader).target().emitted(),
            final(reader).target().emitted(),
            old(reader).eol(),
            final(reader).eol(),
        ),
        old(reader).target().modeled() && r is Ok ==> flushed_after(
            &old(reader).target(),
            &final(reader).target(),
        ),
        old(reader).source().modeled() && old(reader).target().modeled() ==> {
            &&& old(reader).source().infallible() && old(reader).target().infallible() ==> r is Ok
            &&& r matches Ok(end) ==> tailed(
                old(reader).source().content(),
                tail_count as nat,
                old(reader).target().emitted(),
                old(reader).eol(),
                end,
                final(reader).source().position(),
                final(reader).target().emitted(),
                final(reader).eol(),
            )
        },
{
    crate::tail::tail(&mut reader.reader, &mut reader.writer, &mut reader.printed_eol, tail_count)
}

} // verus!
