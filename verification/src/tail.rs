//! The tail engine: where the last lines of a reader begin, and the streaming
//! copy from the cursor to the end of the content.

use vstd::prelude::*;
use crate::error::IoError;
use crate::reader::{same_source, Reader, SeekFrom};
use crate::sink::{ByteSink, Sink};

verus! {

/// Reads and writes move through windows of this many bytes.
pub const BUFFER_SIZE: usize = 8192;

const BUFFER_LEN: u64 = 8192;

/// The line terminator.
pub const NEWLINE: u8 = 0x0A;

/// How many line terminators `content` holds at the indices `lo..hi`.
pub open spec fn newline_count(content: Seq<u8>, lo: int, hi: int) -> nat
    decreases hi - lo,
{
    if hi <= lo {
        0
    } else if content[hi - 1] == NEWLINE {
        newline_count(content, lo, hi - 1) + 1
    } else {
        newline_count(content, lo, hi - 1)
    }
}

/// The index just past the `n`-th line terminator, counted backwards from
/// `limit`, among the bytes before `limit`; zero when there are fewer than `n`.
pub open spec fn line_start_before(content: Seq<u8>, limit: int, n: nat) -> int
    decreases limit,
{
    if limit <= 0 {
        0
    } else if content[limit - 1] == NEWLINE {
        if n <= 1 {
            limit
        } else {
            line_start_before(content, limit - 1, (n - 1) as nat)
        }
    } else {
        line_start_before(content, limit - 1, n)
    }
}

/// Where the backward scan starts counting, for content of two bytes or more.
///
/// The first window ends at the last byte, except that it stops one byte
/// short when the index of the last byte is a multiple of the window size.
/// A line terminator that closes the first window is not counted.
pub open spec fn scan_limit(content: Seq<u8>) -> int {
    let len = content.len() as int;
    let end = if (len - 1) % 8192 == 0 {
        len - 1
    } else {
        len
    };
    if content[end - 1] == NEWLINE {
        end - 1
    } else {
        end
    }
}

/// The offset at which the last `n` lines of `content` begin.
pub open spec fn tail_start(content: Seq<u8>, n: nat) -> int {
    if content.len() == 0 {
        0
    } else if n == 0 {
        content.len() as int
    } else if content.len() == 1 {
        0
    } else {
        line_start_before(content, scan_limit(content), n)
    }
}

/// The bytes of the window that starts at `start`.
pub open spec fn window_at(content: Seq<u8>, start: int) -> Seq<u8> {
    if start >= content.len() {
        Seq::empty()
    } else if start + 8192 <= content.len() {
        content.subrange(start, start + 8192)
    } else {
        content.subrange(start, content.len() as int)
    }
}

/// Seeks to `start` and fills `window` with the bytes of the window there,
/// reading until the window is full or the content ends.
fn read_window<T: Reader>(reader: &mut T, window: &mut Vec<u8>, start: u64) -> (r: Result<
    (),
    IoError,
>)
    requires
        old(reader).wf(),
    ensures
        same_source(old(reader), final(reader)),
        r is Ok ==> final(window)@.len() <= BUFFER_SIZE,
        old(reader).modeled() ==> {
            &&& old(reader).infallible() ==> r is Ok
            &&& r is Ok ==> final(window)@ == window_at(old(reader).content(), start as int)
        },
{
    window.clear();
    match reader.seek(SeekFrom::Start(start)) {
        Ok(_) => {},
        Err(e) => {
            return Err(e);
        },
    }
    let ghost modeled = old(reader).modeled();
    let ghost content = old(reader).content();
    loop
        invariant
            same_source(old(reader), reader),
            modeled == old(reader).modeled(),
            content == old(reader).content(),
            window@.len() <= BUFFER_SIZE,
            modeled ==> reader.position() == start + window@.len(),
            modeled && window@.len() > 0 ==> start + window@.len() <= content.len(),
            modeled && window@.len() > 0 ==> window@ == content.subrange(
                start as int,
                start + window@.len(),
            ),
        decreases BUFFER_SIZE - window@.len(),
    {
        let want: usize = BUFFER_SIZE - window.len();
        if want == 0 {
            return Ok(());
        }
        let n: usize = match reader.read(window, want) {
            Ok(n) => n,
            Err(e) => {
                return Err(e);
            },
        };
        if n == 0 {
            return Ok(());
        }
    }
}

/// The offset at which the last `tail_count` lines of the reader's content
/// begin. The content is scanned backwards, one window at a time; the cursor
/// is left wherever the scan stopped.
///
/// Of a modeled reader the offset is `tail_start` of its content. When no
/// lines are asked for, the cursor of a reader that holds anything is left
/// at the end. The scan never looks past the length that the reader reports.
pub fn tail_start_position<T: Reader>(reader: &mut T, tail_count: u64) -> (r: Result<u64, IoError>)
    requires
        old(reader).wf(),
    ensures
        same_source(old(reader), final(reader)),
        old(reader).modeled() ==> {
            &&& old(reader).infallible() ==> r is Ok
            &&& r matches Ok(offset) ==> offset == tail_start(
                old(reader).content(),
                tail_count as nat,
            )
            &&& r is Ok && tail_count == 0 ==> final(reader).position() == if old(
                reader,
            ).content().len() == 0 {
                old(reader).position()
            } else {
                old(reader).content().len()
            }
        },
{
    let ghost modeled = old(reader).modeled();
    let ghost content = old(reader).content();
    let len: u64 = match reader.len() {
        Ok(n) => n,
        Err(e) => {
            return Err(e);
        },
    };
    if len == 0 {
        return Ok(0);
    }
    if tail_count == 0 {
        return reader.seek(SeekFrom::End(0));
    }
    let end_index: u64 = len - 1;
    if end_index == 0 {
        return Ok(0);
    }
    let mut size: u64 = end_index % BUFFER_LEN;
    if size == 0 {
        size = BUFFER_LEN;
    }
    let mut start_index: u64 = end_index - size;
    let mut window: Vec<u8> = Vec::new();
    match read_window(reader, &mut window, start_index) {
        Ok(_) => {},
        Err(e) => {
            return Err(e);
        },
    }
    let ghost goal = line_start_before(content, scan_limit(content), tail_count as nat);
    let available: u64 = len - start_index;
    let mut scan_end: usize = window.len();
    if scan_end as u64 > available {
        scan_end = available as usize;
    }
    if scan_end > 0 && window[scan_end - 1] == NEWLINE {
        scan_end = scan_end - 1;
    }
    let mut eol_count: u64 = 0;
    loop
        invariant
            same_source(old(reader), reader),
            modeled == old(reader).modeled(),
            content == old(reader).content(),
            start_index % BUFFER_LEN == 0,
            scan_end <= window@.len() <= BUFFER_SIZE,
            start_index + scan_end <= len,
            eol_count < tail_count,
            modeled ==> {
                &&& content.len() == len
                &&& goal == tail_start(content, tail_count as nat)
                &&& window@ == window_at(content, start_index as int)
                &&& goal == line_start_before(
                    content,
                    start_index + scan_end,
                    (tail_count - eol_count) as nat,
                )
            },
        decreases start_index,
    {
        let mut i: usize = scan_end;
        while i > 0
            invariant
                same_source(old(reader), reader),
                modeled == old(reader).modeled(),
                content == old(reader).content(),
                i <= scan_end <= window@.len(),
                start_index + scan_end <= len,
                eol_count < tail_count,
                modeled ==> {
                    &&& content.len() == len
                    &&& goal == tail_start(content, tail_count as nat)
                    &&& window@ == window_at(content, start_index as int)
                    &&& goal == line_start_before(
                        content,
                        start_index + i,
                        (tail_count - eol_count) as nat,
                    )
                },
            decreases i,
        {
            i = i - 1;
            if window[i] == NEWLINE {
                eol_count = eol_count + 1;
                if eol_count >= tail_count {
                    return Ok(start_index + i as u64 + 1);
                }
            }
        }
        if start_index == 0 {
            return Ok(0);
        }
        start_index = start_index - BUFFER_LEN;
        match read_window(reader, &mut window, start_index) {
            Ok(_) => {},
            Err(e) => {
                return Err(e);
            },
        }
        scan_end = window.len();
    }
}

/// Detects truncation: when the content is shorter than `offset`, the cursor
/// returns to the first byte and the answer is `true`. Otherwise nothing
/// changes.
pub fn handle_shrink<T: Reader>(reader: &mut T, offset: u64) -> (r: Result<bool, IoError>)
    requires
        old(reader).wf(),
    ensures
        same_source(old(reader), final(reader)),
        old(reader).modeled() ==> {
            &&& old(reader).infallible() ==> r is Ok
            &&& r matches Ok(shrunk) ==> {
                &&& shrunk == (old(reader).content().len() < offset)
                &&& shrunk ==> final(reader).position() == 0
                &&& !shrunk ==> final(reader).position() == old(reader).position()
            }
        },
{
    let len: u64 = match reader.len() {
        Ok(n) => n,
        Err(e) => {
            return Err(e);
        },
    };
    if len < offset {
        match reader.seek(SeekFrom::Start(0)) {
            Ok(_) => Ok(true),
            Err(e) => Err(e),
        }
    } else {
        Ok(false)
    }
}

/// Moves the cursor to `offset`, or to the first byte when the content has
/// become shorter than that.
pub fn seek_with_shrink_handling<T: Reader>(reader: &mut T, offset: u64) -> (r: Result<
    u64,
    IoError,
>)
    requires
        old(reader).wf(),
    ensures
        same_source(old(reader), final(reader)),
        old(reader).modeled() ==> {
            &&& old(reader).infallible() ==> r is Ok
            &&& r matches Ok(pos) ==> {
                &&& final(reader).position() == pos
                &&& pos == if old(reader).content().len() < offset {
                    0
                } else {
                    offset
                }
            }
        },
{
    match handle_shrink(reader, offset) {
        Ok(true) => {
            return Ok(0);
        },
        Ok(false) => {},
        Err(e) => {
            return Err(e);
        },
    }
    reader.seek(SeekFrom::Start(offset))
}

/// What a successful dump leaves behind, given where the cursor stood.
///
/// With the cursor at or past the end nothing is written and nothing
/// changes. Otherwise every byte from the cursor to the end has gone to the
/// sink, the cursor stands at the end, and the flag tells whether the last
/// byte written was a line terminator.
pub open spec fn dumped(
    content: Seq<u8>,
    start: nat,
    emitted_before: Seq<u8>,
    eol_before: bool,
    end: u64,
    position_after: nat,
    emitted_after: Seq<u8>,
    eol_after: bool,
) -> bool {
    if start >= content.len() {
        &&& end == start
        &&& position_after == start
        &&& emitted_after == emitted_before
        &&& eol_after == eol_before
    } else {
        &&& end == content.len()
        &&& position_after == content.len()
        &&& emitted_after == emitted_before + content.subrange(
            start as int,
            content.len() as int,
        )
        &&& eol_after == (content.last() == NEWLINE)
    }
}

/// What a successful dump promises of the buffer of a modeled sink whatever
/// the reader does: where bytes were written the sink was flushed after the
/// last of them, so that none waits, and else the sink was left alone.
pub open spec fn flushed_after<U: ByteSink>(before: &U, after: &U) -> bool {
    if after.emitted().len() == before.emitted().len() {
        after.pending() == before.pending()
    } else {
        after.pending() == 0
    }
}

/// What a dump promises of a modeled sink whatever the reader does: the bytes
/// accepted before stay in front, and the sink is as reliable as it was.
pub open spec fn sink_extended<U: ByteSink>(before: &U, after: &U) -> bool {
    &&& after.modeled() == before.modeled()
    &&& before.modeled() ==> {
        &&& after.infallible() == before.infallible()
        &&& before.emitted().is_prefix_of(after.emitted())
    }
}

/// What a successful dump promises of a modeled sink and the flag whatever
/// the reader does: where bytes were written, the flag tells whether the
/// last of them was a line terminator, and else it is as it was.
pub open spec fn eol_follows(
    emitted_before: Seq<u8>,
    emitted_after: Seq<u8>,
    eol_before: bool,
    eol_after: bool,
) -> bool {
    if emitted_after.len() == emitted_before.len() {
        eol_after == eol_before
    } else {
        eol_after == (emitted_after.last() == NEWLINE)
    }
}

/// Copies everything from the cursor to the end of the content into
/// `writer`, flushes it, and records in `printed_eol` whether the last byte
/// written was a line terminator. Returns the offset reached.
///
/// The first read is sized to end on a window boundary. When it delivers
/// nothing, the call returns at once: no write, no flush, the flag untouched.
/// Otherwise the sink is flushed once, after the last byte was written.
/// An offset that would pass `u64::MAX` is reported as `InvalidInput`.
pub fn dump_to_tail<T: Reader, U: Sink>(
    reader: &mut T,
    writer: &mut U,
    printed_eol: &mut bool,
) -> (r: Result<u64, IoError>)
    requires
        old(reader).wf(),
    ensures
        same_source(old(reader), final(reader)),
        sink_extended(old(writer), final(writer)),
        r is Err ==> *final(printed_eol) == *old(printed_eol),
        old(writer).modeled() && r is Ok ==> eol_follows(
            old(writer).emitted(),
            final(writer).emitted(),
            *old(printed_eol),
            *final(printed_eol),
        ),
        old(writer).modeled() && r is Ok ==> flushed_after(old(writer), final(writer)),
        old(reader).modeled() && old(writer).modeled() ==> {
            &&& old(reader).infallible() && old(writer).infallible() ==> r is Ok
            &&& r matches Ok(end) ==> dumped(
                old(reader).content(),
                old(reader).position(),
                old(writer).emitted(),
                *old(printed_eol),
                end,
                final(reader).position(),
                final(writer).emitted(),
                *final(printed_eol),
            )
        },
{
    let ghost source = old(reader).modeled();
    let ghost target = old(writer).modeled();
    let ghost exact = source && target;
    let ghost content = reader.content();
    let ghost start = reader.position();
    let ghost emitted = writer.emitted();
    let mut buffer: Vec<u8> = Vec::new();
    let mut offset: u64 = reader.seek_pos();
    let initial_size: usize = (BUFFER_LEN - offset % BUFFER_LEN) as usize;
    let read_size: usize = match reader.read(&mut buffer, initial_size) {
        Ok(n) => n,
        Err(e) => {
            return Err(e);
        },
    };
    if read_size == 0 {
        return Ok(offset);
    }
    offset = match offset.checked_add(read_size as u64) {
        Some(sum) => sum,
        None => {
            return Err(IoError::InvalidInput);
        },
    };
    let mut last_byte: u8 = buffer[read_size - 1];
    loop
        invariant
            same_source(old(reader), reader),
            sink_extended(old(writer), writer),
            source == old(reader).modeled(),
            target == old(writer).modeled(),
            exact == (source && target),
            content == old(reader).content(),
            start == old(reader).position(),
            emitted == old(writer).emitted(),
            *printed_eol == *old(printed_eol),
            buffer@.len() > 0,
            last_byte == buffer@[buffer@.len() - 1],
            source ==> {
                &&& start < offset <= content.len()
                &&& reader.position() == offset
                &&& buffer@.len() <= offset - start
                &&& buffer@ == content.subrange(offset - buffer@.len(), offset as int)
                &&& last_byte == content[offset - 1]
            },
            exact ==> writer.emitted() == emitted + content.subrange(
                start as int,
                offset - buffer@.len(),
            ),
        decreases u64::MAX - offset,
    {
        match writer.write(buffer.as_slice()) {
            Ok(_) => {},
            Err(e) => {
                return Err(e);
            },
        }
        proof {
            if exact {
                assert(writer.emitted() =~= emitted + content.subrange(
                    start as int,
                    offset as int,
                ));
            }
        }
        buffer.clear();
        let read_size: usize = match reader.read(&mut buffer, BUFFER_SIZE) {
            Ok(n) => n,
            Err(e) => {
                return Err(e);
            },
        };
        if read_size == 0 {
            match writer.flush() {
                Ok(_) => {},
                Err(e) => {
                    return Err(e);
                },
            }
            *printed_eol = last_byte == NEWLINE;
            return Ok(offset);
        }
        offset = match offset.checked_add(read_size as u64) {
            Some(sum) => sum,
            None => {
                return Err(IoError::InvalidInput);
            },
        };
        last_byte = buffer[read_size - 1];
    }
}

/// Whether tailing `n` lines of `content` writes anything.
pub open spec fn tail_is_nonempty(content: Seq<u8>, n: nat) -> bool {
    content.len() > 0 && n > 0
}

/// What a successful tail of `n` lines leaves behind: the last `n` lines of
/// the content have gone to the sink, the cursor stands at the end, and the
/// flag tells whether the last byte written, if any was, ended a line.
pub open spec fn tailed(
    content: Seq<u8>,
    n: nat,
    emitted_before: Seq<u8>,
    eol_before: bool,
    end: u64,
    position_after: nat,
    emitted_after: Seq<u8>,
    eol_after: bool,
) -> bool {
    &&& end == content.len()
    &&& position_after == content.len()
    &&& emitted_after == emitted_before + content.subrange(
        tail_start(content, n),
        content.len() as int,
    )
    &&& eol_after == if tail_is_nonempty(content, n) {
        content.last() == NEWLINE
    } else {
        eol_before
    }
}

/// Writes the last `tail_count` lines of the reader's content to `writer`:
/// locates where they begin, moves the cursor there, and dumps to the end.
pub fn tail<T: Reader, U: Sink>(
    reader: &mut T,
    writer: &mut U,
    printed_eol: &mut bool,
    tail_count: u64,
) -> (r: Result<u64, IoError>)
    requires
        old(reader).wf(),
    ensures
        same_source(old(reader), final(reader)),
        sink_extended(old(writer), final(writer)),
        r is Err ==> *final(printed_eol) == *old(printed_eol),
        old(writer).modeled() && r is Ok ==> eol_follows(
            old(writer).emitted(),
            final(writer).emitted(),
            *old(printed_eol),
            *final(printed_eol),
        ),
        old(writer).modeled() && r is Ok ==> flushed_after(old(writer), final(writer)),
        old(reader).modeled() && old(writer).modeled() ==> {
            &&& old(reader).infallible() && old(writer).infallible() ==> r is Ok
            &&& r matches Ok(end) ==> tailed(
                old(reader).content(),
                tail_count as nat,
                old(writer).emitted(),
                *old(printed_eol),
                end,
                final(reader).position(),
                final(writer).emitted(),
                *final(printed_eol),
            )
        },
{
    let ghost content = reader.content();
    let offset: u64 = match tail_start_position(reader, tail_count) {
        Ok(offset) => offset,
        Err(e) => {
            return Err(e);
        },
    };
    proof {
        lemma_tail_start_in_range(content, tail_count as nat);
    }
    match seek_with_shrink_handling(reader, offset) {
        Ok(_) => {},
        Err(e) => {
            return Err(e);
        },
    }
    dump_to_tail(reader, writer, printed_eol)
}

/// The located offset lies within the content, and at its end exactly when
/// nothing is to be written.
pub proof fn lemma_tail_start_in_range(content: Seq<u8>, n: nat)
    ensures
        0 <= tail_start(content, n) <= content.len(),
        tail_start(content, n) < content.len() <==> tail_is_nonempty(content, n),
{
    if content.len() >= 2 && n > 0 {
        lemma_line_start_in_range(content, scan_limit(content), n);
        lemma_line_start_in_range(content, scan_limit(content) - 1, n);
    }
}

/// A line start found before `limit` is at most `limit`, and never negative.
pub proof fn lemma_line_start_in_range(content: Seq<u8>, limit: int, n: nat)
    ensures
        0 <= line_start_before(content, limit, n),
        line_start_before(content, limit, n) <= limit || limit < 0,
    decreases limit,
{
    if limit > 0 {
        if content[limit - 1] == NEWLINE {
            if n > 1 {
                lemma_line_start_in_range(content, limit - 1, (n - 1) as nat);
            }
        } else {
            lemma_line_start_in_range(content, limit - 1, n);
        }
    }
}

/// What `line_start_before` finds: either fewer than `n` line terminators
/// stand before `limit` and the answer is zero, or the answer stands just
/// past a line terminator and exactly `n` of them stand from there to
/// `limit`, that one included.
pub proof fn lemma_line_start_counts(content: Seq<u8>, limit: int, n: nat)
    requires
        0 <= limit <= content.len(),
        n >= 1,
    ensures
        ({
            let p = line_start_before(content, limit, n);
            &&& 0 <= p <= limit
            &&& p == 0 ==> newline_count(content, 0, limit) < n
            &&& p > 0 ==> content[p - 1] == NEWLINE && newline_count(content, p - 1, limit) == n
        }),
    decreases limit,
{
    if limit > 0 {
        if content[limit - 1] == NEWLINE {
            if n > 1 {
                lemma_line_start_counts(content, limit - 1, (n - 1) as nat);
            } else {
                assert(newline_count(content, limit - 1, limit - 1) == 0);
            }
        } else {
            lemma_line_start_counts(content, limit - 1, n);
        }
    }
}

/// The one shape of content on which the scan stops counting a byte early:
/// the last byte stands on a window boundary and the byte before it is a
/// line terminator.
pub open spec fn ends_line_on_window_edge(content: Seq<u8>) -> bool {
    &&& content.len() >= 2
    &&& (content.len() - 1) % 8192 == 0
    &&& content[content.len() - 2] == NEWLINE
}

/// Tailing at least one line starts at the last `n` lines: with the final
/// byte set aside, the start is zero when fewer than `n` line terminators
/// remain, and otherwise stands just past the `n`-th of them from the end.
/// This holds of all content but the shape `ends_line_on_window_edge`.
pub proof fn lemma_tail_starts_at_last_lines(content: Seq<u8>, n: nat)
    requires
        n >= 1,
        content.len() >= 1,
        !ends_line_on_window_edge(content),
    ensures
        ({
            let p = tail_start(content, n);
            let body = content.len() - 1;
            &&& 0 <= p <= body
            &&& p == 0 ==> newline_count(content, 0, body) < n
            &&& p > 0 ==> content[p - 1] == NEWLINE && newline_count(content, p - 1, body) == n
        }),
{
    let body = content.len() - 1;
    if content.len() >= 2 {
        lemma_line_start_counts(content, body, n);
    }
}

/// Tailing no lines starts at the end of the content.
pub proof fn lemma_tail_of_no_lines(content: Seq<u8>)
    ensures
        tail_start(content, 0) == content.len(),
{
}

} // verus!
