//! Readers: a byte string with a cursor, the capability that the tail engine
//! works on.

use vstd::prelude::*;
use crate::error::IoError;

verus! {

/// Where a seek is measured from.
#[derive(Clone, Copy, Debug, PartialEq, Eq, Structural)]
pub enum SeekFrom {
    /// From the first byte.
    Start(u64),
    /// From one past the last byte.
    End(i64),
    /// From the current position.
    Current(i64),
}

/// The position that a seek asks for, as an unbounded integer.
pub open spec fn seek_target(len: nat, position: nat, pos: SeekFrom) -> int {
    match pos {
        SeekFrom::Start(n) => n as int,
        SeekFrom::End(d) => len + d,
        SeekFrom::Current(d) => position + d,
    }
}

/// What stands behind a name: the bytes under it, whether opening them
/// succeeds, whether opening and reading them is known never to fail,
/// whether opening them is refused for want of permission, whether the name
/// names anything at all, and the canonical form of the name where it has
/// one.
pub struct Backed {
    pub bytes: Seq<u8>,
    pub opens: bool,
    pub dependable: bool,
    pub refused: bool,
    pub named: bool,
    pub canonical: Option<Seq<char>>,
}

/// The mathematical picture of a reader: a byte string and a cursor into it.
///
/// A reader that states its picture answers `true` to `modeled`; the
/// contracts of `Length`, `SeekPos` and `Reader` then bind it. The defaults
/// state none, and of such a reader only what holds of every reader is
/// claimed. The bytes are those that the reader shows while a call is in
/// progress.
pub trait ByteSource: Sized {
    /// Whether this reader states its content and cursor.
    open spec fn modeled(&self) -> bool {
        false
    }

    /// The bytes behind the reader.
    open spec fn content(&self) -> Seq<u8> {
        Seq::empty()
    }

    /// The cursor: the index of the next byte that `read` delivers.
    open spec fn position(&self) -> nat {
        0
    }

    /// Whether operations on this reader are known never to fail for want of
    /// the underlying resource.
    open spec fn infallible(&self) -> bool {
        false
    }

    /// The reader's own invariant, which every operation asks for and keeps.
    open spec fn wf(&self) -> bool {
        true
    }

    /// The name of what is read. No operation changes it.
    open spec fn label(&self) -> Seq<char> {
        Seq::empty()
    }

    /// What stands behind the reader, by name. No operation changes it. A
    /// reader that opens what it reads again and again states here what it
    /// opens.
    open spec fn backing(&self) -> Map<Seq<char>, Backed> {
        Map::empty()
    }
}

/// True when `after` is well formed, reads what `before` read and states
/// its picture if and only if `before` did, and in that case shows the same
/// bytes and is as reliable.
pub open spec fn same_source<R: ByteSource>(before: &R, after: &R) -> bool {
    &&& after.wf()
    &&& after.label() == before.label()
    &&& after.backing() == before.backing()
    &&& after.modeled() == before.modeled()
    &&& before.modeled() ==> {
        &&& after.content() == before.content()
        &&& after.infallible() == before.infallible()
    }
}

/// What `len` promises: the length of the content, with the cursor where it
/// was.
pub open spec fn len_outcome<R: ByteSource>(before: &R, after: &R, r: Result<u64, IoError>) -> bool {
    &&& same_source(before, after)
    &&& before.modeled() ==> {
        &&& after.position() == before.position()
        &&& before.infallible() ==> r is Ok
        &&& r matches Ok(n) ==> n == before.content().len()
    }
}

/// What `read` promises. Of every reader: on success the buffer has grown by
/// the `n` bytes reported, and `n` is at most `limit`. Of a modeled reader
/// besides: those bytes are the content at the cursor, the cursor has moved
/// past them and still fits in a `u64`, and `n` is zero only at the end of the
/// content or when `limit` is zero; a failed read leaves the cursor where it
/// was.
pub open spec fn read_outcome<R: ByteSource>(
    before: &R,
    after: &R,
    buf_before: Seq<u8>,
    buf_after: Seq<u8>,
    limit: usize,
    r: Result<usize, IoError>,
) -> bool {
    &&& same_source(before, after)
    &&& r matches Ok(n) ==> {
        &&& n <= limit
        &&& buf_after.len() == buf_before.len() + n
        &&& buf_before.is_prefix_of(buf_after)
    }
    &&& before.modeled() ==> {
        &&& before.infallible() ==> r is Ok
        &&& r is Err ==> after.position() == before.position()
        &&& r matches Ok(n) ==> {
            &&& after.position() == before.position() + n
            &&& after.position() <= u64::MAX
            &&& (n == 0 <==> (limit == 0 || before.position() >= before.content().len()))
            &&& n > 0 ==> before.position() + n <= before.content().len()
            &&& n > 0 ==> buf_after == buf_before + before.content().subrange(
                before.position() as int,
                before.position() + n,
            )
        }
    }
}

/// What `seek` promises of a modeled reader. On success the cursor stands at
/// the target, which was neither negative nor beyond `u64::MAX`; a failed
/// seek leaves the cursor where it was.
pub open spec fn seek_outcome<R: ByteSource>(
    before: &R,
    after: &R,
    pos: SeekFrom,
    r: Result<u64, IoError>,
) -> bool {
    let target = seek_target(before.content().len(), before.position(), pos);
    &&& same_source(before, after)
    &&& before.modeled() ==> {
        &&& before.infallible() && 0 <= target <= u64::MAX ==> r is Ok
        &&& r is Err ==> after.position() == before.position()
        &&& r matches Ok(p) ==> p == target && after.position() == p
    }
}

/// Readers that can report how many bytes they hold.
pub trait Length: ByteSource {
    /// The number of bytes behind the reader. The cursor does not move.
    fn len(&mut self) -> (r: Result<u64, IoError>)
        requires
            old(self).wf(),
        ensures
            len_outcome(old(self), final(self), r),
    ;
}

/// Readers that remember their cursor.
pub trait SeekPos: ByteSource {
    /// The cursor.
    fn seek_pos(&self) -> (pos: u64)
        requires
            self.wf(),
        ensures
            self.modeled() ==> pos == self.position(),
    ;
}

/// The full reading capability: sequential reads and absolute or relative
/// seeks, over a reader that knows its length and its cursor.
pub trait Reader: Length + SeekPos {
    /// Appends to `buf` at most `limit` bytes taken at the cursor and advances
    /// the cursor past them. Nothing is delivered only at the end of the
    /// content or when `limit` is zero.
    fn read(&mut self, buf: &mut Vec<u8>, limit: usize) -> (r: Result<usize, IoError>)
        requires
            old(self).wf(),
        ensures
            read_outcome(old(self), final(self), old(buf)@, final(buf)@, limit, r),
    ;

    /// Moves the cursor. A target before the first byte or beyond `u64::MAX`
    /// is an error; one beyond the last byte is not.
    fn seek(&mut self, pos: SeekFrom) -> (r: Result<u64, IoError>)
        requires
            old(self).wf(),
        ensures
            seek_outcome(old(self), final(self), pos, r),
    ;
}

/// A reader over bytes held in memory.
pub struct MemoryReader {
    data: Vec<u8>,
    pos: u64,
}

impl ByteSource for MemoryReader {
    open spec fn modeled(&self) -> bool {
        true
    }

    closed spec fn content(&self) -> Seq<u8> {
        self.data@
    }

    closed spec fn position(&self) -> nat {
        self.pos as nat
    }

    open spec fn infallible(&self) -> bool {
        true
    }
}

impl MemoryReader {
    /// A reader over `data`, with the cursor on the first byte.
    pub fn new(data: Vec<u8>) -> (r: MemoryReader)
        ensures
            r.content() == data@,
            r.position() == 0,
    {
        MemoryReader { data, pos: 0 }
    }
}

impl Length for MemoryReader {
    fn len(&mut self) -> (r: Result<u64, IoError>) {
        Ok(self.data.len() as u64)
    }
}

impl SeekPos for MemoryReader {
    fn seek_pos(&self) -> (pos: u64) {
        self.pos
    }
}

impl Reader for MemoryReader {
    fn read(&mut self, buf: &mut Vec<u8>, limit: usize) -> (r: Result<usize, IoError>) {
        let len: usize = self.data.len();
        if limit == 0 || self.pos >= len as u64 {
            return Ok(0);
        }
        let start: usize = self.pos as usize;
        let avail: usize = len - start;
        let n: usize = if limit < avail {
            limit
        } else {
            avail
        };
        let mut i: usize = 0;
        while i < n
            invariant
                i <= n,
                start + n <= len,
                len == self.data@.len(),
                self.data@ == old(self).data@,
                self.pos == old(self).pos,
                buf@ == old(buf)@ + self.data@.subrange(start as int, start + i),
            decreases n - i,
        {
            buf.push(self.data[start + i]);
            i = i + 1;
        }
        self.pos = (start + n) as u64;
        Ok(n)
    }

    fn seek(&mut self, pos: SeekFrom) -> (r: Result<u64, IoError>) {
        let len: u64 = self.data.len() as u64;
        match pos {
            SeekFrom::Start(n) => {
                self.pos = n;
                Ok(n)
            },
            SeekFrom::End(d) => match offset_by(len, d) {
                Some(p) => {
                    self.pos = p;
                    Ok(p)
                },
                None => Err(IoError::InvalidInput),
            },
            SeekFrom::Current(d) => match offset_by(self.pos, d) {
                Some(p) => {
                    self.pos = p;
                    Ok(p)
                },
                None => Err(IoError::InvalidInput),
            },
        }
    }
}

/// `base + delta`, where that is a `u64`.
pub fn offset_by(base: u64, delta: i64) -> (r: Option<u64>)
    ensures
        match r {
            Some(p) => p == base + delta,
            None => base + delta < 0 || base + delta > u64::MAX,
        },
{
    if delta >= 0 {
        let d: u64 = delta as u64;
        if d <= u64::MAX - base {
            Some(base + d)
        } else {
            None
        }
    } else {
        let d: u64 = if delta == i64::MIN {
            9223372036854775808u64
        } else {
            (-delta) as u64
        };
        if d <= base {
            Some(base - d)
        } else {
            None
        }
    }
}

} // verus!
