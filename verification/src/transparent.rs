//! Readers that go through the pool: a path and a cursor of their own, and an
//! open reader borrowed from the pool for each operation.

use vstd::prelude::*;
use crate::error::IoError;
use crate::pool::{FileRepository, ReaderCreator, SlotRef};
use crate::reader::{Backed, ByteSource, Length, Reader, SeekFrom, SeekPos};

verus! {

/// Everything that a creator states: for each path, the bytes that a reader
/// opened on it shows, how opening it ends, whether it names something, and
/// its canonical form.
pub open spec fn files_of<T: Reader, C: ReaderCreator<String, T>>(creator: C) -> Map<
    Seq<char>,
    Backed,
> {
    Map::new(
        |path: Seq<char>| true,
        |path: Seq<char>|
            Backed {
                bytes: creator.contents(path),
                opens: creator.opens(path),
                dependable: creator.dependable(path),
                refused: creator.refused(path),
                named: creator.names(path),
                canonical: creator.canonical(path),
            },
    )
}

/// What is kept of a followed file between events: the path its reader was
/// opened on, the cursor, the place in the pool where its reader was last
/// seen, and whether the last byte written for it ended a line.
pub struct CachedTailState {
    path: String,
    reader_seek_pos: u64,
    reader_cache: Option<SlotRef>,
    printed_eol: bool,
}

/// The mathematical picture of a followed file. The place noted in the pool
/// is no part of it: what is read and written does not depend on the place,
/// which `noted` gives.
pub struct FileView {
    /// The path that the reader opens.
    pub path: Seq<char>,
    /// The cursor.
    pub offset: nat,
    /// Whether the last byte written for the file was a line terminator.
    pub eol: bool,
}

impl View for CachedTailState {
    type V = FileView;

    closed spec fn view(&self) -> FileView {
        FileView {
            path: self.path@,
            offset: self.reader_seek_pos as nat,
            eol: self.printed_eol,
        }
    }
}

impl CachedTailState {
    /// The place in the pool where the file's reader was last seen.
    pub closed spec fn noted(&self) -> Option<SlotRef> {
        self.reader_cache
    }

    /// The state of a file at `path` of which nothing was read or written.
    pub fn from_path(path: String) -> (state: CachedTailState)
        ensures
            state@ == (FileView { path: path@, offset: 0, eol: false }),
            state.noted() is None,
    {
        CachedTailState { path, reader_seek_pos: 0, reader_cache: None, printed_eol: false }
    }

    /// The state of a file at `path` of which nothing was read or written,
    /// whose reader was seen at `place` in the pool.
    pub fn from_place(path: String, place: Option<SlotRef>) -> (state: CachedTailState)
        ensures
            state@ == (FileView { path: path@, offset: 0, eol: false }),
            state.noted() == place,
    {
        CachedTailState { path, reader_seek_pos: 0, reader_cache: place, printed_eol: false }
    }

    /// The cursor.
    pub fn current_seek(&self) -> (pos: u64)
        ensures
            pos == self@.offset,
    {
        self.reader_seek_pos
    }

    /// Whether the last byte written for the file was a line terminator.
    pub fn printed_eol(&self) -> (b: bool)
        ensures
            b == self@.eol,
    {
        self.printed_eol
    }

}

/// A reader of one path through the pool. It holds the pool for as long as
/// it lives and gives it back with `release`.
///
/// The cursor kept here is the one that counts: the pooled reader may be
/// shared, closed and opened again, so each operation first finds the reader
/// and tells it where to read.
pub struct TransparentReader<T: Reader, C: ReaderCreator<String, T>> {
    reader_repository: FileRepository<T, C>,
    path: String,
    reader_seek_pos: u64,
    reader_cache: Option<SlotRef>,
}

impl<T: Reader, C: ReaderCreator<String, T>> TransparentReader<T, C> {
    /// The pool.
    pub closed spec fn repository(&self) -> FileRepository<T, C> {
        self.reader_repository
    }

    /// The path that this reader opens.
    pub closed spec fn path(&self) -> Seq<char> {
        self.path@
    }

    /// The place in the pool where the reader was last seen.
    pub closed spec fn noted(&self) -> Option<SlotRef> {
        self.reader_cache
    }

    /// A reader of `path` with its cursor on the first byte.
    pub fn new(path: String, repository: FileRepository<T, C>) -> (reader: Self)
        requires
            repository.wf(),
        ensures
            reader.wf(),
            reader.path() == path@,
            reader.position() == 0,
            reader.noted() is None,
            reader.repository() == repository,
    {
        TransparentReader {
            reader_repository: repository,
            path,
            reader_seek_pos: 0,
            reader_cache: None,
        }
    }

    /// The reader of a followed file, taken up where `state` left it, with
    /// the place that the state had noted.
    pub fn resume(state: CachedTailState, repository: FileRepository<T, C>) -> (parts: (
        Self,
        bool,
    ))
        requires
            repository.wf(),
        ensures
            parts.0.wf(),
            parts.0.path() == state@.path,
            parts.0.position() == state@.offset,
            parts.0.noted() == state.noted(),
            parts.0.repository() == repository,
            parts.1 == state@.eol,
    {
        (
            TransparentReader {
                reader_repository: repository,
                path: state.path,
                reader_seek_pos: state.reader_seek_pos,
                reader_cache: state.reader_cache,
            },
            state.printed_eol,
        )
    }

    /// Gives the pool back, and the state of the followed file with `eol` as
    /// its end-of-line flag and with the place where the reader was last
    /// seen.
    pub fn release(self, eol: bool) -> (parts: (CachedTailState, FileRepository<T, C>))
        requires
            self.wf(),
        ensures
            parts.1 == self.repository(),
            parts.1.wf(),
            parts.0@ == (FileView { path: self.path(), offset: self.position(), eol }),
            parts.0.noted() == self.noted(),
    {
        (
            CachedTailState {
                path: self.path,
                reader_seek_pos: self.reader_seek_pos,
                reader_cache: self.reader_cache,
                printed_eol: eol,
            },
            self.reader_repository,
        )
    }
}

impl<T: Reader, C: ReaderCreator<String, T>> ByteSource for TransparentReader<T, C> {
    closed spec fn modeled(&self) -> bool {
        self.reader_repository.opener().modeled()
    }

    closed spec fn content(&self) -> Seq<u8> {
        self.reader_repository.opener().contents(self.path@)
    }

    closed spec fn position(&self) -> nat {
        self.reader_seek_pos as nat
    }

    closed spec fn wf(&self) -> bool {
        self.reader_repository.wf()
    }

    closed spec fn label(&self) -> Seq<char> {
        self.path@
    }

    closed spec fn backing(&self) -> Map<Seq<char>, Backed> {
        files_of(self.reader_repository.opener())
    }

    closed spec fn infallible(&self) -> bool {
        self.reader_repository.opener().modeled() && self.reader_repository.opener().dependable(
            self.path@,
        )
    }
}

impl<T: Reader, C: ReaderCreator<String, T>> TransparentReader<T, C> {
    /// What the reader shows is what the pool's creator states for its path.
    pub proof fn lemma_shows_contents(&self)
        ensures
            self.modeled() == self.repository().opener().modeled(),
            self.content() == self.repository().opener().contents(self.path()),
            self.wf() == self.repository().wf(),
            self.label() == self.path(),
            self.backing() == files_of(self.repository().opener()),
            self.infallible() == (self.repository().opener().modeled()
                && self.repository().opener().dependable(self.path())),
    {
    }
}

impl<T: Reader, C: ReaderCreator<String, T>> Length for TransparentReader<T, C> {
    fn len(&mut self) -> (r: Result<u64, IoError>) {
        let (slot, place) = match self.reader_repository.acquire(&self.path, self.reader_cache) {
            Ok(found) => found,
            Err(e) => {
                return Err(e);
            },
        };
        self.reader_cache = place;
        proof {
            if self.reader_repository.opener().modeled() {
                self.reader_repository.lemma_handle_shows_contents(slot as int, self.path@);
            }
        }
        self.reader_repository.len_of(slot)
    }
}

impl<T: Reader, C: ReaderCreator<String, T>> SeekPos for TransparentReader<T, C> {
    fn seek_pos(&self) -> (pos: u64) {
        self.reader_seek_pos
    }
}

impl<T: Reader, C: ReaderCreator<String, T>> Reader for TransparentReader<T, C> {
    fn read(&mut self, buf: &mut Vec<u8>, limit: usize) -> (r: Result<usize, IoError>) {
        let (slot, place) = match self.reader_repository.acquire(&self.path, self.reader_cache) {
            Ok(found) => found,
            Err(e) => {
                return Err(e);
            },
        };
        self.reader_cache = place;
        proof {
            if self.reader_repository.opener().modeled() {
                self.reader_repository.lemma_handle_shows_contents(slot as int, self.path@);
            }
        }
        let n: usize = match self.reader_repository.read_at(
            slot,
            self.reader_seek_pos,
            buf,
            limit,
        ) {
            Ok(n) => n,
            Err(e) => {
                return Err(e);
            },
        };
        match self.reader_seek_pos.checked_add(n as u64) {
            Some(pos) => {
                self.reader_seek_pos = pos;
                Ok(n)
            },
            None => Err(IoError::InvalidInput),
        }
    }

    fn seek(&mut self, pos: SeekFrom) -> (r: Result<u64, IoError>) {
        let (slot, place) = match self.reader_repository.acquire(&self.path, self.reader_cache) {
            Ok(found) => found,
            Err(e) => {
                return Err(e);
            },
        };
        self.reader_cache = place;
        proof {
            if self.reader_repository.opener().modeled() {
                self.reader_repository.lemma_handle_shows_contents(slot as int, self.path@);
            }
        }
        match self.reader_repository.seek_from(slot, self.reader_seek_pos, pos) {
            Ok(p) => {
                self.reader_seek_pos = p;
                Ok(p)
            },
            Err(e) => Err(e),
        }
    }
}

} // verus!
