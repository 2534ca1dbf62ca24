//! The watcher: the state machine that follows the files of a directory
//! through write, remove and rename events, and writes what is appended to
//! them under banners that tell the files apart.

use vstd::prelude::*;
use vstd::utf8::encode_utf8;
use std::collections::HashMap;
use crate::color::colored_banner_bytes;
use crate::error::{IoError, WatchError};
use crate::event::{plan, plan_for, Op, Plan, Received};
use crate::filter::{asked_pattern, found_ranges, regex_compiles, FilterError, PathFilter};
use crate::opt::Opt;
use crate::path::{
    banner_bytes, banner_line, display_name, display_path, normalize_path_for_windows, normalized,
    Platform,
};
use crate::path_map::PathMap;
use crate::pool::{
    entry_dropped, key_absent, FileRepository, ReaderCreator, SlotRef, MAX_FILE_HANDLE,
};
use crate::reader::{Backed, ByteSource, Reader, SeekPos};
use crate::sink::Sink;
use crate::stream::{
    bytes_of, carries_content, flatten, framed, gap, last_content, lemma_announced_gap,
    lemma_flatten_concat, lemma_framed_at, lemma_push_banner, lemma_push_content,
    lemma_push_newline, may_follow, Piece,
};
use crate::tail::{
    dump_to_tail, handle_shrink, lemma_tail_start_in_range, tail, tail_is_nonempty, tail_start,
    tail_start_position, NEWLINE,
};
use crate::transparent::{files_of, CachedTailState, FileView, TransparentReader};

verus! {

broadcast use vstd::std_specs::hash::group_hash_axioms;

/// What the watcher asks of the file system besides opening readers. A
/// creator that states what it holds is taken at its word about names too.
pub trait PathProbe<T: Reader>: ReaderCreator<String, T> {
    /// Whether `path` names something.
    fn path_exists(&self, path: &String) -> (there: bool)
        ensures
            self.modeled() ==> there == self.names(path@),
    ;

    /// The canonical form of `path`; an error where it has none.
    fn canonicalize(&self, path: &String) -> (r: Result<String, IoError>)
        ensures
            self.modeled() ==> match self.canonical(path@) {
                Some(canonical) => r matches Ok(found) && found@ == canonical,
                None => r is Err,
            },
    ;
}

/// `pathdiff::diff_paths`: `path` as seen from the directory `base`, where
/// there is such a way of writing it. Nothing is claimed of the outcome,
/// which depends on how the platform writes paths.
#[verifier::external_body]
fn diff_paths(path: &String, base: &String) -> (relative: Option<String>) {
    pathdiff::diff_paths(path, base).map(|p| p.to_string_lossy().into_owned())
}

/// Why a watcher could not be set up.
#[derive(Debug)]
pub enum SetupError {
    /// The path to watch is not a directory.
    NotADirectory,
    /// The filter could not be made.
    Filter(FilterError),
}

/// The watcher. `T` is the kind of reader that the creator `C` opens, and
/// `W` the sink that everything is written to.
pub struct DirectoryWatcher<T: Reader, C: PathProbe<T>, W: Sink> {
    filter: PathFilter,
    current_dir: Option<String>,
    selected_file_path: Option<String>,
    file_map: PathMap<CachedTailState>,
    renaming_map: HashMap<u32, Option<CachedTailState>>,
    repository: Option<FileRepository<T, C>>,
    colorize: bool,
    platform: Platform,
    writer: W,
    origin: Ghost<Seq<u8>>,
    trace: Ghost<Seq<Piece>>,
}

/// The view of an optional path.
pub open spec fn path_of(path: Option<String>) -> Option<Seq<char>> {
    match path {
        Some(p) => Some(p@),
        None => None,
    }
}

/// What is written when the selected file is let go: a line terminator if
/// the file's output did not end with one, and an empty line.
pub open spec fn parting(eol: bool) -> Seq<Piece> {
    if eol {
        seq![Piece::Newline]
    } else {
        seq![Piece::Newline, Piece::Newline]
    }
}

/// What is written before the banner of a file that takes the place of the
/// selected one: a line terminator if the selected file is followed and its
/// output did not end with one, and an empty line. Before the first banner,
/// and after the selected file was let go, nothing is written.
pub open spec fn separator(
    selected: Option<Seq<char>>,
    files: Map<Seq<char>, CachedTailState>,
) -> Seq<Piece> {
    match selected {
        Some(p) => if files.contains_key(p) && !files[p]@.eol {
            seq![Piece::Newline, Piece::Newline]
        } else {
            seq![Piece::Newline]
        },
        None => Seq::empty(),
    }
}

/// Where pouring starts in `content` for a file left at `offset`: at the
/// first byte when the content has become shorter than `offset` and that is
/// looked for, and at `offset` otherwise.
pub open spec fn pour_start(content: Seq<u8>, offset: nat, shrink: bool) -> nat {
    if shrink && content.len() < offset {
        0
    } else {
        offset
    }
}

/// The bytes that pouring writes: the content from the start to the end.
pub open spec fn poured_bytes(content: Seq<u8>, offset: nat, shrink: bool) -> Seq<u8> {
    let start = pour_start(content, offset, shrink);
    if start >= content.len() {
        Seq::empty()
    } else {
        content.subrange(start as int, content.len() as int)
    }
}

/// The state in which pouring leaves a file: the cursor at the end of the
/// content unless it stood beyond, and the flag telling whether the last
/// byte written, if any was, ended a line.
pub open spec fn poured_view(content: Seq<u8>, before: FileView, shrink: bool) -> FileView {
    let start = pour_start(content, before.offset, shrink);
    if start >= content.len() {
        FileView { offset: start, ..before }
    } else {
        FileView { path: before.path, offset: content.len(), eol: content.last() == NEWLINE }
    }
}

/// The bytes that the first reading of a file writes: its last `lines`
/// lines.
pub open spec fn tail_bytes(content: Seq<u8>, lines: nat) -> Seq<u8> {
    content.subrange(tail_start(content, lines), content.len() as int)
}

/// The state in which the first reading leaves the file at `path`: the
/// cursor at the end of the content, and the flag telling whether the last
/// byte written, if any was, ended a line.
pub open spec fn tailed_view(content: Seq<u8>, path: Seq<char>, lines: nat) -> FileView {
    FileView {
        path,
        offset: content.len(),
        eol: tail_is_nonempty(content, lines) && content.last() == NEWLINE,
    }
}

/// `after` is `before` and then, if there are any, the bytes `chunk` as
/// content of the file keyed by `path`.
pub open spec fn then_content(
    before: Seq<Piece>,
    after: Seq<Piece>,
    path: Seq<char>,
    chunk: Seq<u8>,
) -> bool {
    after == if chunk.len() > 0 {
        before.push(Piece::Content { path, bytes: chunk })
    } else {
        before
    }
}

/// `after` is `before` and then the separator and the banner of the file
/// keyed by `path`.
pub open spec fn then_banner(
    before: Seq<Piece>,
    after: Seq<Piece>,
    selected: Option<Seq<char>>,
    files: Map<Seq<char>, CachedTailState>,
    path: Seq<char>,
) -> bool {
    &&& after.len() > 0
    &&& after.drop_last() == before + separator(selected, files)
    &&& after.last() matches Piece::Banner { path: p, .. }
    &&& p == path
}

/// Whether `line` is the banner line of a file named `name`, painted as
/// `paint` says: plain, or in colour around what the given pattern matches.
/// The file is shown as `name` without `./` at its start. A plain banner
/// reads `==> `, what the file is shown as, ` <==` and a line terminator. A
/// coloured one has these parts painted blue, but for the parts of what the
/// file is shown as that the pattern matches, which are green.
pub open spec fn banner_shows(line: Seq<u8>, name: Seq<char>, paint: Option<Seq<char>>) -> bool {
    line == banner_of(name, paint)
}

/// The banner line of a file named `name`, painted as `paint` says.
pub open spec fn banner_of(name: Seq<char>, paint: Option<Seq<char>>) -> Seq<u8> {
    match paint {
        Some(pattern) => colored_banner_bytes(
            encode_utf8(display_name(name)),
            found_ranges(pattern, display_name(name)),
        ),
        None => banner_bytes(display_name(name)),
    }
}

/// The bytes of the separator that `separator` describes.
pub open spec fn separator_bytes(
    selected: Option<Seq<char>>,
    files: Map<Seq<char>, CachedTailState>,
) -> Seq<u8> {
    match selected {
        Some(p) => if files.contains_key(p) && !files[p]@.eol {
            seq![NEWLINE, NEWLINE]
        } else {
            seq![NEWLINE]
        },
        None => Seq::empty(),
    }
}

/// The pieces of a separator hold the bytes of the separator.
pub proof fn lemma_separator_bytes(
    selected: Option<Seq<char>>,
    files: Map<Seq<char>, CachedTailState>,
)
    ensures
        flatten(separator(selected, files)) == separator_bytes(selected, files),
{
    let pieces = separator(selected, files);
    let none = Seq::<Piece>::empty();
    let one = none.push(Piece::Newline);
    lemma_push_newline(none);
    lemma_push_newline(one);
    assert(flatten(none) =~= Seq::<u8>::empty());
    if pieces.len() == 1 {
        assert(pieces =~= one);
        assert(flatten(pieces) =~= seq![NEWLINE]);
    } else if pieces.len() == 2 {
        assert(pieces =~= one.push(Piece::Newline));
        assert(flatten(pieces) =~= seq![NEWLINE, NEWLINE]);
    } else {
        assert(pieces =~= none);
    }
}

/// Whether every banner in `trace` is the banner line of the file that it
/// names.
pub open spec fn banners_sound(trace: Seq<Piece>, paint: Option<Seq<char>>) -> bool {
    forall|i: int|
        0 <= i < trace.len() ==> ((#[trigger] trace[i]) matches Piece::Banner {
            name,
            line,
            ..
        } ==> banner_shows(line, name, paint))
}

/// The banner at the end of `trace` is the banner line of a file named
/// `name`.
pub open spec fn ends_with_banner_of(
    trace: Seq<Piece>,
    name: Seq<char>,
    paint: Option<Seq<char>>,
) -> bool {
    &&& trace.len() > 0
    &&& trace.last() matches Piece::Banner { name: n, line, .. }
    &&& n == name
    &&& banner_shows(line, name, paint)
}

/// `after` is `before` and then what makes the file keyed by `path` the
/// selected one: nothing if it was selected, and else the separator and the
/// file's banner.
pub open spec fn then_selected(
    before: Seq<Piece>,
    after: Seq<Piece>,
    selected: Option<Seq<char>>,
    files: Map<Seq<char>, CachedTailState>,
    path: Seq<char>,
) -> bool {
    if selected == Some(path) {
        after == before
    } else {
        then_banner(before, after, selected, files, path)
    }
}

impl<T: Reader, C: PathProbe<T>, W: Sink> DirectoryWatcher<T, C, W> {
    /// The followed files by path.
    pub closed spec fn files(&self) -> Map<Seq<char>, CachedTailState> {
        self.file_map@
    }

    /// The renames of which one half was seen, by cookie: the state of the
    /// file that left, or `None` where no followed file left.
    pub closed spec fn renaming(&self) -> Map<u32, Option<CachedTailState>> {
        self.renaming_map@
    }

    /// The file under whose banner the output stands.
    pub closed spec fn selected(&self) -> Option<Seq<char>> {
        path_of(self.selected_file_path)
    }

    /// Everything written so far, piece by piece.
    pub closed spec fn trace(&self) -> Seq<Piece> {
        self.trace@
    }

    /// What the sink held when the watcher was made.
    pub closed spec fn origin(&self) -> Seq<u8> {
        self.origin@
    }

    /// The sink.
    pub closed spec fn sink(&self) -> W {
        self.writer
    }

    /// Whether the sink states what it holds. Of such a sink the watcher
    /// knows what it holds.
    pub open spec fn sink_vouched(&self) -> bool {
        self.sink().modeled()
    }

    /// Whether the sink states what it holds and is known never to fail.
    pub open spec fn sink_sure(&self) -> bool {
        self.sink().modeled() && self.sink().infallible()
    }

    /// What the pool's creator states of the files.
    pub open spec fn disk(&self) -> Map<Seq<char>, Backed> {
        files_of(self.pool().opener())
    }

    /// The pool of open readers.
    pub closed spec fn pool(&self) -> FileRepository<T, C>
        recommends
            self.wf(),
    {
        self.repository->0
    }

    /// The filter that the watcher was made with: it tells which files are
    /// followed.
    pub closed spec fn sieve(&self) -> PathFilter {
        self.filter
    }

    /// Whether banners are coloured.
    pub closed spec fn colors(&self) -> bool {
        self.colorize
    }

    /// How banners are painted: plain, or in colour around what the pattern
    /// of the filter matches.
    pub open spec fn paint(&self) -> Option<Seq<char>> {
        if self.colors() {
            Some(self.sieve().pattern())
        } else {
            None
        }
    }

    /// The platform that the watcher was made for.
    pub closed spec fn runs_on(&self) -> Platform {
        self.platform
    }

    /// The directory from which paths are seen in banners.
    pub closed spec fn seen_from(&self) -> Option<Seq<char>> {
        path_of(self.current_dir)
    }

    /// Whether the banner at the end of `trace` is one that this watcher
    /// writes for the file keyed by `path`: the banner line of a file named
    /// by some name, which is `path` itself where paths are seen from no
    /// directory.
    pub open spec fn shown_banner(&self, trace: Seq<Piece>, path: Seq<char>) -> bool {
        exists|name: Seq<char>| #[trigger]
            ends_with_banner_of(trace, name, self.paint()) && (self.seen_from() is None ==> name
                == path)
    }

    /// The part of the invariant that holds in the middle of a change of
    /// selection too: the maps are sound, banners frame the content written,
    /// and a modeled sink holds what it held at first and then the trace.
    spec fn base_ok(&self) -> bool {
        &&& self.file_map.wf()
        &&& self.repository matches Some(repo) && repo.wf()
        &&& framed(self.trace@)
        &&& banners_sound(self.trace@, self.paint())
        &&& last_content(self.trace@) is Some && gap(self.trace@).len() > 0 ==> gap(self.trace@)[0]
            == NEWLINE
        &&& self.writer.modeled() ==> self.writer.emitted() == self.origin@ + flatten(self.trace@)
    }

    /// The watcher's invariant. Besides the soundness of its maps and pool:
    /// banners frame the content written so far; content of the selected
    /// file may follow what is written; with no file selected, content was
    /// never written or the output ends with a line terminator; and a modeled
    /// sink holds what it held at first and then the trace.
    pub closed spec fn wf(&self) -> bool {
        &&& self.base_ok()
        &&& match self.selected_file_path {
            Some(p) => may_follow(self.trace@, p@),
            None => last_content(self.trace@) is None || (self.trace@.len() > 0
                && self.trace@.last() is Newline),
        }
    }

    /// True when nothing but the output differs between `self` and `after`.
    spec fn only_wrote(&self, after: &Self) -> bool {
        &&& after.filter == self.filter
        &&& after.current_dir == self.current_dir
        &&& after.selected_file_path == self.selected_file_path
        &&& after.file_map == self.file_map
        &&& after.renaming_map == self.renaming_map
        &&& after.repository == self.repository
        &&& after.colorize == self.colorize
        &&& after.platform == self.platform
        &&& after.origin == self.origin
        &&& after.writer.modeled() == self.writer.modeled()
        &&& self.writer.modeled() ==> after.writer.infallible() == self.writer.infallible()
    }

    /// A modeled sink holds what it held when the watcher was made and then
    /// the bytes of the trace, and banners frame the content in the trace.
    pub proof fn lemma_banners_frame_content(&self)
        requires
            self.wf(),
        ensures
            framed(self.trace()),
            banners_sound(self.trace(), self.paint()),
            self.sink().modeled() ==> self.sink().emitted() == self.origin() + flatten(self.trace()),
    {
    }

    /// Between any two successive bytes of content that belong to different
    /// files stands the banner of the second file on a line of its own. Let
    /// the piece at `j` carry content of one file, and let the content
    /// before it end with a byte of another file. Then the bytes between
    /// the two begin with a line terminator, and they end with a line
    /// terminator and the banner line that announces the file of the piece
    /// at `j`.
    pub proof fn lemma_content_is_announced(&self, j: int)
        requires
            self.wf(),
            0 <= j < self.trace().len(),
            carries_content(self.trace()[j]),
            last_content(self.trace().take(j)) is Some,
            last_content(self.trace().take(j)) != Some(self.trace()[j]->Content_path),
        ensures
            ({
                let before = self.trace().take(j);
                let between = gap(before);
                &&& between.len() > 0
                &&& between[0] == NEWLINE
                &&& before.last() matches Piece::Banner { path, name, line }
                &&& path == self.trace()[j]->Content_path
                &&& banner_shows(line, name, self.paint())
                &&& between == gap(before.drop_last().drop_last()) + seq![NEWLINE] + line
            }),
    {
        let before = self.trace().take(j);
        lemma_framed_at(self.trace(), j);
        lemma_announced_gap(before, self.trace()[j]->Content_path);
    }

    /// A watcher that follows nothing yet and has written nothing. It is
    /// made where the path to watch is a directory and the pattern of the
    /// filter compiles.
    pub fn new(
        opt: &Opt,
        watch_path_is_dir: bool,
        current_dir: Option<String>,
        platform: Platform,
        creator: C,
        writer: W,
    ) -> (r: Result<Self, SetupError>)
        ensures
            r is Ok <==> watch_path_is_dir && regex_compiles(asked_pattern(opt)),
            r matches Err(e) ==> (e is NotADirectory <==> !watch_path_is_dir),
            r matches Ok(watcher) ==> {
                &&& watcher.wf()
                &&& watcher.sieve().pattern() == asked_pattern(opt)
                &&& watcher.files() == Map::<Seq<char>, CachedTailState>::empty()
                &&& watcher.renaming() == Map::<u32, Option<CachedTailState>>::empty()
                &&& watcher.selected() is None
                &&& watcher.trace() == Seq::<Piece>::empty()
                &&& watcher.sink() == writer
                &&& watcher.origin() == writer.emitted()
                &&& watcher.colors() == opt.colorize
                &&& watcher.sieve().keeps_binary_out() == !opt.show_binary
                &&& watcher.seen_from() == path_of(current_dir)
                &&& watcher.runs_on() == platform
                &&& watcher.pool().opener() == creator
                &&& watcher.pool().entries().len() == 0
            },
    {
        if !watch_path_is_dir {
            return Err(SetupError::NotADirectory);
        }
        let filter: PathFilter = match PathFilter::new(opt) {
            Ok(filter) => filter,
            Err(e) => {
                return Err(SetupError::Filter(e));
            },
        };
        let ghost origin = writer.emitted();
        let watcher = DirectoryWatcher {
            filter,
            current_dir,
            selected_file_path: None,
            file_map: PathMap::new(),
            renaming_map: HashMap::new(),
            repository: Some(FileRepository::new(creator)),
            colorize: opt.colorize,
            platform,
            writer,
            origin: Ghost(origin),
            trace: Ghost(Seq::empty()),
        };
        Ok(watcher)
    }

    /// The sink, to look at what was written.
    pub fn writer(&self) -> (w: &W)
        ensures
            *w == self.sink(),
    {
        &self.writer
    }

    /// The filter that tells which files are followed.
    pub fn filter(&self) -> (f: &PathFilter)
        ensures
            *f == self.sieve(),
    {
        &self.filter
    }

    /// Whether the file keyed by `path` is followed.
    pub fn is_followed(&self, path: &String) -> (b: bool)
        requires
            self.wf(),
        ensures
            b == self.files().contains_key(path@),
    {
        self.file_map.contains_key(path)
    }

    /// The cursor of the file keyed by `path`, if it is followed.
    pub fn offset_of(&self, path: &String) -> (r: Option<u64>)
        requires
            self.wf(),
        ensures
            match r {
                Some(offset) => self.files().contains_key(path@) && offset == self.files()[path@]@.offset,
                None => !self.files().contains_key(path@),
            },
    {
        match self.file_map.get(path) {
            Some(state) => Some(state.current_seek()),
            None => None,
        }
    }

    /// The path of the selected file.
    pub fn selected_file(&self) -> (r: &Option<String>)
        ensures
            path_of(*r) == self.selected(),
    {
        &self.selected_file_path
    }

    /// Whether a rename with `cookie` is in flight, and if so, whether a
    /// followed file left with it.
    pub fn rename_in_flight(&self, cookie: u32) -> (r: Option<bool>)
        ensures
            match r {
                Some(left) => self.renaming().contains_key(cookie) && left
                    == self.renaming()[cookie] is Some,
                None => !self.renaming().contains_key(cookie),
            },
    {
        match self.renaming_map.get(&cookie) {
            Some(state) => Some(state.is_some()),
            None => None,
        }
    }

    /// How many readers the pool holds open: never more than
    /// `MAX_FILE_HANDLE`.
    pub fn open_readers(&self) -> (n: usize)
        requires
            self.wf(),
        ensures
            n == self.pool().entries().len(),
            n <= MAX_FILE_HANDLE,
    {
        match &self.repository {
            Some(repo) => repo.open_count(),
            None => 0,
        }
    }

    /// Writes a line terminator.
    fn emit_newline(&mut self) -> (r: Result<(), IoError>)
        requires
            old(self).base_ok(),
        ensures
            old(self).only_wrote(final(self)),
            old(self).sink_sure() ==> r is Ok,
            r is Ok ==> final(self).base_ok() && final(self).trace@ == old(self).trace@.push(
                Piece::Newline,
            ),
    {
        let mut line: Vec<u8> = Vec::new();
        line.push(NEWLINE);
        assert(line@ =~= seq![NEWLINE]);
        let ghost before = self.writer.emitted();
        match self.writer.write(line.as_slice()) {
            Ok(_) => {},
            Err(e) => {
                return Err(e);
            },
        }
        match self.writer.flush() {
            Ok(_) => {},
            Err(e) => {
                return Err(e);
            },
        }
        proof {
            lemma_push_newline(self.trace@);
            if self.writer.modeled() {
                assert(before + line@ =~= self.origin@ + (flatten(self.trace@) + line@));
            }
            self.trace@ = self.trace@.push(Piece::Newline);
        }
        Ok(())
    }

    /// Writes the banner of the file keyed by `path` and shown as `name`.
    fn emit_banner(&mut self, Ghost(path): Ghost<Seq<char>>, name: &str) -> (r: Result<
        (),
        IoError,
    >)
        requires
            old(self).base_ok(),
            last_content(old(self).trace@) is None || gap(old(self).trace@).len() > 0,
        ensures
            old(self).only_wrote(final(self)),
            old(self).sink_sure() ==> r is Ok,
            r is Ok ==> {
                &&& final(self).base_ok()
                &&& final(self).trace@.len() == old(self).trace@.len() + 1
                &&& final(self).trace@.drop_last() == old(self).trace@
                &&& final(self).trace@.last() matches Piece::Banner { path: p, .. }
                &&& p == path
                &&& ends_with_banner_of(final(self).trace@, name@, old(self).paint())
            },
    {
        let shown: &str = display_path(name);
        let line: Vec<u8> = if self.colorize {
            self.filter.colored_banner(shown)
        } else {
            banner_line(shown)
        };
        let ghost before = self.writer.emitted();
        match self.writer.write(line.as_slice()) {
            Ok(_) => {},
            Err(e) => {
                return Err(e);
            },
        }
        match self.writer.flush() {
            Ok(_) => {},
            Err(e) => {
                return Err(e);
            },
        }
        proof {
            lemma_push_banner(self.trace@, path, name@, line@);
            if self.writer.modeled() {
                assert(before + line@ =~= self.origin@ + (flatten(self.trace@) + line@));
            }
            let ghost earlier = self.trace@;
            self.trace@ = self.trace@.push(Piece::Banner { path, name: name@, line: line@ });
            assert(self.trace@.drop_last() =~= earlier);
        }
        Ok(())
    }

    /// Writes the separator: before the first banner, and after the selected
    /// file was let go, nothing; else a line terminator if the selected file
    /// is followed and its output did not end with one, and an empty line.
    fn emit_separator(&mut self) -> (r: Result<(), IoError>)
        requires
            old(self).wf(),
        ensures
            old(self).only_wrote(final(self)),
            old(self).sink_sure() ==> r is Ok,
            r is Ok ==> {
                &&& final(self).base_ok()
                &&& final(self).trace@ == old(self).trace@ + separator(
                    old(self).selected(),
                    old(self).files(),
                )
                &&& last_content(final(self).trace@) is None || (final(self).trace@.len() > 0
                    && final(self).trace@.last() is Newline)
            },
    {
        let ghost start = self.trace@;
        let ghost sep = separator(self.selected(), self.files());
        let selected: bool = self.selected_file_path.is_some();
        let unfinished: bool = match &self.selected_file_path {
            Some(selected_file_path) => match self.file_map.get(selected_file_path) {
                Some(selected_file) => !selected_file.printed_eol(),
                None => false,
            },
            None => false,
        };
        if unfinished {
            match self.emit_newline() {
                Ok(_) => {},
                Err(e) => {
                    return Err(e);
                },
            }
        }
        if selected {
            match self.emit_newline() {
                Ok(_) => {},
                Err(e) => {
                    return Err(e);
                },
            }
        }
        proof {
            assert(self.trace@ =~= start + sep);
        }
        Ok(())
    }

    /// Writes the banner of the file keyed by `path`, shown as `name`, behind
    /// a separator that was just written.
    fn emit_banner_after_separator(&mut self, Ghost(path): Ghost<Seq<char>>, name: &str) -> (r:
        Result<(), IoError>)
        requires
            old(self).base_ok(),
            last_content(old(self).trace@) is None || (old(self).trace@.len() > 0 && old(
                self,
            ).trace@.last() is Newline),
        ensures
            old(self).only_wrote(final(self)),
            old(self).sink_sure() ==> r is Ok,
            r is Ok ==> {
                &&& final(self).base_ok()
                &&& may_follow(final(self).trace@, path)
                &&& final(self).trace@.len() > 0
                &&& final(self).trace@.drop_last() == old(self).trace@
                &&& final(self).trace@.last() matches Piece::Banner { path: p, .. }
                &&& p == path
                &&& ends_with_banner_of(final(self).trace@, name@, old(self).paint())
            },
    {
        let ghost start = self.trace@;
        let r = self.emit_banner(Ghost(path), name);
        proof {
            if r is Ok {
                lemma_push_banner(
                    start,
                    path,
                    self.trace@.last()->Banner_name,
                    self.trace@.last()->Banner_line,
                );
            }
        }
        r
    }

    /// Writes what tells the output of the file keyed by `path` from what
    /// came before: the separator and the file's banner. The banner shows
    /// the path as seen from the current directory where it can be written
    /// so, and the path itself otherwise.
    fn print_file_path(&mut self, path: &String) -> (r: Result<(), IoError>)
        requires
            old(self).wf(),
        ensures
            old(self).only_wrote(final(self)),
            old(self).sink_sure() ==> r is Ok,
            r is Ok ==> {
                &&& final(self).base_ok()
                &&& may_follow(final(self).trace@, path@)
                &&& then_banner(
                    old(self).trace@,
                    final(self).trace@,
                    old(self).selected(),
                    old(self).files(),
                    path@,
                )
                &&& old(self).shown_banner(final(self).trace@, path@)
            },
    {
        match self.emit_separator() {
            Ok(_) => {},
            Err(e) => {
                return Err(e);
            },
        }
        let relative: Option<String> = match &self.current_dir {
            Some(current_dir) => diff_paths(path, current_dir),
            None => None,
        };
        match &relative {
            Some(relative_path) => {
                let r = self.emit_banner_after_separator(Ghost(path@), relative_path.as_str());
                proof {
                    if r is Ok {
                        assert(ends_with_banner_of(self.trace@, relative_path@, old(self).paint()));
                    }
                }
                r
            },
            None => {
                let r = self.emit_banner_after_separator(Ghost(path@), path.as_str());
                proof {
                    if r is Ok {
                        assert(ends_with_banner_of(self.trace@, path@, old(self).paint()));
                    }
                }
                r
            },
        }
    }

    /// Lets the file keyed by `path` go if it is the selected one: its
    /// output is closed with a line terminator where it lacks one, an empty
    /// line follows, and no file is selected. `eol` tells whether the file's
    /// output ended with a line terminator.
    fn unsubscribe_select_file(&mut self, path: &String, eol: bool) -> (r: Result<(), IoError>)
        requires
            old(self).wf(),
        ensures
            final(self).filter == old(self).filter,
            final(self).current_dir == old(self).current_dir,
            final(self).file_map == old(self).file_map,
            final(self).renaming_map == old(self).renaming_map,
            final(self).repository == old(self).repository,
            final(self).colorize == old(self).colorize,
            final(self).platform == old(self).platform,
            final(self).origin == old(self).origin,
            final(self).writer.modeled() == old(self).writer.modeled(),
            old(self).writer.modeled() ==> final(self).writer.infallible() == old(
                self,
            ).writer.infallible(),
            old(self).sink_sure() || old(self).selected() != Some(path@) ==> r is Ok,
            r is Ok ==> {
                &&& final(self).wf()
                &&& if old(self).selected() == Some(path@) {
                    &&& final(self).selected() is None
                    &&& final(self).trace@ == old(self).trace@ + parting(eol)
                } else {
                    &&& final(self).selected() == old(self).selected()
                    &&& final(self).trace@ == old(self).trace@
                }
            },
    {
        let hit: bool = match &self.selected_file_path {
            Some(selected_file_path) => *selected_file_path == *path,
            None => false,
        };
        if hit {
            let ghost start = self.trace@;
            if !eol {
                match self.emit_newline() {
                    Ok(_) => {},
                    Err(e) => {
                        return Err(e);
                    },
                }
            }
            match self.emit_newline() {
                Ok(_) => {},
                Err(e) => {
                    return Err(e);
                },
            }
            self.selected_file_path = None;
            proof {
                assert(self.trace@ =~= start + parting(eol));
            }
        }
        Ok(())
    }

    /// Makes the file keyed by `path` the selected one. Where another file
    /// or none was selected, the separator and the banner are written first.
    fn change_selected_file(&mut self, path: &String) -> (r: Result<(), IoError>)
        requires
            old(self).wf(),
        ensures
            final(self).filter == old(self).filter,
            final(self).current_dir == old(self).current_dir,
            final(self).file_map == old(self).file_map,
            final(self).renaming_map == old(self).renaming_map,
            final(self).repository == old(self).repository,
            final(self).colorize == old(self).colorize,
            final(self).platform == old(self).platform,
            final(self).origin == old(self).origin,
            final(self).writer.modeled() == old(self).writer.modeled(),
            old(self).writer.modeled() ==> final(self).writer.infallible() == old(
                self,
            ).writer.infallible(),
            old(self).sink_sure() || old(self).selected() == Some(path@) ==> r is Ok,
            r is Ok ==> {
                &&& final(self).wf()
                &&& final(self).selected() == Some(path@)
                &&& then_selected(
                    old(self).trace@,
                    final(self).trace@,
                    old(self).selected(),
                    old(self).files(),
                    path@,
                )
                &&& old(self).selected() != Some(path@) ==> old(self).shown_banner(
                    final(self).trace@,
                    path@,
                )
            },
    {
        let same: bool = match &self.selected_file_path {
            Some(last_path) => *last_path == *path,
            None => false,
        };
        if !same {
            match self.print_file_path(path) {
                Ok(_) => {},
                Err(e) => {
                    return Err(e);
                },
            }
            self.selected_file_path = Some(path.clone());
        }
        Ok(())
    }

    /// True when the settings of `self` are those of `after` and its sink is
    /// vouched for as before.
    pub open spec fn same_settings(&self, after: &Self) -> bool {
        &&& after.sieve() == self.sieve()
        &&& after.colors() == self.colors()
        &&& after.seen_from() == self.seen_from()
        &&& after.runs_on() == self.runs_on()
        &&& after.origin() == self.origin()
        &&& after.sink_vouched() == self.sink_vouched()
        &&& after.sink_sure() == self.sink_sure()
        &&& after.pool().opener().modeled() == self.pool().opener().modeled()
        &&& after.disk() == self.disk()
    }

    /// True when `after` follows the same files in the same states, has the
    /// same renames in flight, the same file selected and the same readers
    /// open, and has written nothing beyond what `self` had.
    pub open spec fn unchanged(&self, after: &Self) -> bool {
        &&& after.files() == self.files()
        &&& after.renaming() == self.renaming()
        &&& after.selected() == self.selected()
        &&& after.trace() == self.trace()
        &&& after.pool().entries() == self.pool().entries()
    }

    /// Whether the file keyed by `path` is followed and is the selected one,
    /// so that its parting line terminators are written when it leaves.
    pub open spec fn lets_go(&self, path: Seq<char>) -> bool {
        self.files().contains_key(path) && self.selected() == Some(path)
    }

    /// Whether a rename event for `path` writes something: it has a fresh
    /// cookie, and the file that leaves under `path` is the selected one.
    pub open spec fn rename_writes(&self, path: Seq<char>, cookie: Option<u32>) -> bool {
        cookie matches Some(c) && !self.renaming().contains_key(c) && self.lets_go(path)
    }

    /// What a remove event for `path` has done when it ends well: the file
    /// is followed no longer and no reader is open for its path, and if it
    /// was the selected one it was let go. The other open readers stand as
    /// they stood; for a path that was not followed nothing has changed.
    pub open spec fn remove_applied(&self, after: &Self, path: Seq<char>) -> bool {
        &&& after.files() == self.files().remove(path)
        &&& after.renaming() == self.renaming()
        &&& self.files().contains_key(path) ==> key_absent(after.pool().entries(), path)
        &&& if self.files().contains_key(path) {
            entry_dropped(self.pool().entries(), after.pool().entries(), path)
        } else {
            after.pool().entries() == self.pool().entries()
        }
        &&& if self.files().contains_key(path) && self.selected() == Some(path) {
            &&& after.selected() is None
            &&& after.trace() == self.trace() + parting(self.files()[path]@.eol)
        } else {
            &&& after.selected() == self.selected()
            &&& after.trace() == self.trace()
        }
    }

    /// A remove event for `path`: a followed file is followed no longer and
    /// its reader is closed; if it was the selected one it is let go.
    pub fn handle_remove(&mut self, path: &String) -> (r: Result<(), IoError>)
        requires
            old(self).wf(),
        ensures
            old(self).same_settings(final(self)),
            old(self).sink_sure() || !old(self).lets_go(path@) ==> r is Ok,
            r is Ok ==> final(self).wf() && old(self).remove_applied(final(self), path@),
    {
        match self.file_map.remove(path) {
            Some(reader) => {
                let mut repo = self.repository.take().unwrap();
                repo.drop_path(path);
                self.repository = Some(repo);
                self.unsubscribe_select_file(path, reader.printed_eol())
            },
            None => {
                Ok(())
            },
        }
    }

    /// What a rename event does to the followed files. With the cookie of a
    /// rename whose other half was seen, the file that left comes back under
    /// `path` if that path matches the filter. With a fresh cookie, a file
    /// followed under `path` leaves.
    pub open spec fn files_after_rename(
        files: Map<Seq<char>, CachedTailState>,
        renaming: Map<u32, Option<CachedTailState>>,
        path: Seq<char>,
        cookie: u32,
        matched: bool,
    ) -> Map<Seq<char>, CachedTailState> {
        if renaming.contains_key(cookie) {
            match renaming[cookie] {
                Some(state) => if matched {
                    files.insert(path, state)
                } else {
                    files
                },
                None => files,
            }
        } else {
            files.remove(path)
        }
    }

    /// What a rename event does to the renames in flight. A cookie whose
    /// other half was seen is consumed. A fresh cookie is noted with the
    /// state of the file that left, or with `None` where none did.
    pub open spec fn renaming_after_rename(
        files: Map<Seq<char>, CachedTailState>,
        renaming: Map<u32, Option<CachedTailState>>,
        path: Seq<char>,
        cookie: u32,
    ) -> Map<u32, Option<CachedTailState>> {
        if renaming.contains_key(cookie) {
            renaming.remove(cookie)
        } else if files.contains_key(path) {
            renaming.insert(cookie, Some(files[path]))
        } else {
            renaming.insert(cookie, None)
        }
    }

    /// What a rename event for `path` has done when it ends well, given
    /// whether `path` matches the filter. Without a cookie nothing has
    /// happened. With one, the followed files and the renames in flight are
    /// as `files_after_rename` and `renaming_after_rename` say, and a
    /// selected file that left with a fresh cookie was let go.
    pub open spec fn rename_applied(
        &self,
        after: &Self,
        path: Seq<char>,
        cookie: Option<u32>,
        matched: bool,
    ) -> bool {
        match cookie {
            Some(c) => {
                &&& after.files() == Self::files_after_rename(
                    self.files(),
                    self.renaming(),
                    path,
                    c,
                    matched,
                )
                &&& after.renaming() == Self::renaming_after_rename(
                    self.files(),
                    self.renaming(),
                    path,
                    c,
                )
                &&& after.pool().entries() == self.pool().entries()
                &&& if !self.renaming().contains_key(c) && self.files().contains_key(path)
                    && self.selected() == Some(path) {
                    &&& after.selected() is None
                    &&& after.trace() == self.trace() + parting(self.files()[path]@.eol)
                } else {
                    &&& after.selected() == self.selected()
                    &&& after.trace() == self.trace()
                }
            },
            None => self.unchanged(after),
        }
    }

    /// What a rename event for `path` has done when it ends well: what
    /// `rename_applied` says, with the filter's answer about `path`.
    pub open spec fn rename_handled(&self, after: &Self, path: Seq<char>, cookie: Option<u32>) -> bool {
        self.rename_applied(after, path, cookie, self.sieve().matches(path))
    }

    /// A rename event for `path`, given whether `path` matches the filter.
    /// Without a cookie nothing happens.
    pub fn apply_rename(&mut self, path: String, cookie: Option<u32>, matched: bool) -> (r: Result<
        (),
        IoError,
    >)
        requires
            old(self).wf(),
        ensures
            old(self).same_settings(final(self)),
            old(self).sink_sure() || !old(self).rename_writes(path@, cookie) ==> r is Ok,
            r is Ok ==> final(self).wf() && old(self).rename_applied(
                final(self),
                path@,
                cookie,
                matched,
            ),
    {
        let c: u32 = match cookie {
            Some(c) => c,
            None => {
                return Ok(());
            },
        };
        let r = match self.renaming_map.remove(&c) {
            Some(file) => {
                match file {
                    Some(file) => {
                        if matched {
                            self.file_map.insert(path, file);
                        }
                    },
                    None => {},
                }
                Ok(())
            },
            None => {
                match self.file_map.remove(&path) {
                    Some(file) => {
                        let eol: bool = file.printed_eol();
                        self.renaming_map.insert(c, Some(file));
                        self.unsubscribe_select_file(&path, eol)
                    },
                    None => {
                        self.renaming_map.insert(c, None);
                        Ok(())
                    },
                }
            },
        };
        proof {
            if r is Ok {
                assert(self.renaming() =~= Self::renaming_after_rename(
                    old(self).files(),
                    old(self).renaming(),
                    path@,
                    c,
                ));
            }
        }
        r
    }

    /// A rename event for `path`. The filter is asked about `path` where the
    /// answer matters: when a file that left comes back under it.
    pub fn handle_rename(&mut self, path: String, cookie: Option<u32>) -> (r: Result<(), IoError>)
        requires
            old(self).wf(),
        ensures
            old(self).same_settings(final(self)),
            old(self).sink_sure() || !old(self).rename_writes(path@, cookie) ==> r is Ok,
            r is Ok ==> final(self).wf() && old(self).rename_handled(final(self), path@, cookie),
    {
        let comes_back: bool = match cookie {
            Some(cookie) => match self.renaming_map.get(&cookie) {
                Some(file) => file.is_some(),
                None => false,
            },
            None => false,
        };
        let matched: bool = if comes_back {
            self.filter.match_path(path.as_str())
        } else {
            false
        };
        self.apply_rename(path, cookie, matched)
    }

    /// Whether both the creator and the sink state what they hold, so that
    /// what is read and written is known byte for byte.
    pub open spec fn exact(&self) -> bool {
        self.sink_vouched() && self.pool().opener().modeled()
    }

    /// Pours what the file keyed by `key` has beyond its cursor into the
    /// sink, after looking for truncation where `shrink` says so. Gives the
    /// file's new state back.
    fn pour(&mut self, key: &String, state: CachedTailState, shrink: bool) -> (out: (
        CachedTailState,
        Result<(), IoError>,
    ))
        requires
            old(self).base_ok(),
            may_follow(old(self).trace@, key@),
        ensures
            final(self).filter == old(self).filter,
            final(self).current_dir == old(self).current_dir,
            final(self).selected_file_path == old(self).selected_file_path,
            final(self).file_map == old(self).file_map,
            final(self).renaming_map == old(self).renaming_map,
            final(self).colorize == old(self).colorize,
            final(self).platform == old(self).platform,
            final(self).origin == old(self).origin,
            final(self).writer.modeled() == old(self).writer.modeled(),
            old(self).writer.modeled() ==> final(self).writer.infallible() == old(
                self,
            ).writer.infallible(),
            final(self).repository is Some,
            final(self).repository->0.opener().modeled() == old(
                self,
            ).repository->0.opener().modeled(),
            files_of(final(self).repository->0.opener()) == files_of(
                old(self).repository->0.opener(),
            ),
            final(self).base_ok(),
            may_follow(final(self).trace@, key@),
            old(self).exact() && old(self).sink().infallible() && old(
                self,
            ).disk()[state@.path].dependable ==> out.1 is Ok,
            out.0@.path == state@.path,
            exists|chunk: Seq<u8>|
                {
                    &&& then_content(old(self).trace@, final(self).trace@, key@, chunk)
                    &&& old(self).exact() && out.1 is Ok ==> chunk == poured_bytes(
                        old(self).pool().opener().contents(state@.path),
                        state@.offset,
                        shrink,
                    )
                },
            old(self).exact() && out.1 is Ok ==> out.0@ == poured_view(
                old(self).pool().opener().contents(state@.path),
                state@,
                shrink,
            ),
    {
        let repo = self.repository.take().unwrap();
        let ghost opener = repo.opener();
        let ghost before = self.writer.emitted();
        let ghost start = self.trace@;
        let (mut reader, mut eol) = TransparentReader::resume(state, repo);
        proof {
            reader.lemma_shows_contents();
        }
        let shrunk = if shrink {
            let offset: u64 = reader.seek_pos();
            handle_shrink(&mut reader, offset)
        } else {
            Ok(false)
        };
        let r = match shrunk {
            Ok(_) => match dump_to_tail(&mut reader, &mut self.writer, &mut eol) {
                Ok(_) => Ok(()),
                Err(e) => Err(e),
            },
            Err(e) => Err(e),
        };
        proof {
            reader.lemma_shows_contents();
        }
        let (state, repo) = reader.release(eol);
        assert(files_of(repo.opener()) == files_of(opener));
        self.repository = Some(repo);
        proof {
            let chunk = if self.writer.modeled() {
                self.writer.emitted().skip(before.len() as int)
            } else {
                Seq::empty()
            };
            if self.writer.modeled() {
                assert(self.writer.emitted() =~= before + chunk);
                assert(before + chunk =~= self.origin@ + (flatten(start) + chunk));
            }
            if chunk.len() > 0 {
                lemma_push_content(start, key@, chunk);
                self.trace@ = start.push(Piece::Content { path: key@, bytes: chunk });
            }
            assert(then_content(start, self.trace@, key@, chunk));
        }
        (state, r)
    }

    /// What a write event for a matching `path` has done when it ends well,
    /// given whether the path names something.
    ///
    /// The file keyed by `path` is the selected one: unless it was, the
    /// separator and its banner were written. Then what a followed file has
    /// beyond its cursor was written, from the first byte if the file had
    /// become shorter than its cursor. A file not followed yet is followed
    /// from now on and was written from its first byte, if the path names
    /// something and could be opened; if not, nothing more has happened. A
    /// file that the creator calls dependable could be opened, and one for
    /// which a reader had to be opened could be opened exactly where the
    /// creator says that it opens.
    pub open spec fn write_applied(&self, after: &Self, path: Seq<char>, there: bool) -> bool {
        let known = self.files().contains_key(path);
        let read = after.files().contains_key(path);
        let before = if known {
            self.files()[path]@
        } else {
            FileView { path, offset: 0, eol: false }
        };
        &&& after.renaming() == self.renaming()
        &&& after.selected() == Some(path)
        &&& read ==> known || there
        &&& known ==> read
        &&& there && self.pool().opener().modeled() && self.disk()[path].dependable ==> read
        &&& !known && there && self.pool().opener().modeled() && key_absent(
            self.pool().entries(),
            path,
        ) ==> (read <==> self.disk()[path].opens)
        &&& exists|mid: Seq<Piece>, chunk: Seq<u8>|
            {
                &&& then_selected(self.trace(), mid, self.selected(), self.files(), path)
                &&& self.selected() != Some(path) ==> self.shown_banner(mid, path)
                &&& then_content(mid, after.trace(), path, chunk)
                &&& read && self.exact() ==> chunk == poured_bytes(
                    self.disk()[before.path].bytes,
                    before.offset,
                    known,
                )
                &&& !read ==> chunk.len() == 0
            }
        &&& if read {
            &&& after.files() == self.files().insert(path, after.files()[path])
            &&& after.files()[path]@.path == before.path
            &&& self.exact() ==> after.files()[path]@ == poured_view(
                self.disk()[before.path].bytes,
                before,
                known,
            )
        } else {
            after.files() == self.files()
        }
    }

    /// Whether a write event for a matching `path` is known to end well.
    /// Where a file is read: the sink never fails, and the creator states
    /// what it holds and that opening and reading the file never fails. A
    /// file that is not followed yet, and that names nothing or is known not
    /// to open, is passed over: that ends well where the sink never fails or
    /// the file is the selected one already, so that nothing is written.
    pub open spec fn write_is_sure(&self, path: Seq<char>, there: bool) -> bool {
        if self.files().contains_key(path) {
            &&& self.sink_sure()
            &&& self.pool().opener().modeled()
            &&& self.disk()[self.files()[path]@.path].dependable
        } else if there && !self.opening_fails(path) {
            &&& self.sink_sure()
            &&& self.pool().opener().modeled()
            &&& self.disk()[path].dependable
        } else {
            self.sink_sure() || self.selected() == Some(path)
        }
    }

    /// A write event for a `path` that matches the filter, given whether the
    /// path names something. A file that is not followed yet and cannot be
    /// opened is passed over; any other failure is handed back.
    pub fn apply_write(&mut self, path: String, there: bool) -> (r: Result<(), IoError>)
        requires
            old(self).wf(),
        ensures
            old(self).same_settings(final(self)),
            old(self).write_is_sure(path@, there) ==> r is Ok,
            r is Ok ==> final(self).wf() && old(self).write_applied(final(self), path@, there),
    {
        match self.change_selected_file(&path) {
            Ok(_) => {},
            Err(e) => {
                return Err(e);
            },
        }
        let ghost mid = self.trace@;
        match self.file_map.remove(&path) {
            Some(reader) => {
                let ghost before = reader@;
                let (reader, r) = self.pour(&path, reader, true);
                self.file_map.insert(path, reader);
                proof {
                    assert(self.file_map@ =~= old(self).file_map@.insert(path@, reader));
                    let chunk = choose|chunk: Seq<u8>|
                        {
                            &&& then_content(mid, self.trace@, path@, chunk)
                            &&& old(self).exact() && r is Ok ==> chunk == poured_bytes(
                                old(self).pool().opener().contents(before.path),
                                before.offset,
                                true,
                            )
                        };
                    assert(then_selected(
                        old(self).trace(),
                        mid,
                        old(self).selected(),
                        old(self).files(),
                        path@,
                    ));
                    assert(then_content(mid, self.trace(), path@, chunk));
                }
                r
            },
            None => {
                assert(self.file_map@ =~= old(self).file_map@);
                if !there {
                    proof {
                        assert(then_content(mid, self.trace(), path@, Seq::<u8>::empty()));
                    }
                    return Ok(());
                }
                let mut repo = self.repository.take().unwrap();
                let opened = repo.acquire(&path, None);
                self.repository = Some(repo);
                let place = match opened {
                    Ok((_, place)) => place,
                    Err(_) => {
                        proof {
                            assert(then_content(mid, self.trace(), path@, Seq::<u8>::empty()));
                        }
                        return Ok(());
                    },
                };
                let reader = CachedTailState::from_place(path.clone(), place);
                let ghost before = reader@;
                let (reader, r) = self.pour(&path, reader, false);
                match r {
                    Ok(_) => {
                        self.file_map.insert(path, reader);
                        proof {
                            let chunk = choose|chunk: Seq<u8>|
                                {
                                    &&& then_content(mid, self.trace@, path@, chunk)
                                    &&& old(self).exact() && r is Ok ==> chunk == poured_bytes(
                                        old(self).pool().opener().contents(before.path),
                                        before.offset,
                                        false,
                                    )
                                };
                            assert(then_content(mid, self.trace(), path@, chunk));
                        }
                        Ok(())
                    },
                    Err(e) => Err(e),
                }
            },
        }
    }

    /// Whether `path` is taken to name something when a write event for it
    /// is handled: it is followed, or the creator says that it names
    /// something.
    pub open spec fn is_there(&self, path: Seq<char>) -> bool {
        self.files().contains_key(path) || self.disk()[path].named
    }

    /// What a write event for `path` has done when it ends well. Where the
    /// filter does not match `path`, nothing. Where it does, what
    /// `write_applied` says: under a creator that states what it holds, with
    /// its word on whether the path names something, and else whether or not
    /// it does.
    pub open spec fn write_handled(&self, after: &Self, path: Seq<char>) -> bool {
        if !self.sieve().matches(path) {
            self.unchanged(after)
        } else if self.pool().opener().modeled() {
            self.write_applied(after, path, self.is_there(path))
        } else {
            exists|there: bool| #[trigger] self.write_applied(after, path, there)
        }
    }

    /// Whether a write event for `path` is known to end well: the filter
    /// does not match the path, or the event is sure for a path that names
    /// something, or the creator states what it holds and the event is sure
    /// with its word on whether the path names something.
    pub open spec fn write_is_owed(&self, path: Seq<char>) -> bool {
        ||| !self.sieve().matches(path)
        ||| self.write_is_sure(path, true)
        ||| self.pool().opener().modeled() && self.write_is_sure(path, self.is_there(path))
    }

    /// A write event for `path`. A path that the filter does not match is
    /// passed over; for one that it matches the event is applied. Whether
    /// the path names something is asked only of a path that is not followed
    /// yet.
    pub fn handle_write(&mut self, path: String) -> (r: Result<(), IoError>)
        requires
            old(self).wf(),
        ensures
            old(self).same_settings(final(self)),
            old(self).write_is_owed(path@) ==> r is Ok,
            r is Ok ==> final(self).wf() && old(self).write_handled(final(self), path@),
    {
        if !self.filter.match_path(path.as_str()) {
            return Ok(());
        }
        let known: bool = self.file_map.contains_key(&path);
        let there: bool = known || match &self.repository {
            Some(repo) => repo.creator().path_exists(&path),
            None => false,
        };
        self.apply_write(path, there)
    }

    /// The paths among the first `k` of `pending`.
    pub open spec fn first_paths(pending: Seq<String>, k: int) -> Set<Seq<char>> {
        Set::new(|path: Seq<char>| exists|j: int| 0 <= j < k && (#[trigger] pending[j])@ == path)
    }

    /// Whether the selected file is followed and among the first `k` of
    /// `pending`.
    pub open spec fn selected_among(&self, pending: Seq<String>, k: int) -> bool {
        &&& self.selected() matches Some(p)
        &&& self.files().contains_key(p)
        &&& Self::first_paths(pending, k).contains(p)
    }

    /// What releasing the first `k` of `pending` has done: those paths are
    /// followed no longer and no reader is open for them, a reader is open
    /// for any other path exactly if one was, and the selected file was let
    /// go if it was among them.
    pub open spec fn released(&self, after: &Self, pending: Seq<String>, k: int) -> bool {
        &&& after.files() == self.files().remove_keys(Self::first_paths(pending, k))
        &&& after.renaming() == self.renaming()
        &&& forall|j: int| 0 <= j < k ==> key_absent(after.pool().entries(), (#[trigger] pending[j])@)
        &&& forall|other: Seq<char>|
            !Self::first_paths(pending, k).contains(other) ==> #[trigger] key_absent(
                after.pool().entries(),
                other,
            ) == key_absent(self.pool().entries(), other)
        &&& if self.selected_among(pending, k) {
            &&& after.selected() is None
            &&& after.trace() == self.trace() + parting(self.files()[self.selected()->0]@.eol)
        } else {
            &&& after.selected() == self.selected()
            &&& after.trace() == self.trace()
        }
    }

    /// Stops following each path of `pending` and closes its reader, so that
    /// a deletion that waits for the file to be closed can go ahead.
    pub fn release_pending(&mut self, pending: &Vec<String>) -> (r: Result<(), IoError>)
        requires
            old(self).wf(),
        ensures
            old(self).same_settings(final(self)),
            old(self).sink_sure() || !old(self).selected_among(pending@, pending@.len() as int)
                ==> r is Ok,
            r is Ok ==> final(self).wf() && old(self).released(
                final(self),
                pending@,
                pending@.len() as int,
            ),
    {
        let n: usize = pending.len();
        let mut k: usize = 0;
        proof {
            assert(Self::first_paths(pending@, 0) =~= Set::<Seq<char>>::empty());
            assert(self.files() =~= self.files().remove_keys(Self::first_paths(pending@, 0)));
        }
        while k < n
            invariant
                n == pending@.len(),
                k <= n,
                self.wf(),
                old(self).same_settings(self),
                old(self).released(self, pending@, k as int),
            decreases n - k,
        {
            let path: &String = &pending[k];
            let ghost entries = self.pool().entries();
            let mut repo = self.repository.take().unwrap();
            repo.drop_path(path);
            self.repository = Some(repo);
            proof {
                assert forall|other: Seq<char>|
                    !Self::first_paths(pending@, k + 1).contains(other) implies #[trigger] key_absent(
                    self.pool().entries(),
                    other,
                ) == key_absent(old(self).pool().entries(), other) by {
                    assert(pending@[k as int]@ == path@);
                    assert(other != path@);
                    assert(!Self::first_paths(pending@, k as int).contains(other)) by {
                        if Self::first_paths(pending@, k as int).contains(other) {
                            let j = choose|j: int| 0 <= j < k && (#[trigger] pending@[j])@ == other;
                            assert(pending@[j]@ == other);
                        }
                    }
                    assert(key_absent(entries, other) == key_absent(
                        old(self).pool().entries(),
                        other,
                    ));
                }
            }
            proof {
                if self.files().contains_key(path@) && self.selected() == Some(path@) {
                    assert(pending@[k as int]@ == path@);
                    assert(Self::first_paths(pending@, pending@.len() as int).contains(path@));
                    assert(old(self).selected_among(pending@, pending@.len() as int));
                }
            }
            let r = match self.file_map.remove(path) {
                Some(reader) => self.unsubscribe_select_file(path, reader.printed_eol()),
                None => Ok(()),
            };
            match r {
                Ok(_) => {},
                Err(e) => {
                    return Err(e);
                },
            }
            proof {
                let after = Self::first_paths(pending@, k + 1);
                assert(self.files() =~= old(self).files().remove_keys(after));
            }
            k = k + 1;
        }
        Ok(())
    }

    /// Whether the deletion of the file at `path` waits for this program to
    /// close it: opening the file is refused for want of permission. Of a
    /// creator that states how opening ends, the answer is what it states.
    fn pending_delete_file(&self, path: &String) -> (b: bool)
        requires
            self.wf(),
        ensures
            self.pool().opener().modeled() ==> b == self.disk()[path@].refused,
    {
        match &self.repository {
            Some(repo) => match repo.creator().create_reader(path) {
                Err(IoError::PermissionDenied) => true,
                _ => false,
            },
            None => false,
        }
    }

    /// Whether `path` is among the first `k` of `keys`.
    pub open spec fn among(keys: Seq<Seq<char>>, k: int, path: Seq<char>) -> bool {
        exists|j: int| 0 <= j < k && #[trigger] keys[j] == path
    }

    /// The paths that the creator says it refuses to open for want of
    /// permission.
    pub open spec fn refused_paths(&self) -> Set<Seq<char>> {
        Set::new(|path: Seq<char>| self.disk()[path].refused)
    }

    /// Whether the look for pending deletions is known to end well: the
    /// sink never fails, or nothing is written, because the platform is not
    /// of the Windows family or because the creator states that it does not
    /// refuse to open the selected file.
    pub open spec fn sweep_is_sure(&self) -> bool {
        ||| self.sink_sure()
        ||| self.runs_on() != Platform::Windows
        ||| self.pool().opener().modeled() && !(self.selected() matches Some(p)
            && self.files().contains_key(p) && self.disk()[p].refused)
    }

    /// What the look for pending deletions has done when it ends well. On
    /// the Windows family some followed files were released: under a creator
    /// that states how opening ends, those that it refuses to open. Elsewhere
    /// nothing has happened.
    pub open spec fn swept(&self, after: &Self) -> bool {
        if self.runs_on() == Platform::Windows {
            exists|pending: Seq<String>|
                {
                    &&& #[trigger] self.released(after, pending, pending.len() as int)
                    &&& self.pool().opener().modeled() ==> forall|path: Seq<char>|
                        self.files().contains_key(path) ==> (Self::first_paths(
                            pending,
                            pending.len() as int,
                        ).contains(path) <==> self.refused_paths().contains(path))
                }
        } else {
            self.unchanged(after)
        }
    }

    /// Under a creator that states how opening ends, the look for pending
    /// deletions on the Windows family stops following exactly the followed
    /// files that the creator refuses to open.
    pub proof fn lemma_swept_files(&self, after: &Self)
        requires
            self.swept(after),
            self.runs_on() == Platform::Windows,
            self.pool().opener().modeled(),
        ensures
            after.files() == self.files().remove_keys(self.refused_paths()),
    {
        let pending = choose|pending: Seq<String>|
            {
                &&& #[trigger] self.released(after, pending, pending.len() as int)
                &&& self.pool().opener().modeled() ==> forall|path: Seq<char>|
                    self.files().contains_key(path) ==> (Self::first_paths(
                        pending,
                        pending.len() as int,
                    ).contains(path) <==> self.refused_paths().contains(path))
            };
        assert(after.files() =~= self.files().remove_keys(self.refused_paths()));
    }

    /// On the Windows family, stops following the files whose deletion waits
    /// for them to be closed. Elsewhere nothing happens.
    pub fn handle_pending_delete(&mut self) -> (r: Result<(), IoError>)
        requires
            old(self).wf(),
        ensures
            old(self).same_settings(final(self)),
            old(self).sweep_is_sure() ==> r is Ok,
            r is Ok ==> final(self).wf() && old(self).swept(final(self)),
    {
        match self.platform {
            Platform::Windows => {
                let mut pending: Vec<String> = Vec::new();
                let n: usize = self.file_map.len();
                let mut i: usize = 0;
                let ghost keys = self.file_map.keys();
                let ghost modeled = self.pool().opener().modeled();
                while i < n
                    invariant
                        self.wf(),
                        *self == *old(self),
                        keys == self.file_map.keys(),
                        modeled == self.pool().opener().modeled(),
                        n == keys.len(),
                        i <= n,
                        modeled ==> forall|path: Seq<char>| #[trigger]
                            Self::first_paths(pending@, pending@.len() as int).contains(path) <==> (
                            self.refused_paths().contains(path) && Self::among(keys, i as int, path)),
                    decreases n - i,
                {
                    let path: &String = self.file_map.key_at(i);
                    let ghost before = pending@;
                    if self.pending_delete_file(path) {
                        pending.push(path.clone());
                    }
                    proof {
                        if modeled {
                            let was = Self::first_paths(before, before.len() as int);
                            let now = Self::first_paths(pending@, pending@.len() as int);
                            assert forall|p: Seq<char>| #[trigger] now.contains(p) <==> (
                            self.refused_paths().contains(p) && Self::among(keys, i + 1, p)) by {
                                assert(was.contains(p) <==> (self.refused_paths().contains(p)
                                    && Self::among(keys, i as int, p)));
                                if now.contains(p) {
                                    let j = choose|j: int|
                                        0 <= j < pending@.len() && (#[trigger] pending@[j])@ == p;
                                    if j < before.len() {
                                        assert(before[j]@ == p);
                                        let k = choose|k: int| 0 <= k < i && #[trigger] keys[k] == p;
                                        assert(keys[k] == p);
                                    } else {
                                        assert(keys[i as int] == p);
                                    }
                                }
                                if self.refused_paths().contains(p) && Self::among(keys, i + 1, p) {
                                    let j = choose|j: int| 0 <= j < i + 1 && #[trigger] keys[j] == p;
                                    if j < i {
                                        assert(keys[j] == p);
                                        assert(Self::among(keys, i as int, p));
                                        let k = choose|k: int|
                                            0 <= k < before.len() && (#[trigger] before[k])@ == p;
                                        assert(pending@[k]@ == p);
                                    } else {
                                        assert(pending@[pending@.len() - 1]@ == p);
                                    }
                                }
                            }
                        }
                    }
                    i = i + 1;
                }
                proof {
                    self.file_map.lemma_keys();
                }
                let ghost found = pending@;
                let r = self.release_pending(&pending);
                proof {
                    if r is Ok && modeled {
                        assert forall|path: Seq<char>| old(self).files().contains_key(path) implies (
                        Self::first_paths(found, found.len() as int).contains(path) <==> old(
                            self,
                        ).refused_paths().contains(path)) by {
                            let j = choose|j: int| 0 <= j < keys.len() && #[trigger] keys[j] == path;
                            assert(keys[j] == path);
                            assert(Self::among(keys, n as int, path));
                        }
                    }
                }
                r
            },
            _ => Ok(()),
        }
    }

    /// What the handling of an event about `path` has done when it ends
    /// well. The path is brought into the form in which the watcher keys it.
    /// Then, as the plan for the operations says: a rename is handled; or a
    /// removal and after it a write; or one of the two; or nothing.
    pub open spec fn dispatched(
        &self,
        after: &Self,
        path: Seq<char>,
        op: Op,
        cookie: Option<u32>,
    ) -> bool {
        let key = normalized(path, self.runs_on());
        let wanted = plan_for(self.runs_on(), op, cookie is Some);
        if wanted.rename {
            self.rename_handled(after, key, cookie)
        } else if wanted.remove && wanted.write {
            exists|mid: Self|
                mid.wf() && self.same_settings(&mid) && #[trigger] self.remove_applied(&mid, key)
                    && mid.write_handled(after, key)
        } else if wanted.remove {
            self.remove_applied(after, key)
        } else if wanted.write {
            self.write_handled(after, key)
        } else {
            self.unchanged(after)
        }
    }

    /// Whether a write event for `path` that follows a removal of `path` in
    /// the same event is known to end well: the filter does not match the
    /// path, or the sink never fails and the creator states that the path
    /// names nothing, or that opening and reading it never fails, or that it
    /// does not open while no reader is left open for it.
    pub open spec fn write_is_owed_after_removal(&self, path: Seq<char>) -> bool {
        ||| !self.sieve().matches(path)
        ||| {
            &&& self.sink_sure()
            &&& self.pool().opener().modeled()
            &&& {
                ||| !self.disk()[path].named
                ||| self.disk()[path].dependable
                ||| !self.disk()[path].opens && (self.files().contains_key(path) || key_absent(
                    self.pool().entries(),
                    path,
                ))
            }
        }
    }

    /// Whether the handling of an event about `path` is known to end well:
    /// each handler that the plan for the operations calls is.
    pub open spec fn dispatch_is_sure(&self, path: Seq<char>, op: Op, cookie: Option<u32>) -> bool {
        let key = normalized(path, self.runs_on());
        let wanted = plan_for(self.runs_on(), op, cookie is Some);
        if wanted.rename {
            self.sink_sure() || !self.rename_writes(key, cookie)
        } else if wanted.remove && wanted.write {
            (self.sink_sure() || !self.lets_go(key)) && self.write_is_owed_after_removal(key)
        } else if wanted.remove {
            self.sink_sure() || !self.lets_go(key)
        } else if wanted.write {
            self.write_is_owed(key)
        } else {
            true
        }
    }

    /// Handles an event about `path`: brings the path into the form in
    /// which the watcher keys it and calls the handlers that the operations
    /// reported call for, a rename first, then a removal, then a write.
    pub fn dispatch(&mut self, path: String, op: Op, cookie: Option<u32>) -> (r: Result<
        (),
        IoError,
    >)
        requires
            old(self).wf(),
        ensures
            old(self).same_settings(final(self)),
            old(self).dispatch_is_sure(path@, op, cookie) ==> r is Ok,
            r is Ok ==> final(self).wf() && old(self).dispatched(final(self), path@, op, cookie),
    {
        let path: String = normalize_path_for_windows(path, self.platform);
        let wanted: Plan = plan(self.platform, op, cookie.is_some());
        if wanted.rename {
            return self.handle_rename(path, cookie);
        }
        if wanted.remove {
            match self.handle_remove(&path) {
                Ok(_) => {},
                Err(e) => {
                    return Err(e);
                },
            }
        }
        if wanted.write {
            match self.handle_write(path) {
                Ok(_) => {},
                Err(e) => {
                    return Err(e);
                },
            }
        }
        Ok(())
    }

    /// Whether what was received ends the following: the event source is
    /// gone, or it sent an event without a path or without operations.
    pub open spec fn is_fatal(received: Received) -> bool {
        match received {
            Received::Event(event) => event.path is None || event.op is None,
            Received::TimedOut => false,
            Received::Disconnected => true,
        }
    }

    /// What one turn of the loop has done when it ends well: an event was
    /// handled, and then deletions that wait for a file to be closed were
    /// looked for.
    pub open spec fn stepped(&self, after: &Self, received: Received) -> bool {
        match received {
            Received::Event(event) => exists|mid: Self|
                mid.wf() && self.same_settings(&mid) && #[trigger] self.dispatched(
                    &mid,
                    event.path->0@,
                    event.op->0,
                    event.cookie,
                ) && mid.swept(after),
            Received::TimedOut => self.swept(after),
            Received::Disconnected => false,
        }
    }

    /// Whether one turn of the loop is known to end well: what was received
    /// is a timeout or an event with a path and operations whose handling is
    /// sure, and so is the look for pending deletions, after an event
    /// whatever the event has changed.
    pub open spec fn step_is_sure(&self, received: Received) -> bool {
        match received {
            Received::Event(event) => {
                &&& event.path is Some
                &&& event.op is Some
                &&& self.dispatch_is_sure(event.path->0@, event.op->0, event.cookie)
                &&& self.sink_sure() || self.runs_on() != Platform::Windows
            },
            Received::TimedOut => self.sweep_is_sure(),
            Received::Disconnected => false,
        }
    }

    /// One turn of the loop that follows the directory: handles what was
    /// received, and then looks for deletions that wait for a file to be
    /// closed. What ends the following is answered with a generic error and
    /// changes nothing; a failed read or write is answered with its error.
    pub fn step(&mut self, received: Received) -> (r: Result<(), WatchError>)
        requires
            old(self).wf(),
        ensures
            old(self).same_settings(final(self)),
            Self::is_fatal(received) ==> (r matches Err(WatchError::Generic(_))),
            Self::is_fatal(received) ==> *final(self) == *old(self),
            !Self::is_fatal(received) ==> r is Ok || (r matches Err(WatchError::Io(_))),
            old(self).step_is_sure(received) ==> r is Ok,
            r is Ok ==> final(self).wf() && old(self).stepped(final(self), received),
    {
        match received {
            Received::Event(event) => {
                let path: String = match event.path {
                    Some(path) => path,
                    None => {
                        return Err(WatchError::Generic("broken event".to_owned()));
                    },
                };
                let op: Op = match event.op {
                    Some(op) => op,
                    None => {
                        return Err(WatchError::Generic("broken event".to_owned()));
                    },
                };
                match self.dispatch(path, op, event.cookie) {
                    Ok(_) => {},
                    Err(e) => {
                        return Err(WatchError::Io(e));
                    },
                }
            },
            Received::TimedOut => {},
            Received::Disconnected => {
                return Err(WatchError::Generic("watch error: Disconnected".to_owned()));
            },
        }
        match self.handle_pending_delete() {
            Ok(_) => Ok(()),
            Err(e) => Err(WatchError::Io(e)),
        }
    }

    /// Whether opening the file at `path` is known to fail: the creator
    /// states that it does not open, and no reader is open for it.
    pub open spec fn opening_fails(&self, path: Seq<char>) -> bool {
        &&& self.pool().opener().modeled()
        &&& !self.disk()[path].opens
        &&& key_absent(self.pool().entries(), path)
    }

    /// Whether the first reading of the file at `path` is known to end well
    /// and what it reads and writes is known byte for byte: the creator and
    /// the sink state what they hold, the sink never fails, and neither does
    /// opening and reading the file.
    pub open spec fn first_reading_is_sure(&self, path: Seq<char>) -> bool {
        self.exact() && self.sink().infallible() && self.disk()[path].dependable
    }

    /// Reads the file at `path` for the first time, through the reader
    /// noted at `place`: with `lines` at zero its cursor goes to its end and
    /// nothing is written, and else its last `lines` lines are written. Gives
    /// the state back in which the file is followed, and whether all went
    /// well.
    fn pour_tail(&mut self, path: &String, place: Option<SlotRef>, lines: u64) -> (out: (
        CachedTailState,
        Result<(), IoError>,
    ))
        requires
            old(self).base_ok(),
            lines > 0 ==> may_follow(old(self).trace@, path@),
        ensures
            final(self).filter == old(self).filter,
            final(self).current_dir == old(self).current_dir,
            final(self).selected_file_path == old(self).selected_file_path,
            final(self).file_map == old(self).file_map,
            final(self).renaming_map == old(self).renaming_map,
            final(self).colorize == old(self).colorize,
            final(self).platform == old(self).platform,
            final(self).origin == old(self).origin,
            final(self).writer.modeled() == old(self).writer.modeled(),
            old(self).writer.modeled() ==> final(self).writer.infallible() == old(
                self,
            ).writer.infallible(),
            final(self).repository is Some,
            final(self).repository->0.opener().modeled() == old(
                self,
            ).repository->0.opener().modeled(),
            files_of(final(self).repository->0.opener()) == files_of(
                old(self).repository->0.opener(),
            ),
            final(self).base_ok(),
            lines > 0 ==> may_follow(final(self).trace@, path@),
            out.0@.path == path@,
            lines == 0 ==> final(self).trace@ == old(self).trace@,
            old(self).first_reading_is_sure(path@) ==> out.1 is Ok,
            exists|chunk: Seq<u8>|
                {
                    &&& #[trigger] then_content(old(self).trace@, final(self).trace@, path@, chunk)
                    &&& old(self).exact() && out.1 is Ok ==> chunk == tail_bytes(
                        old(self).disk()[path@].bytes,
                        lines as nat,
                    )
                },
            old(self).exact() && out.1 is Ok ==> out.0@ == tailed_view(
                old(self).disk()[path@].bytes,
                path@,
                lines as nat,
            ),
    {
        let repo = self.repository.take().unwrap();
        let ghost before = self.writer.emitted();
        let ghost start = self.trace@;
        let (mut reader, _) = TransparentReader::resume(
            CachedTailState::from_place(path.clone(), place),
            repo,
        );
        proof {
            reader.lemma_shows_contents();
        }
        let ghost content = reader.content();
        let mut eol: bool = false;
        let r = if lines > 0 {
            match tail(&mut reader, &mut self.writer, &mut eol, lines) {
                Ok(_) => Ok(()),
                Err(e) => Err(e),
            }
        } else {
            match tail_start_position(&mut reader, 0) {
                Ok(_) => Ok(()),
                Err(e) => Err(e),
            }
        };
        proof {
            reader.lemma_shows_contents();
        }
        let (state, repo) = reader.release(eol);
        self.repository = Some(repo);
        proof {
            let chunk = if self.writer.modeled() {
                self.writer.emitted().skip(before.len() as int)
            } else {
                Seq::empty()
            };
            if self.writer.modeled() {
                assert(self.writer.emitted() =~= before + chunk);
                assert(before + chunk =~= self.origin@ + (flatten(start) + chunk));
            }
            if chunk.len() > 0 {
                lemma_push_content(start, path@, chunk);
                self.trace@ = start.push(Piece::Content { path: path@, bytes: chunk });
            }
            assert(then_content(start, self.trace@, path@, chunk));
            if old(self).exact() && r is Ok {
                lemma_tail_start_in_range(content, lines as nat);
                assert(chunk =~= tail_bytes(content, lines as nat));
            }
        }
        (state, r)
    }

    /// What starting to follow the file found at `path`, whose canonical
    /// form is `canonical`, has done when it ends well. The file is followed
    /// under its canonical path. With `lines` at zero nothing was written.
    /// Otherwise the separator and the banner of the file, which shows
    /// `path`, were written, then what was read of the file, and the file is
    /// the selected one. Where creator and sink state what they hold, what
    /// was read is the last `lines` lines of the file.
    pub open spec fn file_bootstrapped(
        &self,
        after: &Self,
        path: Seq<char>,
        canonical: Seq<char>,
        lines: u64,
    ) -> bool {
        &&& after.renaming() == self.renaming()
        &&& after.files().contains_key(canonical)
        &&& after.files() == self.files().insert(canonical, after.files()[canonical])
        &&& after.files()[canonical]@.path == canonical
        &&& if lines == 0 {
            &&& after.selected() == self.selected()
            &&& after.trace() == self.trace()
        } else {
            &&& after.selected() == Some(canonical)
            &&& exists|mid: Seq<Piece>, chunk: Seq<u8>|
                {
                    &&& then_banner(self.trace(), mid, self.selected(), self.files(), canonical)
                    &&& ends_with_banner_of(mid, path, self.paint())
                    &&& #[trigger] then_content(mid, after.trace(), canonical, chunk)
                    &&& self.exact() ==> chunk == tail_bytes(
                        self.disk()[canonical].bytes,
                        lines as nat,
                    )
                }
        }
        &&& self.exact() ==> after.files()[canonical]@ == tailed_view(
            self.disk()[canonical].bytes,
            canonical,
            lines as nat,
        )
    }

    /// Starts following the file that the walk of the directory found at
    /// `path`, whose canonical form is `canonical`.
    ///
    /// With `lines` at zero the file is followed from its end and nothing is
    /// written. Otherwise the separator, if a file is selected, and the
    /// banner of the file are written, then its last `lines` lines, and the
    /// file is the selected one. A failure to open, read or write is handed
    /// back, and the file is not followed: a file for which a reader has to
    /// be opened, and which the creator says does not open, ends the call
    /// with the error of the opening once the banner is written.
    pub fn bootstrap_file(&mut self, path: &String, canonical: String, lines: u64) -> (r: Result<
        (),
        IoError,
    >)
        requires
            old(self).wf(),
        ensures
            old(self).same_settings(final(self)),
            old(self).first_reading_is_sure(canonical@) ==> r is Ok,
            old(self).opening_fails(canonical@) && (lines == 0 || old(self).sink_sure()) ==> (
            r matches Err(e) && (e is PermissionDenied <==> old(self).disk()[canonical@].refused)),
            r is Err ==> final(self).files() == old(self).files() && final(self).renaming() == old(
                self,
            ).renaming(),
            r is Ok ==> final(self).wf() && old(self).file_bootstrapped(
                final(self),
                path@,
                canonical@,
                lines,
            ),
    {
        if lines > 0 {
            match self.emit_separator() {
                Ok(_) => {},
                Err(e) => {
                    return Err(e);
                },
            }
            match self.emit_banner_after_separator(Ghost(canonical@), path.as_str()) {
                Ok(_) => {},
                Err(e) => {
                    return Err(e);
                },
            }
        }
        let mut repo = self.repository.take().unwrap();
        let opened = repo.acquire(&canonical, None);
        self.repository = Some(repo);
        let place: Option<SlotRef> = match opened {
            Ok((_, place)) => place,
            Err(e) => {
                return Err(e);
            },
        };
        let ghost mid = self.trace@;
        let ghost before_pour = *self;
        let (state, poured) = self.pour_tail(&canonical, place, lines);
        match poured {
            Ok(_) => {},
            Err(e) => {
                return Err(e);
            },
        }
        let ghost after = self.trace@;
        self.file_map.insert(canonical.clone(), state);
        if lines > 0 {
            self.selected_file_path = Some(canonical);
        }
        proof {
            let chunk = choose|chunk: Seq<u8>|
                {
                    &&& #[trigger] then_content(mid, after, canonical@, chunk)
                    &&& before_pour.exact() && poured is Ok ==> chunk == tail_bytes(
                        before_pour.disk()[canonical@].bytes,
                        lines as nat,
                    )
                };
            assert(then_content(mid, self.trace(), canonical@, chunk));
            if lines > 0 {
                assert(ends_with_banner_of(mid, path@, old(self).paint()));
            }
        }
        Ok(())
    }

    /// What starting to follow the first `k` of `paths` has done when it
    /// ends well: one file after another was started on, each under some
    /// canonical path in the form in which the watcher keys it.
    pub open spec fn bootstrapped(&self, after: &Self, paths: Seq<String>, k: int, lines: u64) -> bool {
        exists|states: Seq<Self>| #[trigger]
            Self::leads(states, *self, *after, paths, k, lines)
    }

    /// The key under which the file found at `path` is followed, as the
    /// creator states it: the canonical form of the path, in the form in
    /// which the watcher keys paths.
    pub open spec fn canonical_key(&self, path: Seq<char>) -> Option<Seq<char>> {
        match self.disk()[path].canonical {
            Some(canonical) => Some(normalized(canonical, self.runs_on())),
            None => None,
        }
    }

    /// Whether the watcher has gone from `self` to `next` by starting on the
    /// file found at `path`: the settings are the same, and the file was
    /// started on under some key, which is the one that a creator that
    /// states what it holds gives for the path.
    pub open spec fn started_on(&self, next: &Self, path: Seq<char>, lines: u64) -> bool {
        &&& self.wf()
        &&& self.same_settings(next)
        &&& exists|canonical: Seq<char>|
            {
                &&& self.pool().opener().modeled() ==> self.canonical_key(path) == Some(canonical)
                &&& #[trigger] self.file_bootstrapped(next, path, canonical, lines)
            }
    }

    /// Whether `states` are the states through which the watcher goes from
    /// `first` to `last` as it starts on the first `k` of `paths`.
    pub open spec fn leads(
        states: Seq<Self>,
        first: Self,
        last: Self,
        paths: Seq<String>,
        k: int,
        lines: u64,
    ) -> bool {
        &&& states.len() == k + 1
        &&& states[0] == first
        &&& states[k] == last
        &&& forall|i: int|
            0 <= i < k ==> (#[trigger] states[i]).started_on(&states[i + 1], paths[i]@, lines)
    }

    /// What starting on the file found at `path` and followed as `key`
    /// writes: with no lines asked nothing, and else the separator, the
    /// banner that shows `path`, and the last `lines` lines of the file.
    pub open spec fn start_bytes(&self, path: Seq<char>, key: Seq<char>, lines: u64) -> Seq<u8> {
        if lines == 0 {
            Seq::empty()
        } else {
            separator_bytes(self.selected(), self.files()) + banner_of(path, self.paint())
                + tail_bytes(self.disk()[key].bytes, lines as nat)
        }
    }

    /// Where creator and sink state what they hold, starting on a file
    /// writes what `start_bytes` says and nothing else.
    pub proof fn lemma_start_writes(&self, next: &Self, path: Seq<char>, key: Seq<char>, lines: u64)
        requires
            self.exact(),
            self.file_bootstrapped(next, path, key, lines),
        ensures
            flatten(next.trace()) == flatten(self.trace()) + self.start_bytes(path, key, lines),
    {
        if lines == 0 {
            assert(flatten(self.trace()) + Seq::<u8>::empty() =~= flatten(self.trace()));
        } else {
            let (mid, chunk) = choose|mid: Seq<Piece>, chunk: Seq<u8>|
                {
                    &&& then_banner(self.trace(), mid, self.selected(), self.files(), key)
                    &&& ends_with_banner_of(mid, path, self.paint())
                    &&& #[trigger] then_content(mid, next.trace(), key, chunk)
                    &&& self.exact() ==> chunk == tail_bytes(self.disk()[key].bytes, lines as nat)
                };
            let sep = separator(self.selected(), self.files());
            lemma_separator_bytes(self.selected(), self.files());
            lemma_flatten_concat(self.trace(), sep);
            let line = banner_of(path, self.paint());
            assert(bytes_of(mid.last()) == line);
            assert(flatten(mid) == flatten(mid.drop_last()) + line);
            if chunk.len() > 0 {
                lemma_push_content(mid, key, chunk);
            } else {
                assert(flatten(mid) + chunk =~= flatten(mid));
            }
            assert(flatten(next.trace()) =~= flatten(self.trace()) + self.start_bytes(
                path,
                key,
                lines,
            ));
        }
    }

    /// What starting on the first `k` of `paths` writes, where the creator
    /// states what it holds: for one file after another what `start_bytes`
    /// says, each in the state in which the files before it have left the
    /// watcher.
    pub open spec fn walk_bytes(&self, paths: Seq<String>, k: int, lines: u64) -> Seq<u8>
        decreases k,
    {
        if k <= 0 || lines == 0 {
            Seq::empty()
        } else {
            let key = self.canonical_key(paths[k - 1]@)->0;
            let before = if k == 1 {
                separator_bytes(self.selected(), self.files())
            } else {
                let last = self.canonical_key(paths[k - 2]@)->0;
                if tailed_view(self.disk()[last].bytes, last, lines as nat).eol {
                    seq![NEWLINE]
                } else {
                    seq![NEWLINE, NEWLINE]
                }
            };
            self.walk_bytes(paths, k - 1, lines) + before + banner_of(paths[k - 1]@, self.paint())
                + tail_bytes(self.disk()[key].bytes, lines as nat)
        }
    }

    /// The last step of a walk: the states before it lead to the state
    /// before the last, from which the last file was started on under the
    /// key given back.
    proof fn lemma_last_step(
        states: Seq<Self>,
        first: Self,
        last: Self,
        paths: Seq<String>,
        k: int,
        lines: u64,
    ) -> (key: Seq<char>)
        requires
            0 < k,
            Self::leads(states, first, last, paths, k, lines),
        ensures
            Self::leads(states.take(k), first, states[k - 1], paths, k - 1, lines),
            states[k - 1].wf(),
            states[k - 1].same_settings(&last),
            states[k - 1].pool().opener().modeled() ==> states[k - 1].canonical_key(
                paths[k - 1]@,
            ) == Some(key),
            states[k - 1].file_bootstrapped(&last, paths[k - 1]@, key, lines),
    {
        let prev = states[k - 1];
        let shorter = states.take(k);
        assert forall|i: int| 0 <= i < k - 1 implies (#[trigger] shorter[i]).started_on(
            &shorter[i + 1],
            paths[i]@,
            lines,
        ) by {
            assert(shorter[i] == states[i]);
            assert(shorter[i + 1] == states[i + 1]);
            assert(states[i].started_on(&states[i + 1], paths[i]@, lines));
        }
        assert(states[k - 1].started_on(&states[k], paths[k - 1]@, lines));
        choose|canonical: Seq<char>|
            {
                &&& prev.pool().opener().modeled() ==> prev.canonical_key(paths[k - 1]@) == Some(
                    canonical,
                )
                &&& #[trigger] prev.file_bootstrapped(&last, paths[k - 1]@, canonical, lines)
            }
    }

    /// What starting on files keeps and selects. Let the watcher go from
    /// `first` to `last` through `states` as it starts on the first `k` of
    /// `paths`. Then the settings and the renames in flight are as they
    /// were. With no lines asked nothing was written and the selection is as
    /// it was; else, under a creator that states what it holds, the file
    /// started on last is the selected one.
    pub proof fn lemma_started_selection(
        states: Seq<Self>,
        first: Self,
        last: Self,
        paths: Seq<String>,
        k: int,
        lines: u64,
    )
        requires
            0 <= k,
            Self::leads(states, first, last, paths, k, lines),
        ensures
            first.same_settings(&last),
            last.renaming() == first.renaming(),
            lines == 0 ==> last.trace() == first.trace() && last.selected() == first.selected(),
            lines > 0 && k > 0 && first.pool().opener().modeled() ==> last.selected()
                == first.canonical_key(paths[k - 1]@),
        decreases k,
    {
        if k > 0 {
            let key = Self::lemma_last_step(states, first, last, paths, k, lines);
            Self::lemma_started_selection(states.take(k), first, states[k - 1], paths, k - 1, lines);
        }
    }

    /// Which files are followed after the start. Let the watcher go from
    /// `first` to `last` through `states` as it starts on the first `k` of
    /// `paths`, and let creator and sink state what they hold. Then each
    /// file started on is followed under its canonical key, with its cursor
    /// at its end.
    pub proof fn lemma_started_files(
        states: Seq<Self>,
        first: Self,
        last: Self,
        paths: Seq<String>,
        k: int,
        lines: u64,
    )
        requires
            0 <= k,
            Self::leads(states, first, last, paths, k, lines),
            first.exact(),
        ensures
            forall|i: int|
                0 <= i < k ==> {
                    let key = first.canonical_key((#[trigger] paths[i])@)->0;
                    &&& first.canonical_key(paths[i]@) is Some
                    &&& last.files().contains_key(key)
                    &&& last.files()[key]@ == tailed_view(
                        first.disk()[key].bytes,
                        key,
                        lines as nat,
                    )
                },
        decreases k,
    {
        if k > 0 {
            let prev = states[k - 1];
            let c = Self::lemma_last_step(states, first, last, paths, k, lines);
            Self::lemma_started_selection(states.take(k), first, prev, paths, k - 1, lines);
            Self::lemma_started_files(states.take(k), first, prev, paths, k - 1, lines);
            assert(prev.exact());
            assert(prev.canonical_key(paths[k - 1]@) == first.canonical_key(paths[k - 1]@));
            assert(last.files() == prev.files().insert(c, last.files()[c]));
            assert(last.files()[c]@ == tailed_view(first.disk()[c].bytes, c, lines as nat));
            assert forall|i: int| 0 <= i < k implies {
                let key = first.canonical_key((#[trigger] paths[i])@)->0;
                &&& first.canonical_key(paths[i]@) is Some
                &&& last.files().contains_key(key)
                &&& last.files()[key]@ == tailed_view(first.disk()[key].bytes, key, lines as nat)
            } by {
                let key = first.canonical_key(paths[i]@)->0;
                if i < k - 1 {
                    assert(prev.files().contains_key(key));
                    assert(prev.files()[key]@ == tailed_view(
                        first.disk()[key].bytes,
                        key,
                        lines as nat,
                    ));
                } else {
                    assert(key == c);
                }
            }
        }
    }

    /// One more file in `walk_bytes`: what was written for the files before
    /// it, and then what starting on it writes in the state that they left.
    proof fn lemma_walk_step(
        first: Self,
        prev: Self,
        paths: Seq<String>,
        k: int,
        lines: u64,
        key: Seq<char>,
    )
        requires
            0 < k,
            lines > 0,
            first.same_settings(&prev),
            first.canonical_key(paths[k - 1]@) == Some(key),
            k == 1 ==> prev.selected() == first.selected() && prev.files() == first.files(),
            k > 1 ==> {
                let earlier = first.canonical_key(paths[k - 2]@)->0;
                &&& prev.selected() == Some(earlier)
                &&& prev.files().contains_key(earlier)
                &&& prev.files()[earlier]@ == tailed_view(
                    first.disk()[earlier].bytes,
                    earlier,
                    lines as nat,
                )
            },
        ensures
            first.walk_bytes(paths, k, lines) == first.walk_bytes(paths, k - 1, lines)
                + prev.start_bytes(paths[k - 1]@, key, lines),
    {
        let before = separator_bytes(prev.selected(), prev.files());
        let line = banner_of(paths[k - 1]@, first.paint());
        let lines_read = tail_bytes(first.disk()[key].bytes, lines as nat);
        assert(prev.paint() == first.paint());
        assert(prev.start_bytes(paths[k - 1]@, key, lines) == before + line + lines_read);
        assert(first.walk_bytes(paths, k, lines) == first.walk_bytes(paths, k - 1, lines) + before
            + line + lines_read);
        assert(first.walk_bytes(paths, k - 1, lines) + before + line + lines_read
            =~= first.walk_bytes(paths, k - 1, lines) + (before + line + lines_read));
    }

    /// What the start writes. Let the watcher go from `first` to `last`
    /// through `states` as it starts on the first `k` of `paths`, and let
    /// creator and sink state what they hold. Then what was written is what
    /// `walk_bytes` says: for each file the separator, its banner under the
    /// name it was found, and its last lines.
    pub proof fn lemma_started_output(
        states: Seq<Self>,
        first: Self,
        last: Self,
        paths: Seq<String>,
        k: int,
        lines: u64,
    )
        requires
            0 <= k,
            Self::leads(states, first, last, paths, k, lines),
            first.exact(),
        ensures
            flatten(last.trace()) == flatten(first.trace()) + first.walk_bytes(paths, k, lines),
        decreases k,
    {
        if lines == 0 {
            Self::lemma_started_selection(states, first, last, paths, k, lines);
            assert(flatten(first.trace()) + Seq::<u8>::empty() =~= flatten(first.trace()));
        } else if k == 0 {
            assert(flatten(first.trace()) + Seq::<u8>::empty() =~= flatten(first.trace()));
        } else {
            let prev = states[k - 1];
            let key = Self::lemma_last_step(states, first, last, paths, k, lines);
            Self::lemma_started_selection(states.take(k), first, prev, paths, k - 1, lines);
            Self::lemma_started_output(states.take(k), first, prev, paths, k - 1, lines);
            assert(prev.exact());
            prev.lemma_start_writes(&last, paths[k - 1]@, key, lines);
            if k > 1 {
                Self::lemma_started_files(states.take(k), first, prev, paths, k - 1, lines);
                assert(first.canonical_key(paths[k - 2]@) is Some);
            } else {
                assert(states.take(k)[0] == first);
            }
            Self::lemma_walk_step(first, prev, paths, k, lines, key);
            assert(flatten(first.trace()) + first.walk_bytes(paths, k - 1, lines)
                + prev.start_bytes(paths[k - 1]@, key, lines) =~= flatten(first.trace()) + (
            first.walk_bytes(paths, k - 1, lines) + prev.start_bytes(paths[k - 1]@, key, lines)));
        }
    }

    /// What the start has sent to the sink. Where creator and sink state
    /// what they hold, the sink holds after the start what it held before
    /// and then what `walk_bytes` says: nothing where no lines were asked,
    /// and else, for each file in turn, the separator, the banner under the
    /// name the file was found, and the last lines of the file.
    pub proof fn lemma_bootstrap_output(&self, after: &Self, paths: Seq<String>, lines: u64)
        requires
            self.wf(),
            after.wf(),
            self.exact(),
            self.bootstrapped(after, paths, paths.len() as int, lines),
        ensures
            after.sink().emitted() == self.sink().emitted() + self.walk_bytes(
                paths,
                paths.len() as int,
                lines,
            ),
    {
        let k = paths.len() as int;
        let states = choose|states: Seq<Self>| #[trigger]
            Self::leads(states, *self, *after, paths, k, lines);
        Self::lemma_started_selection(states, *self, *after, paths, k, lines);
        Self::lemma_started_output(states, *self, *after, paths, k, lines);
        self.lemma_banners_frame_content();
        after.lemma_banners_frame_content();
        assert(self.origin() + (flatten(self.trace()) + self.walk_bytes(paths, k, lines))
            =~= self.origin() + flatten(self.trace()) + self.walk_bytes(paths, k, lines));
    }

    /// Whether starting on `paths` is known to end well: the creator states
    /// what it holds, each path has a canonical form, and the first reading
    /// of the file under it is sure.
    pub open spec fn bootstrap_is_sure(&self, paths: Seq<String>) -> bool {
        &&& self.pool().opener().modeled()
        &&& forall|i: int|
            0 <= i < paths.len() ==> (#[trigger] self.canonical_key(paths[i]@)) is Some
                && self.first_reading_is_sure(self.canonical_key(paths[i]@)->0)
    }

    /// Starts following the files that the walk of the directory found, in
    /// the order of `paths`. Each path is brought into its canonical form
    /// first; where that fails the error is handed back and the files after
    /// it are not looked at.
    pub fn bootstrap(&mut self, paths: &Vec<String>, lines: u64) -> (r: Result<(), WatchError>)
        requires
            old(self).wf(),
        ensures
            old(self).same_settings(final(self)),
            r is Ok || (r matches Err(WatchError::Io(_))),
            paths@.len() == 0 || old(self).bootstrap_is_sure(paths@) ==> r is Ok,
            r is Ok ==> final(self).wf() && old(self).bootstrapped(
                final(self),
                paths@,
                paths@.len() as int,
                lines,
            ),
    {
        let n: usize = paths.len();
        let mut i: usize = 0;
        let ghost mut states: Seq<Self> = seq![*self];
        while i < n
            invariant
                n == paths@.len(),
                i <= n,
                self.wf(),
                old(self).same_settings(self),
                Self::leads(states, *old(self), *self, paths@, i as int, lines),
            decreases n - i,
        {
            let path: &String = &paths[i];
            let ghost before = *self;
            assert(old(self).bootstrap_is_sure(paths@) ==> old(self).canonical_key(paths@[i as int]@)
                is Some);
            let found = match &self.repository {
                Some(repo) => repo.creator().canonicalize(path),
                None => Err(IoError::Other),
            };
            let canonical: String = match found {
                Ok(canonical) => normalize_path_for_windows(canonical, self.platform),
                Err(e) => {
                    return Err(WatchError::Io(e));
                },
            };
            let ghost key = canonical@;
            match self.bootstrap_file(path, canonical, lines) {
                Ok(_) => {},
                Err(e) => {
                    return Err(WatchError::Io(e));
                },
            }
            proof {
                let longer = states.push(*self);
                assert forall|j: int| 0 <= j < i + 1 implies (#[trigger] longer[j]).started_on(
                    &longer[j + 1],
                    paths@[j]@,
                    lines,
                ) by {
                    if j < i {
                        assert(longer[j] == states[j]);
                        assert(longer[j + 1] == states[j + 1]);
                        assert(states[j].started_on(&states[j + 1], paths@[j]@, lines));
                    } else {
                        assert(longer[j] == before);
                        assert(longer[j + 1] == *self);
                        assert(before.file_bootstrapped(self, paths@[j]@, key, lines));
                    }
                }
                states = longer;
            }
            i = i + 1;
        }
        Ok(())
    }

    /// A rename whose two halves arrive with the same fresh cookie leaves no
    /// trace among the renames in flight: the first half notes the cookie,
    /// with the state of the file that left or with `None`, and the second
    /// consumes it. The file that left under `from` is followed under `to`
    /// if `to` matches the filter, and is followed no longer otherwise.
    pub proof fn lemma_rename_pair(
        files: Map<Seq<char>, CachedTailState>,
        renaming: Map<u32, Option<CachedTailState>>,
        from: Seq<char>,
        to: Seq<char>,
        cookie: u32,
        matched_from: bool,
        matched_to: bool,
    )
        requires
            !renaming.contains_key(cookie),
        ensures
            ({
                let files1 = Self::files_after_rename(files, renaming, from, cookie, matched_from);
                let renaming1 = Self::renaming_after_rename(files, renaming, from, cookie);
                let files2 = Self::files_after_rename(files1, renaming1, to, cookie, matched_to);
                let renaming2 = Self::renaming_after_rename(files1, renaming1, to, cookie);
                &&& renaming1.contains_key(cookie)
                &&& renaming1[cookie] is Some <==> files.contains_key(from)
                &&& renaming1.remove(cookie) == renaming
                &&& renaming2 == renaming
                &&& files1 == files.remove(from)
                &&& files2 == if files.contains_key(from) && matched_to {
                    files.remove(from).insert(to, files[from])
                } else {
                    files.remove(from)
                }
            }),
    {
    }

    /// An event with a cookie touches no other cookie among the renames in
    /// flight.
    pub proof fn lemma_rename_touches_one_cookie(
        files: Map<Seq<char>, CachedTailState>,
        renaming: Map<u32, Option<CachedTailState>>,
        path: Seq<char>,
        cookie: u32,
        other: u32,
    )
        requires
            other != cookie,
        ensures
            Self::renaming_after_rename(files, renaming, path, cookie).contains_key(other)
                == renaming.contains_key(other),
            renaming.contains_key(other) ==> Self::renaming_after_rename(
                files,
                renaming,
                path,
                cookie,
            )[other] == renaming[other],
    {
    }
}

} // verus!
