//! The output of the watcher as a sequence of pieces, and what it means for
//! banners to frame the content of different files.

use vstd::prelude::*;
use crate::tail::NEWLINE;

verus! {

/// One piece of the watcher's output.
pub enum Piece {
    /// Bytes of the content of the file keyed by `path`.
    Content { path: Seq<char>, bytes: Seq<u8> },
    /// The banner line that announces the file keyed by `path` under the
    /// name `name`.
    Banner { path: Seq<char>, name: Seq<char>, line: Seq<u8> },
    /// A line terminator written by the watcher.
    Newline,
}

/// The bytes of a piece.
pub open spec fn bytes_of(piece: Piece) -> Seq<u8> {
    match piece {
        Piece::Content { bytes, .. } => bytes,
        Piece::Banner { line, .. } => line,
        Piece::Newline => seq![NEWLINE],
    }
}

/// The bytes of all pieces, in order.
pub open spec fn flatten(trace: Seq<Piece>) -> Seq<u8>
    decreases trace.len(),
{
    if trace.len() == 0 {
        Seq::empty()
    } else {
        flatten(trace.drop_last()) + bytes_of(trace.last())
    }
}

/// Whether a piece holds at least one byte of content.
pub open spec fn carries_content(piece: Piece) -> bool {
    piece matches Piece::Content { bytes, .. } && bytes.len() > 0
}

/// The file that the last byte of content in `trace` belongs to.
pub open spec fn last_content(trace: Seq<Piece>) -> Option<Seq<char>>
    decreases trace.len(),
{
    if trace.len() == 0 {
        None
    } else if carries_content(trace.last()) {
        Some(trace.last()->Content_path)
    } else {
        last_content(trace.drop_last())
    }
}

/// The bytes written after the last byte of content in `trace`.
pub open spec fn gap(trace: Seq<Piece>) -> Seq<u8>
    decreases trace.len(),
{
    if trace.len() == 0 {
        Seq::empty()
    } else if carries_content(trace.last()) {
        Seq::empty()
    } else {
        gap(trace.drop_last()) + bytes_of(trace.last())
    }
}

/// Whether `trace` ends with a line terminator and, after it, the banner of
/// the file keyed by `path`.
pub open spec fn announced(trace: Seq<Piece>, path: Seq<char>) -> bool {
    &&& trace.len() >= 2
    &&& trace.last() matches Piece::Banner { path: p, .. }
    &&& p == path
    &&& trace[trace.len() - 2] is Newline
}

/// Whether content of the file keyed by `path` may follow `trace`: no
/// content was written yet, or the last content was that file's own, or the
/// bytes since then begin with a line terminator and end with a line
/// terminator and the file's banner.
pub open spec fn may_follow(trace: Seq<Piece>, path: Seq<char>) -> bool {
    ||| last_content(trace) is None
    ||| last_content(trace) == Some(path)
    ||| (announced(trace, path) && gap(trace).len() > 0 && gap(trace)[0] == NEWLINE)
}

/// Whether banners frame the content in `trace`: wherever content of one
/// file follows content of another, the bytes between the two begin with a
/// line terminator and end with a line terminator and the banner of the file
/// that follows.
pub open spec fn framed(trace: Seq<Piece>) -> bool
    decreases trace.len(),
{
    if trace.len() == 0 {
        true
    } else {
        &&& framed(trace.drop_last())
        &&& carries_content(trace.last()) ==> may_follow(
            trace.drop_last(),
            trace.last()->Content_path,
        )
    }
}

/// After an announcement the bytes since the last content end with a line
/// terminator and the banner line.
pub proof fn lemma_announced_gap(trace: Seq<Piece>, path: Seq<char>)
    requires
        announced(trace, path),
    ensures
        gap(trace) == gap(trace.drop_last().drop_last()) + seq![NEWLINE] + bytes_of(trace.last()),
        gap(trace).len() > 0,
{
    let inner = trace.drop_last();
    assert(gap(trace) == gap(inner) + bytes_of(trace.last()));
}

/// In a framed trace, content may follow what stands before it.
pub proof fn lemma_framed_at(trace: Seq<Piece>, j: int)
    requires
        framed(trace),
        0 <= j < trace.len(),
        carries_content(trace[j]),
    ensures
        may_follow(trace.take(j), trace[j]->Content_path),
    decreases trace.len(),
{
    if j < trace.len() - 1 {
        lemma_framed_at(trace.drop_last(), j);
        assert(trace.drop_last().take(j) =~= trace.take(j));
    }
}

/// The bytes of two traces on end are the bytes of the first and then those
/// of the second.
pub proof fn lemma_flatten_concat(a: Seq<Piece>, b: Seq<Piece>)
    ensures
        flatten(a + b) == flatten(a) + flatten(b),
    decreases b.len(),
{
    if b.len() == 0 {
        assert(a + b =~= a);
        assert(flatten(a) + flatten(b) =~= flatten(a));
    } else {
        lemma_flatten_concat(a, b.drop_last());
        assert((a + b).drop_last() =~= a + b.drop_last());
        assert((a + b).last() == b.last());
        assert(flatten(a + b) =~= flatten(a) + flatten(b));
    }
}

/// What a line terminator at the end does to a trace.
pub proof fn lemma_push_newline(trace: Seq<Piece>)
    ensures
        flatten(trace.push(Piece::Newline)) == flatten(trace) + seq![NEWLINE],
        last_content(trace.push(Piece::Newline)) == last_content(trace),
        gap(trace.push(Piece::Newline)) == gap(trace) + seq![NEWLINE],
        framed(trace) ==> framed(trace.push(Piece::Newline)),
{
    let after = trace.push(Piece::Newline);
    assert(after.drop_last() =~= trace);
}

/// What a banner at the end does to a trace.
pub proof fn lemma_push_banner(
    trace: Seq<Piece>,
    path: Seq<char>,
    name: Seq<char>,
    line: Seq<u8>,
)
    ensures
        flatten(trace.push(Piece::Banner { path, name, line })) == flatten(trace) + line,
        last_content(trace.push(Piece::Banner { path, name, line })) == last_content(trace),
        gap(trace.push(Piece::Banner { path, name, line })) == gap(trace) + line,
        framed(trace) ==> framed(trace.push(Piece::Banner { path, name, line })),
        trace.len() > 0 && trace.last() is Newline ==> announced(
            trace.push(Piece::Banner { path, name, line }),
            path,
        ),
{
    let after = trace.push(Piece::Banner { path, name, line });
    assert(after.drop_last() =~= trace);
}

/// What content at the end does to a trace.
pub proof fn lemma_push_content(trace: Seq<Piece>, path: Seq<char>, bytes: Seq<u8>)
    requires
        bytes.len() > 0,
    ensures
        flatten(trace.push(Piece::Content { path, bytes })) == flatten(trace) + bytes,
        last_content(trace.push(Piece::Content { path, bytes })) == Some(path),
        gap(trace.push(Piece::Content { path, bytes })) == Seq::<u8>::empty(),
        framed(trace) && may_follow(trace, path) ==> framed(
            trace.push(Piece::Content { path, bytes }),
        ),
{
    let after = trace.push(Piece::Content { path, bytes });
    assert(after.drop_last() =~= trace);
}

} // verus!
