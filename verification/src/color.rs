//! Colours: the escape sequences around painted text, and the highlighting
//! of the parts of a path that the filter's regular expression matches.

use vstd::prelude::*;
use vstd::slice::slice_subrange;
use crate::path::{banner_close, banner_open, push_bytes};
use crate::tail::NEWLINE;

verus! {

/// The colours in which banners are painted, always in bold.
#[derive(Clone, Copy, Debug, PartialEq, Eq, Structural)]
pub enum Tint {
    /// For the banner and the parts of a path that the filter did not match.
    Blue,
    /// For the parts of a path that the filter matched.
    Green,
}

/// The escape sequence that starts bold text in a colour.
pub open spec fn tint_prefix(tint: Tint) -> Seq<u8> {
    match tint {
        Tint::Blue => seq![0x1Bu8, 0x5Bu8, 0x31u8, 0x3Bu8, 0x33u8, 0x34u8, 0x6Du8],
        Tint::Green => seq![0x1Bu8, 0x5Bu8, 0x31u8, 0x3Bu8, 0x33u8, 0x32u8, 0x6Du8],
    }
}

/// The escape sequence that ends painted text.
pub open spec fn tint_reset() -> Seq<u8> {
    seq![0x1Bu8, 0x5Bu8, 0x30u8, 0x6Du8]
}

/// `text` painted bold in a colour: the text between the escape sequences.
pub open spec fn painted(tint: Tint, text: Seq<u8>) -> Seq<u8> {
    tint_prefix(tint) + text + tint_reset()
}

/// `Style::paint` on bytes in a bold colour, written out with `write_to`:
/// the escape sequence of the style, the bytes, and the reset sequence.
#[verifier::external_body]
fn paint_bold(tint: Tint, text: &[u8]) -> (out: Vec<u8>)
    ensures
        out@ == painted(tint, text@),
{
    let colour = match tint {
        Tint::Blue => ansi_term::Colour::Blue,
        Tint::Green => ansi_term::Colour::Green,
    };
    let mut out: Vec<u8> = Vec::new();
    let _ = colour.bold().paint(text).write_to(&mut out);
    out
}

/// Whether `ranges` lie one after another, none before `from` and none
/// beyond `len`.
pub open spec fn ranges_in_order(ranges: Seq<(usize, usize)>, from: int, len: int) -> bool
    decreases ranges.len(),
{
    if ranges.len() == 0 {
        from <= len
    } else {
        &&& from <= ranges[0].0 <= ranges[0].1 <= len
        &&& ranges_in_order(ranges.drop_first(), ranges[0].1 as int, len)
    }
}

/// `text` from `from` on with the bytes in `ranges` painted green and the
/// bytes between them, before them and after them painted blue.
pub open spec fn highlighted(text: Seq<u8>, ranges: Seq<(usize, usize)>, from: int) -> Seq<u8>
    decreases ranges.len(),
{
    if ranges.len() == 0 {
        painted(Tint::Blue, text.subrange(from, text.len() as int))
    } else {
        painted(Tint::Blue, text.subrange(from, ranges[0].0 as int)) + painted(
            Tint::Green,
            text.subrange(ranges[0].0 as int, ranges[0].1 as int),
        ) + highlighted(text, ranges.drop_first(), ranges[0].1 as int)
    }
}

/// Paints the bytes of `text` that lie in `ranges` green and the rest blue.
pub fn highlight(text: &[u8], ranges: &Vec<(usize, usize)>) -> (out: Vec<u8>)
    requires
        ranges_in_order(ranges@, 0, text@.len() as int),
    ensures
        out@ == highlighted(text@, ranges@, 0),
{
    let mut out: Vec<u8> = Vec::new();
    let mut prev_end_point: usize = 0;
    let n: usize = ranges.len();
    let mut i: usize = 0;
    assert(ranges@.skip(0) =~= ranges@);
    while i < n
        invariant
            n == ranges@.len(),
            i <= n,
            prev_end_point <= text@.len(),
            ranges_in_order(ranges@.skip(i as int), prev_end_point as int, text@.len() as int),
            out@ + highlighted(text@, ranges@.skip(i as int), prev_end_point as int) == highlighted(
                text@,
                ranges@,
                0,
            ),
        decreases n - i,
    {
        let (start, end) = ranges[i];
        let ghost rest = ranges@.skip(i as int);
        assert(rest.drop_first() =~= ranges@.skip(i + 1));
        let between: Vec<u8> = paint_bold(Tint::Blue, slice_subrange(text, prev_end_point, start));
        push_bytes(&mut out, between.as_slice());
        let found: Vec<u8> = paint_bold(Tint::Green, slice_subrange(text, start, end));
        push_bytes(&mut out, found.as_slice());
        prev_end_point = end;
        i = i + 1;
    }
    let last: Vec<u8> = paint_bold(Tint::Blue, slice_subrange(text, prev_end_point, text.len()));
    push_bytes(&mut out, last.as_slice());
    out
}

/// The coloured banner line of a file shown as `name`: `==> ` in blue, the
/// name with the bytes in `ranges` in green and the rest in blue, ` <==` in
/// blue, and a line terminator.
pub open spec fn colored_banner_bytes(name: Seq<u8>, ranges: Seq<(usize, usize)>) -> Seq<u8> {
    painted(Tint::Blue, banner_open()) + highlighted(name, ranges, 0) + painted(
        Tint::Blue,
        banner_close(),
    ) + seq![NEWLINE]
}

/// The coloured banner line of a file shown as `name`.
pub fn colored_banner_line(name: &[u8], ranges: &Vec<(usize, usize)>) -> (line: Vec<u8>)
    requires
        ranges_in_order(ranges@, 0, name@.len() as int),
    ensures
        line@ == colored_banner_bytes(name@, ranges@),
{
    let mut open: Vec<u8> = Vec::new();
    open.push(0x3D);
    open.push(0x3D);
    open.push(0x3E);
    open.push(0x20);
    let mut close: Vec<u8> = Vec::new();
    close.push(0x20);
    close.push(0x3C);
    close.push(0x3D);
    close.push(0x3D);
    let mut line: Vec<u8> = paint_bold(Tint::Blue, open.as_slice());
    let middle: Vec<u8> = highlight(name, ranges);
    push_bytes(&mut line, middle.as_slice());
    let end: Vec<u8> = paint_bold(Tint::Blue, close.as_slice());
    push_bytes(&mut line, end.as_slice());
    line.push(NEWLINE);
    line
}

} // verus!
