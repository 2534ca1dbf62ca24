//! Paths as they are keyed and shown: normalization for the Windows family,
//! display names, and the banner line that announces a file.

use vstd::prelude::*;
use vstd::utf8::encode_utf8;

verus! {

/// The family of operating system that the program runs on, as far as the
/// watcher behaves differently on it.
#[derive(Clone, Copy, Debug, PartialEq, Eq, Structural)]
pub enum Platform {
    /// macOS, whose event source may fuse several operations into one event.
    MacOs,
    /// Windows, with long-path prefixes and deletions that stay pending.
    Windows,
    /// Any other.
    Other,
}

/// `s` with every occurrence of `from` replaced by `to`, found from left to
/// right and not overlapping.
pub open spec fn replaced(s: Seq<char>, from: Seq<char>, to: Seq<char>) -> Seq<char>
    decreases s.len(),
{
    if from.len() == 0 || s.len() < from.len() {
        s
    } else if from.is_prefix_of(s) {
        to + replaced(s.skip(from.len() as int), from, to)
    } else {
        seq![s[0]] + replaced(s.skip(1), from, to)
    }
}

/// `s` without the occurrences of `prefix` that stand, one after another, at
/// its start.
pub open spec fn trimmed_start(s: Seq<char>, prefix: Seq<char>) -> Seq<char>
    decreases s.len(),
{
    if prefix.len() > 0 && prefix.is_prefix_of(s) {
        trimmed_start(s.skip(prefix.len() as int), prefix)
    } else {
        s
    }
}

/// `str::replace` with a string as the pattern: every match of `from`,
/// found from left to right, gives way to `to`.
#[verifier::external_body]
fn str_replace(s: &str, from: &str, to: &str) -> (r: String)
    requires
        from@.len() > 0,
    ensures
        r@ == replaced(s@, from@, to@),
{
    s.replace(from, to)
}

/// `str::starts_with` with a string as the pattern.
#[verifier::external_body]
fn str_starts_with(s: &str, prefix: &str) -> (b: bool)
    ensures
        b == prefix@.is_prefix_of(s@),
{
    s.starts_with(prefix)
}

/// `str::trim_start_matches` with a string as the pattern: the prefixes that
/// match are removed, again and again.
#[verifier::external_body]
fn str_trim_start_matches<'a>(s: &'a str, prefix: &str) -> (r: &'a str)
    requires
        prefix@.len() > 0,
    ensures
        r@ == trimmed_start(s@, prefix@),
{
    s.trim_start_matches(prefix)
}

/// The separator that the Windows family does not use.
pub open spec fn slash() -> Seq<char> {
    seq!['/']
}

/// The separator of the Windows family.
pub open spec fn backslash() -> Seq<char> {
    seq!['\\']
}

/// The prefix of a long path on the Windows family.
pub open spec fn long_path_prefix() -> Seq<char> {
    seq!['\\', '\\', '?', '\\']
}

/// What follows the long-path prefix in a path to another machine.
pub open spec fn unc_prefix() -> Seq<char> {
    seq!['U', 'N', 'C', '\\']
}

/// A path as the watcher keys it. On the Windows family every separator is
/// a backslash, and a long-path prefix is removed, with the mark of a path
/// to another machine that may follow it; elsewhere the path stays as it is.
pub open spec fn normalized(path: Seq<char>, platform: Platform) -> Seq<char> {
    if platform == Platform::Windows {
        let flipped = replaced(path, slash(), backslash());
        if long_path_prefix().is_prefix_of(flipped) {
            let short = trimmed_start(flipped, long_path_prefix());
            if unc_prefix().is_prefix_of(short) {
                trimmed_start(short, unc_prefix())
            } else {
                short
            }
        } else {
            flipped
        }
    } else {
        path
    }
}

/// Brings a canonical path into the form in which the watcher keys it.
pub fn normalize_path_for_windows(canonical_path: String, platform: Platform) -> (path: String)
    ensures
        path@ == normalized(canonical_path@, platform),
{
    match platform {
        Platform::Windows => {
            proof {
                reveal_strlit("/");
                reveal_strlit("\\");
                reveal_strlit("\\\\?\\");
                reveal_strlit("UNC\\");
                assert("/"@ =~= slash());
                assert("\\"@ =~= backslash());
            }
            let flipped: String = str_replace(canonical_path.as_str(), "/", "\\");
            if str_starts_with(flipped.as_str(), "\\\\?\\") {
                let short: &str = str_trim_start_matches(flipped.as_str(), "\\\\?\\");
                if str_starts_with(short, "UNC\\") {
                    str_trim_start_matches(short, "UNC\\").to_owned()
                } else {
                    short.to_owned()
                }
            } else {
                flipped
            }
        },
        _ => canonical_path,
    }
}

/// What stands at the start of a path below the current directory.
pub open spec fn dot_slash() -> Seq<char> {
    seq!['.', '/']
}

/// The name under which a path is shown: the path without `./` at its start.
pub open spec fn display_name(path: Seq<char>) -> Seq<char> {
    trimmed_start(path, dot_slash())
}

/// The name under which `path` is shown.
pub fn display_path(path: &str) -> (name: &str)
    ensures
        name@ == display_name(path@),
{
    proof {
        reveal_strlit("./");
    }
    str_trim_start_matches(path, "./")
}

/// The bytes `==> `, which open a banner.
pub open spec fn banner_open() -> Seq<u8> {
    seq![0x3Du8, 0x3Du8, 0x3Eu8, 0x20u8]
}

/// The bytes ` <==`, which close a banner.
pub open spec fn banner_close() -> Seq<u8> {
    seq![0x20u8, 0x3Cu8, 0x3Du8, 0x3Du8]
}

/// The banner line for a file shown as `name`: `==> name <==` and a line
/// terminator.
pub open spec fn banner_bytes(name: Seq<char>) -> Seq<u8> {
    banner_open() + encode_utf8(name) + banner_close() + seq![0x0Au8]
}

/// Appends the bytes of `piece` to `line`.
pub fn push_bytes(line: &mut Vec<u8>, piece: &[u8])
    ensures
        final(line)@ == old(line)@ + piece@,
{
    let n: usize = piece.len();
    let mut i: usize = 0;
    while i < n
        invariant
            n == piece@.len(),
            i <= n,
            line@ == old(line)@ + piece@.subrange(0, i as int),
        decreases n - i,
    {
        line.push(piece[i]);
        i = i + 1;
    }
}

/// The banner line for a file shown as `name`.
pub fn banner_line(name: &str) -> (line: Vec<u8>)
    ensures
        line@ == banner_bytes(name@),
{
    let mut line: Vec<u8> = Vec::new();
    line.push(0x3D);
    line.push(0x3D);
    line.push(0x3E);
    line.push(0x20);
    push_bytes(&mut line, name.as_bytes());
    line.push(0x20);
    line.push(0x3C);
    line.push(0x3D);
    line.push(0x3D);
    line.push(0x0A);
    line
}

} // verus!
