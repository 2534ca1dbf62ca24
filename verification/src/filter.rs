//! Which files are followed: those whose path matches a regular expression
//! and, unless binary files are asked for, whose first bytes look like text.

use vstd::prelude::*;
use vstd::string::StringSliceAdditionalSpecFns;
use vstd::utf8::valid_utf8;
use regex::Regex;
use crate::color::{
    colored_banner_bytes, colored_banner_line, highlight, highlighted, ranges_in_order,
};
use crate::opt::Opt;

verus! {

/// `regex::Error`: known to the verifier as a type, with nothing of what is
/// inside it.
#[verifier::external_type_specification]
#[verifier::external_body]
pub struct ExRegexError(regex::Error);

/// Why a filter could not be made.
#[derive(Debug)]
pub enum FilterError {
    /// The regular expression is not well formed; the message says where.
    Syntax(String),
    /// The regular expression compiles to more than the size allowed.
    CompiledTooBig(usize),
    /// Any other refusal.
    Unexpected,
}

/// What the first bytes of a file look like.
#[derive(Clone, Copy, Debug, PartialEq, Eq, Structural)]
pub enum ContentKind {
    /// Binary data.
    Binary,
    /// Text in UTF-8.
    Utf8,
    /// Text in UTF-8 behind a byte order mark.
    Utf8Bom,
    /// Text in UTF-16, little endian.
    Utf16Le,
    /// Text in UTF-16, big endian.
    Utf16Be,
    /// Text in UTF-32, little endian.
    Utf32Le,
    /// Text in UTF-32, big endian.
    Utf32Be,
}

/// What `content_inspector::inspect` makes of a buffer.
pub uninterp spec fn inspected(buffer: Seq<u8>) -> ContentKind;

/// Whether `Regex::new` makes a regular expression of the pattern.
pub uninterp spec fn regex_compiles(pattern: Seq<char>) -> bool;

/// What `Regex::is_match` says of `text` for the regular expression that
/// `Regex::new` makes of `pattern`: whether it matches somewhere in the
/// text. `None` where there is no such regular expression.
pub uninterp spec fn regex_verdict(pattern: Seq<char>, text: Seq<char>) -> Option<bool>;

/// What `Regex::find_iter` finds in `text` for the regular expression that
/// `Regex::new` makes of `pattern`: its matches from left to right, each as
/// the byte offsets of its start and of its end. `None` where there is no
/// such regular expression.
pub uninterp spec fn regex_ranges(pattern: Seq<char>, text: Seq<char>) -> Option<
    Seq<(usize, usize)>,
>;

/// The matches of `pattern` in `text`; none where the pattern does not
/// compile.
pub open spec fn found_ranges(pattern: Seq<char>, text: Seq<char>) -> Seq<(usize, usize)> {
    match regex_ranges(pattern, text) {
        Some(ranges) => ranges,
        None => Seq::empty(),
    }
}

/// `Regex::new`: compiles a pattern and hands back what was wrong with it,
/// if anything was.
#[verifier::external_body]
fn regex_fault(pattern: &str) -> (fault: Option<regex::Error>)
    ensures
        fault is None <==> regex_compiles(pattern@),
{
    Regex::new(pattern).err()
}

/// `Regex::is_match` on what `Regex::new` makes of `pattern`: whether the
/// pattern matches somewhere in `text`, and no answer where the pattern does
/// not compile.
#[verifier::external_body]
fn regex_is_match(pattern: &str, text: &str) -> (r: Option<bool>)
    ensures
        r == regex_verdict(pattern@, text@),
{
    match Regex::new(pattern) {
        Ok(regex) => Some(regex.is_match(text)),
        Err(_) => None,
    }
}

/// `Regex::find_iter` on what `Regex::new` makes of `pattern`: the matches
/// of the pattern in `text`, one after another and not overlapping, each as
/// the byte offsets of its start and of its end. There is an answer exactly
/// where the pattern compiles.
#[verifier::external_body]
fn regex_find_ranges(pattern: &str, text: &str) -> (r: Option<Vec<(usize, usize)>>)
    ensures
        r is Some <==> regex_compiles(pattern@),
        match r {
            Some(ranges) => regex_ranges(pattern@, text@) == Some(ranges@),
            None => regex_ranges(pattern@, text@) is None,
        },
        r matches Some(ranges) ==> ranges_in_order(ranges@, 0, text.spec_bytes().len() as int),
{
    match Regex::new(pattern) {
        Ok(regex) => Some(regex.find_iter(text).map(|m| (m.start(), m.end())).collect()),
        Err(_) => None,
    }
}

/// Tells the variants of `regex::Error` apart.
#[verifier::external_body]
fn regex_error_kind(error: regex::Error) -> (kind: FilterError) {
    match error {
        regex::Error::Syntax(message) => FilterError::Syntax(message),
        regex::Error::CompiledTooBig(limit) => FilterError::CompiledTooBig(limit),
        _ => FilterError::Unexpected,
    }
}

/// `content_inspector::inspect`: the kind of content that a buffer seems to
/// hold, judged by byte order marks, zero bytes and magic numbers.
#[verifier::external_body]
fn inspect(buffer: &[u8]) -> (kind: ContentKind)
    ensures
        kind == inspected(buffer@),
{
    match content_inspector::inspect(buffer) {
        content_inspector::ContentType::BINARY => ContentKind::Binary,
        content_inspector::ContentType::UTF_8 => ContentKind::Utf8,
        content_inspector::ContentType::UTF_8_BOM => ContentKind::Utf8Bom,
        content_inspector::ContentType::UTF_16LE => ContentKind::Utf16Le,
        content_inspector::ContentType::UTF_16BE => ContentKind::Utf16Be,
        content_inspector::ContentType::UTF_32LE => ContentKind::Utf32Le,
        content_inspector::ContentType::UTF_32BE => ContentKind::Utf32Be,
    }
}

/// What `std::str::from_utf8` finds wrong with a buffer: nothing, or a
/// malformed sequence of the length given, or, with no length, a character
/// that the end of the buffer cuts short.
pub uninterp spec fn utf8_fault(buffer: Seq<u8>) -> Option<Option<usize>>;

/// `std::str::from_utf8`: whether the buffer is well-formed UTF-8 and, where
/// it is not, the length of the sequence at fault.
#[verifier::external_body]
fn check_utf8(buffer: &[u8]) -> (fault: Option<Option<usize>>)
    ensures
        fault == utf8_fault(buffer@),
        fault is None <==> valid_utf8(buffer@),
{
    match std::str::from_utf8(buffer) {
        Ok(_) => None,
        Err(e) => Some(e.error_len()),
    }
}

/// Whether content of kind `kind` counts as text, given what is wrong with
/// it as UTF-8: binary data does not; what claims to be UTF-8 does unless it
/// holds a malformed sequence; the wider encodings are taken at their word.
pub open spec fn text_verdict(kind: ContentKind, fault: Option<Option<usize>>) -> bool {
    match kind {
        ContentKind::Binary => false,
        ContentKind::Utf8 | ContentKind::Utf8Bom => match fault {
            None => true,
            Some(length) => length is None,
        },
        _ => true,
    }
}

/// Whether content of kind `kind` counts as text.
pub fn judge_text(kind: ContentKind, fault: Option<Option<usize>>) -> (text: bool)
    ensures
        text == text_verdict(kind, fault),
{
    match kind {
        ContentKind::Binary => false,
        ContentKind::Utf8 | ContentKind::Utf8Bom => match fault {
            None => true,
            Some(length) => length.is_none(),
        },
        _ => true,
    }
}

/// Whether the first bytes of a file look like text.
pub fn is_text(head: &[u8]) -> (text: bool)
    ensures
        text == text_verdict(inspected(head@), utf8_fault(head@)),
        valid_utf8(head@) && inspected(head@) != ContentKind::Binary ==> text,
{
    let kind: ContentKind = inspect(head);
    let fault: Option<Option<usize>> = check_utf8(head);
    judge_text(kind, fault)
}

/// How many bytes of a file are looked at to tell text from binary.
pub const MAX_BUFFER_SIZE: usize = 1024;

/// The filter: the pattern of a regular expression that compiles, and
/// whether binary files are kept out. A path is matched by compiling the
/// pattern and asking the regular expression.
pub struct PathFilter {
    pattern: String,
    filter_binary: bool,
}

/// The pattern that matches every path.
pub open spec fn match_all() -> Seq<char> {
    seq!['.', '*']
}

/// The pattern that `opt` asks for: its regular expression, and without one
/// the pattern that matches every path.
pub open spec fn asked_pattern(opt: &Opt) -> Seq<char> {
    match opt.regex {
        Some(pattern) => pattern@,
        None => match_all(),
    }
}

impl PathFilter {
    #[verifier::type_invariant]
    spec fn sound(&self) -> bool {
        regex_compiles(self.pattern@)
    }

    /// The pattern of the regular expression.
    pub closed spec fn pattern(&self) -> Seq<char> {
        self.pattern@
    }

    /// Whether binary files are kept out.
    pub closed spec fn keeps_binary_out(&self) -> bool {
        self.filter_binary
    }

    /// Whether the regular expression matches somewhere in `path`.
    pub open spec fn matches(&self, path: Seq<char>) -> bool {
        regex_verdict(self.pattern(), path) == Some(true)
    }

    /// The filter that `opt` asks for. Without a regular expression every
    /// path matches. The filter is made exactly where the pattern compiles;
    /// where it does not, the error tells what the regular expression engine
    /// found wrong.
    pub fn new(opt: &Opt) -> (r: Result<PathFilter, FilterError>)
        ensures
            r is Ok <==> regex_compiles(asked_pattern(opt)),
            r matches Ok(filter) ==> {
                &&& filter.pattern() == asked_pattern(opt)
                &&& filter.keeps_binary_out() == !opt.show_binary
            },
    {
        let pattern: String = match &opt.regex {
            Some(pattern) => pattern.clone(),
            None => {
                proof {
                    reveal_strlit(".*");
                    assert(".*"@ =~= match_all());
                }
                ".*".to_owned()
            },
        };
        match regex_fault(pattern.as_str()) {
            None => Ok(PathFilter { pattern, filter_binary: !opt.show_binary }),
            Some(error) => Err(regex_error_kind(error)),
        }
    }

    /// Whether binary files are kept out.
    pub fn filter_binary(&self) -> (b: bool)
        ensures
            b == self.keeps_binary_out(),
    {
        self.filter_binary
    }

    /// Whether the regular expression matches somewhere in `path`.
    pub fn match_path(&self, path: &str) -> (b: bool)
        ensures
            b == self.matches(path@),
    {
        match regex_is_match(self.pattern.as_str(), path) {
            Some(b) => b,
            None => false,
        }
    }

    /// What the regular expression matches in `text`, from left to right.
    pub open spec fn found_in(&self, text: Seq<char>) -> Seq<(usize, usize)> {
        found_ranges(self.pattern(), text)
    }

    /// The bytes of `path` with what the regular expression matches painted
    /// green and the rest blue.
    pub fn print_path_with_color(&self, path: &str) -> (out: Vec<u8>)
        ensures
            ranges_in_order(self.found_in(path@), 0, path.spec_bytes().len() as int),
            out@ == highlighted(path.spec_bytes(), self.found_in(path@), 0),
    {
        proof {
            use_type_invariant(self);
        }
        let ranges: Vec<(usize, usize)> = regex_find_ranges(self.pattern.as_str(), path).unwrap();
        highlight(path.as_bytes(), &ranges)
    }

    /// The coloured banner line of a file shown as `name`, with what the
    /// regular expression matches in the name painted green.
    pub fn colored_banner(&self, name: &str) -> (line: Vec<u8>)
        ensures
            ranges_in_order(self.found_in(name@), 0, name.spec_bytes().len() as int),
            line@ == colored_banner_bytes(name.spec_bytes(), self.found_in(name@)),
    {
        proof {
            use_type_invariant(self);
        }
        let ranges: Vec<(usize, usize)> = regex_find_ranges(self.pattern.as_str(), name).unwrap();
        colored_banner_line(name.as_bytes(), &ranges)
    }

    /// Whether a directory entry is followed, given what was found out about
    /// it: it is a file, its path matches, and it looks like text unless
    /// binary files are let in.
    pub fn keeps(&self, is_file: bool, matched: bool, text: bool) -> (kept: bool)
        ensures
            kept == (is_file && matched && (text || !self.keeps_binary_out())),
    {
        is_file && matched && (text || !self.filter_binary)
    }

    /// Whether the file at `path` is followed, given whether it is a file and
    /// what its first bytes are: it is a file, the regular expression matches
    /// its path, and its first bytes look like text unless binary files are
    /// let in.
    pub fn accepts(&self, path: &str, is_file: bool, head: &[u8]) -> (kept: bool)
        ensures
            kept == (is_file && self.matches(path@) && (!self.keeps_binary_out() || text_verdict(
                inspected(head@),
                utf8_fault(head@),
            ))),
    {
        if !is_file {
            return false;
        }
        if !self.match_path(path) {
            return false;
        }
        if self.filter_binary {
            is_text(head)
        } else {
            true
        }
    }
}

} // verus!
