//! The configuration of a run.

use vstd::prelude::*;

verus! {

/// The configuration: how many lines to show at first, what to watch and how
/// deep, which files to take, and whether to colour the banners.
pub struct Opt {
    /// Lines to show of each file at the start; zero shows none.
    pub lines: u64,
    /// Whether directories below the watched one are watched too.
    pub recursive: bool,
    /// Whether binary files are shown.
    pub show_binary: bool,
    /// How deep to walk when watching recursively; `None` sets no limit.
    pub depth: Option<usize>,
    /// The regular expression that a path must match.
    pub regex: Option<String>,
    /// The directory to watch; `None` stands for the current directory.
    pub path: Option<String>,
    /// Whether banners are coloured.
    pub colorize: bool,
}

/// Why a configuration could not be made.
#[derive(Clone, Copy, Debug, PartialEq, Eq, Structural)]
pub enum ParseError {
    /// The colour mode was none of `auto`, `never` and `always`.
    ColorParseFailed,
}

/// When banners are coloured.
#[derive(Clone, Copy, Debug, PartialEq, Eq, Structural)]
pub enum ColorMode {
    /// When the output is a terminal.
    Auto,
    /// Never.
    Never,
    /// Always.
    Always,
}

/// Whether two strings hold the same characters.
pub fn same_text(a: &str, b: &str) -> (same: bool)
    ensures
        same == (a@ == b@),
{
    let left: String = a.to_owned();
    let right: String = b.to_owned();
    left == right
}

/// The colour mode that `word` names, where it names one.
pub open spec fn color_mode_of(word: Seq<char>) -> Option<ColorMode> {
    if word == "auto"@ {
        Some(ColorMode::Auto)
    } else if word == "never"@ {
        Some(ColorMode::Never)
    } else if word == "always"@ {
        Some(ColorMode::Always)
    } else {
        None
    }
}

/// Reads a colour mode: `auto`, `never` or `always`.
pub fn parse_color_mode(word: &str) -> (r: Result<ColorMode, ParseError>)
    ensures
        match r {
            Ok(mode) => color_mode_of(word@) == Some(mode),
            Err(e) => color_mode_of(word@) is None && e == ParseError::ColorParseFailed,
        },
{
    if same_text(word, "auto") {
        Ok(ColorMode::Auto)
    } else if same_text(word, "never") {
        Ok(ColorMode::Never)
    } else if same_text(word, "always") {
        Ok(ColorMode::Always)
    } else {
        Err(ParseError::ColorParseFailed)
    }
}

/// Whether to colour under `mode`, given whether the output is a terminal.
pub open spec fn colorize_under(mode: ColorMode, output_is_terminal: bool) -> bool {
    match mode {
        ColorMode::Auto => output_is_terminal,
        ColorMode::Never => false,
        ColorMode::Always => true,
    }
}

/// The first of two optional values that is there.
pub open spec fn first_of<A>(first: Option<A>, second: Option<A>) -> Option<A> {
    if first is Some {
        first
    } else {
        second
    }
}

/// The view of an optional string.
pub open spec fn text_of(s: Option<String>) -> Option<Seq<char>> {
    match s {
        Some(s) => Some(s@),
        None => None,
    }
}

impl Opt {
    /// Makes the configuration from what the command line gave.
    ///
    /// A named regular expression or path goes before a positional one. The
    /// colour mode defaults to `auto`, which colours when the output is a
    /// terminal; a mode that is none of the three is refused.
    pub fn from_args(
        lines: u64,
        recursive: bool,
        show_binary: bool,
        depth: Option<usize>,
        regex: Option<String>,
        positional_regex: Option<String>,
        path: Option<String>,
        positional_path: Option<String>,
        color: Option<&str>,
        output_is_terminal: bool,
    ) -> (r: Result<Opt, ParseError>)
        ensures
            match r {
                Ok(opt) => {
                    &&& opt.lines == lines
                    &&& opt.recursive == recursive
                    &&& opt.show_binary == show_binary
                    &&& opt.depth == depth
                    &&& text_of(opt.regex) == first_of(text_of(regex), text_of(positional_regex))
                    &&& text_of(opt.path) == first_of(text_of(path), text_of(positional_path))
                    &&& match color {
                        Some(word) => color_mode_of(word@) matches Some(mode) && opt.colorize
                            == colorize_under(mode, output_is_terminal),
                        None => opt.colorize == output_is_terminal,
                    }
                },
                Err(e) => {
                    &&& e == ParseError::ColorParseFailed
                    &&& color matches Some(word) && color_mode_of(word@) is None
                },
            },
    {
        let mode: ColorMode = match color {
            Some(word) => match parse_color_mode(word) {
                Ok(mode) => mode,
                Err(e) => {
                    return Err(e);
                },
            },
            None => ColorMode::Auto,
        };
        let colorize: bool = match mode {
            ColorMode::Auto => output_is_terminal,
            ColorMode::Never => false,
            ColorMode::Always => true,
        };
        let regex: Option<String> = match regex {
            Some(r) => Some(r),
            None => positional_regex,
        };
        let path: Option<String> = match path {
            Some(p) => Some(p),
            None => positional_path,
        };
        Ok(Opt { lines, recursive, show_binary, depth, regex, path, colorize })
    }

    /// The directory to watch: the path given, or the current directory.
    pub fn watch_path(&self) -> (path: &str)
        ensures
            path@ == match self.path {
                Some(p) => p@,
                None => "."@,
            },
    {
        match &self.path {
            Some(p) => p.as_str(),
            None => ".",
        }
    }

    /// How deep to walk: as deep as was asked for when watching recursively,
    /// which may be without limit, and one level otherwise.
    pub fn depth(&self) -> (d: Option<usize>)
        ensures
            d == if self.recursive {
                self.depth
            } else {
                Some(1usize)
            },
    {
        if self.recursive {
            self.depth
        } else {
            Some(1)
        }
    }
}

} // verus!
