use regtail::color::{colored_banner_line, highlight};
use regtail::error::{
    exit_code, IoError, WatchError, EX_ERR, EX_IOERR, EX_NOINPUT, EX_OK, EX_SOFTWARE,
};
use regtail::filter::{is_text, judge_text, ContentKind, FilterError, PathFilter, MAX_BUFFER_SIZE};
use regtail::opt::{parse_color_mode, same_text, ColorMode, Opt, ParseError};
use regtail::path::{banner_line, display_path, normalize_path_for_windows, Platform};
use regtail::path_map::PathMap;
use regtail::event::{
    plan, Op, Plan, OP_CHMOD, OP_CLOSE_WRITE, OP_CREATE, OP_REMOVE, OP_RENAME, OP_RESCAN,
    OP_WRITE,
};

fn opt_with(regex: Option<&str>, show_binary: bool) -> Opt {
    Opt::from_args(
        10,
        false,
        show_binary,
        None,
        regex.map(|r| r.to_string()),
        None,
        None,
        None,
        None,
        false,
    )
    .ok()
    .unwrap()
}

#[test]
fn windows_paths_lose_their_long_path_prefix() {
    let n = |p: &str| normalize_path_for_windows(p.to_string(), Platform::Windows);
    assert_eq!(n("\\\\?\\C:\\logs\\a.log"), "C:\\logs\\a.log");
    assert_eq!(n("\\\\?\\UNC\\server\\share\\a.log"), "server\\share\\a.log");
    assert_eq!(n("C:/logs/sub/a.log"), "C:\\logs\\sub\\a.log");
    assert_eq!(n("//?/C:/logs/a.log"), "C:\\logs\\a.log");
    assert_eq!(n("\\\\?\\\\\\?\\C:\\a"), "C:\\a");
    assert_eq!(n("UNC\\server\\a"), "UNC\\server\\a");
    assert_eq!(n(""), "");
}

#[test]
fn elsewhere_paths_stay_as_they_are() {
    let path = "\\\\?\\C:/logs/a.log".to_string();
    assert_eq!(normalize_path_for_windows(path.clone(), Platform::Other), path);
    assert_eq!(normalize_path_for_windows(path.clone(), Platform::MacOs), path);
}

#[test]
fn a_path_is_shown_without_dot_slash_at_its_start() {
    assert_eq!(display_path("./a/b"), "a/b");
    assert_eq!(display_path("././a"), "a");
    assert_eq!(display_path("a/./b"), "a/./b");
    assert_eq!(display_path("../a"), "../a");
    assert_eq!(display_path("./"), "");
}

#[test]
fn a_banner_reads_arrow_name_arrow_and_ends_the_line() {
    assert_eq!(banner_line("dir/file.log"), b"==> dir/file.log <==\n".to_vec());
    assert_eq!(banner_line(""), b"==>  <==\n".to_vec());
    assert_eq!(banner_line("日本"), "==> 日本 <==\n".as_bytes().to_vec());
}

#[test]
fn painted_text_stands_between_its_escape_sequences() {
    assert_eq!(highlight(b"abc", &Vec::new()), b"\x1b[1;34mabc\x1b[0m".to_vec());
    assert_eq!(
        highlight(b"abcdef", &vec![(1, 3), (3, 3), (5, 6)]),
        b"\x1b[1;34ma\x1b[0m\x1b[1;32mbc\x1b[0m\x1b[1;34m\x1b[0m\x1b[1;32m\x1b[0m\x1b[1;34mde\x1b[0m\x1b[1;32mf\x1b[0m\x1b[1;34m\x1b[0m"
            .to_vec()
    );
}

#[test]
fn a_coloured_banner_paints_its_arrows_blue() {
    assert_eq!(
        colored_banner_line(b"ab", &vec![(0, 1)]),
        b"\x1b[1;34m==> \x1b[0m\x1b[1;34m\x1b[0m\x1b[1;32ma\x1b[0m\x1b[1;34mb\x1b[0m\x1b[1;34m <==\x1b[0m\n"
            .to_vec()
    );
}

#[test]
fn the_filter_paints_what_its_regex_matches_green() {
    let filter = PathFilter::new(&opt_with(Some("lo+g"), false)).ok().unwrap();
    assert_eq!(
        filter.print_path_with_color("a.loog.lg"),
        b"\x1b[1;34ma.\x1b[0m\x1b[1;32mloog\x1b[0m\x1b[1;34m.lg\x1b[0m".to_vec()
    );
    assert_eq!(
        filter.colored_banner("log"),
        b"\x1b[1;34m==> \x1b[0m\x1b[1;34m\x1b[0m\x1b[1;32mlog\x1b[0m\x1b[1;34m\x1b[0m\x1b[1;34m <==\x1b[0m\n"
            .to_vec()
    );
}

#[test]
fn the_filter_matches_anywhere_in_the_path() {
    let filter = PathFilter::new(&opt_with(Some("\\.log$"), false)).ok().unwrap();
    assert!(filter.match_path("/var/app.log"));
    assert!(!filter.match_path("/var/app.log.1"));
    let all = PathFilter::new(&opt_with(None, false)).ok().unwrap();
    assert!(all.match_path(""));
    assert!(all.match_path("/anything"));
}

#[test]
fn a_malformed_regex_is_a_syntax_error() {
    assert!(matches!(
        PathFilter::new(&opt_with(Some("a("), false)),
        Err(FilterError::Syntax(_))
    ));
}

#[test]
fn an_enormous_regex_is_too_big() {
    assert!(matches!(
        PathFilter::new(&opt_with(Some("\\w{1000}{1000}"), false)),
        Err(FilterError::CompiledTooBig(_))
    ));
}

#[test]
fn a_file_is_accepted_when_it_is_a_file_its_path_matches_and_it_is_text() {
    let logs = PathFilter::new(&opt_with(Some("log"), false)).ok().unwrap();
    assert!(logs.accepts("/var/log/a", true, b"text\n"));
    assert!(!logs.accepts("/var/log/a", false, b"text\n"));
    assert!(!logs.accepts("/var/lib/a", true, b"text\n"));
    assert!(!logs.accepts("/var/log/a", true, b"\0\0"));
    assert!(!logs.accepts("/var/log/a", true, b"bad \xff byte"));
    assert!(logs.accepts("/var/log/a", true, b"cut short \xe6\x97"));
    let all = PathFilter::new(&opt_with(Some("log"), true)).ok().unwrap();
    assert!(all.accepts("/var/log/a", true, b"\0\0"));
    assert!(!all.accepts("/var/lib/a", true, b"\0\0"));
}

#[test]
fn binary_files_are_kept_out_unless_asked_for() {
    let strict = PathFilter::new(&opt_with(None, false)).ok().unwrap();
    let open = PathFilter::new(&opt_with(None, true)).ok().unwrap();
    assert!(strict.filter_binary());
    assert!(!open.filter_binary());
    assert!(!strict.accepts("binfile", true, b"bin\0file"));
    assert!(open.accepts("binfile", true, b"bin\0file"));
    assert!(strict.accepts("text", true, b"plain text\n"));
    assert!(!strict.accepts("dir", false, b""));
    assert!(!open.accepts("dir", false, b""));
    let picky = PathFilter::new(&opt_with(Some("^text"), true)).ok().unwrap();
    assert!(!picky.accepts("binfile", true, b"plain text\n"));
    assert!(strict.keeps(true, true, true));
    assert!(!strict.keeps(true, true, false));
    assert!(open.keeps(true, true, false));
    assert!(!open.keeps(true, false, true));
    assert!(!open.keeps(false, true, true));
}

#[test]
fn text_is_told_from_binary_by_the_first_bytes() {
    assert_eq!(MAX_BUFFER_SIZE, 1024);
    assert!(is_text(b""));
    assert!(is_text(b"hello"));
    assert!(is_text("caf\u{e9}".as_bytes()));
    assert!(!is_text(b"a\0b"));
    assert!(!is_text(b"%PDF-1.4"));
    assert!(is_text(b"\xEF\xBB\xBFwith a mark"));
    assert!(!is_text(b"bad \xff byte"));
    assert!(is_text(b"cut short \xe6\x97"));
    assert!(is_text(b"\xFF\xFEwide"));
    assert!(is_text(b"\xFE\xFF\0w"));
    assert!(is_text(b"\xFF\xFE\0\0wide"));
    assert!(is_text(b"\0\0\xFE\xFFwide"));
}

#[test]
fn the_verdict_on_text_goes_by_kind_and_fault() {
    assert!(!judge_text(ContentKind::Binary, None));
    assert!(judge_text(ContentKind::Utf8, None));
    assert!(judge_text(ContentKind::Utf8, Some(None)));
    assert!(!judge_text(ContentKind::Utf8, Some(Some(1))));
    assert!(!judge_text(ContentKind::Utf8Bom, Some(Some(2))));
    assert!(judge_text(ContentKind::Utf16Le, Some(Some(1))));
    assert!(judge_text(ContentKind::Utf16Be, Some(Some(1))));
    assert!(judge_text(ContentKind::Utf32Le, Some(Some(1))));
    assert!(judge_text(ContentKind::Utf32Be, Some(Some(1))));
}

#[test]
fn colour_modes_are_read_by_name() {
    assert_eq!(parse_color_mode("auto"), Ok(ColorMode::Auto));
    assert_eq!(parse_color_mode("never"), Ok(ColorMode::Never));
    assert_eq!(parse_color_mode("always"), Ok(ColorMode::Always));
    assert_eq!(parse_color_mode("sometimes"), Err(ParseError::ColorParseFailed));
    assert_eq!(parse_color_mode(""), Err(ParseError::ColorParseFailed));
    assert!(same_text("a", "a"));
    assert!(!same_text("a", "A"));
}

fn colorize(color: Option<&str>, terminal: bool) -> Result<bool, ParseError> {
    Opt::from_args(10, false, false, None, None, None, None, None, color, terminal)
        .map(|opt| opt.colorize)
}

#[test]
fn colours_follow_the_mode_and_the_terminal() {
    assert_eq!(colorize(None, true), Ok(true));
    assert_eq!(colorize(None, false), Ok(false));
    assert_eq!(colorize(Some("auto"), true), Ok(true));
    assert_eq!(colorize(Some("auto"), false), Ok(false));
    assert_eq!(colorize(Some("never"), true), Ok(false));
    assert_eq!(colorize(Some("always"), false), Ok(true));
    assert_eq!(colorize(Some("blue"), false), Err(ParseError::ColorParseFailed));
}

#[test]
fn named_arguments_go_before_positional_ones() {
    let s = |t: &str| Some(t.to_string());
    let opt = Opt::from_args(3, true, true, Some(4), s("named"), s("pos"), s("/n"), s("/p"), None, false)
        .ok()
        .unwrap();
    assert_eq!(opt.lines, 3);
    assert_eq!(opt.regex, s("named"));
    assert_eq!(opt.watch_path(), "/n");
    assert_eq!(opt.depth(), Some(4));
    assert!(opt.recursive && opt.show_binary);
    let opt = Opt::from_args(3, false, false, Some(4), None, s("pos"), None, s("/p"), None, false)
        .ok()
        .unwrap();
    assert_eq!(opt.regex, s("pos"));
    assert_eq!(opt.watch_path(), "/p");
    assert_eq!(opt.depth(), Some(1));
}

#[test]
fn the_watch_path_defaults_to_the_current_directory() {
    let opt = opt_with(None, false);
    assert_eq!(opt.watch_path(), ".");
    assert_eq!(opt.regex, None);
}

#[test]
fn a_recursive_watch_without_a_depth_has_no_limit() {
    let opt = Opt::from_args(10, true, false, None, None, None, None, None, None, false)
        .ok()
        .unwrap();
    assert_eq!(opt.depth(), None);
}

#[test]
fn each_way_of_ending_has_its_exit_code() {
    assert_eq!(exit_code(&Ok(())), 0);
    assert_eq!(exit_code(&Err(WatchError::Generic("x".to_string()))), 1);
    assert_eq!(exit_code(&Err(WatchError::PathNotFound)), 66);
    assert_eq!(exit_code(&Err(WatchError::WatchNotFound)), 70);
    assert_eq!(exit_code(&Err(WatchError::Io(IoError::Other))), 74);
    assert_eq!((EX_OK, EX_ERR, EX_NOINPUT, EX_SOFTWARE, EX_IOERR), (0, 1, 66, 70, 74));
}

#[test]
fn the_operation_flags_are_those_of_the_event_source() {
    assert_eq!(
        (OP_CHMOD, OP_CREATE, OP_REMOVE, OP_RENAME, OP_WRITE, OP_CLOSE_WRITE, OP_RESCAN),
        (1, 2, 4, 8, 16, 32, 64)
    );
    assert!(Op { bits: OP_WRITE | OP_RENAME }.contains(OP_WRITE));
    assert!(!Op { bits: OP_WRITE | OP_RENAME }.contains(OP_REMOVE));
    assert!(Op { bits: 0 }.contains(0));
}

fn calls(rename: bool, remove: bool, write: bool) -> Plan {
    Plan { rename, remove, write }
}

#[test]
fn elsewhere_only_a_single_operation_is_handled() {
    for platform in [Platform::Other, Platform::Windows] {
        assert_eq!(plan(platform, Op { bits: OP_WRITE }, false), calls(false, false, true));
        assert_eq!(plan(platform, Op { bits: OP_REMOVE }, true), calls(false, true, false));
        assert_eq!(plan(platform, Op { bits: OP_RENAME }, false), calls(true, false, false));
        assert_eq!(plan(platform, Op { bits: OP_CREATE }, false), calls(false, false, false));
        assert_eq!(plan(platform, Op { bits: OP_WRITE | OP_CREATE }, false), calls(false, false, false));
        assert_eq!(plan(platform, Op { bits: 0 }, false), calls(false, false, false));
    }
}

#[test]
fn on_macos_fused_operations_are_taken_apart() {
    let mac = Platform::MacOs;
    assert_eq!(plan(mac, Op { bits: OP_RENAME | OP_WRITE }, true), calls(true, false, false));
    assert_eq!(plan(mac, Op { bits: OP_RENAME | OP_REMOVE }, true), calls(true, false, false));
    assert_eq!(plan(mac, Op { bits: OP_RENAME | OP_WRITE }, false), calls(false, false, true));
    assert_eq!(plan(mac, Op { bits: OP_RENAME | OP_REMOVE }, false), calls(false, false, false));
    assert_eq!(plan(mac, Op { bits: OP_REMOVE | OP_WRITE }, false), calls(false, true, true));
    assert_eq!(plan(mac, Op { bits: OP_REMOVE }, true), calls(false, true, false));
    assert_eq!(plan(mac, Op { bits: OP_CREATE | OP_WRITE }, false), calls(false, false, true));
    assert_eq!(plan(mac, Op { bits: OP_CHMOD }, false), calls(false, false, false));
}

#[test]
fn a_path_map_holds_each_path_once() {
    let mut map: PathMap<u32> = PathMap::new();
    assert_eq!(map.len(), 0);
    assert_eq!(map.insert("a".to_string(), 1), None);
    assert_eq!(map.insert("b".to_string(), 2), None);
    assert_eq!(map.insert("a".to_string(), 3), Some(1));
    assert_eq!(map.len(), 2);
    assert_eq!(map.get(&"a".to_string()), Some(&3));
    assert_eq!(map.get(&"c".to_string()), None);
    assert!(map.contains_key(&"b".to_string()));
    let mut keys = vec![map.key_at(0).clone(), map.key_at(1).clone()];
    keys.sort();
    assert_eq!(keys, vec!["a".to_string(), "b".to_string()]);
    assert_eq!(map.remove(&"b".to_string()), Some(2));
    assert_eq!(map.remove(&"b".to_string()), None);
    assert!(!map.contains_key(&"b".to_string()));
    assert_eq!(map.len(), 1);
}
