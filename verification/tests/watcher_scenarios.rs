use std::cell::RefCell;
use std::collections::HashMap;
use std::rc::Rc;

use regtail::error::{IoError, WatchError};
use regtail::opt::Opt;
use regtail::path::Platform;
use regtail::pool::ReaderCreator;
use regtail::reader::{ByteSource, Length, Reader, SeekFrom, SeekPos};
use regtail::event::{Op, RawEvent, Received, OP_REMOVE, OP_RENAME, OP_WRITE};
use regtail::watcher::{DirectoryWatcher, PathProbe, SetupError};

type Shared = Rc<RefCell<Vec<u8>>>;

struct SharedReader {
    data: Shared,
    pos: u64,
}

impl ByteSource for SharedReader {}

impl Length for SharedReader {
    fn len(&mut self) -> Result<u64, IoError> {
        Ok(self.data.borrow().len() as u64)
    }
}

impl SeekPos for SharedReader {
    fn seek_pos(&self) -> u64 {
        self.pos
    }
}

impl Reader for SharedReader {
    fn read(&mut self, buf: &mut Vec<u8>, limit: usize) -> Result<usize, IoError> {
        let data = self.data.borrow();
        let start = std::cmp::min(self.pos as usize, data.len());
        let end = std::cmp::min(start + limit, data.len());
        buf.extend_from_slice(&data[start..end]);
        self.pos += (end - start) as u64;
        Ok(end - start)
    }

    fn seek(&mut self, pos: SeekFrom) -> Result<u64, IoError> {
        let len = self.data.borrow().len() as i128;
        let target = match pos {
            SeekFrom::Start(n) => n as i128,
            SeekFrom::End(d) => len + d as i128,
            SeekFrom::Current(d) => self.pos as i128 + d as i128,
        };
        if target < 0 || target > u64::MAX as i128 {
            return Err(IoError::InvalidInput);
        }
        self.pos = target as u64;
        Ok(self.pos)
    }
}

#[derive(Clone)]
struct Disk {
    files: Rc<RefCell<HashMap<String, Shared>>>,
    locked: Rc<RefCell<Vec<String>>>,
    opened: Rc<RefCell<usize>>,
}

impl Disk {
    fn new() -> Disk {
        Disk {
            files: Rc::new(RefCell::new(HashMap::new())),
            locked: Rc::new(RefCell::new(Vec::new())),
            opened: Rc::new(RefCell::new(0)),
        }
    }

    fn put(&self, path: &str, content: &str) {
        self.files
            .borrow_mut()
            .insert(path.to_string(), Rc::new(RefCell::new(content.as_bytes().to_vec())));
    }

    fn append(&self, path: &str, content: &str) {
        let files = self.files.borrow();
        files[path].borrow_mut().extend_from_slice(content.as_bytes());
    }

    fn truncate(&self, path: &str) {
        let files = self.files.borrow();
        files[path].borrow_mut().clear();
    }

    fn remove(&self, path: &str) {
        self.files.borrow_mut().remove(path);
    }

    fn rename(&self, from: &str, to: &str) {
        let mut files = self.files.borrow_mut();
        let data = files.remove(from).unwrap();
        files.insert(to.to_string(), data);
    }

    fn lock(&self, path: &str) {
        self.locked.borrow_mut().push(path.to_string());
    }
}

impl ReaderCreator<String, SharedReader> for Disk {
    fn create_reader(&self, path: &String) -> Result<SharedReader, IoError> {
        if self.locked.borrow().contains(path) {
            return Err(IoError::PermissionDenied);
        }
        match self.files.borrow().get(path) {
            Some(data) => {
                *self.opened.borrow_mut() += 1;
                Ok(SharedReader { data: Rc::clone(data), pos: 0 })
            }
            None => Err(IoError::NotFound),
        }
    }
}

impl PathProbe<SharedReader> for Disk {
    fn path_exists(&self, path: &String) -> bool {
        self.files.borrow().contains_key(path)
    }

    fn canonicalize(&self, path: &String) -> Result<String, IoError> {
        let full = match path.strip_prefix("./") {
            Some(rest) => format!("/w/{}", rest),
            None => path.clone(),
        };
        if self.files.borrow().contains_key(&full) {
            Ok(full)
        } else {
            Err(IoError::NotFound)
        }
    }
}

type Watcher = DirectoryWatcher<SharedReader, Disk, Vec<u8>>;

fn options(lines: u64, regex: Option<&str>) -> Opt {
    Opt::from_args(
        lines,
        false,
        false,
        None,
        regex.map(|r| r.to_string()),
        None,
        Some("/w".to_string()),
        None,
        Some("never"),
        false,
    )
    .ok()
    .unwrap()
}

fn watcher_on(disk: &Disk, opt: &Opt, platform: Platform) -> Watcher {
    match DirectoryWatcher::new(opt, true, Some("/w".to_string()), platform, disk.clone(), Vec::new())
    {
        Ok(watcher) => watcher,
        Err(_) => panic!("the watcher could not be set up"),
    }
}

fn event(path: &str, bits: u32, cookie: Option<u32>) -> Received {
    Received::Event(RawEvent { path: Some(path.to_string()), op: Some(Op { bits }), cookie })
}

fn output(watcher: &Watcher) -> String {
    String::from_utf8(watcher.writer().clone()).unwrap()
}

#[test]
fn files_written_into_an_empty_directory_appear_under_banners() {
    let disk = Disk::new();
    let opt = options(10, None);
    let mut watcher = watcher_on(&disk, &opt, Platform::Other);
    assert!(watcher.bootstrap(&Vec::new(), opt.lines).is_ok());
    disk.put("/w/file1", "test1!\n");
    assert!(watcher.step(event("/w/file1", OP_WRITE, None)).is_ok());
    disk.put("/w/file2", "test2!\n");
    assert!(watcher.step(event("/w/file2", OP_WRITE, None)).is_ok());
    assert_eq!(output(&watcher), "==> file1 <==\ntest1!\n\n==> file2 <==\ntest2!\n");
}

#[test]
fn appended_content_follows_the_initial_tail_without_a_second_banner() {
    let disk = Disk::new();
    disk.put("/w/file1", "test1!\n");
    let opt = options(10, None);
    let mut watcher = watcher_on(&disk, &opt, Platform::Other);
    assert!(watcher.bootstrap(&vec!["./file1".to_string()], opt.lines).is_ok());
    disk.append("/w/file1", "test2!\n");
    assert!(watcher.step(event("/w/file1", OP_WRITE, None)).is_ok());
    disk.put("/w/file2", "test3!\n");
    assert!(watcher.step(event("/w/file2", OP_WRITE, None)).is_ok());
    let out = output(&watcher);
    assert!(out.contains("file1 <==\ntest1!\ntest2!\n"));
    assert!(out.contains("file2 <==\ntest3!\n"));
    assert_eq!(out, "==> file1 <==\ntest1!\ntest2!\n\n==> file2 <==\ntest3!\n");
}

#[test]
fn a_renamed_file_is_followed_under_its_new_name() {
    let disk = Disk::new();
    disk.put("/w/file1", "test1");
    let opt = options(10, None);
    let mut watcher = watcher_on(&disk, &opt, Platform::Other);
    assert!(watcher.bootstrap(&vec!["./file1".to_string()], opt.lines).is_ok());
    disk.rename("/w/file1", "/w/file2");
    assert!(watcher.step(event("/w/file1", OP_RENAME, Some(7))).is_ok());
    assert_eq!(watcher.rename_in_flight(7), Some(true));
    assert!(!watcher.is_followed(&"/w/file1".to_string()));
    assert!(watcher.step(event("/w/file2", OP_RENAME, Some(7))).is_ok());
    assert_eq!(watcher.rename_in_flight(7), None);
    assert!(watcher.is_followed(&"/w/file2".to_string()));
    disk.append("/w/file2", "test2");
    assert!(watcher.step(event("/w/file2", OP_WRITE, None)).is_ok());
    let out = output(&watcher);
    assert!(out.contains("file1 <==\ntest1\n\n==>"));
    assert!(out.contains("file2 <==\ntest2"));
    assert_eq!(out, "==> file1 <==\ntest1\n\n==> file2 <==\ntest2");
}

#[test]
fn a_file_made_again_after_its_removal_is_shown_from_its_start() {
    let disk = Disk::new();
    disk.put("/w/removed_file", "line1\n");
    let opt = options(10, None);
    let mut watcher = watcher_on(&disk, &opt, Platform::Other);
    assert!(watcher.bootstrap(&vec!["./removed_file".to_string()], opt.lines).is_ok());
    disk.remove("/w/removed_file");
    assert!(watcher.step(event("/w/removed_file", OP_REMOVE, None)).is_ok());
    assert!(!watcher.is_followed(&"/w/removed_file".to_string()));
    assert_eq!(watcher.open_readers(), 0);
    disk.put("/w/removed_file", "line2\n");
    assert!(watcher.step(event("/w/removed_file", OP_WRITE, None)).is_ok());
    let out = output(&watcher);
    assert!(out.contains("line1\n\n==>"));
    assert!(out.contains("removed_file <==\nline2"));
    assert_eq!(out, "==> removed_file <==\nline1\n\n==> removed_file <==\nline2\n");
}

#[test]
fn a_truncated_file_is_read_again_from_its_start() {
    let disk = Disk::new();
    disk.put("/w/replaced", "line1\n");
    let opt = options(10, None);
    let mut watcher = watcher_on(&disk, &opt, Platform::Other);
    assert!(watcher.bootstrap(&vec!["./replaced".to_string()], opt.lines).is_ok());
    assert_eq!(watcher.offset_of(&"/w/replaced".to_string()), Some(6));
    disk.truncate("/w/replaced");
    assert!(watcher.step(event("/w/replaced", OP_WRITE, None)).is_ok());
    assert_eq!(watcher.offset_of(&"/w/replaced".to_string()), Some(0));
    disk.append("/w/replaced", "new line1\n");
    assert!(watcher.step(event("/w/replaced", OP_WRITE, None)).is_ok());
    assert_eq!(output(&watcher), "==> replaced <==\nline1\nnew line1\n");
}

#[test]
fn a_path_that_the_regex_does_not_match_is_passed_over() {
    let disk = Disk::new();
    disk.put("/w/file", "content\n");
    let opt = options(10, Some("none"));
    let mut watcher = watcher_on(&disk, &opt, Platform::Other);
    assert!(watcher.step(event("/w/file", OP_WRITE, None)).is_ok());
    assert_eq!(output(&watcher), "");
    assert!(!watcher.is_followed(&"/w/file".to_string()));
    assert!(watcher.selected_file().is_none());
}

#[test]
fn with_no_lines_asked_for_only_what_is_appended_is_shown() {
    let disk = Disk::new();
    disk.put("/w/file", "not shown");
    let opt = options(0, None);
    let mut watcher = watcher_on(&disk, &opt, Platform::Other);
    assert!(watcher.bootstrap(&vec!["./file".to_string()], opt.lines).is_ok());
    assert_eq!(output(&watcher), "");
    assert!(watcher.selected_file().is_none());
    assert_eq!(watcher.offset_of(&"/w/file".to_string()), Some(9));
    disk.append("/w/file", "to be shown");
    assert!(watcher.step(event("/w/file", OP_WRITE, None)).is_ok());
    let out = output(&watcher);
    assert!(out.contains("file <==\nto be shown"));
    assert!(!out.contains("not shown"));
    assert_eq!(out, "==> file <==\nto be shown");
}

#[test]
fn a_banner_never_starts_in_the_middle_of_a_line() {
    let disk = Disk::new();
    disk.put("/w/a", "no newline");
    disk.put("/w/b", "second\n");
    let opt = options(10, None);
    let mut watcher = watcher_on(&disk, &opt, Platform::Other);
    assert!(watcher.step(event("/w/a", OP_WRITE, None)).is_ok());
    assert!(watcher.step(event("/w/b", OP_WRITE, None)).is_ok());
    disk.append("/w/a", " more");
    assert!(watcher.step(event("/w/a", OP_WRITE, None)).is_ok());
    assert_eq!(
        output(&watcher),
        "==> a <==\nno newline\n\n==> b <==\nsecond\n\n==> a <==\n more"
    );
}

#[test]
fn the_initial_tails_are_separated_like_later_output() {
    let disk = Disk::new();
    disk.put("/w/a", "1\n2\n3\n");
    disk.put("/w/b", "x");
    disk.put("/w/c", "y\n");
    let opt = options(2, None);
    let mut watcher = watcher_on(&disk, &opt, Platform::Other);
    let walked = vec!["./a".to_string(), "./b".to_string(), "./c".to_string()];
    assert!(watcher.bootstrap(&walked, opt.lines).is_ok());
    assert_eq!(output(&watcher), "==> a <==\n2\n3\n\n==> b <==\nx\n\n==> c <==\ny\n");
    assert_eq!(watcher.selected_file(), &Some("/w/c".to_string()));
}

#[test]
fn a_write_to_a_path_that_is_gone_prints_its_banner_and_follows_nothing() {
    let disk = Disk::new();
    let opt = options(10, None);
    let mut watcher = watcher_on(&disk, &opt, Platform::Other);
    assert!(watcher.step(event("/w/ghost", OP_WRITE, None)).is_ok());
    assert_eq!(output(&watcher), "==> ghost <==\n");
    assert!(!watcher.is_followed(&"/w/ghost".to_string()));
    assert_eq!(watcher.selected_file(), &Some("/w/ghost".to_string()));
}

#[test]
fn a_rename_of_a_file_that_is_not_followed_leaves_a_tombstone_that_the_partner_consumes() {
    let disk = Disk::new();
    let opt = options(10, None);
    let mut watcher = watcher_on(&disk, &opt, Platform::Other);
    assert!(watcher.step(event("/w/unknown", OP_RENAME, Some(3))).is_ok());
    assert_eq!(watcher.rename_in_flight(3), Some(false));
    assert!(watcher.step(event("/w/other", OP_RENAME, Some(3))).is_ok());
    assert_eq!(watcher.rename_in_flight(3), None);
    assert!(!watcher.is_followed(&"/w/other".to_string()));
    assert_eq!(output(&watcher), "");
}

#[test]
fn a_rename_without_a_cookie_changes_nothing() {
    let disk = Disk::new();
    disk.put("/w/a", "a\n");
    let opt = options(10, None);
    let mut watcher = watcher_on(&disk, &opt, Platform::Other);
    assert!(watcher.bootstrap(&vec!["./a".to_string()], opt.lines).is_ok());
    assert!(watcher.step(event("/w/a", OP_RENAME, None)).is_ok());
    assert!(watcher.is_followed(&"/w/a".to_string()));
    assert_eq!(watcher.selected_file(), &Some("/w/a".to_string()));
}

#[test]
fn a_file_renamed_to_a_path_that_does_not_match_is_followed_no_longer() {
    let disk = Disk::new();
    disk.put("/w/app.log", "a\n");
    let opt = options(10, Some("\\.log$"));
    let mut watcher = watcher_on(&disk, &opt, Platform::Other);
    assert!(watcher.bootstrap(&vec!["./app.log".to_string()], opt.lines).is_ok());
    assert!(watcher.step(event("/w/app.log", OP_RENAME, Some(9))).is_ok());
    assert!(watcher.step(event("/w/app.old", OP_RENAME, Some(9))).is_ok());
    assert_eq!(watcher.rename_in_flight(9), None);
    assert!(!watcher.is_followed(&"/w/app.old".to_string()));
    assert!(!watcher.is_followed(&"/w/app.log".to_string()));
}

#[test]
fn on_macos_a_rename_with_a_cookie_hides_the_write_reported_with_it() {
    let disk = Disk::new();
    disk.put("/w/a", "a\n");
    let opt = options(10, None);
    let mut watcher = watcher_on(&disk, &opt, Platform::MacOs);
    assert!(watcher.bootstrap(&vec!["./a".to_string()], opt.lines).is_ok());
    disk.append("/w/a", "b\n");
    assert!(watcher.step(event("/w/a", OP_RENAME | OP_WRITE, Some(1))).is_ok());
    assert_eq!(watcher.rename_in_flight(1), Some(true));
    assert_eq!(output(&watcher), "==> a <==\na\n\n");
}

#[test]
fn on_macos_a_removal_reported_with_a_rename_is_stale() {
    let disk = Disk::new();
    disk.put("/w/a", "a\n");
    let opt = options(10, None);
    let mut watcher = watcher_on(&disk, &opt, Platform::MacOs);
    assert!(watcher.bootstrap(&vec!["./a".to_string()], opt.lines).is_ok());
    disk.append("/w/a", "b\n");
    assert!(watcher.step(event("/w/a", OP_REMOVE | OP_RENAME | OP_WRITE, None)).is_ok());
    assert!(watcher.is_followed(&"/w/a".to_string()));
    assert_eq!(output(&watcher), "==> a <==\na\nb\n");
}

#[test]
fn elsewhere_an_event_with_several_operations_is_passed_over() {
    let disk = Disk::new();
    disk.put("/w/a", "a\n");
    let opt = options(10, None);
    let mut watcher = watcher_on(&disk, &opt, Platform::Other);
    assert!(watcher.step(event("/w/a", OP_REMOVE | OP_WRITE, None)).is_ok());
    assert_eq!(output(&watcher), "");
}

#[test]
fn on_windows_a_file_whose_deletion_is_pending_is_let_go_on_the_next_turn() {
    let disk = Disk::new();
    disk.put("/w/a", "a");
    let opt = options(10, None);
    let mut watcher = watcher_on(&disk, &opt, Platform::Windows);
    assert!(watcher.step(event("\\\\?\\/w/a", OP_WRITE, None)).is_ok());
    assert!(!watcher.is_followed(&"\\w\\a".to_string()));
    let disk = Disk::new();
    disk.put("\\w\\a", "a");
    let mut watcher = watcher_on(&disk, &opt, Platform::Windows);
    assert!(watcher.step(event("\\\\?\\/w/a", OP_WRITE, None)).is_ok());
    assert!(watcher.is_followed(&"\\w\\a".to_string()));
    assert_eq!(watcher.open_readers(), 1);
    disk.lock("\\w\\a");
    assert!(watcher.step(Received::TimedOut).is_ok());
    assert!(!watcher.is_followed(&"\\w\\a".to_string()));
    assert_eq!(watcher.open_readers(), 0);
    assert!(watcher.selected_file().is_none());
    assert!(output(&watcher).ends_with("<==\na\n\n"));
}

#[test]
fn elsewhere_a_refused_open_lets_no_file_go() {
    let disk = Disk::new();
    disk.put("/w/a", "a");
    let opt = options(10, None);
    let mut watcher = watcher_on(&disk, &opt, Platform::Other);
    assert!(watcher.step(event("/w/a", OP_WRITE, None)).is_ok());
    disk.lock("/w/a");
    assert!(watcher.step(Received::TimedOut).is_ok());
    assert!(watcher.is_followed(&"/w/a".to_string()));
}

#[test]
fn a_lost_event_source_ends_the_following_with_a_generic_error() {
    let disk = Disk::new();
    let opt = options(10, None);
    let mut watcher = watcher_on(&disk, &opt, Platform::Other);
    assert!(matches!(watcher.step(Received::Disconnected), Err(WatchError::Generic(_))));
}

#[test]
fn an_event_without_a_path_or_without_operations_is_a_generic_error() {
    let disk = Disk::new();
    let opt = options(10, None);
    let mut watcher = watcher_on(&disk, &opt, Platform::Other);
    let no_path = Received::Event(RawEvent { path: None, op: Some(Op { bits: OP_WRITE }), cookie: None });
    assert!(matches!(watcher.step(no_path), Err(WatchError::Generic(_))));
    let no_op = Received::Event(RawEvent { path: Some("/w/a".to_string()), op: None, cookie: None });
    assert!(matches!(watcher.step(no_op), Err(WatchError::Generic(_))));
}

#[test]
fn a_path_that_cannot_be_made_canonical_ends_the_start_with_an_io_error() {
    let disk = Disk::new();
    let opt = options(10, None);
    let mut watcher = watcher_on(&disk, &opt, Platform::Other);
    let r = watcher.bootstrap(&vec!["./missing".to_string()], opt.lines);
    assert!(matches!(r, Err(WatchError::Io(IoError::NotFound))));
}

#[test]
fn a_watch_path_that_is_no_directory_is_refused() {
    let disk = Disk::new();
    let opt = options(10, None);
    let r: Result<Watcher, SetupError> =
        DirectoryWatcher::new(&opt, false, None, Platform::Other, disk, Vec::new());
    assert!(matches!(r, Err(SetupError::NotADirectory)));
}

#[test]
fn a_regex_that_does_not_compile_is_refused() {
    let disk = Disk::new();
    let opt = options(10, Some("(unclosed"));
    let r: Result<Watcher, SetupError> =
        DirectoryWatcher::new(&opt, true, None, Platform::Other, disk, Vec::new());
    assert!(matches!(r, Err(SetupError::Filter(regtail::filter::FilterError::Syntax(_)))));
}

#[test]
fn the_pool_never_holds_more_than_its_limit_and_reopens_what_it_closed() {
    let disk = Disk::new();
    let opt = options(10, None);
    let mut watcher = watcher_on(&disk, &opt, Platform::Other);
    for i in 0..600 {
        let path = format!("/w/f{}", i);
        disk.put(&path, "x\n");
        assert!(watcher.step(event(&path, OP_WRITE, None)).is_ok());
        assert!(watcher.open_readers() <= 512);
    }
    assert_eq!(watcher.open_readers(), 512);
    assert_eq!(*disk.opened.borrow(), 600);
    disk.append("/w/f0", "again\n");
    assert!(watcher.step(event("/w/f0", OP_WRITE, None)).is_ok());
    assert_eq!(*disk.opened.borrow(), 601);
    assert_eq!(watcher.open_readers(), 512);
    assert!(output(&watcher).ends_with("\n==> f0 <==\nagain\n"));
    disk.append("/w/f599", "late\n");
    assert!(watcher.step(event("/w/f599", OP_WRITE, None)).is_ok());
    assert_eq!(*disk.opened.borrow(), 601);
    assert!(output(&watcher).ends_with("\n==> f599 <==\nlate\n"));
}

#[test]
fn coloured_banners_paint_what_the_regex_matched() {
    let disk = Disk::new();
    disk.put("/w/app.log", "x\n");
    let opt = Opt::from_args(
        10,
        false,
        false,
        None,
        Some("log".to_string()),
        None,
        None,
        None,
        Some("always"),
        false,
    )
    .ok()
    .unwrap();
    let mut watcher = watcher_on(&disk, &opt, Platform::Other);
    assert!(watcher.step(event("/w/app.log", OP_WRITE, None)).is_ok());
    assert_eq!(
        output(&watcher),
        "\x1b[1;34m==> \x1b[0m\x1b[1;34mapp.\x1b[0m\x1b[1;32mlog\x1b[0m\x1b[1;34m\x1b[0m\x1b[1;34m <==\x1b[0m\nx\n"
    );
}

#[test]
fn without_a_current_directory_banners_show_the_whole_path() {
    let disk = Disk::new();
    disk.put("/w/a", "x\n");
    let opt = options(10, None);
    let mut watcher: Watcher =
        match DirectoryWatcher::new(&opt, true, None, Platform::Other, disk.clone(), Vec::new()) {
            Ok(watcher) => watcher,
            Err(_) => panic!("the watcher could not be set up"),
        };
    assert!(watcher.step(event("/w/a", OP_WRITE, None)).is_ok());
    assert_eq!(output(&watcher), "==> /w/a <==\nx\n");
}

#[test]
fn a_file_outside_the_current_directory_is_shown_from_there() {
    let disk = Disk::new();
    disk.put("/v/a", "x\n");
    let opt = options(10, None);
    let mut watcher = watcher_on(&disk, &opt, Platform::Other);
    assert!(watcher.step(event("/v/a", OP_WRITE, None)).is_ok());
    assert_eq!(output(&watcher), "==> ../v/a <==\nx\n");
}

#[test]
fn a_new_file_that_cannot_be_opened_is_passed_over() {
    let disk = Disk::new();
    disk.put("/w/a", "secret\n");
    disk.lock("/w/a");
    let opt = options(10, None);
    let mut watcher = watcher_on(&disk, &opt, Platform::Other);
    assert!(watcher.step(event("/w/a", OP_WRITE, None)).is_ok());
    assert_eq!(output(&watcher), "==> a <==\n");
    assert!(!watcher.is_followed(&"/w/a".to_string()));
    assert_eq!(watcher.open_readers(), 0);
    disk.locked.borrow_mut().clear();
    assert!(watcher.step(event("/w/a", OP_WRITE, None)).is_ok());
    assert_eq!(output(&watcher), "==> a <==\nsecret\n");
    assert!(watcher.is_followed(&"/w/a".to_string()));
}

#[test]
fn a_followed_file_that_can_no_longer_be_opened_ends_the_following() {
    let disk = Disk::new();
    disk.put("/w/a", "a\n");
    let opt = options(10, None);
    let mut watcher = watcher_on(&disk, &opt, Platform::Other);
    assert!(watcher.step(event("/w/a", OP_WRITE, None)).is_ok());
    for i in 0..512 {
        let path = format!("/w/f{}", i);
        disk.put(&path, "x\n");
        assert!(watcher.step(event(&path, OP_WRITE, None)).is_ok());
    }
    disk.remove("/w/a");
    let r = watcher.step(event("/w/a", OP_WRITE, None));
    assert!(matches!(r, Err(WatchError::Io(IoError::NotFound))));
}

#[test]
fn a_file_that_cannot_be_opened_at_the_start_ends_the_start() {
    let disk = Disk::new();
    disk.put("/w/a", "a\n");
    disk.put("/w/b", "b\n");
    disk.lock("/w/b");
    let opt = options(10, None);
    let mut watcher = watcher_on(&disk, &opt, Platform::Other);
    let r = watcher.bootstrap(&vec!["./a".to_string(), "./b".to_string()], opt.lines);
    assert!(matches!(r, Err(WatchError::Io(IoError::PermissionDenied))));
    assert_eq!(output(&watcher), "==> a <==\na\n\n==> b <==\n");
    let mut quiet = watcher_on(&disk, &opt, Platform::Other);
    let r = quiet.bootstrap(&vec!["./b".to_string()], 0);
    assert!(matches!(r, Err(WatchError::Io(IoError::PermissionDenied))));
}
