use regtail::error::IoError;
use regtail::reader::{offset_by, MemoryReader, SeekFrom};
use regtail::state::{tail_from_reader, TailState};

const CONTENT: &str = "line1\nline2\nline3\nline4\nline5\n";

const CONTENT_WITHOUT_LINE_ENDING: &str = "line1\nline2\nline3\nline4\nline5";

fn state_over(content: &str) -> TailState<MemoryReader, Vec<u8>> {
    TailState::new(MemoryReader::new(content.as_bytes().to_vec()), Vec::new())
}

#[test]
fn test_dump_to_tail() {
    let mut target = state_over(CONTENT);
    assert_eq!(target.dump_to_tail().is_ok(), true);
    assert_eq!(target.writer().as_slice(), CONTENT.as_bytes());
}

#[test]
fn test_dump_to_tail_without_line_ending() {
    let mut target = state_over(CONTENT_WITHOUT_LINE_ENDING);
    assert_eq!(target.dump_to_tail().is_ok(), true);
    assert_eq!(target.writer().as_slice(), CONTENT_WITHOUT_LINE_ENDING.as_bytes());
}

#[test]
fn test_tail() {
    let mut target = state_over(CONTENT);
    let result = tail_from_reader(&mut target, 1);
    assert_eq!(result.is_ok(), true);
    assert_eq!(target.writer().as_slice(), "line5\n".as_bytes());
}

#[test]
fn test_tail_without_line_ending() {
    let mut target = state_over(CONTENT_WITHOUT_LINE_ENDING);
    let result = tail_from_reader(&mut target, 1);
    assert_eq!(result.is_ok(), true);
    assert_eq!(target.writer().as_slice(), "line5".as_bytes());
}

fn tail_of(content: &[u8], lines: u64) -> (Result<u64, IoError>, Vec<u8>, bool) {
    let mut state = TailState::new(MemoryReader::new(content.to_vec()), Vec::new());
    let r = tail_from_reader(&mut state, lines);
    let eol = state.printed_eol();
    let (_, written, _) = state.into_parts();
    (r, written, eol)
}

fn start_of(content: &[u8], lines: u64) -> u64 {
    let mut state = TailState::new(MemoryReader::new(content.to_vec()), Vec::new());
    state.tail_start_position(lines).unwrap()
}

#[test]
fn an_empty_file_starts_at_zero_and_writes_nothing() {
    assert_eq!(start_of(b"", 3), 0);
    assert_eq!(tail_of(b"", 3), (Ok(0), Vec::new(), false));
}

#[test]
fn tailing_no_lines_starts_at_the_length() {
    assert_eq!(start_of(b"one\ntwo\n", 0), 8);
    assert_eq!(tail_of(b"one\ntwo\n", 0), (Ok(8), Vec::new(), false));
}

#[test]
fn a_file_of_one_byte_starts_at_zero() {
    assert_eq!(start_of(b"\n", 1), 0);
    assert_eq!(start_of(b"x", 5), 0);
    assert_eq!(tail_of(b"\n", 1), (Ok(1), b"\n".to_vec(), true));
}

#[test]
fn a_single_line_without_line_ending_starts_at_zero() {
    assert_eq!(start_of(b"only line", 1), 0);
    assert_eq!(start_of(b"only line", 7), 0);
}

#[test]
fn asking_for_exactly_the_lines_there_are_gives_the_whole_file() {
    assert_eq!(start_of(b"l1\nl2\n", 2), 0);
    assert_eq!(tail_of(b"l1\nl2\n", 2), (Ok(6), b"l1\nl2\n".to_vec(), true));
}

#[test]
fn asking_for_more_lines_than_there_are_gives_the_whole_file() {
    assert_eq!(start_of(b"l1\nl2\nl3", 10), 0);
    assert_eq!(tail_of(b"l1\nl2\nl3", 10), (Ok(8), b"l1\nl2\nl3".to_vec(), false));
}

#[test]
fn the_start_stands_just_past_the_nth_line_terminator_from_the_end() {
    assert_eq!(start_of(b"a\nbb\nccc\ndddd\n", 1), 9);
    assert_eq!(start_of(b"a\nbb\nccc\ndddd\n", 2), 5);
    assert_eq!(start_of(b"a\nbb\nccc\ndddd\n", 3), 2);
    assert_eq!(start_of(b"a\nbb\nccc\ndddd\n", 4), 0);
    assert_eq!(start_of(b"a\nbb\nccc\ndddd", 1), 9);
    assert_eq!(start_of(b"a\nb", 1), 2);
}

#[test]
fn an_empty_last_line_counts_as_a_line() {
    assert_eq!(start_of(b"a\n\n", 1), 2);
    assert_eq!(tail_of(b"a\n\n", 1), (Ok(3), b"\n".to_vec(), true));
}

fn numbered_lines(count: usize) -> Vec<u8> {
    let mut content = Vec::new();
    for i in 0..count {
        content.extend_from_slice(format!("line number {}\n", i).as_bytes());
    }
    content
}

#[test]
fn lines_are_found_across_several_windows() {
    let content = numbered_lines(3000);
    assert!(content.len() > 4 * 8192);
    let (r, written, eol) = tail_of(&content, 2000);
    assert_eq!(r, Ok(content.len() as u64));
    assert_eq!(eol, true);
    let expected: Vec<u8> = numbered_lines(3000)
        .split_inclusive(|b| *b == b'\n')
        .skip(1000)
        .flat_map(|line| line.to_vec())
        .collect();
    assert_eq!(written, expected);
}

#[test]
fn a_line_terminator_on_a_window_boundary_is_counted() {
    let mut content = vec![b'x'; 8192 * 2 + 100];
    content[8191] = b'\n';
    content[8192] = b'\n';
    content[2 * 8192 - 1] = b'\n';
    content[2 * 8192] = b'\n';
    assert_eq!(start_of(&content, 1), 2 * 8192 + 1);
    assert_eq!(start_of(&content, 2), 2 * 8192);
    assert_eq!(start_of(&content, 3), 8193);
    assert_eq!(start_of(&content, 4), 8192);
    assert_eq!(start_of(&content, 5), 0);
}

#[test]
fn a_last_byte_on_a_window_boundary_sets_the_byte_before_it_aside_too() {
    let mut content = vec![b'x'; 8193];
    content[8191] = b'\n';
    content[100] = b'\n';
    assert_eq!(start_of(&content, 1), 101);
    content[8191] = b'y';
    content[8190] = b'\n';
    assert_eq!(start_of(&content, 1), 8191);
}

#[test]
fn dump_starts_at_the_cursor_and_leaves_it_at_the_end() {
    let mut state = TailState::new(MemoryReader::new(b"0123456789".to_vec()), Vec::new());
    assert_eq!(state.seek(SeekFrom::Start(4)), Ok(4));
    assert_eq!(state.dump_to_tail(), Ok(10));
    assert_eq!(state.writer().as_slice(), b"456789");
    assert_eq!(state.current_seek(), 10);
    assert_eq!(state.printed_eol(), false);
    assert_eq!(state.dump_to_tail(), Ok(10));
    assert_eq!(state.writer().as_slice(), b"456789");
}

#[test]
fn dump_records_whether_the_last_byte_ended_a_line() {
    let mut state = TailState::new(MemoryReader::new(b"abc\n".to_vec()), Vec::new());
    assert_eq!(state.dump_to_tail(), Ok(4));
    assert_eq!(state.printed_eol(), true);
    let mut state = TailState::new(MemoryReader::new(b"abc\nd".to_vec()), Vec::new());
    assert_eq!(state.dump_to_tail(), Ok(5));
    assert_eq!(state.printed_eol(), false);
}

#[test]
fn dump_with_the_cursor_past_the_end_changes_nothing() {
    let mut state = TailState::new(MemoryReader::new(b"abc\n".to_vec()), Vec::new());
    assert_eq!(state.seek(SeekFrom::Start(9)), Ok(9));
    assert_eq!(state.dump_to_tail(), Ok(9));
    assert!(state.writer().is_empty());
    assert_eq!(state.current_seek(), 9);
}

#[test]
fn dump_copies_content_larger_than_a_window() {
    let content = numbered_lines(2000);
    let mut state = TailState::new(MemoryReader::new(content.clone()), Vec::new());
    assert_eq!(state.seek(SeekFrom::Start(5)), Ok(5));
    assert_eq!(state.dump_to_tail(), Ok(content.len() as u64));
    assert_eq!(state.writer().as_slice(), &content[5..]);
}

#[test]
fn shrink_is_seen_only_when_the_file_is_shorter_than_the_offset() {
    let mut state = TailState::new(MemoryReader::new(b"abcdef".to_vec()), Vec::new());
    assert_eq!(state.seek(SeekFrom::Start(6)), Ok(6));
    assert_eq!(state.handle_shrink(6), Ok(false));
    assert_eq!(state.current_seek(), 6);
    assert_eq!(state.handle_shrink(7), Ok(true));
    assert_eq!(state.current_seek(), 0);
}

#[test]
fn seeking_with_shrink_handling_goes_to_the_offset_or_to_the_start() {
    let mut state = TailState::new(MemoryReader::new(b"abcdef".to_vec()), Vec::new());
    assert_eq!(state.seek_with_shrink_handling(4), Ok(4));
    assert_eq!(state.current_seek(), 4);
    assert_eq!(state.seek_with_shrink_handling(40), Ok(0));
    assert_eq!(state.current_seek(), 0);
}

#[test]
fn the_parts_of_a_state_can_be_used_one_by_one() {
    let mut state = TailState::new(MemoryReader::new(b"abcdef".to_vec()), Vec::new());
    assert_eq!(state.len(), Ok(6));
    let mut buf = vec![b'>'];
    assert_eq!(state.read(&mut buf, 4), Ok(4));
    assert_eq!(buf, b">abcd".to_vec());
    assert_eq!(state.current_seek(), 4);
    assert_eq!(state.read(&mut buf, 0), Ok(0));
    assert_eq!(state.read(&mut buf, 10), Ok(2));
    assert_eq!(state.read(&mut buf, 10), Ok(0));
    assert_eq!(buf, b">abcdef".to_vec());
    assert_eq!(state.write(b"xy"), Ok(2));
    assert_eq!(state.flush(), Ok(()));
    assert_eq!(state.writer().as_slice(), b"xy");
    assert_eq!(state.printed_eol(), false);
}

#[test]
fn seeks_are_measured_from_the_start_the_end_or_the_cursor() {
    let mut state = TailState::new(MemoryReader::new(b"abcdef".to_vec()), Vec::new());
    assert_eq!(state.seek(SeekFrom::End(0)), Ok(6));
    assert_eq!(state.seek(SeekFrom::End(-2)), Ok(4));
    assert_eq!(state.seek(SeekFrom::Current(-3)), Ok(1));
    assert_eq!(state.seek(SeekFrom::Current(10)), Ok(11));
    assert_eq!(state.seek(SeekFrom::End(-7)), Err(IoError::InvalidInput));
    assert_eq!(state.seek(SeekFrom::Current(-12)), Err(IoError::InvalidInput));
    assert_eq!(state.seek(SeekFrom::Start(u64::MAX)), Ok(u64::MAX));
    assert_eq!(state.seek(SeekFrom::Current(1)), Err(IoError::InvalidInput));
    assert_eq!(state.seek(SeekFrom::Current(i64::MIN)), Ok(u64::MAX - (1u64 << 63)));
}

#[test]
fn an_offset_moves_by_a_signed_distance_where_the_result_fits() {
    assert_eq!(offset_by(10, 5), Some(15));
    assert_eq!(offset_by(10, -10), Some(0));
    assert_eq!(offset_by(10, -11), None);
    assert_eq!(offset_by(u64::MAX, 1), None);
    assert_eq!(offset_by(1u64 << 63, i64::MIN), Some(0));
    assert_eq!(offset_by(0, i64::MIN), None);
}

fn last_lines_start(content: &[u8], lines: u64) -> u64 {
    if content.is_empty() {
        return 0;
    }
    let body = &content[..content.len() - 1];
    let mut seen = 0;
    for i in (0..body.len()).rev() {
        if body[i] == b'\n' {
            seen += 1;
            if seen == lines {
                return i as u64 + 1;
            }
        }
    }
    0
}

fn scrambled(seed: u64, len: usize, one_in: u64) -> Vec<u8> {
    let mut state = seed;
    let mut content = Vec::with_capacity(len);
    for _ in 0..len {
        state = state.wrapping_mul(6364136223846793005).wrapping_add(1442695040888963407);
        let draw = (state >> 33) % one_in;
        content.push(if draw == 0 { b'\n' } else { b'a' + (draw % 26) as u8 });
    }
    content
}

#[test]
fn the_start_is_that_of_the_last_lines_for_lengths_around_the_window_size() {
    let lengths = [
        2usize, 3, 17, 8190, 8191, 8192, 8194, 8195, 16383, 16384, 16386, 24575, 24576, 24578,
    ];
    for (round, len) in lengths.iter().enumerate() {
        for one_in in [2u64, 7, 400, 9000] {
            let content = scrambled(round as u64 * 31 + one_in, *len, one_in);
            for lines in [1u64, 2, 3, 10, 50, 5000] {
                assert_eq!(
                    start_of(&content, lines),
                    last_lines_start(&content, lines),
                    "length {} with one line terminator in {} bytes, {} lines",
                    len,
                    one_in,
                    lines
                );
            }
        }
    }
}

#[test]
fn on_a_window_edge_the_start_is_that_of_the_last_lines_unless_a_line_ends_there() {
    for len in [8193usize, 16385, 24577] {
        for one_in in [2u64, 7, 400] {
            let mut content = scrambled(len as u64 + one_in, len, one_in);
            content[len - 2] = b'x';
            for lines in [1u64, 2, 3, 10, 5000] {
                assert_eq!(start_of(&content, lines), last_lines_start(&content, lines));
            }
            content[len - 2] = b'\n';
            let mut shorter = content.clone();
            shorter[len - 2] = b'x';
            for lines in [1u64, 2, 3, 10, 5000] {
                assert_eq!(start_of(&content, lines), start_of(&shorter, lines));
            }
        }
    }
}

#[test]
fn what_tail_writes_is_the_content_from_the_start_on() {
    for len in [0usize, 1, 2, 100, 8192, 8193, 20000] {
        let content = scrambled(len as u64, len, 9);
        for lines in [0u64, 1, 4, 1000] {
            let start = start_of(&content, lines) as usize;
            let (r, written, eol) = tail_of(&content, lines);
            assert_eq!(r, Ok(len as u64));
            assert_eq!(written.as_slice(), &content[start..]);
            assert_eq!(eol, !written.is_empty() && written[written.len() - 1] == b'\n');
        }
    }
}
