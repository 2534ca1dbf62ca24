use regtail::error::IoError;
use regtail::reader::{ByteSource, Length, MemoryReader, Reader, SeekFrom, SeekPos};
use regtail::sink::{ByteSink, Sink};
use regtail::state::{tail_from_reader, TailState};

struct Counting {
    bytes: Vec<u8>,
    flushes: usize,
}

impl ByteSink for Counting {}

impl Sink for Counting {
    fn write(&mut self, buf: &[u8]) -> Result<usize, IoError> {
        self.bytes.extend_from_slice(buf);
        Ok(buf.len())
    }

    fn flush(&mut self) -> Result<(), IoError> {
        self.flushes += 1;
        Ok(())
    }
}

struct ThreeAtATime {
    inner: MemoryReader,
}

impl ByteSource for ThreeAtATime {}

impl Length for ThreeAtATime {
    fn len(&mut self) -> Result<u64, IoError> {
        self.inner.len()
    }
}

impl SeekPos for ThreeAtATime {
    fn seek_pos(&self) -> u64 {
        self.inner.seek_pos()
    }
}

impl Reader for ThreeAtATime {
    fn read(&mut self, buf: &mut Vec<u8>, limit: usize) -> Result<usize, IoError> {
        let n = if limit > 3 { 3 } else { limit };
        self.inner.read(buf, n)
    }

    fn seek(&mut self, pos: SeekFrom) -> Result<u64, IoError> {
        self.inner.seek(pos)
    }
}

fn short_reader(content: &[u8]) -> TailState<ThreeAtATime, Counting> {
    TailState::new(
        ThreeAtATime { inner: MemoryReader::new(content.to_vec()) },
        Counting { bytes: Vec::new(), flushes: 0 },
    )
}

#[test]
fn dump_copies_everything_through_short_reads_and_flushes_once() {
    let mut state = short_reader(b"alpha\nbeta\ngamma");
    assert_eq!(state.dump_to_tail(), Ok(16));
    assert_eq!(state.writer().bytes.as_slice(), b"alpha\nbeta\ngamma");
    assert_eq!(state.writer().flushes, 1);
    assert_eq!(state.printed_eol(), false);
}

#[test]
fn dump_of_nothing_does_not_flush() {
    let mut state = short_reader(b"");
    assert_eq!(state.dump_to_tail(), Ok(0));
    assert_eq!(state.writer().flushes, 0);
    assert!(state.writer().bytes.is_empty());
}

#[test]
fn tail_fills_its_window_through_short_reads() {
    let mut state = short_reader(b"one\ntwo\nthree\nfour\n");
    assert_eq!(tail_from_reader(&mut state, 2), Ok(19));
    assert_eq!(state.writer().bytes.as_slice(), b"three\nfour\n");
    assert_eq!(state.printed_eol(), true);
}

#[test]
fn flushing_a_state_flushes_its_sink_and_writes_nothing() {
    let mut state = short_reader(b"abc");
    assert_eq!(state.write(b"xy"), Ok(2));
    assert_eq!(state.writer().flushes, 0);
    assert_eq!(state.flush(), Ok(()));
    assert_eq!(state.flush(), Ok(()));
    assert_eq!(state.writer().flushes, 2);
    assert_eq!(state.writer().bytes.as_slice(), b"xy");
}
