//! Regex-filtered, directory-scoped continuous tail.
//!
//! The crate holds the tail engine (where the last lines of a file begin, and
//! the streaming copy from an offset to the end of the file), the bounded
//! pool of open readers, and the state machine that follows a tree of files
//! through write, remove and rename events and tells their output apart
//! with banners.
//!
//! Readers, sinks and file systems come in through traits. An implementation
//! may state a mathematical picture of itself: the bytes behind a reader, the
//! bytes that a sink has accepted, what a file system holds. Where it does,
//! the contracts in this crate say byte for byte what is read and written.
//! Where it does not, they say what holds whatever the implementation does.

pub mod color;
pub mod error;
pub mod event;
pub mod filter;
pub mod memory;
pub mod opt;
pub mod path;
pub mod path_map;
pub mod pool;
pub mod reader;
pub mod sink;
pub mod state;
pub mod stream;
pub mod tail;
pub mod transparent;
pub mod watcher;
