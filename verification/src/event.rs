//! What the event source of the file system reports, and which handlers an
//! event calls for.

use vstd::prelude::*;
use crate::path::Platform;

verus! {

/// The operation flag of a change of permissions.
pub const OP_CHMOD: u32 = 0x01;

/// The operation flag of a creation.
pub const OP_CREATE: u32 = 0x02;

/// The operation flag of a removal.
pub const OP_REMOVE: u32 = 0x04;

/// The operation flag of a rename.
pub const OP_RENAME: u32 = 0x08;

/// The operation flag of a write.
pub const OP_WRITE: u32 = 0x10;

/// The operation flag of the closing of a file that was written.
pub const OP_CLOSE_WRITE: u32 = 0x20;

/// The operation flag that asks for a directory to be walked again.
pub const OP_RESCAN: u32 = 0x40;

/// The operations that an event reports, as a set of flags.
#[derive(Clone, Copy, Debug, PartialEq, Eq, Structural)]
pub struct Op {
    pub bits: u32,
}

impl Op {
    /// Whether all flags of `flags` are set.
    pub open spec fn has(&self, flags: u32) -> bool {
        self.bits & flags == flags
    }

    /// Whether all flags of `flags` are set.
    pub fn contains(&self, flags: u32) -> (b: bool)
        ensures
            b == self.has(flags),
    {
        self.bits & flags == flags
    }
}

/// One record of the event source.
#[derive(Debug)]
pub struct RawEvent {
    /// The path that the event is about.
    pub path: Option<String>,
    /// The operations reported; `None` where the source reported an error.
    pub op: Option<Op>,
    /// The token that pairs the two halves of a rename.
    pub cookie: Option<u32>,
}

/// What waiting for the event source gave.
#[derive(Debug)]
pub enum Received {
    /// An event.
    Event(RawEvent),
    /// Nothing within the time allowed.
    TimedOut,
    /// The event source is gone.
    Disconnected,
}

/// Which handlers an event calls for.
#[derive(Clone, Copy, Debug, PartialEq, Eq, Structural)]
pub struct Plan {
    pub rename: bool,
    pub remove: bool,
    pub write: bool,
}

/// The handlers that an event calls for.
///
/// On macOS one event may report several operations. A rename with a cookie
/// is handled as a rename and nothing else. Otherwise a removal is handled
/// unless a rename is reported with it, and then a write. Elsewhere an event
/// is handled only when it reports exactly a write, a removal or a rename.
pub open spec fn plan_for(platform: Platform, op: Op, has_cookie: bool) -> Plan {
    if platform == Platform::MacOs {
        if op.has(OP_RENAME) && has_cookie {
            Plan { rename: true, remove: false, write: false }
        } else {
            Plan {
                rename: false,
                remove: op.has(OP_REMOVE) && !op.has(OP_RENAME),
                write: op.has(OP_WRITE),
            }
        }
    } else {
        Plan {
            rename: op.bits == OP_RENAME,
            remove: op.bits == OP_REMOVE,
            write: op.bits == OP_WRITE,
        }
    }
}

/// The handlers that an event calls for.
pub fn plan(platform: Platform, op: Op, has_cookie: bool) -> (p: Plan)
    ensures
        p == plan_for(platform, op, has_cookie),
{
    match platform {
        Platform::MacOs => {
            if op.contains(OP_RENAME) && has_cookie {
                Plan { rename: true, remove: false, write: false }
            } else {
                Plan {
                    rename: false,
                    remove: op.contains(OP_REMOVE) && !op.contains(OP_RENAME),
                    write: op.contains(OP_WRITE),
                }
            }
        },
        _ => Plan {
            rename: op.bits == OP_RENAME,
            remove: op.bits == OP_REMOVE,
            write: op.bits == OP_WRITE,
        },
    }
}

} // verus!
