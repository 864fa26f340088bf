//! The progress-event protocol.
//!
//! A burn operation communicates with its observer only through an ordered
//! stream of `Progress` values.  For one operation the stream is `Start`,
//! zero or more `Progress`, then exactly one terminal event (`End` on normal
//! completion, `Error` on failure), and nothing after the terminal event.
//! An operation that fails before it could start sends a single `Error`.

use vstd::prelude::*;

verus! {

/// One event in the lifecycle of a burn operation.
pub enum Progress {
    /// Emitted exactly once, first, with the byte length of the source image.
    Start { total: u64 },
    /// Emitted after every durably written chunk; `count` is the cumulative
    /// number of bytes written so far, `total` repeats the image size.
    Progress { count: u64, total: u64 },
    /// Emitted exactly once on normal completion; `digest` holds the SHA-256
    /// hash of the bytes written when verification was requested.
    End { digest: Option<Vec<u8>> },
    /// Emitted exactly once on failure; terminal.
    Error,
}

/// The mathematical image of one `Progress` event, used by contracts.
pub enum Event {
    Start { total: nat },
    Progress { count: nat, total: nat },
    End { digest: Option<Seq<u8>> },
    Error,
}

impl View for Progress {
    type V = Event;

    open spec fn view(&self) -> Event {
        match self {
            Progress::Start { total } => Event::Start { total: *total as nat },
            Progress::Progress { count, total } => Event::Progress {
                count: *count as nat,
                total: *total as nat,
            },
            Progress::End { digest } => Event::End {
                digest: match digest {
                    Some(d) => Some(d@),
                    None => None,
                },
            },
            Progress::Error => Event::Error,
        }
    }
}

/// An event after which the operation emits nothing further.
pub open spec fn is_terminal(e: Event) -> bool {
    e is End || e is Error
}

} // verus!
