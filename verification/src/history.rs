//! Scrollback over a per-host history of probe outcomes, as the terminal
//! watcher keeps it: newest entry first, with a marker between minutes.

use vstd::prelude::*;

verus! {

/// Longest history kept per host.
pub const MAX_HISTORY_SIZE: usize = 5000;

/// One host to watch, by name and address.
#[derive(Debug, Clone)]
pub struct Host {
    pub name: String,
    pub ip: String,
}

/// Spec-level value of a [`Host`].
pub ghost struct HostV {
    pub name: Seq<char>,
    pub ip: Seq<char>,
}

impl View for Host {
    type V = HostV;

    open spec fn view(&self) -> HostV {
        HostV { name: self.name@, ip: self.ip@ }
    }
}

/// Outcome of one probe.
#[derive(Debug, Clone, Copy, PartialEq, Eq, Structural)]
pub enum HostStatus {
    Up,
    Down,
}

/// The outcome of probing one host.
#[derive(Debug, Clone)]
pub struct HostResult {
    pub host: Host,
    pub status: HostStatus,
}

/// One cell of a host's history: a probe outcome, or the marker drawn
/// between minutes.
#[derive(Debug, Clone, Copy, PartialEq, Eq, Structural)]
pub enum HistoryEntry {
    Status(HostStatus),
    TimeMarker,
}

/// The window of a history that a screen of `width` cells shows after
/// scrolling back `scroll_offset` entries. The history is newest-first,
/// so scrolling moves toward older entries; past the end the window is
/// empty.
pub fn get_visible_entries(
    history: &Vec<HistoryEntry>,
    scroll_offset: usize,
    width: usize,
) -> (r: Vec<HistoryEntry>)
    ensures
        ({
            let len = history@.len() as int;
            let start = if scroll_offset <= len {
                scroll_offset as int
            } else {
                len
            };
            let count = if width <= len - start {
                width as int
            } else {
                len - start
            };
            r@ == history@.subrange(start, start + count)
        }),
{
    let len = history.len();
    let start = if scroll_offset <= len {
        scroll_offset
    } else {
        len
    };
    let count = if width <= len - start {
        width
    } else {
        len - start
    };
    let mut r: Vec<HistoryEntry> = Vec::new();
    let mut i: usize = 0;
    while i < count
        invariant
            i <= count,
            len == history@.len(),
            start + count <= len,
            r@.len() == i,
            forall|k: int| 0 <= k < i ==> r@[k] == history@[start + k],
        decreases count - i,
    {
        r.push(history[start + i]);
        i += 1;
    }
    proof {
        assert(r@ =~= history@.subrange(start as int, start as int + count as int));
    }
    r
}

} // verus!
