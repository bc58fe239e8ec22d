//! How a plugin's processor runs, and what it reports after a block.
use vstd::prelude::*;

verus! {

/// Whether the host processes in real time or offline (bouncing, rendering).
#[derive(Clone, Copy, Debug, PartialEq, Eq, Structural)]
pub enum ProcessMode {
    Realtime,
    Offline,
}

impl Default for ProcessMode {
    /// Real time.
    fn default() -> (r: Self)
        ensures
            r == ProcessMode::Realtime,
    {
        ProcessMode::Realtime
    }
}

/// What a processor reports after processing a block.
#[derive(Clone, Copy, Debug, PartialEq, Eq, Structural)]
pub enum ProcessState {
    /// Processing failed.
    Error,
    /// The output goes silent when the input does.
    Normal,
    /// The output keeps sounding for this many samples after the input goes silent.
    Tail(usize),
    /// The output may keep sounding for ever.
    KeepAlive,
}

} // verus!
