use vstd::prelude::*;

verus! {

/// Coarse status of the playback engine.
#[derive(Debug, Clone, Copy, PartialEq, Eq, Structural)]
pub enum PlaybackStatus {
    Stopped,
    Playing,
    Paused,
    Buffering,
}

impl Default for PlaybackStatus {
    fn default() -> (r: Self)
        ensures
            r == PlaybackStatus::Stopped,
    {
        PlaybackStatus::Stopped
    }
}

/// How the queue behaves when the current track or the playlist ends.
#[derive(Debug, Clone, Copy, PartialEq, Eq, Structural)]
pub enum RepeatMode {
    Off,
    Track,
    Queue,
}

impl Default for RepeatMode {
    fn default() -> (r: Self)
        ensures
            r == RepeatMode::Off,
    {
        RepeatMode::Off
    }
}

/// Order in which the playlist is walked.
#[derive(Debug, Clone, Copy, PartialEq, Eq, Structural)]
pub enum ShuffleMode {
    Off,
    Tracks,
    Albums,
}

impl Default for ShuffleMode {
    fn default() -> (r: Self)
        ensures
            r == ShuffleMode::Off,
    {
        ShuffleMode::Off
    }
}

} // verus!
