use vstd::prelude::*;
use crate::queue::{PlaybackQueue, advance_step, back_step};
use crate::types::TrackId;
use crate::database::LibraryDatabase;
use crate::text::{lowercase, lower_text, text_eq};

verus! {

/// What the player is doing.
#[derive(Debug, Clone, Copy, PartialEq, Eq, Structural)]
pub enum PlayerState {
    Stopped,
    Playing,
    Paused,
}

/// The code under which a state is shared with the audio thread: 0 stopped, 1 playing,
/// 2 paused.
pub open spec fn state_code_spec(s: PlayerState) -> u8 {
    match s {
        PlayerState::Stopped => 0,
        PlayerState::Playing => 1,
        PlayerState::Paused => 2,
    }
}

/// The code of a state.
pub fn state_code(s: PlayerState) -> (r: u8)
    ensures
        r == state_code_spec(s),
{
    match s {
        PlayerState::Stopped => 0,
        PlayerState::Playing => 1,
        PlayerState::Paused => 2,
    }
}

/// The state a shared code stands for: 1 playing, 2 paused, anything else stopped.
pub fn state_from_code(code: u8) -> (r: PlayerState)
    ensures
        r == (if code == 1 {
            PlayerState::Playing
        } else if code == 2 {
            PlayerState::Paused
        } else {
            PlayerState::Stopped
        }),
        state_code_spec(r) == code || (code != 1 && code != 2 && r == PlayerState::Stopped),
{
    if code == 1 {
        PlayerState::Playing
    } else if code == 2 {
        PlayerState::Paused
    } else {
        PlayerState::Stopped
    }
}

/// The duration shown for a track: none while it is unknown (zero).
pub fn known_duration_ms(duration_ms: u64) -> (r: Option<u64>)
    ensures
        r == (if duration_ms == 0 { None } else { Some(duration_ms) }),
{
    if duration_ms == 0 {
        None
    } else {
        Some(duration_ms)
    }
}

/// The kinds of command the player's audio thread receives.
#[derive(Debug, Clone, Copy, PartialEq, Eq, Structural)]
pub enum CommandKind {
    Play,
    Pause,
    TogglePause,
    Next,
    Prev,
    Seek,
    SetVolume,
    Stop,
}

/// What the audio thread does about a command while a track is loaded.
#[derive(Debug, Clone, Copy, PartialEq, Eq, Structural)]
pub enum CommandEffect {
    /// Resume the output and report playing.
    Resume,
    /// Pause the output and report paused.
    Pause,
    /// The queue moved to another track: load it.
    ChangeTrack,
    /// Seek the decoder.
    Seek,
    /// Pass the volume to the output.
    SetVolume,
    /// Report stopped and end the audio thread.
    Stop,
}

/// Decides a command received while a track is loaded: play resumes, pause pauses, toggling
/// resumes a paused output and pauses a running one, next and previous move the queue (see
/// [`advance_step`] and [`back_step`]) and change track, and the others pass through.
pub fn apply_command(queue: &mut PlaybackQueue, output_paused: bool, cmd: CommandKind) -> (r: CommandEffect)
    requires
        old(queue)@.wf(),
    ensures
        final(queue)@.wf(),
        cmd == CommandKind::Next ==> r == CommandEffect::ChangeTrack && exists|t: Option<TrackId>|
            #[trigger] advance_step(old(queue)@, final(queue)@, t),
        cmd == CommandKind::Prev ==> r == CommandEffect::ChangeTrack && exists|t: Option<TrackId>|
            #[trigger] back_step(old(queue)@, final(queue)@, t),
        cmd != CommandKind::Next && cmd != CommandKind::Prev ==> final(queue)@ == old(queue)@,
        cmd == CommandKind::Play ==> r == CommandEffect::Resume,
        cmd == CommandKind::Pause ==> r == CommandEffect::Pause,
        cmd == CommandKind::TogglePause ==> r == (if output_paused {
            CommandEffect::Resume
        } else {
            CommandEffect::Pause
        }),
        cmd == CommandKind::Seek ==> r == CommandEffect::Seek,
        cmd == CommandKind::SetVolume ==> r == CommandEffect::SetVolume,
        cmd == CommandKind::Stop ==> r == CommandEffect::Stop,
{
    match cmd {
        CommandKind::Play => CommandEffect::Resume,
        CommandKind::Pause => CommandEffect::Pause,
        CommandKind::TogglePause => if output_paused {
            CommandEffect::Resume
        } else {
            CommandEffect::Pause
        },
        CommandKind::Next => {
            let _ = queue.next();
            CommandEffect::ChangeTrack
        },
        CommandKind::Prev => {
            let _ = queue.previous();
            CommandEffect::ChangeTrack
        },
        CommandKind::Seek => CommandEffect::Seek,
        CommandKind::SetVolume => CommandEffect::SetVolume,
        CommandKind::Stop => CommandEffect::Stop,
    }
}

/// Decides a command received while nothing is loaded: the audio thread ends on stop or
/// when the command channel is closed (`None`), and keeps waiting otherwise.
pub fn idle_command_ends_thread(cmd: Option<CommandKind>) -> (r: bool)
    ensures
        r == (match cmd {
            Some(CommandKind::Stop) => true,
            None => true,
            _ => false,
        }),
{
    match cmd {
        Some(CommandKind::Stop) => true,
        None => true,
        _ => false,
    }
}

/// The path of the file to play: the current track's, when the library holds it.
pub fn current_track_path(queue: &PlaybackQueue, db: &LibraryDatabase) -> (r: Option<String>)
    ensures
        r is Some <==> (queue@.current matches Some(id) && db@.tracks.contains_key(id.0)),
        r matches Some(p) ==> p == db@.tracks[(queue@.current->0).0].path,
{
    match queue.current_track() {
        Some(id) => match db.get_track(id) {
            Some(t) => Some(t.path),
            None => None,
        },
        None => None,
    }
}

/// A track played to its end: the queue advances, and the audio thread keeps running only
/// when there is a next track.
pub fn advance_after_track_end(queue: &mut PlaybackQueue) -> (keep_running: bool)
    requires
        old(queue)@.wf(),
    ensures
        final(queue)@.wf(),
        exists|t: Option<TrackId>| #[trigger] advance_step(old(queue)@, final(queue)@, t) && keep_running == t is Some,
{
    queue.next().is_some()
}

/// The output device the player prefers among devices with the given names (`None` for a
/// device whose name cannot be read): the first called "pipewire", else the first called
/// "pulse" (in any case); `None` leaves the choice to the system default.
pub fn pick_output_device(names: &[Option<String>]) -> (r: Option<usize>)
    ensures
        match r {
            Some(i) => i < names@.len() && names@[i as int] is Some && (
                lowercase(names@[i as int]->0@) == "pipewire"@ && (forall|j: int| 0 <= j < i ==> !(names@[j] is Some && lowercase(names@[j]->0@) == "pipewire"@))
                || (forall|j: int| 0 <= j < names@.len() ==> !(names@[j] is Some && lowercase(names@[j]->0@) == "pipewire"@))
                    && lowercase(names@[i as int]->0@) == "pulse"@
                    && (forall|j: int| 0 <= j < i ==> !(names@[j] is Some && lowercase(names@[j]->0@) == "pulse"@))),
            None => forall|j: int| 0 <= j < names@.len() ==> !(names@[j] is Some && (lowercase(names@[j]->0@) == "pipewire"@ || lowercase(names@[j]->0@) == "pulse"@)),
        },
{
    match first_named(names, "pipewire") {
        Some(i) => Some(i),
        None => first_named(names, "pulse"),
    }
}

/// The first device whose lower-cased name is `wanted`.
fn first_named(names: &[Option<String>], wanted: &str) -> (r: Option<usize>)
    ensures
        match r {
            Some(i) => i < names@.len() && names@[i as int] is Some && lowercase(names@[i as int]->0@) == wanted@
                && forall|j: int| 0 <= j < i ==> !(names@[j] is Some && lowercase(names@[j]->0@) == wanted@),
            None => forall|j: int| 0 <= j < names@.len() ==> !(names@[j] is Some && lowercase(names@[j]->0@) == wanted@),
        },
{
    let mut i: usize = 0;
    while i < names.len()
        invariant
            i <= names@.len(),
            forall|j: int| 0 <= j < i ==> !(names@[j] is Some && lowercase(names@[j]->0@) == wanted@),
        decreases names@.len() - i,
    {
        match &names[i] {
            Some(n) => {
                let l = lower_text(n.as_str());
                if text_eq(l.as_str(), wanted) {
                    return Some(i);
                }
            },
            None => {},
        }
        i = i + 1;
    }
    None
}

/// Sharing a state through its code loses nothing: the code of a state stands for that
/// state again.
pub proof fn law_state_code_round_trip(s: PlayerState)
    ensures
        state_code_spec(s) == 1 ==> s == PlayerState::Playing,
        state_code_spec(s) == 2 ==> s == PlayerState::Paused,
        state_code_spec(s) != 1 && state_code_spec(s) != 2 ==> s == PlayerState::Stopped,
{
}

/// Why the audio thread could not start playing the current track.
#[derive(Debug, Clone, Copy, PartialEq, Eq, Structural)]
pub enum StartFailure {
    /// The file could not be opened or decoded.
    Open,
    /// The output device's capabilities could not be read.
    Negotiation,
    /// The output stream could not be started.
    Sink,
}

/// Decides after the current track could not be started: an unreadable file is skipped
/// (the queue steps forward, see [`advance_step`], and the audio thread goes on), while a
/// failure of the output device ends the audio thread, leaving the queue as it is.
pub fn after_start_failure(queue: &mut PlaybackQueue, failure: StartFailure) -> (keep_running: bool)
    requires
        old(queue)@.wf(),
    ensures
        final(queue)@.wf(),
        failure == StartFailure::Open ==> keep_running && exists|t: Option<TrackId>|
            #[trigger] advance_step(old(queue)@, final(queue)@, t),
        failure != StartFailure::Open ==> !keep_running && final(queue)@ == old(queue)@,
{
    match failure {
        StartFailure::Open => {
            let _ = queue.next();
            true
        },
        _ => false,
    }
}

} // verus!
