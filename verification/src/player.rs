//! The alert player: at most one alert sound at a time.
//!
//! The player owns no audio device. It keeps the busy flag of the monitor's
//! state and decides, event by event, what its caller does next: start the
//! sound, wait for it to end, or report how the call ended. A request made
//! while a sound is playing is merged into that playback.

use vstd::prelude::*;

use crate::event::{playback_failure_text, AlertEvent};
use crate::monitor::{MonitorError, MonitorState};

verus! {

/// Seconds for which a started alert sound is left to play.
pub const PLAYBACK_SECS: u64 = 3;

/// What happened to the player.
#[derive(Clone, Copy, Debug, PartialEq, Eq, Structural)]
pub enum PlayerEvent {
    /// An alert asks for the sound.
    Requested,
    /// The sound was handed to the audio output.
    SoundStarted,
    /// The audio output did not take the sound.
    StartFailed,
    /// The playback duration is over.
    DurationElapsed,
}

/// What the caller of the player does next.
#[derive(Clone, Copy, Debug, PartialEq, Eq, Structural)]
pub enum PlayerAction {
    /// Hand the alert sound to the audio output, then report
    /// [`PlayerEvent::SoundStarted`] or [`PlayerEvent::StartFailed`].
    StartSound,
    /// A sound is playing already: the call ends at once, with success.
    Coalesce,
    /// Block for this many seconds, then report
    /// [`PlayerEvent::DurationElapsed`].
    Wait(u64),
    /// The sound has played: the call ends with success.
    Succeed,
    /// The sound could not be started: send the failure notification, and
    /// the call ends with a playback error.
    Fail,
    /// No playback is in progress that the event could belong to: the call
    /// ends with nothing done.
    Ignore,
}

/// The state that follows `state` on `event`, and what the caller does next.
pub open spec fn player_next(state: MonitorState, event: PlayerEvent) -> (
    MonitorState,
    PlayerAction,
) {
    let idle = MonitorState { is_playing: false, ..state };
    let busy = MonitorState { is_playing: true, ..state };
    if state.is_playing {
        match event {
            PlayerEvent::Requested => (state, PlayerAction::Coalesce),
            PlayerEvent::SoundStarted => (state, PlayerAction::Wait(PLAYBACK_SECS)),
            PlayerEvent::StartFailed => (idle, PlayerAction::Fail),
            PlayerEvent::DurationElapsed => (idle, PlayerAction::Succeed),
        }
    } else {
        match event {
            PlayerEvent::Requested => (busy, PlayerAction::StartSound),
            _ => (state, PlayerAction::Ignore),
        }
    }
}

/// How many sounds an action starts.
pub open spec fn sounds_started(action: PlayerAction) -> nat {
    if action == PlayerAction::StartSound {
        1
    } else {
        0
    }
}

impl PlayerAction {
    /// How the call to the player ended, where the action ends it.
    pub open spec fn result_of(self) -> Option<Result<(), MonitorError>> {
        match self {
            PlayerAction::StartSound | PlayerAction::Wait(_) => None,
            PlayerAction::Fail => Some(Err(MonitorError::Playback)),
            PlayerAction::Coalesce | PlayerAction::Succeed | PlayerAction::Ignore => Some(Ok(())),
        }
    }

    /// How the call to the player ended; `None` while it goes on.
    pub fn result(&self) -> (result: Option<Result<(), MonitorError>>)
        ensures
            result == self.result_of(),
    {
        match self {
            PlayerAction::StartSound | PlayerAction::Wait(_) => None,
            PlayerAction::Fail => Some(Err(MonitorError::Playback)),
            PlayerAction::Coalesce | PlayerAction::Succeed | PlayerAction::Ignore => Some(Ok(())),
        }
    }

    /// The notification that goes with the action: the failure notice for
    /// [`PlayerAction::Fail`], none otherwise.
    pub fn notice(&self) -> (notice: Option<AlertEvent>)
        ensures
            notice is Some <==> *self == PlayerAction::Fail,
            notice matches Some(event) ==> event@ == playback_failure_text(),
    {
        match self {
            PlayerAction::Fail => Some(AlertEvent::playback_failure()),
            _ => None,
        }
    }
}

impl MonitorState {
    /// Advances the player by one event and says what the caller does next.
    /// Only the busy flag changes.
    pub fn player_step(&mut self, event: PlayerEvent) -> (action: PlayerAction)
        ensures
            (*final(self), action) == player_next(*old(self), event),
            final(self).last_condition == old(self).last_condition,
    {
        if self.is_playing {
            match event {
                PlayerEvent::Requested => PlayerAction::Coalesce,
                PlayerEvent::SoundStarted => PlayerAction::Wait(PLAYBACK_SECS),
                PlayerEvent::StartFailed => {
                    self.is_playing = false;
                    PlayerAction::Fail
                },
                PlayerEvent::DurationElapsed => {
                    self.is_playing = false;
                    PlayerAction::Succeed
                },
            }
        } else {
            match event {
                PlayerEvent::Requested => {
                    self.is_playing = true;
                    PlayerAction::StartSound
                },
                _ => PlayerAction::Ignore,
            }
        }
    }
}

/// A request made while a sound is playing starts no sound and waits for
/// none: it leaves the state as it is and ends at once, with success.
pub proof fn lemma_request_while_playing(state: MonitorState)
    requires
        state.is_playing,
    ensures
        player_next(state, PlayerEvent::Requested) == (state, PlayerAction::Coalesce),
        PlayerAction::Coalesce.result_of() == Some(Ok::<(), MonitorError>(())),
{
}

/// Of two requests with no end of playback between them the second is
/// merged into the playback in progress, and together with a playback that
/// was already in progress they account for exactly one sound.
pub proof fn lemma_two_requests_one_sound(state: MonitorState)
    ensures
        ({
            let (after_first, first) = player_next(state, PlayerEvent::Requested);
            let (after_second, second) = player_next(after_first, PlayerEvent::Requested);
            &&& after_first.is_playing
            &&& after_second == after_first
            &&& second == PlayerAction::Coalesce
            &&& sounds_started(first) + sounds_started(second) + (if state.is_playing {
                1nat
            } else {
                0nat
            }) == 1
        }),
{
}

/// A sound that fails to start does not leave the player busy: the failed
/// call ends with a playback error, and the request after it starts a
/// sound again.
pub proof fn lemma_failure_frees_player(state: MonitorState)
    requires
        !state.is_playing,
    ensures
        ({
            let (started, first) = player_next(state, PlayerEvent::Requested);
            let (failed, second) = player_next(started, PlayerEvent::StartFailed);
            let (restarted, third) = player_next(failed, PlayerEvent::Requested);
            &&& first == PlayerAction::StartSound
            &&& second == PlayerAction::Fail
            &&& second.result_of() == Some(Err::<(), MonitorError>(MonitorError::Playback))
            &&& !failed.is_playing
            &&& failed == state
            &&& third == PlayerAction::StartSound
            &&& restarted.is_playing
        }),
{
}

/// Whatever the player is told, the busy flag is set only by a request that
/// starts a sound and cleared only by the end of a playback.
pub proof fn lemma_busy_between_start_and_end(state: MonitorState, event: PlayerEvent)
    ensures
        ({
            let (next, action) = player_next(state, event);
            &&& next.last_condition == state.last_condition
            &&& (!state.is_playing && next.is_playing) <==> action == PlayerAction::StartSound
            &&& (state.is_playing && !next.is_playing) <==> (action == PlayerAction::Succeed
                || action == PlayerAction::Fail)
        }),
{
}

} // verus!
