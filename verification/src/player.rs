use vstd::prelude::*;

verus! {

/// Playback state of the audio engine, as the application tracks it.
///
/// The engine itself is outside this library; these methods are the pure
/// state transitions that the application applies around its engine calls.
#[derive(Clone, Copy, Debug, PartialEq, Eq, Structural)]
pub enum PlayerState {
    Idle,
    Play,
    Pause,
    Finished,
}

impl PlayerState {
    /// A playing or paused track whose audio ran out is finished.
    pub fn update_state(self, has_current_song: bool) -> (r: PlayerState)
        ensures
            r == if (self == PlayerState::Play || self == PlayerState::Pause)
                && !has_current_song {
                PlayerState::Finished
            } else {
                self
            },
    {
        match self {
            PlayerState::Play | PlayerState::Pause => {
                if !has_current_song {
                    PlayerState::Finished
                } else {
                    self
                }
            },
            _ => self,
        }
    }

    /// Acknowledges a finished track; any other state is kept.
    pub fn idle(self) -> (r: PlayerState)
        ensures
            r == if self == PlayerState::Finished {
                PlayerState::Idle
            } else {
                self
            },
    {
        match self {
            PlayerState::Finished => PlayerState::Idle,
            _ => self,
        }
    }

    /// Stopping goes idle unless the track already finished by itself.
    pub fn stop(self) -> (r: PlayerState)
        ensures
            r == if self == PlayerState::Finished {
                self
            } else {
                PlayerState::Idle
            },
    {
        match self {
            PlayerState::Finished => self,
            _ => PlayerState::Idle,
        }
    }

    /// Skipping counts as the track having finished, unless nothing plays.
    pub fn skip(self) -> (r: PlayerState)
        ensures
            r == if self == PlayerState::Idle {
                self
            } else {
                PlayerState::Finished
            },
    {
        match self {
            PlayerState::Idle => self,
            _ => PlayerState::Finished,
        }
    }

    /// Only a playing track can pause.
    pub fn pause(self) -> (r: PlayerState)
        ensures
            r == if self == PlayerState::Play {
                PlayerState::Pause
            } else {
                self
            },
    {
        match self {
            PlayerState::Play => PlayerState::Pause,
            _ => self,
        }
    }

    /// Only a paused track can resume.
    pub fn resume(self) -> (r: PlayerState)
        ensures
            r == if self == PlayerState::Pause {
                PlayerState::Play
            } else {
                self
            },
    {
        match self {
            PlayerState::Pause => PlayerState::Play,
            _ => self,
        }
    }
}

} // verus!
