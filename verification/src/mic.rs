//! Icon states of the microphone: on, muted, or unknown.
//!
//! An unreadable state is drawn grey, never green: the icon must not claim the
//! microphone is live when the program does not know.

use vstd::prelude::*;

verus! {

/// The three icon states.
#[derive(Clone, Copy, PartialEq, Eq, Debug, Structural)]
pub enum State {
    /// The microphone is live (not muted).
    On,
    /// The microphone is muted.
    Off,
    /// The state could not be read, or no usable device was found.
    Unknown,
}

/// The icon state for a mute state read from a snapshot.
pub open spec fn state_of(muted: Option<bool>) -> State {
    match muted {
        Some(true) => State::Off,
        Some(false) => State::On,
        None => State::Unknown,
    }
}

/// Main color of each state: green live, red muted, grey unknown.
pub open spec fn rgb_spec(s: State) -> (u8, u8, u8) {
    match s {
        State::On => (0x22, 0xB1, 0x4C),
        State::Off => (0xE8, 0x11, 0x23),
        State::Unknown => (0x9A, 0xA0, 0xA6),
    }
}

impl State {
    /// The icon state for `muted`; a failed read (`None`) is `Unknown`.
    pub fn from_muted(muted: Option<bool>) -> (r: State)
        ensures
            r == state_of(muted),
    {
        match muted {
            Some(true) => State::Off,
            Some(false) => State::On,
            None => State::Unknown,
        }
    }

    /// The main color, a mid-tone readable on dark and light taskbars.
    pub fn rgb(self) -> (r: (u8, u8, u8))
        ensures
            r == rgb_spec(self),
    {
        match self {
            State::On => (0x22, 0xB1, 0x4C),
            State::Off => (0xE8, 0x11, 0x23),
            State::Unknown => (0x9A, 0xA0, 0xA6),
        }
    }

    /// Whether the icon carries the mute slash (the muted state only).
    pub fn has_slash(self) -> (r: bool)
        ensures
            r == (self == State::Off),
    {
        match self {
            State::Off => true,
            _ => false,
        }
    }
}

/// Law: the icon is green exactly when the mute state was read as "not muted"; an
/// unreadable state is never shown as live.
pub proof fn lemma_green_only_when_known_live(muted: Option<bool>)
    ensures
        (state_of(muted) == State::On) <==> (muted == Some(false)),
        muted is None ==> state_of(muted) == State::Unknown && rgb_spec(state_of(muted)) != rgb_spec(State::On),
{
}

} // verus!
