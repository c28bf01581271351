//! Bookkeeping for sound. Nothing is played here: the manager records that
//! it was set up, and takes the calls of a game.

use vstd::prelude::*;

verus! {

/// Why setting up sound failed. Setting up always succeeds, so no function
/// of this module returns one yet.
#[derive(Debug, Clone, Copy, PartialEq, Eq, Structural)]
pub enum AudioError {
    /// No device plays sound.
    NoDevice,
}

/// Takes the calls of a game that plays sounds and music.
pub struct AudioManager {
    initialized: bool,
}

impl View for AudioManager {
    type V = bool;

    /// Whether sound was set up.
    closed spec fn view(&self) -> bool {
        self.initialized
    }
}

impl AudioManager {
    /// Set up sound.
    pub fn new() -> (r: Result<Self, AudioError>)
        ensures
            r matches Ok(m) && m@,
    {
        Ok(Self { initialized: true })
    }

    /// Whether sound was set up.
    pub fn is_initialized(&self) -> (r: bool)
        ensures
            r == self@,
    {
        self.initialized
    }

    /// Advance what is playing: nothing plays yet.
    pub fn update(&mut self)
        ensures
            final(self)@ == old(self)@,
    {
    }

    /// Play a sound: nothing plays yet.
    pub fn play_sound(&self, _sound_id: &str) {
    }

    /// Play a piece of music: nothing plays yet.
    pub fn play_music(&self, _music_id: &str) {
    }

    /// Stop the music: nothing plays yet.
    pub fn stop_music(&self) {
    }

    /// Set the volume of everything, in percent: nothing plays yet.
    pub fn set_master_volume(&mut self, _volume_percent: u8)
        ensures
            final(self)@ == old(self)@,
    {
    }

    /// Set the volume of sounds, in percent: nothing plays yet.
    pub fn set_sound_volume(&mut self, _volume_percent: u8)
        ensures
            final(self)@ == old(self)@,
    {
    }

    /// Set the volume of music, in percent: nothing plays yet.
    pub fn set_music_volume(&mut self, _volume_percent: u8)
        ensures
            final(self)@ == old(self)@,
    {
    }
}

impl Default for AudioManager {
    /// A manager that was set up if setting up succeeds, and one that was
    /// not otherwise.
    fn default() -> (m: Self) {
        match Self::new() {
            Ok(m) => m,
            Err(_) => Self { initialized: false },
        }
    }
}

} // verus!
