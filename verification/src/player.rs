//! The video player's reaction to keys: pausing, seeking, volume and quitting.
use vstd::prelude::*;
use crate::keys::{KeyCodes, QUIT, SPACE};

verus! {

/// Playback position and settings.
#[derive(Debug, Clone, Copy, PartialEq, Eq, Structural)]
pub struct Playback {
    /// Index of the frame about to be shown.
    pub frame: usize,
    /// Volume in percent.
    pub volume: u32,
    pub paused: bool,
}

/// What the player does after a key.
#[derive(Debug, Clone, Copy, PartialEq, Eq, Structural)]
pub enum PlayerAction {
    /// Pause the audio and show the paused status bar.
    Pause,
    /// Still paused: show the paused status bar again.
    StillPaused,
    /// Resume the audio and go on with the next frame.
    Resume,
    /// Move the audio to the given frame and go on with the next frame.
    Seek(usize),
    /// Raise the audio volume by five percent and go on.
    VolumeUp,
    /// Lower the audio volume by five percent and go on.
    VolumeDown,
    /// Stop the audio and leave the player.
    Quit,
    /// Go on with the next frame.
    Next,
}

/// Next state and action of the player for `key`; `skip` is the number of
/// frames a seek moves by.
pub open spec fn player_step(p: Playback, key: i32, keys: KeyCodes, skip: usize) -> (Playback, PlayerAction) {
    if p.paused {
        if key == SPACE {
            (Playback { frame: (p.frame + 1) as usize, paused: false, ..p }, PlayerAction::Resume)
        } else {
            (p, PlayerAction::StillPaused)
        }
    } else if key == SPACE {
        (Playback { paused: true, ..p }, PlayerAction::Pause)
    } else if key == keys.right {
        let target = (p.frame + skip) as usize;
        (Playback { frame: (target + 1) as usize, ..p }, PlayerAction::Seek(target))
    } else if key == keys.left {
        let target = if p.frame >= skip { (p.frame - skip) as usize } else { 0usize };
        (Playback { frame: (target + 1) as usize, ..p }, PlayerAction::Seek(target))
    } else if key == keys.up && p.volume < 100 {
        (Playback { frame: (p.frame + 1) as usize, volume: (p.volume + 5) as u32, ..p }, PlayerAction::VolumeUp)
    } else if key == keys.down && p.volume >= 5 {
        (Playback { frame: (p.frame + 1) as usize, volume: (p.volume - 5) as u32, ..p }, PlayerAction::VolumeDown)
    } else if key == QUIT {
        (p, PlayerAction::Quit)
    } else {
        (Playback { frame: (p.frame + 1) as usize, ..p }, PlayerAction::Next)
    }
}

/// The frame counter stays a machine integer through the step.
pub open spec fn player_step_fits(p: Playback, key: i32, keys: KeyCodes, skip: usize) -> bool {
    &&& p.frame < usize::MAX
    &&& (!p.paused && key != SPACE && key == keys.right) ==> p.frame + skip < usize::MAX
}

impl Playback {
    /// The state at the start of a video: first frame, full volume, playing.
    pub fn new() -> (res: Playback)
        ensures
            res == (Playback { frame: 0, volume: 100, paused: false }),
    {
        Playback { frame: 0, volume: 100, paused: false }
    }

    /// Reacts to `key`; `skip` is the number of frames a seek moves by.
    pub fn on_key(&mut self, key: i32, keys: &KeyCodes, skip: usize) -> (res: PlayerAction)
        requires
            player_step_fits(*old(self), key, *keys, skip),
        ensures
            (*final(self), res) == player_step(*old(self), key, *keys, skip),
    {
        if self.paused {
            if key == SPACE {
                self.frame = self.frame + 1;
                self.paused = false;
                PlayerAction::Resume
            } else {
                PlayerAction::StillPaused
            }
        } else if key == SPACE {
            self.paused = true;
            PlayerAction::Pause
        } else if key == keys.right {
            let target = self.frame + skip;
            self.frame = target + 1;
            PlayerAction::Seek(target)
        } else if key == keys.left {
            let target = self.frame.saturating_sub(skip);
            self.frame = target + 1;
            PlayerAction::Seek(target)
        } else if key == keys.up && self.volume < 100 {
            self.volume = self.volume + 5;
            self.frame = self.frame + 1;
            PlayerAction::VolumeUp
        } else if key == keys.down && self.volume >= 5 {
            self.volume = self.volume - 5;
            self.frame = self.frame + 1;
            PlayerAction::VolumeDown
        } else if key == QUIT {
            PlayerAction::Quit
        } else {
            self.frame = self.frame + 1;
            PlayerAction::Next
        }
    }
}

/// A volume the player can reach: a multiple of five from 0 to 100.
pub open spec fn volume_ok(v: u32) -> bool {
    v <= 100 && v % 5 == 0
}

/// Whatever key comes, the volume stays a multiple of five between 0 and 100.
pub proof fn lemma_volume_stays_in_range(p: Playback, key: i32, keys: KeyCodes, skip: usize)
    requires
        volume_ok(p.volume),
    ensures
        volume_ok(player_step(p, key, keys, skip).0.volume),
{
}

/// Raising the volume and then lowering it restores the volume, and two
/// frames have passed.
pub proof fn lemma_volume_up_then_down(p: Playback, keys: KeyCodes, skip: usize)
    requires
        keys.well_formed(),
        !p.paused,
        p.volume < 100,
        p.frame + 2 < usize::MAX,
    ensures
        ({
            let (q, a) = player_step(p, keys.up, keys, skip);
            let (r, b) = player_step(q, keys.down, keys, skip);
            &&& a == PlayerAction::VolumeUp
            &&& b == PlayerAction::VolumeDown
            &&& r == (Playback { frame: (p.frame + 2) as usize, ..p })
        }),
{
}

/// Space pauses, and space again resumes at the next frame with nothing else
/// changed.
pub proof fn lemma_pause_then_resume(p: Playback, keys: KeyCodes, skip: usize)
    requires
        !p.paused,
        p.frame + 1 < usize::MAX,
    ensures
        ({
            let (q, a) = player_step(p, SPACE, keys, skip);
            let (r, b) = player_step(q, SPACE, keys, skip);
            &&& a == PlayerAction::Pause
            &&& q.paused
            &&& b == PlayerAction::Resume
            &&& r == (Playback { frame: (p.frame + 1) as usize, ..p })
        }),
{
}

/// While paused, any key but space changes nothing.
pub proof fn lemma_paused_ignores_keys(p: Playback, key: i32, keys: KeyCodes, skip: usize)
    requires
        p.paused,
        key != SPACE,
    ensures
        player_step(p, key, keys, skip) == (p, PlayerAction::StillPaused),
{
}

/// Seeking forward and then back by the same step lands on the frame after
/// the starting one (each step also moves on by one frame).
pub proof fn lemma_seek_forward_then_back(p: Playback, keys: KeyCodes, skip: usize)
    requires
        keys.well_formed(),
        !p.paused,
        p.frame + skip + 2 < usize::MAX,
    ensures
        ({
            let (q, a) = player_step(p, keys.right, keys, skip);
            let (r, b) = player_step(q, keys.left, keys, skip);
            &&& a == PlayerAction::Seek((p.frame + skip) as usize)
            &&& b == PlayerAction::Seek((p.frame + 1) as usize)
            &&& r == (Playback { frame: (p.frame + 2) as usize, ..p })
        }),
{
}

/// Quitting leaves the state as it was.
pub proof fn lemma_quit_keeps_state(p: Playback, keys: KeyCodes, skip: usize)
    requires
        keys.well_formed(),
        !p.paused,
    ensures
        player_step(p, QUIT, keys, skip) == (p, PlayerAction::Quit),
{
}

} // verus!
