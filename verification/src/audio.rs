//! The levels of what is heard, and how a piece of music is started.
use vstd::prelude::*;

use crate::ieee::Single;
use crate::ipc;
use crate::scene;

verus! {

/// Music that starts behind this many milliseconds is sought to its start: 250.
pub const SEEK_FROM: u32 = 0x437A_0000;

/// What is not louder than this is silence: a thousandth.
pub const SILENCE: u32 = 0x3A83_126F;

/// 0.8.
pub const DEFAULT_HITS: u32 = 0x3F4C_CCCD;

/// The slowest that music is played: 0.05.
pub const RATE_MIN: u32 = 0x3D4C_CCCD;

/// The fastest that music is played: 16.
pub const RATE_MAX: u32 = 0x4180_0000;

/// The volumes of music and hit sounds, and the one that both are below.
#[derive(Debug, Clone, Copy, PartialEq, Eq, Structural)]
pub struct Levels {
    pub bgm: Single,
    pub hits: Single,
    pub master: Single,
}

impl Levels {
    /// The levels before any was set.
    pub open spec fn initial() -> Levels {
        Levels {
            bgm: Single { bits: ipc::ONE },
            hits: Single { bits: DEFAULT_HITS },
            master: Single { bits: ipc::ONE },
        }
    }

    pub fn new() -> (r: Levels)
        ensures
            r == Levels::initial(),
    {
        Levels {
            bgm: Single { bits: ipc::ONE },
            hits: Single { bits: DEFAULT_HITS },
            master: Single { bits: ipc::ONE },
        }
    }

    pub fn set_volume(&mut self, v: Single)
        ensures
            *final(self) == (Levels { bgm: scene::unit(v), ..*old(self) }),
    {
        self.bgm = scene::clamp_unit(v);
    }

    pub fn set_master(&mut self, v: Single)
        ensures
            *final(self) == (Levels { master: scene::unit(v), ..*old(self) }),
    {
        self.master = scene::clamp_unit(v);
    }

    pub fn set_hits_volume(&mut self, v: Single)
        ensures
            *final(self) == (Levels { hits: scene::unit(v), ..*old(self) }),
    {
        self.hits = scene::clamp_unit(v);
    }
}

/// A speed within the bounds of what can be played.
pub open spec fn rate_within(x: Single) -> Single {
    x.clamped(Single { bits: RATE_MIN }, Single { bits: RATE_MAX })
}

pub fn clamp_rate(x: Single) -> (r: Single)
    ensures
        r == rate_within(x),
{
    x.clamp(Single { bits: RATE_MIN }, Single { bits: RATE_MAX })
}

/// Something of this amplitude is not heard.
pub open spec fn silent(amplitude: Single) -> bool {
    amplitude.at_most(Single { bits: SILENCE })
}

/// Whether something of this amplitude is not heard.
pub fn is_silent(amplitude: Single) -> (r: bool)
    ensures
        r == silent(amplitude),
{
    amplitude.le(&Single { bits: SILENCE })
}

/// Whether a volume is above nothing.
pub fn is_audible(v: Single) -> (r: bool)
    ensures
        r == (Single { bits: 0 }).below(v),
{
    (Single { bits: 0 }).lt(&v)
}

/// Music that starts here is sought to its start.
pub open spec fn inside(start: Single) -> bool {
    (Single { bits: SEEK_FROM }).below(start)
}

/// Whether music that starts here is sought to its start.
pub fn starts_inside(start: Single) -> (r: bool)
    ensures
        r == inside(start),
{
    (Single { bits: SEEK_FROM }).lt(&start)
}

/// For how many milliseconds what played before fades while something new begins: not at all where
/// the new does not fade in.
pub open spec fn release_of(fade_ms: u32) -> Option<u32> {
    if fade_ms > 0 {
        Some(120u32)
    } else {
        None
    }
}

pub fn release_ms(fade_ms: u32) -> (r: Option<u32>)
    ensures
        r == release_of(fade_ms),
{
    if fade_ms > 0 {
        Some(120)
    } else {
        None
    }
}

/// A hit is never played below five hundredths of its bank's volume.
pub open spec fn hit_share(percent: i32) -> i32 {
    if percent < 5 {
        5
    } else {
        percent
    }
}

pub fn hit_volume(percent: i32) -> (r: i32)
    ensures
        r == hit_share(percent),
{
    if percent < 5 {
        5
    } else {
        percent
    }
}

/// What a sound that was started is doing.
#[derive(Debug, Clone, Copy, PartialEq, Eq, Structural)]
pub enum Playback {
    Playing,
    Paused,
    /// On its way into one of the others, or over.
    Other,
}

/// Whether a sound has a position to hold the clock to.
pub fn has_position(state: Playback) -> (r: bool)
    ensures
        r == (state != Playback::Other),
{
    match state {
        Playback::Other => false,
        _ => true,
    }
}

/// A speed that is a number comes to lie from 0.05 to 16, and one that lies there stays.
pub proof fn law_speed_stays_within(x: Single)
    ensures
        !x.nan() ==> 0x3D4C_CCCD <= rate_within(x).bits <= 0x4180_0000,
        0x3D4C_CCCD <= x.bits <= 0x4180_0000 ==> rate_within(x) == x,
        x.bits < 0x3D4C_CCCD || 0x8000_0000 <= x.bits <= 0xFF80_0000 ==> rate_within(x).bits
            == 0x3D4C_CCCD,
        0x4180_0000 < x.bits <= 0x7F80_0000 ==> rate_within(x).bits == 0x4180_0000,
{
}

/// At first music and all of it are at full level, and hit sounds at four fifths.
pub proof fn law_first_levels()
    ensures
        Levels::initial().bgm.bits == 0x3F80_0000,
        Levels::initial().master.bits == 0x3F80_0000,
        Levels::initial().hits.bits == 0x3F4C_CCCD,
{
}

/// What is at most a thousandth is not heard, whatever lies below zero too; what is no number is.
pub proof fn law_silence_is_a_thousandth(x: Single)
    ensures
        silent(x) <==> x.bits <= 0x3A83_126F || 0x8000_0000 <= x.bits <= 0xFF80_0000,
{
}

/// Music is sought to its start where it starts behind the first quarter of a second.
pub proof fn law_late_starts_are_sought(x: Single)
    ensures
        inside(x) <==> 0x437A_0000 < x.bits <= 0x7F80_0000,
{
}

/// What played before fades over 120 milliseconds where the new fades in, and a hit has at least
/// five hundredths of its volume.
pub proof fn law_release_and_hits(fade_ms: u32, percent: i32)
    ensures
        fade_ms > 0 ==> release_of(fade_ms) == Some(120u32),
        release_of(0) is None,
        percent >= 5 ==> hit_share(percent) == percent,
        percent < 5 ==> hit_share(percent) == 5,
{
}

} // verus!
