//! What the player and its renderer say to each other: commands one way, events the other, one
//! to a line.
use vstd::prelude::*;

use crate::ieee::Single;
use crate::text;

verus! {

/// The number one.
pub const ONE: u32 = 0x3F80_0000;

/// A command that says nothing of looping loops.
pub fn default_loop() -> (r: bool)
    ensures
        r,
{
    true
}

/// Storyboard, video and beatmap hit sounds are on where a command says nothing of them.
pub fn default_on() -> (r: bool)
    ensures
        r,
{
    true
}

/// Nothing is upscaled where a command does not ask for it.
pub fn default_upscale() -> (r: String)
    ensures
        r@ == "off"@,
{
    text::owned("off")
}

/// The quality of upscaling where a command names none.
pub fn default_quality() -> (r: String)
    ensures
        r@ == "m"@,
{
    text::owned("m")
}

/// The speed where an event names none.
pub fn one() -> (r: Single)
    ensures
        r.bits == ONE,
{
    Single { bits: ONE }
}

/// A file of a beatmap set: its name in the set and where its content lies.
#[derive(Debug)]
pub struct VFile {
    pub name: String,
    pub path: String,
}

impl Clone for VFile {
    fn clone(&self) -> (r: VFile)
        ensures
            r == *self,
    {
        VFile { name: self.name.clone(), path: self.path.clone() }
    }
}

/// A beatmap to load and how to play it.
#[derive(Debug)]
pub struct Load {
    pub path: String,
    pub diff: Option<String>,
    /// Not used any more.
    pub fail: bool,
    pub speed: Single,
    /// Where to start, in milliseconds.
    pub start: Single,
    pub loop_playback: bool,
    /// The files of the set by name; without them the set is the directory of `path`.
    pub manifest: Option<Vec<VFile>>,
    /// The directory of the skin; none is the built-in one.
    pub skin: Option<String>,
    /// The colours of the skin come before those of the beatmap.
    pub force_colours: bool,
    pub hidden: bool,
    pub mods: u32,
    pub storyboard: bool,
    pub video: bool,
    pub beatmap_hitsounds: bool,
    pub upscale: String,
    /// Left, top, width and height of the screen to fill; without them the whole desktop.
    pub monitor: Option<Vec<i32>>,
    pub upscale_quality: String,
}

#[derive(Debug)]
pub enum Command {
    /// List the difficulties.
    Probe { path: String },
    Load(Load),
    /// Take the wallpaper down.
    Unload,
    Pause,
    Resume,
    Seek { ms: Single },
    SetSpeed { x: Single },
    SetFail { on: bool },
    SetLoop { on: bool },
    /// Report the status now.
    Status,
    SetVolume { v: Single },
    SetMaster { v: Single },
    /// A positive offset brings the hit sounds forward.
    SetOffset { ms: Single },
    SetHitsVolume { v: Single },
    SetBeatmapHitsounds { on: bool },
    SetHud { on: bool },
    SetPp { on: bool },
    SetHitAnimations { on: bool },
    SetBreakLighten { on: bool },
    SetCursor { on: bool },
    SetCursorSize { x: Single },
    SetSkin { skin: Option<String>, force_colours: bool },
    SetFade { on: bool },
    SetGameplayHidden { on: bool },
    SetBgOpacity { v: Single },
    SetHidden { on: bool },
    SetVideo { on: bool },
    SetUpscale { mode: String, quality: String },
    SetRenderMode { mode: String },
    /// Zero follows the screen.
    SetFps { fps: u32 },
    SetLog { on: bool },
    SetFfmpegBins { ffmpeg: Option<String>, ffprobe: Option<String> },
    /// Put the wallpaper up again after its window was taken away.
    Reload,
    /// The music was stretched to another speed; without a file that failed.
    AudioReady { speed: Single, file: Option<String>, fade_ms: u32 },
    /// The performance points were computed for the load with this number, or failed to be.
    PpReady { seq: u64, computed: bool },
    Quit,
}

#[derive(Debug)]
pub enum Event {
    /// The window is up.
    Ready { width: u32, height: u32, refresh_hz: u32 },
    DiffList { path: String, diffs: Vec<String> },
    Loaded {
        path: String,
        diff: Option<String>,
        duration_ms: Single,
        widescreen: bool,
        has_audio: bool,
        mods: u32,
    },
    Status {
        t_ms: Single,
        duration_ms: Single,
        playing: bool,
        /// What is played at: the rate of the mods times the user's speed.
        speed: Single,
        user_speed: Single,
        looping: bool,
        fps: u32,
    },
    /// The end was reached without looping.
    Ended,
    /// The window was taken away from outside.
    Detached,
    Unloaded,
    Error { message: String },
    Exited,
}

} // verus!
