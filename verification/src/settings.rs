//! The settings: what they are when nothing is stored, and what stored ones of any age become.
use vstd::prelude::*;

use crate::ieee::{Double, Single};
use crate::ipc::ONE;
use crate::playlist::PlayMode;
use crate::text;

verus! {

/// 0.6
pub const VOLUME: u32 = 0x3F19_999A;

/// 0.8
pub const HITS_VOLUME: u32 = 0x3F4C_CCCD;

/// 0.7
pub const BG_OPACITY: u32 = 0x3F33_3333;

/// A track of the stored play list.
#[derive(Debug)]
pub struct SavedTrack {
    pub set_id: String,
    pub sha2: Option<String>,
    pub mods: u32,
    pub title: String,
    pub artist: String,
    pub length_ms: Double,
}

impl Clone for SavedTrack {
    fn clone(&self) -> (r: SavedTrack)
        ensures
            r == *self,
    {
        SavedTrack {
            set_id: self.set_id.clone(),
            sha2: self.sha2.clone(),
            mods: self.mods,
            title: self.title.clone(),
            artist: self.artist.clone(),
            length_ms: self.length_ms,
        }
    }
}

/// The file that was last picked by hand, and its difficulty.
#[derive(Debug)]
pub struct Manual {
    /// The beatmap that was last picked by hand, and its difficulty.
    pub path: Option<String>,
    pub diff: Option<String>,
}

/// How tracks are picked and played.
#[derive(Debug)]
pub struct Play {
    /// Not used any more.
    pub fail: bool,
    pub speed: Single,
    pub loop_playback: bool,
    pub play_mode: PlayMode,
    /// The collection that is played; none is all of the library.
    pub collection: Option<String>,
    /// The difficulty nearest to so many stars is played; without a number the hardest.
    pub target_star: Option<Double>,
    pub star_min: Double,
}

/// Where things are found.
#[derive(Debug)]
pub struct Places {
    /// Where the library comes from: "lazer" or "stable".
    pub source: String,
    /// Directories chosen by hand; without one they are looked for.
    pub lazer_dir: Option<String>,
    pub stable_dir: Option<String>,
    pub ffmpeg: Option<String>,
    pub ffprobe: Option<String>,
    /// The skin; none is the built-in one.
    pub skin: Option<String>,
    pub force_skin_colours: bool,
}

/// How it sounds.
#[derive(Debug)]
pub struct Sound {
    pub volume: Single,
    pub hitsound: bool,
    /// Samples of the beatmap come before those of the skin.
    pub beatmap_hitsounds: bool,
    pub hits_volume: Single,
    pub master_volume: Single,
    pub fade_audio: bool,
    /// A positive offset brings the hit sounds forward.
    pub audio_offset_ms: Single,
}

/// How it looks.
#[derive(Debug)]
pub struct Shown {
    pub hud: bool,
    pub pp: bool,
    pub reduce_anim: bool,
    /// The background does not brighten in breaks unless asked to.
    pub break_lighten: bool,
    pub cursor: bool,
    pub cursor_size: Single,
    /// Only background and storyboard are shown.
    pub gameplay_hidden: bool,
    pub bg_opacity: Single,
    pub hidden: bool,
    pub storyboard: bool,
    /// Zero follows the screen.
    pub fps: u32,
}

/// When it is rendered.
#[derive(Debug)]
pub struct Render {
    pub render_mode: String,
    /// Older switches, taken over by the render mode.
    pub pure_audio: bool,
    pub auto_pause_render: bool,
}

/// How the program behaves.
#[derive(Debug)]
pub struct Program {
    pub autostart: bool,
    /// What closing the window does: "tray", "exit", or ask.
    pub close_action: Option<String>,
    pub log_enabled: bool,
    pub dblclick_add: bool,
    pub quick_add: bool,
    pub quick_mods: u32,
}

/// What was played last, and the play list.
#[derive(Debug)]
pub struct List {
    /// The set and difficulty that were last played.
    pub lazer_set: Option<String>,
    pub lazer_sha2: Option<String>,
    /// The play list and what is played of it.
    pub playlist: Vec<SavedTrack>,
    pub playlist_pos: usize,
}

#[derive(Debug)]
pub struct Settings {
    pub manual: Manual,
    pub play: Play,
    pub places: Places,
    pub sound: Sound,
    pub shown: Shown,
    pub render: Render,
    pub program: Program,
    pub list: List,
}

/// The settings as they are stored: an older version left fields out.
#[derive(Debug)]
pub struct Stored {
    pub path: Option<String>,
    pub diff: Option<String>,
    pub fail: Option<bool>,
    pub speed: Option<Single>,
    pub loop_playback: Option<bool>,
    pub autostart: Option<bool>,
    pub source: Option<String>,
    pub lazer_dir: Option<String>,
    pub stable_dir: Option<String>,
    pub play_mode: Option<PlayMode>,
    pub collection: Option<String>,
    pub volume: Option<Single>,
    pub hitsound: Option<bool>,
    pub beatmap_hitsounds: Option<bool>,
    pub hits_volume: Option<Single>,
    pub master_volume: Option<Single>,
    pub fade_audio: Option<bool>,
    pub audio_offset_ms: Option<Single>,
    pub hud: Option<bool>,
    pub pp: Option<bool>,
    pub reduce_anim: Option<bool>,
    pub break_lighten: Option<bool>,
    pub cursor: Option<bool>,
    pub cursor_size: Option<Single>,
    pub gameplay_hidden: Option<bool>,
    pub render_mode: Option<String>,
    pub ffmpeg: Option<String>,
    pub ffprobe: Option<String>,
    pub pure_audio: Option<bool>,
    pub auto_pause_render: Option<bool>,
    pub bg_opacity: Option<Single>,
    pub hidden: Option<bool>,
    pub storyboard: Option<bool>,
    pub skin: Option<String>,
    pub force_skin_colours: Option<bool>,
    pub fps: Option<u32>,
    pub target_star: Option<Double>,
    pub star_min: Option<Double>,
    pub lazer_set: Option<String>,
    pub lazer_sha2: Option<String>,
    pub close_action: Option<String>,
    pub log_enabled: Option<bool>,
    pub dblclick_add: Option<bool>,
    pub quick_add: Option<bool>,
    pub quick_mods: Option<u32>,
    pub playlist: Option<Vec<SavedTrack>>,
    pub playlist_pos: Option<usize>,
}

/// The library comes from osu!lazer.
pub fn default_source() -> (r: String)
    ensures
        r@ == "lazer"@,
{
    text::owned("lazer")
}

/// Rendering stops while the desktop is covered.
pub fn default_render_mode() -> (r: String)
    ensures
        r@ == "autopause"@,
{
    text::owned("autopause")
}

pub fn default_volume() -> (r: Single)
    ensures
        r == (Single { bits: VOLUME }),
{
    Single { bits: VOLUME }
}

pub fn default_bg_opacity() -> (r: Single)
    ensures
        r == (Single { bits: BG_OPACITY }),
{
    Single { bits: BG_OPACITY }
}

pub fn default_hits_volume() -> (r: Single)
    ensures
        r == (Single { bits: HITS_VOLUME }),
{
    Single { bits: HITS_VOLUME }
}

pub fn default_cursor_size() -> (r: Single)
    ensures
        r == (Single { bits: ONE }),
{
    Single { bits: ONE }
}

pub fn default_master() -> (r: Single)
    ensures
        r == (Single { bits: ONE }),
{
    Single { bits: ONE }
}

pub fn default_hitsound() -> (r: bool)
    ensures
        r,
{
    true
}

pub fn default_auto_pause() -> (r: bool)
    ensures
        r,
{
    true
}

pub fn default_on() -> (r: bool)
    ensures
        r,
{
    true
}

pub fn default_true() -> (r: bool)
    ensures
        r,
{
    true
}

/// What the settings are when nothing is stored.
pub open spec fn is_default(s: Settings) -> bool {
    &&& s.manual.path is None
    &&& s.manual.diff is None
    &&& s.play.fail == false
    &&& s.play.speed == (Single { bits: ONE })
    &&& s.play.loop_playback == false
    &&& s.program.autostart == false
    &&& s.places.source@ == "lazer"@
    &&& s.places.lazer_dir is None
    &&& s.places.stable_dir is None
    &&& s.play.play_mode == PlayMode::ListOrder
    &&& s.play.collection is None
    &&& s.sound.volume == (Single { bits: VOLUME })
    &&& s.sound.hitsound == true
    &&& s.sound.beatmap_hitsounds == true
    &&& s.sound.hits_volume == (Single { bits: HITS_VOLUME })
    &&& s.sound.master_volume == (Single { bits: ONE })
    &&& s.sound.fade_audio == true
    &&& s.sound.audio_offset_ms == (Single { bits: 0 })
    &&& s.shown.hud == false
    &&& s.shown.pp == false
    &&& s.shown.reduce_anim == false
    &&& s.shown.break_lighten == false
    &&& s.shown.cursor == true
    &&& s.shown.cursor_size == (Single { bits: ONE })
    &&& s.shown.gameplay_hidden == false
    &&& s.render.render_mode@ == "autopause"@
    &&& s.places.ffmpeg is None
    &&& s.places.ffprobe is None
    &&& s.render.pure_audio == false
    &&& s.render.auto_pause_render == true
    &&& s.shown.bg_opacity == (Single { bits: BG_OPACITY })
    &&& s.shown.hidden == false
    &&& s.shown.storyboard == true
    &&& s.places.skin is None
    &&& s.places.force_skin_colours == false
    &&& s.shown.fps == 0
    &&& s.play.target_star is None
    &&& s.play.star_min == (Double { bits: 0 })
    &&& s.list.lazer_set is None
    &&& s.list.lazer_sha2 is None
    &&& s.program.close_action is None
    &&& s.program.log_enabled == false
    &&& s.program.dblclick_add == false
    &&& s.program.quick_add == true
    &&& s.program.quick_mods == 0
    &&& s.list.playlist@.len() == 0
    &&& s.list.playlist_pos == 0
}

impl Default for Settings {
    fn default() -> (s: Settings)
        ensures
            is_default(s),
    {
        Settings {
            manual: Manual {
                path: None,
                diff: None,
            },
            play: Play {
                fail: false,
                speed: Single { bits: ONE },
                loop_playback: false,
                play_mode: PlayMode::ListOrder,
                collection: None,
                target_star: None,
                star_min: Double { bits: 0 },
            },
            places: Places {
                source: default_source(),
                lazer_dir: None,
                stable_dir: None,
                ffmpeg: None,
                ffprobe: None,
                skin: None,
                force_skin_colours: false,
            },
            sound: Sound {
                volume: default_volume(),
                hitsound: default_hitsound(),
                beatmap_hitsounds: default_on(),
                hits_volume: default_hits_volume(),
                master_volume: default_master(),
                fade_audio: default_true(),
                audio_offset_ms: Single { bits: 0 },
            },
            shown: Shown {
                hud: false,
                pp: false,
                reduce_anim: false,
                break_lighten: false,
                cursor: default_true(),
                cursor_size: default_cursor_size(),
                gameplay_hidden: false,
                bg_opacity: default_bg_opacity(),
                hidden: false,
                storyboard: default_on(),
                fps: 0,
            },
            render: Render {
                render_mode: default_render_mode(),
                pure_audio: false,
                auto_pause_render: default_auto_pause(),
            },
            program: Program {
                autostart: false,
                close_action: None,
                log_enabled: false,
                dblclick_add: false,
                quick_add: default_true(),
                quick_mods: 0,
            },
            list: List {
                lazer_set: None,
                lazer_sha2: None,
                playlist: Vec::new(),
                playlist_pos: 0,
            },
        }
    }
}

impl Clone for Settings {
    fn clone(&self) -> (r: Settings)
        ensures
            r == (Settings { list: List { playlist: r.list.playlist, ..self.list }, ..*self }),
            r.list.playlist@ == self.list.playlist@,
    {
        let playlist: Vec<SavedTrack> = self.list.playlist.clone();
        assert(playlist@ =~= self.list.playlist@);
        Settings {
            manual: Manual {
                path: self.manual.path.clone(),
                diff: self.manual.diff.clone(),
            },
            play: Play {
                fail: self.play.fail,
                speed: self.play.speed,
                loop_playback: self.play.loop_playback,
                play_mode: self.play.play_mode,
                collection: self.play.collection.clone(),
                target_star: self.play.target_star,
                star_min: self.play.star_min,
            },
            places: Places {
                source: self.places.source.clone(),
                lazer_dir: self.places.lazer_dir.clone(),
                stable_dir: self.places.stable_dir.clone(),
                ffmpeg: self.places.ffmpeg.clone(),
                ffprobe: self.places.ffprobe.clone(),
                skin: self.places.skin.clone(),
                force_skin_colours: self.places.force_skin_colours,
            },
            sound: Sound {
                volume: self.sound.volume,
                hitsound: self.sound.hitsound,
                beatmap_hitsounds: self.sound.beatmap_hitsounds,
                hits_volume: self.sound.hits_volume,
                master_volume: self.sound.master_volume,
                fade_audio: self.sound.fade_audio,
                audio_offset_ms: self.sound.audio_offset_ms,
            },
            shown: Shown {
                hud: self.shown.hud,
                pp: self.shown.pp,
                reduce_anim: self.shown.reduce_anim,
                break_lighten: self.shown.break_lighten,
                cursor: self.shown.cursor,
                cursor_size: self.shown.cursor_size,
                gameplay_hidden: self.shown.gameplay_hidden,
                bg_opacity: self.shown.bg_opacity,
                hidden: self.shown.hidden,
                storyboard: self.shown.storyboard,
                fps: self.shown.fps,
            },
            render: Render {
                render_mode: self.render.render_mode.clone(),
                pure_audio: self.render.pure_audio,
                auto_pause_render: self.render.auto_pause_render,
            },
            program: Program {
                autostart: self.program.autostart,
                close_action: self.program.close_action.clone(),
                log_enabled: self.program.log_enabled,
                dblclick_add: self.program.dblclick_add,
                quick_add: self.program.quick_add,
                quick_mods: self.program.quick_mods,
            },
            list: List {
                lazer_set: self.list.lazer_set.clone(),
                lazer_sha2: self.list.lazer_sha2.clone(),
                playlist,
                playlist_pos: self.list.playlist_pos,
            },
        }
    }
}

/// What older versions stored too is there.
pub open spec fn complete(st: Stored) -> bool {
    st.fail is Some && st.speed is Some && st.autostart is Some && st.gameplay_hidden is Some
}

/// The value, or what stands in for it.
pub open spec fn kept<T>(stored: Option<T>, otherwise: T) -> T {
    match stored {
        Some(v) => v,
        None => otherwise,
    }
}

/// The text, or what stands in for it.
pub open spec fn kept_text(stored: Option<String>, otherwise: Seq<char>) -> Seq<char> {
    match stored {
        Some(v) => v@,
        None => otherwise,
    }
}

/// What was stored is kept, and what was not is as if nothing were stored.
pub open spec fn is_restored(st: Stored, s: Settings) -> bool {
    &&& s.manual.path == st.path
    &&& s.manual.diff == st.diff
    &&& st.fail == Some(s.play.fail)
    &&& st.speed == Some(s.play.speed)
    &&& s.play.loop_playback == kept(st.loop_playback, false)
    &&& st.autostart == Some(s.program.autostart)
    &&& s.places.source@ == kept_text(st.source, "lazer"@)
    &&& s.places.lazer_dir == st.lazer_dir
    &&& s.places.stable_dir == st.stable_dir
    &&& s.play.play_mode == kept(st.play_mode, PlayMode::ListOrder)
    &&& s.play.collection == st.collection
    &&& s.sound.volume == kept(st.volume, Single { bits: VOLUME })
    &&& s.sound.hitsound == kept(st.hitsound, true)
    &&& s.sound.beatmap_hitsounds == kept(st.beatmap_hitsounds, true)
    &&& s.sound.hits_volume == kept(st.hits_volume, Single { bits: HITS_VOLUME })
    &&& s.sound.master_volume == kept(st.master_volume, Single { bits: ONE })
    &&& s.sound.fade_audio == kept(st.fade_audio, true)
    &&& s.sound.audio_offset_ms == kept(st.audio_offset_ms, Single { bits: 0 })
    &&& s.shown.hud == kept(st.hud, false)
    &&& s.shown.pp == kept(st.pp, false)
    &&& s.shown.reduce_anim == kept(st.reduce_anim, false)
    &&& s.shown.break_lighten == kept(st.break_lighten, false)
    &&& s.shown.cursor == kept(st.cursor, true)
    &&& s.shown.cursor_size == kept(st.cursor_size, Single { bits: ONE })
    &&& st.gameplay_hidden == Some(s.shown.gameplay_hidden)
    &&& s.render.render_mode@ == kept_text(st.render_mode, "autopause"@)
    &&& s.places.ffmpeg == st.ffmpeg
    &&& s.places.ffprobe == st.ffprobe
    &&& s.render.pure_audio == kept(st.pure_audio, false)
    &&& s.render.auto_pause_render == kept(st.auto_pause_render, true)
    &&& s.shown.bg_opacity == kept(st.bg_opacity, Single { bits: BG_OPACITY })
    &&& s.shown.hidden == kept(st.hidden, false)
    &&& s.shown.storyboard == kept(st.storyboard, true)
    &&& s.places.skin == st.skin
    &&& s.places.force_skin_colours == kept(st.force_skin_colours, false)
    &&& s.shown.fps == kept(st.fps, 0)
    &&& s.play.target_star == st.target_star
    &&& s.play.star_min == kept(st.star_min, Double { bits: 0 })
    &&& s.list.lazer_set == st.lazer_set
    &&& s.list.lazer_sha2 == st.lazer_sha2
    &&& s.program.close_action == st.close_action
    &&& s.program.log_enabled == kept(st.log_enabled, false)
    &&& s.program.dblclick_add == kept(st.dblclick_add, false)
    &&& s.program.quick_add == kept(st.quick_add, true)
    &&& s.program.quick_mods == kept(st.quick_mods, 0)
    &&& match st.playlist {
        Some(v) => s.list.playlist == v,
        None => s.list.playlist@.len() == 0,
    }
    &&& s.list.playlist_pos == kept(st.playlist_pos, 0)
}

fn text_or(stored: Option<String>, otherwise: String) -> (r: String)
    ensures
        r == match stored {
            Some(v) => v,
            None => otherwise,
        },
{
    match stored {
        Some(v) => v,
        None => otherwise,
    }
}

/// The settings that were stored, where they can be made out.
pub fn restored(st: Stored) -> (r: Option<Settings>)
    ensures
        match r {
            Some(s) => complete(st) && is_restored(st, s),
            None => !complete(st),
        },
{
    match (st.fail, st.speed, st.autostart, st.gameplay_hidden) {
        (Some(fail), Some(speed), Some(autostart), Some(gameplay_hidden)) => Some(Settings {
            manual: Manual {
                path: st.path,
                diff: st.diff,
            },
            play: Play {
                fail,
                speed,
                loop_playback: st.loop_playback.unwrap_or(false),
                play_mode: st.play_mode.unwrap_or(PlayMode::ListOrder),
                collection: st.collection,
                target_star: st.target_star,
                star_min: st.star_min.unwrap_or(Double { bits: 0 }),
            },
            places: Places {
                source: text_or(st.source, default_source()),
                lazer_dir: st.lazer_dir,
                stable_dir: st.stable_dir,
                ffmpeg: st.ffmpeg,
                ffprobe: st.ffprobe,
                skin: st.skin,
                force_skin_colours: st.force_skin_colours.unwrap_or(false),
            },
            sound: Sound {
                volume: st.volume.unwrap_or(default_volume()),
                hitsound: st.hitsound.unwrap_or(default_hitsound()),
                beatmap_hitsounds: st.beatmap_hitsounds.unwrap_or(default_on()),
                hits_volume: st.hits_volume.unwrap_or(default_hits_volume()),
                master_volume: st.master_volume.unwrap_or(default_master()),
                fade_audio: st.fade_audio.unwrap_or(default_true()),
                audio_offset_ms: st.audio_offset_ms.unwrap_or(Single { bits: 0 }),
            },
            shown: Shown {
                hud: st.hud.unwrap_or(false),
                pp: st.pp.unwrap_or(false),
                reduce_anim: st.reduce_anim.unwrap_or(false),
                break_lighten: st.break_lighten.unwrap_or(false),
                cursor: st.cursor.unwrap_or(default_true()),
                cursor_size: st.cursor_size.unwrap_or(default_cursor_size()),
                gameplay_hidden,
                bg_opacity: st.bg_opacity.unwrap_or(default_bg_opacity()),
                hidden: st.hidden.unwrap_or(false),
                storyboard: st.storyboard.unwrap_or(default_on()),
                fps: st.fps.unwrap_or(0),
            },
            render: Render {
                render_mode: text_or(st.render_mode, default_render_mode()),
                pure_audio: st.pure_audio.unwrap_or(false),
                auto_pause_render: st.auto_pause_render.unwrap_or(default_auto_pause()),
            },
            program: Program {
                autostart,
                close_action: st.close_action,
                log_enabled: st.log_enabled.unwrap_or(false),
                dblclick_add: st.dblclick_add.unwrap_or(false),
                quick_add: st.quick_add.unwrap_or(default_true()),
                quick_mods: st.quick_mods.unwrap_or(0),
            },
            list: List {
                lazer_set: st.lazer_set,
                lazer_sha2: st.lazer_sha2,
                playlist: match st.playlist {
                    Some(v) => v,
                    None => Vec::new(),
                },
                playlist_pos: st.playlist_pos.unwrap_or(0),
            },
        }),
        _ => None,
    }
}

/// What is stored of settings.
pub open spec fn stored_of(s: Settings) -> Stored {
    Stored {
        path: s.manual.path,
        diff: s.manual.diff,
        fail: Some(s.play.fail),
        speed: Some(s.play.speed),
        loop_playback: Some(s.play.loop_playback),
        autostart: Some(s.program.autostart),
        source: Some(s.places.source),
        lazer_dir: s.places.lazer_dir,
        stable_dir: s.places.stable_dir,
        play_mode: Some(s.play.play_mode),
        collection: s.play.collection,
        volume: Some(s.sound.volume),
        hitsound: Some(s.sound.hitsound),
        beatmap_hitsounds: Some(s.sound.beatmap_hitsounds),
        hits_volume: Some(s.sound.hits_volume),
        master_volume: Some(s.sound.master_volume),
        fade_audio: Some(s.sound.fade_audio),
        audio_offset_ms: Some(s.sound.audio_offset_ms),
        hud: Some(s.shown.hud),
        pp: Some(s.shown.pp),
        reduce_anim: Some(s.shown.reduce_anim),
        break_lighten: Some(s.shown.break_lighten),
        cursor: Some(s.shown.cursor),
        cursor_size: Some(s.shown.cursor_size),
        gameplay_hidden: Some(s.shown.gameplay_hidden),
        render_mode: Some(s.render.render_mode),
        ffmpeg: s.places.ffmpeg,
        ffprobe: s.places.ffprobe,
        pure_audio: Some(s.render.pure_audio),
        auto_pause_render: Some(s.render.auto_pause_render),
        bg_opacity: Some(s.shown.bg_opacity),
        hidden: Some(s.shown.hidden),
        storyboard: Some(s.shown.storyboard),
        skin: s.places.skin,
        force_skin_colours: Some(s.places.force_skin_colours),
        fps: Some(s.shown.fps),
        target_star: s.play.target_star,
        star_min: Some(s.play.star_min),
        lazer_set: s.list.lazer_set,
        lazer_sha2: s.list.lazer_sha2,
        close_action: s.program.close_action,
        log_enabled: Some(s.program.log_enabled),
        dblclick_add: Some(s.program.dblclick_add),
        quick_add: Some(s.program.quick_add),
        quick_mods: Some(s.program.quick_mods),
        playlist: Some(s.list.playlist),
        playlist_pos: Some(s.list.playlist_pos),
    }
}

/// What to store.
pub fn save(s: Settings) -> (st: Stored)
    ensures
        st == stored_of(s),
{
    Stored {
        path: s.manual.path,
        diff: s.manual.diff,
        fail: Some(s.play.fail),
        speed: Some(s.play.speed),
        loop_playback: Some(s.play.loop_playback),
        autostart: Some(s.program.autostart),
        source: Some(s.places.source),
        lazer_dir: s.places.lazer_dir,
        stable_dir: s.places.stable_dir,
        play_mode: Some(s.play.play_mode),
        collection: s.play.collection,
        volume: Some(s.sound.volume),
        hitsound: Some(s.sound.hitsound),
        beatmap_hitsounds: Some(s.sound.beatmap_hitsounds),
        hits_volume: Some(s.sound.hits_volume),
        master_volume: Some(s.sound.master_volume),
        fade_audio: Some(s.sound.fade_audio),
        audio_offset_ms: Some(s.sound.audio_offset_ms),
        hud: Some(s.shown.hud),
        pp: Some(s.shown.pp),
        reduce_anim: Some(s.shown.reduce_anim),
        break_lighten: Some(s.shown.break_lighten),
        cursor: Some(s.shown.cursor),
        cursor_size: Some(s.shown.cursor_size),
        gameplay_hidden: Some(s.shown.gameplay_hidden),
        render_mode: Some(s.render.render_mode),
        ffmpeg: s.places.ffmpeg,
        ffprobe: s.places.ffprobe,
        pure_audio: Some(s.render.pure_audio),
        auto_pause_render: Some(s.render.auto_pause_render),
        bg_opacity: Some(s.shown.bg_opacity),
        hidden: Some(s.shown.hidden),
        storyboard: Some(s.shown.storyboard),
        skin: s.places.skin,
        force_skin_colours: Some(s.places.force_skin_colours),
        fps: Some(s.shown.fps),
        target_star: s.play.target_star,
        star_min: Some(s.play.star_min),
        lazer_set: s.list.lazer_set,
        lazer_sha2: s.list.lazer_sha2,
        close_action: s.program.close_action,
        log_enabled: Some(s.program.log_enabled),
        dblclick_add: Some(s.program.dblclick_add),
        quick_add: Some(s.program.quick_add),
        quick_mods: Some(s.program.quick_mods),
        playlist: Some(s.list.playlist),
        playlist_pos: Some(s.list.playlist_pos),
    }
}

/// The names of the ways to render.
pub open spec fn is_render_mode(m: Seq<char>) -> bool {
    m == "always"@ || m == "autopause"@ || m == "fs_pause"@ || m == "fs_sleep"@ || m == "off"@
}

pub(crate) fn known_mode(m: &str) -> (r: bool)
    ensures
        r == is_render_mode(m@),
{
    text::same(m, "always") || text::same(m, "autopause") || text::same(m, "fs_pause")
        || text::same(m, "fs_sleep") || text::same(m, "off")
}

/// The older switches come before the mode; a mode that is not known is the default.
pub open spec fn mode_of(pure: bool, auto: bool, mode: Seq<char>) -> Seq<char> {
    let m = if pure {
        "off"@
    } else if !auto {
        "always"@
    } else {
        mode
    };
    if is_render_mode(m) {
        m
    } else {
        "autopause"@
    }
}

fn current_mode(pure: bool, auto: bool, mode: String) -> (r: String)
    ensures
        r@ == mode_of(pure, auto, mode@),
{
    let m: String = if pure {
        text::owned("off")
    } else if !auto {
        text::owned("always")
    } else {
        mode
    };
    if known_mode(m.as_str()) {
        m
    } else {
        default_render_mode()
    }
}

/// A directory of unpacked skins is no skin.
pub open spec fn skin_of(skin: Option<String>) -> Option<String> {
    match skin {
        Some(p) => if text::contains(p@, "skin-cache"@) {
            None
        } else {
            skin
        },
        None => None,
    }
}

fn current_skin(skin: Option<String>) -> (r: Option<String>)
    ensures
        r == skin_of(skin),
{
    match skin {
        Some(p) => if text::contains_str(p.as_str(), "skin-cache") {
            None
        } else {
            Some(p)
        },
        None => None,
    }
}

/// What settings of an older version become: the mode takes over what the older switches said, and
/// they say nothing any more.
pub open spec fn is_migrated(s: Settings, t: Settings) -> bool {
    &&& t.render.render_mode@ == mode_of(
        s.render.pure_audio,
        s.render.auto_pause_render,
        s.render.render_mode@,
    )
    &&& t == Settings {
        render: Render {
            render_mode: t.render.render_mode,
            pure_audio: false,
            auto_pause_render: true,
        },
        places: Places { skin: skin_of(s.places.skin), ..s.places },
        ..s
    }
}

impl Settings {
    pub fn migrate(self) -> (t: Settings)
        ensures
            is_migrated(self, t),
    {
        let was: Render = self.render;
        Settings {
            render: Render {
                render_mode: current_mode(was.pure_audio, was.auto_pause_render, was.render_mode),
                pure_audio: false,
                auto_pause_render: true,
            },
            places: Places { skin: current_skin(self.places.skin), ..self.places },
            ..self
        }
    }
}

/// The settings to start with: those that were stored where they can be made out, else the
/// default; brought up to date.
pub fn load(stored: Option<Stored>) -> (s: Settings)
    ensures
        exists|t: Settings|
            #![trigger is_migrated(t, s)]
            is_migrated(t, s) && match stored {
                Some(st) if complete(st) => is_restored(st, t),
                _ => is_default(t),
            },
{
    let t: Settings = match stored {
        Some(st) => match restored(st) {
            Some(s) => s,
            None => Settings::default(),
        },
        None => Settings::default(),
    };
    let s: Settings = t.migrate();
    assert(is_migrated(t, s));
    s
}

/// The command that starts the program with the desktop, without its window.
pub open spec fn autostart_of(exe: Seq<char>) -> Seq<char> {
    seq!['"'] + exe + seq!['"'] + " --hidden"@
}

pub fn autostart_command(exe: &str) -> (r: String)
    ensures
        r@ == autostart_of(exe@),
{
    let mut r: String = text::owned("");
    proof {
        reveal_strlit("");
    }
    r.push('"');
    r.append(exe);
    r.push('"');
    r.append(" --hidden");
    assert(r@ =~= seq!['"'] + exe@ + seq!['"'] + " --hidden"@);
    r
}

/// What was saved is what is restored.
pub proof fn law_saved_is_restored(s: Settings, t: Settings)
    requires
        is_restored(stored_of(s), t),
    ensures
        complete(stored_of(s)),
        t.render.render_mode@ == s.render.render_mode@,
        t.places.source@ == s.places.source@,
        t == (Settings {
            render: Render { render_mode: t.render.render_mode, ..s.render },
            places: Places { source: t.places.source, ..s.places },
            ..s
        }),
{
}

/// Settings that say only what every version stored are otherwise the default.
pub proof fn law_old_settings_get_defaults(st: Stored, s: Settings)
    requires
        is_restored(st, s),
        st.path is None,
        st.diff is None,
        st.loop_playback is None,
        st.source is None,
        st.lazer_dir is None,
        st.stable_dir is None,
        st.play_mode is None,
        st.collection is None,
        st.volume is None,
        st.hitsound is None,
        st.beatmap_hitsounds is None,
        st.hits_volume is None,
        st.master_volume is None,
        st.fade_audio is None,
        st.audio_offset_ms is None,
        st.hud is None,
        st.pp is None,
        st.reduce_anim is None,
        st.break_lighten is None,
        st.cursor is None,
        st.cursor_size is None,
        st.render_mode is None,
        st.ffmpeg is None,
        st.ffprobe is None,
        st.pure_audio is None,
        st.auto_pause_render is None,
        st.bg_opacity is None,
        st.hidden is None,
        st.storyboard is None,
        st.skin is None,
        st.force_skin_colours is None,
        st.fps is None,
        st.target_star is None,
        st.star_min is None,
        st.lazer_set is None,
        st.lazer_sha2 is None,
        st.close_action is None,
        st.log_enabled is None,
        st.dblclick_add is None,
        st.quick_add is None,
        st.quick_mods is None,
        st.playlist is None,
        st.playlist_pos is None,
    ensures
        is_default(
            Settings {
                play: Play { fail: false, speed: Single { bits: ONE }, ..s.play },
                program: Program { autostart: false, ..s.program },
                shown: Shown { gameplay_hidden: false, ..s.shown },
                ..s
            },
        ),
{
}

/// Whatever was stored, the mode that comes out is one that there is.
pub proof fn law_migrated_mode_is_known(s: Settings, t: Settings)
    requires
        is_migrated(s, t),
    ensures
        is_render_mode(t.render.render_mode@),
        !t.render.pure_audio,
{
}

/// Settings that were brought up to date stay as they are.
pub proof fn law_migrated_once(s: Settings, t: Settings, u: Settings)
    requires
        is_migrated(s, t),
        is_migrated(t, u),
    ensures
        u.render.render_mode@ == t.render.render_mode@,
        u == (Settings { render: Render { render_mode: u.render.render_mode, ..t.render }, ..t }),
{
}

/// Each setting is stored under its own name.
pub proof fn law_each_setting_is_stored(s: Settings)
    ensures
        stored_of(s).path == s.manual.path,
        stored_of(s).diff == s.manual.diff,
        stored_of(s).fail == Some(s.play.fail),
        stored_of(s).speed == Some(s.play.speed),
        stored_of(s).loop_playback == Some(s.play.loop_playback),
        stored_of(s).autostart == Some(s.program.autostart),
        stored_of(s).source == Some(s.places.source),
        stored_of(s).lazer_dir == s.places.lazer_dir,
        stored_of(s).stable_dir == s.places.stable_dir,
        stored_of(s).play_mode == Some(s.play.play_mode),
        stored_of(s).collection == s.play.collection,
        stored_of(s).volume == Some(s.sound.volume),
        stored_of(s).hitsound == Some(s.sound.hitsound),
        stored_of(s).beatmap_hitsounds == Some(s.sound.beatmap_hitsounds),
        stored_of(s).hits_volume == Some(s.sound.hits_volume),
        stored_of(s).master_volume == Some(s.sound.master_volume),
        stored_of(s).fade_audio == Some(s.sound.fade_audio),
        stored_of(s).audio_offset_ms == Some(s.sound.audio_offset_ms),
        stored_of(s).hud == Some(s.shown.hud),
        stored_of(s).pp == Some(s.shown.pp),
        stored_of(s).reduce_anim == Some(s.shown.reduce_anim),
        stored_of(s).break_lighten == Some(s.shown.break_lighten),
        stored_of(s).cursor == Some(s.shown.cursor),
        stored_of(s).cursor_size == Some(s.shown.cursor_size),
        stored_of(s).gameplay_hidden == Some(s.shown.gameplay_hidden),
        stored_of(s).render_mode == Some(s.render.render_mode),
        stored_of(s).ffmpeg == s.places.ffmpeg,
        stored_of(s).ffprobe == s.places.ffprobe,
        stored_of(s).pure_audio == Some(s.render.pure_audio),
        stored_of(s).auto_pause_render == Some(s.render.auto_pause_render),
        stored_of(s).bg_opacity == Some(s.shown.bg_opacity),
        stored_of(s).hidden == Some(s.shown.hidden),
        stored_of(s).storyboard == Some(s.shown.storyboard),
        stored_of(s).skin == s.places.skin,
        stored_of(s).force_skin_colours == Some(s.places.force_skin_colours),
        stored_of(s).fps == Some(s.shown.fps),
        stored_of(s).target_star == s.play.target_star,
        stored_of(s).star_min == Some(s.play.star_min),
        stored_of(s).lazer_set == s.list.lazer_set,
        stored_of(s).lazer_sha2 == s.list.lazer_sha2,
        stored_of(s).close_action == s.program.close_action,
        stored_of(s).log_enabled == Some(s.program.log_enabled),
        stored_of(s).dblclick_add == Some(s.program.dblclick_add),
        stored_of(s).quick_add == Some(s.program.quick_add),
        stored_of(s).quick_mods == Some(s.program.quick_mods),
        stored_of(s).playlist == Some(s.list.playlist),
        stored_of(s).playlist_pos == Some(s.list.playlist_pos),
{
}

/// Without stored settings it plays at its own speed and three fifths of the volume, with hit
/// sounds at four fifths, fading, and in the order of the list; it shows the storyboard and the
/// cursor on a background at seven tenths, stops rendering while it is covered, and reads the library
/// of osu!lazer. Everything else is off, empty or zero.
pub proof fn law_defaults(s: Settings)
    requires
        is_default(s),
    ensures
        s.play.speed.bits == 0x3F80_0000,
        s.play.play_mode == PlayMode::ListOrder,
        s.sound.volume.bits == 0x3F19_999A,
        s.sound.hits_volume.bits == 0x3F4C_CCCD,
        s.sound.master_volume.bits == 0x3F80_0000,
        s.sound.audio_offset_ms.bits == 0,
        s.sound.hitsound && s.sound.beatmap_hitsounds && s.sound.fade_audio,
        s.shown.cursor && s.shown.storyboard,
        s.shown.cursor_size.bits == 0x3F80_0000,
        s.shown.bg_opacity.bits == 0x3F33_3333,
        !s.shown.hud && !s.shown.pp && !s.shown.reduce_anim && !s.shown.break_lighten,
        !s.shown.gameplay_hidden && !s.shown.hidden && s.shown.fps == 0,
        s.render.render_mode@ == "autopause"@,
        !s.render.pure_audio && s.render.auto_pause_render,
        s.places.source@ == "lazer"@,
        s.places.lazer_dir is None && s.places.stable_dir is None && s.places.skin is None,
        s.places.ffmpeg is None && s.places.ffprobe is None && !s.places.force_skin_colours,
        s.program.quick_add && s.program.quick_mods == 0 && s.program.close_action is None,
        !s.program.autostart && !s.program.log_enabled && !s.program.dblclick_add,
        !s.play.loop_playback && s.play.target_star is None && s.play.star_min.bits == 0,
        s.play.collection is None && s.manual.path is None && s.manual.diff is None,
        s.list.lazer_set is None && s.list.lazer_sha2 is None,
        s.list.playlist@.len() == 0 && s.list.playlist_pos == 0,
{
}

/// Settings are read from a store that says the four things that every version said, and only from
/// one.
pub proof fn law_every_version_stored_four(st: Stored)
    ensures
        complete(st) <==> st.fail is Some && st.speed is Some && st.autostart is Some
            && st.gameplay_hidden is Some,
{
}

/// A switch of an older version that asked for sound alone is the mode that renders nothing, one
/// that asked not to stop is the mode that always renders, and else the mode counts; one that there
/// is not is the default.
pub proof fn law_older_switches_become_modes(mode: Seq<char>, auto: bool)
    ensures
        mode_of(true, auto, mode) == "off"@,
        mode_of(false, false, mode) == "always"@,
        mode == "always"@ || mode == "autopause"@ || mode == "fs_pause"@ || mode == "fs_sleep"@ || mode
            == "off"@ ==> mode_of(false, true, mode) == mode,
        !(mode == "always"@ || mode == "autopause"@ || mode == "fs_pause"@ || mode == "fs_sleep"@
            || mode == "off"@) ==> mode_of(false, true, mode) == "autopause"@,
{
}

/// A skin that was unpacked for a while is not kept, and any other is.
pub proof fn law_unpacked_skin_is_not_kept(p: String)
    ensures
        text::contains(p@, "skin-cache"@) ==> skin_of(Some(p)) is None,
        !text::contains(p@, "skin-cache"@) ==> skin_of(Some(p)) == Some(p),
        skin_of(None) is None,
{
}

/// Settings that are brought up to date keep everything but the mode and an unpacked skin.
pub proof fn law_migration_keeps_the_rest(s: Settings, t: Settings)
    requires
        is_migrated(s, t),
    ensures
        t.sound == s.sound && t.shown == s.shown && t.play == s.play && t.program == s.program,
        t.list == s.list && t.manual == s.manual,
        t.places == (Places { skin: t.places.skin, ..s.places }),
        !s.render.pure_audio && s.render.auto_pause_render && is_render_mode(s.render.render_mode@)
            ==> t.render.render_mode@ == s.render.render_mode@,
        s.render.pure_audio ==> t.render.render_mode@ == "off"@,
        t.render.auto_pause_render,
{
}

/// The program is started by its path in quotes, and told to stay hidden.
pub proof fn law_autostart_is_hidden(exe: Seq<char>)
    ensures
        autostart_of(exe)[0] == '"',
        autostart_of(exe).subrange(1, 1 + exe.len() as int) == exe,
        autostart_of(exe)[1 + exe.len() as int] == '"',
        text::ends(autostart_of(exe), " --hidden"@),
        autostart_of(exe).len() == exe.len() + 11,
{
    reveal_strlit(" --hidden");
    let s = autostart_of(exe);
    assert(s.subrange(1, 1 + exe.len() as int) =~= exe);
    assert(s.skip(s.len() - " --hidden"@.len()) =~= " --hidden"@);
}

} // verus!
