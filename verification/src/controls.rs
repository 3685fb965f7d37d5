//! The controls of the user interface: what each one changes in the settings, and what it tells
//! the renderer.
use vstd::prelude::*;

use crate::audio;
use crate::ctl;
use crate::ctl::SkinRef;
use crate::ieee::{Double, Single};
use crate::ipc::{Command, Event};
use crate::playlist;
use crate::playlist::{PlayMode, Playlist, Track};
use crate::scene;
use crate::settings;
use crate::settings::{List, Places, Play, Program, Render, Settings, Shown, Sound};
use crate::text;

verus! {

/// Why something that was asked for is not done.
#[derive(Debug)]
pub enum Refusal {
    UnknownSource { source: String },
    NoStable,
    NoSet,
    NoEntry,
    NotReady,
    NothingSet,
    UnknownMode { mode: String },
    UnknownDirKind { kind: String },
    UnknownRenderMode { mode: String },
    UnknownCloseAction { action: String },
    NotWeb { url: String },
    NoProgram { what: String, path: String },
    NoSkinId { id: String },
    NoSkinDir { path: String },
    NoLog,
    EmptyLog,
}

impl Refusal {
    /// What the user is told.
    pub open spec fn says(self) -> Seq<char> {
        match self {
            Refusal::UnknownSource { source } => "未知曲库源："@ + source@,
            Refusal::NoStable => "未找到 osu!stable 安装目录(需要 osu!.db)"@,
            Refusal::NoSet => "谱面集不在曲库中"@,
            Refusal::NoEntry => "条目不存在"@,
            Refusal::NotReady => "曲库未就绪,稍后再试"@,
            Refusal::NothingSet => "没有可设置的条目(曲库中不存在?)"@,
            Refusal::UnknownMode { mode } => "未知播放模式："@ + mode@,
            Refusal::UnknownDirKind { kind } => "未知数据目录类型："@ + kind@,
            Refusal::UnknownRenderMode { mode } => "未知渲染模式："@ + mode@,
            Refusal::UnknownCloseAction { action } => "未知关闭行为："@ + action@,
            Refusal::NotWeb { url } => "仅支持 http(s) 链接:"@ + url@,
            Refusal::NoProgram { what, path } => what@ + ":文件不存在 "@ + path@,
            Refusal::NoSkinId { id } => "皮肤不可用:realm:skin:"@ + id@,
            Refusal::NoSkinDir { path } => "皮肤不存在:"@ + path@,
            Refusal::NoLog => "日志文件尚未生成(先打开日志记录)"@,
            Refusal::EmptyLog => "日志为空"@,
        }
    }

    pub fn message(&self) -> (r: String)
        ensures
            r@ == self.says(),
    {
        match self {
            Refusal::UnknownSource { source } => text::owned("未知曲库源：").concat(
                source.as_str(),
            ),
            Refusal::NoStable => text::owned("未找到 osu!stable 安装目录(需要 osu!.db)"),
            Refusal::NoSet => text::owned("谱面集不在曲库中"),
            Refusal::NoEntry => text::owned("条目不存在"),
            Refusal::NotReady => text::owned("曲库未就绪,稍后再试"),
            Refusal::NothingSet => text::owned("没有可设置的条目(曲库中不存在?)"),
            Refusal::UnknownMode { mode } => text::owned("未知播放模式：").concat(mode.as_str()),
            Refusal::UnknownDirKind { kind } => text::owned("未知数据目录类型：").concat(
                kind.as_str(),
            ),
            Refusal::UnknownRenderMode { mode } => text::owned("未知渲染模式：").concat(
                mode.as_str(),
            ),
            Refusal::UnknownCloseAction { action } => text::owned("未知关闭行为：").concat(
                action.as_str(),
            ),
            Refusal::NotWeb { url } => text::owned("仅支持 http(s) 链接:").concat(url.as_str()),
            Refusal::NoProgram { what, path } => what.clone().concat(":文件不存在 ").concat(
                path.as_str(),
            ),
            Refusal::NoSkinId { id } => text::owned("皮肤不可用:realm:skin:").concat(
                id.as_str(),
            ),
            Refusal::NoSkinDir { path } => text::owned("皮肤不存在:").concat(path.as_str()),
            Refusal::NoLog => text::owned("日志文件尚未生成(先打开日志记录)"),
            Refusal::EmptyLog => text::owned("日志为空"),
        }
    }
}

/// A second, in milliseconds.
pub const SECOND: u32 = 0x447A_0000;

/// A second back.
pub const SECOND_BACK: u32 = 0xC47A_0000;

pub open spec fn offset_within(ms: Single) -> Single {
    ms.clamped(Single { bits: SECOND_BACK }, Single { bits: SECOND })
}

fn clamp_offset(ms: Single) -> (r: Single)
    ensures
        r == offset_within(ms),
{
    ms.clamp(Single { bits: SECOND_BACK }, Single { bits: SECOND })
}

/// The speed is kept within what can be played; the renderer does the same.
pub fn set_speed(s: &mut Settings, x: Single) -> (r: Command)
    ensures
        *final(s) == (Settings { play: Play { speed: audio::rate_within(x), ..old(s).play }, ..*old(s) }),
        r == (Command::SetSpeed { x }),
{
    s.play.speed = audio::clamp_rate(x);
    Command::SetSpeed { x }
}

pub fn set_loop(s: &mut Settings, on: bool) -> (r: Command)
    ensures
        *final(s) == (Settings { play: Play { loop_playback: on, ..old(s).play }, ..*old(s) }),
        r == (Command::SetLoop { on }),
{
    s.play.loop_playback = on;
    Command::SetLoop { on }
}

pub fn set_volume(s: &mut Settings, v: Single) -> (r: Command)
    ensures
        *final(s) == (Settings { sound: Sound { volume: scene::unit(v), ..old(s).sound }, ..*old(s) }),
        r == (Command::SetVolume { v: scene::unit(v) }),
        ctl::greeting(*final(s), None, None).contains(r),
{
    let v: Single = scene::clamp_unit(v);
    s.sound.volume = v;
    proof {
        assert(ctl::greeting(*s, None, None)[0] is SetVolume);
    }
    Command::SetVolume { v }
}

pub fn set_master_volume(s: &mut Settings, v: Single) -> (r: Command)
    ensures
        *final(s) == (Settings { sound: Sound { master_volume: scene::unit(v), ..old(s).sound }, ..*old(s) }),
        r == (Command::SetMaster { v: scene::unit(v) }),
        ctl::greeting(*final(s), None, None).contains(r),
{
    let v: Single = scene::clamp_unit(v);
    s.sound.master_volume = v;
    proof {
        assert(ctl::greeting(*s, None, None)[10] is SetMaster);
    }
    Command::SetMaster { v }
}

pub fn set_fps(s: &mut Settings, fps: u32) -> (r: Command)
    ensures
        *final(s) == (Settings { shown: Shown { fps, ..old(s).shown }, ..*old(s) }),
        r == (Command::SetFps { fps }),
{
    s.shown.fps = fps;
    Command::SetFps { fps }
}

pub fn set_hud(s: &mut Settings, on: bool) -> (r: Command)
    ensures
        *final(s) == (Settings { shown: Shown { hud: on, ..old(s).shown }, ..*old(s) }),
        r == (Command::SetHud { on }),
        ctl::greeting(*final(s), None, None).contains(r),
{
    s.shown.hud = on;
    proof {
        assert(ctl::greeting(*s, None, None)[2] is SetHud);
    }
    Command::SetHud { on }
}

pub fn set_pp(s: &mut Settings, on: bool) -> (r: Command)
    ensures
        *final(s) == (Settings { shown: Shown { pp: on, ..old(s).shown }, ..*old(s) }),
        r == (Command::SetPp { on }),
        ctl::greeting(*final(s), None, None).contains(r),
{
    s.shown.pp = on;
    proof {
        assert(ctl::greeting(*s, None, None)[3] is SetPp);
    }
    Command::SetPp { on }
}

/// Fewer animations are the full ones switched off.
pub fn set_reduce_anim(s: &mut Settings, on: bool) -> (r: Command)
    ensures
        *final(s) == (Settings { shown: Shown { reduce_anim: on, ..old(s).shown }, ..*old(s) }),
        r == (Command::SetHitAnimations { on: !on }),
        ctl::greeting(*final(s), None, None).contains(r),
{
    s.shown.reduce_anim = on;
    proof {
        assert(ctl::greeting(*s, None, None)[4] is SetHitAnimations);
    }
    Command::SetHitAnimations { on: !on }
}

pub fn set_break_lighten(s: &mut Settings, on: bool) -> (r: Command)
    ensures
        *final(s) == (Settings { shown: Shown { break_lighten: on, ..old(s).shown }, ..*old(s) }),
        r == (Command::SetBreakLighten { on }),
        ctl::greeting(*final(s), None, None).contains(r),
{
    s.shown.break_lighten = on;
    proof {
        assert(ctl::greeting(*s, None, None)[5] is SetBreakLighten);
    }
    Command::SetBreakLighten { on }
}

pub fn set_cursor(s: &mut Settings, on: bool) -> (r: Command)
    ensures
        *final(s) == (Settings { shown: Shown { cursor: on, ..old(s).shown }, ..*old(s) }),
        r == (Command::SetCursor { on }),
        ctl::greeting(*final(s), None, None).contains(r),
{
    s.shown.cursor = on;
    proof {
        assert(ctl::greeting(*s, None, None)[6] is SetCursor);
    }
    Command::SetCursor { on }
}

pub fn set_cursor_size(s: &mut Settings, x: Single) -> (r: Command)
    ensures
        *final(s) == (Settings { shown: Shown { cursor_size: scene::cursor_within(x), ..old(s).shown }, ..*old(s) }),
        r == (Command::SetCursorSize { x: scene::cursor_within(x) }),
        ctl::greeting(*final(s), None, None).contains(r),
{
    let x: Single = scene::clamp_cursor(x);
    s.shown.cursor_size = x;
    proof {
        assert(ctl::greeting(*s, None, None)[7] is SetCursorSize);
    }
    Command::SetCursorSize { x }
}

pub fn set_fade_audio(s: &mut Settings, on: bool) -> (r: Command)
    ensures
        *final(s) == (Settings { sound: Sound { fade_audio: on, ..old(s).sound }, ..*old(s) }),
        r == (Command::SetFade { on }),
        ctl::greeting(*final(s), None, None).contains(r),
{
    s.sound.fade_audio = on;
    proof {
        assert(ctl::greeting(*s, None, None)[13] is SetFade);
    }
    Command::SetFade { on }
}

pub fn set_gameplay_hidden(s: &mut Settings, on: bool) -> (r: Command)
    ensures
        *final(s) == (Settings { shown: Shown { gameplay_hidden: on, ..old(s).shown }, ..*old(s) }),
        r == (Command::SetGameplayHidden { on }),
        ctl::greeting(*final(s), None, None).contains(r),
{
    s.shown.gameplay_hidden = on;
    proof {
        assert(ctl::greeting(*s, None, None)[12] is SetGameplayHidden);
    }
    Command::SetGameplayHidden { on }
}

pub fn set_bg_opacity(s: &mut Settings, v: Single) -> (r: Command)
    ensures
        *final(s) == (Settings { shown: Shown { bg_opacity: scene::unit(v), ..old(s).shown }, ..*old(s) }),
        r == (Command::SetBgOpacity { v: scene::unit(v) }),
        ctl::greeting(*final(s), None, None).contains(r),
{
    let v: Single = scene::clamp_unit(v);
    s.shown.bg_opacity = v;
    proof {
        assert(ctl::greeting(*s, None, None)[9] is SetBgOpacity);
    }
    Command::SetBgOpacity { v }
}

pub fn set_hidden(s: &mut Settings, on: bool) -> (r: Command)
    ensures
        *final(s) == (Settings { shown: Shown { hidden: on, ..old(s).shown }, ..*old(s) }),
        r == (Command::SetHidden { on }),
{
    s.shown.hidden = on;
    Command::SetHidden { on }
}

pub fn set_beatmap_hitsounds(s: &mut Settings, on: bool) -> (r: Command)
    ensures
        *final(s) == (Settings { sound: Sound { beatmap_hitsounds: on, ..old(s).sound }, ..*old(s) }),
        r == (Command::SetBeatmapHitsounds { on }),
{
    s.sound.beatmap_hitsounds = on;
    Command::SetBeatmapHitsounds { on }
}

pub fn set_log_enabled(s: &mut Settings, on: bool) -> (r: Command)
    ensures
        *final(s) == (Settings { program: Program { log_enabled: on, ..old(s).program }, ..*old(s) }),
        r == (Command::SetLog { on }),
        ctl::greeting(*final(s), None, None).contains(r),
{
    s.program.log_enabled = on;
    proof {
        assert(ctl::greeting(*s, None, None)[15] is SetLog);
    }
    Command::SetLog { on }
}

/// An offset of more than a second either way is cut off.
pub fn set_audio_offset(s: &mut Settings, ms: Single) -> (r: Command)
    ensures
        *final(s) == (Settings { sound: Sound { audio_offset_ms: offset_within(ms), ..old(s).sound }, ..*old(s) }),
        r == (Command::SetOffset { ms: offset_within(ms) }),
        ctl::greeting(*final(s), None, None).contains(r),
{
    let ms: Single = clamp_offset(ms);
    s.sound.audio_offset_ms = ms;
    proof {
        assert(ctl::greeting(*s, None, None)[11] is SetOffset);
    }
    Command::SetOffset { ms }
}

pub fn set_autostart(s: &mut Settings, on: bool)
    ensures
        *final(s) == (Settings { program: Program { autostart: on, ..old(s).program }, ..*old(s) }),
{
    s.program.autostart = on;
}

pub fn set_target_star(s: &mut Settings, star: Option<Double>)
    ensures
        *final(s) == (Settings { play: Play { target_star: star, ..old(s).play }, ..*old(s) }),
{
    s.play.target_star = star;
}

pub fn set_star_min(s: &mut Settings, min: Double)
    ensures
        *final(s) == (Settings { play: Play { star_min: min, ..old(s).play }, ..*old(s) }),
{
    s.play.star_min = min;
}

pub fn set_quick_add(s: &mut Settings, on: bool)
    ensures
        *final(s) == (Settings { program: Program { quick_add: on, ..old(s).program }, ..*old(s) }),
{
    s.program.quick_add = on;
}

pub fn set_quick_mods(s: &mut Settings, mods: u32)
    ensures
        *final(s) == (Settings { program: Program { quick_mods: mods, ..old(s).program }, ..*old(s) }),
{
    s.program.quick_mods = mods;
}

pub fn set_dblclick_add(s: &mut Settings, on: bool)
    ensures
        *final(s) == (Settings { program: Program { dblclick_add: on, ..old(s).program }, ..*old(s) }),
{
    s.program.dblclick_add = on;
}

/// The storyboard is switched with the next load.
pub fn set_storyboard(s: &mut Settings, on: bool)
    ensures
        *final(s) == (Settings { shown: Shown { storyboard: on, ..old(s).shown }, ..*old(s) }),
{
    s.shown.storyboard = on;
}

/// Hit sounds that are off have no volume.
pub fn set_hitsound(s: &mut Settings, on: bool) -> (r: Command)
    ensures
        *final(s) == (Settings { sound: Sound { hitsound: on, ..old(s).sound }, ..*old(s) }),
        r == (Command::SetHitsVolume {
            v: if on {
                old(s).sound.hits_volume
            } else {
                Single { bits: 0 }
            },
        }),
        ctl::greeting(*final(s), None, None).contains(r),
{
    s.sound.hitsound = on;
    proof {
        assert(ctl::greeting(*s, None, None)[1] is SetHitsVolume);
    }
    Command::SetHitsVolume {
        v: if on {
            s.sound.hits_volume
        } else {
            Single { bits: 0 }
        },
    }
}

/// The renderer is not told while the hit sounds are off.
pub fn set_hits_volume(s: &mut Settings, v: Single) -> (r: Option<Command>)
    ensures
        *final(s) == (Settings { sound: Sound { hits_volume: scene::unit(v), ..old(s).sound }, ..*old(s) }),
        r == (if old(s).sound.hitsound {
            Some(Command::SetHitsVolume { v: scene::unit(v) })
        } else {
            None
        }),
        r is Some ==> ctl::greeting(*final(s), None, None).contains(r->0),
{
    let v: Single = scene::clamp_unit(v);
    s.sound.hits_volume = v;
    proof {
        assert(ctl::greeting(*s, None, None)[1] is SetHitsVolume);
    }
    if s.sound.hitsound {
        Some(Command::SetHitsVolume { v })
    } else {
        None
    }
}

/// The older switches go along, so that they say the same as the mode.
pub open spec fn is_remoded(s: Settings, mode: String, t: Settings) -> bool {
    t == Settings {
        render: Render {
            render_mode: mode,
            pure_audio: mode@ == "off"@,
            auto_pause_render: mode@ != "always"@,
        },
        ..s
    }
}

pub fn set_render_mode(s: &mut Settings, mode: String) -> (r: Result<Command, Refusal>)
    ensures
        if settings::is_render_mode(mode@) {
            &&& is_remoded(*old(s), mode, *final(s))
            &&& r == Ok::<Command, Refusal>(Command::SetRenderMode { mode })
        } else {
            &&& *final(s) == *old(s)
            &&& r is Err
            &&& r->Err_0 == (Refusal::UnknownRenderMode { mode })
        },
        r is Ok ==> ctl::greeting(*final(s), None, None).contains(r->Ok_0),
{
    if !settings::known_mode(mode.as_str()) {
        return Err(Refusal::UnknownRenderMode { mode });
    }
    let off: bool = text::same(mode.as_str(), "off");
    let always: bool = text::same(mode.as_str(), "always");
    s.render = Render {
        render_mode: mode.clone(),
        pure_audio: off,
        auto_pause_render: !always,
    };
    proof {
        assert(ctl::greeting(*s, None, None)[8] is SetRenderMode);
    }
    Ok(Command::SetRenderMode { mode })
}

pub open spec fn is_close_action(a: Seq<char>) -> bool {
    a == "tray"@ || a == "exit"@
}

fn known_action(a: &str) -> (r: bool)
    ensures
        r == is_close_action(a@),
{
    text::same(a, "tray") || text::same(a, "exit")
}

/// What closing the window does from now on; nothing asks each time.
pub fn set_close_action(s: &mut Settings, action: Option<String>) -> (r: Result<(), Refusal>)
    ensures
        match action {
            Some(a) if !is_close_action(a@) => {
                &&& *final(s) == *old(s)
                &&& r == Err::<(), Refusal>(Refusal::UnknownCloseAction { action: a })
            },
            _ => *final(s) == (Settings { program: Program { close_action: action, ..old(s).program }, ..*old(s) }) && r is Ok,
        },
{
    if let Some(a) = &action {
        if !known_action(a.as_str()) {
            return Err(Refusal::UnknownCloseAction { action: a.clone() });
        }
    }
    s.program.close_action = action;
    Ok(())
}

/// What becomes of the window.
#[derive(Debug, Clone, Copy, PartialEq, Eq, Structural)]
pub enum Closing {
    Quit,
    /// Only the tray stays.
    Tray,
    Ask,
}

/// What closing the window does.
pub open spec fn closing_of(action: Option<String>) -> Closing {
    match action {
        Some(a) => if a@ == "exit"@ {
            Closing::Quit
        } else if a@ == "tray"@ {
            Closing::Tray
        } else {
            Closing::Ask
        },
        None => Closing::Ask,
    }
}

pub fn close_requested(s: &Settings) -> (r: Closing)
    ensures
        r == closing_of(s.program.close_action),
{
    match &s.program.close_action {
        Some(a) => if text::same(a.as_str(), "exit") {
            Closing::Quit
        } else if text::same(a.as_str(), "tray") {
            Closing::Tray
        } else {
            Closing::Ask
        },
        None => Closing::Ask,
    }
}

/// What the user answered, and whether that is to be remembered.
pub fn close_window(s: &mut Settings, mode: String, remember: bool) -> (r: Closing)
    ensures
        *final(s) == (if remember && is_close_action(mode@) {
            Settings { program: Program { close_action: Some(mode), ..old(s).program }, ..*old(s) }
        } else {
            *old(s)
        }),
        r == (if mode@ == "exit"@ {
            Closing::Quit
        } else {
            Closing::Tray
        }),
        remember && is_close_action(mode@) ==> r == closing_of(final(s).program.close_action),
{
    let quit: bool = text::same(mode.as_str(), "exit");
    if remember && known_action(mode.as_str()) {
        s.program.close_action = Some(mode);
    }
    if quit {
        Closing::Quit
    } else {
        Closing::Tray
    }
}

/// Only web pages are opened.
pub open spec fn is_web(url: Seq<char>) -> bool {
    text::starts(url, "https://"@) || text::starts(url, "http://"@)
}

pub fn open_url(url: &str) -> (r: Result<(), Refusal>)
    ensures
        if is_web(url@) {
            r is Ok
        } else {
            r is Err && r->Err_0 is NotWeb && r->Err_0->url@ == url@
        },
{
    if text::starts_with(url, "https://") || text::starts_with(url, "http://") {
        Ok(())
    } else {
        Err(Refusal::NotWeb { url: text::owned(url) })
    }
}

/// There is nothing in a log but white space.
pub open spec fn blank(content: Seq<char>) -> bool {
    text::trimmed(content).len() == 0
}

/// A log is worth exporting when there is one with something in it.
pub fn check_log(content: Option<&str>) -> (r: Result<(), Refusal>)
    ensures
        match content {
            None => r is Err && r->Err_0 is NoLog,
            Some(c) => if blank(c@) {
                r is Err && r->Err_0 is EmptyLog
            } else {
                r is Ok
            },
        },
{
    match content {
        None => Err(Refusal::NoLog),
        Some(c) => {
            let left: String = text::trim(c);
            if text::chars_of(left.as_str()).len() == 0 {
                Err(Refusal::EmptyLog)
            } else {
                Ok(())
            }
        },
    }
}

/// The program that the user chose and that is not there, by its name, the first of the two.
pub open spec fn lacking(
    ffmpeg: Option<String>,
    ffprobe: Option<String>,
    ffmpeg_there: bool,
    ffprobe_there: bool,
) -> Option<(Seq<char>, String)> {
    if ffmpeg is Some && !ffmpeg_there {
        Some(("ffmpeg"@, ffmpeg->0))
    } else if ffprobe is Some && !ffprobe_there {
        Some(("ffprobe"@, ffprobe->0))
    } else {
        None
    }
}

pub open spec fn with_bins(s: Settings, ffmpeg: Option<String>, ffprobe: Option<String>) -> Settings {
    Settings { places: Places { ffmpeg, ffprobe, ..s.places }, ..s }
}

/// The programs that the user chose, where they are there; nothing goes back to looking for them.
pub fn set_ffmpeg_bins(
    s: &mut Settings,
    ffmpeg: Option<String>,
    ffprobe: Option<String>,
    ffmpeg_there: bool,
    ffprobe_there: bool,
) -> (r: Result<Command, Refusal>)
    ensures
        match lacking(ffmpeg, ffprobe, ffmpeg_there, ffprobe_there) {
            Some((what, path)) => {
                &&& *final(s) == *old(s)
                &&& r is Err
                &&& r->Err_0 is NoProgram
                &&& r->Err_0->what@ == what
                &&& r->Err_0->NoProgram_path == path
            },
            None => {
                &&& *final(s) == with_bins(*old(s), ffmpeg, ffprobe)
                &&& r == Ok::<Command, Refusal>(Command::SetFfmpegBins { ffmpeg, ffprobe })
            },
        },
{
    if let Some(p) = &ffmpeg {
        if !ffmpeg_there {
            return Err(Refusal::NoProgram { what: text::owned("ffmpeg"), path: p.clone() });
        }
    }
    if let Some(p) = &ffprobe {
        if !ffprobe_there {
            return Err(Refusal::NoProgram { what: text::owned("ffprobe"), path: p.clone() });
        }
    }
    s.places.ffmpeg = playlist::clone_opt(&ffmpeg);
    s.places.ffprobe = playlist::clone_opt(&ffprobe);
    Ok(Command::SetFfmpegBins { ffmpeg, ffprobe })
}

/// Where a program comes from.
#[derive(Debug, Clone, Copy, PartialEq, Eq, Structural)]
pub enum BinSource {
    Manual,
    Bundled,
    OnPath,
    Nowhere,
}

impl BinSource {
    pub open spec fn spelled(self) -> Seq<char> {
        match self {
            BinSource::Manual => "manual"@,
            BinSource::Bundled => "bundled"@,
            BinSource::OnPath => "path"@,
            BinSource::Nowhere => "none"@,
        }
    }

    pub fn name(&self) -> (r: &'static str)
        ensures
            r@ == self.spelled(),
    {
        match self {
            BinSource::Manual => "manual",
            BinSource::Bundled => "bundled",
            BinSource::OnPath => "path",
            BinSource::Nowhere => "none",
        }
    }
}

/// Which program is used: the one chosen by hand, else the one that comes with this one, else the
/// one that the system finds.
pub open spec fn bin_used(
    manual: Option<String>,
    bundled: Option<String>,
    on_path: Option<String>,
) -> (Option<String>, BinSource) {
    if manual is Some {
        (manual, BinSource::Manual)
    } else if bundled is Some {
        (bundled, BinSource::Bundled)
    } else if on_path is Some {
        (on_path, BinSource::OnPath)
    } else {
        (None, BinSource::Nowhere)
    }
}

pub fn bin_status(
    manual: Option<String>,
    bundled: Option<String>,
    on_path: Option<String>,
) -> (r: (Option<String>, BinSource))
    ensures
        r == bin_used(manual, bundled, on_path),
{
    if manual.is_some() {
        (manual, BinSource::Manual)
    } else if bundled.is_some() {
        (bundled, BinSource::Bundled)
    } else if on_path.is_some() {
        (on_path, BinSource::OnPath)
    } else {
        (None, BinSource::Nowhere)
    }
}

/// The play mode; the tracks stay, and the collection is only remembered.
pub fn playlist_set(s: &mut Settings, list: &mut Playlist, mode: &str, collection: Option<String>) -> (r:
    Result<(), Refusal>)
    requires
        old(list)@.wf(),
    ensures
        final(list)@.wf(),
        match r {
            Ok(_) => exists|m: PlayMode|
                mode@ == #[trigger] m.name() && final(list)@ == old(list)@.with_mode(m) && *final(s)
                    == (Settings { play: Play { play_mode: m, collection, ..old(s).play }, ..*old(s) }),
            Err(e) => {
                &&& forall|m: PlayMode| mode@ != #[trigger] m.name()
                &&& final(list)@ == old(list)@
                &&& *final(s) == *old(s)
                &&& e is UnknownMode
                &&& e->UnknownMode_mode@ == mode@
            },
        },
{
    match PlayMode::parse(mode) {
        Some(m) => {
            list.set_mode(m);
            s.play.play_mode = m;
            s.play.collection = collection;
            assert(mode@ == m.name());
            Ok(())
        },
        None => Err(Refusal::UnknownMode { mode: text::owned(mode) }),
    }
}

/// Switches the source of the library. The last track is of the other one and is forgotten.
pub open spec fn with_source(s: Settings, source: String) -> Settings {
    Settings {
        places: Places { source, ..s.places },
        list: List { lazer_set: None, lazer_sha2: None, ..s.list },
        ..s
    }
}

pub fn source_set(s: &mut Settings, source: String, stable_there: bool) -> (r: Result<(), Refusal>)
    ensures
        if source@ != "lazer"@ && source@ != "stable"@ {
            *final(s) == *old(s) && r == Err::<(), Refusal>(Refusal::UnknownSource { source })
        } else if source@ == "stable"@ && !stable_there {
            *final(s) == *old(s) && r is Err && r->Err_0 is NoStable
        } else {
            *final(s) == with_source(*old(s), source) && r is Ok
        },
{
    let stable: bool = text::same(source.as_str(), "stable");
    if !stable && !text::same(source.as_str(), "lazer") {
        return Err(Refusal::UnknownSource { source });
    }
    if stable && !stable_there {
        return Err(Refusal::NoStable);
    }
    s.places.source = source;
    s.list.lazer_set = None;
    s.list.lazer_sha2 = None;
    Ok(())
}

/// Which directory is meant.
#[derive(Debug, Clone, Copy, PartialEq, Eq, Structural)]
pub enum DirKind {
    Lazer,
    Stable,
}

pub open spec fn kind_named(kind: Seq<char>) -> Option<DirKind> {
    if kind == "lazer"@ {
        Some(DirKind::Lazer)
    } else if kind == "stable"@ {
        Some(DirKind::Stable)
    } else {
        None
    }
}

pub fn dir_kind(kind: &str) -> (r: Result<DirKind, Refusal>)
    ensures
        match kind_named(kind@) {
            Some(k) => r == Ok::<DirKind, Refusal>(k),
            None => r is Err && r->Err_0 is UnknownDirKind && r->Err_0->kind@ == kind@,
        },
{
    proof {
        reveal_strlit("lazer");
        reveal_strlit("stable");
        assert("lazer"@.len() == 5 && "stable"@.len() == 6);
    }
    if text::same(kind, "lazer") {
        Ok(DirKind::Lazer)
    } else if text::same(kind, "stable") {
        Ok(DirKind::Stable)
    } else {
        Err(Refusal::UnknownDirKind { kind: text::owned(kind) })
    }
}

/// Remembers a directory that was found good; nothing goes back to looking for it.
pub open spec fn with_dir(s: Settings, kind: DirKind, path: Option<String>) -> Settings {
    match kind {
        DirKind::Lazer => Settings { places: Places { lazer_dir: path, ..s.places }, ..s },
        DirKind::Stable => Settings { places: Places { stable_dir: path, ..s.places }, ..s },
    }
}

pub fn set_data_dir(s: &mut Settings, kind: DirKind, path: Option<String>)
    ensures
        *final(s) == with_dir(*old(s), kind, path),
{
    match kind {
        DirKind::Lazer => {
            s.places.lazer_dir = path;
        },
        DirKind::Stable => {
            s.places.stable_dir = path;
        },
    }
}

/// The directories that were chosen by hand, and those that are used.
#[derive(Debug)]
pub struct DirStatus {
    pub lazer_manual: Option<String>,
    pub lazer_effective: Option<String>,
    pub stable_manual: Option<String>,
    pub stable_effective: Option<String>,
}

/// A skin may be chosen when it is there: one of osu!lazer by its id, any other as a directory.
pub fn set_skin(path: Option<String>, there: bool) -> (r: Result<Option<String>, Refusal>)
    ensures
        match path {
            None => r == Ok::<Option<String>, Refusal>(None),
            Some(p) => if there {
                r == Ok::<Option<String>, Refusal>(Some(p))
            } else if text::starts(p@, ctl::realm_skin()) {
                &&& r is Err
                &&& r->Err_0 is NoSkinId
                &&& r->Err_0->id@ == p@.skip(ctl::realm_skin().len() as int)
            } else {
                r is Err && r->Err_0 is NoSkinDir && r->Err_0->NoSkinDir_path@ == p@
            },
        },
{
    if there || path.is_none() {
        return Ok(path);
    }
    match ctl::skin_ref(&path) {
        SkinRef::Realm { id } => Err(Refusal::NoSkinId { id }),
        SkinRef::Dir { path } => Err(Refusal::NoSkinDir { path }),
        SkinRef::Builtin => Ok(None),
    }
}

/// Remembers a skin and has the renderer take it from where it lies.
pub fn apply_skin(s: &mut Settings, stored: Option<String>, dir: Option<String>) -> (r: Command)
    ensures
        *final(s) == (Settings { places: Places { skin: stored, ..old(s).places }, ..*old(s) }),
        r == (Command::SetSkin { skin: dir, force_colours: old(s).places.force_skin_colours }),
{
    s.places.skin = stored;
    Command::SetSkin { skin: dir, force_colours: s.places.force_skin_colours }
}

/// The colours of the skin come before those of the beatmap, or not.
pub fn set_force_skin_colours(s: &mut Settings, on: bool, dir: Option<String>) -> (r: Command)
    ensures
        *final(s) == (Settings { places: Places { force_skin_colours: on, ..old(s).places }, ..*old(s) }),
        r == (Command::SetSkin { skin: dir, force_colours: on }),
{
    s.places.force_skin_colours = on;
    Command::SetSkin { skin: dir, force_colours: on }
}

/// Pauses what plays and resumes what does not.
pub fn toggle_play(last: Option<&Event>) -> (r: Command)
    ensures
        r == (if ctl::plays(last) {
            Command::Pause
        } else {
            Command::Resume
        }),
{
    if ctl::is_playing(last) {
        Command::Pause
    } else {
        Command::Resume
    }
}

/// What an entry of the tray's menu does.
#[derive(Debug, Clone, Copy, PartialEq, Eq, Structural)]
pub enum TrayAction {
    Open,
    Previous,
    Toggle,
    Next,
    Restart,
    Quit,
    Nothing,
}

pub open spec fn tray_action_of(id: Seq<char>) -> TrayAction {
    if id == "open"@ {
        TrayAction::Open
    } else if id == "prev"@ {
        TrayAction::Previous
    } else if id == "toggle"@ {
        TrayAction::Toggle
    } else if id == "next"@ {
        TrayAction::Next
    } else if id == "restart"@ {
        TrayAction::Restart
    } else if id == "quit"@ {
        TrayAction::Quit
    } else {
        TrayAction::Nothing
    }
}

pub fn tray_action(id: &str) -> (r: TrayAction)
    ensures
        r == tray_action_of(id@),
{
    if text::same(id, "open") {
        TrayAction::Open
    } else if text::same(id, "prev") {
        TrayAction::Previous
    } else if text::same(id, "toggle") {
        TrayAction::Toggle
    } else if text::same(id, "next") {
        TrayAction::Next
    } else if text::same(id, "restart") {
        TrayAction::Restart
    } else if text::same(id, "quit") {
        TrayAction::Quit
    } else {
        TrayAction::Nothing
    }
}

/// Where playback is, going by the last event that was kept.
pub open spec fn place_of(last: Option<&Event>) -> Single {
    match last {
        Some(Event::Status { t_ms, .. }) => *t_ms,
        _ => Single { bits: 0 },
    }
}

pub fn current_place(last: Option<&Event>) -> (r: Single)
    ensures
        r == place_of(last),
{
    match last {
        Some(Event::Status { t_ms, .. }) => *t_ms,
        _ => Single { bits: 0 },
    }
}

/// What is loaded again, and where it goes on, after something changed that only a load can show:
/// the last set of the library, if that is what plays.
pub fn reload_current_track(s: &Settings, from_library: bool, last: Option<&Event>) -> (r: Option<
    (Track, Single),
>)
    ensures
        match r {
            Some((t, start)) => {
                &&& from_library
                &&& s.list.lazer_set is Some
                &&& ctl::is_bare(t, s.list.lazer_set->0@, None, 0)
                &&& start == place_of(last).larger(Single { bits: 0 })
            },
            None => !from_library || s.list.lazer_set is None,
        },
{
    if !from_library {
        return None;
    }
    match &s.list.lazer_set {
        Some(id) => {
            let start: Single = current_place(last).max(Single { bits: 0 });
            Some((ctl::bare_track(id.clone(), None, 0), start))
        },
        None => None,
    }
}

/// What plays of the library.
pub fn playing_track(s: &Settings) -> (r: Option<Track>)
    ensures
        match s.list.lazer_set {
            Some(id) => r is Some && ctl::is_bare(r->0, id@, s.list.lazer_sha2, 0),
            None => r is None,
        },
{
    match &s.list.lazer_set {
        Some(id) => Some(ctl::bare_track(id.clone(), playlist::clone_opt(&s.list.lazer_sha2), 0)),
        None => None,
    }
}

/// The mode that the user chose is the one that comes back after a restart.
pub proof fn law_chosen_mode_comes_back(s: Settings, mode: String, t: Settings, u: Settings)
    requires
        settings::is_render_mode(mode@),
        is_remoded(s, mode, t),
        settings::is_migrated(t, u),
    ensures
        u.render.render_mode@ == mode@,
{
}

/// What is refused is told with what was asked for.
pub proof fn law_refusals_are_told(x: String, y: String)
    ensures
        (Refusal::UnknownSource { source: x }).says() == "未知曲库源："@ + x@,
        Refusal::NoStable.says() == "未找到 osu!stable 安装目录(需要 osu!.db)"@,
        Refusal::NoSet.says() == "谱面集不在曲库中"@,
        Refusal::NoEntry.says() == "条目不存在"@,
        Refusal::NotReady.says() == "曲库未就绪,稍后再试"@,
        Refusal::NothingSet.says() == "没有可设置的条目(曲库中不存在?)"@,
        (Refusal::UnknownMode { mode: x }).says() == "未知播放模式："@ + x@,
        (Refusal::UnknownDirKind { kind: x }).says() == "未知数据目录类型："@ + x@,
        (Refusal::UnknownRenderMode { mode: x }).says() == "未知渲染模式："@ + x@,
        (Refusal::UnknownCloseAction { action: x }).says() == "未知关闭行为："@ + x@,
        (Refusal::NotWeb { url: x }).says() == "仅支持 http(s) 链接:"@ + x@,
        (Refusal::NoProgram { what: x, path: y }).says() == x@ + ":文件不存在 "@ + y@,
        (Refusal::NoSkinId { id: x }).says() == "皮肤不可用:realm:skin:"@ + x@,
        (Refusal::NoSkinDir { path: x }).says() == "皮肤不存在:"@ + x@,
        Refusal::NoLog.says() == "日志文件尚未生成(先打开日志记录)"@,
        Refusal::EmptyLog.says() == "日志为空"@,
{
}

/// An offset of up to a second either way is taken as it is, and one that is farther off is a
/// second.
pub proof fn law_offset_is_within_a_second(ms: Single)
    ensures
        ms.bits <= 0x447A_0000 ==> offset_within(ms) == ms,
        0x8000_0000 <= ms.bits <= 0xC47A_0000 ==> offset_within(ms) == ms,
        0x447A_0000 < ms.bits <= 0x7F80_0000 ==> offset_within(ms).bits == 0x447A_0000,
        0xC47A_0000 < ms.bits <= 0xFF80_0000 ==> offset_within(ms).bits == 0xC47A_0000,
{
}

/// The older switches say the same as the mode, and no other setting changes.
pub proof fn law_older_switches_follow_the_mode(s: Settings, mode: String, t: Settings)
    requires
        is_remoded(s, mode, t),
    ensures
        t.render.render_mode == mode,
        t.render.pure_audio <==> mode@ == "off"@,
        t.render.auto_pause_render <==> mode@ != "always"@,
        t == (Settings { render: t.render, ..s }),
{
}

/// Closing asks until an answer is remembered, and then does what was answered; only the two
/// answers can be.
pub proof fn law_closing_does_what_was_answered(a: String)
    ensures
        closing_of(None) == Closing::Ask,
        a@ == "exit"@ ==> closing_of(Some(a)) == Closing::Quit,
        a@ == "tray"@ ==> closing_of(Some(a)) == Closing::Tray,
        is_close_action(a@) <==> closing_of(Some(a)) != Closing::Ask,
{
    reveal_strlit("exit");
    reveal_strlit("tray");
    assert("exit"@[0] != "tray"@[0]);
}

/// The program that was chosen by hand is used, then the one that comes along, then the one that the
/// system finds, and its source is told.
pub proof fn law_program_is_looked_for_in_order(
    a: String,
    bundled: Option<String>,
    on_path: Option<String>,
)
    ensures
        bin_used(Some(a), bundled, on_path) == (Some(a), BinSource::Manual),
        bin_used(None, Some(a), on_path) == (Some(a), BinSource::Bundled),
        bin_used(None, None, Some(a)) == (Some(a), BinSource::OnPath),
        bin_used(None, None, None) == (None::<String>, BinSource::Nowhere),
        bin_used(Some(a), bundled, on_path).0 == ctl::bin_of(Some(a), bundled),
        BinSource::Manual.spelled() == "manual"@,
        BinSource::Bundled.spelled() == "bundled"@,
        BinSource::OnPath.spelled() == "path"@,
        BinSource::Nowhere.spelled() == "none"@,
{
}

/// Each entry of the tray's menu does what its name says.
pub proof fn law_tray_entries(id: Seq<char>)
    ensures
        tray_action_of(id) == TrayAction::Open <==> id == "open"@,
        tray_action_of(id) == TrayAction::Previous <==> id == "prev"@,
        tray_action_of(id) == TrayAction::Toggle <==> id == "toggle"@,
        tray_action_of(id) == TrayAction::Next <==> id == "next"@,
        tray_action_of(id) == TrayAction::Restart <==> id == "restart"@,
        tray_action_of(id) == TrayAction::Quit <==> id == "quit"@,
{
    reveal_strlit("open");
    reveal_strlit("prev");
    reveal_strlit("toggle");
    reveal_strlit("next");
    reveal_strlit("restart");
    reveal_strlit("quit");
    assert("open"@[0] == 'o' && "prev"@[0] == 'p' && "toggle"@[0] == 't' && "next"@[0] == 'n'
        && "restart"@[0] == 'r' && "quit"@[0] == 'q');
}

/// Playback is where the last status says, and at the beginning where none was told.
pub proof fn law_place_is_the_last_told(ev: Event)
    ensures
        ev matches Event::Status { t_ms, .. } ==> place_of(Some(&ev)) == t_ms,
        !(ev is Status) ==> place_of(Some(&ev)).bits == 0,
        place_of(None).bits == 0,
{
}

/// Directories are of the two games, and each is remembered for its own.
pub proof fn law_directories_of_the_games(s: Settings, path: Option<String>, kind: Seq<char>)
    ensures
        kind_named(kind) == Some(DirKind::Lazer) <==> kind == "lazer"@,
        kind_named(kind) == Some(DirKind::Stable) <==> kind == "stable"@,
        with_dir(s, DirKind::Lazer, path).places.lazer_dir == path,
        with_dir(s, DirKind::Lazer, path).places.stable_dir == s.places.stable_dir,
        with_dir(s, DirKind::Stable, path).places.stable_dir == path,
        with_dir(s, DirKind::Stable, path).places.lazer_dir == s.places.lazer_dir,
        with_dir(s, DirKind::Stable, path).places.source == s.places.source,
        with_dir(s, DirKind::Lazer, path).list == s.list,
{
    reveal_strlit("lazer");
    reveal_strlit("stable");
    assert("lazer"@.len() == 5 && "stable"@.len() == 6);
}

/// Another source has no last track, and the play list stays.
pub proof fn law_another_source_has_no_last_track(s: Settings, source: String)
    ensures
        with_source(s, source).places.source == source,
        with_source(s, source).list.lazer_set is None,
        with_source(s, source).list.lazer_sha2 is None,
        with_source(s, source).list.playlist == s.list.playlist,
        with_source(s, source).list.playlist_pos == s.list.playlist_pos,
        with_source(s, source).places == (Places { source, ..s.places }),
        with_source(s, source).sound == s.sound && with_source(s, source).shown == s.shown,
{
}

/// A web page begins with one of the two schemes, and nothing else is one.
pub proof fn law_web_pages(rest: Seq<char>, url: Seq<char>)
    ensures
        is_web("https://"@ + rest),
        is_web("http://"@ + rest),
        is_web(url) ==> url == "https://"@ + url.skip(8) || url == "http://"@ + url.skip(7),
{
    reveal_strlit("https://");
    reveal_strlit("http://");
    text::law_parts_of_a_text("https://"@, rest, seq![]);
    text::law_parts_of_a_text("http://"@, rest, seq![]);
    text::law_parts_of_a_text(url, "https://"@, seq![]);
    text::law_parts_of_a_text(url, "http://"@, seq![]);
}

/// A log is blank if it is empty or holds white space only, and is not if it has anything else.
pub proof fn law_blank_logs(s: Seq<char>, c: char, i: int)
    ensures
        blank(Seq::empty()),
        text::white(c) ==> (blank(s.push(c)) <==> blank(s)),
        0 <= i < s.len() && !text::white(s[i]) ==> !blank(s),
    decreases s.len(),
{
    text::law_trimming_drops_white_space(s, c);
    if 0 <= i < s.len() && !text::white(s[i]) {
        if text::white(s[0]) {
            let rest = s.skip(1);
            assert(seq![s[0]] + rest =~= s);
            text::law_trimming_drops_white_space(rest, s[0]);
            law_blank_logs(rest, c, i - 1);
        } else if text::white(s.last()) {
            let rest = s.drop_last();
            assert(rest.push(s.last()) =~= s);
            text::law_trimming_drops_white_space(rest, s.last());
            law_blank_logs(rest, c, i);
        }
    }
}

/// A program that was chosen and is not there is told by its name and its path, and then none is
/// taken; where both are there they are.
pub proof fn law_chosen_programs_must_be_there(s: Settings, a: String, b: Option<String>, there: bool)
    ensures
        lacking(Some(a), b, false, there) == Some(("ffmpeg"@, a)),
        lacking(None, Some(a), there, false) == Some(("ffprobe"@, a)),
        lacking(Some(a), Some(a), true, false) == Some(("ffprobe"@, a)),
        lacking(Some(a), b, true, true) is None,
        lacking(None, None, there, there) is None,
        with_bins(s, Some(a), b).places.ffmpeg == Some(a),
        with_bins(s, Some(a), b).places.ffprobe == b,
        with_bins(s, Some(a), b).places.skin == s.places.skin,
        with_bins(s, Some(a), b).places.source == s.places.source,
{
}

} // verus!
