//! Loading a track and putting its picture up: what is taken over from what was asked for, and
//! what goes on when.
use vstd::prelude::*;

use crate::audio;
use crate::clock::Clock;
use crate::ieee::{Double, Single};
use crate::ipc;
use crate::ipc::Event;
use crate::scene;
use crate::scene::{Found, Look};
use crate::text;
use crate::wall;
use crate::wall::{Action, Asked, Frames, Hold, LoadParams, Music, Stage, Tools, Wall};
use crate::win;
use crate::win::Bounds;

verus! {

/// Why something could not be loaded or shown.
#[derive(Debug)]
pub enum Failure {
    /// The beatmap could not be read.
    ReadMap { path: String, reason: String },
    /// The map library refused it.
    Library { reason: String },
    /// Loading ended in a panic.
    Internal,
    ParseMap { reason: String },
    Skin { reason: String },
    Window { reason: String },
    Renderer { reason: String },
    NoDesktop,
    /// The background could not be decoded again for another skin.
    Background,
}

impl Failure {
    /// What the user is told.
    pub open spec fn says(self) -> Seq<char> {
        match self {
            Failure::ReadMap { path, reason } => "读取谱面失败 "@ + path@ + ": "@ + reason@,
            Failure::Library { reason } => reason@,
            Failure::Internal => "加载谱面时发生内部错误"@,
            Failure::ParseMap { reason } => "解析谱面失败: "@ + reason@,
            Failure::Skin { reason } => "加载皮肤失败: "@ + reason@,
            Failure::Window { reason } => "创建壁纸窗口失败: "@ + reason@,
            Failure::Renderer { reason } => "初始化渲染失败: "@ + reason@,
            Failure::NoDesktop => "桌面壁纸层不可用"@,
            Failure::Background => "皮肤热切换中止:背景图重新解码失败"@,
        }
    }

    pub fn message(&self) -> (r: String)
        ensures
            r@ == self.says(),
    {
        match self {
            Failure::ReadMap { path, reason } => text::owned("读取谱面失败 ").concat(
                path.as_str(),
            ).concat(": ").concat(reason.as_str()),
            Failure::Library { reason } => reason.clone(),
            Failure::Internal => text::owned("加载谱面时发生内部错误"),
            Failure::ParseMap { reason } => text::owned("解析谱面失败: ").concat(reason.as_str()),
            Failure::Skin { reason } => text::owned("加载皮肤失败: ").concat(reason.as_str()),
            Failure::Window { reason } => text::owned("创建壁纸窗口失败: ").concat(
                reason.as_str(),
            ),
            Failure::Renderer { reason } => text::owned("初始化渲染失败: ").concat(
                reason.as_str(),
            ),
            Failure::NoDesktop => text::owned("桌面壁纸层不可用"),
            Failure::Background => text::owned("皮肤热切换中止:背景图重新解码失败"),
        }
    }

    /// The event that reports it.
    pub fn event(&self) -> (r: Event)
        ensures
            r is Error,
            r->message@ == self.says(),
    {
        Event::Error { message: self.message() }
    }
}

/// A length of music in milliseconds, and as near to it as a single comes.
#[derive(Debug, Clone, Copy, PartialEq, Eq, Structural)]
pub struct Length {
    pub exact: Double,
    pub rounded: Single,
}

/// How the music of a track begins.
#[derive(Debug, Clone, Copy, PartialEq, Eq, Structural)]
pub enum Begin {
    /// It is stretched first.
    Stretching,
    Playing,
    /// There is none, or nothing to play it on.
    Silent,
}

/// What is to be done about rendering.
#[derive(Debug, Clone, Copy, PartialEq, Eq, Structural)]
pub enum RenderStep {
    Nothing,
    Build,
    Drop,
}

/// What the renderer waits for.
#[derive(Debug, Clone, Copy, PartialEq, Eq, Structural)]
pub enum Wait {
    /// Nothing is rendered: playback goes on by itself, a little later.
    Playback,
    /// There is nothing to do.
    Idle,
    /// The next frame is drawn now.
    Redraw,
    /// The next frame is due in so many nanoseconds.
    Sleep { ns: u64 },
}

/// The duration of a track: that of its music where it is longer than the track and not absurd,
/// else that of the track.
pub open spec fn duration_of(length: Option<Length>, limit: Single, limit_exact: Double) -> Single {
    match length {
        Some(l) => if limit_exact.below(l.exact) && l.exact.below(Double { bits: wall::LONGEST }) {
            l.rounded
        } else {
            limit
        },
        None => limit,
    }
}

fn pick_duration(length: Option<Length>, limit: Single, limit_exact: Double) -> (r: Single)
    ensures
        r == duration_of(length, limit, limit_exact),
{
    match length {
        Some(l) => {
            if limit_exact.lt(&l.exact) && l.exact.lt(&Double { bits: wall::LONGEST }) {
                l.rounded
            } else {
                limit
            }
        },
        None => limit,
    }
}

impl Wall {
    /// What is being loaded.
    pub open spec fn asked_of(self) -> Option<LoadParams> {
        match self.asked {
            Some(Asked::New(p)) => Some(p),
            Some(Asked::Again) => self.last_load,
            None => None,
        }
    }

    pub fn asked_load(&self) -> (r: Option<&LoadParams>)
        ensures
            match r {
                Some(p) => self.asked_of() == Some(*p),
                None => self.asked_of() is None,
            },
    {
        match &self.asked {
            Some(Asked::New(p)) => Some(p),
            Some(Asked::Again) => self.last_load.as_ref(),
            None => None,
        }
    }

    /// A load begins. Nothing else changes before it is taken over.
    pub open spec fn begun(self, asked: Asked) -> Wall {
        Wall { asked: Some(asked), asked_music: None, ..self }
    }

    pub fn begin_load(&mut self, p: LoadParams) -> (r: Vec<Action>)
        ensures
            *final(self) == old(self).begun(Asked::New(p)),
            r@ == seq![Action::Load],
    {
        self.asked = Some(Asked::New(p));
        self.asked_music = None;
        vec![Action::Load]
    }

    /// The last load begins again, if there was one.
    pub fn reload(&mut self) -> (r: Vec<Action>)
        ensures
            if old(self).last_load is Some {
                *final(self) == old(self).begun(Asked::Again) && r@ == seq![Action::Load]
            } else {
                *final(self) == *old(self) && r@.len() == 0
            },
    {
        if self.last_load.is_none() {
            return Vec::new();
        }
        self.asked = Some(Asked::Again);
        self.asked_music = None;
        vec![Action::Load]
    }

    /// The load has failed: nothing is being loaded any more.
    pub open spec fn given_up(self) -> Wall {
        Wall { asked: None, asked_music: None, ..self }
    }

    pub fn give_up(&mut self)
        ensures
            *final(self) == old(self).given_up(),
    {
        self.asked = None;
        self.asked_music = None;
    }

    /// Whether the points are computed while loading: only where they are shown.
    pub fn with_pp(&self) -> (r: bool)
        ensures
            r == self.look.hud_visible,
    {
        self.look.hud_visible
    }

    /// Where the music of what is being loaded lies.
    pub fn audio_found(&mut self, path: Option<String>)
        ensures
            *final(self) == (Wall { asked_music: path, ..*old(self) }),
    {
        self.asked_music = path;
    }

    /// What was being loaded is what is remembered, with a start that is not before the beginning,
    /// and what the user wants to hear.
    pub open spec fn remembered(self) -> Wall {
        let p = self.asked_of()->0;
        Wall {
            asked: None,
            asked_music: None,
            last_load: Some(LoadParams { start: p.start.larger(Single { bits: 0 }), ..p }),
            load_seq: vstd::wrapping::u64_specs::wrapping_add(self.load_seq, 1),
            hold: Hold { user_paused: false, ..self.hold },
            music: Music { path: self.asked_music, ..self.music },
            ..self
        }
    }

    fn remember(&mut self)
        requires
            old(self).asked_of() is Some,
        ensures
            *final(self) == old(self).remembered(),
    {
        if let Some(Asked::New(p)) = self.asked.take() {
            self.last_load = Some(p);
        }
        if let Some(p) = self.last_load.take() {
            let mut p = p;
            p.start = p.start.max(Single { bits: 0 });
            self.last_load = Some(p);
        }
        self.load_seq = self.load_seq.wrapping_add(1);
        self.hold.user_paused = false;
        self.music.path = self.asked_music.take();
    }

    /// The track is taken over: what was rendered is gone, and what the load says of it holds.
    pub open spec fn adopted(self, limit: Single) -> Wall {
        let w = self.remembered();
        let p = w.last_load->0;
        let track_hd = p.mods & wall::MOD_HD != 0;
        Wall {
            stage: Stage { surface: false, storyboard: false, scene: false, ..w.stage },
            track: true,
            limit,
            beatmap_hitsounds: p.beatmap_hitsounds,
            tools: Tools { upscale: p.upscale, quality: p.upscale_quality, ..w.tools },
            look: Look {
                sb_enabled: p.storyboard,
                video_enabled: p.video,
                track_hd,
                hd_on: p.hidden || track_hd,
                ..w.look
            },
            music: Music {
                track_rate: wall::rate_of(p.mods),
                pitch_preserve: p.mods & wall::MOD_NC == 0,
                ..w.music
            },
            ..w
        }
    }

    /// What played fades while the picture of the next track is built.
    pub open spec fn adopt_actions(self) -> Seq<Action> {
        wall::when(self.music.fade && self.music.device, Action::FadeOut { fade_ms: 800 }) + seq![
            Action::ClearRender,
        ] + wall::when(self.hold.desired(), Action::BuildRender)
    }

    /// Takes a track over that was read; `limit` is where it ends.
    pub fn adopt_track(&mut self, limit: Single) -> (r: Vec<Action>)
        requires
            old(self).asked_of() is Some,
        ensures
            *final(self) == old(self).adopted(limit),
            r@ == old(self).adopt_actions(),
    {
        self.remember();
        let (own_hits, sb, video, hidden, mods): (bool, bool, bool, bool, u32) = match &self.last_load {
            Some(p) => (p.beatmap_hitsounds, p.storyboard, p.video, p.hidden, p.mods),
            None => (true, true, true, false, 0),
        };
        let track_hd: bool = mods & wall::MOD_HD != 0;
        self.look = Look {
            sb_enabled: sb,
            video_enabled: video,
            track_hd,
            hd_on: hidden || track_hd,
            ..self.look
        };
        self.stage = Stage { surface: false, storyboard: false, scene: false, ..self.stage };
        self.track = true;
        self.limit = limit;
        self.beatmap_hitsounds = own_hits;
        self.take_upscaling();
        self.music.track_rate = wall::mods_rate(mods);
        self.music.pitch_preserve = mods & wall::MOD_NC == 0;
        self.clear_for_next()
    }

    fn take_upscaling(&mut self)
        ensures
            *final(self) == (Wall {
                tools: match old(self).last_load {
                    Some(p) => Tools {
                        upscale: p.upscale,
                        quality: p.upscale_quality,
                        ..old(self).tools
                    },
                    None => old(self).tools,
                },
                ..*old(self)
            }),
    {
        if let Some(p) = &self.last_load {
            self.tools.upscale = p.upscale.clone();
            self.tools.quality = p.upscale_quality.clone();
        }
    }

    /// Pictures and videos go through another filter, and go through it when the track is loaded
    /// again.
    pub open spec fn upscaled(self, mode: String, quality: String) -> Wall {
        Wall {
            tools: Tools { upscale: mode, quality, ..self.tools },
            last_load: match self.last_load {
                Some(p) => Some(LoadParams { upscale: mode, upscale_quality: quality, ..p }),
                None => None,
            },
            ..self
        }
    }

    pub fn set_upscale(&mut self, mode: String, quality: String)
        ensures
            *final(self) == old(self).upscaled(mode, quality),
    {
        if let Some(p) = self.last_load.take() {
            let mut p = p;
            p.upscale = mode.clone();
            p.upscale_quality = quality.clone();
            self.last_load = Some(p);
        }
        self.tools.upscale = mode;
        self.tools.quality = quality;
    }

    fn clear_for_next(&self) -> (r: Vec<Action>)
        ensures
            r@ == self.adopt_actions(),
    {
        let mut r: Vec<Action> = Vec::new();
        wall::push_when(
            &mut r,
            self.music.fade && self.music.device,
            Action::FadeOut { fade_ms: 800 },
        );
        r.push(Action::ClearRender);
        wall::push_when(&mut r, self.hold.render_desired(), Action::BuildRender);
        assert(r@ =~= self.adopt_actions());
        r
    }

    /// The picture is there, and its samples begin at their beginning.
    pub open spec fn pictured(self, found: Found) -> Wall {
        Wall {
            stage: Stage {
                surface: true,
                storyboard: found.storyboard,
                scene: true,
                scene_has_bg: found.background,
                ..self.stage
            },
            sb_cursor: 0,
            ..self
        }
    }

    /// Takes a picture over that was built.
    pub fn adopt_render_session(&mut self, found: &Found) -> (r: Vec<Action>)
        ensures
            *final(self) == old(self).pictured(*found),
            r@ == seq![Action::ResizeSurface, Action::StopSamples],
    {
        self.stage.surface = true;
        self.stage.storyboard = found.storyboard;
        self.stage.scene = true;
        self.stage.scene_has_bg = found.background;
        self.sb_cursor = 0;
        let mut r: Vec<Action> = Vec::new();
        r.push(Action::ResizeSurface);
        r.push(Action::StopSamples);
        assert(r@ =~= seq![Action::ResizeSurface, Action::StopSamples]);
        r
    }

    /// How the music begins: without a device or music not at all; at a speed that keeps its
    /// pitch, once it was stretched.
    pub open spec fn beginning(self, eff: Single) -> Begin {
        if !self.music.device || self.music.path is None {
            Begin::Silent
        } else if self.music.pitch_preserve && wall::off_unity(eff) {
            Begin::Stretching
        } else {
            Begin::Playing
        }
    }

    /// Everything begins together: the clock, the hit sounds and, unless it is stretched first,
    /// the music. The speed that was asked for is the user's from then on.
    pub open spec fn started(
        self,
        length: Option<Length>,
        limit_exact: Double,
        product: Single,
        hits: int,
        samples: int,
    ) -> Wall {
        let p = self.last_load->0;
        let m = Music {
            duration_ms: if self.music.path is Some {
                duration_of(length, self.limit, limit_exact)
            } else {
                self.limit
            },
            user_speed: audio::rate_within(p.speed),
            ..self.music
        }.unstretched();
        Wall {
            clock: Clock {
                t: p.start,
                playing: true,
                speed: product,
                wall_t: p.start,
                ticking: false,
                seek_target: None,
                jumped: false,
            },
            looping: p.loop_playback,
            ended_sent: false,
            hs_cursor: hits as usize,
            sb_cursor: samples as usize,
            music: if self.beginning(product) == Begin::Stretching {
                Music { pending: true, ..m.stretching() }
            } else {
                m
            },
            ..self
        }
    }

    pub open spec fn start_actions(self, product: Single) -> Seq<Action> {
        let p = self.last_load->0;
        let m = self.music.unstretched();
        seq![Action::StopLoops] + self.music.removal() + match self.beginning(product) {
            Begin::Stretching => m.stretch_actions(product, m.fade_in()),
            Begin::Playing => m.original(p.start, product, m.fade_in()),
            Begin::Silent => wall::when(self.music.device, Action::Stop),
        }
    }

    /// The speed that the last load asks for, within bounds; one where nothing was loaded.
    pub fn asked_speed(&self) -> (r: Single)
        ensures
            r == match self.last_load {
                Some(p) => audio::rate_within(p.speed),
                None => Single { bits: ipc::ONE },
            },
    {
        match &self.last_load {
            Some(p) => audio::clamp_rate(p.speed),
            None => Single { bits: ipc::ONE },
        }
    }

    /// Begins the track that was taken over. `length` is that of the music, where it is known,
    /// `limit_exact` the end of the track, `product` the rate of the track times the speed that
    /// was asked for, within its bounds, and `at` the time of the hit sounds at the start.
    pub fn start_track(
        &mut self,
        length: Option<Length>,
        limit_exact: Double,
        product: Single,
        at: Double,
        hits: &Vec<Double>,
        samples: &Vec<Double>,
    ) -> (r: (Vec<Action>, Begin))
        requires
            old(self).last_load is Some,
        ensures
            *final(self) == old(self).started(
                length,
                limit_exact,
                product,
                wall::passed(hits@, at, false),
                wall::passed(samples@, at, false),
            ),
            r.0@ == old(self).start_actions(product),
            r.1 == old(self).beginning(product),
    {
        let (start, looping): (Single, bool) = match &self.last_load {
            Some(p) => (p.start, p.loop_playback),
            None => (Single { bits: 0 }, false),
        };
        let user_speed: Single = self.asked_speed();
        let duration: Single = if self.music.path.is_some() {
            pick_duration(length, self.limit, limit_exact)
        } else {
            self.limit
        };
        self.looping = looping;
        self.clock = Clock::new(start, product);
        self.ended_sent = false;
        self.hs_cursor = wall::count_passed(hits, at);
        self.sb_cursor = wall::count_passed(samples, at);
        let mut r: Vec<Action> = Vec::new();
        r.push(Action::StopLoops);
        self.music.duration_ms = duration;
        self.music.user_speed = user_speed;
        let mut dropped: Vec<Action> = self.music.drop_stretch();
        r.append(&mut dropped);
        let fade_ms: u32 = self.music.fade_in_ms();
        let begin: Begin;
        if !self.music.device || !self.music.path.is_some() {
            begin = Begin::Silent;
            wall::push_when(&mut r, self.music.device, Action::Stop);
        } else if self.music.pitch_preserve && wall::is_off_unity(product) {
            begin = Begin::Stretching;
            self.music.pending = true;
            let mut m: Vec<Action> = self.music.spawn_stretch(product, fade_ms);
            r.append(&mut m);
        } else {
            begin = Begin::Playing;
            let mut m: Vec<Action> = self.music.play_original(start, product, fade_ms);
            r.append(&mut m);
        }
        assert(r@ =~= old(self).start_actions(product));
        (r, begin)
    }

    /// Whether a track is heard: stretched music will be; other music where playing it began.
    pub fn has_audio(begin: Begin, played: bool) -> (r: bool)
        ensures
            r == match begin {
                Begin::Stretching => true,
                Begin::Playing => played,
                Begin::Silent => false,
            },
    {
        match begin {
            Begin::Stretching => true,
            Begin::Playing => played,
            Begin::Silent => false,
        }
    }

    /// The event that tells that a track was loaded.
    pub fn loaded(&self, has_audio: bool) -> (r: Option<Event>)
        ensures
            r == match self.last_load {
                Some(p) => Some(
                    Event::Loaded {
                        path: p.path,
                        diff: None,
                        duration_ms: self.music.duration_ms,
                        widescreen: true,
                        has_audio,
                        mods: p.mods,
                    },
                ),
                None => None,
            },
    {
        match &self.last_load {
            Some(p) => Some(
                Event::Loaded {
                    path: p.path.clone(),
                    diff: None,
                    duration_ms: self.music.duration_ms,
                    widescreen: true,
                    has_audio,
                    mods: p.mods,
                },
            ),
            None => None,
        }
    }

    /// The part of the desktop that the window is made for, where the load names one.
    pub open spec fn bounds(self) -> Option<Bounds> {
        match self.last_load {
            Some(p) => match p.monitor {
                Some(v) => win::bounds_in(v@),
                None => None,
            },
            None => None,
        }
    }

    pub fn window_bounds(&self) -> (r: Option<Bounds>)
        ensures
            r == self.bounds(),
    {
        match &self.last_load {
            Some(p) => match &p.monitor {
                Some(v) => win::bounds_of(v),
                None => None,
            },
            None => None,
        }
    }

    /// The size of a window on a desktop of the given size: that of the part that it is made for,
    /// else that of the desktop.
    pub open spec fn window_size(self, width: u32, height: u32) -> (u32, u32) {
        match self.bounds() {
            Some(b) => (b.width, b.height),
            None => (width, height),
        }
    }

    /// The state once the window was put up on a desktop of the given size.
    pub open spec fn windowed(self, width: u32, height: u32) -> Wall {
        Wall {
            stage: Stage {
                window: true,
                pinned: self.bounds() is Some,
                desk_w: self.window_size(width, height).0,
                desk_h: self.window_size(width, height).1,
                ..self.stage
            },
            ..self
        }
    }

    /// The window was put up on a desktop of the given size; one without a size cannot be used.
    pub fn window_ready(&mut self, width: u32, height: u32, refresh_hz: u32) -> (r: Result<Event, Failure>)
        ensures
            if width == 0 || height == 0 {
                *final(self) == *old(self) && r is Err && r->Err_0 is NoDesktop
            } else {
                let size = old(self).window_size(width, height);
                &&& *final(self) == old(self).windowed(width, height)
                &&& r is Ok
                &&& r->Ok_0 == (Event::Ready { width: size.0, height: size.1, refresh_hz })
            },
    {
        if width == 0 || height == 0 {
            return Err(Failure::NoDesktop);
        }
        let (pinned, w, h): (bool, u32, u32) = match self.window_bounds() {
            Some(b) => (true, b.width, b.height),
            None => (false, width, height),
        };
        self.stage.window = true;
        self.stage.pinned = pinned;
        self.stage.desk_w = w;
        self.stage.desk_h = h;
        Ok(Event::Ready { width: w, height: h, refresh_hz })
    }

    /// What is to be done about rendering: a loaded track is shown where that is wanted and it is
    /// not, and taken down where it is not wanted and it is.
    pub open spec fn render_step(self) -> RenderStep {
        if !self.track {
            RenderStep::Nothing
        } else if self.hold.desired() {
            if self.stage.surface {
                RenderStep::Nothing
            } else {
                RenderStep::Build
            }
        } else if self.stage.surface || self.stage.window {
            RenderStep::Drop
        } else {
            RenderStep::Nothing
        }
    }

    pub fn sync_render(&self) -> (r: RenderStep)
        ensures
            r == self.render_step(),
    {
        if !self.track {
            RenderStep::Nothing
        } else if self.hold.render_desired() {
            if self.stage.surface {
                RenderStep::Nothing
            } else {
                RenderStep::Build
            }
        } else if self.stage.surface || self.stage.window {
            RenderStep::Drop
        } else {
            RenderStep::Nothing
        }
    }

    /// The picture is taken down; track, music, clock and hit sounds go on.
    pub open spec fn unrendered(self) -> Wall {
        Wall {
            stage: Stage {
                surface: false,
                storyboard: false,
                scene: false,
                window: false,
                ..self.stage
            },
            frames: Frames { count: 0, measured: 0, ..self.frames },
            ..self
        }
    }

    pub fn drop_render_session(&mut self)
        ensures
            *final(self) == old(self).unrendered(),
    {
        self.stage.surface = false;
        self.stage.storyboard = false;
        self.stage.scene = false;
        self.stage.window = false;
        self.frames.count = 0;
        self.frames.measured = 0;
    }

    /// Nothing is left of the session.
    pub open spec fn destroyed(self) -> Wall {
        Wall {
            stage: Stage {
                surface: false,
                storyboard: false,
                scene: false,
                window: false,
                ..self.stage
            },
            track: false,
            limit: Single { bits: wall::SINGLE_MAX },
            music: Music { path: None, ..self.music },
            hs_cursor: 0,
            sb_cursor: 0,
            ..self
        }
    }

    pub open spec fn destroy_actions(self) -> Seq<Action> {
        seq![Action::StopSamples, Action::StopLoops] + wall::when(
            self.music.device,
            Action::Stop,
        ) + seq![Action::ForgetSession]
    }

    pub fn destroy_state(&mut self) -> (r: Vec<Action>)
        ensures
            *final(self) == old(self).destroyed(),
            r@ == old(self).destroy_actions(),
    {
        self.stage.surface = false;
        self.stage.storyboard = false;
        self.stage.scene = false;
        self.stage.window = false;
        self.track = false;
        self.limit = Single { bits: wall::SINGLE_MAX };
        self.music.path = None;
        self.hs_cursor = 0;
        self.sb_cursor = 0;
        let mut r: Vec<Action> = Vec::new();
        r.push(Action::StopSamples);
        r.push(Action::StopLoops);
        wall::push_when(&mut r, self.music.device, Action::Stop);
        r.push(Action::ForgetSession);
        assert(r@ =~= old(self).destroy_actions());
        r
    }

    /// The window was taken away from outside: the session is dropped, and the wallpaper is put up
    /// again later. A window that was taken down before is no loss.
    pub fn on_detached(&mut self) -> (r: Vec<Action>)
        ensures
            if old(self).stage.window {
                &&& *final(self) == old(self).destroyed()
                &&& r@ == old(self).destroy_actions() + seq![
                    Action::Send(Event::Detached),
                    Action::ReattachLater,
                ]
            } else {
                *final(self) == *old(self) && r@.len() == 0
            },
    {
        if !self.stage.window {
            return Vec::new();
        }
        let mut r: Vec<Action> = self.destroy_state();
        r.push(Action::Send(Event::Detached));
        r.push(Action::ReattachLater);
        assert(r@ =~= old(self).destroy_actions() + seq![
            Action::Send(Event::Detached),
            Action::ReattachLater,
        ]);
        r
    }

    /// The desktop has another size; one of nothing counts as one.
    pub open spec fn measuring(self, width: u32, height: u32) -> Wall {
        Wall {
            stage: Stage {
                desk_w: if width == 0 {
                    1
                } else {
                    width
                },
                desk_h: if height == 0 {
                    1
                } else {
                    height
                },
                ..self.stage
            },
            ..self
        }
    }

    pub fn resized(&mut self, width: u32, height: u32) -> (r: Vec<Action>)
        ensures
            *final(self) == old(self).measuring(width, height),
            r@ == wall::when(old(self).stage.surface, Action::ResizeSurface),
    {
        self.stage.desk_w = if width == 0 {
            1
        } else {
            width
        };
        self.stage.desk_h = if height == 0 {
            1
        } else {
            height
        };
        let mut r: Vec<Action> = Vec::new();
        wall::push_when(&mut r, self.stage.surface, Action::ResizeSurface);
        assert(r@ =~= wall::when(old(self).stage.surface, Action::ResizeSurface));
        r
    }

    /// Whether the window is to follow the size that was found of the desktop. One that was made for
    /// a part of it stays there.
    pub open spec fn leaves(self, width: u32, height: u32) -> bool {
        !self.stage.pinned && width > 0 && height > 0 && !(width == self.stage.desk_w && height
            == self.stage.desk_h)
    }

    pub fn follows(&self, width: u32, height: u32) -> (r: bool)
        ensures
            r == self.leaves(width, height),
    {
        !self.stage.pinned && width > 0 && height > 0 && !(width == self.stage.desk_w && height == self.stage.desk_h)
    }

    /// A frame was drawn; every second they are counted.
    pub open spec fn counted(self, second_over: bool) -> Wall {
        Wall {
            frames: if second_over {
                Frames { count: 0, measured: (self.frames.count + 1) as u32, ..self.frames }
            } else {
                Frames { count: (self.frames.count + 1) as u32, ..self.frames }
            },
            ..self
        }
    }

    pub fn frame_drawn(&mut self, second_over: bool)
        requires
            old(self).frames.count < u32::MAX,
        ensures
            *final(self) == old(self).counted(second_over),
    {
        self.frames.count = self.frames.count + 1;
        if second_over {
            self.frames.measured = self.frames.count;
            self.frames.count = 0;
        }
    }

    /// What to wait for: `since_ns` is the time since the last frame, and `frame_ns` that which a
    /// frame takes at the rate that was set.
    pub open spec fn awaits(self, since_ns: Option<u64>, frame_ns: u64) -> Wait {
        if self.track && !self.stage.surface {
            Wait::Playback
        } else if !self.stage.window {
            Wait::Idle
        } else if self.frames.fps == 0 {
            Wait::Redraw
        } else {
            match since_ns {
                Some(s) => if s < frame_ns {
                    Wait::Sleep { ns: (frame_ns - s) as u64 }
                } else {
                    Wait::Redraw
                },
                None => Wait::Redraw,
            }
        }
    }

    pub fn wait(&self, since_ns: Option<u64>, frame_ns: u64) -> (r: Wait)
        ensures
            r == self.awaits(since_ns, frame_ns),
    {
        if self.track && !self.stage.surface {
            return Wait::Playback;
        }
        if !self.stage.window {
            return Wait::Idle;
        }
        if self.frames.fps == 0 {
            return Wait::Redraw;
        }
        match since_ns {
            Some(s) => {
                if s < frame_ns {
                    Wait::Sleep { ns: frame_ns - s }
                } else {
                    Wait::Redraw
                }
            },
            None => Wait::Redraw,
        }
    }

    /// Later loads take another skin.
    pub open spec fn reskinned(self, skin: Option<String>, force_colours: bool) -> Wall {
        Wall {
            last_load: match self.last_load {
                Some(p) => Some(LoadParams { skin, force_colours, ..p }),
                None => None,
            },
            ..self
        }
    }

    pub open spec fn reskin_actions(self) -> Seq<Action> {
        seq![Action::Recolour] + wall::when(self.stage.surface, Action::Repack) + seq![
            Action::ReswapHits,
        ]
    }

    /// Another skin was read: it is taken, unless the background is `wanted`, was there and could
    /// not be `decoded` again. Then nothing changes.
    pub fn reswap_skin(
        &mut self,
        skin: Option<String>,
        force_colours: bool,
        wanted: bool,
        decoded: bool,
    ) -> (r: Result<Vec<Action>, Failure>)
        ensures
            if wanted && !decoded && old(self).stage.scene && old(self).stage.scene_has_bg {
                &&& *final(self) == *old(self)
                &&& r is Err
                &&& r->Err_0 is Background
            } else {
                &&& *final(self) == old(self).reskinned(skin, force_colours)
                &&& r is Ok
                &&& r->Ok_0@ == old(self).reskin_actions()
            },
    {
        if !scene::can_reswap(wanted, decoded, self.stage.scene && self.stage.scene_has_bg) {
            return Err(Failure::Background);
        }
        match self.last_load.take() {
            Some(p) => {
                let mut p = p;
                p.skin = skin;
                p.force_colours = force_colours;
                self.last_load = Some(p);
            },
            None => {},
        }
        let mut r: Vec<Action> = Vec::new();
        r.push(Action::Recolour);
        wall::push_when(&mut r, self.stage.surface, Action::Repack);
        r.push(Action::ReswapHits);
        assert(r@ =~= seq![Action::Recolour] + wall::when(old(self).stage.surface, Action::Repack)
            + seq![Action::ReswapHits]);
        Ok(r)
    }
}

/// While music is stretched for a track that begins, playback waits; any other track plays from
/// its start at once.
pub proof fn law_start_waits_for_stretching(
    w: Wall,
    length: Option<Length>,
    limit_exact: Double,
    product: Single,
    hits: int,
    samples: int,
)
    requires
        w.last_load is Some,
    ensures
        w.started(length, limit_exact, product, hits, samples).music.pending <==> w.beginning(
            product,
        ) == Begin::Stretching,
        w.started(length, limit_exact, product, hits, samples).clock.playing,
        w.started(length, limit_exact, product, hits, samples).clock.t == w.last_load->0.start,
        w.started(length, limit_exact, product, hits, samples).music.stretched is None,
{
}

/// What is told of the speed of a track that begins fits together: the user's speed is the one that
/// the load asked for, within its bounds, the rate is that of its mods, and the clock runs at what
/// was computed of the two.
pub proof fn law_speed_is_the_one_asked(
    w: Wall,
    limit: Single,
    length: Option<Length>,
    limit_exact: Double,
    product: Single,
    hits: int,
    samples: int,
)
    requires
        w.asked_of() is Some,
    ensures
        ({
            let p = w.asked_of()->0;
            let after = w.adopted(limit).started(length, limit_exact, product, hits, samples);
            &&& after.music.track_rate == wall::rate_of(p.mods)
            &&& after.music.user_speed == audio::rate_within(p.speed)
            &&& after.clock.speed == product
            &&& after.status_of() matches Some(Event::Status { speed, user_speed, .. })
            &&& speed == product
            &&& user_speed == audio::rate_within(p.speed)
        }),
{
}

/// What a load says of upscaling holds once its track is taken over, and again whenever it is
/// loaded again, unless it was set otherwise since.
pub proof fn law_upscaling_comes_with_the_load(w: Wall, limit: Single, again: Single, mode: String, quality: String)
    requires
        w.asked_of() is Some,
    ensures
        ({
            let p = w.asked_of()->0;
            let taken = w.adopted(limit);
            &&& taken.tools.upscale == p.upscale
            &&& taken.tools.quality == p.upscale_quality
            &&& taken.begun(Asked::Again).adopted(again).tools == taken.tools
            &&& taken.upscaled(mode, quality).begun(Asked::Again).adopted(again).tools
                == taken.upscaled(mode, quality).tools
        }),
{
}

/// Taking the picture down and putting it up again leaves the playback as it was.
pub proof fn law_rendering_leaves_playback(w: Wall)
    ensures
        w.unrendered().clock == w.clock,
        w.unrendered().music == w.music,
        w.unrendered().track == w.track,
        w.unrendered().hs_cursor == w.hs_cursor,
        w.unrendered().hold == w.hold,
{
}

/// What the user is told of a failure holds the reason, and what was being done.
pub proof fn law_failures_tell_their_reason(path: String, reason: String)
    ensures
        (Failure::ReadMap { path, reason }).says() == "读取谱面失败 "@ + path@ + ": "@ + reason@,
        (Failure::Library { reason }).says() == reason@,
        Failure::Internal.says() == "加载谱面时发生内部错误"@,
        (Failure::ParseMap { reason }).says() == "解析谱面失败: "@ + reason@,
        (Failure::Skin { reason }).says() == "加载皮肤失败: "@ + reason@,
        (Failure::Window { reason }).says() == "创建壁纸窗口失败: "@ + reason@,
        (Failure::Renderer { reason }).says() == "初始化渲染失败: "@ + reason@,
        Failure::NoDesktop.says() == "桌面壁纸层不可用"@,
        Failure::Background.says() == "皮肤热切换中止:背景图重新解码失败"@,
{
}

/// A track is as long as its music where that goes on behind the last object and is shorter than
/// ten hours, and ends with its last object otherwise.
pub proof fn law_duration_is_that_of_the_longer(l: Length, limit: Single, limit_exact: Double)
    ensures
        limit_exact.below(l.exact) && l.exact.below(Double { bits: 0x4181_2A88_0000_0000 })
            ==> duration_of(Some(l), limit, limit_exact) == l.rounded,
        !limit_exact.below(l.exact) ==> duration_of(Some(l), limit, limit_exact) == limit,
        !l.exact.below(Double { bits: 0x4181_2A88_0000_0000 }) ==> duration_of(
            Some(l),
            limit,
            limit_exact,
        ) == limit,
        duration_of(None, limit, limit_exact) == limit,
{
}

/// A track that is taken over is what was asked for: its limit, its music, its hit sounds, its
/// storyboard, its video and its mods are those of the load, it starts nowhere before the
/// beginning, and a pause by the user does not outlast it. Nothing is rendered of it yet.
pub proof fn law_track_is_the_one_asked(w: Wall, limit: Single)
    requires
        w.asked_of() is Some,
    ensures
        ({
            let p = w.asked_of()->0;
            let r = w.adopted(limit);
            &&& r.track
            &&& r.limit == limit
            &&& r.music.path == w.asked_music
            &&& r.asked is None
            &&& r.asked_music is None
            &&& r.load_seq != w.load_seq
            &&& !r.hold.user_paused
            &&& r.hold.render_mode == w.hold.render_mode
            &&& r.last_load matches Some(q)
            &&& q == (LoadParams { start: q.start, ..p })
            &&& (Single { bits: 0 }).below(p.start) ==> q.start == p.start
            &&& p.start.below(Single { bits: 0 }) ==> q.start.bits == 0
            &&& r.beatmap_hitsounds == p.beatmap_hitsounds
            &&& r.look.sb_enabled == p.storyboard
            &&& r.look.video_enabled == p.video
            &&& r.look.track_hd == (p.mods & 8 != 0)
            &&& r.look.hd_on == (p.hidden || p.mods & 8 != 0)
            &&& r.music.pitch_preserve == (p.mods & 512 == 0)
            &&& !r.stage.surface && !r.stage.scene && !r.stage.storyboard
            &&& r.stage.window == w.stage.window
        }),
{
}

/// While the next track is taken over, the last fades over eight tenths of a second where fading is
/// on, its picture goes, and the next picture is built where one is wanted.
pub proof fn law_last_track_fades(w: Wall)
    ensures
        w.music.fade && w.music.device && w.hold.desired() ==> w.adopt_actions() == seq![
            Action::FadeOut { fade_ms: 800 },
            Action::ClearRender,
            Action::BuildRender,
        ],
        w.music.fade && w.music.device && !w.hold.desired() ==> w.adopt_actions() == seq![
            Action::FadeOut { fade_ms: 800 },
            Action::ClearRender,
        ],
        !(w.music.fade && w.music.device) && w.hold.desired() ==> w.adopt_actions() == seq![
            Action::ClearRender,
            Action::BuildRender,
        ],
        !(w.music.fade && w.music.device) && !w.hold.desired() ==> w.adopt_actions() == seq![
            Action::ClearRender,
        ],
{
    let f = w.music.fade && w.music.device;
    assert(f && w.hold.desired() ==> w.adopt_actions() =~= seq![
        Action::FadeOut { fade_ms: 800 },
        Action::ClearRender,
        Action::BuildRender,
    ]);
    assert(f && !w.hold.desired() ==> w.adopt_actions() =~= seq![
        Action::FadeOut { fade_ms: 800 },
        Action::ClearRender,
    ]);
    assert(!f && w.hold.desired() ==> w.adopt_actions() =~= seq![
        Action::ClearRender,
        Action::BuildRender,
    ]);
    assert(!f && !w.hold.desired() ==> w.adopt_actions() =~= seq![Action::ClearRender]);
}

/// A picture that was built is up, with the storyboard and the background that were found.
pub proof fn law_picture_is_up(w: Wall, found: Found)
    ensures
        w.pictured(found).stage.surface && w.pictured(found).stage.scene,
        w.pictured(found).stage.storyboard == found.storyboard,
        w.pictured(found).stage.scene_has_bg == found.background,
        w.pictured(found).sb_cursor == 0,
        w.pictured(found).clock == w.clock,
        w.pictured(found).music == w.music,
        w.pictured(found).hs_cursor == w.hs_cursor,
{
}

/// A track that begins plays from where the load starts, with the hit sounds behind that already
/// passed; nothing of what was stretched before is left. Its music plays at once at the speed, or is
/// stretched first where its pitch is kept and the speed is not one.
pub proof fn law_track_begins_at_its_start(
    w: Wall,
    length: Option<Length>,
    limit_exact: Double,
    product: Single,
    hits: int,
    samples: int,
)
    requires
        w.last_load is Some,
        0 <= hits <= usize::MAX,
        0 <= samples <= usize::MAX,
    ensures
        ({
            let p = w.last_load->0;
            let r = w.started(length, limit_exact, product, hits, samples);
            &&& r.clock.t == p.start && r.clock.wall_t == p.start
            &&& r.clock.playing && r.clock.speed == product && !r.clock.ticking && !r.clock.jumped
            &&& r.clock.seek_target is None
            &&& r.looping == p.loop_playback
            &&& !r.ended_sent
            &&& r.hs_cursor == hits && r.sb_cursor == samples
            &&& w.music.path is None ==> r.music.duration_ms == w.limit
            &&& w.music.path is Some && length is None ==> r.music.duration_ms == w.limit
            &&& r.hold == w.hold && r.stage == w.stage && r.look == w.look && r.last_load
                == w.last_load
        }),
        w.start_actions(product)[0] == Action::StopLoops,
        w.music.device && w.music.path is Some && !(w.music.pitch_preserve && wall::off_unity(product))
            ==> w.start_actions(product).last() == (Action::Play {
            path: w.music.path->0,
            at: w.last_load->0.start,
            rate: product,
            scale: Single { bits: 0x3F80_0000 },
            fade_ms: if w.music.fade {
                250
            } else {
                0
            },
        }),
        w.music.device && w.music.path is Some && w.music.pitch_preserve && wall::off_unity(product)
            ==> {
            let last = w.start_actions(product).last();
            &&& last matches Action::SpawnStretch { job, path, speed, fade_ms }
            &&& job == w.started(length, limit_exact, product, hits, samples).music.job
            &&& path == w.music.path->0
            &&& speed == product
            &&& fade_ms == (if w.music.fade {
                250u32
            } else {
                0u32
            })
        },
        w.music.device && w.music.path is None ==> w.start_actions(product).last() == Action::Stop,
{
}

/// Where a loaded track is wanted it is shown, and where it is not it is taken down; without a track
/// nothing is done.
pub proof fn law_rendering_follows_what_is_wanted(w: Wall, found: Found)
    ensures
        w.track && w.hold.desired() && !w.stage.surface ==> w.render_step() == RenderStep::Build,
        w.track && w.hold.desired() ==> w.pictured(found).render_step() == RenderStep::Nothing,
        w.track && !w.hold.desired() && w.stage.surface ==> w.render_step() == RenderStep::Drop,
        w.track && !w.hold.desired() && w.stage.window ==> w.render_step() == RenderStep::Drop,
        !w.hold.desired() ==> w.unrendered().render_step() == RenderStep::Nothing,
        !w.track ==> w.render_step() == RenderStep::Nothing,
        !w.unrendered().stage.window && !w.unrendered().stage.surface,
        !w.unrendered().stage.scene && !w.unrendered().stage.storyboard,
        w.unrendered().frames.measured == 0 && w.unrendered().frames.count == 0,
        w.unrendered().frames.fps == w.frames.fps,
{
}

/// A track without a picture plays on by itself, and without a window there is nothing to do. Else
/// the next frame is drawn at once where the rate is not limited or the time of a frame is over, and
/// when it is over otherwise.
pub proof fn law_frames_are_drawn_in_time(w: Wall, since: u64, frame: u64)
    ensures
        w.track && !w.stage.surface ==> w.awaits(Some(since), frame) == Wait::Playback && w.awaits(
            None,
            frame,
        ) == Wait::Playback,
        !w.track && !w.stage.window ==> w.awaits(Some(since), frame) == Wait::Idle,
        w.track && w.stage.surface && w.stage.window ==> {
            &&& w.frames.fps == 0 ==> w.awaits(Some(since), frame) == Wait::Redraw
            &&& w.awaits(None, frame) == Wait::Redraw
            &&& since >= frame ==> w.awaits(Some(since), frame) == Wait::Redraw
            &&& w.frames.fps > 0 && since < frame ==> (w.awaits(Some(since), frame) matches Wait::Sleep {
                ns,
            } && ns + since == frame)
        },
{
}

/// Frames are counted one by one, and what was counted in a second is what is told.
pub proof fn law_frames_are_counted(w: Wall)
    requires
        w.frames.count < u32::MAX,
    ensures
        w.counted(false).frames.count == w.frames.count + 1,
        w.counted(false).frames.measured == w.frames.measured,
        w.counted(true).frames.count == 0,
        w.counted(true).frames.measured == w.frames.count + 1,
        w.counted(true).frames.fps == w.frames.fps,
{
}

/// A window that was made for a part of the desktop has the size of that part and stays; any other
/// has the size of the desktop, and follows each other size until it has it.
pub proof fn law_window_follows_the_desktop(w: Wall, width: u32, height: u32)
    requires
        width > 0,
        height > 0,
    ensures
        w.windowed(width, height).stage.window,
        w.bounds() is None ==> {
            let r = w.windowed(width, height);
            &&& r.stage.desk_w == width && r.stage.desk_h == height && !r.stage.pinned
            &&& !r.leaves(width, height)
        },
        w.bounds() matches Some(b) ==> {
            let r = w.windowed(width, height);
            &&& r.stage.desk_w == b.width && r.stage.desk_h == b.height && r.stage.pinned
        },
        w.stage.pinned ==> !w.leaves(width, height),
        !w.stage.pinned && width != w.stage.desk_w ==> w.leaves(width, height),
        !w.stage.pinned && height != w.stage.desk_h ==> w.leaves(width, height),
        w.measuring(width, height).stage.desk_w == width,
        w.measuring(width, height).stage.desk_h == height,
        !w.measuring(width, height).leaves(width, height),
        !w.leaves(0, height) && !w.leaves(width, 0),
        w.measuring(0, height).stage.desk_w == 1 && w.measuring(width, 0).stage.desk_h == 1,
{
}

/// The part of the desktop is the one that the load names.
pub proof fn law_window_is_made_for_the_part_named(w: Wall)
    ensures
        w.last_load is None ==> w.bounds() is None,
        w.last_load matches Some(p) ==> (p.monitor is None ==> w.bounds() is None),
        w.last_load matches Some(p) ==> (p.monitor matches Some(v) ==> w.bounds() == win::bounds_in(v@)),
{
}

/// Another skin is what the next load takes, and nothing else changes.
pub proof fn law_skin_is_kept_for_later(w: Wall, skin: Option<String>, force: bool)
    ensures
        w.reskinned(skin, force) == (Wall { last_load: w.reskinned(skin, force).last_load, ..w }),
        w.last_load matches Some(p) ==> (w.reskinned(skin, force).last_load matches Some(q) && q == (
        LoadParams { skin, force_colours: force, ..p })),
        w.last_load is None ==> w.reskinned(skin, force).last_load is None,
{
}

/// What is being loaded is what was asked for, until it is taken over or given up.
pub proof fn law_asked_until_given_up(w: Wall, p: LoadParams)
    ensures
        w.begun(Asked::New(p)).asked_of() == Some(p),
        w.begun(Asked::Again).asked_of() == w.last_load,
        w.given_up().asked_of() is None,
        w.asked is None && w.asked_music is None ==> w.begun(Asked::New(p)).given_up() == w,
        w.begun(Asked::New(p)) == (Wall {
            asked: w.begun(Asked::New(p)).asked,
            asked_music: None,
            ..w
        }),
{
}

/// Another skin paints the combos, has its pictures packed where they are shown, and has the hit
/// sounds looked up anew.
pub proof fn law_skin_is_taken_up(w: Wall)
    ensures
        w.stage.surface ==> w.reskin_actions() == seq![
            Action::Recolour,
            Action::Repack,
            Action::ReswapHits,
        ],
        !w.stage.surface ==> w.reskin_actions() == seq![Action::Recolour, Action::ReswapHits],
{
    assert(w.stage.surface ==> w.reskin_actions() =~= seq![
        Action::Recolour,
        Action::Repack,
        Action::ReswapHits,
    ]);
    assert(!w.stage.surface ==> w.reskin_actions() =~= seq![Action::Recolour, Action::ReswapHits]);
}

} // verus!
