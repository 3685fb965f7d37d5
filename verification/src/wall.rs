//! The renderer's side of the player: what becomes of its state when a command comes, when a
//! track is loaded, as time goes on and as the desktop is covered. What is to be done about it is
//! handed out as actions, in their order.
use vstd::prelude::*;

use crate::audio::Levels;
use crate::clock::Clock;
use crate::ieee::{Double, Single};
use crate::ipc;
use crate::ipc::{Event, Load, VFile};
use crate::scene;
use crate::scene::{Fresh, Look};
use crate::text;

verus! {

/// For how long the desktop is covered before anything is paused, in milliseconds.
pub const COVER_HOLD: u64 = 1000;

/// For how long it is to be seen again before anything is resumed, in milliseconds.
pub const UNCOVER_HOLD: u64 = 500;

/// How often playback goes on while nothing is rendered, in milliseconds.
pub const PURE_TICK: u64 = 15;

/// After how long the wallpaper is put up again, in milliseconds.
pub const REATTACH_DELAY: u64 = 3000;

pub const MOD_HD: u32 = 8;

pub const MOD_DT: u32 = 64;

pub const MOD_HT: u32 = 256;

pub const MOD_NC: u32 = 512;

/// The largest single.
pub const SINGLE_MAX: u32 = 0x7F7F_FFFF;

/// 1.5.
pub const RATE_DT: u32 = 0x3FC0_0000;

/// 0.75.
pub const RATE_HT: u32 = 0x3F40_0000;

/// The smallest single that is not more than a thousandth below one.
pub const UNITY_LOW: u32 = 0x3F7F_BE77;

/// The largest single that is not more than a thousandth above one.
pub const UNITY_HIGH: u32 = 0x3F80_20C4;

/// -500.
pub const JUMP_BACK: u32 = 0xC3FA_0000;

/// 2000.
pub const JUMP_AHEAD: u32 = 0x44FA_0000;

/// The longest that music is believed to be, in milliseconds: ten hours.
pub const LONGEST: u64 = 0x4181_2A88_0000_0000;

/// When the wallpaper is rendered.
#[derive(Debug, Clone, Copy, PartialEq, Eq, Structural)]
pub enum RenderMode {
    Always,
    /// Not while the desktop is covered; the music goes on.
    AutoPause,
    /// While the desktop is covered playback pauses, and the picture stands.
    FsPause,
    /// While the desktop is covered playback pauses, and nothing is rendered.
    FsSleep,
    /// Never: only music and hit sounds.
    Off,
}

impl RenderMode {
    /// The mode with the name; any other name is that of pausing automatically.
    pub open spec fn named(s: Seq<char>) -> RenderMode {
        if s == "always"@ {
            RenderMode::Always
        } else if s == "fs_pause"@ {
            RenderMode::FsPause
        } else if s == "fs_sleep"@ {
            RenderMode::FsSleep
        } else if s == "off"@ {
            RenderMode::Off
        } else {
            RenderMode::AutoPause
        }
    }

    pub fn parse(s: &str) -> (r: RenderMode)
        ensures
            r == RenderMode::named(s@),
    {
        if text::same(s, "always") {
            RenderMode::Always
        } else if text::same(s, "fs_pause") {
            RenderMode::FsPause
        } else if text::same(s, "fs_sleep") {
            RenderMode::FsSleep
        } else if text::same(s, "off") {
            RenderMode::Off
        } else {
            RenderMode::AutoPause
        }
    }

    /// Nothing is ever rendered.
    pub fn pure(self) -> (r: bool)
        ensures
            r == (self == RenderMode::Off),
    {
        self == RenderMode::Off
    }

    pub open spec fn drops(self) -> bool {
        self == RenderMode::AutoPause || self == RenderMode::FsSleep
    }

    pub open spec fn pauses(self) -> bool {
        self == RenderMode::FsPause || self == RenderMode::FsSleep
    }

    /// Whether rendering ends while the desktop is covered.
    pub fn drops_render_on_cover(self) -> (r: bool)
        ensures
            r == self.drops(),
    {
        self == RenderMode::AutoPause || self == RenderMode::FsSleep
    }

    /// Whether playback pauses while the desktop is covered.
    pub fn pauses_playback_on_cover(self) -> (r: bool)
        ensures
            r == self.pauses(),
    {
        self == RenderMode::FsPause || self == RenderMode::FsSleep
    }
}

/// The rate that the mods play at.
pub open spec fn rate_of(mods: u32) -> Single {
    if mods & (MOD_DT | MOD_NC) != 0 {
        Single { bits: RATE_DT }
    } else if mods & MOD_HT != 0 {
        Single { bits: RATE_HT }
    } else {
        Single { bits: ipc::ONE }
    }
}

pub fn mods_rate(mods: u32) -> (r: Single)
    ensures
        r == rate_of(mods),
{
    if mods & (MOD_DT | MOD_NC) != 0 {
        Single { bits: RATE_DT }
    } else if mods & MOD_HT != 0 {
        Single { bits: RATE_HT }
    } else {
        Single { bits: ipc::ONE }
    }
}

/// More than a thousandth away from the speed of one.
pub open spec fn off_unity(speed: Single) -> bool {
    speed.below(Single { bits: UNITY_LOW }) || (Single { bits: UNITY_HIGH }).below(speed)
}

pub fn is_off_unity(speed: Single) -> (r: bool)
    ensures
        r == off_unity(speed),
{
    speed.lt(&Single { bits: UNITY_LOW }) || (Single { bits: UNITY_HIGH }).lt(&speed)
}

/// What is loaded and how.
#[derive(Debug)]
pub struct LoadParams {
    pub path: String,
    pub diff: Option<String>,
    pub speed: Single,
    pub start: Single,
    pub loop_playback: bool,
    pub manifest: Option<Vec<VFile>>,
    pub skin: Option<String>,
    pub force_colours: bool,
    pub hidden: bool,
    pub mods: u32,
    pub storyboard: bool,
    pub video: bool,
    pub beatmap_hitsounds: bool,
    pub upscale: String,
    /// Left, top, width and height of the screen to fill; without them the whole desktop.
    pub monitor: Option<Vec<i32>>,
    pub upscale_quality: String,
}

/// What is being loaded and was not taken over yet.
#[derive(Debug)]
pub enum Asked {
    New(LoadParams),
    /// What was loaded last.
    Again,
}

/// What is kept of a command to load.
pub open spec fn params_of(l: Load) -> LoadParams {
    LoadParams {
        path: l.path,
        diff: l.diff,
        speed: l.speed,
        start: l.start,
        loop_playback: l.loop_playback,
        manifest: l.manifest,
        skin: l.skin,
        force_colours: l.force_colours,
        hidden: l.hidden,
        mods: l.mods,
        storyboard: l.storyboard,
        video: l.video,
        beatmap_hitsounds: l.beatmap_hitsounds,
        upscale: l.upscale,
        monitor: l.monitor,
        upscale_quality: l.upscale_quality,
    }
}

/// Something about the scene that changes at once.
#[derive(Debug, Clone, Copy, PartialEq, Eq, Structural)]
pub enum SceneChange {
    Hud(bool),
    Pp(bool),
    HitAnimations(bool),
    BreakLighten(bool),
    Cursor(bool),
    CursorSize(Single),
    GameplayHidden(bool),
    Hidden(bool),
    BgOpacity(Single),
}

#[derive(Debug)]
pub enum Action {
    /// Let the music fade.
    FadeOut { fade_ms: u32 },
    /// Play a file from a time of the music: at a rate, where a time of the file is `scale` of
    /// the music's.
    Play { path: String, at: Single, rate: Single, scale: Single, fade_ms: u32 },
    Pause { fade_ms: u32 },
    Resume { fade_ms: u32 },
    Stop,
    SeekMusic { ms: Single },
    SetRate { x: Single },
    /// Bring the levels to what is heard.
    ApplyLevels,
    PauseLoops { fade_ms: u32 },
    ResumeLoops { fade_ms: u32 },
    StopLoops,
    StopSamples,
    /// Play the hit sounds from one place up to another.
    FireHits { from: usize, to: usize },
    /// Play the storyboard's samples from one place up to another.
    FireSamples { from: usize, to: usize },
    UpdateLoops,
    /// Stretch the music to a speed, in the background.
    SpawnStretch { job: u64, path: String, speed: Single, fade_ms: u32 },
    RemoveFile { path: String },
    ResetVideo,
    /// Take down what was rendered, behind a last empty frame.
    ClearRender,
    BuildRender,
    SyncRender,
    /// Set the scene up anew, with this of what the user set.
    ResetScene(Fresh),
    ChangeScene(SceneChange),
    Dim { v: Single },
    EnableVideo { on: bool },
    Upscale,
    SetLog { on: bool },
    Probe { path: String },
    /// Go on with loading what was asked for last.
    Load,
    ReswapSkin { skin: Option<String>, force_colours: bool },
    /// Look the hit sounds up anew.
    ReswapHits,
    /// Paint the combos in the colours of the skin.
    Recolour,
    /// Pack the pictures of the skin anew.
    Repack,
    InjectPp,
    /// Seek, with what the clamped target asks for.
    SeekTo { ms: Single },
    /// Take up the new speed.
    Retime,
    /// Take up the new offset.
    Realign,
    /// Drop everything of the session.
    ForgetSession,
    ReattachLater,
    RestartFrameTimer,
    RestartCoverTimer,
    ResizeSurface,
    Redraw,
    Status,
    Send(Event),
    Exit,
}

/// One action where it is called for.
pub open spec fn when(b: bool, a: Action) -> Seq<Action> {
    if b {
        seq![a]
    } else {
        Seq::empty()
    }
}

pub(crate) fn push_when(v: &mut Vec<Action>, b: bool, a: Action)
    ensures
        final(v)@ == old(v)@ + when(b, a),
{
    let ghost before = v@;
    if b {
        v.push(a);
        assert(v@ =~= before + seq![a]);
    } else {
        assert(v@ =~= before + Seq::<Action>::empty());
    }
}

/// A time has come. Of one that is not a number this holds where it is only asked whether the
/// time lies ahead.
pub open spec fn come(time: Double, t: Double, unless_ahead: bool) -> bool {
    if unless_ahead {
        !t.below(time)
    } else {
        time.at_most(t)
    }
}

/// How many of the times, from the first on, have come.
pub open spec fn passed(times: Seq<Double>, t: Double, unless_ahead: bool) -> int
    decreases times.len(),
{
    if times.len() == 0 || !come(times[0], t, unless_ahead) {
        0
    } else {
        1 + passed(times.skip(1), t, unless_ahead)
    }
}

/// Up to where the times have come that do not lie ahead, from one place on.
pub open spec fn due_from(times: Seq<Double>, from: int, t: Double) -> int {
    if from >= times.len() {
        from
    } else {
        from + passed(times.skip(from), t, true)
    }
}

/// What `passed` says: all before it have come, and the one at it has not.
pub proof fn lemma_passed(times: Seq<Double>, t: Double, unless_ahead: bool, k: int)
    requires
        0 <= k <= times.len(),
        forall|i: int| 0 <= i < k ==> come(#[trigger] times[i], t, unless_ahead),
        k < times.len() ==> !come(times[k], t, unless_ahead),
    ensures
        passed(times, t, unless_ahead) == k,
    decreases times.len(),
{
    if times.len() > 0 && k > 0 {
        assert(come(times[0], t, unless_ahead));
        let rest = times.skip(1);
        assert forall|i: int| 0 <= i < k - 1 implies come(#[trigger] rest[i], t, unless_ahead) by {
            assert(rest[i] == times[i + 1]);
        }
        lemma_passed(rest, t, unless_ahead, k - 1);
    }
}

/// In times that grow, as many have come as there are not after `t`.
pub proof fn law_passed_splits_sorted(times: Seq<Double>, t: Double, i: int)
    requires
        forall|a: int, b: int|
            0 <= a <= b < times.len() ==> (#[trigger] times[a]).at_most(#[trigger] times[b]),
        0 <= i < times.len(),
        !t.nan(),
    ensures
        times[i].at_most(t) <==> i < passed(times, t, false),
    decreases times.len(),
{
    if times[0].at_most(t) {
        let rest = times.skip(1);
        if i > 0 {
            assert forall|a: int, b: int| 0 <= a <= b < rest.len() implies (#[trigger] rest[a]).at_most(
                #[trigger] rest[b],
            ) by {
                assert(times[a + 1].at_most(times[b + 1]));
            }
            law_passed_splits_sorted(rest, t, i - 1);
        } else {
            lemma_passed_not_negative(rest, t, false);
        }
    } else {
        assert(times[0].at_most(times[i]));
    }
}

proof fn lemma_passed_not_negative(times: Seq<Double>, t: Double, unless_ahead: bool)
    ensures
        passed(times, t, unless_ahead) >= 0,
    decreases times.len(),
{
    if times.len() > 0 {
        lemma_passed_not_negative(times.skip(1), t, unless_ahead);
    }
}

fn has_come(time: &Double, t: &Double, unless_ahead: bool) -> (r: bool)
    ensures
        r == come(*time, *t, unless_ahead),
{
    if unless_ahead {
        !t.lt(time)
    } else {
        time.le(t)
    }
}

/// Up to where the times have come, from one place on.
fn run_from(times: &Vec<Double>, from: usize, t: Double, unless_ahead: bool) -> (r: usize)
    requires
        from <= times@.len(),
    ensures
        r == from + passed(times@.skip(from as int), t, unless_ahead),
        from <= r <= times@.len(),
{
    let mut k: usize = from;
    let ghost rest = times@.skip(from as int);
    while k < times.len() && has_come(&times[k], &t, unless_ahead)
        invariant
            from <= k <= times@.len(),
            rest == times@.skip(from as int),
            forall|i: int| 0 <= i < k - from ==> come(#[trigger] rest[i], t, unless_ahead),
        decreases times.len() - k,
    {
        assert(rest[k - from] == times@[k as int]);
        k = k + 1;
    }
    proof {
        if k < times@.len() {
            assert(rest[k - from] == times@[k as int]);
        }
        lemma_passed(rest, t, unless_ahead, k - from);
    }
    k
}

/// Up to where the times have come that do not lie ahead, from one place on.
pub fn advance_cursor(times: &Vec<Double>, from: usize, t: Double) -> (r: usize)
    ensures
        r == due_from(times@, from as int, t),
        r >= from,
{
    if from >= times.len() {
        from
    } else {
        run_from(times, from, t, true)
    }
}

/// How many of the times have come.
pub fn count_passed(times: &Vec<Double>, t: Double) -> (r: usize)
    ensures
        r == passed(times@, t, false),
{
    assert(times@.skip(0) =~= times@);
    run_from(times, 0, t, false)
}

/// The music: what it is played on and from, how fast, and what is being made of it.
#[derive(Debug)]
pub struct Music {
    /// There is something to play sound on.
    pub device: bool,
    pub path: Option<String>,
    /// Music fades in and out.
    pub fade: bool,
    pub levels: Levels,
    pub user_speed: Single,
    pub track_rate: Single,
    pub pitch_preserve: bool,
    /// The number of the last stretching that was asked for.
    pub job: u64,
    /// The file of the stretched music.
    pub stretched: Option<String>,
    /// Playback waits for stretched music.
    pub pending: bool,
    pub duration_ms: Single,
    pub offset_ms: Single,
}

/// What there is to be seen.
#[derive(Debug, Clone, Copy, PartialEq, Eq, Structural)]
pub struct Stage {
    pub window: bool,
    /// The window was made for a part of the desktop.
    pub pinned: bool,
    pub surface: bool,
    pub storyboard: bool,
    pub scene: bool,
    pub scene_has_bg: bool,
    pub desk_w: u32,
    pub desk_h: u32,
}

/// What holds playback and rendering back.
#[derive(Debug, Clone, Copy, PartialEq, Eq, Structural)]
pub struct Hold {
    pub render_mode: RenderMode,
    pub covered: bool,
    /// Playback was paused because the desktop is covered.
    pub fs_paused: bool,
    pub user_paused: bool,
}

/// The tools and filters that pictures and videos go through.
#[derive(Debug)]
pub struct Tools {
    pub ffmpeg: Option<String>,
    pub ffprobe: Option<String>,
    pub upscale: String,
    pub quality: String,
}

/// How many frames there are to be, and were.
#[derive(Debug, Clone, Copy, PartialEq, Eq, Structural)]
pub struct Frames {
    /// Zero follows the screen.
    pub fps: u32,
    pub count: u32,
    pub measured: u32,
}

/// The state of the renderer.
#[derive(Debug)]
pub struct Wall {
    pub clock: Clock,
    pub look: Look,
    pub music: Music,
    pub stage: Stage,
    pub hold: Hold,
    pub tools: Tools,
    pub frames: Frames,
    /// What is being loaded; until it is taken over, everything else stays as it was.
    pub asked: Option<Asked>,
    /// Where the music of what is being loaded lies.
    pub asked_music: Option<String>,
    /// What was taken over last.
    pub last_load: Option<LoadParams>,
    /// How many tracks were taken over.
    pub load_seq: u64,
    /// A track is loaded.
    pub track: bool,
    /// Where the track ends, in milliseconds.
    pub limit: Single,
    /// Up to where the hit sounds were played.
    pub hs_cursor: usize,
    /// Up to where the samples of the storyboard were played.
    pub sb_cursor: usize,
    pub beatmap_hitsounds: bool,
    pub looping: bool,
    pub ended_sent: bool,
}

impl Music {
    /// The music before anything was set.
    pub open spec fn initial(device: bool) -> Music {
        Music {
            device,
            path: None,
            fade: true,
            levels: Levels::initial(),
            user_speed: Single { bits: ipc::ONE },
            track_rate: Single { bits: ipc::ONE },
            pitch_preserve: true,
            job: 0,
            stretched: None,
            pending: false,
            duration_ms: Single { bits: 0 },
            offset_ms: Single { bits: 0 },
        }
    }

    pub fn new(device: bool) -> (m: Music)
        ensures
            m == Music::initial(device),
    {
        let one: Single = Single { bits: ipc::ONE };
        let zero: Single = Single { bits: 0 };
        Music {
            device,
            path: None,
            fade: true,
            levels: Levels::new(),
            user_speed: one,
            track_rate: one,
            pitch_preserve: true,
            job: 0,
            stretched: None,
            pending: false,
            duration_ms: zero,
            offset_ms: zero,
        }
    }

    /// For how long music fades when it pauses.
    pub open spec fn fade_swap(self) -> u32 {
        if self.fade {
            500
        } else {
            0
        }
    }

    /// For how long music fades in.
    pub open spec fn fade_in(self) -> u32 {
        if self.fade {
            250
        } else {
            0
        }
    }

    pub fn fade_swap_ms(&self) -> (r: u32)
        ensures
            r == self.fade_swap(),
    {
        if self.fade {
            500
        } else {
            0
        }
    }

    pub fn fade_in_ms(&self) -> (r: u32)
        ensures
            r == self.fade_in(),
    {
        if self.fade {
            250
        } else {
            0
        }
    }

    /// The music and the loops pause.
    pub open spec fn pause_actions(self) -> Seq<Action> {
        when(self.device, Action::Pause { fade_ms: self.fade_swap() }) + seq![
            Action::PauseLoops { fade_ms: self.fade_swap() },
        ]
    }

    /// The music and the loops go on.
    pub open spec fn resume_actions(self) -> Seq<Action> {
        when(self.device, Action::Resume { fade_ms: self.fade_in() }) + seq![
            Action::ResumeLoops { fade_ms: self.fade_in() },
        ]
    }

    fn pauses(&self) -> (r: Vec<Action>)
        ensures
            r@ == self.pause_actions(),
    {
        let mut r: Vec<Action> = Vec::new();
        let fade_ms: u32 = self.fade_swap_ms();
        push_when(&mut r, self.device, Action::Pause { fade_ms });
        r.push(Action::PauseLoops { fade_ms });
        assert(r@ =~= self.pause_actions());
        r
    }

    fn resumes(&self) -> (r: Vec<Action>)
        ensures
            r@ == self.resume_actions(),
    {
        let mut r: Vec<Action> = Vec::new();
        let fade_ms: u32 = self.fade_in_ms();
        push_when(&mut r, self.device, Action::Resume { fade_ms });
        r.push(Action::ResumeLoops { fade_ms });
        assert(r@ =~= self.resume_actions());
        r
    }

    /// What was stretched is dropped, and what is being stretched will not be taken.
    pub open spec fn unstretched(self) -> Music {
        Music {
            pending: false,
            job: vstd::wrapping::u64_specs::wrapping_add(self.job, 1),
            stretched: None,
            ..self
        }
    }

    /// The stretched file is removed.
    pub open spec fn removal(self) -> Seq<Action> {
        match self.stretched {
            Some(path) => seq![Action::RemoveFile { path }],
            None => Seq::empty(),
        }
    }

    pub fn drop_stretch(&mut self) -> (r: Vec<Action>)
        ensures
            *final(self) == old(self).unstretched(),
            r@ == old(self).removal(),
    {
        let mut r: Vec<Action> = Vec::new();
        self.pending = false;
        self.job = self.job.wrapping_add(1);
        let stretched: Option<String> = self.stretched.take();
        if let Some(path) = stretched {
            r.push(Action::RemoveFile { path });
        }
        assert(r@ =~= old(self).removal());
        r
    }

    /// The music is stretched, if there is any, under a new number.
    pub open spec fn stretching(self) -> Music {
        if self.path is Some {
            Music { job: vstd::wrapping::u64_specs::wrapping_add(self.job, 1), ..self }
        } else {
            self
        }
    }

    pub open spec fn stretch_actions(self, speed: Single, fade_ms: u32) -> Seq<Action> {
        match self.path {
            Some(path) => seq![
                Action::SpawnStretch {
                    job: vstd::wrapping::u64_specs::wrapping_add(self.job, 1),
                    path,
                    speed,
                    fade_ms,
                },
            ],
            None => Seq::empty(),
        }
    }

    pub fn spawn_stretch(&mut self, speed: Single, fade_ms: u32) -> (r: Vec<Action>)
        ensures
            *final(self) == old(self).stretching(),
            r@ == old(self).stretch_actions(speed, fade_ms),
    {
        let mut r: Vec<Action> = Vec::new();
        let source: Option<String> = clone_path(&self.path);
        if let Some(path) = source {
            self.job = self.job.wrapping_add(1);
            r.push(Action::SpawnStretch { job: self.job, path, speed, fade_ms });
        }
        assert(r@ =~= old(self).stretch_actions(speed, fade_ms));
        r
    }

    /// What was stretched is taken only where nothing else was asked for since.
    pub open spec fn takes(self, job: u64) -> bool {
        job == self.job
    }

    pub fn takes_stretch(&self, job: u64) -> (r: bool)
        ensures
            r == self.takes(job),
    {
        job == self.job
    }

    /// The file itself is played at a rate, if there is one and something to play it on.
    pub open spec fn original(self, at: Single, rate: Single, fade_ms: u32) -> Seq<Action> {
        match self.path {
            Some(path) => when(
                self.device,
                Action::Play { path, at, rate, scale: Single { bits: ipc::ONE }, fade_ms },
            ),
            None => Seq::empty(),
        }
    }

    pub(crate) fn play_original(&self, at: Single, rate: Single, fade_ms: u32) -> (r: Vec<Action>)
        ensures
            r@ == self.original(at, rate, fade_ms),
    {
        let mut r: Vec<Action> = Vec::new();
        if let Some(path) = &self.path {
            if self.device {
                r.push(
                    Action::Play {
                        path: path.clone(),
                        at,
                        rate,
                        scale: Single { bits: ipc::ONE },
                        fade_ms,
                    },
                );
            }
        }
        assert(r@ =~= self.original(at, rate, fade_ms));
        r
    }

    /// The stretched file is played, where `speed` is what it was stretched to.
    pub open spec fn from_stretched(path: String, at: Single, speed: Single, fade_ms: u32) -> Action {
        Action::Play { path, at, rate: Single { bits: ipc::ONE }, scale: speed, fade_ms }
    }

    /// Music that has ended is started again where a seek leads to, as the speed has it; not while
    /// it is awaited.
    pub open spec fn revived(self, speed: Single, ms: Single) -> Seq<Action> {
        if self.pending || !self.device {
            Seq::empty()
        } else if self.pitch_preserve && off_unity(speed) && self.stretched is Some {
            seq![Music::from_stretched(self.stretched->0, ms, speed, self.fade_in())]
        } else {
            self.original(ms, speed, self.fade_in())
        }
    }

    pub fn revive_at(&self, speed: Single, ms: Single) -> (r: Vec<Action>)
        ensures
            r@ == self.revived(speed, ms),
    {
        let mut r: Vec<Action> = Vec::new();
        if self.pending || !self.device {
            return r;
        }
        let fade_ms: u32 = self.fade_in_ms();
        if self.pitch_preserve && is_off_unity(speed) {
            if let Some(path) = &self.stretched {
                r.push(
                    Action::Play {
                        path: path.clone(),
                        at: ms,
                        rate: Single { bits: ipc::ONE },
                        scale: speed,
                        fade_ms,
                    },
                );
                assert(r@ =~= self.revived(speed, ms));
                return r;
            }
        }
        self.play_original(ms, speed, fade_ms)
    }

    /// Music begins again at the beginning: what is stretched already is used as it is.
    pub open spec fn looped(self, speed: Single) -> Seq<Action> {
        let zero = Single { bits: 0 };
        match self.stretched {
            Some(path) => when(
                self.device,
                Music::from_stretched(path, zero, speed, self.fade_in()),
            ),
            None => self.original(zero, speed, self.fade_in()),
        }
    }

    pub fn loop_music(&self, speed: Single) -> (r: Vec<Action>)
        ensures
            r@ == self.looped(speed),
    {
        let zero: Single = Single { bits: 0 };
        let fade_ms: u32 = self.fade_in_ms();
        match &self.stretched {
            Some(path) => {
                let mut r: Vec<Action> = Vec::new();
                push_when(
                    &mut r,
                    self.device,
                    Action::Play {
                        path: path.clone(),
                        at: zero,
                        rate: Single { bits: ipc::ONE },
                        scale: speed,
                        fade_ms,
                    },
                );
                assert(r@ =~= self.looped(speed));
                r
            },
            None => self.play_original(zero, speed, fade_ms),
        }
    }

    /// A new speed of the session. Where the pitch is kept, the music is stretched in the
    /// background; else what was stretched gives way to the file itself, or the file goes on at
    /// the new rate.
    pub open spec fn at_speed(self, eff: Single) -> Music {
        if self.pitch_preserve && off_unity(eff) {
            self.stretching()
        } else if self.stretched is Some {
            self.unstretched()
        } else {
            self
        }
    }

    pub open spec fn speed_actions(self, t: Single, eff: Single) -> Seq<Action> {
        if self.pitch_preserve && off_unity(eff) {
            self.stretch_actions(eff, 150)
        } else if self.stretched is Some {
            self.removal() + self.original(t, eff, 150)
        } else {
            when(self.device, Action::SetRate { x: eff })
        }
    }

    pub fn change_speed(&mut self, t: Single, eff: Single) -> (r: Vec<Action>)
        ensures
            *final(self) == old(self).at_speed(eff),
            r@ == old(self).speed_actions(t, eff),
    {
        if self.pitch_preserve && is_off_unity(eff) {
            self.spawn_stretch(eff, 150)
        } else if self.stretched.is_some() {
            let mut r: Vec<Action> = self.drop_stretch();
            let mut p: Vec<Action> = self.play_original(t, eff, 150);
            r.append(&mut p);
            r
        } else {
            let mut r: Vec<Action> = Vec::new();
            push_when(&mut r, self.device, Action::SetRate { x: eff });
            assert(r@ =~= old(self).speed_actions(t, eff));
            r
        }
    }
}

fn clone_path(p: &Option<String>) -> (r: Option<String>)
    ensures
        r == *p,
{
    match p {
        Some(s) => Some(s.clone()),
        None => None,
    }
}

/// What was being stretched when something else was asked for is not taken when it comes.
pub proof fn law_outdated_stretch_is_dropped(m: Music)
    ensures
        m.unstretched().job != m.job,
        m.path is Some ==> m.stretching().job != m.job,
{
}

impl Hold {
    /// Whether the picture is wanted: not where nothing is ever rendered, and not where rendering
    /// ends while the desktop is covered and it is.
    pub open spec fn desired(self) -> bool {
        self.render_mode != RenderMode::Off && !(self.render_mode.drops() && self.covered)
    }

    pub fn render_desired(&self) -> (r: bool)
        ensures
            r == self.desired(),
    {
        !self.render_mode.pure() && !(self.render_mode.drops_render_on_cover() && self.covered)
    }
}

impl Wall {
    pub fn new(device: bool) -> (w: Wall)
        ensures
            w.clock == (Clock {
                t: Single { bits: 0 },
                playing: false,
                speed: Single { bits: ipc::ONE },
                wall_t: Single { bits: 0 },
                ticking: false,
                seek_target: None,
                jumped: false,
            }),
            w.look == Look::initial(),
            w.music == Music::initial(device),
            w.asked is None && w.asked_music is None,
            w.last_load is None,
            w.load_seq == 0,
            !w.track,
            w.stage == (Stage {
                window: false,
                pinned: false,
                surface: false,
                storyboard: false,
                scene: false,
                scene_has_bg: false,
                desk_w: 0,
                desk_h: 0,
            }),
            w.hold == (Hold {
                render_mode: RenderMode::AutoPause,
                covered: false,
                fs_paused: false,
                user_paused: false,
            }),
            w.tools.ffmpeg is None && w.tools.ffprobe is None,
            w.tools.upscale@ == "off"@ && w.tools.quality@ == "m"@,
            w.frames == (Frames { fps: 0, count: 0, measured: 0 }),
            w.limit.bits == SINGLE_MAX,
            w.hs_cursor == 0 && w.sb_cursor == 0,
            w.beatmap_hitsounds && w.looping && !w.ended_sent,
    {
        let zero: Single = Single { bits: 0 };
        Wall {
            clock: Clock {
                t: zero,
                playing: false,
                speed: Single { bits: ipc::ONE },
                wall_t: zero,
                ticking: false,
                seek_target: None,
                jumped: false,
            },
            look: Look::new(),
            music: Music::new(device),
            stage: Stage {
                window: false,
                pinned: false,
                surface: false,
                storyboard: false,
                scene: false,
                scene_has_bg: false,
                desk_w: 0,
                desk_h: 0,
            },
            hold: Hold {
                render_mode: RenderMode::AutoPause,
                covered: false,
                fs_paused: false,
                user_paused: false,
            },
            tools: Tools {
                ffmpeg: None,
                ffprobe: None,
                upscale: ipc::default_upscale(),
                quality: ipc::default_quality(),
            },
            frames: Frames { fps: 0, count: 0, measured: 0 },
            asked: None,
            asked_music: None,
            last_load: None,
            load_seq: 0,
            track: false,
            limit: Single { bits: SINGLE_MAX },
            hs_cursor: 0,
            sb_cursor: 0,
            beatmap_hitsounds: true,
            looping: true,
            ended_sent: false,
        }
    }

    /// The status, while a track is loaded.
    pub open spec fn status_of(self) -> Option<Event> {
        if self.track {
            Some(
                Event::Status {
                    t_ms: self.clock.t,
                    duration_ms: self.music.duration_ms,
                    playing: self.clock.playing,
                    speed: self.clock.speed,
                    user_speed: self.music.user_speed,
                    looping: self.looping,
                    fps: self.frames.measured,
                },
            )
        } else {
            None
        }
    }

    pub fn status(&self) -> (r: Option<Event>)
        ensures
            r == self.status_of(),
    {
        if self.track {
            Some(
                Event::Status {
                    t_ms: self.clock.t,
                    duration_ms: self.music.duration_ms,
                    playing: self.clock.playing,
                    speed: self.clock.speed,
                    user_speed: self.music.user_speed,
                    looping: self.looping,
                    fps: self.frames.measured,
                },
            )
        } else {
            None
        }
    }
}

// ---------- pausing and resuming ----------

impl Wall {
    /// The clock does not run.
    pub open spec fn stopped(self) -> Wall {
        Wall { clock: Clock { playing: false, ..self.clock }, ..self }
    }

    /// The clock runs, from now on.
    pub open spec fn running(self) -> Wall {
        Wall { clock: Clock { playing: true, ticking: false, ..self.clock }, ..self }
    }

    pub open spec fn holding(self, hold: Hold) -> Wall {
        Wall { hold, ..self }
    }

    /// The user pauses.
    pub fn pause(&mut self) -> (r: Vec<Action>)
        ensures
            *final(self) == old(self).stopped().holding(
                (Hold { user_paused: true, ..old(self).hold }),
            ),
            r@ == old(self).music.pause_actions(),
    {
        self.clock.playing = false;
        self.hold.user_paused = true;
        self.music.pauses()
    }

    /// The user resumes: only a loaded track goes on.
    pub open spec fn resumed(self) -> Wall {
        let free = self.holding(Hold { user_paused: false, ..self.hold });
        if self.track {
            free.running()
        } else {
            free
        }
    }

    pub fn resume(&mut self) -> (r: Vec<Action>)
        ensures
            *final(self) == old(self).resumed(),
            r@ == (if old(self).track {
                old(self).music.resume_actions()
            } else {
                Seq::empty()
            }),
    {
        self.hold.user_paused = false;
        if self.track {
            self.clock.playing = true;
            self.clock.ticking = false;
            self.music.resumes()
        } else {
            Vec::new()
        }
    }

    /// Playback pauses because the desktop is covered.
    pub fn cover_pause_playback(&mut self) -> (r: Vec<Action>)
        ensures
            *final(self) == old(self).stopped(),
            r@ == old(self).music.pause_actions(),
    {
        self.clock.playing = false;
        self.music.pauses()
    }

    /// The desktop is to be seen again: playback goes on, unless the user paused it.
    pub open spec fn uncovered(self) -> Wall {
        if self.hold.user_paused || !self.track {
            self
        } else {
            self.running()
        }
    }

    /// What was not rendered is built first, and then the music goes on.
    pub open spec fn uncover_actions(self) -> Seq<Action> {
        when(self.hold.render_mode.drops(), Action::SyncRender) + if self.hold.user_paused
            || !self.track {
            Seq::empty()
        } else {
            self.music.resume_actions()
        }
    }

    pub fn cover_resume_playback(&mut self) -> (r: Vec<Action>)
        ensures
            *final(self) == old(self).uncovered(),
            r@ == old(self).uncover_actions(),
    {
        let mut r: Vec<Action> = Vec::new();
        push_when(&mut r, self.hold.render_mode.drops_render_on_cover(), Action::SyncRender);
        if !self.hold.user_paused && self.track {
            let mut m: Vec<Action> = self.music.resumes();
            r.append(&mut m);
            self.clock.playing = true;
            self.clock.ticking = false;
        }
        assert(r@ =~= old(self).uncover_actions());
        r
    }

    /// Looks at the desktop lead to nothing: nothing is rendered, or always, or there is no track.
    pub open spec fn ignores_cover(self) -> bool {
        self.hold.render_mode == RenderMode::Off || self.hold.render_mode == RenderMode::Always
            || !self.track
    }

    /// What was seen of the desktop has lasted long enough.
    pub open spec fn lasted(covered: bool, dwell_ms: u64) -> bool {
        dwell_ms >= if covered {
            COVER_HOLD
        } else {
            UNCOVER_HOLD
        }
    }

    /// What a look at the desktop leads to: whether it is covered is taken up, and where that has
    /// lasted long enough, playback pauses or goes on as the mode has it.
    pub open spec fn polled(self, covered: bool, dwell_ms: u64) -> Wall {
        if self.ignores_cover() {
            self
        } else if covered != self.hold.covered {
            self.holding(Hold { covered, ..self.hold })
        } else if !Wall::lasted(covered, dwell_ms) || !self.hold.render_mode.pauses() {
            self
        } else if covered && !self.hold.fs_paused {
            self.stopped().holding(Hold { fs_paused: true, ..self.hold })
        } else if !covered && self.hold.fs_paused {
            self.holding(Hold { fs_paused: false, ..self.hold }).uncovered()
        } else {
            self
        }
    }

    /// What is to be done after a look at the desktop; rendering ends or begins behind the rest.
    pub open spec fn poll_actions(self, covered: bool, dwell_ms: u64) -> Seq<Action> {
        if self.ignores_cover() {
            Seq::empty()
        } else if covered != self.hold.covered {
            seq![Action::RestartCoverTimer]
        } else if !Wall::lasted(covered, dwell_ms) {
            Seq::empty()
        } else {
            (if self.hold.render_mode.pauses() && covered && !self.hold.fs_paused {
                self.music.pause_actions()
            } else if self.hold.render_mode.pauses() && !covered && self.hold.fs_paused {
                self.uncover_actions()
            } else {
                Seq::empty()
            }) + when(self.hold.render_mode.drops(), Action::SyncRender)
        }
    }

    /// A look at the desktop; `dwell_ms` is for how long it has been as it was last seen.
    pub fn poll_cover(&mut self, covered: bool, dwell_ms: u64) -> (r: Vec<Action>)
        ensures
            *final(self) == old(self).polled(covered, dwell_ms),
            r@ == old(self).poll_actions(covered, dwell_ms),
    {
        let mut r: Vec<Action> = Vec::new();
        if self.hold.render_mode.pure() || self.hold.render_mode == RenderMode::Always
            || !self.track {
            return r;
        }
        if covered != self.hold.covered {
            self.hold.covered = covered;
            r.push(Action::RestartCoverTimer);
            assert(r@ =~= seq![Action::RestartCoverTimer]);
            return r;
        }
        let hold_ms: u64 = if covered {
            COVER_HOLD
        } else {
            UNCOVER_HOLD
        };
        if dwell_ms < hold_ms {
            return r;
        }
        if self.hold.render_mode.pauses_playback_on_cover() {
            if covered && !self.hold.fs_paused {
                self.hold.fs_paused = true;
                r = self.cover_pause_playback();
            } else if !covered && self.hold.fs_paused {
                self.hold.fs_paused = false;
                r = self.cover_resume_playback();
            }
        }
        push_when(&mut r, self.hold.render_mode.drops_render_on_cover(), Action::SyncRender);
        assert(r@ =~= old(self).poll_actions(covered, dwell_ms));
        r
    }

    /// Leaving the modes that pause sets going what they paused.
    pub open spec fn released_by(self, m: RenderMode) -> bool {
        self.hold.fs_paused && !m.pauses() && !self.hold.covered
    }

    /// The state under a new mode of rendering.
    pub open spec fn remoded(self, m: RenderMode) -> Wall {
        if m == self.hold.render_mode {
            self
        } else if self.released_by(m) {
            self.holding(Hold { render_mode: m, fs_paused: false, ..self.hold }).uncovered()
        } else {
            self.holding(Hold { render_mode: m, ..self.hold })
        }
    }

    pub open spec fn remode_actions(self, m: RenderMode) -> Seq<Action> {
        if m == self.hold.render_mode {
            Seq::empty()
        } else if self.released_by(m) {
            self.holding(
                Hold { render_mode: m, fs_paused: false, ..self.hold },
            ).uncover_actions().push(Action::SyncRender)
        } else {
            seq![Action::SyncRender]
        }
    }

    pub fn set_render_mode(&mut self, mode: &str) -> (r: Vec<Action>)
        ensures
            *final(self) == old(self).remoded(RenderMode::named(mode@)),
            r@ == old(self).remode_actions(RenderMode::named(mode@)),
    {
        let m: RenderMode = RenderMode::parse(mode);
        let mut r: Vec<Action> = Vec::new();
        if m != self.hold.render_mode {
            self.hold.render_mode = m;
            if self.hold.fs_paused && !m.pauses_playback_on_cover() && !self.hold.covered {
                self.hold.fs_paused = false;
                r = self.cover_resume_playback();
            }
            r.push(Action::SyncRender);
        }
        assert(r@ =~= old(self).remode_actions(RenderMode::named(mode@)));
        r
    }
}

/// What the user paused, nothing but the user sets going again: neither the desktop being seen
/// again nor a change of mode.
pub proof fn law_user_pause_holds(w: Wall, covered: bool, dwell_ms: u64, m: RenderMode)
    requires
        w.hold.user_paused,
        !w.clock.playing,
    ensures
        !w.polled(covered, dwell_ms).clock.playing,
        w.polled(covered, dwell_ms).hold.user_paused,
        !w.remoded(m).clock.playing,
        w.remoded(m).hold.user_paused,
{
}

/// What was paused because the desktop is covered goes on once it was seen again for long enough.
pub proof fn law_covering_is_undone(w: Wall, dwell_ms: u64)
    requires
        w.track,
        w.hold.render_mode.pauses(),
        w.hold.fs_paused,
        !w.hold.user_paused,
        !w.hold.covered,
        dwell_ms >= UNCOVER_HOLD,
    ensures
        w.polled(false, dwell_ms).clock.playing,
        !w.polled(false, dwell_ms).hold.fs_paused,
{
}

/// A desktop that is covered, or seen, for a moment changes nothing of the playback.
pub proof fn law_moments_do_not_pause(w: Wall, covered: bool, dwell_ms: u64)
    requires
        covered != w.hold.covered || !Wall::lasted(covered, dwell_ms),
    ensures
        w.polled(covered, dwell_ms).clock == w.clock,
        w.polled(covered, dwell_ms).hold.fs_paused == w.hold.fs_paused,
{
}

// ---------- what the modes and the mods mean ----------

/// Each mode has its name; every other name is that of pausing automatically.
pub proof fn law_modes_have_names(s: Seq<char>)
    ensures
        RenderMode::named(s) == RenderMode::Always <==> s == "always"@,
        RenderMode::named(s) == RenderMode::FsPause <==> s == "fs_pause"@,
        RenderMode::named(s) == RenderMode::FsSleep <==> s == "fs_sleep"@,
        RenderMode::named(s) == RenderMode::Off <==> s == "off"@,
        s == "autopause"@ ==> RenderMode::named(s) == RenderMode::AutoPause,
{
    reveal_strlit("always");
    reveal_strlit("fs_pause");
    reveal_strlit("fs_sleep");
    reveal_strlit("off");
    reveal_strlit("autopause");
    assert("fs_pause"@[3] != "fs_sleep"@[3]);
    assert("off"@.len() == 3);
    assert("always"@.len() == 6);
    assert("fs_pause"@.len() == 8);
    assert("fs_sleep"@.len() == 8);
    assert("autopause"@.len() == 9);
}

/// A covered desktop ends rendering where it pauses by itself or sleeps, and pauses playback where
/// it is to pause or to sleep; the picture is wanted but for that, and never where it is off.
pub proof fn law_modes_say_what_covering_does(h: Hold)
    ensures
        RenderMode::AutoPause.drops() && RenderMode::FsSleep.drops(),
        !RenderMode::Always.drops() && !RenderMode::FsPause.drops() && !RenderMode::Off.drops(),
        RenderMode::FsPause.pauses() && RenderMode::FsSleep.pauses(),
        !RenderMode::Always.pauses() && !RenderMode::AutoPause.pauses() && !RenderMode::Off.pauses(),
        h.render_mode == RenderMode::Off ==> !h.desired(),
        h.render_mode == RenderMode::Always || h.render_mode == RenderMode::FsPause ==> h.desired(),
        h.render_mode == RenderMode::AutoPause || h.render_mode == RenderMode::FsSleep ==> (
        h.desired() <==> !h.covered),
{
}

/// Double time and nightcore play half again as fast, half time at three quarters, and everything
/// else as it is.
pub proof fn law_mods_set_the_rate(mods: u32)
    ensures
        mods & 64 != 0 || mods & 512 != 0 ==> rate_of(mods).bits == 0x3FC0_0000,
        mods & 64 == 0 && mods & 512 == 0 && mods & 256 != 0 ==> rate_of(mods).bits == 0x3F40_0000,
        mods & 64 == 0 && mods & 512 == 0 && mods & 256 == 0 ==> rate_of(mods).bits == 0x3F80_0000,
{
    assert(mods & (64u32 | 512u32) != 0 <==> mods & 64 != 0 || mods & 512 != 0) by (bit_vector);
}

/// A speed is away from one if it is a number more than a thousandth off.
pub proof fn law_off_unity_is_a_thousandth(x: Single)
    ensures
        off_unity(x) <==> !(0x3F7F_BE77 <= x.bits <= 0x3F80_20C4) && !x.nan(),
{
}

/// What is kept of a command to load is each thing that it says of playback.
pub proof fn law_params_hold_what_the_load_says(l: Load)
    ensures
        ({
            let p = params_of(l);
            &&& p.path == l.path && p.diff == l.diff && p.speed == l.speed && p.start == l.start
            &&& p.loop_playback == l.loop_playback && p.manifest == l.manifest
            &&& p.skin == l.skin && p.force_colours == l.force_colours && p.hidden == l.hidden
            &&& p.mods == l.mods && p.storyboard == l.storyboard && p.video == l.video
            &&& p.beatmap_hitsounds == l.beatmap_hitsounds
            &&& p.upscale == l.upscale && p.monitor == l.monitor
            &&& p.upscale_quality == l.upscale_quality
        }),
{
}

// ---------- how far the times have come ----------

/// So many times have passed as there are before the first that is not at or before the time.
pub proof fn law_passed_ends_at_the_first_ahead(times: Seq<Double>, t: Double, i: int)
    ensures
        0 <= passed(times, t, false) <= times.len(),
        0 <= i < passed(times, t, false) ==> times[i].at_most(t),
        passed(times, t, false) < times.len() ==> !times[passed(times, t, false)].at_most(t),
        0 <= passed(times, t, true) <= times.len(),
        0 <= i < passed(times, t, true) ==> !t.below(times[i]),
        passed(times, t, true) < times.len() ==> t.below(times[passed(times, t, true)]),
    decreases times.len(),
{
    if times.len() > 0 {
        law_passed_ends_at_the_first_ahead(times.skip(1), t, i - 1);
    }
}

/// From one place on, everything that does not lie ahead is due, up to the first that does.
pub proof fn law_due_ends_at_the_first_ahead(times: Seq<Double>, from: int, t: Double, i: int)
    requires
        0 <= from <= times.len(),
    ensures
        from <= due_from(times, from, t) <= times.len(),
        from <= i < due_from(times, from, t) ==> !t.below(times[i]),
        due_from(times, from, t) < times.len() ==> t.below(times[due_from(times, from, t)]),
{
    let rest = times.skip(from);
    law_passed_ends_at_the_first_ahead(rest, t, i - from);
    if from < times.len() {
        let n = passed(rest, t, true);
        if n < rest.len() {
            assert(rest[n] == times[from + n]);
        }
        if from <= i < from + n {
            assert(rest[i - from] == times[i]);
        }
    }
}

// ---------- what is done with the music ----------

/// With fading music takes half a second to fall silent when it pauses and a quarter to come back;
/// without it nothing fades. The loops go with it, and without a device only they do.
pub proof fn law_pausing_fades(m: Music)
    ensures
        m.device && m.fade ==> m.pause_actions() == seq![
            Action::Pause { fade_ms: 500 },
            Action::PauseLoops { fade_ms: 500 },
        ] && m.resume_actions() == seq![
            Action::Resume { fade_ms: 250 },
            Action::ResumeLoops { fade_ms: 250 },
        ],
        m.device && !m.fade ==> m.pause_actions() == seq![
            Action::Pause { fade_ms: 0 },
            Action::PauseLoops { fade_ms: 0 },
        ] && m.resume_actions() == seq![
            Action::Resume { fade_ms: 0 },
            Action::ResumeLoops { fade_ms: 0 },
        ],
        !m.device && m.fade ==> m.pause_actions() == seq![Action::PauseLoops { fade_ms: 500 }]
            && m.resume_actions() == seq![Action::ResumeLoops { fade_ms: 250 }],
        !m.device && !m.fade ==> m.pause_actions() == seq![Action::PauseLoops { fade_ms: 0 }]
            && m.resume_actions() == seq![Action::ResumeLoops { fade_ms: 0 }],
{
    assert(m.device && m.fade ==> m.pause_actions() =~= seq![
        Action::Pause { fade_ms: 500 },
        Action::PauseLoops { fade_ms: 500 },
    ] && m.resume_actions() =~= seq![
        Action::Resume { fade_ms: 250 },
        Action::ResumeLoops { fade_ms: 250 },
    ]);
    assert(m.device && !m.fade ==> m.pause_actions() =~= seq![
        Action::Pause { fade_ms: 0 },
        Action::PauseLoops { fade_ms: 0 },
    ] && m.resume_actions() =~= seq![
        Action::Resume { fade_ms: 0 },
        Action::ResumeLoops { fade_ms: 0 },
    ]);
    assert(!m.device && m.fade ==> m.pause_actions() =~= seq![Action::PauseLoops { fade_ms: 500 }]
        && m.resume_actions() =~= seq![Action::ResumeLoops { fade_ms: 250 }]);
    assert(!m.device && !m.fade ==> m.pause_actions() =~= seq![Action::PauseLoops { fade_ms: 0 }]
        && m.resume_actions() =~= seq![Action::ResumeLoops { fade_ms: 0 }]);
}

/// Dropping what was stretched forgets the file and removes it, and whatever is being stretched is
/// not awaited and not taken any more; nothing else of the music changes.
pub proof fn law_dropped_stretch_is_forgotten(m: Music)
    ensures
        m.unstretched().stretched is None,
        !m.unstretched().pending,
        m.unstretched().job != m.job,
        m.unstretched() == (Music { stretched: None, pending: false, job: m.unstretched().job, ..m }),
        m.stretched is None ==> m.removal().len() == 0,
        m.stretched matches Some(path) ==> m.removal() == seq![Action::RemoveFile { path }],
{
}

/// Music is stretched from its file, to the speed that is asked for, under a number that none had
/// before; where there is no file nothing is.
pub proof fn law_stretching_starts_from_the_file(m: Music, speed: Single, fade_ms: u32)
    ensures
        m.path matches Some(path) ==> m.stretching().job != m.job && m.stretch_actions(speed, fade_ms)
            == seq![Action::SpawnStretch { job: m.stretching().job, path, speed, fade_ms }],
        m.path is None ==> m.stretching() == m && m.stretch_actions(speed, fade_ms).len() == 0,
        m.stretching() == (Music { job: m.stretching().job, ..m }),
{
}

/// The file itself is played from the place and at the rate that are asked for, its times being
/// those of the music; without a file or a device nothing is.
pub proof fn law_original_is_played_as_asked(m: Music, at: Single, rate: Single, fade_ms: u32)
    ensures
        m.device && m.path is Some ==> m.original(at, rate, fade_ms) == seq![
            Action::Play {
                path: m.path->0,
                at,
                rate,
                scale: Single { bits: 0x3F80_0000 },
                fade_ms,
            },
        ],
        !m.device || m.path is None ==> m.original(at, rate, fade_ms).len() == 0,
{
}

/// Music that has ended plays again from where a seek leads to: stretched music at its own rate,
/// where the pitch is kept and the speed is not one, and the file at the speed otherwise. Nothing is
/// played while stretched music is awaited, or without a device.
pub proof fn law_ended_music_plays_from_the_target(m: Music, speed: Single, ms: Single)
    ensures
        m.pending || !m.device ==> m.revived(speed, ms).len() == 0,
        !m.pending && m.device && m.pitch_preserve && off_unity(speed) && m.stretched is Some
            ==> m.revived(speed, ms) == seq![
            Action::Play {
                path: m.stretched->0,
                at: ms,
                rate: Single { bits: 0x3F80_0000 },
                scale: speed,
                fade_ms: if m.fade {
                    250
                } else {
                    0
                },
            },
        ],
        !m.pending && m.device && !(m.pitch_preserve && off_unity(speed) && m.stretched is Some)
            && m.path is Some ==> m.revived(speed, ms) == seq![
            Action::Play {
                path: m.path->0,
                at: ms,
                rate: speed,
                scale: Single { bits: 0x3F80_0000 },
                fade_ms: if m.fade {
                    250
                } else {
                    0
                },
            },
        ],
{
}

/// Music that loops begins at its beginning: what was stretched as it is, else the file at the
/// speed.
pub proof fn law_looping_music_begins_at_zero(m: Music, speed: Single)
    ensures
        m.device && m.stretched is Some ==> m.looped(speed) == seq![
            Action::Play {
                path: m.stretched->0,
                at: Single { bits: 0 },
                rate: Single { bits: 0x3F80_0000 },
                scale: speed,
                fade_ms: if m.fade {
                    250
                } else {
                    0
                },
            },
        ],
        m.device && m.stretched is None && m.path is Some ==> m.looped(speed) == seq![
            Action::Play {
                path: m.path->0,
                at: Single { bits: 0 },
                rate: speed,
                scale: Single { bits: 0x3F80_0000 },
                fade_ms: if m.fade {
                    250
                } else {
                    0
                },
            },
        ],
        !m.device ==> m.looped(speed).len() == 0,
{
}

/// A new speed is heard: where the pitch is kept and the speed is not one, the music is stretched to
/// it; else stretched music gives way to the file, from where the clock stands, or the file goes on
/// at the new rate.
pub proof fn law_new_speed_is_heard(m: Music, t: Single, eff: Single)
    ensures
        m.pitch_preserve && off_unity(eff) && m.path is Some ==> m.speed_actions(t, eff) == seq![
            Action::SpawnStretch {
                job: m.at_speed(eff).job,
                path: m.path->0,
                speed: eff,
                fade_ms: 150,
            },
        ] && m.at_speed(eff).job != m.job,
        !(m.pitch_preserve && off_unity(eff)) && m.stretched is None && m.device ==> m.speed_actions(
            t,
            eff,
        ) == seq![Action::SetRate { x: eff }] && m.at_speed(eff) == m,
        !(m.pitch_preserve && off_unity(eff)) && m.stretched is Some && m.device && m.path is Some
            ==> m.at_speed(eff).stretched is None && m.speed_actions(t, eff) == seq![
            Action::RemoveFile { path: m.stretched->0 },
            Action::Play {
                path: m.path->0,
                at: t,
                rate: eff,
                scale: Single { bits: 0x3F80_0000 },
                fade_ms: 150,
            },
        ],
{
    assert(!(m.pitch_preserve && off_unity(eff)) && m.stretched is Some && m.device
        && m.path is Some ==> m.speed_actions(t, eff) =~= seq![
        Action::RemoveFile { path: m.stretched->0 },
        Action::Play {
            path: m.path->0,
            at: t,
            rate: eff,
            scale: Single { bits: 0x3F80_0000 },
            fade_ms: 150,
        },
    ]);
}

// ---------- pausing and resuming ----------

/// The user's resuming sets a loaded track going, from the next tick on, and takes the pause back;
/// without a track it only takes the pause back. Nothing else changes.
pub proof fn law_resuming_sets_going(w: Wall)
    ensures
        w.track ==> w.resumed().clock.playing && !w.resumed().clock.ticking,
        !w.track ==> w.resumed().clock == w.clock,
        !w.resumed().hold.user_paused,
        w.resumed() == (Wall {
            clock: w.resumed().clock,
            hold: Hold { user_paused: false, ..w.hold },
            ..w
        }),
        w.resumed().clock.t == w.clock.t,
        !w.stopped().clock.playing,
        w.stopped() == (Wall { clock: Clock { playing: false, ..w.clock }, ..w }),
{
}

/// A desktop that has been covered for a second pauses playback in the modes that pause, and one
/// that has been seen for half a second sets it going again; what is rendered follows in the modes
/// that end rendering. A change is only taken note of.
pub proof fn law_covering_pauses_and_uncovering_resumes(w: Wall, dwell_ms: u64)
    requires
        w.track,
        w.hold.render_mode == RenderMode::FsPause || w.hold.render_mode == RenderMode::FsSleep,
    ensures
        w.hold.covered && !w.hold.fs_paused && dwell_ms >= 1000 ==> {
            &&& !w.polled(true, dwell_ms).clock.playing
            &&& w.polled(true, dwell_ms).hold.fs_paused
            &&& w.poll_actions(true, dwell_ms) == w.music.pause_actions() + when(
                w.hold.render_mode == RenderMode::FsSleep,
                Action::SyncRender,
            )
        },
        w.hold.covered && dwell_ms < 1000 ==> w.polled(true, dwell_ms) == w && w.poll_actions(
            true,
            dwell_ms,
        ).len() == 0,
        !w.hold.covered && w.hold.fs_paused && !w.hold.user_paused && dwell_ms >= 500 ==> {
            &&& w.polled(false, dwell_ms).clock.playing
            &&& !w.polled(false, dwell_ms).hold.fs_paused
            &&& w.hold.render_mode == RenderMode::FsPause ==> w.poll_actions(false, dwell_ms)
                == w.music.resume_actions()
        },
        !w.hold.covered && dwell_ms < 500 ==> w.polled(false, dwell_ms) == w,
        !w.hold.covered ==> w.polled(true, dwell_ms) == (Wall {
            hold: Hold { covered: true, ..w.hold },
            ..w
        }) && w.poll_actions(true, dwell_ms) == seq![Action::RestartCoverTimer],
        w.hold.covered ==> w.polled(false, dwell_ms) == (Wall {
            hold: Hold { covered: false, ..w.hold },
            ..w
        }) && w.poll_actions(false, dwell_ms) == seq![Action::RestartCoverTimer],
{
    assert(w.hold.render_mode == RenderMode::FsPause && !w.hold.covered && w.hold.fs_paused
        && !w.hold.user_paused && dwell_ms >= 500 ==> w.poll_actions(false, dwell_ms)
        =~= w.music.resume_actions());
}

/// Where rendering ends by itself while the desktop is covered, the music goes on: only the picture
/// is looked after. Where rendering is always on or always off, or nothing is loaded, nothing is
/// done at all.
pub proof fn law_automatic_pausing_leaves_the_music(w: Wall, covered: bool, dwell_ms: u64)
    ensures
        w.hold.render_mode == RenderMode::AutoPause ==> w.polled(covered, dwell_ms).clock == w.clock,
        w.hold.render_mode == RenderMode::AutoPause && w.track && covered == w.hold.covered && dwell_ms
            >= 1000 ==> w.poll_actions(covered, dwell_ms) == seq![Action::SyncRender],
        w.hold.render_mode == RenderMode::Always || w.hold.render_mode == RenderMode::Off || !w.track
            ==> w.polled(covered, dwell_ms) == w && w.poll_actions(covered, dwell_ms).len() == 0,
{
    assert(w.hold.render_mode == RenderMode::AutoPause && w.track && covered == w.hold.covered
        && dwell_ms >= 1000 ==> w.poll_actions(covered, dwell_ms) =~= seq![Action::SyncRender]);
}

/// A new mode is taken up, the picture follows, and what only the old mode had paused goes on.
pub proof fn law_new_mode_is_taken_up(w: Wall, m: RenderMode)
    ensures
        w.remoded(m).hold.render_mode == m,
        m == w.hold.render_mode ==> w.remoded(m) == w && w.remode_actions(m).len() == 0,
        m != w.hold.render_mode ==> w.remode_actions(m).len() > 0 && w.remode_actions(m).last()
            == Action::SyncRender,
        w.hold.fs_paused && !w.hold.covered && w.track && !w.hold.user_paused && m
            != w.hold.render_mode && (m == RenderMode::Always || m == RenderMode::AutoPause || m
            == RenderMode::Off) ==> w.remoded(m).clock.playing && !w.remoded(m).hold.fs_paused,
        !w.hold.fs_paused || w.hold.covered ==> w.remoded(m).clock == w.clock,
        w.remoded(m).music == w.music && w.remoded(m).stage == w.stage && w.remoded(m).look == w.look,
{
}

/// The status tells of a loaded track where it is, how long it is, whether it plays and how fast.
pub proof fn law_status_tells_what_plays(w: Wall)
    ensures
        w.track <==> w.status_of() is Some,
        w.status_of() matches Some(Event::Status {
            t_ms,
            duration_ms,
            playing,
            speed,
            user_speed,
            looping,
            fps,
        }) ==> t_ms == w.clock.t && duration_ms == w.music.duration_ms && playing == w.clock.playing
            && speed == w.clock.speed && user_speed == w.music.user_speed && looping == w.looping && fps
            == w.frames.measured,
        w.status_of() is Some ==> w.status_of()->0 is Status,
{
}

/// Of what is stretched only the last that was asked for is taken, and none once it was dropped.
pub proof fn law_only_the_last_stretch_is_taken(m: Music, speed: Single, fade_ms: u32)
    ensures
        m.path is Some ==> !m.stretching().takes(m.job),
        m.stretch_actions(speed, fade_ms).len() > 0 ==> (m.stretch_actions(speed, fade_ms)[0] matches Action::SpawnStretch {
            job,
            ..
        } && m.stretching().takes(job)),
        !m.unstretched().takes(m.job),
{
}

/// At first there is no music; it would fade, play at its own speed and keep its pitch.
pub proof fn law_music_at_first(device: bool)
    ensures
        Music::initial(device).device == device,
        Music::initial(device).path is None && Music::initial(device).stretched is None,
        Music::initial(device).fade && Music::initial(device).pitch_preserve,
        !Music::initial(device).pending,
        Music::initial(device).user_speed.bits == 0x3F80_0000,
        Music::initial(device).track_rate.bits == 0x3F80_0000,
        Music::initial(device).offset_ms.bits == 0 && Music::initial(device).duration_ms.bits == 0,
{
}

/// Seeing the desktop again sets a loaded track going, with its picture first where that was taken
/// down; not where the user paused it.
pub proof fn law_uncovering_goes_on(w: Wall)
    ensures
        w.track && !w.hold.user_paused ==> w.uncovered().clock.playing
            && !w.uncovered().clock.ticking && w.uncovered().clock.t == w.clock.t,
        w.hold.user_paused || !w.track ==> w.uncovered() == w,
        w.uncovered() == (Wall { clock: w.uncovered().clock, ..w }),
        w.track && !w.hold.user_paused && (w.hold.render_mode == RenderMode::FsSleep
            || w.hold.render_mode == RenderMode::AutoPause) ==> w.uncover_actions() == seq![
            Action::SyncRender,
        ] + w.music.resume_actions(),
        w.track && !w.hold.user_paused && w.hold.render_mode == RenderMode::FsPause
            ==> w.uncover_actions() == w.music.resume_actions(),
        w.hold.user_paused && w.hold.render_mode == RenderMode::FsPause ==> w.uncover_actions().len()
            == 0,
{
    assert(w.track && !w.hold.user_paused && w.hold.render_mode == RenderMode::FsPause
        ==> w.uncover_actions() =~= w.music.resume_actions());
}

/// What the user paused stays paused, however the desktop is covered and whatever mode is chosen,
/// and nothing is played for it.
pub proof fn law_users_pause_outlasts_covering(
    w: Wall,
    covered: bool,
    dwell_ms: u64,
    m: RenderMode,
    k: int,
)
    requires
        w.hold.user_paused,
        !w.clock.playing,
    ensures
        !w.polled(covered, dwell_ms).clock.playing,
        w.polled(covered, dwell_ms).hold.user_paused,
        !w.remoded(m).clock.playing,
        w.remoded(m).hold.user_paused,
        0 <= k < w.poll_actions(covered, dwell_ms).len() ==> !(w.poll_actions(covered, dwell_ms)[k] is Resume)
            && !(w.poll_actions(covered, dwell_ms)[k] is ResumeLoops),
        0 <= k < w.remode_actions(m).len() ==> !(w.remode_actions(m)[k] is Resume) && !(
        w.remode_actions(m)[k] is ResumeLoops),
{
}

} // verus!
