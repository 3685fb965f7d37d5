//! What each command does.
use vstd::prelude::*;

use crate::audio::Levels;
use crate::ieee::Single;
use crate::ipc::{Command, Event, Load};
use crate::scene;
use crate::scene::Look;
use crate::wall;
use crate::wall::{
    Action, Asked, Frames, LoadParams, Music, RenderMode, SceneChange, Tools, Wall,
};

verus! {

fn params(l: Load) -> (r: LoadParams)
    ensures
        r == wall::params_of(l),
{
    LoadParams {
        path: l.path,
        diff: l.diff,
        speed: l.speed,
        start: l.start,
        loop_playback: l.loop_playback,
        manifest: l.manifest,
        skin: l.skin,
        force_colours: l.force_colours,
        hidden: l.hidden,
        mods: l.mods,
        storyboard: l.storyboard,
        video: l.video,
        beatmap_hitsounds: l.beatmap_hitsounds,
        upscale: l.upscale,
        monitor: l.monitor,
        upscale_quality: l.upscale_quality,
    }
}

/// A change of the look by a command.
pub open spec fn restyled(look: Look, cmd: Command) -> Look {
    match cmd {
        Command::SetHud { on } => Look { hud_visible: on, ..look },
        Command::SetPp { on } => Look { pp_display: on, ..look },
        Command::SetHitAnimations { on } => Look { hit_animations: on, ..look },
        Command::SetBreakLighten { on } => Look { break_lighten: on, ..look },
        Command::SetCursor { on } => Look { cursor_on: on, ..look },
        Command::SetCursorSize { x } => Look { cursor_size: scene::cursor_within(x), ..look },
        Command::SetGameplayHidden { on } => Look { gameplay_hidden: on, ..look },
        Command::SetBgOpacity { v } => Look { bg_opacity: scene::unit(v), ..look },
        Command::SetHidden { on } => Look { hd_on: on || look.track_hd, ..look },
        Command::SetVideo { on } => Look { video_enabled: on, ..look },
        _ => look,
    }
}

/// What a change of the look asks of what is shown.
pub open spec fn restyle_actions(
    look: Look,
    scene: bool,
    bg: bool,
    storyboard: bool,
    cmd: Command,
) -> Seq<Action> {
    match cmd {
        Command::SetHud { on } => wall::when(
            scene,
            Action::ChangeScene(SceneChange::Hud(on)),
        ),
        Command::SetPp { on } => wall::when(
            scene,
            Action::ChangeScene(SceneChange::Pp(on)),
        ),
        Command::SetHitAnimations { on } => wall::when(
            scene,
            Action::ChangeScene(SceneChange::HitAnimations(on)),
        ),
        Command::SetBreakLighten { on } => wall::when(
            scene,
            Action::ChangeScene(SceneChange::BreakLighten(on)),
        ),
        Command::SetCursor { on } => wall::when(
            scene,
            Action::ChangeScene(SceneChange::Cursor(on)),
        ),
        Command::SetCursorSize { x } => wall::when(
            scene,
            Action::ChangeScene(SceneChange::CursorSize(scene::cursor_within(x))),
        ),
        Command::SetGameplayHidden { on } => wall::when(
            scene,
            Action::ChangeScene(SceneChange::GameplayHidden(on)),
        ),
        Command::SetBgOpacity { v } => wall::when(
            storyboard,
            Action::Dim { v: scene::unit(v) },
        ) + wall::when(
            scene && bg,
            Action::ChangeScene(SceneChange::BgOpacity(scene::unit(v))),
        ),
        Command::SetHidden { on } => wall::when(
            scene,
            Action::ChangeScene(SceneChange::Hidden(on || look.track_hd)),
        ),
        Command::SetVideo { on } => wall::when(storyboard, Action::EnableVideo { on }),
        _ => Seq::empty(),
    }
}

/// The command changes the look.
pub open spec fn restyles(cmd: Command) -> bool {
    cmd is SetHud || cmd is SetPp || cmd is SetHitAnimations || cmd is SetBreakLighten
        || cmd is SetCursor || cmd is SetCursorSize || cmd is SetGameplayHidden
        || cmd is SetBgOpacity || cmd is SetHidden || cmd is SetVideo
}

fn restyle(look: &mut Look, scene: bool, bg: bool, storyboard: bool, cmd: &Command) -> (r: Vec<
    Action,
>)
    ensures
        *final(look) == restyled(*old(look), *cmd),
        r@ == restyle_actions(*old(look), scene, bg, storyboard, *cmd),
{
    let mut r: Vec<Action> = Vec::new();
    match cmd {
        Command::SetHud { on } => {
            look.hud_visible = *on;
            wall::push_when(&mut r, scene, Action::ChangeScene(SceneChange::Hud(*on)));
        },
        Command::SetPp { on } => {
            look.pp_display = *on;
            wall::push_when(&mut r, scene, Action::ChangeScene(SceneChange::Pp(*on)));
        },
        Command::SetHitAnimations { on } => {
            look.hit_animations = *on;
            wall::push_when(&mut r, scene, Action::ChangeScene(SceneChange::HitAnimations(*on)));
        },
        Command::SetBreakLighten { on } => {
            look.break_lighten = *on;
            wall::push_when(&mut r, scene, Action::ChangeScene(SceneChange::BreakLighten(*on)));
        },
        Command::SetCursor { on } => {
            look.cursor_on = *on;
            wall::push_when(&mut r, scene, Action::ChangeScene(SceneChange::Cursor(*on)));
        },
        Command::SetCursorSize { x } => {
            let size: Single = scene::clamp_cursor(*x);
            look.cursor_size = size;
            wall::push_when(&mut r, scene, Action::ChangeScene(SceneChange::CursorSize(size)));
        },
        Command::SetGameplayHidden { on } => {
            look.gameplay_hidden = *on;
            wall::push_when(&mut r, scene, Action::ChangeScene(SceneChange::GameplayHidden(*on)));
        },
        Command::SetBgOpacity { v } => {
            let light: Single = scene::clamp_unit(*v);
            look.bg_opacity = light;
            wall::push_when(&mut r, storyboard, Action::Dim { v: light });
            wall::push_when(
                &mut r,
                scene && bg,
                Action::ChangeScene(SceneChange::BgOpacity(light)),
            );
        },
        Command::SetHidden { on } => {
            let hd: bool = *on || look.track_hd;
            look.hd_on = hd;
            wall::push_when(&mut r, scene, Action::ChangeScene(SceneChange::Hidden(hd)));
        },
        Command::SetVideo { on } => {
            look.video_enabled = *on;
            wall::push_when(&mut r, storyboard, Action::EnableVideo { on: *on });
        },
        _ => {},
    }
    r
}

/// A change of how the music is played by a command; without a device there are no levels to set.
pub open spec fn tuned(music: Music, cmd: Command) -> Music {
    match cmd {
        Command::SetSpeed { x } => Music { user_speed: crate::audio::rate_within(x), ..music },
        Command::SetVolume { v } => music.with_levels(
            Levels { bgm: scene::unit(v), ..music.levels },
        ),
        Command::SetMaster { v } => music.with_levels(
            Levels { master: scene::unit(v), ..music.levels },
        ),
        Command::SetHitsVolume { v } => music.with_levels(
            Levels { hits: scene::unit(v), ..music.levels },
        ),
        Command::SetOffset { ms } => Music { offset_ms: ms, ..music },
        Command::SetFade { on } => Music { fade: on, ..music },
        _ => music,
    }
}

/// What a change of how the music is played asks for.
pub open spec fn tune_actions(device: bool, cmd: Command) -> Seq<Action> {
    match cmd {
        Command::SetSpeed { x } => seq![Action::Retime],
        Command::SetVolume { v } => wall::when(device, Action::ApplyLevels),
        Command::SetMaster { v } => wall::when(device, Action::ApplyLevels),
        Command::SetOffset { ms } => seq![Action::Realign],
        _ => Seq::empty(),
    }
}

fn tune(music: &mut Music, cmd: &Command) -> (r: Vec<Action>)
    ensures
        *final(music) == tuned(*old(music), *cmd),
        r@ == tune_actions(old(music).device, *cmd),
{
    let mut r: Vec<Action> = Vec::new();
    let device: bool = music.device;
    match cmd {
        Command::SetSpeed { x } => {
            music.user_speed = crate::audio::clamp_rate(*x);
            r.push(Action::Retime);
        },
        Command::SetVolume { v } => {
            if device {
                music.levels.set_volume(*v);
            }
            wall::push_when(&mut r, device, Action::ApplyLevels);
        },
        Command::SetMaster { v } => {
            if device {
                music.levels.set_master(*v);
            }
            wall::push_when(&mut r, device, Action::ApplyLevels);
        },
        Command::SetHitsVolume { v } => {
            if device {
                music.levels.set_hits_volume(*v);
            }
        },
        Command::SetOffset { ms } => {
            music.offset_ms = *ms;
            r.push(Action::Realign);
        },
        Command::SetFade { on } => {
            music.fade = *on;
        },
        _ => {},
    }
    r
}

impl Music {
    /// The music with other levels, where there is a device that has them.
    pub open spec fn with_levels(self, levels: Levels) -> Music {
        if self.device {
            Music { levels, ..self }
        } else {
            self
        }
    }
}

/// What a command asks for without touching the state.
pub open spec fn relayed(load_seq: u64, track: bool, cmd: Command) -> Seq<Action> {
    match cmd {
        Command::Probe { path } => seq![Action::Probe { path }],
        Command::Seek { ms } => seq![Action::SeekTo { ms }],
        Command::Status => seq![Action::Status],
        Command::SetSkin { skin, force_colours } => seq![
            Action::ReswapSkin { skin, force_colours },
        ],
        Command::SetLog { on } => seq![Action::SetLog { on }],
        Command::PpReady { seq, computed } => wall::when(
            seq == load_seq && computed && track,
            Action::InjectPp,
        ),
        _ => Seq::empty(),
    }
}

fn relay(load_seq: u64, track: bool, cmd: Command) -> (r: Vec<Action>)
    ensures
        r@ == relayed(load_seq, track, cmd),
{
    let mut r: Vec<Action> = Vec::new();
    match cmd {
        Command::Probe { path } => {
            r.push(Action::Probe { path });
        },
        Command::Seek { ms } => {
            r.push(Action::SeekTo { ms });
        },
        Command::Status => {
            r.push(Action::Status);
        },
        Command::SetSkin { skin, force_colours } => {
            r.push(Action::ReswapSkin { skin, force_colours });
        },
        Command::SetLog { on } => {
            r.push(Action::SetLog { on });
        },
        Command::PpReady { seq, computed } => {
            wall::push_when(
                &mut r,
                seq == load_seq && computed && track,
                Action::InjectPp,
            );
        },
        _ => {},
    }
    r
}

/// The command starts, stops or replaces what is played.
pub open spec fn steers(cmd: Command) -> bool {
    cmd is Load || cmd is Reload || cmd is AudioReady || cmd is Unload || cmd is Pause
        || cmd is Resume || cmd is SetRenderMode || cmd is Quit
}

/// The command says how the music is played.
pub open spec fn tunes(cmd: Command) -> bool {
    cmd is SetSpeed || cmd is SetVolume || cmd is SetMaster || cmd is SetHitsVolume
        || cmd is SetOffset || cmd is SetFade
}

impl Wall {
    /// The state after a command that starts, stops or replaces what is played.
    #[verifier::opaque]
    pub open spec fn steered(self, cmd: Command) -> Wall {
        match cmd {
            Command::Load(l) => self.begun(Asked::New(wall::params_of(l))),
            Command::Reload => if self.last_load is Some {
                self.begun(Asked::Again)
            } else {
                self
            },
            Command::AudioReady { speed, file, fade_ms } => match file {
                Some(path) => self.with_stretched(path),
                None => self.without_stretched(),
            },
            Command::Unload => self.destroyed(),
            Command::Pause => self.stopped().holding(
                wall::Hold { user_paused: true, ..self.hold },
            ),
            Command::Resume => self.resumed(),
            Command::SetRenderMode { mode } => self.remoded(RenderMode::named(mode@)),
            Command::Quit => Wall { music: self.music.unstretched(), ..self },
            _ => self,
        }
    }

    /// What such a command asks for.
    #[verifier::opaque]
    pub open spec fn steer_actions(self, cmd: Command) -> Seq<Action> {
        match cmd {
            Command::Load(l) => seq![Action::Load],
            Command::Reload => if self.last_load is Some {
                seq![Action::Load]
            } else {
                Seq::empty()
            },
            Command::AudioReady { speed, file, fade_ms } => match file {
                Some(path) => self.stretched_actions(speed, path, fade_ms),
                None => self.music.original(self.clock.t, speed, 0),
            },
            Command::Unload => self.destroy_actions().push(Action::Send(Event::Unloaded)),
            Command::Pause => self.music.pause_actions(),
            Command::Resume => if self.track {
                self.music.resume_actions()
            } else {
                Seq::empty()
            },
            Command::SetRenderMode { mode } => self.remode_actions(RenderMode::named(mode@)),
            Command::Quit => self.music.removal() + seq![Action::Send(Event::Exited), Action::Exit],
            _ => Seq::empty(),
        }
    }

    fn take_load(&mut self, l: Load) -> (r: Vec<Action>)
        ensures
            *final(self) == old(self).steered(Command::Load(l)),
            r@ == old(self).steer_actions(Command::Load(l)),
    {
        proof {
            reveal(Wall::steered);
            reveal(Wall::steer_actions);
        }
        self.begin_load(params(l))
    }

    fn take_reload(&mut self) -> (r: Vec<Action>)
        ensures
            *final(self) == old(self).steered(Command::Reload),
            r@ == old(self).steer_actions(Command::Reload),
    {
        proof {
            reveal(Wall::steered);
            reveal(Wall::steer_actions);
        }
        self.reload()
    }

    fn take_audio(&mut self, speed: Single, file: Option<String>, fade_ms: u32) -> (r: Vec<Action>)
        ensures
            *final(self) == old(self).steered(Command::AudioReady { speed, file, fade_ms }),
            r@ == old(self).steer_actions(Command::AudioReady { speed, file, fade_ms }),
    {
        proof {
            reveal(Wall::steered);
            reveal(Wall::steer_actions);
        }
        self.audio_ready(speed, file, fade_ms)
    }

    fn take_unload(&mut self) -> (r: Vec<Action>)
        ensures
            *final(self) == old(self).steered(Command::Unload),
            r@ == old(self).steer_actions(Command::Unload),
    {
        proof {
            reveal(Wall::steered);
            reveal(Wall::steer_actions);
        }
        let mut r: Vec<Action> = self.destroy_state();
        r.push(Action::Send(Event::Unloaded));
        r
    }

    fn take_pause(&mut self) -> (r: Vec<Action>)
        ensures
            *final(self) == old(self).steered(Command::Pause),
            r@ == old(self).steer_actions(Command::Pause),
    {
        proof {
            reveal(Wall::steered);
            reveal(Wall::steer_actions);
        }
        self.pause()
    }

    fn take_resume(&mut self) -> (r: Vec<Action>)
        ensures
            *final(self) == old(self).steered(Command::Resume),
            r@ == old(self).steer_actions(Command::Resume),
    {
        proof {
            reveal(Wall::steered);
            reveal(Wall::steer_actions);
        }
        self.resume()
    }

    fn take_mode(&mut self, mode: String) -> (r: Vec<Action>)
        ensures
            *final(self) == old(self).steered(Command::SetRenderMode { mode }),
            r@ == old(self).steer_actions(Command::SetRenderMode { mode }),
    {
        proof {
            reveal(Wall::steered);
            reveal(Wall::steer_actions);
        }
        self.set_render_mode(mode.as_str())
    }

    fn take_quit(&mut self) -> (r: Vec<Action>)
        ensures
            *final(self) == old(self).steered(Command::Quit),
            r@ == old(self).steer_actions(Command::Quit),
    {
        proof {
            reveal(Wall::steered);
            reveal(Wall::steer_actions);
        }
        let mut r: Vec<Action> = self.music.drop_stretch();
        r.push(Action::Send(Event::Exited));
        r.push(Action::Exit);
        r
    }

    fn steer(&mut self, cmd: Command) -> (r: Vec<Action>)
        ensures
            *final(self) == old(self).steered(cmd),
            r@ == old(self).steer_actions(cmd),
    {
        match cmd {
            Command::Load(l) => self.take_load(l),
            Command::Reload => self.take_reload(),
            Command::AudioReady { speed, file, fade_ms } => self.take_audio(speed, file, fade_ms),
            Command::Unload => self.take_unload(),
            Command::Pause => self.take_pause(),
            Command::Resume => self.take_resume(),
            Command::SetRenderMode { mode } => self.take_mode(mode),
            Command::Quit => self.take_quit(),
            _ => {
                proof {
                    reveal(Wall::steered);
                    reveal(Wall::steer_actions);
                }
                Vec::new()
            },
        }
    }

    /// The state after a command.
    pub open spec fn commanded(self, cmd: Command) -> Wall {
        if steers(cmd) {
            self.steered(cmd)
        } else if tunes(cmd) {
            Wall { music: tuned(self.music, cmd), ..self }
        } else {
            match cmd {
                Command::SetLoop { on } => Wall { looping: on, ..self },
                Command::SetBeatmapHitsounds { on } => Wall { beatmap_hitsounds: on, ..self },
                Command::SetFps { fps } => Wall { frames: Frames { fps, ..self.frames }, ..self },
                Command::SetUpscale { mode, quality } => self.upscaled(mode, quality),
                Command::SetFfmpegBins { ffmpeg, ffprobe } => Wall {
                    tools: Tools { ffmpeg, ffprobe, ..self.tools },
                    ..self
                },
                _ => Wall { look: restyled(self.look, cmd), ..self },
            }
        }
    }

    /// What a command asks for, but for the status that follows.
    pub open spec fn command_actions(self, cmd: Command) -> Seq<Action> {
        if steers(cmd) {
            self.steer_actions(cmd)
        } else if tunes(cmd) {
            tune_actions(self.music.device, cmd)
        } else if restyles(cmd) {
            restyle_actions(
                self.look,
                self.stage.scene,
                self.stage.scene_has_bg,
                self.stage.storyboard,
                cmd,
            )
        } else {
            match cmd {
                Command::SetBeatmapHitsounds { on } => seq![Action::ReswapHits],
                Command::SetFps { fps } => seq![Action::RestartFrameTimer],
                Command::SetUpscale { mode, quality } => seq![Action::Upscale],
                _ => relayed(self.load_seq, self.track, cmd),
            }
        }
    }

    fn obey(&mut self, cmd: Command) -> (r: Vec<Action>)
        ensures
            *final(self) == old(self).commanded(cmd),
            r@ == old(self).command_actions(cmd),
    {
        match cmd {
            Command::Load(..) | Command::Reload | Command::AudioReady { .. } | Command::Unload
            | Command::Pause | Command::Resume | Command::SetRenderMode { .. } | Command::Quit => {
                self.steer(cmd)
            },
            Command::SetSpeed { .. } | Command::SetVolume { .. } | Command::SetMaster { .. }
            | Command::SetHitsVolume { .. } | Command::SetOffset { .. }
            | Command::SetFade { .. } => tune(&mut self.music, &cmd),
            Command::SetLoop { on } => {
                self.looping = on;
                Vec::new()
            },
            Command::SetBeatmapHitsounds { on } => {
                self.beatmap_hitsounds = on;
                vec![Action::ReswapHits]
            },
            Command::SetFps { fps } => {
                self.frames.fps = fps;
                vec![Action::RestartFrameTimer]
            },
            Command::SetUpscale { mode, quality } => {
                self.set_upscale(mode, quality);
                vec![Action::Upscale]
            },
            Command::SetFfmpegBins { ffmpeg, ffprobe } => {
                self.tools.ffmpeg = ffmpeg;
                self.tools.ffprobe = ffprobe;
                Vec::new()
            },
            Command::SetHud { .. } | Command::SetPp { .. } | Command::SetHitAnimations { .. }
            | Command::SetBreakLighten { .. } | Command::SetCursor { .. }
            | Command::SetCursorSize { .. } | Command::SetGameplayHidden { .. }
            | Command::SetBgOpacity { .. } | Command::SetHidden { .. }
            | Command::SetVideo { .. } => restyle(
                &mut self.look,
                self.stage.scene,
                self.stage.scene_has_bg,
                self.stage.storyboard,
                &cmd,
            ),
            _ => relay(self.load_seq, self.track, cmd),
        }
    }

    /// Does what a command says; behind every one but the last the status is reported.
    pub fn handle_command(&mut self, cmd: Command) -> (r: Vec<Action>)
        ensures
            *final(self) == old(self).commanded(cmd),
            r@ == if cmd is Quit {
                old(self).command_actions(cmd)
            } else {
                old(self).command_actions(cmd).push(Action::Status)
            },
    {
        let last: bool = matches!(cmd, Command::Quit);
        let mut r: Vec<Action> = self.obey(cmd);
        if !last {
            r.push(Action::Status);
        }
        r
    }
}

/// Points that were computed for another load than the last are not taken.
pub proof fn law_outdated_points_are_dropped(w: Wall, seq: u64, computed: bool)
    requires
        seq != w.load_seq || !computed,
    ensures
        w.command_actions(Command::PpReady { seq, computed }).len() == 0,
        w.commanded(Command::PpReady { seq, computed }) == w,
{
}

/// A command about the look touches neither the playback nor what is loaded.
pub proof fn law_looks_leave_playback(w: Wall, cmd: Command)
    requires
        restyles(cmd),
    ensures
        w.commanded(cmd) == (Wall { look: w.commanded(cmd).look, ..w }),
{
}

proof fn lemma_steering_keeps_pause(w: Wall, cmd: Command)
    requires
        w.hold.user_paused,
        !w.clock.playing,
        steers(cmd),
        !(cmd is Resume),
        !(cmd is Load),
        !(cmd is Reload),
    ensures
        w.steered(cmd).hold.user_paused,
        !w.steered(cmd).clock.playing,
{
    match cmd {
        Command::AudioReady { speed, file, fade_ms } => {
            assert(w.steered(cmd) == match file {
                Some(path) => w.with_stretched(path),
                None => w.without_stretched(),
            }) by {
                reveal(Wall::steered);
            }
        },
        Command::Unload => {
            assert(w.steered(cmd) == w.destroyed()) by {
                reveal(Wall::steered);
            }
        },
        Command::Pause => {
            assert(w.steered(cmd) == w.stopped().holding(
                wall::Hold { user_paused: true, ..w.hold },
            )) by {
                reveal(Wall::steered);
            }
        },
        Command::SetRenderMode { mode } => {
            assert(w.steered(cmd) == w.remoded(RenderMode::named(mode@))) by {
                reveal(Wall::steered);
            }
        },
        _ => {
            assert(w.steered(cmd) == (Wall { music: w.music.unstretched(), ..w })) by {
                reveal(Wall::steered);
            }
        },
    }
}

/// No command takes a pause by the user back but resuming, another load and a seek, which starts
/// music that has ended.
pub proof fn law_commands_keep_user_pause(w: Wall, cmd: Command)
    requires
        w.hold.user_paused,
        !w.clock.playing,
        !(cmd is Resume),
        !(cmd is Load),
        !(cmd is Reload),
        !(cmd is Seek),
    ensures
        w.commanded(cmd).hold.user_paused,
        !w.commanded(cmd).clock.playing,
{
    if steers(cmd) {
        lemma_steering_keeps_pause(w, cmd);
    }
}

/// A hidden track stays hidden whatever the user's own setting.
pub proof fn law_track_mod_hides(w: Wall, on: bool)
    requires
        w.look.track_hd,
    ensures
        w.commanded(Command::SetHidden { on }).look.hd_on,
{
}

/// Each switch of the look is set as the command says, and nothing else of the look changes.
pub proof fn law_switches_are_set(w: Wall, on: bool)
    ensures
        w.commanded(Command::SetHud { on }).look == (Look { hud_visible: on, ..w.look }),
        w.commanded(Command::SetPp { on }).look == (Look { pp_display: on, ..w.look }),
        w.commanded(Command::SetHitAnimations { on }).look == (Look { hit_animations: on, ..w.look }),
        w.commanded(Command::SetBreakLighten { on }).look == (Look { break_lighten: on, ..w.look }),
        w.commanded(Command::SetCursor { on }).look == (Look { cursor_on: on, ..w.look }),
        w.commanded(Command::SetGameplayHidden { on }).look == (Look {
            gameplay_hidden: on,
            ..w.look
        }),
        w.commanded(Command::SetVideo { on }).look == (Look { video_enabled: on, ..w.look }),
        !w.look.track_hd ==> w.commanded(Command::SetHidden { on }).look == (Look {
            hd_on: on,
            ..w.look
        }),
{
}

/// A scene that is shown is told of each switch as it was set.
#[verifier::rlimit(60)]
pub proof fn law_scene_is_told_of_switches(w: Wall, on: bool)
    requires
        w.stage.scene,
    ensures
        w.command_actions(Command::SetHud { on }) == seq![
            Action::ChangeScene(SceneChange::Hud(on)),
        ],
        w.command_actions(Command::SetPp { on }) == seq![
            Action::ChangeScene(SceneChange::Pp(on)),
        ],
        w.command_actions(Command::SetHitAnimations { on }) == seq![
            Action::ChangeScene(SceneChange::HitAnimations(on)),
        ],
        w.command_actions(Command::SetBreakLighten { on }) == seq![
            Action::ChangeScene(SceneChange::BreakLighten(on)),
        ],
        w.command_actions(Command::SetCursor { on }) == seq![
            Action::ChangeScene(SceneChange::Cursor(on)),
        ],
        w.command_actions(Command::SetGameplayHidden { on }) == seq![
            Action::ChangeScene(SceneChange::GameplayHidden(on)),
        ],
        !w.look.track_hd ==> w.command_actions(Command::SetHidden { on }) == seq![
            Action::ChangeScene(SceneChange::Hidden(on)),
        ],
        w.look.track_hd ==> w.command_actions(Command::SetHidden { on }) == seq![
            Action::ChangeScene(SceneChange::Hidden(true)),
        ],
        w.stage.storyboard ==> w.command_actions(Command::SetVideo { on }) == seq![
            Action::EnableVideo { on },
        ],
        !w.stage.storyboard ==> w.command_actions(Command::SetVideo { on }).len() == 0,
{
}

/// Where nothing is shown, a command about the look only changes the look.
pub proof fn law_nothing_is_shown_without_a_stage(w: Wall, cmd: Command)
    requires
        restyles(cmd),
        !w.stage.scene,
        !w.stage.storyboard,
    ensures
        w.command_actions(cmd).len() == 0,
{
}

/// The light of the background and the size of the cursor are set to what is asked for where that
/// lies within bounds, and what is shown is told what was set.
pub proof fn law_measures_are_set(w: Wall, x: Single)
    ensures
        x.bits <= 0x3F80_0000 ==> w.commanded(Command::SetBgOpacity { v: x }).look == (Look {
            bg_opacity: x,
            ..w.look
        }),
        0x3DCC_CCCD <= x.bits <= 0x4000_0000 ==> w.commanded(Command::SetCursorSize { x }).look == (
        Look { cursor_size: x, ..w.look }),
        w.stage.scene ==> w.command_actions(Command::SetCursorSize { x }) == seq![
            Action::ChangeScene(
                SceneChange::CursorSize(w.commanded(Command::SetCursorSize { x }).look.cursor_size),
            ),
        ],
        w.stage.storyboard ==> w.command_actions(Command::SetBgOpacity { v: x }).len() > 0
            && w.command_actions(Command::SetBgOpacity { v: x })[0] == (Action::Dim {
            v: w.commanded(Command::SetBgOpacity { v: x }).look.bg_opacity,
        }),
        w.stage.scene && w.stage.scene_has_bg ==> w.command_actions(
            Command::SetBgOpacity { v: x },
        ).len() > 0 && w.command_actions(Command::SetBgOpacity { v: x }).last()
            == Action::ChangeScene(
            SceneChange::BgOpacity(w.commanded(Command::SetBgOpacity { v: x }).look.bg_opacity),
        ),
{
}

/// A speed, an offset and fading are set as the command says, and the levels where there is a
/// device; nothing else of the music changes, and what plays takes it up.
pub proof fn law_music_is_tuned(w: Wall, x: Single, on: bool)
    ensures
        0x3D4C_CCCD <= x.bits <= 0x4180_0000 ==> w.commanded(Command::SetSpeed { x }) == (Wall {
            music: Music { user_speed: x, ..w.music },
            ..w
        }),
        w.command_actions(Command::SetSpeed { x }) == seq![Action::Retime],
        w.commanded(Command::SetFade { on }) == (Wall { music: Music { fade: on, ..w.music }, ..w }),
        w.command_actions(Command::SetFade { on }).len() == 0,
        w.music.device && x.bits <= 0x3F80_0000 ==> {
            &&& w.commanded(Command::SetVolume { v: x }) == (Wall {
                music: Music { levels: Levels { bgm: x, ..w.music.levels }, ..w.music },
                ..w
            })
            &&& w.commanded(Command::SetMaster { v: x }) == (Wall {
                music: Music { levels: Levels { master: x, ..w.music.levels }, ..w.music },
                ..w
            })
            &&& w.commanded(Command::SetHitsVolume { v: x }) == (Wall {
                music: Music { levels: Levels { hits: x, ..w.music.levels }, ..w.music },
                ..w
            })
        },
        w.music.device ==> w.command_actions(Command::SetVolume { v: x }) == seq![
            Action::ApplyLevels,
        ] && w.command_actions(Command::SetMaster { v: x }) == seq![Action::ApplyLevels],
        !w.music.device ==> w.commanded(Command::SetVolume { v: x }) == w && w.commanded(
            Command::SetMaster { v: x },
        ) == w && w.commanded(Command::SetHitsVolume { v: x }) == w,
{
}

/// An offset is set and taken up at once.
pub proof fn law_offset_is_taken_up(w: Wall, ms: Single)
    ensures
        w.commanded(Command::SetOffset { ms }) == (Wall {
            music: Music { offset_ms: ms, ..w.music },
            ..w
        }),
        w.command_actions(Command::SetOffset { ms }) == seq![Action::Realign],
{
}

/// What is only passed on reaches its end with everything that the command says, and leaves the
/// state as it is.
pub proof fn law_relays_say_what_was_said(
    w: Wall,
    path: String,
    ms: Single,
    skin: Option<String>,
    on: bool,
)
    ensures
        w.command_actions(Command::Probe { path }) == seq![Action::Probe { path }],
        w.command_actions(Command::Seek { ms }) == seq![Action::SeekTo { ms }],
        w.command_actions(Command::Status) == seq![Action::Status],
        w.command_actions(Command::SetSkin { skin, force_colours: on }) == seq![
            Action::ReswapSkin { skin, force_colours: on },
        ],
        w.command_actions(Command::SetLog { on }) == seq![Action::SetLog { on }],
        w.track ==> w.command_actions(Command::PpReady { seq: w.load_seq, computed: true }) == seq![
            Action::InjectPp,
        ],
        w.commanded(Command::Probe { path }) == w,
        w.commanded(Command::Seek { ms }) == w,
        w.commanded(Command::Status) == w,
        w.commanded(Command::SetSkin { skin, force_colours: on }) == w,
        w.commanded(Command::SetLog { on }) == w,
{
}

/// Looping, the beatmap's own hit sounds, the rate of frames, the upscaling and the tools are what
/// the last command about each says.
pub proof fn law_settings_are_the_last_said(w: Wall, on: bool, fps: u32, a: String, b: String)
    ensures
        w.commanded(Command::SetLoop { on }) == (Wall { looping: on, ..w }),
        w.commanded(Command::SetBeatmapHitsounds { on }) == (Wall { beatmap_hitsounds: on, ..w }),
        w.command_actions(Command::SetBeatmapHitsounds { on }) == seq![Action::ReswapHits],
        w.commanded(Command::SetFps { fps }) == (Wall {
            frames: Frames { fps, ..w.frames },
            ..w
        }),
        w.command_actions(Command::SetFps { fps }) == seq![Action::RestartFrameTimer],
        w.commanded(Command::SetUpscale { mode: a, quality: b }).tools == (Tools {
            upscale: a,
            quality: b,
            ..w.tools
        }),
        w.last_load matches Some(p) ==> w.commanded(
            Command::SetUpscale { mode: a, quality: b },
        ).last_load == Some(LoadParams { upscale: a, upscale_quality: b, ..p }),
        w.command_actions(Command::SetUpscale { mode: a, quality: b }) == seq![Action::Upscale],
{
}

/// The tools are those that were named last.
pub proof fn law_tools_are_the_last_named(w: Wall, ffmpeg: Option<String>, ffprobe: Option<String>)
    ensures
        w.commanded(Command::SetFfmpegBins { ffmpeg, ffprobe }) == (Wall {
            tools: Tools { ffmpeg, ffprobe, ..w.tools },
            ..w
        }),
        w.command_actions(Command::SetFfmpegBins { ffmpeg, ffprobe }).len() == 0,
{
}

/// Pausing stops the clock and the music and is remembered as the user's; resuming undoes it.
pub proof fn law_pause_and_resume(w: Wall)
    requires
        w.track,
    ensures
        !w.commanded(Command::Pause).clock.playing,
        w.commanded(Command::Pause).hold.user_paused,
        w.commanded(Command::Pause).clock.t == w.clock.t,
        w.commanded(Command::Pause).music == w.music,
        w.music.device && w.music.fade ==> w.command_actions(Command::Pause) == seq![
            Action::Pause { fade_ms: 500 },
            Action::PauseLoops { fade_ms: 500 },
        ] && w.command_actions(Command::Resume) == seq![
            Action::Resume { fade_ms: 250 },
            Action::ResumeLoops { fade_ms: 250 },
        ],
        w.commanded(Command::Resume).clock.playing,
        !w.commanded(Command::Resume).hold.user_paused,
        w.commanded(Command::Pause).commanded(Command::Resume).clock.t == w.clock.t,
        w.commanded(Command::Pause).commanded(Command::Resume).clock.playing,
        w.commanded(Command::Pause).commanded(Command::Resume).hold == (wall::Hold {
            user_paused: false,
            ..w.hold
        }),
{
    reveal(Wall::steered);
    reveal(Wall::steer_actions);
    wall::law_pausing_fades(w.music);
}

/// A load begins with what it says and changes nothing yet; loading again begins with what was
/// loaded last, where there is such a thing.
pub proof fn law_load_begins(w: Wall, l: Load)
    ensures
        w.commanded(Command::Load(l)).asked_of() == Some(wall::params_of(l)),
        w.commanded(Command::Load(l)).clock == w.clock,
        w.commanded(Command::Load(l)).music == w.music,
        w.commanded(Command::Load(l)).last_load == w.last_load,
        w.command_actions(Command::Load(l)) == seq![Action::Load],
        w.last_load is Some ==> w.commanded(Command::Reload).asked_of() == w.last_load
            && w.command_actions(Command::Reload) == seq![Action::Load],
        w.last_load is None ==> w.commanded(Command::Reload) == w && w.command_actions(
            Command::Reload,
        ).len() == 0,
{
    reveal(Wall::steered);
    reveal(Wall::steer_actions);
}

/// Unloading leaves nothing to play or show, and is told; quitting removes what was stretched and
/// tells it before the end.
pub proof fn law_unloading_and_quitting(w: Wall)
    ensures
        !w.commanded(Command::Unload).track,
        !w.commanded(Command::Unload).stage.window,
        !w.commanded(Command::Unload).stage.surface,
        !w.commanded(Command::Unload).stage.scene,
        !w.commanded(Command::Unload).stage.storyboard,
        w.commanded(Command::Unload).music.path is None,
        w.commanded(Command::Unload).limit.bits == 0x7F7F_FFFF,
        w.commanded(Command::Unload).hs_cursor == 0,
        w.commanded(Command::Unload).sb_cursor == 0,
        w.commanded(Command::Unload).status_of() is None,
        w.music.device ==> w.command_actions(Command::Unload) == seq![
            Action::StopSamples,
            Action::StopLoops,
            Action::Stop,
            Action::ForgetSession,
            Action::Send(Event::Unloaded),
        ],
        !w.music.device ==> w.command_actions(Command::Unload) == seq![
            Action::StopSamples,
            Action::StopLoops,
            Action::ForgetSession,
            Action::Send(Event::Unloaded),
        ],
        w.commanded(Command::Quit).music.stretched is None,
        w.music.stretched is None ==> w.command_actions(Command::Quit) == seq![
            Action::Send(Event::Exited),
            Action::Exit,
        ],
        w.music.stretched matches Some(path) ==> w.command_actions(Command::Quit) == seq![
            Action::RemoveFile { path },
            Action::Send(Event::Exited),
            Action::Exit,
        ],
{
    reveal(Wall::steered);
    reveal(Wall::steer_actions);
    let u = w.command_actions(Command::Unload);
    assert(w.music.device ==> u =~= seq![
        Action::StopSamples,
        Action::StopLoops,
        Action::Stop,
        Action::ForgetSession,
        Action::Send(Event::Unloaded),
    ]);
    assert(!w.music.device ==> u =~= seq![
        Action::StopSamples,
        Action::StopLoops,
        Action::ForgetSession,
        Action::Send(Event::Unloaded),
    ]);
    let q = w.command_actions(Command::Quit);
    assert(w.music.stretched is None ==> q =~= seq![Action::Send(Event::Exited), Action::Exit]);
    if let Some(path) = w.music.stretched {
        assert(q =~= seq![
            Action::RemoveFile { path },
            Action::Send(Event::Exited),
            Action::Exit,
        ]);
    }
}

/// Stretched music that has come is taken where there is a device; where stretching failed the file
/// itself is played, at the speed, from where the clock stands.
pub proof fn law_music_that_has_come_is_played(w: Wall, speed: Single, path: String, fade_ms: u32)
    requires
        w.music.device,
    ensures
        w.commanded(
            Command::AudioReady { speed, file: Some(path), fade_ms },
        ).music.stretched == Some(path),
        w.command_actions(Command::AudioReady { speed, file: Some(path), fade_ms })[0] == (
        Action::Play {
            path,
            at: w.clock.t,
            rate: Single { bits: 0x3F80_0000 },
            scale: speed,
            fade_ms,
        }),
        w.music.path matches Some(file) ==> w.command_actions(
            Command::AudioReady { speed, file: None, fade_ms },
        ) == seq![
            Action::Play {
                path: file,
                at: w.clock.t,
                rate: speed,
                scale: Single { bits: 0x3F80_0000 },
                fade_ms: 0,
            },
        ],
{
    reveal(Wall::steered);
    reveal(Wall::steer_actions);
}

/// A mode is taken up under its name.
pub proof fn law_mode_is_taken_up(w: Wall, mode: String)
    ensures
        w.commanded(Command::SetRenderMode { mode }).hold.render_mode == RenderMode::named(mode@),
        RenderMode::named(mode@) != w.hold.render_mode ==> w.command_actions(
            Command::SetRenderMode { mode },
        ).last() == Action::SyncRender,
{
    reveal(Wall::steered);
    reveal(Wall::steer_actions);
}

} // verus!
