use aria::audio;
use aria::audio::{Levels, Playback};
use aria::clock::{Clock, Tick};
use aria::ieee::{Double, Single};
use aria::ipc::{Command, Event, Load};
use aria::loading::{Begin, Failure, Length, RenderStep, Wait};
use aria::playback::{plan_loops, LoopPlay};
use aria::scene;
use aria::scene::{Found, Look};
use aria::session::{Answer, Need};
use aria::wall;
use aria::wall::{Action, RenderMode, SceneChange, Wall};

fn single(x: f32) -> Single {
    Single::from_bits(x.to_bits())
}

fn double(x: f64) -> Double {
    Double::from_bits(x.to_bits())
}

fn times(xs: &[f64]) -> Vec<Double> {
    xs.iter().map(|x| double(*x)).collect()
}

fn shown(v: &Vec<Action>) -> Vec<String> {
    v.iter().map(|a| format!("{:?}", a)).collect()
}

fn load(path: &str) -> Load {
    Load {
        path: path.to_string(),
        diff: None,
        fail: false,
        speed: single(1.0),
        start: single(0.0),
        loop_playback: true,
        manifest: None,
        skin: None,
        force_colours: false,
        hidden: false,
        mods: 0,
        storyboard: true,
        video: true,
        beatmap_hitsounds: true,
        upscale: "off".to_string(),
        monitor: None,
        upscale_quality: "m".to_string(),
    }
}

/// A wall that plays a track with music.
fn playing(l: Load) -> Wall {
    let product = f32::from_bits(l.speed.bits) * f32::from_bits(wall::mods_rate(l.mods).bits);
    let mut w = Wall::new(true);
    w.handle_command(Command::Load(l));
    w.audio_found(Some("music.mp3".to_string()));
    w.adopt_track(single(60_000.0));
    let start = f32::from_bits(w.last_load.as_ref().unwrap().start.bits) as f64;
    w.start_track(
        Some(Length { exact: double(90_000.0), rounded: single(90_000.0) }),
        double(60_000.0),
        single(product),
        double(start),
        &times(&[100.0, 200.0, 300.0]),
        &times(&[150.0]),
    );
    w
}

fn covering(mode: &str) -> Wall {
    let mut w = playing(load("a.osz"));
    w.set_render_mode(mode);
    w
}

#[test]
fn modes_are_named() {
    assert_eq!(RenderMode::parse("always"), RenderMode::Always);
    assert_eq!(RenderMode::parse("fs_pause"), RenderMode::FsPause);
    assert_eq!(RenderMode::parse("fs_sleep"), RenderMode::FsSleep);
    assert_eq!(RenderMode::parse("off"), RenderMode::Off);
    assert_eq!(RenderMode::parse("auto_pause"), RenderMode::AutoPause);
    assert_eq!(RenderMode::parse("whatever"), RenderMode::AutoPause);
    assert!(RenderMode::Off.pure() && !RenderMode::Always.pure());
    assert!(RenderMode::AutoPause.drops_render_on_cover() && RenderMode::FsSleep.drops_render_on_cover());
    assert!(!RenderMode::FsPause.drops_render_on_cover());
    assert!(RenderMode::FsPause.pauses_playback_on_cover() && RenderMode::FsSleep.pauses_playback_on_cover());
    assert!(!RenderMode::AutoPause.pauses_playback_on_cover());
}

#[test]
fn mods_have_rates() {
    assert_eq!(wall::mods_rate(0), single(1.0));
    assert_eq!(wall::mods_rate(64), single(1.5));
    assert_eq!(wall::mods_rate(512), single(1.5));
    assert_eq!(wall::mods_rate(256), single(0.75));
    assert_eq!(wall::mods_rate(256 | 64), single(1.5));
    assert_eq!(wall::mods_rate(8), single(1.0));
}

#[test]
fn unity_has_a_margin() {
    for x in [1.0f32, 0.9995, 1.0005, 0.9990001, 0.9989, 1.0011, 0.5, 2.0] {
        assert_eq!(wall::is_off_unity(single(x)), (x - 1.0).abs() > 1e-3, "{}", x);
    }
}

#[test]
fn cursors_pass_times() {
    let t = times(&[0.0, 10.0, 10.0, 20.0]);
    assert_eq!(wall::count_passed(&t, double(-1.0)), 0);
    assert_eq!(wall::count_passed(&t, double(10.0)), 3);
    assert_eq!(wall::count_passed(&t, double(100.0)), 4);
    assert_eq!(wall::advance_cursor(&t, 1, double(10.0)), 3);
    assert_eq!(wall::advance_cursor(&t, 3, double(10.0)), 3);
    assert_eq!(wall::advance_cursor(&t, 7, double(10.0)), 7);
}

#[test]
fn a_track_that_is_taken_over_is_heard() {
    let mut w = Wall::new(true);
    w.handle_command(Command::Pause);
    let mut l = load("a.osz");
    l.start = single(-5.0);
    let r = w.handle_command(Command::Load(l));
    assert_eq!(shown(&r), ["Load", "Status"]);
    assert!(w.hold.user_paused && w.load_seq == 0 && w.last_load.is_none());
    assert_eq!(w.asked_load().unwrap().path, "a.osz");

    let r = w.adopt_track(single(60_000.0));
    assert!(matches!(r[0], Action::FadeOut { fade_ms: 800 }));
    assert_eq!(shown(&r)[1..], ["ClearRender", "BuildRender"]);
    assert!(!w.hold.user_paused && w.asked_load().is_none());
    assert_eq!(w.load_seq, 1);
    assert_eq!(w.last_load.as_ref().unwrap().start, single(0.0));

    w.handle_command(Command::SetFade { on: false });
    assert_eq!(shown(&w.handle_command(Command::Reload)), ["Load", "Status"]);
    assert_eq!(w.asked_load().unwrap().path, "a.osz");
    assert_eq!(shown(&w.adopt_track(single(1.0))), ["ClearRender", "BuildRender"]);
    assert_eq!(w.load_seq, 2);

    let mut fresh = Wall::new(false);
    assert_eq!(shown(&fresh.handle_command(Command::Reload)), ["Status"]);
    assert!(fresh.asked_load().is_none());
}

#[test]
fn a_load_at_another_speed_says_so() {
    let mut l = load("a.osz");
    l.speed = single(1.25);
    l.mods = 64;
    let w = playing(l);
    match w.status() {
        Some(Event::Status { speed, user_speed, .. }) => {
            assert_eq!((speed, user_speed), (single(1.25 * 1.5), single(1.25)));
        }
        other => panic!("{:?}", other),
    }
    let mut l = load("a.osz");
    l.speed = single(100.0);
    assert_eq!(playing(l).music.user_speed, single(16.0));
}

#[test]
fn a_track_is_taken_over() {
    let mut l = load("a.osz");
    l.mods = 8 | 512;
    l.storyboard = false;
    let mut w = Wall::new(true);
    w.handle_command(Command::Load(l));
    assert!(!w.with_pp());
    let r = w.adopt_track(single(1234.0));
    assert_eq!(shown(&r)[1..], ["ClearRender", "BuildRender"]);
    assert!(w.track && w.look.track_hd && w.look.hd_on && !w.look.sb_enabled);
    assert_eq!(w.music.track_rate, single(1.5));
    assert!(!w.music.pitch_preserve);
    assert_eq!(w.limit, single(1234.0));
    w.handle_command(Command::SetHidden { on: false });
    assert!(w.look.hd_on);

    w.set_render_mode("off");
    w.handle_command(Command::Reload);
    assert_eq!(shown(&w.adopt_track(single(1.0)))[1..], ["ClearRender"]);
}

#[test]
fn a_picture_is_taken_over() {
    let mut w = playing(load("a.osz"));
    let found = Found {
        storyboard: true,
        foreground: false,
        replaces_background: false,
        background: true,
        legacy_skin: false,
    };
    w.sb_cursor = 5;
    let r = w.adopt_render_session(&found);
    assert_eq!(shown(&r), ["ResizeSurface", "StopSamples"]);
    assert!(w.stage.surface && w.stage.scene && w.stage.storyboard && w.stage.scene_has_bg);
    assert_eq!(w.sb_cursor, 0);
    let before = w.clock;
    w.drop_render_session();
    assert!(!w.stage.surface && !w.stage.window && w.track);
    assert_eq!(w.clock, before);
}

#[test]
fn music_begins_at_once_or_after_stretching() {
    let mut w = Wall::new(true);
    w.handle_command(Command::Load(load("a.osz")));
    w.audio_found(Some("music.mp3".to_string()));
    w.adopt_track(single(60_000.0));
    let none = times(&[]);
    let (r, begin) = w.start_track(None, double(60_000.0), single(1.0), double(0.0), &none, &none);
    assert_eq!(begin, Begin::Playing);
    assert!(matches!(r[0], Action::StopLoops));
    match &r[1] {
        Action::Play { path, at, rate, scale, fade_ms } => {
            assert_eq!(path, "music.mp3");
            assert_eq!((*at, *rate, *scale), (single(0.0), single(1.0), single(1.0)));
            assert_eq!(*fade_ms, 250);
        }
        other => panic!("{:?}", other),
    }
    assert_eq!(w.music.duration_ms, single(60_000.0));
    assert!(w.clock.playing && !w.music.pending);

    let (r, begin) = w.start_track(None, double(60_000.0), single(1.5), double(0.0), &none, &none);
    assert_eq!(begin, Begin::Stretching);
    assert!(w.music.pending);
    assert!(matches!(r[1], Action::SpawnStretch { fade_ms: 250, .. }));

    w.music.path = None;
    let (r, begin) = w.start_track(None, double(60_000.0), single(1.5), double(0.0), &none, &none);
    assert_eq!(begin, Begin::Silent);
    assert_eq!(shown(&r), ["StopLoops", "Stop"]);
    assert!(Wall::has_audio(Begin::Stretching, false));
    assert!(Wall::has_audio(Begin::Playing, true) && !Wall::has_audio(Begin::Playing, false));
    assert!(!Wall::has_audio(Begin::Silent, true));
}

#[test]
fn durations_are_plausible() {
    let mut w = Wall::new(true);
    w.handle_command(Command::Load(load("a.osz")));
    w.audio_found(Some("music.mp3".to_string()));
    w.adopt_track(single(60_000.0));
    let none = times(&[]);
    for (exact, want) in [(90_000.0, 90_000.0f32), (50_000.0, 60_000.0), (36_000_000.0, 60_000.0), (35_999_999.0, 36_000_000.0)] {
        let length = Length { exact: double(exact), rounded: single(exact as f32) };
        w.start_track(Some(length), double(60_000.0), single(1.0), double(0.0), &none, &none);
        assert_eq!(w.music.duration_ms, single(want), "{}", exact);
    }
    match w.loaded(true) {
        Some(Event::Loaded { path, duration_ms, has_audio, widescreen, mods, diff }) => {
            assert_eq!(path, "a.osz");
            assert_eq!(duration_ms, single(36_000_000.0));
            assert!(has_audio && widescreen && mods == 0 && diff.is_none());
        }
        other => panic!("{:?}", other),
    }
    assert!(Wall::new(true).loaded(true).is_none());
}

#[test]
fn a_start_inside_leaves_what_lies_before() {
    let mut l = load("a.osz");
    l.start = single(200.0);
    let w = playing(l);
    assert_eq!(w.hs_cursor, 2);
    assert_eq!(w.sb_cursor, 1);
    assert_eq!(w.clock.t, single(200.0));
    assert_eq!(w.music.duration_ms, single(90_000.0));
}

#[test]
fn hits_are_played_as_the_clock_passes_them() {
    let mut w = playing(load("a.osz"));
    let hits = times(&[100.0, 200.0, 300.0]);
    let samples = times(&[150.0]);
    let r = w.settle(double(250.0), true, &hits, &samples);
    assert_eq!(
        shown(&r),
        ["FireHits { from: 0, to: 2 }", "FireSamples { from: 0, to: 1 }", "UpdateLoops"]
    );
    assert_eq!((w.hs_cursor, w.sb_cursor), (2, 1));
    w.clock.jumped = true;
    let r = w.settle(double(350.0), true, &hits, &samples);
    assert_eq!(shown(&r), ["StopLoops", "UpdateLoops"]);
    assert_eq!(w.hs_cursor, 3);
    assert!(!w.clock.jumped);
}

#[test]
fn without_a_device_nothing_is_played_and_nothing_piles_up() {
    let mut w = playing(load("a.osz"));
    w.music.device = false;
    let r = w.settle(double(250.0), false, &times(&[100.0, 200.0, 300.0]), &times(&[150.0]));
    assert_eq!(shown(&r), ["UpdateLoops"]);
    assert_eq!((w.hs_cursor, w.sb_cursor), (2, 1));
}

#[test]
fn awaited_music_holds_the_clock() {
    let mut l = load("a.osz");
    l.mods = 64;
    let mut w = playing(l);
    assert!(w.music.pending);
    let before = w.clock;
    w.advance(Tick { dt: single(10.0), wall: single(10.0) }, None);
    assert_eq!(w.clock, before);
    assert!(w.settle(double(0.0), false, &times(&[]), &times(&[])).is_empty());
    let job = w.music.job;
    assert!(w.music.takes_stretch(job) && !w.music.takes_stretch(job + 1));
    let r = w.handle_command(Command::AudioReady {
        speed: single(1.5),
        file: Some("tmp.wav".to_string()),
        fade_ms: 250,
    });
    assert!(!w.music.pending);
    assert_eq!(w.music.stretched.as_deref(), Some("tmp.wav"));
    match &r[0] {
        Action::Play { path, rate, scale, .. } => {
            assert_eq!(path, "tmp.wav");
            assert_eq!((*rate, *scale), (single(1.0), single(1.5)));
        }
        other => panic!("{:?}", other),
    }
    assert_eq!(shown(&r)[1..], ["Status", "Status"]);
}

#[test]
fn stretched_music_waits_for_a_paused_user() {
    let mut l = load("a.osz");
    l.mods = 64;
    let mut w = playing(l);
    w.handle_command(Command::Pause);
    let r = w.audio_ready(single(1.5), Some("tmp.wav".to_string()), 250);
    assert!(matches!(r[1], Action::Pause { fade_ms: 40 }));
    assert!(!w.clock.playing && w.hold.user_paused);
}

#[test]
fn failed_stretching_falls_back_to_the_file() {
    let mut l = load("a.osz");
    l.mods = 64;
    let mut w = playing(l);
    let r = w.audio_ready(single(1.5), None, 250);
    match &r[0] {
        Action::Play { path, rate, scale, fade_ms, .. } => {
            assert_eq!(path, "music.mp3");
            assert_eq!((*rate, *scale, *fade_ms), (single(1.5), single(1.0), 0));
        }
        other => panic!("{:?}", other),
    }
    assert!(!w.music.pending);
}

#[test]
fn outdated_stretches_are_not_taken() {
    let mut w = playing(load("a.osz"));
    let job = w.music.job;
    w.music.drop_stretch();
    assert!(!w.music.takes_stretch(job));
    let job = w.music.job;
    w.music.spawn_stretch(single(2.0), 0);
    assert!(!w.music.takes_stretch(job));
}

#[test]
fn a_looping_track_begins_again() {
    let mut w = playing(load("a.osz"));
    w.stage.window = true;
    w.stage.storyboard = true;
    w.look.hud_visible = true;
    w.clock.t = single(60_000.0);
    w.hs_cursor = 3;
    let r = w.settle(double(60_000.0), false, &times(&[100.0, 200.0, 300.0]), &times(&[]));
    assert!(matches!(r[0], Action::UpdateLoops));
    match &r[1] {
        Action::ResetScene(f) => {
            assert!(f.hud_visible && !f.ur_bar && !f.offset_heatmap);
            assert_eq!(*f, w.look.start_over());
        }
        other => panic!("{:?}", other),
    }
    assert_eq!(shown(&r)[2..5], ["StopSamples", "StopLoops", "ResetVideo"]);
    assert!(matches!(r[5], Action::Play { .. }));
    assert_eq!(w.clock.t, single(0.0));
    assert!(w.clock.playing);
    assert_eq!((w.hs_cursor, w.sb_cursor), (0, 0));
}

#[test]
fn stretched_music_loops_as_it_is() {
    let mut w = playing(load("a.osz"));
    w.music.stretched = Some("tmp.wav".to_string());
    w.clock.speed = single(1.5);
    let r = w.restart_from_zero();
    match &r[2] {
        Action::Play { path, rate, scale, .. } => {
            assert_eq!(path, "tmp.wav");
            assert_eq!((*rate, *scale), (single(1.0), single(1.5)));
        }
        other => panic!("{:?}", other),
    }
}

#[test]
fn the_end_is_told_once() {
    let mut l = load("a.osz");
    l.loop_playback = false;
    let mut w = playing(l);
    w.clock.t = single(60_000.0);
    let none = times(&[]);
    let r = w.settle(double(0.0), true, &none, &none);
    assert_eq!(shown(&r), ["UpdateLoops"]);
    let r = w.settle(double(0.0), false, &none, &none);
    assert_eq!(shown(&r), ["UpdateLoops", "Send(Ended)"]);
    assert!(!w.clock.playing && w.ended_sent);
    w.clock.playing = true;
    let r = w.settle(double(0.0), false, &none, &none);
    assert_eq!(shown(&r), ["UpdateLoops"]);
}

#[test]
fn seeks_stay_inside() {
    assert_eq!(Wall::clamp_seek(single(-3.0), single(1000.0)), single(0.0));
    assert_eq!(Wall::clamp_seek(single(500.0), single(1000.0)), single(500.0));
    assert_eq!(Wall::clamp_seek(single(5000.0), single(1000.0)), single(1000.0));
    assert_eq!(Wall::clamp_seek(single(5000.0), single(-200.0)), single(0.0));
}

#[test]
fn a_seek_moves_everything() {
    let mut w = playing(load("a.osz"));
    w.stage.storyboard = true;
    let hits = times(&[100.0, 200.0, 300.0]);
    let samples = times(&[150.0]);
    let r = w.seek_to(single(250.0), single(250.0), false, double(250.0), &hits, &samples);
    assert_eq!(shown(&r)[..2], ["StopSamples", "StopLoops"]);
    assert!(matches!(r[2], Action::SeekMusic { .. }));
    assert_eq!((w.hs_cursor, w.sb_cursor), (2, 1));
    assert_eq!(w.clock.t, single(250.0));
    let r = w.seek_to(single(250.0), single(2001.0), false, double(250.0), &hits, &samples);
    assert!(matches!(r[0], Action::ResetVideo));
    let r = w.seek_to(single(250.0), single(-501.0), false, double(250.0), &hits, &samples);
    assert!(matches!(r[0], Action::ResetVideo));
    let r = w.seek_to(single(250.0), single(-500.0), false, double(250.0), &hits, &samples);
    assert!(matches!(r[0], Action::StopSamples));
}

#[test]
fn a_seek_revives_what_has_ended() {
    let mut w = playing(load("a.osz"));
    w.clock.playing = false;
    w.ended_sent = true;
    w.hold.user_paused = true;
    let none = times(&[]);
    let r = w.seek_to(single(1000.0), single(0.0), true, double(1000.0), &none, &none);
    assert!(w.clock.playing && !w.ended_sent && !w.hold.user_paused);
    match &r[2] {
        Action::Play { at, fade_ms, .. } => {
            assert_eq!(*at, single(1000.0));
            assert_eq!(*fade_ms, 250);
        }
        other => panic!("{:?}", other),
    }
}

#[test]
fn speeds_are_taken_up() {
    let mut w = playing(load("a.osz"));
    let r = w.handle_command(Command::SetSpeed { x: single(100.0) });
    assert_eq!(w.music.user_speed, single(16.0));
    assert_eq!(shown(&r), ["Retime", "Status"]);
    let r = w.retime(single(2.0));
    assert_eq!(w.clock.speed, single(2.0));
    assert!(matches!(r[0], Action::SpawnStretch { fade_ms: 150, .. }));
    w.audio_ready(single(2.0), Some("tmp.wav".to_string()), 150);
    let r = w.retime(single(1.0));
    match &r[0] {
        Action::RemoveFile { path } => assert_eq!(path, "tmp.wav"),
        other => panic!("{:?}", other),
    }
    assert!(matches!(r[1], Action::Play { fade_ms: 150, .. }));
    assert!(w.music.stretched.is_none());
    w.music.pitch_preserve = false;
    let r = w.retime(single(2.0));
    assert!(matches!(r[0], Action::SetRate { .. }) && r.len() == 1);
    w.realign(double(250.0), &times(&[100.0, 200.0, 300.0]));
    assert_eq!(w.hs_cursor, 2);
}

#[test]
fn levels_need_a_device() {
    let mut w = Wall::new(true);
    assert_eq!(w.music.levels, Levels { bgm: single(1.0), hits: single(0.8), master: single(1.0) });
    let r = w.handle_command(Command::SetVolume { v: single(2.0) });
    assert_eq!(shown(&r), ["ApplyLevels", "Status"]);
    w.handle_command(Command::SetMaster { v: single(0.25) });
    w.handle_command(Command::SetHitsVolume { v: single(-1.0) });
    assert_eq!(w.music.levels, Levels { bgm: single(1.0), hits: single(0.0), master: single(0.25) });
    let mut mute = Wall::new(false);
    let r = mute.handle_command(Command::SetVolume { v: single(0.5) });
    assert_eq!(shown(&r), ["Status"]);
    assert_eq!(mute.music.levels, Levels::new());
}

#[test]
fn looks_are_set_at_once() {
    let mut w = playing(load("a.osz"));
    let r = w.handle_command(Command::SetHud { on: true });
    assert_eq!(shown(&r), ["Status"]);
    assert!(w.look.hud_visible);
    w.stage.scene = true;
    w.stage.storyboard = true;
    let before = w.clock;
    let r = w.handle_command(Command::SetCursorSize { x: single(9.0) });
    match &r[0] {
        Action::ChangeScene(c) => assert_eq!(*c, SceneChange::CursorSize(single(2.0))),
        other => panic!("{:?}", other),
    }
    let r = w.handle_command(Command::SetBgOpacity { v: single(0.5) });
    assert!(matches!(r[0], Action::Dim { .. }) && r.len() == 2);
    w.stage.scene_has_bg = true;
    let r = w.handle_command(Command::SetBgOpacity { v: single(0.5) });
    assert!(matches!(r[1], Action::ChangeScene(SceneChange::BgOpacity(_))));
    let r = w.handle_command(Command::SetVideo { on: false });
    assert_eq!(shown(&r), ["EnableVideo { on: false }", "Status"]);
    for c in [
        Command::SetPp { on: true },
        Command::SetHitAnimations { on: false },
        Command::SetBreakLighten { on: true },
        Command::SetCursor { on: false },
        Command::SetGameplayHidden { on: true },
        Command::SetHidden { on: true },
    ] {
        let r = w.handle_command(c);
        assert!(matches!(r[0], Action::ChangeScene(_)) && r.len() == 2);
    }
    assert!(w.look.pp_display && !w.look.hit_animations && w.look.break_lighten);
    assert!(!w.look.cursor_on && w.look.gameplay_hidden && w.look.hd_on);
    assert_eq!(w.clock, before);
}

#[test]
fn other_commands_are_passed_on() {
    let mut w = playing(load("a.osz"));
    assert_eq!(shown(&w.handle_command(Command::SetFps { fps: 30 })), ["RestartFrameTimer", "Status"]);
    assert_eq!(w.frames.fps, 30);
    assert_eq!(shown(&w.handle_command(Command::SetBeatmapHitsounds { on: false })), ["ReswapHits", "Status"]);
    assert!(!w.beatmap_hitsounds);
    assert_eq!(shown(&w.handle_command(Command::SetLoop { on: false })), ["Status"]);
    assert!(!w.looping);
    assert_eq!(shown(&w.handle_command(Command::SetLog { on: true })), ["SetLog { on: true }", "Status"]);
    assert_eq!(shown(&w.handle_command(Command::SetFail { on: true })), ["Status"]);
    assert_eq!(shown(&w.handle_command(Command::Status)), ["Status", "Status"]);
    assert_eq!(shown(&w.handle_command(Command::SetOffset { ms: single(-20.0) })), ["Realign", "Status"]);
    assert_eq!(w.music.offset_ms, single(-20.0));
    w.handle_command(Command::SetFfmpegBins { ffmpeg: Some("f".to_string()), ffprobe: None });
    assert_eq!(w.tools.ffmpeg.as_deref(), Some("f"));
    assert_eq!(shown(&w.handle_command(Command::Probe { path: "p".to_string() })).len(), 2);
    let r = w.handle_command(Command::SetUpscale { mode: "on".to_string(), quality: "l".to_string() });
    assert_eq!(shown(&r), ["Upscale", "Status"]);
    let r = w.handle_command(Command::SetSkin { skin: Some("s".to_string()), force_colours: true });
    assert!(matches!(r[0], Action::ReswapSkin { force_colours: true, .. }));
    assert_eq!(
        shown(&w.reswap_skin(Some("s".to_string()), true, true, true).unwrap()),
        ["Recolour", "ReswapHits"]
    );
    assert_eq!(w.last_load.as_ref().unwrap().skin.as_deref(), Some("s"));
    assert!(matches!(w.handle_command(Command::Seek { ms: single(5.0) })[0], Action::SeekTo { .. }));
}

#[test]
fn outdated_points_are_dropped() {
    let mut w = playing(load("a.osz"));
    assert_eq!(shown(&w.handle_command(Command::PpReady { seq: 1, computed: true })), ["InjectPp", "Status"]);
    assert_eq!(shown(&w.handle_command(Command::PpReady { seq: 0, computed: true })), ["Status"]);
    assert_eq!(shown(&w.handle_command(Command::PpReady { seq: 1, computed: false })), ["Status"]);
}

#[test]
fn quitting_is_the_last_word() {
    let mut w = playing(load("a.osz"));
    w.music.stretched = Some("tmp.wav".to_string());
    let r = w.handle_command(Command::Quit);
    assert!(matches!(r[0], Action::RemoveFile { .. }));
    assert_eq!(shown(&r)[1..], ["Send(Exited)", "Exit"]);
}

#[test]
fn unloading_leaves_nothing() {
    let mut w = playing(load("a.osz"));
    let r = w.handle_command(Command::Unload);
    assert_eq!(
        shown(&r),
        ["StopSamples", "StopLoops", "Stop", "ForgetSession", "Send(Unloaded)", "Status"]
    );
    assert!(!w.track && w.music.path.is_none());
    assert_eq!(w.limit, single(f32::MAX));
    assert!(w.status().is_none());
}

#[test]
fn pauses_fade_out_and_in() {
    let mut w = playing(load("a.osz"));
    let r = w.handle_command(Command::Pause);
    assert_eq!(shown(&r), ["Pause { fade_ms: 500 }", "PauseLoops { fade_ms: 500 }", "Status"]);
    assert!(!w.clock.playing);
    let r = w.handle_command(Command::Resume);
    assert_eq!(shown(&r), ["Resume { fade_ms: 250 }", "ResumeLoops { fade_ms: 250 }", "Status"]);
    assert!(w.clock.playing && !w.hold.user_paused);
    w.handle_command(Command::SetFade { on: false });
    let r = w.handle_command(Command::Pause);
    assert_eq!(shown(&r)[0], "Pause { fade_ms: 0 }");
    let mut empty = Wall::new(true);
    empty.handle_command(Command::Resume);
    assert!(!empty.clock.playing);
}

#[test]
fn covering_pauses_and_uncovering_resumes() {
    let mut w = covering("fs_pause");
    assert_eq!(shown(&w.poll_cover(true, 99_999)), ["RestartCoverTimer"]);
    assert!(w.poll_cover(true, 999).is_empty());
    assert!(w.clock.playing);
    assert_eq!(shown(&w.poll_cover(true, 1000)).len(), 2);
    assert!(!w.clock.playing && w.hold.fs_paused);
    assert!(w.poll_cover(true, 2000).is_empty());
    w.poll_cover(false, 0);
    assert!(w.poll_cover(false, 499).is_empty());
    w.poll_cover(false, 500);
    assert!(w.clock.playing && !w.hold.fs_paused);
}

#[test]
fn a_user_pause_outlasts_covering() {
    for mode in ["fs_pause", "fs_sleep"] {
        let mut w = covering(mode);
        w.handle_command(Command::Pause);
        w.poll_cover(true, 0);
        w.poll_cover(true, 1000);
        w.poll_cover(false, 0);
        w.poll_cover(false, 500);
        assert!(!w.clock.playing && w.hold.user_paused);
        w.handle_command(Command::SetRenderMode { mode: "always".to_string() });
        assert!(!w.clock.playing);
    }
}

#[test]
fn covering_drops_the_picture() {
    let mut w = covering("auto_pause");
    w.poll_cover(true, 0);
    assert_eq!(shown(&w.poll_cover(true, 1000)), ["SyncRender"]);
    assert!(w.clock.playing);
    w.stage.surface = true;
    assert_eq!(w.sync_render(), RenderStep::Drop);
    w.stage.surface = false;
    assert_eq!(w.sync_render(), RenderStep::Nothing);
    w.hold.covered = false;
    assert_eq!(w.sync_render(), RenderStep::Build);
    w.stage.surface = true;
    assert_eq!(w.sync_render(), RenderStep::Nothing);
    assert_eq!(Wall::new(true).sync_render(), RenderStep::Nothing);
    let mut always = covering("always");
    assert!(always.poll_cover(true, 9999).is_empty());
}

#[test]
fn sleeping_wakes_the_picture_before_the_music() {
    let mut w = covering("fs_sleep");
    w.poll_cover(true, 0);
    w.poll_cover(true, 1000);
    w.poll_cover(false, 0);
    let r = w.poll_cover(false, 500);
    assert_eq!(shown(&r)[0], "SyncRender");
    assert!(matches!(r[1], Action::Resume { .. }));
}

#[test]
fn leaving_a_pausing_mode_resumes() {
    let mut w = covering("fs_pause");
    w.poll_cover(true, 0);
    w.poll_cover(true, 1000);
    w.poll_cover(false, 0);
    let r = w.set_render_mode("always");
    assert!(w.clock.playing);
    assert_eq!(shown(&r).last().unwrap(), "SyncRender");
    assert!(w.set_render_mode("always").is_empty());
}

#[test]
fn status_tells_what_plays() {
    let mut w = playing(load("a.osz"));
    w.frames.measured = 59;
    match w.status() {
        Some(Event::Status { t_ms, duration_ms, playing, speed, user_speed, looping, fps }) => {
            assert_eq!((t_ms, duration_ms), (single(0.0), single(90_000.0)));
            assert!(playing && looping && fps == 59);
            assert_eq!((speed, user_speed), (single(1.0), single(1.0)));
        }
        other => panic!("{:?}", other),
    }
}

#[test]
fn windows_come_and_go() {
    let mut w = playing(load("a.osz"));
    match w.window_ready(0, 1080, 60) {
        Err(f) => assert_eq!(f.message(), "桌面壁纸层不可用"),
        other => panic!("{:?}", other),
    }
    assert!(!w.stage.window);
    assert!(w.on_detached().is_empty());
    assert!(w.track);
    match w.window_ready(1920, 1080, 60) {
        Ok(Event::Ready { width, height, refresh_hz }) => assert_eq!((width, height, refresh_hz), (1920, 1080, 60)),
        other => panic!("{:?}", other),
    }
    assert!(!w.follows(1920, 1080) && !w.follows(0, 5) && w.follows(2560, 1440));
    assert!(w.resized(0, 0).is_empty());
    assert_eq!((w.stage.desk_w, w.stage.desk_h), (1, 1));
    w.stage.surface = true;
    assert_eq!(shown(&w.resized(2560, 1440)), ["ResizeSurface"]);
    let r = w.on_detached();
    assert_eq!(shown(&r).last().unwrap(), "ReattachLater");
    assert!(!w.stage.window && !w.track);
}

#[test]
fn frames_are_counted_and_waited_for() {
    let mut w = playing(load("a.osz"));
    assert_eq!(w.wait(None, 0), Wait::Playback);
    w.stage.surface = true;
    assert_eq!(w.wait(None, 0), Wait::Idle);
    w.stage.window = true;
    assert_eq!(w.wait(Some(5), 10), Wait::Redraw);
    w.frames.fps = 30;
    assert_eq!(w.wait(Some(5), 10), Wait::Sleep { ns: 5 });
    assert_eq!(w.wait(Some(10), 10), Wait::Redraw);
    assert_eq!(w.wait(None, 10), Wait::Redraw);
    w.frame_drawn(false);
    w.frame_drawn(false);
    assert_eq!((w.frames.count, w.frames.measured), (2, 0));
    w.frame_drawn(true);
    assert_eq!((w.frames.count, w.frames.measured), (0, 3));
}

#[test]
fn failures_say_what_went_wrong() {
    let why = || "x".to_string();
    let said = |f: Failure| f.message();
    assert_eq!(said(Failure::ReadMap { path: "p".to_string(), reason: why() }), "读取谱面失败 p: x");
    assert_eq!(said(Failure::Library { reason: why() }), "x");
    assert_eq!(said(Failure::Internal), "加载谱面时发生内部错误");
    assert_eq!(said(Failure::ParseMap { reason: why() }), "解析谱面失败: x");
    assert_eq!(said(Failure::Skin { reason: why() }), "加载皮肤失败: x");
    assert_eq!(said(Failure::Window { reason: why() }), "创建壁纸窗口失败: x");
    assert_eq!(said(Failure::Renderer { reason: why() }), "初始化渲染失败: x");
    assert_eq!(said(Failure::Background), "皮肤热切换中止:背景图重新解码失败");
    match Failure::Internal.event() {
        Event::Error { message } => assert_eq!(message, "加载谱面时发生内部错误"),
        other => panic!("{:?}", other),
    }
}

#[test]
fn loops_follow_their_runs() {
    let playing = vec![LoopPlay { event: 0, run: 0 }, LoopPlay { event: 1, run: 2 }, LoopPlay { event: 9, run: 0 }];
    let runs = vec![Some(0), Some(3), None, Some(1)];
    let plan = plan_loops(&playing, &runs, true);
    assert_eq!(plan.stop, vec![1, 2]);
    assert_eq!(plan.start, vec![LoopPlay { event: 1, run: 3 }, LoopPlay { event: 3, run: 1 }]);
    let plan = plan_loops(&playing, &runs, false);
    assert_eq!(plan.stop, vec![0, 1, 2]);
    assert!(plan.start.is_empty());
}

#[test]
fn sounds_are_leveled() {
    assert_eq!(audio::clamp_rate(single(0.0)), single(0.05));
    assert_eq!(audio::clamp_rate(single(99.0)), single(16.0));
    assert_eq!(audio::clamp_rate(single(1.25)), single(1.25));
    assert!(audio::is_silent(single(0.001)) && !audio::is_silent(single(0.0011)));
    assert!(audio::is_audible(single(0.01)) && !audio::is_audible(single(0.0)));
    assert!(audio::starts_inside(single(250.5)) && !audio::starts_inside(single(250.0)));
    assert_eq!(audio::release_ms(250), Some(120));
    assert_eq!(audio::release_ms(0), None);
    assert_eq!(audio::hit_volume(0), 5);
    assert_eq!(audio::hit_volume(70), 70);
    assert!(audio::has_position(Playback::Paused) && !audio::has_position(Playback::Other));
}

#[test]
fn scenes_fit_the_desktop() {
    assert_eq!(scene::scene_size(1920, 1080), (1920, 1080));
    assert_eq!(scene::scene_size(3840, 2160), (2560, 1440));
    assert_eq!(scene::scene_size(3440, 1440), (2560, 1440));
    assert_eq!(scene::scene_size(1280, 1024), (1280, 720));
    assert_eq!(scene::scene_size(0, 0), (0, 0));
    assert_eq!(scene::storyboard_slot(2560, 1440), (1920, 1080));
    assert_eq!(scene::storyboard_slot(1280, 720), (1280, 720));
    assert_eq!(scene::storyboard_slot(0, 0), (0, 0));
}

#[test]
fn scenes_are_set_up_from_the_look() {
    let mut look = Look::new();
    look.cursor_size = single(5.0);
    look.hd_on = true;
    let found = Found {
        storyboard: false,
        foreground: true,
        replaces_background: true,
        background: true,
        legacy_skin: true,
    };
    let s = scene::plan_scene(&look, &found);
    assert_eq!(s.cursor_size, single(2.0));
    assert!(s.hidden && !s.pro_skin && s.has_bg && !s.storyboard_fg && !s.sb_replaces_bg);
    assert_eq!(s.bg_opacity, Some(single(0.3)));
    assert_eq!(s.storyboard, None);
    assert!(scene::wants_background(true, false, true) && !scene::wants_background(true, true, true));
    assert!(!scene::can_reswap(true, false, true) && scene::can_reswap(true, false, false));
}

#[test]
fn samples_are_ordered_by_time() {
    assert_eq!(scene::order_by_time(&vec![30, 10, 20, 10]), vec![1, 3, 2, 0]);
}

#[test]
fn clocks_start_where_they_are_told() {
    let c = Clock::new(single(12.0), single(1.5));
    assert!(c.playing && !c.ticking && !c.jumped);
    assert_eq!((c.t, c.wall_t, c.speed), (single(12.0), single(12.0), single(1.5)));
}

fn found() -> Found {
    Found {
        storyboard: true,
        foreground: true,
        replaces_background: false,
        background: false,
        legacy_skin: false,
    }
}

fn the_times(product: f32) -> Answer {
    Answer::Times {
        length: None,
        limit_exact: double(60_000.0),
        product: single(product),
        at: double(0.0),
        hits: times(&[100.0]),
        samples: times(&[]),
    }
}

#[test]
fn a_load_goes_from_map_to_music() {
    let mut w = Wall::new(true);
    w.handle_command(Command::Load(load("a.osz")));
    let (r, need) = w.load_next(Need::Beatmap, Answer::Beatmap);
    assert!(r.is_empty() && need == Need::Game);
    let (r, need) = w.load_next(need, Answer::Game { audio: Some("music.mp3".to_string()) });
    assert!(r.is_empty() && need == Need::Skin && !w.track);
    let (r, need) = w.load_next(need, Answer::Skin { limit: single(60_000.0) });
    assert!(matches!(r[0], Action::FadeOut { fade_ms: 800 }));
    assert_eq!(shown(&r)[1..], ["ClearRender", "BuildRender"]);
    assert!(need == Need::Picture && w.track);
    w.window_ready(1920, 1080, 60).unwrap();
    let (r, need) = w.load_next(need, Answer::Picture { found: found() });
    assert_eq!(shown(&r), ["ResizeSurface", "StopSamples"]);
    assert_eq!(need, Need::Times);
    let (r, need) = w.load_next(need, the_times(1.0));
    assert!(matches!(r[1], Action::Play { .. }));
    assert_eq!(need, Need::Sound { begin: Begin::Playing });
    let (r, need) = w.load_next(need, Answer::Sound { played: true });
    assert!(matches!(&r[0], Action::Send(Event::Loaded { has_audio: true, .. })));
    assert_eq!(shown(&r)[1..], ["Redraw"]);
    assert_eq!(need, Need::Nothing);
}

#[test]
fn a_failed_load_keeps_what_played() {
    for at in [Need::Beatmap, Need::Game, Need::Skin] {
        let mut w = playing(load("a.osz"));
        w.handle_command(Command::Pause);
        let before = format!("{:?}", w);
        let r = w.handle_command(Command::Load(load("b.osz")));
        assert_eq!(shown(&r), ["Load", "Status"]);
        let mut need = Need::Beatmap;
        if at != Need::Beatmap {
            need = w.load_next(need, Answer::Beatmap).1;
        }
        if at == Need::Skin {
            need = w.load_next(need, Answer::Game { audio: Some("b.mp3".to_string()) }).1;
        }
        assert_eq!(need, at);
        let (r, need) = w.load_next(at, Answer::Failed { failure: Failure::Internal });
        match &r[0] {
            Action::Send(Event::Error { message }) => assert_eq!(message, "加载谱面时发生内部错误"),
            other => panic!("{:?}", other),
        }
        assert_eq!(r.len(), 1);
        assert_eq!(need, Need::Nothing);
        assert_eq!(format!("{:?}", w), before);
    }
}

#[test]
fn music_plays_without_a_picture() {
    let mut w = Wall::new(true);
    w.handle_command(Command::Load(load("a.osz")));
    w.audio_found(Some("music.mp3".to_string()));
    w.adopt_track(single(60_000.0));
    let failure = Failure::Renderer { reason: "x".to_string() };
    let (r, need) = w.load_next(Need::Picture, Answer::NoPicture { told: Some(failure) });
    assert!(matches!(&r[0], Action::Send(Event::Error { .. })) && r.len() == 1);
    assert_eq!(need, Need::Times);
    let (r, need) = w.load_next(Need::Picture, Answer::NoPicture { told: None });
    assert!(r.is_empty() && need == Need::Times);
    let (_, need) = w.load_next(need, the_times(1.5));
    assert_eq!(need, Need::Sound { begin: Begin::Stretching });
    let (r, _) = w.load_next(need, Answer::Sound { played: false });
    assert!(matches!(&r[0], Action::Send(Event::Loaded { has_audio: true, .. })) && r.len() == 1);
}

#[test]
fn nothing_is_built_where_nothing_is_rendered() {
    let mut w = Wall::new(true);
    w.set_render_mode("off");
    w.handle_command(Command::Load(load("a.osz")));
    let (r, need) = w.load_next(Need::Skin, Answer::Skin { limit: single(1.0) });
    assert_eq!(shown(&r)[1..], ["ClearRender"]);
    assert_eq!(need, Need::Times);
}

#[test]
fn upscaling_comes_with_the_load() {
    let mut l = load("a.osz");
    l.upscale = "fsr".to_string();
    l.upscale_quality = "vl".to_string();
    let mut w = playing(l);
    assert_eq!((w.tools.upscale.as_str(), w.tools.quality.as_str()), ("fsr", "vl"));
    w.handle_command(Command::SetUpscale { mode: "off".to_string(), quality: "s".to_string() });
    w.handle_command(Command::Reload);
    w.adopt_track(single(1.0));
    assert_eq!((w.tools.upscale.as_str(), w.tools.quality.as_str()), ("off", "s"));
}

#[test]
fn a_window_is_made_for_its_screen() {
    let mut l = load("a.osz");
    l.monitor = Some(vec![100, -5, 800, 600]);
    let mut w = playing(l);
    let b = w.window_bounds().unwrap();
    assert_eq!((b.x, b.y, b.width, b.height), (100, -5, 800, 600));
    match w.window_ready(1920, 1080, 60) {
        Ok(Event::Ready { width, height, refresh_hz }) => {
            assert_eq!((width, height, refresh_hz), (800, 600, 60));
        }
        other => panic!("{:?}", other),
    }
    assert!(w.stage.pinned && !w.follows(2560, 1440));
    assert!(matches!(w.window_ready(0, 1080, 60), Err(Failure::NoDesktop)));
    let mut w = playing(load("a.osz"));
    assert!(w.window_bounds().is_none());
    assert!(w.window_ready(1920, 1080, 60).is_ok());
    assert!(!w.stage.pinned && w.follows(2560, 1440) && !w.follows(1920, 1080));
}

#[test]
fn a_skin_is_not_changed_without_its_background() {
    let mut w = playing(load("a.osz"));
    w.stage.scene = true;
    w.stage.scene_has_bg = true;
    w.stage.surface = true;
    match w.reswap_skin(Some("s".to_string()), false, true, false) {
        Err(f) => assert_eq!(f.message(), "皮肤热切换中止:背景图重新解码失败"),
        other => panic!("{:?}", other),
    }
    assert!(w.last_load.as_ref().unwrap().skin.is_none());
    let r = w.reswap_skin(Some("s".to_string()), false, false, false).unwrap();
    assert_eq!(shown(&r), ["Recolour", "Repack", "ReswapHits"]);
    assert_eq!(w.asked_speed(), single(1.0));
}
