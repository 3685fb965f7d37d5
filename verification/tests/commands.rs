use aria::commands::{
    again_commands, library_payload, library_play, playlist_add, playlist_add_batch, queue,
    queue_set_diff, queue_set_entry, skip_next, skip_prev, track_display_meta, wanted_source,
    BatchAdd, Choice, CoverCache, Skip, MAX_COVERS,
};
use aria::controls::{
    apply_skin, bin_status, check_log, close_requested, close_window, current_place, dir_kind,
    open_url, playing_track, playlist_set, reload_current_track, set_audio_offset, set_bg_opacity,
    set_close_action, set_cursor_size, set_data_dir, set_ffmpeg_bins, set_force_skin_colours,
    set_hits_volume, set_hitsound, set_hud, set_reduce_anim, set_render_mode, set_skin, set_speed,
    set_storyboard, set_volume, source_set, toggle_play, tray_action, BinSource, Closing, DirKind,
    Refusal, TrayAction,
};
use aria::ctl::{
    adopt_library, begin_restore, cache_entry, cache_serves, confirm, dispatch_load, event_use,
    fast_path, find_set, find_skin, forget_last, is_playing, locate, manual_load, on_ended,
    playlist_next, playlist_prev, restore_failed, save_playlist, skin_ref, slow_path,
    spawn_commands, Known, LibrarySource, LoadError, Restore, SkinRef,
};
use aria::ieee::{Double, Single};
use aria::ipc::{Command, Event};
use aria::lazer::{LazerBeatmap, LazerFile, LazerLibrary, LazerSet, LazerSkin};
use aria::playlist::{policy_of, PickPolicy, PlayMode, Playlist, Track};
use aria::settings::Settings;
use aria::skins::{list_skin_dir, osk_name, skin_list, DirEntry};

fn single(x: f32) -> Single {
    Single::from_bits(x.to_bits())
}

fn double(x: f64) -> Double {
    Double::from_bits(x.to_bits())
}

fn value(x: Single) -> f32 {
    f32::from_bits(x.bits)
}

fn diff(sha2: &str, star: f64) -> LazerBeatmap {
    LazerBeatmap {
        sha2: sha2.to_string(),
        md5: String::new(),
        name: format!("name {sha2}"),
        ruleset: "osu".into(),
        star_rating: double(star),
        length_ms: double(star * 1000.0),
        ar: double(0.0),
        cs: double(0.0),
        od: double(0.0),
        hp: double(0.0),
        bpm: double(0.0),
        online_id: 0,
    }
}

fn set(id: &str, root: Option<&str>, diffs: &[(&str, f64)]) -> LazerSet {
    LazerSet {
        id: id.to_string(),
        online_id: 1,
        date_added_ms: 0,
        artist: "Band".into(),
        artist_unicode: String::new(),
        title: format!("title {id}"),
        title_unicode: if id == "b" { "曲".into() } else { String::new() },
        creator: String::new(),
        tags: String::new(),
        source: String::new(),
        root: root.map(String::from),
        sb_video: false,
        beatmaps: diffs.iter().map(|(s, x)| diff(s, *x)).collect(),
        files: vec![LazerFile { filename: "a.mp3".into(), hash: "AB99".into(), size: 1 }],
    }
}

fn library() -> LazerLibrary {
    LazerLibrary {
        sets: vec![
            set("a", None, &[("aa1", 2.0), ("aa2", 6.0)]),
            set("b", Some("Songs/b"), &[("b1.osu", 3.0), ("b2.osu", 1.0)]),
        ],
        collections: Vec::new(),
        skins: vec![LazerSkin { id: "7".into(), name: "Neat".into(), creator: "me".into(), files: Vec::new() }],
    }
}

fn choice(lib: &LazerLibrary, target: Option<f64>) -> Choice {
    let policy = policy_of(target.map(double));
    let distances = match policy {
        PickPolicy::Custom(_) => lib
            .sets
            .iter()
            .map(|s| {
                s.beatmaps
                    .iter()
                    .map(|b| double((f64::from_bits(b.star_rating.bits) - target.unwrap()).abs()))
                    .collect()
            })
            .collect(),
        _ => Vec::new(),
    };
    Choice { policy, distances }
}

fn bare(set_id: &str, sha2: Option<&str>) -> Track {
    Track {
        set_id: set_id.to_string(),
        sha2: sha2.map(String::from),
        qid: 0,
        mods: 0,
        title: String::new(),
        artist: String::new(),
        length_ms: double(0.0),
    }
}

// ---------- the list ----------

#[test]
fn sets_are_added_with_a_difficulty() {
    let lib = library();
    let mut p = Playlist::new(1);
    let c = choice(&lib, Some(2.5));
    assert_eq!(playlist_add(&mut p, &lib, "a".into(), None, 8, &c).unwrap().0, true);
    let t = p.current().unwrap();
    assert_eq!((t.sha2.as_deref(), t.mods, t.title.as_str()), (Some("aa1"), 8, "title a"));
    assert_eq!(t.length_ms, double(2000.0));
    let (new, hit) = playlist_add(&mut p, &lib, "a".into(), Some("aa2".into()), 0, &c).unwrap();
    assert!(!new);
    assert_eq!(hit.unwrap().sha2.as_deref(), Some("aa2"));
    assert_eq!(playlist_add(&mut p, &lib, "x".into(), None, 0, &c).unwrap_err().message(), "谱面集不在曲库中");
}

#[test]
fn batches_pick_by_their_own_target() {
    let lib = library();
    let mut p = Playlist::new(1);
    let items: Vec<BatchAdd> = [("a", None, None), ("zz", None, None), ("b", None, Some(-1.0))]
        .iter()
        .map(|(id, sha2, target): &(&str, Option<String>, Option<f64>)| BatchAdd {
            set_id: id.to_string(),
            sha2: sha2.clone(),
            mods: 1,
            target: target.map(double),
        })
        .collect();
    let picks: Vec<Choice> =
        items.iter().map(|i| choice(&lib, i.target.map(|t| f64::from_bits(t.bits)))).collect();
    let show = choice(&lib, None);
    assert_eq!(playlist_add_batch(&mut p, &lib, &items, &picks, &show), 2);
    let q = p.queue();
    assert_eq!(q[0].sha2.as_deref(), Some("aa2"));
    assert_eq!(q[1].sha2.as_deref(), Some("b2.osu"));
    assert_eq!(q[1].title, "曲");
}

#[test]
fn rows_show_the_list() {
    let lib = library();
    let mut p = Playlist::new(1);
    p.add("a".into(), None, 4, "t".into(), "r".into(), double(5.0));
    p.add("gone".into(), Some("x".into()), 0, "g".into(), String::new(), double(1.0));
    let c = choice(&lib, None);
    let rows = queue(&p, None, &c);
    assert_eq!(rows.len(), 2);
    assert_eq!((rows[0].title.as_str(), rows[0].sha2.as_str(), rows[0].locked), ("t", "", false));
    assert!(rows[0].current && !rows[1].current && rows[1].locked);
    let rows = queue(&p, Some(&lib), &c);
    assert_eq!(rows.len(), 1);
    assert_eq!((rows[0].title.as_str(), rows[0].sha2.as_str(), rows[0].diff.as_str()), ("title a", "aa2", "name aa2"));
    assert_eq!((rows[0].star, rows[0].mods), (double(6.0), 4));
    let (title, artist, length) = track_display_meta(&lib.sets, 1, Some("b2.osu"), &c);
    assert_eq!((title.as_str(), artist.as_str(), length), ("曲", "Band", double(1000.0)));
}

#[test]
fn entries_are_edited() {
    let lib = library();
    let mut p = Playlist::new(1);
    let c = choice(&lib, None);
    playlist_add(&mut p, &lib, "a".into(), None, 0, &c).unwrap();
    playlist_add(&mut p, &lib, "b".into(), None, 0, &c).unwrap();
    let q: Vec<u64> = p.queue().iter().map(|t| t.qid).collect();
    assert_eq!(queue_set_entry(&mut p, 99, 0, None).unwrap_err().message(), "条目不存在");
    assert!(queue_set_entry(&mut p, q[1], 2, None).unwrap().is_none());
    assert_eq!(queue_set_entry(&mut p, q[0], 2, None).unwrap().unwrap().mods, 2);
    let easy = choice(&lib, Some(-1.0));
    let hit = queue_set_diff(&mut p, &lib, &q, &easy).unwrap().unwrap();
    assert_eq!((hit.sha2.as_deref(), hit.mods), (Some("aa1"), 2));
    assert_eq!(p.entry(q[1]).unwrap().sha2.as_deref(), Some("b2.osu"));
    assert!(queue_set_diff(&mut p, &lib, &Vec::new(), &easy).unwrap().is_none());
    assert_eq!(
        queue_set_diff(&mut p, &lib, &vec![99], &easy).unwrap_err().message(),
        "没有可设置的条目(曲库中不存在?)"
    );
}

#[test]
fn library_play_keeps_the_entry() {
    let lib = library();
    let mut p = Playlist::new(1);
    p.add("a".into(), Some("aa1".into()), 64, String::new(), String::new(), double(0.0));
    p.add("b".into(), None, 16, String::new(), String::new(), double(0.0));
    let t = library_play(&mut p, &lib, "b".into(), Some("b1.osu".into())).unwrap();
    assert_eq!((t.mods, t.sha2.as_deref()), (16, Some("b1.osu")));
    assert_eq!(p.current().unwrap().set_id, "b");
    let t = library_play(&mut p, &lib, "a".into(), None).unwrap();
    assert_eq!((t.mods, t.sha2.as_deref()), (64, Some("aa1")));
    assert!(library_play(&mut p, &lib, "x".into(), None).is_err());
    assert_eq!(p.queue().len(), 2);
}

#[test]
fn skipping() {
    let mut p = Playlist::new(1);
    assert!(matches!(skip_next(&mut p, true), Skip::Replay));
    assert!(matches!(skip_prev(&mut p, true), Skip::Again));
    p.add("a".into(), None, 0, String::new(), String::new(), double(0.0));
    p.add("b".into(), None, 0, String::new(), String::new(), double(0.0));
    assert!(matches!(skip_next(&mut p, false), Skip::Nothing));
    assert!(matches!(skip_next(&mut p, true), Skip::Load { track } if track.set_id == "b"));
    assert!(matches!(skip_prev(&mut p, true), Skip::Load { track } if track.set_id == "a"));
    assert!(matches!(skip_prev(&mut p, false), Skip::Again));
    p.set_mode(PlayMode::SingleLoop);
    assert!(matches!(skip_next(&mut p, true), Skip::Replay));
    assert_eq!(again_commands(true).len(), 2);
    assert_eq!(again_commands(false).len(), 1);
    assert_eq!(playlist_next(&mut p).unwrap().set_id, "b");
    assert!(playlist_prev(&mut p).is_none());
    assert_eq!(p.current().unwrap().set_id, "b");
    p.set_mode(PlayMode::ListOrder);
    assert_eq!(playlist_prev(&mut p).unwrap().set_id, "a");
    assert!(on_ended(&mut p, false).is_none());
    assert_eq!(on_ended(&mut p, true).unwrap().set_id, "b");
}

// ---------- loading ----------

#[test]
fn new_renderers_are_told_everything() {
    let mut s = Settings::default();
    s.sound.hitsound = false;
    s.places.ffmpeg = Some("mine".into());
    let cmds = spawn_commands(&s, Some("theirs".into()), Some("probe".into()));
    assert_eq!(cmds.len(), 16);
    assert!(matches!(cmds[0], Command::SetVolume { v } if value(v) == 0.6));
    assert!(matches!(cmds[1], Command::SetHitsVolume { v } if value(v) == 0.0));
    assert!(matches!(cmds[4], Command::SetHitAnimations { on: true }));
    assert!(matches!(&cmds[14], Command::SetFfmpegBins { ffmpeg: Some(a), ffprobe: Some(b) } if a == "mine" && b == "probe"));
    assert!(matches!(cmds[15], Command::SetLog { on: false }));
}

#[test]
fn events_are_used() {
    let u = event_use(&Event::Ended);
    assert!(u.advance && !u.remember && !u.last);
    let u = event_use(&Event::Exited);
    assert!(u.remember && u.last);
    assert!(!event_use(&Event::Detached).remember);
    let status = |playing| Event::Status {
        t_ms: single(5.0),
        duration_ms: single(0.0),
        playing,
        speed: single(1.0),
        user_speed: single(1.0),
        looping: false,
        fps: 0,
    };
    assert!(is_playing(Some(&status(true))) && !is_playing(Some(&status(false))) && !is_playing(None));
    assert!(matches!(toggle_play(Some(&status(true))), Command::Pause));
    assert!(matches!(toggle_play(None), Command::Resume));
    assert_eq!(value(current_place(Some(&status(true)))), 5.0);
    let mut s = Settings::default();
    assert!(reload_current_track(&s, true, None).is_none());
    s.list.lazer_set = Some("a".into());
    s.list.lazer_sha2 = Some("aa1".into());
    let (t, at) = reload_current_track(&s, true, Some(&status(true))).unwrap();
    assert_eq!((t.set_id.as_str(), t.sha2, value(at)), ("a", None, 5.0));
    assert!(reload_current_track(&s, false, None).is_none());
    assert_eq!(playing_track(&s).unwrap().sha2.as_deref(), Some("aa1"));
}

#[test]
fn tracks_are_located_and_kept() {
    let lib = library();
    let none: Vec<Double> = Vec::new();
    let set = find_set(&lib, "a").unwrap();
    assert!(matches!(find_set(&lib, "x"), Err(LoadError::NoSet)));
    let l = locate(&bare("a", None), set, Some("data"), PickPolicy::Hardest, &none).unwrap();
    assert_eq!(l.sha2, "aa2");
    assert!(l.must_exist && l.path.ends_with("aa2") && l.path.starts_with("data"));
    assert!(matches!(
        locate(&bare("a", None), set, None, PickPolicy::Hardest, &none),
        Err(LoadError::NoLazerDir)
    ));
    let path = l.path.clone();
    let c = confirm(l, set, Some("data"), true).unwrap();
    assert!(c.manifest.as_ref().unwrap()[0].path.ends_with("AB99"));
    let kept = cache_entry(set, Some("data"), &c.manifest);
    let playing = slow_path(set, c);
    assert_eq!((playing.title.as_str(), playing.length_ms), ("title a", double(6000.0)));
    match fast_path(&bare("a", Some("aa2")), Some(&kept), PickPolicy::Easiest, &none) {
        Known::Check { playing } => assert_eq!((playing.osu_path, playing.title.as_str()), (path, "name aa2")),
        other => panic!("{:?}", other),
    }
    match fast_path(&bare("a", Some("unknown")), Some(&kept), PickPolicy::Easiest, &none) {
        Known::Check { playing } => assert_eq!(playing.sha2, "aa1"),
        other => panic!("{:?}", other),
    }
    assert!(matches!(fast_path(&bare("a", None), None, PickPolicy::Easiest, &none), Known::Nothing));
    let empty = aria::pathcache::CachedSet { diffs: Vec::new(), manifest: None };
    assert!(matches!(fast_path(&bare("a", None), Some(&empty), PickPolicy::Easiest, &none), Known::Stale));
    let b = find_set(&lib, "b").unwrap();
    let l = locate(&bare("b", Some("b1.osu")), b, None, PickPolicy::Hardest, &none).unwrap();
    assert!(!l.must_exist && l.path.ends_with("b1.osu"));
    assert!(confirm(l, b, None, false).unwrap().manifest.is_none());
    let l = locate(&bare("a", None), set, Some("data"), PickPolicy::Hardest, &none).unwrap();
    let e = confirm(l, set, Some("data"), false).unwrap_err();
    assert!(e.message().starts_with("难度 blob 缺失(曲库可能已更新):data"));
    assert_eq!(LoadError::NoLazerDir.message(), "未找到 osu!lazer 数据目录");
    assert_eq!(LoadError::NoSet.message(), "谱面集不在曲库中(曲库可能已更新,请刷新)");
}

#[test]
fn loads_are_remembered() {
    let lib = library();
    let none: Vec<Double> = Vec::new();
    let mut s = Settings::default();
    s.shown.storyboard = false;
    let mut p = Playlist::new(1);
    p.add("a".into(), None, 0, String::new(), String::new(), double(0.0));
    let mut t = p.current().unwrap();
    t.mods = 72;
    let set = find_set(&lib, "a").unwrap();
    let l = locate(&t, set, Some("data"), PickPolicy::Easiest, &none).unwrap();
    let c = confirm(l, set, Some("data"), true).unwrap();
    let d = dispatch_load(&mut s, &mut p, &t, slow_path(set, c), Some("skin".into()), single(-4.0));
    assert_eq!(value(d.load.start), 0.0);
    assert!(!d.load.storyboard && !d.load.video && d.load.beatmap_hitsounds);
    assert_eq!((d.load.mods, d.load.skin.as_deref(), d.load.upscale.as_str()), (72, Some("skin"), "off"));
    assert_eq!(d.announced.sha2.as_deref(), Some("aa1"));
    assert_eq!(s.list.lazer_set.as_deref(), Some("a"));
    assert_eq!(s.list.playlist[0].title, "title a");
    assert_eq!(p.current().unwrap().length_ms, double(2000.0));
}

#[test]
fn playback_comes_back() {
    let mut s = Settings::default();
    let mut p = Playlist::new(1);
    assert!(matches!(begin_restore(&s, &mut p), Restore::Manual));
    assert!(manual_load(&s, None).is_none());
    s.manual.path = Some("m.osz".into());
    s.manual.diff = Some("d".into());
    let load = manual_load(&s, None).unwrap();
    assert_eq!((load.path.as_str(), load.diff.as_deref(), load.mods), ("m.osz", Some("d"), 0));
    s.list.lazer_set = Some("b".into());
    match begin_restore(&s, &mut p) {
        Restore::Try { track, again } => assert_eq!((track.set_id.as_str(), again), ("b", false)),
        other => panic!("{:?}", other),
    }
    assert!(matches!(restore_failed(&p, false), Restore::Forget));
    let mut q = Playlist::new(5);
    for id in ["a", "b", "c"] {
        q.add(id.into(), None, 3, "t".into(), String::new(), double(0.0));
    }
    q.advance();
    save_playlist(&mut s, &q);
    assert_eq!((s.list.playlist.len(), s.list.playlist_pos), (3, 1));
    s.list.lazer_set = Some("c".into());
    match begin_restore(&s, &mut p) {
        Restore::Try { track, .. } => assert_eq!((track.set_id.as_str(), track.mods), ("c", 3)),
        other => panic!("{:?}", other),
    }
    match restore_failed(&p, false) {
        Restore::Try { track, again } => assert_eq!((track.set_id.as_str(), again), ("c", true)),
        other => panic!("{:?}", other),
    }
    assert!(matches!(restore_failed(&p, true), Restore::Forget));
    forget_last(&mut s);
    assert!(s.list.lazer_set.is_none() && s.list.lazer_sha2.is_none());
    let lib = library();
    adopt_library(&mut s, &mut p, &lib);
    assert_eq!(s.list.playlist.len(), 2);
}

#[test]
fn library_is_kept_by_source() {
    assert!(cache_serves(Some("lazer"), "lazer", false));
    assert!(!cache_serves(Some("lazer"), "lazer", true));
    assert!(!cache_serves(Some("lazer"), "stable", false));
    assert!(!cache_serves(None, "lazer", false));
    assert_eq!(LibrarySource::parse("stable").missing(), "未找到 osu!stable 安装目录(需要 osu!.db)");
    assert_eq!(LibrarySource::parse("x").missing(), "未找到 osu!lazer 数据目录(client.realm)");
    let s = Settings::default();
    assert_eq!(wanted_source(None, &s), "lazer");
    assert_eq!(wanted_source(Some("stable".into()), &s), "stable");
    let p = library_payload("stable".into(), None, Some("osu".into()), library());
    assert!(p.realm_path.unwrap().ends_with("osu!.db"));
    assert!(!p.lazer_available && p.stable_available);
    let p = library_payload("lazer".into(), Some("r".into()), None, library());
    assert_eq!(p.realm_path.as_deref(), Some("r"));
    assert_eq!(p.sets.len(), 2);
}

#[test]
fn covers_stay_few() {
    let mut c = CoverCache::new();
    for i in 0..MAX_COVERS {
        c.put(format!("{i}"), None);
    }
    assert_eq!(c.get("0"), Some(None));
    c.put("x".into(), Some("u".into()));
    assert_eq!(c.get("0"), None);
    assert_eq!(c.get("x"), Some(Some("u".to_string())));
    c.clear();
    assert_eq!(c.get("x"), None);
}

// ---------- controls ----------

#[test]
fn controls_change_settings() {
    let mut s = Settings::default();
    assert!(matches!(set_volume(&mut s, single(3.0)), Command::SetVolume { v } if value(v) == 1.0));
    assert_eq!(value(s.sound.volume), 1.0);
    assert!(matches!(set_speed(&mut s, single(99.0)), Command::SetSpeed { x } if value(x) == 99.0));
    assert_eq!(value(s.play.speed), 16.0);
    assert!(matches!(set_audio_offset(&mut s, single(-5000.0)), Command::SetOffset { ms } if value(ms) == -1000.0));
    assert!(matches!(set_cursor_size(&mut s, single(0.0)), Command::SetCursorSize { x } if value(x) == 0.1));
    assert!(matches!(set_bg_opacity(&mut s, single(-1.0)), Command::SetBgOpacity { v } if value(v) == 0.0));
    assert!(matches!(set_hud(&mut s, true), Command::SetHud { on: true }));
    assert!(matches!(set_reduce_anim(&mut s, true), Command::SetHitAnimations { on: false }));
    assert!(s.shown.hud && s.shown.reduce_anim);
    assert!(matches!(set_hitsound(&mut s, false), Command::SetHitsVolume { v } if value(v) == 0.0));
    assert!(set_hits_volume(&mut s, single(0.25)).is_none());
    assert!(matches!(set_hitsound(&mut s, true), Command::SetHitsVolume { v } if value(v) == 0.25));
    assert!(set_hits_volume(&mut s, single(0.5)).is_some());
    set_storyboard(&mut s, false);
    assert!(!s.shown.storyboard);
}

#[test]
fn modes_and_closing() {
    let mut s = Settings::default();
    for m in ["always", "autopause", "fs_pause", "fs_sleep", "off"] {
        assert!(set_render_mode(&mut s, m.to_string()).is_ok());
        assert_eq!(s.clone().migrate().render.render_mode, m);
    }
    assert_eq!(set_render_mode(&mut s, "x".into()).unwrap_err().message(), "未知渲染模式：x");
    assert_eq!(s.render.render_mode, "off");
    assert!(matches!(close_requested(&s), Closing::Ask));
    assert_eq!(set_close_action(&mut s, Some("x".into())).unwrap_err().message(), "未知关闭行为：x");
    set_close_action(&mut s, Some("exit".into())).unwrap();
    assert!(matches!(close_requested(&s), Closing::Quit));
    assert!(matches!(close_window(&mut s, "tray".into(), false), Closing::Tray));
    assert!(matches!(close_requested(&s), Closing::Quit));
    close_window(&mut s, "tray".into(), true);
    assert!(matches!(close_requested(&s), Closing::Tray));
    let mut p = Playlist::new(1);
    assert!(playlist_set(&mut s, &mut p, "random", Some("c".into())).is_ok());
    assert_eq!((s.play.play_mode, p.mode()), (PlayMode::Random, PlayMode::Random));
    assert_eq!(playlist_set(&mut s, &mut p, "x", None).unwrap_err().message(), "未知播放模式：x");
    assert_eq!(tray_action("next"), TrayAction::Next);
    assert_eq!(tray_action("sep-1"), TrayAction::Nothing);
}

#[test]
fn places_are_checked() {
    let mut s = Settings::default();
    s.list.lazer_set = Some("a".into());
    assert_eq!(source_set(&mut s, "x".into(), true).unwrap_err().message(), "未知曲库源：x");
    assert!(matches!(source_set(&mut s, "stable".into(), false), Err(Refusal::NoStable)));
    assert!(s.list.lazer_set.is_some());
    source_set(&mut s, "stable".into(), true).unwrap();
    assert!(s.list.lazer_set.is_none() && s.places.source == "stable");
    assert_eq!(dir_kind("x").unwrap_err().message(), "未知数据目录类型：x");
    assert_eq!(dir_kind("lazer").unwrap(), DirKind::Lazer);
    set_data_dir(&mut s, DirKind::Stable, Some("d".into()));
    assert_eq!(s.places.stable_dir.as_deref(), Some("d"));
    let e = set_ffmpeg_bins(&mut s, Some("f".into()), None, false, false).unwrap_err();
    assert_eq!(e.message(), "ffmpeg:文件不存在 f");
    let e = set_ffmpeg_bins(&mut s, None, Some("g".into()), false, false).unwrap_err();
    assert_eq!(e.message(), "ffprobe:文件不存在 g");
    set_ffmpeg_bins(&mut s, Some("f".into()), None, true, false).unwrap();
    assert_eq!(s.places.ffmpeg.as_deref(), Some("f"));
    assert_eq!(bin_status(None, Some("b".into()), Some("p".into())), (Some("b".to_string()), BinSource::Bundled));
    assert_eq!(bin_status(None, None, None).1.name(), "none");
    assert!(open_url("https://x").is_ok() && open_url("http://x").is_ok());
    assert_eq!(open_url("file:x").unwrap_err().message(), "仅支持 http(s) 链接:file:x");
    assert_eq!(check_log(None).unwrap_err().message(), "日志文件尚未生成(先打开日志记录)");
    assert_eq!(check_log(Some(" \n")).unwrap_err().message(), "日志为空");
    assert!(check_log(Some("x")).is_ok());
    assert_eq!(Refusal::NotReady.message(), "曲库未就绪,稍后再试");
}

// ---------- skins ----------

#[test]
fn skins_are_chosen() {
    let lib = library();
    assert_eq!(find_skin(&lib, "7").unwrap().name, "Neat");
    assert!(find_skin(&lib, "8").is_none());
    assert!(matches!(skin_ref(&None), SkinRef::Builtin));
    assert!(matches!(skin_ref(&Some("realm:skin:7".into())), SkinRef::Realm { id } if id == "7"));
    assert!(matches!(skin_ref(&Some("C:/s".into())), SkinRef::Dir { path } if path == "C:/s"));
    assert_eq!(set_skin(Some("realm:skin:9".into()), false).unwrap_err().message(), "皮肤不可用:realm:skin:9");
    assert_eq!(set_skin(Some("C:/s".into()), false).unwrap_err().message(), "皮肤不存在:C:/s");
    assert_eq!(set_skin(Some("C:/s".into()), true).unwrap().as_deref(), Some("C:/s"));
    assert!(set_skin(None, false).unwrap().is_none());
    let mut s = Settings::default();
    assert!(matches!(set_force_skin_colours(&mut s, true, None), Command::SetSkin { force_colours: true, .. }));
    let c = apply_skin(&mut s, Some("realm:skin:7".into()), Some("dir".into()));
    assert!(matches!(c, Command::SetSkin { skin: Some(d), force_colours: true } if d == "dir"));
    assert_eq!(s.places.skin.as_deref(), Some("realm:skin:7"));
}

#[test]
fn archives_name_their_skins() {
    assert_eq!(osk_name("Cool.osk").as_deref(), Some("Cool"));
    assert_eq!(osk_name("Cool.OSK_2").as_deref(), Some("Cool"));
    assert_eq!(osk_name("é.x.osk").as_deref(), Some("é.x"));
    assert_eq!(osk_name("İx.osk").as_deref(), Some("İx"));
    assert_eq!(osk_name("a.os\u{212A}").as_deref(), Some("a"));
    assert!(osk_name(".osk").is_none());
    assert!(osk_name("readme.txt").is_none());
}

#[test]
fn skins_are_listed_by_source_and_name() {
    let lib = library();
    let e = |name: &str, is_dir: bool| DirEntry { name: name.into(), path: format!("p/{name}"), is_dir };
    let lazer = vec![e("alpha.osk", false), e("notes.txt", false)];
    let stable = vec![e("zeta", true), e("Beta", true), e("", true)];
    assert_eq!(list_skin_dir(&lazer, "lazer").len(), 1);
    let all = skin_list(&lib.skins, &lazer, &stable);
    let names: Vec<&str> = all.iter().map(|c| c.name.as_str()).collect();
    assert_eq!(names, ["alpha", "Neat (me)", "Beta", "zeta"]);
    assert_eq!(all[1].path, "realm:skin:7");
    assert_eq!((all[0].source.as_str(), all[3].source.as_str()), ("lazer", "stable"));
}
