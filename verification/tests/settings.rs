use aria::ieee::{Double, Single};
use aria::ipc::ONE;
use aria::playlist::PlayMode;
use aria::settings::{
    autostart_command, default_bg_opacity, default_hits_volume, default_render_mode,
    default_source, default_volume, load, restored, save, Settings, Stored,
};

fn flag(v: &serde_json::Value, name: &str) -> Option<bool> {
    v.get(name).and_then(|x| x.as_bool())
}

fn bare_stored() -> Stored {
    Stored {
        path: None,
        diff: None,
        fail: None,
        speed: None,
        loop_playback: None,
        autostart: None,
        source: None,
        lazer_dir: None,
        stable_dir: None,
        play_mode: None,
        collection: None,
        volume: None,
        hitsound: None,
        beatmap_hitsounds: None,
        hits_volume: None,
        master_volume: None,
        fade_audio: None,
        audio_offset_ms: None,
        hud: None,
        pp: None,
        reduce_anim: None,
        break_lighten: None,
        cursor: None,
        cursor_size: None,
        gameplay_hidden: None,
        render_mode: None,
        ffmpeg: None,
        ffprobe: None,
        pure_audio: None,
        auto_pause_render: None,
        bg_opacity: None,
        hidden: None,
        storyboard: None,
        skin: None,
        force_skin_colours: None,
        fps: None,
        target_star: None,
        star_min: None,
        lazer_set: None,
        lazer_sha2: None,
        close_action: None,
        log_enabled: None,
        dblclick_add: None,
        quick_add: None,
        quick_mods: None,
        playlist: None,
        playlist_pos: None,
    }
}

/// What a file of the time before most settings says.
fn stored_of(json: &str) -> Stored {
    let v: serde_json::Value = serde_json::from_str(json).unwrap();
    let mut st = bare_stored();
    st.fail = flag(&v, "fail");
    st.speed = v.get("speed").and_then(|x| x.as_f64()).map(|x| Single::from_bits((x as f32).to_bits()));
    st.autostart = flag(&v, "autostart");
    st.gameplay_hidden = flag(&v, "gameplay_hidden");
    st.beatmap_hitsounds = flag(&v, "beatmap_hitsounds");
    st.break_lighten = flag(&v, "break_lighten");
    st
}

const LEGACY: &str = "{\"path\":null,\"diff\":null,\"fail\":false,\"speed\":1.0,\"autostart\":false,\"gameplay_hidden\":false}";

#[test]
fn beatmap_hitsounds_defaults_on() {
    assert!(Settings::default().sound.beatmap_hitsounds, "默认必须开启谱面音效");
    let legacy = restored(stored_of(LEGACY)).unwrap();
    assert!(legacy.sound.beatmap_hitsounds, "旧配置缺字段应回落默认开");
    let mut off = Settings::default();
    off.sound.beatmap_hitsounds = false;
    let reread = restored(save(off)).unwrap();
    assert!(!reread.sound.beatmap_hitsounds, "显式关闭必须被持久化");
}

#[test]
fn break_lighten_defaults_off() {
    assert!(!Settings::default().shown.break_lighten, "壁纸特设:默认关");
    let legacy = restored(stored_of(LEGACY)).unwrap();
    assert!(!legacy.shown.break_lighten, "旧配置缺字段应回落默认关");
}

#[test]
fn defaults_have_their_values() {
    let s = Settings::default();
    assert_eq!(f32::from_bits(s.sound.volume.bits), 0.6);
    assert_eq!(f32::from_bits(s.sound.hits_volume.bits), 0.8);
    assert_eq!(f32::from_bits(s.sound.master_volume.bits), 1.0);
    assert_eq!(f32::from_bits(s.shown.bg_opacity.bits), 0.7);
    assert_eq!(f32::from_bits(s.shown.cursor_size.bits), 1.0);
    assert_eq!(f32::from_bits(s.play.speed.bits), 1.0);
    assert_eq!(s.places.source, "lazer");
    assert_eq!(s.render.render_mode, "autopause");
    assert_eq!(s.play.play_mode, PlayMode::ListOrder);
    assert!(s.sound.hitsound && s.sound.fade_audio && s.shown.cursor && s.shown.storyboard);
    assert!(s.program.quick_add && !s.program.dblclick_add && !s.shown.hud && !s.shown.pp);
    assert!(s.list.playlist.is_empty() && s.list.playlist_pos == 0);
    assert_eq!(default_volume(), s.sound.volume);
    assert_eq!(default_hits_volume(), s.sound.hits_volume);
    assert_eq!(default_bg_opacity(), s.shown.bg_opacity);
    assert_eq!(default_source(), "lazer");
    assert_eq!(default_render_mode(), "autopause");
}

#[test]
fn incomplete_settings_are_dropped() {
    let mut st = stored_of(LEGACY);
    st.speed = None;
    st.source = Some("stable".into());
    assert!(restored(st).is_none());
    let mut st = stored_of(LEGACY);
    st.fail = None;
    st.volume = Some(Single::from_bits(0));
    assert_eq!(load(Some(st)).sound.volume, default_volume());
}

#[test]
fn saved_settings_come_back() {
    let mut s = Settings::default();
    s.manual.path = Some("p".into());
    s.play.target_star = Some(Double::from_bits(4.5f64.to_bits()));
    s.places.source = "stable".into();
    s.render.render_mode = "fs_sleep".into();
    s.program.close_action = Some("tray".into());
    s.program.quick_mods = 72;
    s.list.playlist_pos = 3;
    let back = load(Some(save(s)));
    assert_eq!(back.manual.path.as_deref(), Some("p"));
    assert_eq!(back.play.target_star, Some(Double::from_bits(4.5f64.to_bits())));
    assert_eq!(back.places.source, "stable");
    assert_eq!(back.render.render_mode, "fs_sleep");
    assert_eq!(back.program.close_action.as_deref(), Some("tray"));
    assert_eq!(back.program.quick_mods, 72);
    assert_eq!(back.list.playlist_pos, 3);
}

#[test]
fn older_switches_become_the_mode() {
    let mut st = stored_of(LEGACY);
    st.pure_audio = Some(true);
    let s = load(Some(st));
    assert_eq!(s.render.render_mode, "off");
    assert!(!s.render.pure_audio);
    let mut st = stored_of(LEGACY);
    st.auto_pause_render = Some(false);
    let s = load(Some(st));
    assert_eq!(s.render.render_mode, "always");
    assert!(s.render.auto_pause_render);
    let mut st = stored_of(LEGACY);
    st.render_mode = Some("sometimes".into());
    assert_eq!(load(Some(st)).render.render_mode, "autopause");
    assert_eq!(load(None).render.render_mode, "autopause");
}

#[test]
fn migration_settles() {
    let mut s = Settings::default();
    s.render.auto_pause_render = false;
    let once = s.migrate();
    let mode = once.render.render_mode.clone();
    assert_eq!(once.migrate().render.render_mode, mode);
    let mut s = Settings::default();
    s.render.pure_audio = true;
    s.render.auto_pause_render = false;
    let once = s.migrate();
    assert_eq!(once.render.render_mode, "off");
    assert!(once.render.auto_pause_render && !once.render.pure_audio);
    assert_eq!(once.migrate().render.render_mode, "off");
}

#[test]
fn unpacked_skins_are_forgotten() {
    let mut st = stored_of(LEGACY);
    st.skin = Some("C:/x/skin-cache/y".into());
    assert!(load(Some(st)).places.skin.is_none());
    let mut st = stored_of(LEGACY);
    st.skin = Some("realm:skin:1".into());
    assert_eq!(load(Some(st)).places.skin.as_deref(), Some("realm:skin:1"));
}

#[test]
fn autostart_is_quoted_and_hidden() {
    assert_eq!(autostart_command("C:\\Program Files\\Aria.exe"), "\"C:\\Program Files\\Aria.exe\" --hidden");
    assert_eq!(ONE, 1.0f32.to_bits());
}
