use aria::ieee::{Double, Single};
use aria::loader::{
    is_archive, needs_writing, pick_diff, resolve, resolve_with, unpack_dir, unpack_dir_for, wanted,
    Library, Source, ZipEntry,
};
use aria::logging::{
    civil_from_days, default_path, enabled, explicit_level, level_for, log_line, set_enabled, timestamp,
    Level,
};
use aria::pathcache::{CacheEntry, CachedSet, PathCache, MAX_SETS};
use aria::realm::{
    double_value, first_link, float_value, int_value, reads_whole, string_value, timestamp_ms,
    uuid_string, Link, Value, BULK_ROW_LIMIT,
};
use aria::scene::{
    can_reswap, order_by_time, plan_scene, scene_size, storyboard_slot, wants_background, Found, Look,
};
use aria::sorting::str_lt;
use aria::text::{
    chars_of, decimal_of, ends_with, eq_ignore_ascii_case, find_str, hex_of, split_on, strip_prefix,
    to_ascii_lowercase, trim, trim_matches, zero_padded_of,
};
use aria::win::{
    bounds_of, client_size, desktop_covered, fill_parent, monitor_refresh_hz, place_in, Ask, Attach,
    Bounds, Depth, Layout, Rect,
    Reply, Shown, Top, Worker, WS_CHILD, WS_EX_LAYERED, WS_EX_NOREDIRECTIONBITMAP, WS_EX_TRANSPARENT,
};

fn single(x: f32) -> Single {
    Single::from_bits(x.to_bits())
}

fn double(x: f64) -> Double {
    Double::from_bits(x.to_bits())
}

// ---------- numbers and texts ----------

#[test]
fn numbers_order_as_they_do() {
    let xs = [f64::NEG_INFINITY, -2.5, -0.0, 0.0, 1e-300, 3.5, f64::INFINITY, f64::NAN];
    for a in xs {
        for b in xs {
            assert_eq!(double(a).lt(&double(b)), a < b, "{} < {}", a, b);
            assert_eq!(double(a).le(&double(b)), a <= b, "{} <= {}", a, b);
        }
    }
    let ys = [f32::NEG_INFINITY, -2.5, -0.0, 0.0, 3.5, f32::INFINITY, f32::NAN];
    for a in ys {
        assert_eq!(f32::from_bits(single(a).abs().bits).to_bits(), a.abs().to_bits());
        let c = f32::from_bits(single(a).clamp(single(0.0), single(1.0)).bits);
        assert!(c == a.clamp(0.0, 1.0) || (c.is_nan() && a.is_nan()));
        for b in ys {
            assert_eq!(single(a).lt(&single(b)), a < b);
            let m = f32::from_bits(single(a).max(single(b)).bits);
            assert!(m == a.max(b) || (m.is_nan() && a.is_nan() && b.is_nan()), "{} {}", a, b);
        }
    }
}

#[test]
fn texts_are_cut_and_joined() {
    assert_eq!(trim(" \t x y \n"), "x y");
    assert_eq!(trim_matches("\"\"a\"", '"'), "a");
    assert_eq!(split_on("a,,b", ','), ["a", "", "b"]);
    assert_eq!(strip_prefix("realm:skin:7", "realm:skin:").as_deref(), Some("7"));
    assert!(strip_prefix("realm", "realm:").is_none());
    assert!(ends_with("abc", "bc") && !ends_with("c", "bc"));
    assert_eq!(to_ascii_lowercase("AÉz"), "aÉz");
    assert!(eq_ignore_ascii_case("FaV", "fAv"));
    assert_eq!(find_str("abcabc", "ca"), Some(2));
    assert_eq!(find_str("abc", "x"), None);
    assert_eq!(decimal_of(1203), "1203");
    assert_eq!(hex_of(0xBEEF, 6), "00beef");
    assert_eq!(zero_padded_of(7, 3), "007");
    assert_eq!(zero_padded_of(12345, 3), "12345");
    assert_eq!(chars_of("aé").len(), 2);
    assert!(str_lt("a", "b") && str_lt("a", "aa") && !str_lt("b", "a") && !str_lt("a", "a"));
}

// ---------- the log ----------

#[test]
fn levels_follow_the_target() {
    assert_eq!(level_for(None, "aria"), Level::Info);
    assert_eq!(level_for(None, "aria::wall"), Level::Info);
    assert_eq!(level_for(None, "ariadne"), Level::Warn);
    assert_eq!(level_for(None, "wgpu_core::device"), Level::Error);
    assert_eq!(level_for(None, "kira"), Level::Warn);
    assert_eq!(level_for(Some(Level::Trace), "wgpu"), Level::Trace);
    assert!(enabled(None, Level::Warn, "kira"));
    assert!(!enabled(None, Level::Info, "kira"));
    assert!(enabled(None, Level::Error, "naga") && !enabled(None, Level::Warn, "naga"));
}

#[test]
fn bare_levels_are_explicit() {
    assert_eq!(explicit_level(Some("debug")), Some(Level::Debug));
    assert_eq!(explicit_level(Some("TRACE")), Some(Level::Trace));
    assert_eq!(explicit_level(Some("Off")), Some(Level::Off));
    assert_eq!(explicit_level(Some("warn")), Some(Level::Warn));
    assert_eq!(explicit_level(Some("error")), Some(Level::Error));
    assert_eq!(explicit_level(Some("info")), Some(Level::Info));
    assert_eq!(explicit_level(Some("aria=debug")), None);
    assert_eq!(explicit_level(None), None);
}

#[test]
fn lines_have_their_columns() {
    assert_eq!(log_line("T", Level::Warn, "aria", "msg"), "[T WARN  aria] msg");
    assert_eq!(log_line("T", Level::Error, "x", ""), "[T ERROR x] ");
}

#[test]
fn dates_are_gregorian() {
    assert_eq!(civil_from_days(0), (1970, 1, 1));
    assert_eq!(civil_from_days(59), (1970, 3, 1));
    assert_eq!(civil_from_days(11016), (2000, 2, 29));
    assert_eq!(civil_from_days(11017), (2000, 3, 1));
    assert_eq!(civil_from_days(19782), (2024, 2, 29));
    assert_eq!(civil_from_days(-1), (1969, 12, 31));
    assert_eq!(civil_from_days(-719468), (0, 3, 1));
    assert_eq!(civil_from_days(-719469), (0, 2, 29));
    assert_eq!(timestamp(951_782_399, 7), "2000-02-28T23:59:59.007Z");
    assert_eq!(timestamp(0, 0), "1970-01-01T00:00:00.000Z");
}

#[test]
fn switching_the_log() {
    assert!(default_path(None).is_none());
    let p = default_path(Some("app")).unwrap();
    assert!(p.starts_with("app") && p.ends_with("aria.log") && p.contains("com.ohdmire.aria"), "{}", p);
    let on = set_enabled(true, Some("app"));
    assert_eq!(on.file.as_deref(), Some(p.as_str()));
    assert_eq!(on.message, "日志记录已开启");
    let off = set_enabled(false, Some("app"));
    assert!(off.file.is_none());
    assert_eq!(off.message, "日志记录已关闭");
    assert!(set_enabled(true, None).file.is_none());
}

// ---------- the loader ----------

fn entry(name: &str) -> ZipEntry {
    ZipEntry { name: name.to_string(), is_dir: false }
}

fn archive(names: &[&str]) -> Source {
    Source::Archive { root: "tmp".into(), entries: names.iter().map(|n| entry(n)).collect() }
}

#[test]
fn archives_stay_below() {
    assert!(wanted(&entry("a/b.osu")));
    assert!(!wanted(&entry("../b.osu")));
    assert!(!wanted(&entry("a\\..\\b.osu")));
    assert!(wanted(&entry("a..b/c")));
    assert!(!wanted(&entry("/a.osu")));
    assert!(!wanted(&entry("\\a.osu")));
    assert!(!wanted(&entry("C:\\x.osu")));
    assert!(!wanted(&entry("C:x.osu")));
    assert!(wanted(&entry("ab:c.osu")) && wanted(&entry("x [Re: Zero].osu")));
    assert!(wanted(&entry("1:00.osu")) && wanted(&entry("a/C:.osu")));
    assert!(!wanted(&ZipEntry { name: "a".into(), is_dir: true }));
    assert!(needs_writing(None, 3) && needs_writing(Some(2), 3) && !needs_writing(Some(3), 3));
}

#[test]
fn archives_give_their_beatmaps() {
    let b = resolve("x/map.OSZ", archive(&["a.osb", "d1.osu", "../e.osu", "D2.OSU"])).unwrap();
    assert_eq!(b.diffs, ["d1.osu", "D2.OSU"]);
    assert!(!b.is_osb);
    assert_eq!(b.root, "tmp");
    assert!(b.input.ends_with("d1.osu") && b.input.starts_with("tmp"));
    let b = resolve("map.osz", archive(&["C:x.osu", "ab:c.osu"])).unwrap();
    assert_eq!(b.diffs, ["ab:c.osu"]);
    assert!(!b.is_osb && b.input.ends_with("ab:c.osu") && b.input.starts_with("tmp"));
    let b = resolve("map.osz", archive(&["q.osb", "a.osb"])).unwrap();
    assert!(b.is_osb && b.diffs.is_empty() && b.input.ends_with("q.osb"));
    let e = resolve("map.osz", archive(&["x.mp3"])).unwrap_err();
    assert_eq!(e.message(), "解析 map.osz: map.osz 中未找到 .osb/.osu 文件");
}

#[test]
fn plain_files_are_inputs() {
    let b = resolve("dir/map.osu", Source::File).unwrap();
    assert_eq!((b.root.as_str(), b.input.as_str(), b.is_osb), ("dir", "dir/map.osu", false));
    let b = resolve("map.osb", Source::File).unwrap();
    assert_eq!((b.root.as_str(), b.is_osb), (".", true));
    assert_eq!(resolve("/map.osu", Source::File).unwrap().root, "/");
    assert_eq!(resolve("a/b/map.osu", Source::File).unwrap().root, "a/b");
    assert!(is_archive("a/b.osz") && !is_archive("a/b.osu") && !is_archive("osz"));
    let b = resolve_with("p", Some("OSB".into()), None, Source::File).unwrap();
    assert!(b.is_osb && b.root == ".");
    assert_eq!(resolve("x", Source::Missing).unwrap_err().message(), "解析 x: 文件不存在: x");
    let e = resolve("x", Source::Unreadable { reason: "r".into() }).unwrap_err();
    assert_eq!(e.message(), "解析 x: r");
}

#[test]
fn difficulties_are_picked_by_name() {
    let diffs: Vec<String> = ["Band [Easy].osu", "Band [Hard].osu", "Hard"].iter().map(|s| s.to_string()).collect();
    assert_eq!(pick_diff(&diffs, None).unwrap().as_deref(), Some("Band [Easy].osu"));
    assert_eq!(pick_diff(&diffs, Some("")).unwrap().as_deref(), Some("Band [Easy].osu"));
    assert_eq!(pick_diff(&diffs, Some("hard")).unwrap().as_deref(), Some("Hard"));
    assert_eq!(pick_diff(&diffs, Some("EASY")).unwrap().as_deref(), Some("Band [Easy].osu"));
    assert_eq!(pick_diff(&diffs, Some("band")).unwrap_err().message(), "难度 “band” 匹配到多个文件,请用更长的名称");
    assert_eq!(
        pick_diff(&diffs, Some("Oni")).unwrap_err().message(),
        "未找到难度 “Oni”,可用难度: Band [Easy].osu / Band [Hard].osu / Hard"
    );
    assert!(pick_diff(&Vec::new(), None).unwrap().is_none());
    assert!(pick_diff(&Vec::new(), Some("Hard")).unwrap().is_none());
}

#[test]
fn inputs_are_looked_at_once() {
    let mut lib = Library::new();
    assert!(!lib.knows("m.osz"));
    assert!(lib.probe("m.osz", Source::Missing).is_err());
    assert!(!lib.knows("m.osz"));
    let w = lib.load("m.osz", Some("two"), archive(&["one.osu", "two.osu"])).unwrap();
    assert_eq!(w.diff.as_deref(), Some("two.osu"));
    assert!(w.map_path.ends_with("two.osu"));
    assert!(lib.knows("m.osz"));
    assert_eq!(lib.probe("m.osz", Source::Missing).unwrap().diffs.len(), 2);
    let w = lib.load("d/s.osu", None, Source::File).unwrap();
    assert_eq!((w.map_path.as_str(), w.diff), ("d/s.osu", None));
    let w = lib.load("d/s.osu", Some("Hard"), Source::File).unwrap();
    assert_eq!((w.map_path.as_str(), w.diff), ("d/s.osu", None));
    let e = lib.load("s.osb", None, Source::File).unwrap_err();
    assert_eq!(e.message(), "播放模式需要 .osz / .osu(纯 .osb 没有可游玩内容)");
}

#[test]
fn archives_have_their_directories() {
    let a = unpack_dir("tmp", "a.osz");
    assert_eq!(a, unpack_dir("tmp", "a.osz"));
    assert_ne!(a, unpack_dir("tmp", "b.osz"));
    assert!(a.starts_with("tmp"));
    assert!(unpack_dir("tmp/", "a.osz").starts_with("tmp/aria"));
    assert_ne!(a, unpack_dir("a.osz", "tmp"));
    assert!(unpack_dir_for("tmp", 255).ends_with("00000000000000ff"));
}

// ---------- what was played ----------

fn cached(n: usize) -> CachedSet {
    let _ = n;
    CachedSet { diffs: Vec::new(), manifest: None }
}

#[test]
fn oldest_set_makes_room() {
    let mut c = PathCache::new();
    for i in 0..MAX_SETS {
        c.put(&format!("s{i}"), cached(i));
    }
    c.put("s5", cached(1));
    assert_eq!(c.entries().len(), MAX_SETS);
    assert!(c.get("s0").is_some());
    c.put("new", cached(1));
    assert_eq!(c.entries().len(), MAX_SETS);
    assert!(c.get("s0").is_none() && c.get("s1").is_some() && c.get("new").is_some());
    assert!(c.remove("new") && !c.remove("new"));
    assert!(c.get("new").is_none());
}

#[test]
fn stored_sets_come_back_once() {
    let e = |id: &str, m: bool| CacheEntry {
        set_id: id.to_string(),
        set: CachedSet { diffs: Vec::new(), manifest: if m { Some(Vec::new()) } else { None } },
    };
    let c = PathCache::load(vec![e("a", false), e("b", false), e("a", true)]);
    let ids: Vec<&str> = c.entries().iter().map(|e| e.set_id.as_str()).collect();
    assert_eq!(ids, ["a", "b"]);
    assert!(c.get("a").unwrap().manifest.is_some());
}

// ---------- values ----------

#[test]
fn values_are_read_by_kind() {
    assert_eq!(string_value(Some(&Value::Text("x".into()))), "x");
    assert_eq!(string_value(Some(&Value::Int(1))), "");
    assert_eq!(int_value(Some(&Value::Int(7)), -1), 7);
    assert_eq!(int_value(None, -1), -1);
    assert_eq!(double_value(Some(&Value::Double(double(1.5))), double(0.0)), double(1.5));
    assert_eq!(float_value(Some(&Value::Float(double(2.5)))), double(2.5));
    assert_eq!(timestamp_ms(Some(&Value::Timestamp(9))), 9);
    assert_eq!(uuid_string(Some(&Value::Uuid(vec![1, 171]))), "01ab");
    let link = Link { table: 1, row: 2 };
    assert_eq!(first_link(&Value::LinkList(vec![link])), Some(link));
    assert_eq!(first_link(&Value::LinkList(Vec::new())), None);
    assert!(reads_whole(Some(BULK_ROW_LIMIT)) && !reads_whole(Some(BULK_ROW_LIMIT + 1)));
    assert!(reads_whole(None));
}

// ---------- the desktop ----------

fn rect(l: i32, t: i32, r: i32, b: i32) -> Rect {
    Rect { left: l, top: t, right: r, bottom: b }
}

fn shown(window: u64, class: &str, r: Rect) -> Shown {
    Shown { window, visible: true, iconic: false, class: class.to_string(), cloaked: false, bounds: Some(r) }
}

#[test]
fn desktop_is_covered_on_every_screen() {
    let areas = vec![rect(0, 0, 100, 90), rect(100, 0, 200, 90)];
    let one = shown(1, "App", rect(0, 0, 100, 100));
    let two = shown(2, "App", rect(90, -5, 200, 90));
    assert!(!desktop_covered(&areas, &vec![one], 9));
    let one = shown(1, "App", rect(0, 0, 100, 100));
    let all = vec![one, two];
    assert!(desktop_covered(&areas, &all, 9));
    assert!(!desktop_covered(&areas, &all, 2));
    assert!(!desktop_covered(&Vec::new(), &all, 9));
    let mut hidden = shown(3, "App", rect(-9, -9, 999, 999));
    hidden.cloaked = true;
    let shell = shown(4, "WorkerW", rect(-9, -9, 999, 999));
    assert!(!desktop_covered(&areas, &vec![hidden, shell], 9));
    let mut small = shown(5, "App", rect(-9, -9, 999, 999));
    small.iconic = true;
    assert!(!desktop_covered(&areas, &vec![small], 9));
}

#[test]
fn sizes_of_windows() {
    assert_eq!(client_size(Some(rect(0, 0, 1920, 1080))), (1920, 1080));
    assert_eq!(client_size(Some(rect(5, 5, 1, 1))), (0, 0));
    assert_eq!(client_size(None), (0, 0));
    let b = bounds_of(&vec![-1920, 0, 1920, 1080]).unwrap();
    assert_eq!(b, Bounds { x: -1920, y: 0, width: 1920, height: 1080 });
    assert_eq!(place_in(&b, &Rect { left: -1920, top: -10, right: 0, bottom: 1080 }), (0, 10));
    let far = Bounds { x: i32::MAX, y: i32::MIN, width: 1, height: 1 };
    let carrier = Rect { left: -1, top: 1, right: 2, bottom: 2 };
    assert_eq!(place_in(&far, &carrier), (i32::MAX, i32::MIN));
    assert!(bounds_of(&vec![0, 0, 0, 5]).is_none() && bounds_of(&vec![0, 0, 5]).is_none());
    assert_eq!(monitor_refresh_hz(Some(144)), 144);
    assert_eq!(monitor_refresh_hz(Some(0)), 1);
    assert_eq!(monitor_refresh_hz(None), 60);
    assert_eq!(fill_parent((3, 4)), Some((3, 4)));
    assert_eq!(fill_parent((0, 4)), None);
}

fn layout(raised: bool, icons: u64) -> Layout {
    Layout {
        desktop_ex: if raised { WS_EX_NOREDIRECTIONBITMAP } else { 0 },
        icons,
        shell_pid: 7,
        ex: 0,
        style: 0x80C0_0000,
        classic: false,
    }
}

#[test]
fn raised_desktop_is_attached_below_the_icons() {
    let mut a = Attach::new(50);
    assert_eq!(a.next(Reply::Window { window: 1 }), Ask::Spawn { timeout_ms: 1000 });
    assert_eq!(a.next(Reply::Done), Ask::ReadLayout);
    let ask = a.next(Reply::Found { layout: layout(true, 2) });
    match ask {
        Ask::Restyle { ex, style, layered } => {
            assert!(layered && ex & WS_EX_LAYERED != 0);
            assert_eq!(style, WS_CHILD);
        }
        _ => panic!("{:?}", ask),
    }
    assert_eq!(a.next(Reply::Done), Ask::Reparent { parent: 1 });
    assert_eq!(a.next(Reply::Parented { ok: true }), Ask::Measure { parent: 1 });
    assert_eq!(
        a.next(Reply::Size { width: 10, height: 5 }),
        Ask::Place { depth: Depth::Below { window: 2 }, width: 10, height: 5 }
    );
    match a.next(Reply::Done) {
        Ask::Finish { host } => assert_eq!((host.parent, host.child, host.width, host.height), (1, 50, 10, 5)),
        other => panic!("{:?}", other),
    }
}

#[test]
fn refused_window_is_no_child() {
    let mut a = Attach::new(50);
    a.next(Reply::Window { window: 1 });
    a.next(Reply::Done);
    a.next(Reply::Found { layout: layout(true, 2) });
    a.next(Reply::Done);
    assert_eq!(a.next(Reply::Parented { ok: false }), Ask::SetStyle { style: 0 });
    match a.next(Reply::Done) {
        Ask::Finish { host } => assert_eq!(host.parent, 0),
        other => panic!("{:?}", other),
    }
}

#[test]
fn only_windows_of_the_shell_are_used() {
    let mut a = Attach::new(50);
    a.next(Reply::Window { window: 1 });
    a.next(Reply::Done);
    assert_eq!(a.next(Reply::Found { layout: layout(false, 0) }), Ask::ListTops { most: 512 });
    assert_eq!(a.next(Reply::Tops { on_desktop: false, tops: Vec::new() }), Ask::Spawn { timeout_ms: 3000 });
    assert_eq!(a.next(Reply::Done), Ask::ListTops { most: 512 });
    let tops = vec![Top { window: 8, has_icons: false }, Top { window: 9, has_icons: true }];
    assert_eq!(a.next(Reply::Tops { on_desktop: false, tops }), Ask::ListWorkers { behind: 9 });
    let workers = vec![Worker { window: 20, pid: 6 }, Worker { window: 21, pid: 7 }];
    match a.next(Reply::Workers { workers }) {
        Ask::Restyle { ex, layered, .. } => assert!(!layered && ex & WS_EX_TRANSPARENT != 0),
        other => panic!("{:?}", other),
    }
    assert_eq!(a.next(Reply::Done), Ask::Reparent { parent: 21 });
    let mut b = Attach::new(50);
    b.next(Reply::Window { window: 1 });
    b.next(Reply::Done);
    assert_eq!(b.next(Reply::Found { layout: layout(false, 3) }), Ask::ListWorkers { behind: 1 });
    b.next(Reply::Workers { workers: vec![Worker { window: 20, pid: 6 }] });
    assert_eq!(b.next(Reply::Done), Ask::Reparent { parent: 1 });
}

// ---------- the scene ----------

#[test]
fn scene_fits_the_desktop() {
    assert_eq!(scene_size(1920, 1080), (1920, 1080));
    assert_eq!(scene_size(3840, 2160), (2560, 1440));
    assert_eq!(scene_size(1280, 1024), (1280, 720));
    let (w, h) = storyboard_slot(1920, 1080);
    assert!(w > 0 && h > 0);
}

#[test]
fn scene_follows_the_look() {
    let look = Look::new();
    let found = Found {
        storyboard: true,
        foreground: false,
        replaces_background: true,
        background: false,
        legacy_skin: false,
    };
    let s = plan_scene(&look, &found);
    assert_eq!(s.hud_visible, look.hud_visible);
    assert!(s.storyboard.is_some());
    assert!(s.sb_replaces_bg);
    assert!(!s.has_bg);
    assert!(!wants_background(false, false, false));
    assert!(wants_background(true, false, false));
    assert!(can_reswap(false, false, false));
    assert!(!can_reswap(true, false, true));
    assert_eq!(order_by_time(&vec![30, 10, 20, 10]), [1, 3, 2, 0]);
}
