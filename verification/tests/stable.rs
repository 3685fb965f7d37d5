use aria::cover::sniff;
use aria::ieee::Double;
use aria::lazer::LazerLibrary;
use aria::stable::{
    bpm_max, candidates, collections, cover_path, custom_stable_dir, first_with_db, folder_dirs,
    gather, library, nomod_star, set_custom_stable_dir, stable_root, Entry, Rating, Scan,
    StableBeatmap, StableCollection, StableDir, TimingPoint,
};

fn double(x: f64) -> Double {
    Double::from_bits(x.to_bits())
}

fn beatmap(folder: &str, file: &str, standard: bool) -> StableBeatmap {
    StableBeatmap {
        standard,
        folder_name: Some(folder.to_string()),
        file_name: Some(file.to_string()),
        artist_ascii: Some("Band".into()),
        artist_unicode: None,
        title_ascii: Some("Song".into()),
        title_unicode: Some("歌".into()),
        creator: Some("me".into()),
        tags: Some("tag".into()),
        song_source: None,
        difficulty_name: Some("Hard".into()),
        hash: Some(format!("md5-{file}")),
        beatmapset_id: 12,
        beatmap_id: 34,
        ratings: vec![
            Rating { mods: 64, star: double(7.0) },
            Rating { mods: 0, star: double(4.5) },
        ],
        timing_points: vec![
            TimingPoint { ms_per_beat: double(500.0), per_minute: double(120.0) },
            TimingPoint { ms_per_beat: double(-100.0), per_minute: double(-600.0) },
            TimingPoint { ms_per_beat: double(300.0), per_minute: double(200.0) },
        ],
        length_ms: double(1000.0),
        ar: double(9.0),
        cs: double(4.0),
        od: double(8.0),
        hp: double(5.0),
    }
}

/// The files of an installation, below its songs.
const FILES: [(&str, &str); 5] =
    [("a", "a1.osu"), ("b", "b1.osu"), ("b", "b2.osu"), ("a", "bg.jpg"), ("b", "bg.jpg")];

fn scan_of(folder: &str, dir: String) -> Scan {
    let entries: Vec<Entry> = FILES
        .iter()
        .filter(|(f, _)| *f == folder)
        .map(|(_, name)| Entry { name: name.to_string(), size: 99 })
        .collect();
    Scan { exists: !entries.is_empty(), entries, modified_ms: 5, dir }
}

/// An installation that lists more than is there: a file, all files of a folder, and a folder.
fn sample() -> LazerLibrary {
    let places = candidates(None, None);
    let has = vec![false; places.len()];
    assert!(stable_root(None, first_with_db(&places, &has)).is_none());
    let list = vec![
        beatmap("b", "b1.osu", true),
        beatmap("a", "a1.osu", true),
        beatmap("b", "b2.osu", true),
        beatmap("b", "lost.osu", true),
        beatmap("gone", "g.osu", true),
        beatmap("taiko", "t.osu", false),
    ];
    let folders = gather(&list);
    let dirs = folder_dirs("Songs", &folders);
    let scans: Vec<Scan> =
        folders.iter().zip(dirs).map(|(f, dir)| scan_of(&f.folder, dir)).collect();
    let lists = vec![StableCollection {
        name: Some("mine".into()),
        hashes: vec![Some("md5-a1.osu".into()), None, Some("md5-a1.osu".into())],
    }];
    library(folders, &scans, &lists)
}

#[test]
fn parse_real_stable() {
    let lib = sample();
    assert!(!lib.sets.is_empty(), "谱面集为空");
    assert!(lib.sets.iter().all(|s| s.root.is_some()), "root 缺失");
    for s in lib.sets.iter().take(50) {
        for b in &s.beatmaps {
            let dir = scan_of(&s.id, String::new());
            assert!(dir.entries.iter().any(|e| e.name == b.sha2), "缺 .osu: {}", b.sha2);
        }
    }
    let zero = double(0.0);
    let starred = lib.sets.iter().filter(|s| s.beatmaps.iter().any(|b| zero.lt(&b.star_rating))).count();
    println!("含星级谱面集: {starred}/{} 收藏夹: {}", lib.sets.len(), lib.collections.len());
    assert_eq!(starred, lib.sets.len());
    let with_cover = lib.sets.iter().find(|s| !s.files.is_empty()).unwrap();
    let path = cover_path(with_cover).expect("封面读取失败");
    assert!(path.ends_with("bg.jpg"), "封面读取失败");
    assert!(sniff(&vec![0xFF, 0xD8, 0xFF]).is_some());
}

#[test]
fn dump_stable_params() {
    let lib = sample();
    let zero = double(0.0);
    let with_ar = lib.sets.iter().filter(|s| s.beatmaps.iter().any(|b| zero.lt(&b.ar))).count();
    let with_tags = lib.sets.iter().filter(|s| !s.tags.is_empty()).count();
    println!("=== 含 AR: {with_ar}/{}  含 tags: {with_tags}", lib.sets.len());
    let set = lib
        .sets
        .iter()
        .find(|s| !s.tags.is_empty() && s.beatmaps.iter().any(|b| zero.lt(&b.ar) && zero.lt(&b.bpm)))
        .unwrap();
    let b = &set.beatmaps[0];
    assert_eq!((b.ar, b.cs, b.od, b.hp, b.bpm), (double(9.0), double(4.0), double(8.0), double(5.0), double(200.0)));
    assert_eq!(b.star_rating, double(4.5));
    assert_eq!(b.online_id, 34);
}

#[test]
fn folders_become_sets() {
    let lib = sample();
    assert_eq!(lib.sets.len(), 2);
    let b = lib.sets.iter().find(|s| s.id.contains('b')).unwrap();
    assert_eq!(b.beatmaps.len(), 2);
    assert_eq!(b.title_unicode, "歌");
    assert_eq!(b.online_id, 12);
    assert_eq!(lib.collections[0].md5s, ["md5-a1.osu"]);
}

#[test]
fn ratings_and_tempo() {
    assert_eq!(nomod_star(&vec![Rating { mods: 8, star: double(3.0) }]), double(0.0));
    assert_eq!(bpm_max(&Vec::new()), double(0.0));
}

#[test]
fn nameless_lists_are_kept_or_dropped() {
    let lists = vec![StableCollection { name: None, hashes: vec![Some("x".into())] }];
    for c in collections(&lists) {
        assert_eq!(c.md5s, ["x"]);
    }
}

#[test]
fn custom_installation_needs_a_database() {
    let mut slot: Option<String> = None;
    assert!(set_custom_stable_dir(&mut slot, Some(StableDir { dir: "x".into(), has_db: false })).is_err());
    assert!(custom_stable_dir(&slot).is_none());
    assert!(set_custom_stable_dir(&mut slot, Some(StableDir { dir: "x".into(), has_db: true })).is_ok());
    assert_eq!(custom_stable_dir(&slot).as_deref(), Some("x"));
    let root = stable_root(Some(StableDir { dir: "x".into(), has_db: true }), Some("y".into()));
    assert_eq!(root.as_deref(), Some("x"));
    assert_eq!(stable_root(None, Some("y".into())).as_deref(), Some("y"));
}

#[test]
fn first_place_with_a_database() {
    let places = candidates(Some("\"C:\\osu!\\osu!.exe\" \"%1\""), Some("L"));
    assert!(!places.is_empty());
    let mut has = vec![false; places.len()];
    assert!(first_with_db(&places, &has).is_none());
    let n = has.len();
    has[n - 1] = true;
    assert_eq!(first_with_db(&places, &has).as_deref(), Some(places[n - 1].as_str()));
}
