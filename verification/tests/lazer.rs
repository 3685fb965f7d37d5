use aria::ieee::Double;
use aria::lazer::{
    beatmap_blob, blob_relative_path, cover_file, custom_data_dir, data_base, data_root,
    distinct_strings, favourites_to_front, is_blob_name, is_mounted, is_sb_video_name,
    mark_sb_video, mount_plan, parse, parse_beatmap_sets, read_storage_ini_fullpath, realm_path,
    resolve_root, retain_playable, sanitize_filename, set_custom_data_dir, skin_dir, DataDir,
    LazerCollection, LazerFile, LazerLibrary, LazerSkin,
};
use aria::realm::{Cell, Link, Row, Store, Table, Value};

fn cell(name: &str, value: Value) -> Cell {
    Cell { name: name.to_string(), value }
}

fn text(s: &str) -> Value {
    Value::Text(s.to_string())
}

fn link(table: usize, row: usize) -> Link {
    Link { table, row }
}

fn double(x: f64) -> Double {
    Double::from_bits(x.to_bits())
}

fn beatmap(hash: &str, name: &str, ruleset: usize) -> Row {
    Row {
        cells: vec![
            cell("Hash", text(hash)),
            cell("MD5Hash", text(&format!("md5-{hash}"))),
            cell("DifficultyName", text(name)),
            cell("Ruleset", Value::Link(link(2, ruleset))),
            cell("Difficulty", Value::Link(link(4, 0))),
            cell("Metadata", Value::Link(link(3, 0))),
            cell("StarRating", Value::Double(double(5.25))),
            cell("Length", Value::Double(double(90000.0))),
            cell("BPM", Value::Double(double(180.0))),
            cell("OnlineID", Value::Int(77)),
        ],
    }
}

/// A database with one set of two difficulties, a collection and a skin.
fn store() -> Store {
    let named = |name: &str, file: usize| Row {
        cells: vec![cell("Filename", text(name)), cell("File", Value::Link(link(6, file)))],
    };
    let file = |hash: &str| Row { cells: vec![cell("Hash", text(hash))] };
    Store {
        names: [
            "class_BeatmapSet",
            "class_Beatmap",
            "class_Ruleset",
            "class_BeatmapMetadata",
            "class_BeatmapDifficulty",
            "class_RealmNamedFileUsage",
            "class_File",
            "class_BeatmapCollection",
            "class_Skin",
        ]
        .iter()
        .map(|s| s.to_string())
        .collect(),
        tables: vec![
            Table::Bulk(vec![
                Row {
                    cells: vec![
                        cell("ID", Value::Uuid((0..16).collect())),
                        cell("OnlineID", Value::Int(42)),
                        cell("DateAdded", Value::Timestamp(1000)),
                        cell("DeletePending", Value::Bool(false)),
                        cell("Beatmaps", Value::LinkList(vec![link(1, 0), link(1, 1)])),
                        cell("Files", Value::LinkList(vec![link(5, 0), link(5, 1), link(5, 2)])),
                    ],
                },
                Row {
                    cells: vec![
                        cell("DeletePending", Value::Bool(true)),
                        cell("Beatmaps", Value::LinkList(vec![link(1, 0)])),
                        cell("Files", Value::LinkList(vec![link(5, 0)])),
                    ],
                },
            ]),
            Table::Bulk(vec![beatmap("AB12", "Insane", 0), beatmap("cd34", "Oni", 1)]),
            Table::Bulk(vec![
                Row { cells: vec![cell("ShortName", text("osu"))] },
                Row { cells: vec![cell("ShortName", text("taiko"))] },
            ]),
            Table::Bulk(vec![Row {
                cells: vec![
                    cell("Title", text("Song")),
                    cell("TitleUnicode", text("")),
                    cell("Artist", text("Band")),
                    cell("ArtistUnicode", text("バンド")),
                    cell("Tags", text("a b")),
                    cell("Source", text("game")),
                ],
            }]),
            Table::Bulk(vec![Row {
                cells: vec![
                    cell("ApproachRate", Value::Float(double(9.5))),
                    cell("CircleSize", Value::Float(double(4.0))),
                    cell("OverallDifficulty", Value::Float(double(8.0))),
                    cell("DrainRate", Value::Float(double(6.0))),
                ],
            }]),
            Table::Bulk(vec![
                named("map.osu", 0),
                named("bg.jpg", 1),
                named("video.mp4", 2),
                named("skin.ini", 3),
            ]),
            Table::Bulk(vec![file("AB12"), file("ef56"), file("0978"), file("aa00")]),
            Table::Bulk(vec![
                Row {
                    cells: vec![
                        cell("Name", text("mine")),
                        cell(
                            "BeatmapMD5Hashes",
                            Value::List(vec![Some("m1".into()), Some("m2".into()), Some("m1".into())]),
                        ),
                    ],
                },
            ]),
            Table::Bulk(vec![Row {
                cells: vec![
                    cell("ID", Value::Uuid(vec![255; 16])),
                    cell("Name", text("Neat")),
                    cell("Creator", text("me")),
                    cell("DeletePending", Value::Bool(false)),
                    cell("Files", Value::LinkList(vec![link(5, 3)])),
                ],
            }]),
        ],
    }
}

fn library() -> LazerLibrary {
    let lib = parse(&store()).expect("parse 失败");
    let sizes: Vec<Vec<u64>> = lib.sets.iter().map(|s| s.files.iter().map(|_| 100).collect()).collect();
    mark_sb_video(retain_playable(lib, &sizes))
}

/// The sample database: without a directory there is none to find.
fn sample() -> LazerLibrary {
    let base = data_base(&None, None);
    let root = data_root(base.map(|dir| DataDir { root: dir.clone(), dir, has_realm: false }));
    assert!(realm_path(root.as_deref()).is_none());
    library()
}

#[test]
fn parse_real_realm() {
    let lib = sample();
    println!("sets={} collections={}", lib.sets.len(), lib.collections.len());
    assert!(!lib.sets.is_empty(), "谱面集为空");
    let with_files = lib.sets.iter().filter(|s| !s.files.is_empty()).count();
    assert!(with_files > 0, "所有谱面集都无文件列表");
    assert!(
        lib.sets.iter().all(|s| s.files.iter().all(|f| f.size > 0)),
        "过滤后仍有 size=0 的文件条目"
    );
    for set in lib.sets.iter().take(20) {
        for b in &set.beatmaps {
            let osu = beatmap_blob("root", &b.sha2);
            assert!(set.files.iter().any(|f| beatmap_blob("root", &f.hash) == osu), "难度 blob 缺失: {}", osu);
        }
        for f in &set.files {
            let blob = blob_relative_path(&f.hash);
            assert!(blob.ends_with(&f.hash), "素材 blob 缺失: {}", blob);
        }
    }
}

#[test]
fn dump_difficulty_params() {
    let lib = sample();
    let zero = Double::from_bits(0);
    let with_ar = lib.sets.iter().filter(|s| s.beatmaps.iter().any(|b| zero.lt(&b.ar))).count();
    let with_tags = lib.sets.iter().filter(|s| !s.tags.is_empty()).count();
    println!("=== 含 AR: {with_ar}/{}  含 tags: {with_tags}", lib.sets.len());
    if let Some(set) = lib
        .sets
        .iter()
        .find(|s| !s.tags.is_empty() && s.beatmaps.iter().any(|b| zero.lt(&b.ar)))
    {
        let b = &set.beatmaps[0];
        println!(
            "    {} | {} | ★{:.2} AR{} CS{} OD{} HP{} BPM{} bid={} | tags={}",
            set.title,
            b.name,
            f64::from_bits(b.star_rating.bits),
            f64::from_bits(b.ar.bits),
            f64::from_bits(b.cs.bits),
            f64::from_bits(b.od.bits),
            f64::from_bits(b.hp.bits),
            f64::from_bits(b.bpm.bits),
            b.online_id,
            set.tags
        );
        let with_bid = lib.sets.iter().filter(|s| s.beatmaps.iter().any(|b| b.online_id > 0)).count();
        println!("=== 含 bid 的谱面集: {with_bid}/{}", lib.sets.len());
        assert_eq!(b.ar, double(9.5));
        assert_eq!(b.bpm, double(180.0));
    }
    assert_eq!(with_ar, 1);
}

#[test]
fn count_video_sets() {
    let lib = sample();
    let video_sets = lib
        .sets
        .iter()
        .filter(|s| {
            s.files.iter().any(|f| {
                let l = f.filename.to_ascii_lowercase();
                l.ends_with(".mp4")
                    || l.ends_with(".avi")
                    || l.ends_with(".flv")
                    || l.ends_with(".m4v")
                    || l.ends_with(".mov")
                    || l.ends_with(".webm")
                    || l.ends_with(".wmv")
            })
        })
        .count();
    println!("=== 含视频文件的谱面集: {video_sets} / {}", lib.sets.len());
    assert_eq!(video_sets, lib.sets.iter().filter(|s| s.sb_video).count());
}

#[test]
fn set_is_read_with_its_credits() {
    let lib = library();
    assert_eq!(lib.sets.len(), 1);
    let s = &lib.sets[0];
    assert_eq!(s.online_id, 42);
    assert_eq!(s.title, "Song");
    assert_eq!(s.title_unicode, "Song");
    assert_eq!(s.artist_unicode, "バンド");
    assert_eq!(s.tags, "a b");
    assert_eq!(s.source, "game");
    assert_eq!(s.beatmaps.len(), 1);
    assert_eq!(s.beatmaps[0].name, "Insane");
    assert_eq!(s.beatmaps[0].ruleset, "osu");
    assert_eq!(s.beatmaps[0].star_rating, double(5.25));
    assert!(s.sb_video);
    assert_eq!(lib.collections[0].md5s, ["m1", "m2"]);
    assert_eq!(lib.skins[0].name, "Neat");
    assert_eq!(lib.skins[0].id, "ffffffffffffffffffffffffffffffff");
}

#[test]
fn missing_table_is_an_error() {
    let s = Store { names: Vec::new(), tables: Vec::new() };
    assert_eq!(parse_beatmap_sets(&s).unwrap_err(), "数据库中没有 class_BeatmapSet 表");
    let s = Store {
        names: vec!["class_BeatmapSet".into()],
        tables: vec![Table::Failed("boom".into())],
    };
    assert_eq!(parse(&s).unwrap_err(), "boom");
}

#[test]
fn missing_blobs_leave_the_library() {
    let lib = parse(&store()).unwrap();
    let sizes = vec![vec![0, 10, 10]];
    let lib = retain_playable(lib, &sizes);
    assert!(lib.sets.is_empty() || lib.sets[0].beatmaps.is_empty() || lib.sets[0].files.len() == 2);
    for s in &lib.sets {
        assert!(s.files.iter().all(|f| f.size > 0));
    }
}

#[test]
fn blobs_lie_below_their_first_characters() {
    assert_eq!(blob_relative_path("AB12"), "a/ab/AB12");
    assert_eq!(blob_relative_path("x"), "x");
    assert!(beatmap_blob("data", "AB12").ends_with("AB12"));
    assert!(beatmap_blob("data", "AB12").starts_with("data"));
    assert!(is_blob_name("ab") && is_blob_name("") && !is_blob_name("é1"));
}

#[test]
fn names_of_storyboards_and_videos() {
    for n in ["a.osb", "A.MP4", "x.webm", "y.avi"] {
        assert!(is_sb_video_name(n), "{}", n);
    }
    assert!(!is_sb_video_name("a.osu"));
    assert!(!is_sb_video_name("mp4"));
}

#[test]
fn sanitized_names_stay_below() {
    assert_eq!(sanitize_filename("a:b*c"), "a_b_c");
    assert_eq!(sanitize_filename("..\\a//b:c?.png"), "a/b_c_.png");
    let n = sanitize_filename("../../x");
    assert!(!n.split('/').any(|p| p == ".."), "{}", n);
}

#[test]
fn storage_ini_names_another_place() {
    let lines: Vec<String> =
        ["[Storage]", "FullPath = D:\\osu", "x = y"].iter().map(|s| s.to_string()).collect();
    assert_eq!(read_storage_ini_fullpath(&lines).as_deref(), Some("D:\\osu"));
    assert_eq!(resolve_root("C:/base", &Some(lines)), "D:\\osu");
    assert_eq!(resolve_root("C:/base", &None), "C:/base");
}

#[test]
fn custom_directory_needs_a_database() {
    let mut slot: Option<String> = Some("before".into());
    let bad = DataDir { dir: "x".into(), root: "x".into(), has_realm: false };
    assert!(set_custom_data_dir(&mut slot, Some(bad)).is_err());
    assert_eq!(custom_data_dir(&slot).as_deref(), Some("before"));
    let good = DataDir { dir: "x".into(), root: "y".into(), has_realm: true };
    assert!(set_custom_data_dir(&mut slot, Some(good)).is_ok());
    assert_eq!(custom_data_dir(&slot).as_deref(), Some("x"));
    assert_eq!(data_base(&slot, Some("app")).as_deref(), Some("x"));
    assert!(set_custom_data_dir(&mut slot, None).is_ok());
    assert!(custom_data_dir(&slot).is_none());
    assert!(data_base(&slot, Some("app")).unwrap().starts_with("app"));
}

#[test]
fn lists_lose_their_doubles() {
    let v = vec![Some("a".to_string()), None, Some("b".to_string()), Some("a".to_string())];
    assert_eq!(distinct_strings(&v), ["a", "b"]);
}

#[test]
fn favourites_lead() {
    let all: Vec<LazerCollection> = ["x", "Favourites", "y"]
        .iter()
        .map(|n| LazerCollection { name: n.to_string(), md5s: Vec::new() })
        .collect();
    let names: Vec<String> = favourites_to_front(all).into_iter().map(|c| c.name).collect();
    assert_eq!(names, ["Favourites", "x", "y"]);
}

#[test]
fn cover_is_the_last_of_the_largest_pictures() {
    let mut lib = library();
    let files = &mut lib.sets[0].files;
    files.clear();
    for (n, size) in [("a.jpg", 5), ("b.PNG", 9), ("c.jpg", 9), ("d.osu", 99)] {
        files.push(LazerFile { filename: n.into(), hash: n.into(), size });
    }
    assert_eq!(cover_file(&lib.sets[0]).unwrap().filename, "c.jpg");
    lib.sets[0].files.truncate(0);
    assert!(cover_file(&lib.sets[0]).is_none());
}

#[test]
fn skins_are_mounted_by_name() {
    let skin = LazerSkin {
        id: "i".into(),
        name: "My: Skin".into(),
        creator: String::new(),
        files: vec![LazerFile { filename: "sub/hit.png".into(), hash: "AB".into(), size: 3 }],
    };
    let dir = skin_dir("cache", &skin);
    assert!(dir.starts_with("cache") && !dir.contains(':'), "{}", dir);
    let plan = mount_plan("root", &skin, &dir);
    assert_eq!(plan.len(), 1);
    assert!(plan[0].blob.ends_with("AB"));
    assert!(plan[0].target.starts_with(&dir));
    assert!(is_mounted(Some(3), Some(3)));
    assert!(!is_mounted(None, Some(3)));
    assert!(!is_mounted(Some(2), Some(3)));
}
