use aria::ieee::Double;
use aria::lazer::{LazerBeatmap, LazerLibrary, LazerSet};
use aria::pathcache::CachedDiff;
use aria::playlist::{pick_cached_diff, pick_diff, policy_of, PickPolicy, PlayMode, Playlist};
use aria::settings::SavedTrack;

fn zero() -> Double {
    Double::from_bits(0)
}

fn double(x: f64) -> Double {
    Double::from_bits(x.to_bits())
}

fn put(p: &mut Playlist, set: &str, sha2: Option<&str>, mods: u32) -> bool {
    p.add(set.to_string(), sha2.map(String::from), mods, String::new(), String::new(), zero())
}

fn ids(p: &Playlist) -> Vec<String> {
    p.queue().into_iter().map(|t| t.set_id).collect()
}

fn set(id: &str, stars: &[f64]) -> LazerSet {
    LazerSet {
        id: id.to_string(),
        online_id: 1,
        date_added_ms: 0,
        artist: String::new(),
        artist_unicode: String::new(),
        title: String::new(),
        title_unicode: String::new(),
        creator: String::new(),
        tags: String::new(),
        source: String::new(),
        root: None,
        sb_video: false,
        beatmaps: stars
            .iter()
            .map(|s| LazerBeatmap {
                sha2: format!("{id}-{s}"),
                md5: String::new(),
                name: String::new(),
                ruleset: "osu".to_string(),
                star_rating: double(*s),
                length_ms: zero(),
                ar: zero(),
                cs: zero(),
                od: zero(),
                hp: zero(),
                bpm: zero(),
                online_id: 0,
            })
            .collect(),
        files: Vec::new(),
    }
}

#[test]
fn add_remove_clear_current() {
    let mut p = Playlist::seeded(Some(12345), 678);
    put(&mut p, "a", Some("x"), 0);
    assert!(!put(&mut p, "a", None, 0), "重复入列=替换(false)");
    let q0 = p.queue()[0].qid;
    assert!(!put(&mut p, "a", Some("y"), 8), "再次替换");
    assert_eq!(p.queue().len(), 1, "条目数不变");
    assert_eq!(p.queue()[0].qid, q0, "qid/位置不变");
    assert_eq!(p.queue()[0].sha2.as_deref(), Some("y"), "难度锁定被替换");
    assert_eq!(p.queue()[0].mods, 8, "mods 被替换");
    put(&mut p, "b", Some("y"), 0);
    put(&mut p, "c", None, 0);
    assert_eq!(p.queue().len(), 3);
    let qid_b = p.queue().iter().find(|t| t.set_id == "b").unwrap().qid;
    p.remove(qid_b);
    assert_eq!(p.queue().len(), 2);
    assert!(p.align_current("a".into(), Some("y".into())));
    assert_eq!(p.current().unwrap().set_id, "a");
    let qid_a = p.current().unwrap().qid;
    p.remove(qid_a);
    assert_eq!(p.current().unwrap().set_id, "c");
    assert!(p.align_current("c".into(), Some("z".into())), "集合级条目与具体难度对齐");
    assert!(!p.align_current("d".into(), Some("w".into())), "临时播放不自动入列");
    assert_eq!(p.queue().len(), 1, "未对齐时列表不变");
    assert_eq!(p.current().unwrap().set_id, "c", "未对齐时当前曲不变");
    p.set_mode(PlayMode::Random);
    assert_eq!(p.queue().len(), 1);
    p.set_mode(PlayMode::ListOrder);
    p.clear();
    assert!(p.current().is_none());
    let mut r = Playlist::seeded(Some(12345), 678);
    for i in 0..50 {
        put(&mut r, &format!("s{i}"), Some(&format!("h{i}")), 0);
    }
    r.set_mode(PlayMode::Random);
    let mut seen: Vec<String> = ids(&r);
    assert_eq!(seen.len(), 50);
    seen.sort();
    seen.dedup();
    assert_eq!(seen.len(), 50, "洗牌出现重复");
}

#[test]
fn list_order_steps_and_wraps() {
    let mut p = Playlist::new(1);
    for id in ["a", "b", "c"] {
        put(&mut p, id, None, 0);
    }
    assert_eq!(p.current().unwrap().set_id, "a");
    assert_eq!(p.advance().unwrap().set_id, "b");
    assert_eq!(p.advance().unwrap().set_id, "c");
    assert_eq!(p.advance().unwrap().set_id, "a");
    assert_eq!(p.rewind().unwrap().set_id, "c");
    assert_eq!(p.rewind().unwrap().set_id, "b");
}

#[test]
fn single_loop_advances_by_hand_only() {
    let mut p = Playlist::new(1);
    put(&mut p, "a", None, 0);
    put(&mut p, "b", None, 0);
    p.set_mode(PlayMode::SingleLoop);
    assert!(p.advance().is_none());
    assert_eq!(p.advance_manual().unwrap().set_id, "b");
}

#[test]
fn random_round_plays_each_once() {
    let mut p = Playlist::new(99);
    for i in 0..8 {
        put(&mut p, &format!("s{i}"), None, 0);
    }
    p.set_mode(PlayMode::Random);
    let order = ids(&p);
    let mut heard = vec![p.current().unwrap().set_id];
    p.align_current(order[0].clone(), None);
    heard[0] = order[0].clone();
    for _ in 1..8 {
        heard.push(p.advance().unwrap().set_id);
    }
    assert_eq!(heard, order);
    let last = heard[7].clone();
    assert_ne!(p.advance().unwrap().set_id, last);
}

#[test]
fn mode_keeps_the_song() {
    let mut p = Playlist::new(7);
    for i in 0..6 {
        put(&mut p, &format!("s{i}"), None, 0);
    }
    p.align_current("s4".into(), None);
    p.set_mode(PlayMode::Random);
    assert_eq!(p.current().unwrap().set_id, "s4");
    p.set_mode(PlayMode::ListOrder);
    assert_eq!(p.current().unwrap().set_id, "s4");
    assert_eq!(p.mode(), PlayMode::ListOrder);
}

#[test]
fn removing_keeps_the_others() {
    let mut p = Playlist::new(7);
    for id in ["a", "b", "c", "d"] {
        put(&mut p, id, None, 0);
    }
    p.align_current("c".into(), None);
    let a = p.queue()[0].qid;
    p.remove(a);
    assert_eq!(p.current().unwrap().set_id, "c");
    assert_eq!(ids(&p), ["b", "c", "d"]);
    p.remove(12345);
    assert_eq!(ids(&p), ["b", "c", "d"]);
    let d = p.queue()[2].qid;
    p.align_current("d".into(), None);
    p.remove(d);
    assert_eq!(p.current().unwrap().set_id, "c");
}

#[test]
fn reorder_moves_one_and_keeps_the_song() {
    let mut p = Playlist::new(7);
    for id in ["a", "b", "c", "d"] {
        put(&mut p, id, None, 0);
    }
    p.align_current("b".into(), None);
    p.reorder(0, 2);
    assert_eq!(ids(&p), ["b", "c", "a", "d"]);
    assert_eq!(p.current().unwrap().set_id, "b");
    p.reorder(3, 0);
    assert_eq!(ids(&p), ["d", "b", "c", "a"]);
    p.reorder(9, 0);
    assert_eq!(ids(&p), ["d", "b", "c", "a"]);
}

#[test]
fn prune_leaves_what_the_library_holds() {
    let mut p = Playlist::new(7);
    for id in ["a", "b", "c"] {
        put(&mut p, id, None, 0);
    }
    p.align_current("c".into(), None);
    let lib = LazerLibrary {
        sets: vec![set("c", &[1.0]), set("a", &[1.0])],
        collections: Vec::new(),
        skins: Vec::new(),
    };
    p.prune_missing(&lib);
    assert_eq!(ids(&p), ["a", "c"]);
    assert_eq!(p.current().unwrap().set_id, "c");
}

#[test]
fn batch_of_mods_gives_back_the_current() {
    let mut p = Playlist::new(7);
    put(&mut p, "a", Some("x"), 0);
    put(&mut p, "b", None, 0);
    let q: Vec<u64> = p.queue().iter().map(|t| t.qid).collect();
    assert!(p.set_mods_batch(&vec![q[1]], 64).is_none());
    assert_eq!(p.set_mods_batch(&q, 8).unwrap().sha2.as_deref(), Some("x"));
    assert!(p.queue().iter().all(|t| t.mods == 8));
    assert!(p.set_entry(999, 1, None).is_none());
    assert_eq!(p.set_entry(q[1], 1, Some("z".into())).unwrap().mods, 1);
    assert_eq!(p.entry(q[1]).unwrap().sha2.as_deref(), Some("z"));
}

#[test]
fn restore_and_backfill() {
    let mut p = Playlist::new(7);
    let saved: Vec<SavedTrack> = ["a", "b"]
        .iter()
        .map(|id| SavedTrack {
            set_id: id.to_string(),
            sha2: None,
            mods: 16,
            title: "t".into(),
            artist: "r".into(),
            length_ms: double(5.0),
        })
        .collect();
    p.restore(&saved, 7, PlayMode::ListOrder);
    assert_eq!(p.current().unwrap().set_id, "b");
    let mut probe = p.current().unwrap();
    probe.sha2 = Some("h".into());
    p.backfill_meta(&probe, "T".into(), "R".into(), double(9.0));
    let (tracks, pos) = p.snapshot();
    assert_eq!(pos, 1);
    assert_eq!(tracks[0].title, "t");
    assert_eq!(tracks[1].title, "T");
    assert_eq!(tracks[1].length_ms, double(9.0));
}

#[test]
fn modes_have_names() {
    assert_eq!(PlayMode::parse("single_loop"), Some(PlayMode::SingleLoop));
    assert_eq!(PlayMode::parse("list_order"), Some(PlayMode::ListOrder));
    assert_eq!(PlayMode::parse("random"), Some(PlayMode::Random));
    assert_eq!(PlayMode::parse("Random"), None);
    assert_eq!(PlayMode::default(), PlayMode::ListOrder);
}

#[test]
fn policies_pick_the_first_best() {
    let s = set("a", &[3.0, 5.0, 5.0, 2.0]);
    let none: Vec<Double> = Vec::new();
    assert_eq!(pick_diff(&s, policy_of(None), &none).sha2, "a-5");
    assert_eq!(pick_diff(&s, policy_of(Some(double(-1.0))), &none).sha2, "a-2");
    let near: Vec<Double> = [3.0f64, 5.0, 5.0, 2.0].iter().map(|x| double((x - 3.4).abs())).collect();
    assert_eq!(pick_diff(&s, policy_of(Some(double(3.4))), &near).sha2, "a-3");
    assert_eq!(policy_of(Some(double(3.4))), PickPolicy::Custom(double(3.4)));
}

#[test]
fn cached_difficulties_are_picked_alike() {
    let diffs: Vec<CachedDiff> = [1.5, 4.0]
        .iter()
        .map(|s| CachedDiff {
            sha2: format!("{s}"),
            name: String::new(),
            star: double(*s),
            length_ms: zero(),
            osu_path: String::new(),
        })
        .collect();
    let none: Vec<Double> = Vec::new();
    assert_eq!(pick_cached_diff(&diffs, PickPolicy::Hardest, &none).unwrap().sha2, "4");
    assert_eq!(pick_cached_diff(&diffs, PickPolicy::Easiest, &none).unwrap().sha2, "1.5");
    assert!(pick_cached_diff(&Vec::new(), PickPolicy::Hardest, &none).is_none());
}
