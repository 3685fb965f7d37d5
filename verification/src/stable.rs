//! The osu!stable library: what osu!.db lists, gathered by folder into beatmap sets that lie in
//! directories, and the collections of collection.db.
use vstd::prelude::*;

use vstd::hash_map::StringHashMap;

use crate::cover;
use crate::ieee::Double;
use crate::lazer;
use crate::lazer::{BeatmapView, CollectionView, FileView, LazerBeatmap, LazerCollection, LazerFile, LazerLibrary, LazerSet, SetView};
use crate::paths;
use crate::seqs;
use crate::text;

verus! {

/// The star rating of a difficulty under some mods.
#[derive(Debug, Clone, Copy, PartialEq, Eq, Structural)]
pub struct Rating {
    pub mods: u32,
    pub star: Double,
}

/// A timing point: the length of a beat, and how many of them make a minute. One that inherits
/// its tempo has a length that is not positive.
#[derive(Debug, Clone, Copy, PartialEq, Eq, Structural)]
pub struct TimingPoint {
    pub ms_per_beat: Double,
    pub per_minute: Double,
}

/// A difficulty as osu!.db lists it.
#[derive(Debug)]
pub struct StableBeatmap {
    /// Of the osu! ruleset.
    pub standard: bool,
    pub folder_name: Option<String>,
    pub file_name: Option<String>,
    pub artist_ascii: Option<String>,
    pub artist_unicode: Option<String>,
    pub title_ascii: Option<String>,
    pub title_unicode: Option<String>,
    pub creator: Option<String>,
    pub tags: Option<String>,
    pub song_source: Option<String>,
    pub difficulty_name: Option<String>,
    pub hash: Option<String>,
    pub beatmapset_id: i32,
    pub beatmap_id: i32,
    pub ratings: Vec<Rating>,
    pub timing_points: Vec<TimingPoint>,
    pub length_ms: Double,
    pub ar: Double,
    pub cs: Double,
    pub od: Double,
    pub hp: Double,
}

/// The rating without mods, zero where there is none.
pub open spec fn nomod(ratings: Seq<Rating>) -> Double {
    match seqs::least(ratings.len() as int, |i: int| ratings[i].mods == 0) {
        Some(i) => ratings[i].star,
        None => Double { bits: 0 },
    }
}

pub fn nomod_star(ratings: &Vec<Rating>) -> (r: Double)
    ensures
        r == nomod(ratings@),
{
    let ghost p = |i: int| ratings@[i].mods == 0;
    let mut i: usize = 0;
    while i < ratings.len()
        invariant
            i <= ratings@.len(),
            p == (|i: int| ratings@[i].mods == 0),
            forall|j: int| 0 <= j < i ==> !#[trigger] p(j),
        decreases ratings.len() - i,
    {
        if ratings[i].mods == 0 {
            assert(p(i as int));
            proof {
                seqs::lemma_least_found(ratings@.len() as int, p, i as int);
            }
            return ratings[i].star;
        }
        assert(!p(i as int));
        i = i + 1;
    }
    proof {
        seqs::lemma_least_missing(ratings@.len() as int, p);
    }
    Double { bits: 0 }
}

/// The highest tempo of the points that set one, at least zero.
pub open spec fn fastest(points: Seq<TimingPoint>) -> Double
    decreases points.len(),
{
    if points.len() == 0 {
        Double { bits: 0 }
    } else {
        let before = fastest(points.drop_last());
        if (Double { bits: 0 }).below(points.last().ms_per_beat) {
            before.larger(points.last().per_minute)
        } else {
            before
        }
    }
}

pub fn bpm_max(points: &Vec<TimingPoint>) -> (r: Double)
    ensures
        r == fastest(points@),
{
    let zero: Double = Double { bits: 0 };
    let mut r: Double = zero;
    let mut i: usize = 0;
    assert(points@.take(0) =~= Seq::<TimingPoint>::empty());
    while i < points.len()
        invariant
            i <= points@.len(),
            zero == (Double { bits: 0 }),
            r == fastest(points@.take(i as int)),
        decreases points.len() - i,
    {
        assert(points@.take(i + 1).drop_last() =~= points@.take(i as int));
        if zero.lt(&points[i].ms_per_beat) {
            r = r.max(points[i].per_minute);
        }
        i = i + 1;
    }
    assert(points@.take(points@.len() as int) =~= points@);
    r
}

/// No point that sets a tempo is faster than the fastest.
pub proof fn law_bpm_is_highest(points: Seq<TimingPoint>, k: int)
    requires
        0 <= k < points.len(),
        (Double { bits: 0 }).below(points[k].ms_per_beat),
    ensures
        !fastest(points).below(points[k].per_minute),
        !fastest(points).nan(),
    decreases points.len(),
{
    lemma_fastest_number(points);
    lemma_fastest_number(points.drop_last());
    if k < points.len() - 1 {
        law_bpm_is_highest(points.drop_last(), k);
    }
}

proof fn lemma_fastest_number(points: Seq<TimingPoint>)
    ensures
        !fastest(points).nan(),
    decreases points.len(),
{
    if points.len() > 0 {
        lemma_fastest_number(points.drop_last());
    }
}

pub open spec fn text_or_empty(s: Option<String>) -> Seq<char> {
    match s {
        Some(x) => x@,
        None => Seq::empty(),
    }
}

fn or_empty(s: &Option<String>) -> (r: String)
    ensures
        r@ == text_or_empty(*s),
{
    match s {
        Some(x) => x.clone(),
        None => String::new(),
    }
}

/// The difficulty of a set that a listed one becomes; its file is known by its name.
pub open spec fn beatmap_of(b: StableBeatmap) -> BeatmapView {
    BeatmapView {
        sha2: text_or_empty(b.file_name),
        md5: text_or_empty(b.hash),
        name: text_or_empty(b.difficulty_name),
        ruleset: "osu"@,
        star_rating: nomod(b.ratings@),
        length_ms: b.length_ms,
        ar: b.ar,
        cs: b.cs,
        od: b.od,
        hp: b.hp,
        bpm: fastest(b.timing_points@),
        online_id: b.beatmap_id as i64,
    }
}

fn convert(b: &StableBeatmap) -> (r: LazerBeatmap)
    ensures
        r@ == beatmap_of(*b),
{
    LazerBeatmap {
        sha2: or_empty(&b.file_name),
        md5: or_empty(&b.hash),
        name: or_empty(&b.difficulty_name),
        ruleset: text::owned("osu"),
        star_rating: nomod_star(&b.ratings),
        length_ms: b.length_ms,
        ar: b.ar,
        cs: b.cs,
        od: b.od,
        hp: b.hp,
        bpm: bpm_max(&b.timing_points),
        online_id: b.beatmap_id as i64,
    }
}

/// The difficulties of one folder.
#[derive(Debug)]
pub struct Folder {
    pub folder: String,
    pub artist: String,
    pub artist_unicode: String,
    pub title: String,
    pub title_unicode: String,
    pub creator: String,
    pub online_id: i64,
    pub tags: String,
    pub source: String,
    pub beatmaps: Vec<LazerBeatmap>,
}

#[verifier::ext_equal]
pub struct FolderView {
    pub folder: Seq<char>,
    pub artist: Seq<char>,
    pub artist_unicode: Seq<char>,
    pub title: Seq<char>,
    pub title_unicode: Seq<char>,
    pub creator: Seq<char>,
    pub online_id: i64,
    pub tags: Seq<char>,
    pub source: Seq<char>,
    pub beatmaps: Seq<BeatmapView>,
}

impl View for Folder {
    type V = FolderView;

    open spec fn view(&self) -> FolderView {
        FolderView {
            folder: self.folder@,
            artist: self.artist@,
            artist_unicode: self.artist_unicode@,
            title: self.title@,
            title_unicode: self.title_unicode@,
            creator: self.creator@,
            online_id: self.online_id,
            tags: self.tags@,
            source: self.source@,
            beatmaps: lazer::beatmap_views(self.beatmaps@),
        }
    }
}

pub open spec fn folder_views(v: Seq<Folder>) -> Seq<FolderView> {
    Seq::new(v.len(), |i: int| v[i]@)
}

/// A difficulty that is taken up: of the osu! ruleset, with its folder and file.
pub open spec fn relevant(b: StableBeatmap) -> bool {
    b.standard && b.folder_name is Some && b.file_name is Some
}

/// The place of a folder.
pub open spec fn folder_place(fs: Seq<FolderView>, name: Seq<char>) -> Option<int> {
    seqs::least(fs.len() as int, |i: int| fs[i].folder == name)
}

/// A folder as its first difficulty opens it.
pub open spec fn opened(b: StableBeatmap) -> FolderView {
    FolderView {
        folder: b.folder_name->0@,
        artist: text_or_empty(b.artist_ascii),
        artist_unicode: text_or_empty(b.artist_unicode),
        title: text_or_empty(b.title_ascii),
        title_unicode: text_or_empty(b.title_unicode),
        creator: text_or_empty(b.creator),
        online_id: b.beatmapset_id as i64,
        tags: text_or_empty(b.tags),
        source: text_or_empty(b.song_source),
        beatmaps: Seq::empty(),
    }
}

/// A folder with one more difficulty. A set number that is not positive gives way to one that is.
pub open spec fn with_beatmap(f: FolderView, b: StableBeatmap) -> FolderView {
    FolderView {
        online_id: if f.online_id <= 0 && b.beatmapset_id > 0 {
            b.beatmapset_id as i64
        } else {
            f.online_id
        },
        beatmaps: f.beatmaps.push(beatmap_of(b)),
        ..f
    }
}

/// The difficulties gathered by folder, in the order in which the folders come first.
pub open spec fn gathered(list: Seq<StableBeatmap>) -> Seq<FolderView>
    decreases list.len(),
{
    if list.len() == 0 {
        Seq::empty()
    } else {
        let before = gathered(list.drop_last());
        let b = list.last();
        if !relevant(b) {
            before
        } else {
            match folder_place(before, b.folder_name->0@) {
                Some(i) => before.update(i, with_beatmap(before[i], b)),
                None => before.push(with_beatmap(opened(b), b)),
            }
        }
    }
}

/// Where the folders are, by their names.
pub open spec fn indexes(m: Map<Seq<char>, usize>, fs: Seq<FolderView>) -> bool {
    &&& forall|i: int|
        0 <= i < fs.len() ==> m.dom().contains((#[trigger] fs[i]).folder) && m[fs[i].folder] == i
    &&& forall|k: Seq<char>| #[trigger]
        m.dom().contains(k) ==> m[k] < fs.len() && fs[m[k] as int].folder == k
}

proof fn lemma_indexed(m: Map<Seq<char>, usize>, fs: Seq<FolderView>, name: Seq<char>)
    requires
        indexes(m, fs),
    ensures
        folder_place(fs, name) == (if m.dom().contains(name) {
            Some(m[name] as int)
        } else {
            None
        }),
{
    let p = |i: int| fs[i].folder == name;
    if m.dom().contains(name) {
        let k = m[name] as int;
        assert(p(k));
        assert forall|j: int| 0 <= j < k implies !#[trigger] p(j) by {
            if p(j) {
                assert(m[fs[j].folder] == j);
            }
        }
        seqs::lemma_least_found(fs.len() as int, p, k);
    } else {
        assert forall|j: int| 0 <= j < fs.len() implies !#[trigger] p(j) by {
            if p(j) {
                assert(m.dom().contains(fs[j].folder));
            }
        }
        seqs::lemma_least_missing(fs.len() as int, p);
    }
}

fn add_beatmap(f: &mut Folder, b: &StableBeatmap)
    ensures
        final(f)@ == with_beatmap(old(f)@, *b),
{
    let ghost before = f@;
    if f.online_id <= 0 && b.beatmapset_id > 0 {
        f.online_id = b.beatmapset_id as i64;
    }
    f.beatmaps.push(convert(b));
    assert(f@.beatmaps =~= before.beatmaps.push(beatmap_of(*b)));
}

/// Gathers the listed difficulties by folder.
pub fn gather(list: &Vec<StableBeatmap>) -> (r: Vec<Folder>)
    ensures
        folder_views(r@) == gathered(list@),
        forall|i: int, k: int|
            0 <= i < r@.len() && 0 <= k < list@.len() && listed_in(
                #[trigger] list@[k],
                (#[trigger] r@[i]).folder@,
            ) && (forall|j: int|
                0 <= j < k ==> !listed_in(#[trigger] list@[j], r@[i].folder@)) ==> says(
                list@[k].artist_ascii,
                r@[i].artist@,
            ) && says(list@[k].title_ascii, r@[i].title@) && says(
                list@[k].artist_unicode,
                r@[i].artist_unicode@,
            ) && says(list@[k].title_unicode, r@[i].title_unicode@) && says(
                list@[k].creator,
                r@[i].creator@,
            ),
{
    let mut r: Vec<Folder> = Vec::new();
    let mut places: StringHashMap<usize> = StringHashMap::new();
    let mut i: usize = 0;
    proof {
        assert(folder_views(r@) =~= gathered(list@.take(0)));
    }
    while i < list.len()
        invariant
            i <= list@.len(),
            r@.len() <= i,
            folder_views(r@) == gathered(list@.take(i as int)),
            indexes(places@, folder_views(r@)),
        decreases list.len() - i,
    {
        let b: &StableBeatmap = &list[i];
        let ghost before = folder_views(r@);
        proof {
            assert(list@.take(i + 1).drop_last() =~= list@.take(i as int));
        }
        if b.standard {
            if let (Some(folder), Some(_)) = (&b.folder_name, &b.file_name) {
                proof {
                    lemma_indexed(places@, before, folder@);
                }
                match places.get(folder.as_str()) {
                    Some(k) => {
                        let k: usize = *k;
                        add_beatmap(&mut r[k], b);
                        assert(folder_views(r@) =~= before.update(
                            k as int,
                            with_beatmap(before[k as int], *b),
                        ));
                        assert(indexes(places@, folder_views(r@)));
                    },
                    None => {
                        let mut f: Folder = Folder {
                            folder: folder.clone(),
                            artist: or_empty(&b.artist_ascii),
                            artist_unicode: or_empty(&b.artist_unicode),
                            title: or_empty(&b.title_ascii),
                            title_unicode: or_empty(&b.title_unicode),
                            creator: or_empty(&b.creator),
                            online_id: b.beatmapset_id as i64,
                            tags: or_empty(&b.tags),
                            source: or_empty(&b.song_source),
                            beatmaps: Vec::new(),
                        };
                        assert(f@ =~= opened(*b));
                        add_beatmap(&mut f, b);
                        places.insert(folder.clone(), r.len());
                        r.push(f);
                        assert(folder_views(r@) =~= before.push(with_beatmap(opened(*b), *b)));
                        assert(indexes(places@, folder_views(r@)));
                    },
                }
            }
        }
        i = i + 1;
    }
    assert(list@.take(list@.len() as int) =~= list@);
    proof {
        assert forall|i: int, k: int|
            0 <= i < r@.len() && 0 <= k < list@.len() && listed_in(
                #[trigger] list@[k],
                (#[trigger] r@[i]).folder@,
            ) && (forall|j: int|
                0 <= j < k ==> !listed_in(#[trigger] list@[j], r@[i].folder@)) implies says(
            list@[k].artist_ascii,
            r@[i].artist@,
        ) && says(list@[k].title_ascii, r@[i].title@) && says(
            list@[k].artist_unicode,
            r@[i].artist_unicode@,
        ) && says(list@[k].title_unicode, r@[i].title_unicode@) && says(
            list@[k].creator,
            r@[i].creator@,
        ) by {
            assert(gathered(list@)[i] == r@[i]@);
            law_folder_has_the_names_of_its_first(list@, k, i);
        }
    }
    r
}

/// No folder is opened twice, each has a difficulty, and a set number that is positive is kept.
pub proof fn law_folders_are_distinct(list: Seq<StableBeatmap>)
    ensures
        forall|i: int, j: int|
            0 <= i < gathered(list).len() && 0 <= j < gathered(list).len() && i != j
                ==> (#[trigger] gathered(list)[i]).folder != (#[trigger] gathered(list)[j]).folder,
        forall|i: int| 0 <= i < gathered(list).len() ==> (#[trigger] gathered(list)[i]).beatmaps.len() > 0,
    decreases list.len(),
{
    if list.len() > 0 {
        law_folders_are_distinct(list.drop_last());
        let before = gathered(list.drop_last());
        let b = list.last();
        if relevant(b) {
            let p = |i: int| before[i].folder == b.folder_name->0@;
            seqs::lemma_least(before.len() as int, p);
            if folder_place(before, b.folder_name->0@) is None {
                assert forall|j: int| 0 <= j < before.len() implies (#[trigger] before[j]).folder
                    != b.folder_name->0@ by {
                    assert(!p(j));
                }
            }
        }
    }
}

/// Every difficulty that is taken up is in the folder that it names.
pub proof fn law_gathered_keeps_beatmaps(list: Seq<StableBeatmap>, k: int)
    requires
        0 <= k < list.len(),
        relevant(list[k]),
    ensures
        exists|i: int|
            0 <= i < gathered(list).len() && (#[trigger] gathered(list)[i]).folder
                == list[k].folder_name->0@ && gathered(list)[i].beatmaps.contains(
                beatmap_of(list[k]),
            ),
    decreases list.len(),
{
    let before = gathered(list.drop_last());
    let all = gathered(list);
    let b = list.last();
    let p = |i: int| before[i].folder == b.folder_name->0@;
    seqs::lemma_least(before.len() as int, p);
    if k == list.len() - 1 {
        match folder_place(before, b.folder_name->0@) {
            Some(i) => {
                assert(p(i));
                assert(all[i].beatmaps.last() == beatmap_of(b));
                assert(all[i].beatmaps.contains(all[i].beatmaps[all[i].beatmaps.len() - 1]));
            },
            None => {
                let f = all[before.len() as int];
                assert(f.beatmaps.contains(f.beatmaps[f.beatmaps.len() - 1]));
            },
        }
    } else {
        law_gathered_keeps_beatmaps(list.drop_last(), k);
        let i = choose|i: int|
            0 <= i < before.len() && (#[trigger] before[i]).folder == list[k].folder_name->0@
                && before[i].beatmaps.contains(beatmap_of(list[k]));
        let x = beatmap_of(list[k]);
        let m = choose|m: int| 0 <= m < before[i].beatmaps.len() && before[i].beatmaps[m] == x;
        assert(all[i].beatmaps[m] == x);
        assert(all[i].folder == before[i].folder);
    }
}

/// An entry of a directory, with its size.
#[derive(Debug)]
pub struct Entry {
    pub name: String,
    pub size: u64,
}

/// What was found in the directory of a folder: where it is, whether it is there, its entries and
/// when it was last changed, in milliseconds since the Unix epoch.
#[derive(Debug)]
pub struct Scan {
    pub dir: String,
    pub exists: bool,
    pub entries: Vec<Entry>,
    pub modified_ms: i64,
}

/// The pictures of a directory that are not empty.
pub open spec fn pictures(entries: Seq<Entry>) -> Seq<FileView>
    decreases entries.len(),
{
    if entries.len() == 0 {
        Seq::empty()
    } else {
        let before = pictures(entries.drop_last());
        let e = entries.last();
        if cover::is_image(e.name@) && e.size > 0 {
            before.push(FileView { filename: e.name@, hash: Seq::empty(), size: e.size })
        } else {
            before
        }
    }
}

/// An entry that is no picture is a storyboard or a video.
pub open spec fn holds_sb_video(entries: Seq<Entry>) -> bool {
    exists|i: int|
        0 <= i < entries.len() && !cover::is_image((#[trigger] entries[i]).name@)
            && lazer::is_sb_video(entries[i].name@)
}

/// The directory has an entry of that name.
pub open spec fn listed(entries: Seq<Entry>, name: Seq<char>) -> bool {
    exists|i: int| 0 <= i < entries.len() && (#[trigger] entries[i]).name@ == name
}

/// The difficulty has its file in the directory.
pub open spec fn has_file(entries: Seq<Entry>) -> spec_fn(BeatmapView) -> bool {
    |b: BeatmapView| listed(entries, b.sha2)
}

/// The difficulties of a folder whose files are there.
pub open spec fn playable(f: FolderView, scan: Scan) -> Seq<BeatmapView> {
    f.beatmaps.filter(has_file(scan.entries@))
}

/// The set that a folder becomes.
pub open spec fn set_of(f: FolderView, scan: Scan) -> SetView {
    SetView {
        id: f.folder,
        online_id: f.online_id,
        date_added_ms: scan.modified_ms,
        artist: f.artist,
        artist_unicode: f.artist_unicode,
        title: f.title,
        title_unicode: f.title_unicode,
        creator: f.creator,
        tags: f.tags,
        source: f.source,
        root: Some(scan.dir@),
        sb_video: holds_sb_video(scan.entries@),
        beatmaps: playable(f, scan),
        files: pictures(scan.entries@),
    }
}

/// The sets of the folders whose directory is there, with a difficulty in it.
pub open spec fn sets_of(fs: Seq<FolderView>, scans: Seq<Scan>) -> Seq<SetView>
    decreases fs.len(),
{
    if fs.len() == 0 {
        Seq::empty()
    } else {
        let before = sets_of(fs.drop_last(), scans);
        let scan = scans[fs.len() - 1];
        if scan.exists && playable(fs.last(), scan).len() > 0 {
            before.push(set_of(fs.last(), scan))
        } else {
            before
        }
    }
}

/// Where the directories of the folders are, below the songs.
pub fn folder_dirs(songs: &str, folders: &Vec<Folder>) -> (r: Vec<String>)
    ensures
        r@.len() == folders@.len(),
        forall|i: int|
            0 <= i < r@.len() ==> paths::joined(songs@, folders@[i].folder@, (#[trigger] r@[i])@),
{
    let mut r: Vec<String> = Vec::new();
    let mut i: usize = 0;
    while i < folders.len()
        invariant
            i <= folders@.len(),
            r@.len() == i,
            forall|j: int|
                0 <= j < i ==> paths::joined(songs@, folders@[j].folder@, (#[trigger] r@[j])@),
        decreases folders.len() - i,
    {
        r.push(paths::join(songs, folders[i].folder.as_str()));
        i = i + 1;
    }
    r
}

fn scan_files(entries: &Vec<Entry>) -> (r: (Vec<LazerFile>, bool))
    ensures
        lazer::file_views(r.0@) == pictures(entries@),
        r.1 == holds_sb_video(entries@),
{
    let mut files: Vec<LazerFile> = Vec::new();
    let mut sb_video: bool = false;
    let mut i: usize = 0;
    assert(lazer::file_views(files@) =~= pictures(entries@.take(0)));
    while i < entries.len()
        invariant
            i <= entries@.len(),
            lazer::file_views(files@) == pictures(entries@.take(i as int)),
            sb_video ==> holds_sb_video(entries@),
            !sb_video ==> forall|j: int|
                0 <= j < i ==> cover::is_image((#[trigger] entries@[j]).name@)
                    || !lazer::is_sb_video(entries@[j].name@),
        decreases entries.len() - i,
    {
        let ghost before = lazer::file_views(files@);
        assert(entries@.take(i + 1).drop_last() =~= entries@.take(i as int));
        if cover::is_image_name(entries[i].name.as_str()) {
            if entries[i].size > 0 {
                let f = LazerFile {
                    filename: entries[i].name.clone(),
                    hash: String::new(),
                    size: entries[i].size,
                };
                files.push(f);
                assert(f@.hash =~= Seq::<char>::empty());
                assert(lazer::file_views(files@) =~= before.push(f@));
            }
        } else if lazer::is_sb_video_name(entries[i].name.as_str()) {
            sb_video = true;
            assert(!cover::is_image(entries@[i as int].name@));
        }
        i = i + 1;
    }
    assert(entries@.take(entries@.len() as int) =~= entries@);
    (files, sb_video)
}

fn is_listed(entries: &Vec<Entry>, name: &str) -> (r: bool)
    ensures
        r == listed(entries@, name@),
{
    let mut i: usize = 0;
    while i < entries.len()
        invariant
            i <= entries@.len(),
            forall|j: int| 0 <= j < i ==> (#[trigger] entries@[j]).name@ != name@,
        decreases entries.len() - i,
    {
        if text::same(entries[i].name.as_str(), name) {
            return true;
        }
        i = i + 1;
    }
    false
}

fn keep_listed(beatmaps: Vec<LazerBeatmap>, entries: &Vec<Entry>) -> (r: Vec<LazerBeatmap>)
    ensures
        lazer::beatmap_views(r@) == lazer::beatmap_views(beatmaps@).filter(has_file(entries@)),
{
    let ghost all = lazer::beatmap_views(beatmaps@);
    let mut r: Vec<LazerBeatmap> = Vec::new();
    proof {
        reveal(Seq::filter);
        assert(lazer::beatmap_views(r@) =~= all.take(0).filter(has_file(entries@)));
    }
    for b in it: beatmaps.into_iter()
        invariant
            all == lazer::beatmap_views(it.seq()),
            lazer::beatmap_views(r@) == all.take(it.index() as int).filter(has_file(entries@)),
    {
        let ghost i = it.index() as int;
        let ghost before = lazer::beatmap_views(r@);
        proof {
            reveal(Seq::filter);
            assert(all.take(i + 1).drop_last() =~= all.take(i));
            assert(all.take(i + 1).last() == b@);
        }
        if is_listed(entries, b.sha2.as_str()) {
            r.push(b);
            assert(lazer::beatmap_views(r@) =~= before.push(b@));
        }
    }
    assert(all.take(all.len() as int) =~= all);
    r
}

/// The sets of the gathered folders, given what was found in the directory of each.
pub fn assemble(folders: Vec<Folder>, scans: &Vec<Scan>) -> (r: Vec<LazerSet>)
    requires
        scans@.len() == folders@.len(),
    ensures
        lazer::set_views(r@) == sets_of(folder_views(folders@), scans@),
{
    let ghost fs = folder_views(folders@);
    let mut r: Vec<LazerSet> = Vec::new();
    let mut i: usize = 0;
    assert(lazer::set_views(r@) =~= sets_of(fs.take(0), scans@));
    for f in it: folders.into_iter()
        invariant
            fs == folder_views(it.seq()),
            i == it.index(),
            scans.len() == fs.len(),
            lazer::set_views(r@) == sets_of(fs.take(i as int), scans@),
    {
        let ghost before = lazer::set_views(r@);
        proof {
            assert(fs.take(i + 1).drop_last() =~= fs.take(i as int));
            assert(fs.take(i + 1).last() == f@);
        }
        let ghost folder = f@;
        let beatmaps: Vec<LazerBeatmap> = keep_listed(f.beatmaps, &scans[i].entries);
        if scans[i].exists && beatmaps.len() > 0 {
            let (files, sb_video) = scan_files(&scans[i].entries);
            let set = LazerSet {
                id: f.folder,
                online_id: f.online_id,
                date_added_ms: scans[i].modified_ms,
                artist: f.artist,
                artist_unicode: f.artist_unicode,
                title: f.title,
                title_unicode: f.title_unicode,
                creator: f.creator,
                tags: f.tags,
                source: f.source,
                root: Some(scans[i].dir.clone()),
                sb_video,
                beatmaps,
                files,
            };
            r.push(set);
            assert(set@ =~= set_of(folder, scans@[i as int]));
            assert(lazer::set_views(r@) =~= before.push(set@));
        }
        i = i + 1;
    }
    assert(fs.take(fs.len() as int) =~= fs);
    r
}

/// Every set lies in a directory that is there, and every difficulty of it has its file there; a
/// set without any is left out.
pub proof fn law_listed_difficulties_are_there(fs: Seq<FolderView>, scans: Seq<Scan>, k: int)
    requires
        scans.len() == fs.len(),
        0 <= k < sets_of(fs, scans).len(),
    ensures
        ({
            let set = sets_of(fs, scans)[k];
            exists|i: int|
                0 <= i < fs.len() && (#[trigger] scans[i]).exists && set == set_of(fs[i], scans[i])
                    && set.root == Some(scans[i].dir@) && set.beatmaps.len() > 0 && forall|j: int|
                    0 <= j < set.beatmaps.len() ==> listed(
                        scans[i].entries@,
                        (#[trigger] set.beatmaps[j]).sha2,
                    )
        }),
{
    lemma_sets_come_from(fs, scans, k);
}

proof fn lemma_sets_come_from(fs: Seq<FolderView>, scans: Seq<Scan>, k: int)
    requires
        scans.len() >= fs.len(),
        0 <= k < sets_of(fs, scans).len(),
    ensures
        ({
            let set = sets_of(fs, scans)[k];
            exists|i: int|
                0 <= i < fs.len() && (#[trigger] scans[i]).exists && set == set_of(fs[i], scans[i])
                    && set.root == Some(scans[i].dir@) && set.beatmaps.len() > 0 && forall|j: int|
                    0 <= j < set.beatmaps.len() ==> listed(
                        scans[i].entries@,
                        (#[trigger] set.beatmaps[j]).sha2,
                    )
        }),
    decreases fs.len(),
{
    broadcast use vstd::seq_lib::group_filter_ensures;

    let before = sets_of(fs.drop_last(), scans);
    let set = sets_of(fs, scans)[k];
    if k < before.len() {
        lemma_sets_come_from(fs.drop_last(), scans, k);
        let i = choose|i: int|
            0 <= i < fs.len() - 1 && (#[trigger] scans[i]).exists && set == set_of(
                fs.drop_last()[i],
                scans[i],
            ) && set.root == Some(scans[i].dir@) && set.beatmaps.len() > 0 && forall|j: int|
                0 <= j < set.beatmaps.len() ==> listed(
                    scans[i].entries@,
                    (#[trigger] set.beatmaps[j]).sha2,
                );
        assert(fs.drop_last()[i] == fs[i]);
        assert(scans[i].exists);
    } else {
        let i = fs.len() - 1;
        let scan = scans[i];
        assert forall|j: int| 0 <= j < set.beatmaps.len() implies listed(
            scan.entries@,
            (#[trigger] set.beatmaps[j]).sha2,
        ) by {
            assert(has_file(scan.entries@)(playable(fs.last(), scan)[j]));
        }
        assert(scans[i].exists && set == set_of(fs[i], scans[i]));
    }
}

/// A collection as collection.db lists it.
#[derive(Debug)]
pub struct StableCollection {
    pub name: Option<String>,
    pub hashes: Vec<Option<String>>,
}

/// The collections with a name, each difficulty once.
pub open spec fn named(list: Seq<StableCollection>) -> Seq<CollectionView>
    decreases list.len(),
{
    if list.len() == 0 {
        Seq::empty()
    } else {
        let before = named(list.drop_last());
        let c = list.last();
        let name = text_or_empty(c.name);
        if name.len() == 0 {
            before
        } else {
            before.push(CollectionView { name, md5s: lazer::distinct(c.hashes@) })
        }
    }
}

/// The collections, the favourites first.
pub fn collections(list: &Vec<StableCollection>) -> (r: Vec<LazerCollection>)
    ensures
        lazer::collection_views(r@) == lazer::favourites_first(named(list@)),
{
    let mut all: Vec<LazerCollection> = Vec::new();
    let mut i: usize = 0;
    assert(lazer::collection_views(all@) =~= named(list@.take(0)));
    while i < list.len()
        invariant
            i <= list@.len(),
            lazer::collection_views(all@) == named(list@.take(i as int)),
        decreases list.len() - i,
    {
        let ghost before = lazer::collection_views(all@);
        assert(list@.take(i + 1).drop_last() =~= list@.take(i as int));
        let name: String = or_empty(&list[i].name);
        if text::chars_of(name.as_str()).len() > 0 {
            let c = LazerCollection { name, md5s: lazer::distinct_strings(&list[i].hashes) };
            all.push(c);
            assert(lazer::collection_views(all@) =~= before.push(c@));
        }
        i = i + 1;
    }
    assert(list@.take(list@.len() as int) =~= list@);
    lazer::favourites_to_front(all)
}

/// The library of an osu!stable: the sets of the folders that are there, with the difficulties whose
/// files are there, and the collections.
pub fn library(folders: Vec<Folder>, scans: &Vec<Scan>, lists: &Vec<StableCollection>) -> (r: LazerLibrary)
    requires
        scans@.len() == folders@.len(),
    ensures
        r@.sets == sets_of(folder_views(folders@), scans@),
        r@.collections == lazer::favourites_first(named(lists@)),
        r@.skins.len() == 0,
{
    LazerLibrary {
        sets: assemble(folders, scans),
        collections: collections(lists),
        skins: Vec::new(),
    }
}

/// The files that are not empty.
pub open spec fn sized_at(files: Seq<LazerFile>) -> spec_fn(int) -> bool {
    |i: int| files[i].size > 0
}

/// The cover of a set that lies in a directory: its largest picture, the last of them where there
/// are several, and where it is.
pub fn cover_path(set: &LazerSet) -> (r: Option<String>)
    ensures
        match r {
            Some(path) => set.root is Some && exists|k: int| #[trigger]
                cover::is_last_largest(
                    lazer::sizes_of(set.files@),
                    sized_at(set.files@),
                    k,
                ) && paths::joined(set.root->0@, set.files@[k].filename@, path@),
            None => set.root is None || forall|i: int|
                0 <= i < set.files@.len() ==> (#[trigger] set.files@[i]).size == 0,
        },
{
    let dir: &String = match &set.root {
        Some(dir) => dir,
        None => {
            return None;
        },
    };
    let ghost sizes = lazer::sizes_of(set.files@);
    let ghost p = sized_at(set.files@);
    let mut best: Option<usize> = None;
    let mut i: usize = 0;
    while i < set.files.len()
        invariant
            i <= set.files@.len(),
            sizes == lazer::sizes_of(set.files@),
            p == sized_at(set.files@),
            match best {
                Some(k) => {
                    &&& k < i
                    &&& p(k as int)
                    &&& forall|j: int| 0 <= j < i ==> #[trigger] sizes[j] <= sizes[k as int]
                    &&& forall|j: int| k < j < i ==> #[trigger] sizes[j] < sizes[k as int]
                },
                None => forall|j: int| 0 <= j < i ==> #[trigger] sizes[j] == 0,
            },
        decreases set.files.len() - i,
    {
        assert(sizes[i as int] == set.files@[i as int].size);
        if set.files[i].size > 0 {
            let better: bool = match best {
                Some(k) => set.files[i].size >= set.files[k].size,
                None => true,
            };
            if better {
                best = Some(i);
            }
        }
        i = i + 1;
    }
    match best {
        Some(k) => {
            assert(cover::is_last_largest(sizes, p, k as int));
            Some(paths::join(dir.as_str(), set.files[k].filename.as_str()))
        },
        None => {
            assert forall|i: int| 0 <= i < set.files@.len() implies (#[trigger] set.files@[i]).size
                == 0 by {
                assert(sizes[i] == 0);
            }
            None
        },
    }
}

// ---------- the installation ----------

/// A directory to take the installation from, and whether osu!.db is in it.
#[derive(Debug)]
pub struct StableDir {
    pub dir: String,
    pub has_db: bool,
}

/// Sets the directory by hand, or with none goes back to finding it. One without osu!.db is
/// refused, and nothing is set any more.
pub open spec fn dir_after(dir: Option<StableDir>) -> Option<String> {
    match dir {
        None => None,
        Some(d) => if d.has_db {
            Some(d.dir)
        } else {
            None
        },
    }
}

pub fn set_custom_stable_dir(slot: &mut Option<String>, dir: Option<StableDir>) -> (r: Result<(), String>)
    ensures
        *final(slot) == dir_after(dir),
        match dir {
            Some(d) if !d.has_db => r is Err && r->Err_0@ == "所选目录中没有 osu!.db:"@ + d.dir@,
            _ => r is Ok,
        },
{
    *slot = None;
    match dir {
        None => Ok(()),
        Some(d) => {
            if d.has_db {
                *slot = Some(d.dir);
                Ok(())
            } else {
                Err(text::owned("所选目录中没有 osu!.db:").concat(d.dir.as_str()))
            }
        },
    }
}

/// The directory that was set by hand.
pub fn custom_stable_dir(slot: &Option<String>) -> (r: Option<String>)
    ensures
        r == *slot,
{
    match slot {
        Some(s) => Some(s.clone()),
        None => None,
    }
}

/// The installation: what was set by hand if osu!.db is there, and only where nothing was set
/// what was found.
pub open spec fn installation(custom: Option<StableDir>, found: Option<String>) -> Option<String> {
    match custom {
        Some(d) => if d.has_db {
            Some(d.dir)
        } else {
            None
        },
        None => found,
    }
}

pub fn stable_root(custom: Option<StableDir>, found: Option<String>) -> (r: Option<String>)
    ensures
        r == installation(custom, found),
{
    match custom {
        Some(d) => {
            if d.has_db {
                Some(d.dir)
            } else {
                None
            }
        },
        None => found,
    }
}

/// The directory below the root of the drive with the given letter.
pub open spec fn drive_dir(letter: u8) -> Seq<char> {
    seq![letter as char] + ":\\osu!"@
}

/// The places where an installation is looked for, in this order: where the registry says, below
/// the local application data, and on the drives from C to Z.
pub fn candidates(registry: Option<&str>, local: Option<&str>) -> (r: Vec<String>)
    ensures
        ({
            let a: int = if registry is Some { 1 } else { 0 };
            let b: int = if local is Some { a + 1 } else { a };
            &&& r@.len() == b + 24
            &&& registry is Some ==> r@[0]@ == registry->0@
            &&& local is Some ==> paths::joined(local->0@, "osu!"@, r@[a]@)
            &&& forall|i: int| 0 <= i < 24 ==> (#[trigger] r@[b + i])@ == drive_dir((0x43 + i) as u8)
        }),
{
    let mut r: Vec<String> = Vec::new();
    let ghost a: int = if registry is Some { 1 } else { 0 };
    let ghost b: int = if local is Some { a + 1 } else { a };
    if let Some(p) = registry {
        r.push(text::owned(p));
    }
    if let Some(l) = local {
        r.push(paths::join(l, "osu!"));
    }
    let mut letter: u8 = 0x43;
    while letter <= 0x5A
        invariant
            0x43 <= letter <= 0x5B,
            b == (if local is Some { a + 1 } else { a }),
            a == (if registry is Some { 1int } else { 0int }),
            r@.len() == b + (letter - 0x43),
            registry is Some ==> r@[0]@ == registry->0@,
            local is Some ==> paths::joined(local->0@, "osu!"@, r@[a]@),
            forall|i: int|
                0 <= i < letter - 0x43 ==> (#[trigger] r@[b + i])@ == drive_dir((0x43 + i) as u8),
        decreases 0x5B - letter,
    {
        let mut s: String = String::new();
        s.push(letter as char);
        s.append(":\\osu!");
        assert(s@ =~= drive_dir(letter));
        r.push(s);
        letter = letter + 1;
    }
    r
}

/// The first of the places where osu!.db is.
pub open spec fn first_place(places: Seq<String>, has_db: Seq<bool>) -> Option<String> {
    match seqs::least(places.len() as int, |i: int| has_db[i]) {
        Some(i) => Some(places[i]),
        None => None,
    }
}

pub fn first_with_db(places: &Vec<String>, has_db: &Vec<bool>) -> (r: Option<String>)
    requires
        has_db@.len() == places@.len(),
    ensures
        r == first_place(places@, has_db@),
{
    let ghost p = |i: int| has_db@[i];
    let mut i: usize = 0;
    while i < places.len()
        invariant
            i <= places@.len(),
            has_db@.len() == places@.len(),
            p == (|i: int| has_db@[i]),
            forall|j: int| 0 <= j < i ==> !#[trigger] p(j),
        decreases places.len() - i,
    {
        if has_db[i] {
            assert(p(i as int));
            proof {
                seqs::lemma_least_found(places@.len() as int, p, i as int);
            }
            return Some(places[i].clone());
        }
        assert(!p(i as int));
        i = i + 1;
    }
    proof {
        seqs::lemma_least_missing(places@.len() as int, p);
    }
    None
}

// ---------- what is shown is what is listed ----------

/// The listed difficulty is one of osu! in the folder of that name, with a file.
pub open spec fn listed_in(b: StableBeatmap, folder: Seq<char>) -> bool {
    &&& b.standard
    &&& b.file_name is Some
    &&& b.folder_name matches Some(f)
    &&& f@ == folder
}

/// `t` is a text that is listed, nothing where none is.
pub open spec fn says(s: Option<String>, t: Seq<char>) -> bool {
    match s {
        Some(x) => t == x@,
        None => t.len() == 0,
    }
}

/// A difficulty shows what is listed of it: its file stands for it, its hash is the MD5 by which
/// collections name it, its rating is the one without mods and its tempo the highest.
pub proof fn law_difficulty_shows_what_is_listed(b: StableBeatmap, k: int)
    ensures
        ({
            let v = beatmap_of(b);
            &&& says(b.file_name, v.sha2)
            &&& says(b.hash, v.md5)
            &&& says(b.difficulty_name, v.name)
            &&& v.ruleset == "osu"@
            &&& v.length_ms == b.length_ms
            &&& v.ar == b.ar && v.cs == b.cs && v.od == b.od && v.hp == b.hp
            &&& v.online_id == b.beatmap_id
            &&& v.bpm == fastest(b.timing_points@)
            &&& (0 <= k < b.ratings@.len() && b.ratings@[k].mods == 0 && forall|j: int|
                0 <= j < k ==> (#[trigger] b.ratings@[j]).mods != 0) ==> v.star_rating
                == b.ratings@[k].star
            &&& (forall|j: int| 0 <= j < b.ratings@.len() ==> (#[trigger] b.ratings@[j]).mods != 0)
                ==> v.star_rating.bits == 0
        }),
{
    let p = |i: int| b.ratings@[i].mods == 0;
    if 0 <= k < b.ratings@.len() && b.ratings@[k].mods == 0 && (forall|j: int|
        0 <= j < k ==> (#[trigger] b.ratings@[j]).mods != 0) {
        assert(p(k));
        assert(seqs::is_least(b.ratings@.len() as int, p, k));
        seqs::lemma_least_found(b.ratings@.len() as int, p, k);
    }
    if forall|j: int| 0 <= j < b.ratings@.len() ==> (#[trigger] b.ratings@[j]).mods != 0 {
        seqs::lemma_least_missing(b.ratings@.len() as int, p);
    }
}

/// The tempo is that of a point that sets one, or zero where none does.
pub proof fn law_bpm_is_one_of_the_points(points: Seq<TimingPoint>)
    ensures
        fastest(points).bits == 0 || exists|k: int|
            0 <= k < points.len() && fastest(points) == (#[trigger] points[k]).per_minute && (Double {
                bits: 0,
            }).below(points[k].ms_per_beat),
    decreases points.len(),
{
    if points.len() > 0 {
        let rest = points.drop_last();
        law_bpm_is_one_of_the_points(rest);
        if fastest(points) == fastest(rest) {
            if fastest(rest).bits != 0 {
                let k = choose|k: int|
                    0 <= k < rest.len() && fastest(rest) == (#[trigger] rest[k]).per_minute && (Double {
                        bits: 0,
                    }).below(rest[k].ms_per_beat);
                assert(points[k] == rest[k]);
            }
        } else {
            assert(points[points.len() - 1].per_minute == fastest(points));
        }
    }
}

proof fn lemma_place_is_the_folder(fs: Seq<FolderView>, name: Seq<char>, i: int)
    requires
        0 <= i < fs.len(),
        fs[i].folder == name,
        forall|a: int, b: int|
            0 <= a < fs.len() && 0 <= b < fs.len() && a != b ==> (#[trigger] fs[a]).folder != (
            #[trigger] fs[b]).folder,
    ensures
        folder_place(fs, name) == Some(i),
{
    let p = |j: int| fs[j].folder == name;
    assert(p(i));
    assert forall|j: int| 0 <= j < i implies !#[trigger] p(j) by {
        assert(fs[j].folder != fs[i].folder);
    }
    seqs::lemma_least_found(fs.len() as int, p, i);
}

/// A folder has the artist, the title, their forms in their own script, the creator, the tags and
/// the source of the first listed difficulty that is in it.
pub proof fn law_folder_has_the_names_of_its_first(list: Seq<StableBeatmap>, k: int, i: int)
    requires
        0 <= k < list.len(),
        0 <= i < gathered(list).len(),
        listed_in(list[k], gathered(list)[i].folder),
        forall|j: int| 0 <= j < k ==> !listed_in(#[trigger] list[j], gathered(list)[i].folder),
    ensures
        says(list[k].artist_ascii, gathered(list)[i].artist),
        says(list[k].artist_unicode, gathered(list)[i].artist_unicode),
        says(list[k].title_ascii, gathered(list)[i].title),
        says(list[k].title_unicode, gathered(list)[i].title_unicode),
        says(list[k].creator, gathered(list)[i].creator),
        says(list[k].tags, gathered(list)[i].tags),
        says(list[k].song_source, gathered(list)[i].source),
    decreases list.len(),
{
    let rest = list.drop_last();
    let before = gathered(rest);
    let b = list.last();
    let name = gathered(list)[i].folder;
    law_folders_are_distinct(rest);
    if k < rest.len() {
        law_gathered_keeps_beatmaps(rest, k);
        let m = choose|m: int|
            0 <= m < before.len() && (#[trigger] before[m]).folder == rest[k].folder_name->0@
                && before[m].beatmaps.contains(beatmap_of(rest[k]));
        law_folders_are_distinct(list);
        if relevant(b) {
            let p = |j: int| before[j].folder == b.folder_name->0@;
            seqs::lemma_least(before.len() as int, p);
        }
        assert(gathered(list)[m].folder == name);
        if m != i {
            assert(gathered(list)[m].folder != gathered(list)[i].folder);
        }
        assert(before[i].folder == name);
        assert forall|j: int| 0 <= j < k implies !listed_in(#[trigger] rest[j], before[i].folder) by {
            assert(rest[j] == list[j]);
        }
        law_folder_has_the_names_of_its_first(rest, k, i);
    } else {
        if i < before.len() {
            assert(before[i].folder == name) by {
                if relevant(b) {
                    let p = |j: int| before[j].folder == b.folder_name->0@;
                    seqs::lemma_least(before.len() as int, p);
                }
            }
            lemma_folder_has_a_listed_one(rest, i);
            let j = choose|j: int| 0 <= j < rest.len() && listed_in(#[trigger] rest[j], name);
            assert(listed_in(list[j], name));
        }
    }
}

/// Every folder was opened by a difficulty that is listed in it.
pub proof fn lemma_folder_has_a_listed_one(list: Seq<StableBeatmap>, i: int)
    requires
        0 <= i < gathered(list).len(),
    ensures
        exists|j: int| 0 <= j < list.len() && listed_in(#[trigger] list[j], gathered(list)[i].folder),
    decreases list.len(),
{
    let rest = list.drop_last();
    let before = gathered(rest);
    let b = list.last();
    let name = gathered(list)[i].folder;
    if relevant(b) {
        let p = |j: int| before[j].folder == b.folder_name->0@;
        seqs::lemma_least(before.len() as int, p);
    }
    if i < before.len() {
        assert(before[i].folder == name);
        lemma_folder_has_a_listed_one(rest, i);
        let j = choose|j: int| 0 <= j < rest.len() && listed_in(#[trigger] rest[j], name);
        assert(listed_in(list[j], name));
    } else {
        assert(listed_in(list[list.len() - 1], name));
    }
}

/// One more listed difficulty changes the folder that it is in, and no other: it comes behind the
/// difficulties that are there. One that opens its folder puts it behind the others, and one that is
/// not for osu!, or lacks its folder or its file, changes nothing.
pub proof fn law_difficulty_joins_its_folder(list: Seq<StableBeatmap>, b: StableBeatmap, i: int)
    requires
        0 <= i < gathered(list).len(),
    ensures
        ({
            let before = gathered(list);
            let after = gathered(list.push(b));
            &&& listed_in(b, before[i].folder) ==> {
                &&& after.len() == before.len()
                &&& after[i].beatmaps == before[i].beatmaps.push(beatmap_of(b))
                &&& after[i] == (FolderView {
                    beatmaps: after[i].beatmaps,
                    online_id: after[i].online_id,
                    ..before[i]
                })
                &&& before[i].online_id > 0 || b.beatmapset_id <= 0 ==> after[i].online_id
                    == before[i].online_id
                &&& before[i].online_id <= 0 && b.beatmapset_id > 0 ==> after[i].online_id
                    == b.beatmapset_id
            }
            &&& !listed_in(b, before[i].folder) ==> after[i] == before[i]
            &&& !(b.standard && b.folder_name is Some && b.file_name is Some) ==> after == before
        }),
{
    let before = gathered(list);
    assert(list.push(b).drop_last() =~= list);
    law_folders_are_distinct(list);
    if relevant(b) {
        let p = |j: int| before[j].folder == b.folder_name->0@;
        seqs::lemma_least(before.len() as int, p);
        if listed_in(b, before[i].folder) {
            lemma_place_is_the_folder(before, before[i].folder, i);
        } else if folder_place(before, b.folder_name->0@) is Some {
            let k = folder_place(before, b.folder_name->0@)->0;
            assert(p(k));
        }
    }
}

/// A difficulty of a folder that was not there opens it, behind the others, with its own set number.
pub proof fn law_new_folder_comes_last(list: Seq<StableBeatmap>, b: StableBeatmap)
    requires
        b.standard,
        b.folder_name is Some,
        b.file_name is Some,
        forall|i: int|
            0 <= i < gathered(list).len() ==> (#[trigger] gathered(list)[i]).folder
                != b.folder_name->0@,
    ensures
        gathered(list.push(b)).len() == gathered(list).len() + 1,
        gathered(list.push(b)).drop_last() == gathered(list),
        gathered(list.push(b)).last().folder == b.folder_name->0@,
        gathered(list.push(b)).last().beatmaps == seq![beatmap_of(b)],
        gathered(list.push(b)).last().online_id == b.beatmapset_id,
{
    let before = gathered(list);
    assert(list.push(b).drop_last() =~= list);
    let p = |i: int| before[i].folder == b.folder_name->0@;
    seqs::lemma_least_missing(before.len() as int, p);
    assert(gathered(list.push(b)).drop_last() =~= before);
    assert(gathered(list.push(b)).last().beatmaps =~= seq![beatmap_of(b)]);
}

/// A set shows what is known of its folder and what was found in its directory.
pub proof fn law_set_shows_its_folder(f: FolderView, scan: Scan)
    ensures
        ({
            let s = set_of(f, scan);
            &&& s.id == f.folder
            &&& s.online_id == f.online_id
            &&& s.date_added_ms == scan.modified_ms
            &&& s.artist == f.artist && s.artist_unicode == f.artist_unicode
            &&& s.title == f.title && s.title_unicode == f.title_unicode
            &&& s.creator == f.creator && s.tags == f.tags && s.source == f.source
            &&& s.root == Some(scan.dir@)
            &&& s.sb_video <==> exists|i: int|
                0 <= i < scan.entries@.len() && !cover::is_image((#[trigger] scan.entries@[i]).name@)
                    && lazer::is_sb_video(scan.entries@[i].name@)
        }),
{
}

/// Each folder is decided by its own directory: with one more folder the sets of the others stay,
/// and that one is behind them if its directory is there and holds the file of a difficulty.
pub proof fn law_each_folder_is_decided_by_its_directory(
    fs: Seq<FolderView>,
    f: FolderView,
    scans: Seq<Scan>,
)
    requires
        scans.len() > fs.len(),
    ensures
        ({
            let scan = scans[fs.len() as int];
            let there = scan.exists && exists|i: int, j: int|
                0 <= i < f.beatmaps.len() && 0 <= j < scan.entries@.len() && (
                #[trigger] f.beatmaps[i]).sha2 == (#[trigger] scan.entries@[j]).name@;
            &&& there ==> sets_of(fs.push(f), scans) == sets_of(fs, scans).push(set_of(f, scan))
            &&& !there ==> sets_of(fs.push(f), scans) == sets_of(fs, scans)
        }),
        sets_of(Seq::empty(), scans).len() == 0,
{
    broadcast use vstd::seq_lib::group_filter_ensures;

    let scan = scans[fs.len() as int];
    assert(fs.push(f).drop_last() =~= fs);
    let p = has_file(scan.entries@);
    if exists|i: int, j: int|
        0 <= i < f.beatmaps.len() && 0 <= j < scan.entries@.len() && (#[trigger] f.beatmaps[i]).sha2
            == (#[trigger] scan.entries@[j]).name@ {
        let (i, j) = choose|i: int, j: int|
            0 <= i < f.beatmaps.len() && 0 <= j < scan.entries@.len() && (
            #[trigger] f.beatmaps[i]).sha2 == (#[trigger] scan.entries@[j]).name@;
        assert(scan.entries@[j].name@ == f.beatmaps[i].sha2);
        assert(p(f.beatmaps[i]));
        assert(f.beatmaps.filter(p).contains(f.beatmaps[i]));
    } else if playable(f, scan).len() > 0 {
        assert(p(playable(f, scan)[0]));
        let i = seqs::lemma_filter_source(f.beatmaps, p, 0);
        assert(listed(scan.entries@, f.beatmaps[i].sha2));
        let j = choose|j: int|
            0 <= j < scan.entries@.len() && (#[trigger] scan.entries@[j]).name@ == f.beatmaps[i].sha2;
        assert(f.beatmaps[i].sha2 == scan.entries@[j].name@);
    }
}

/// The pictures of a set are those of its directory that are not empty, under their names and with
/// their sizes, in its order.
pub proof fn law_pictures_are_those_with_a_size(entries: Seq<Entry>, e: Entry)
    ensures
        cover::is_image(e.name@) && e.size > 0 ==> pictures(entries.push(e)).len() == pictures(
            entries,
        ).len() + 1 && pictures(entries.push(e)).drop_last() == pictures(entries) && pictures(
            entries.push(e),
        ).last().filename == e.name@ && pictures(entries.push(e)).last().size == e.size,
        !(cover::is_image(e.name@) && e.size > 0) ==> pictures(entries.push(e)) == pictures(entries),
        pictures(Seq::empty()).len() == 0,
{
    assert(entries.push(e).drop_last() =~= entries);
    assert(pictures(entries.push(e)).len() > pictures(entries).len() ==> pictures(
        entries.push(e),
    ).drop_last() =~= pictures(entries));
}

/// The collections are those with a name, in the order of the list, each with the hashes that it
/// lists.
pub proof fn law_collections_are_those_with_a_name(list: Seq<StableCollection>, c: StableCollection)
    ensures
        c.name is Some && c.name->0@.len() > 0 ==> named(list.push(c)).len() == named(list).len() + 1
            && named(list.push(c)).drop_last() == named(list) && named(list.push(c)).last().name
            == c.name->0@ && named(list.push(c)).last().md5s == lazer::distinct(c.hashes@),
        !(c.name is Some && c.name->0@.len() > 0) ==> named(list.push(c)) == named(list),
        named(Seq::empty()).len() == 0,
{
    assert(list.push(c).drop_last() =~= list);
    assert(named(list.push(c)).len() > named(list).len() ==> named(list.push(c)).drop_last()
        =~= named(list));
}

/// What stands for a folder says of each field what the field holds.
pub proof fn law_folder_view_shows_the_fields(f: Folder)
    ensures
        f@.folder == f.folder@ && f@.artist == f.artist@ && f@.artist_unicode == f.artist_unicode@,
        f@.title == f.title@ && f@.title_unicode == f.title_unicode@ && f@.creator == f.creator@,
        f@.online_id == f.online_id && f@.tags == f.tags@ && f@.source == f.source@,
        f@.beatmaps.len() == f.beatmaps@.len(),
        forall|i: int| 0 <= i < f.beatmaps@.len() ==> #[trigger] f@.beatmaps[i] == f.beatmaps@[i]@,
{
}

/// What was set by hand is the installation where its database is, and nothing is where it is not;
/// what was found counts only where nothing was set.
pub proof fn law_installation_set_by_hand(d: StableDir, found: Option<String>)
    ensures
        d.has_db ==> installation(Some(d), found) == Some(d.dir),
        !d.has_db ==> installation(Some(d), found) is None,
        installation(None, found) == found,
{
}

/// What is found is the first of the places that has the database.
pub proof fn law_first_place_is_found(places: Seq<String>, has_db: Seq<bool>, i: int)
    requires
        places.len() == has_db.len(),
    ensures
        0 <= i < places.len() && has_db[i] && (forall|j: int| 0 <= j < i ==> !#[trigger] has_db[j])
            ==> first_place(places, has_db) == Some(places[i]),
        (forall|j: int| 0 <= j < places.len() ==> !#[trigger] has_db[j]) ==> first_place(
            places,
            has_db,
        ) is None,
{
    let p = |j: int| has_db[j];
    if 0 <= i < places.len() && has_db[i] && (forall|j: int|
        0 <= j < i ==> !#[trigger] has_db[j]) {
        assert(p(i));
        assert forall|j: int| 0 <= j < i implies !#[trigger] p(j) by {
            assert(!has_db[j]);
        }
        seqs::lemma_least_found(places.len() as int, p, i);
    }
    if forall|j: int| 0 <= j < places.len() ==> !#[trigger] has_db[j] {
        assert forall|j: int| 0 <= j < places.len() implies !#[trigger] p(j) by {
            assert(!has_db[j]);
        }
        seqs::lemma_least_missing(places.len() as int, p);
    }
}

/// On a drive the game is looked for right below the root.
pub proof fn law_game_below_the_drive(letter: u8)
    requires
        0x43 <= letter <= 0x5A,
    ensures
        drive_dir(letter) == seq![letter as char] + ":\\osu!"@,
        drive_dir(letter)[0] as int == letter,
        paths::on_drive(drive_dir(letter)),
{
    reveal_strlit(":\\osu!");
    assert(drive_dir(letter)[1] == ':');
}

/// The rating that counts is the first one without mods.
pub proof fn law_rating_is_without_mods(ratings: Seq<Rating>, i: int)
    ensures
        0 <= i < ratings.len() && ratings[i].mods == 0 && (forall|j: int|
            0 <= j < i ==> (#[trigger] ratings[j]).mods != 0) ==> nomod(ratings) == ratings[i].star,
        (forall|j: int| 0 <= j < ratings.len() ==> (#[trigger] ratings[j]).mods != 0) ==> nomod(
            ratings,
        ).bits == 0,
{
    let p = |j: int| ratings[j].mods == 0;
    if 0 <= i < ratings.len() && ratings[i].mods == 0 && (forall|j: int|
        0 <= j < i ==> (#[trigger] ratings[j]).mods != 0) {
        assert(p(i));
        assert forall|j: int| 0 <= j < i implies !#[trigger] p(j) by {
            assert(ratings[j].mods != 0);
        }
        seqs::lemma_least_found(ratings.len() as int, p, i);
    }
    if forall|j: int| 0 <= j < ratings.len() ==> (#[trigger] ratings[j]).mods != 0 {
        assert forall|j: int| 0 <= j < ratings.len() implies !#[trigger] p(j) by {
            assert(ratings[j].mods != 0);
        }
        seqs::lemma_least_missing(ratings.len() as int, p);
    }
}

/// A directory holds a storyboard or a video if one of its entries that is no picture is one.
pub proof fn law_directory_with_a_storyboard(entries: Seq<Entry>, e: Entry)
    ensures
        !holds_sb_video(Seq::empty()),
        holds_sb_video(entries.push(e)) <==> holds_sb_video(entries) || (!cover::is_image(e.name@)
            && lazer::is_sb_video(e.name@)),
{
    let all = entries.push(e);
    if holds_sb_video(entries) {
        let i = choose|i: int|
            0 <= i < entries.len() && !cover::is_image((#[trigger] entries[i]).name@)
                && lazer::is_sb_video(entries[i].name@);
        assert(all[i] == entries[i]);
    }
    if !cover::is_image(e.name@) && lazer::is_sb_video(e.name@) {
        assert(all[entries.len() as int] == e);
    }
    if holds_sb_video(all) {
        let i = choose|i: int|
            0 <= i < all.len() && !cover::is_image((#[trigger] all[i]).name@) && lazer::is_sb_video(
                all[i].name@,
            );
        if i < entries.len() {
            assert(all[i] == entries[i]);
        }
    }
}

/// The cover of a directory is a file that is not empty, and no other is larger.
pub proof fn law_cover_is_the_largest_file(files: Seq<LazerFile>, k: int, j: int)
    requires
        cover::is_last_largest(lazer::sizes_of(files), sized_at(files), k),
        0 <= j < files.len(),
    ensures
        0 <= k < files.len(),
        files[k].size > 0,
        files[j].size <= files[k].size,
        j > k ==> files[j].size < files[k].size,
{
    let p = sized_at(files);
    assert(p(k));
    assert(lazer::sizes_of(files)[k] == files[k].size);
    if files[j].size > 0 {
        assert(p(j));
        assert(lazer::sizes_of(files)[j] == files[j].size);
    }
}

/// A directory with its database is set; after one without, or none, nothing is set.
pub proof fn law_only_a_good_directory_is_set(d: StableDir)
    ensures
        d.has_db ==> dir_after(Some(d)) == Some(d.dir),
        !d.has_db ==> dir_after(Some(d)) is None,
        dir_after(None) is None,
{
}

} // verus!
