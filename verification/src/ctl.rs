//! What the player decides for the renderer that it runs: what is loaded, in which order, and what
//! is remembered of it.
use vstd::prelude::*;

use crate::ieee::{Double, Single};
use crate::ipc;
use crate::ipc::{Command, Event, Load, VFile};
use crate::lazer;
use crate::lazer::{LazerBeatmap, LazerFile, LazerLibrary, LazerSet, LazerSkin};
use crate::pathcache::{CachedDiff, CachedSet};
use crate::paths;
use crate::playlist;
use crate::playlist::{PickPolicy, PlayMode, Playlist, Queue, Track};
use crate::seqs;
use crate::settings::{List, SavedTrack, Settings};
use crate::text;

verus! {

// ---------- what a new renderer is told ----------

/// What was chosen by hand, else what comes with the program.
pub open spec fn bin_of(manual: Option<String>, bundled: Option<String>) -> Option<String> {
    match manual {
        Some(p) => Some(p),
        None => bundled,
    }
}

/// What a new renderer is told before anything else.
pub open spec fn greeting(s: Settings, ffmpeg: Option<String>, ffprobe: Option<String>) -> Seq<Command> {
    seq![
        Command::SetVolume { v: s.sound.volume },
        Command::SetHitsVolume {
            v: if s.sound.hitsound {
                s.sound.hits_volume
            } else {
                Single { bits: 0 }
            },
        },
        Command::SetHud { on: s.shown.hud },
        Command::SetPp { on: s.shown.pp },
        Command::SetHitAnimations { on: !s.shown.reduce_anim },
        Command::SetBreakLighten { on: s.shown.break_lighten },
        Command::SetCursor { on: s.shown.cursor },
        Command::SetCursorSize { x: s.shown.cursor_size },
        Command::SetRenderMode { mode: s.render.render_mode },
        Command::SetBgOpacity { v: s.shown.bg_opacity },
        Command::SetMaster { v: s.sound.master_volume },
        Command::SetOffset { ms: s.sound.audio_offset_ms },
        Command::SetGameplayHidden { on: s.shown.gameplay_hidden },
        Command::SetFade { on: s.sound.fade_audio },
        Command::SetFfmpegBins {
            ffmpeg: bin_of(s.places.ffmpeg, ffmpeg),
            ffprobe: bin_of(s.places.ffprobe, ffprobe),
        },
        Command::SetLog { on: s.program.log_enabled },
    ]
}

pub fn choose_bin(manual: &Option<String>, bundled: Option<String>) -> (r: Option<String>)
    ensures
        r == bin_of(*manual, bundled),
{
    match manual {
        Some(p) => Some(p.clone()),
        None => bundled,
    }
}

/// The commands for a renderer that was just started; the programs that come with this one are
/// used where none was chosen by hand.
pub fn spawn_commands(s: &Settings, ffmpeg: Option<String>, ffprobe: Option<String>) -> (r: Vec<
    Command,
>)
    ensures
        r@ == greeting(*s, ffmpeg, ffprobe),
{
    let hits: Single = if s.sound.hitsound {
        s.sound.hits_volume
    } else {
        Single { bits: 0 }
    };
    let ffmpeg: Option<String> = choose_bin(&s.places.ffmpeg, ffmpeg);
    let ffprobe: Option<String> = choose_bin(&s.places.ffprobe, ffprobe);
    vec![
        Command::SetVolume { v: s.sound.volume },
        Command::SetHitsVolume { v: hits },
        Command::SetHud { on: s.shown.hud },
        Command::SetPp { on: s.shown.pp },
        Command::SetHitAnimations { on: !s.shown.reduce_anim },
        Command::SetBreakLighten { on: s.shown.break_lighten },
        Command::SetCursor { on: s.shown.cursor },
        Command::SetCursorSize { x: s.shown.cursor_size },
        Command::SetRenderMode { mode: s.render.render_mode.clone() },
        Command::SetBgOpacity { v: s.shown.bg_opacity },
        Command::SetMaster { v: s.sound.master_volume },
        Command::SetOffset { ms: s.sound.audio_offset_ms },
        Command::SetGameplayHidden { on: s.shown.gameplay_hidden },
        Command::SetFade { on: s.sound.fade_audio },
        Command::SetFfmpegBins { ffmpeg, ffprobe },
        Command::SetLog { on: s.program.log_enabled },
    ]
}

/// What an event of the renderer asks for besides being passed on.
#[derive(Debug, Clone, Copy, PartialEq, Eq, Structural)]
pub struct EventUse {
    /// It tells the state, and is kept for whoever asks.
    pub remember: bool,
    /// The next track is due.
    pub advance: bool,
    /// No other follows.
    pub last: bool,
}

pub open spec fn used(ev: Event) -> EventUse {
    EventUse {
        remember: ev is Status || ev is Loaded || ev is Unloaded || ev is Exited,
        advance: ev is Ended,
        last: ev is Exited,
    }
}

pub fn event_use(ev: &Event) -> (r: EventUse)
    ensures
        r == used(*ev),
{
    EventUse {
        remember: matches!(
            ev,
            Event::Status { .. } | Event::Loaded { .. } | Event::Unloaded | Event::Exited
        ),
        advance: matches!(ev, Event::Ended),
        last: matches!(ev, Event::Exited),
    }
}

/// Whether it plays, going by the last event that was kept.
pub open spec fn plays(last: Option<&Event>) -> bool {
    last is Some && last->0 is Status && last->0->playing
}

pub fn is_playing(last: Option<&Event>) -> (r: bool)
    ensures
        r == plays(last),
{
    match last {
        Some(Event::Status { playing, .. }) => *playing,
        _ => false,
    }
}

// ---------- the play list ----------

/// A track as it is stored.
pub open spec fn saved_track(t: Track) -> SavedTrack {
    SavedTrack {
        set_id: t.set_id,
        sha2: t.sha2,
        mods: t.mods,
        title: t.title,
        artist: t.artist,
        length_ms: t.length_ms,
    }
}

pub open spec fn saved_tracks(tracks: Seq<Track>) -> Seq<SavedTrack> {
    tracks.map_values(|t: Track| saved_track(t))
}

/// The settings with the play list in them.
pub open spec fn keeps_playlist(s: Settings, q: Queue, t: Settings) -> bool {
    &&& t.list.playlist@ == saved_tracks(q.tracks)
    &&& t.list.playlist_pos == q.pos
    &&& t == Settings {
        list: List {
            playlist: t.list.playlist,
            playlist_pos: t.list.playlist_pos,
            ..s.list
        },
        ..s
    }
}

/// Puts the play list into the settings.
pub fn save_playlist(s: &mut Settings, list: &Playlist)
    ensures
        keeps_playlist(*old(s), list@, *final(s)),
{
    let (tracks, pos): (Vec<Track>, usize) = list.snapshot();
    let ghost all = tracks@;
    let mut saved: Vec<SavedTrack> = Vec::new();
    for t in it: tracks.into_iter()
        invariant
            it.seq() == all,
            saved@ == saved_tracks(all.take(it.index() as int)),
    {
        let ghost i = it.index() as int;
        saved.push(
            SavedTrack {
                set_id: t.set_id,
                sha2: t.sha2,
                mods: t.mods,
                title: t.title,
                artist: t.artist,
                length_ms: t.length_ms,
            },
        );
        assert(saved@ =~= saved_tracks(all.take(i + 1)));
    }
    assert(all.take(all.len() as int) =~= all);
    s.list.playlist = saved;
    s.list.playlist_pos = pos;
}

/// What is played after a track has ended: nothing where it was not of the library.
pub open spec fn after_end(q: Queue, from_library: bool) -> (Queue, Option<Track>) {
    if !from_library || q.mode == PlayMode::SingleLoop {
        (q, None)
    } else {
        (q.stepped(), q.stepped().current())
    }
}

pub fn on_ended(list: &mut Playlist, from_library: bool) -> (r: Option<Track>)
    requires
        old(list)@.wf(),
    ensures
        final(list)@.wf(),
        final(list)@ == after_end(old(list)@, from_library).0,
        r == after_end(old(list)@, from_library).1,
{
    if from_library {
        list.advance()
    } else {
        None
    }
}

/// The next track, also of a list that plays one over and over.
pub fn playlist_next(list: &mut Playlist) -> (r: Option<Track>)
    requires
        old(list)@.wf(),
    ensures
        final(list)@.wf(),
        final(list)@ == old(list)@.stepped(),
        r == final(list)@.current(),
{
    list.advance_manual()
}

/// The track before; a list that plays one over and over has none.
pub open spec fn before_it(q: Queue) -> (Queue, Option<Track>) {
    if q.mode == PlayMode::SingleLoop {
        (q, None)
    } else {
        (q.rewound(), q.rewound().current())
    }
}

pub fn playlist_prev(list: &mut Playlist) -> (r: Option<Track>)
    requires
        old(list)@.wf(),
    ensures
        final(list)@.wf(),
        final(list)@ == before_it(old(list)@).0,
        r == before_it(old(list)@).1,
{
    if list.mode() == PlayMode::SingleLoop {
        None
    } else {
        list.rewind()
    }
}

// ---------- the library ----------

/// Where a library is read from.
#[derive(Debug, Clone, Copy, PartialEq, Eq, Structural)]
pub enum LibrarySource {
    Lazer,
    Stable,
}

impl LibrarySource {
    pub open spec fn named(s: Seq<char>) -> LibrarySource {
        if s == "stable"@ {
            LibrarySource::Stable
        } else {
            LibrarySource::Lazer
        }
    }

    pub fn parse(s: &str) -> (r: LibrarySource)
        ensures
            r == LibrarySource::named(s@),
    {
        if text::same(s, "stable") {
            LibrarySource::Stable
        } else {
            LibrarySource::Lazer
        }
    }

    /// What the user is told where it is not found.
    pub open spec fn lacking(self) -> Seq<char> {
        match self {
            LibrarySource::Stable => "未找到 osu!stable 安装目录(需要 osu!.db)"@,
            LibrarySource::Lazer => "未找到 osu!lazer 数据目录(client.realm)"@,
        }
    }

    pub fn missing(&self) -> (r: String)
        ensures
            r@ == self.lacking(),
    {
        match self {
            LibrarySource::Stable => text::owned("未找到 osu!stable 安装目录(需要 osu!.db)"),
            LibrarySource::Lazer => text::owned("未找到 osu!lazer 数据目录(client.realm)"),
        }
    }
}

/// Whether the library that was read last serves: it comes from the same place, and no fresh one
/// is asked for.
pub open spec fn serves(cached: Option<Seq<char>>, source: Seq<char>, refresh: bool) -> bool {
    !refresh && cached == Some(source)
}

pub fn cache_serves(cached: Option<&str>, source: &str, refresh: bool) -> (r: bool)
    ensures
        r == serves(
            match cached {
                Some(c) => Some(c@),
                None => None,
            },
            source@,
            refresh,
        ),
{
    match cached {
        Some(c) => !refresh && text::same(c, source),
        None => false,
    }
}

/// After a library was read the tracks that it does not hold leave the play list.
pub fn adopt_library(s: &mut Settings, list: &mut Playlist, lib: &LazerLibrary)
    requires
        old(list)@.wf(),
    ensures
        final(list)@.wf(),
        final(list)@ == old(list)@.pruned(*lib),
        keeps_playlist(*old(s), final(list)@, *final(s)),
{
    list.prune_missing(lib);
    save_playlist(s, list);
}

/// What the stored name of a skin stands for.
#[derive(Debug)]
pub enum SkinRef {
    /// The built-in one.
    Builtin,
    /// One of osu!lazer, by its id.
    Realm { id: String },
    /// A directory.
    Dir { path: String },
}

/// Before the id of a skin of osu!lazer.
pub open spec fn realm_skin() -> Seq<char> {
    "realm:skin:"@
}

pub open spec fn is_skin_ref(stored: Option<String>, r: SkinRef) -> bool {
    match stored {
        None => r is Builtin,
        Some(s) => if text::starts(s@, realm_skin()) {
            r is Realm && r->id@ == s@.skip(realm_skin().len() as int)
        } else {
            r is Dir && r->path@ == s@
        },
    }
}

pub fn skin_ref(stored: &Option<String>) -> (r: SkinRef)
    ensures
        is_skin_ref(*stored, r),
{
    match stored {
        None => SkinRef::Builtin,
        Some(s) => match text::strip_prefix(s.as_str(), "realm:skin:") {
            Some(id) => SkinRef::Realm { id },
            None => SkinRef::Dir { path: s.clone() },
        },
    }
}

pub open spec fn skin_named(skins: Seq<LazerSkin>, id: Seq<char>) -> spec_fn(int) -> bool {
    |i: int| skins[i].id@ == id
}

/// The skin of the library with an id.
pub fn find_skin<'a>(lib: &'a LazerLibrary, id: &str) -> (r: Option<&'a LazerSkin>)
    ensures
        match seqs::least(lib.skins@.len() as int, skin_named(lib.skins@, id@)) {
            Some(i) => r is Some && *r->0 == lib.skins@[i],
            None => r is None,
        },
{
    let ghost p = skin_named(lib.skins@, id@);
    let mut i: usize = 0;
    while i < lib.skins.len()
        invariant
            i <= lib.skins@.len(),
            p == skin_named(lib.skins@, id@),
            forall|j: int| 0 <= j < i ==> !#[trigger] p(j),
        decreases lib.skins.len() - i,
    {
        if text::same(lib.skins[i].id.as_str(), id) {
            proof {
                assert(p(i as int));
                seqs::lemma_least_found(lib.skins@.len() as int, p, i as int);
            }
            return Some(&lib.skins[i]);
        }
        i = i + 1;
    }
    proof {
        seqs::lemma_least_missing(lib.skins@.len() as int, p);
    }
    None
}

// ---------- loading a track ----------

/// What is handed to the renderer of a track, and what the list shows of it.
#[derive(Debug)]
pub struct Playing {
    pub osu_path: String,
    pub manifest: Option<Vec<VFile>>,
    pub sha2: String,
    pub title: String,
    pub artist: String,
    pub length_ms: Double,
}

/// The same files.
pub open spec fn same_files(a: Option<Vec<VFile>>, b: Option<Vec<VFile>>) -> bool {
    match (a, b) {
        (Some(x), Some(y)) => x@ == y@,
        (None, None) => true,
        _ => false,
    }
}

fn copy_files(files: &Option<Vec<VFile>>) -> (r: Option<Vec<VFile>>)
    ensures
        same_files(*files, r),
{
    match files {
        Some(v) => {
            let c: Vec<VFile> = v.clone();
            assert(c@ =~= v@);
            Some(c)
        },
        None => None,
    }
}

pub open spec fn diff_named(diffs: Seq<CachedDiff>, sha2: Seq<char>) -> spec_fn(int) -> bool {
    |i: int| diffs[i].sha2@ == sha2
}

/// Which of the known difficulties is played: the one that the track names, else the one that the
/// policy picks.
pub open spec fn cached_place(
    track: Track,
    diffs: Seq<CachedDiff>,
    policy: PickPolicy,
    distance: Seq<Double>,
) -> Option<int> {
    let named = match track.sha2 {
        Some(sha2) => seqs::least(diffs.len() as int, diff_named(diffs, sha2@)),
        None => None,
    };
    match named {
        Some(i) => Some(i),
        None => if diffs.len() == 0 {
            None
        } else {
            Some(playlist::picked(policy, playlist::cached_stars(diffs), distance, diffs.len()))
        },
    }
}

fn find_diff<'a>(diffs: &'a Vec<CachedDiff>, sha2: &str) -> (r: Option<&'a CachedDiff>)
    ensures
        match seqs::least(diffs@.len() as int, diff_named(diffs@, sha2@)) {
            Some(i) => r is Some && 0 <= i < diffs@.len() && *r->0 == diffs@[i],
            None => r is None,
        },
{
    let ghost p = diff_named(diffs@, sha2@);
    let mut i: usize = 0;
    while i < diffs.len()
        invariant
            i <= diffs@.len(),
            p == diff_named(diffs@, sha2@),
            forall|j: int| 0 <= j < i ==> !#[trigger] p(j),
        decreases diffs.len() - i,
    {
        if text::same(diffs[i].sha2.as_str(), sha2) {
            proof {
                assert(p(i as int));
                seqs::lemma_least_found(diffs@.len() as int, p, i as int);
            }
            return Some(&diffs[i]);
        }
        i = i + 1;
    }
    proof {
        seqs::lemma_least_missing(diffs@.len() as int, p);
    }
    None
}

/// What is played of a known difficulty: what the track shows comes first.
pub open spec fn is_from_cache(track: Track, set: CachedSet, d: CachedDiff, p: Playing) -> bool {
    &&& p.osu_path@ == d.osu_path@
    &&& same_files(set.manifest, p.manifest)
    &&& p.sha2@ == d.sha2@
    &&& p.title@ == if track.title@.len() == 0 {
        d.name@
    } else {
        track.title@
    }
    &&& p.artist@ == track.artist@
    &&& p.length_ms == if (Double { bits: 0 }).below(track.length_ms) {
        track.length_ms
    } else {
        d.length_ms
    }
}

/// What is known of a track without a library.
#[derive(Debug)]
pub enum Known {
    /// It is played if its file is still there.
    Check { playing: Playing },
    /// What is known of the set does not serve and is to be forgotten.
    Stale,
    Nothing,
}

fn non_empty_or(s: &String, otherwise: &String) -> (r: String)
    ensures
        r@ == if s@.len() == 0 {
            otherwise@
        } else {
            s@
        },
{
    proof {
        reveal_strlit("");
    }
    let empty: bool = text::same(s.as_str(), "");
    assert(empty == (s@.len() == 0)) by {
        if s@.len() == 0 {
            assert(s@ =~= ""@);
        }
    }
    if empty {
        otherwise.clone()
    } else {
        s.clone()
    }
}

/// A track by what is known of its set; `distance` holds how far the star rating of each of its
/// difficulties is from the target of a custom policy.
pub fn fast_path(
    track: &Track,
    cached: Option<&CachedSet>,
    policy: PickPolicy,
    distance: &Vec<Double>,
) -> (r: Known)
    requires
        cached is Some && policy is Custom ==> distance@.len() == cached->0.diffs@.len(),
    ensures
        match cached {
            None => r is Nothing,
            Some(set) => match cached_place(*track, set.diffs@, policy, distance@) {
                Some(i) => 0 <= i < set.diffs@.len() && r is Check && is_from_cache(
                    *track,
                    *set,
                    set.diffs@[i],
                    r->playing,
                ),
                None => r is Stale,
            },
        },
{
    let set: &CachedSet = match cached {
        Some(set) => set,
        None => {
            return Known::Nothing;
        },
    };
    let named: Option<&CachedDiff> = match &track.sha2 {
        Some(sha2) => find_diff(&set.diffs, sha2.as_str()),
        None => None,
    };
    let picked: Option<&CachedDiff> = match named {
        Some(d) => Some(d),
        None => playlist::pick_cached_diff(&set.diffs, policy, distance),
    };
    match picked {
        Some(d) => {
            let zero = Double { bits: 0 };
            let playing = Playing {
                osu_path: d.osu_path.clone(),
                manifest: copy_files(&set.manifest),
                sha2: d.sha2.clone(),
                title: non_empty_or(&track.title, &d.name),
                artist: track.artist.clone(),
                length_ms: if zero.lt(&track.length_ms) {
                    track.length_ms
                } else {
                    d.length_ms
                },
            };
            Known::Check { playing }
        },
        None => Known::Stale,
    }
}

/// Why a track cannot be loaded.
#[derive(Debug)]
pub enum LoadError {
    NoSet,
    NoLazerDir,
    MissingBlob { path: String },
}

impl LoadError {
    pub open spec fn says(self) -> Seq<char> {
        match self {
            LoadError::NoSet => "谱面集不在曲库中(曲库可能已更新,请刷新)"@,
            LoadError::NoLazerDir => "未找到 osu!lazer 数据目录"@,
            LoadError::MissingBlob { path } => "难度 blob 缺失(曲库可能已更新):"@ + path@,
        }
    }

    pub fn message(&self) -> (r: String)
        ensures
            r@ == self.says(),
    {
        match self {
            LoadError::NoSet => text::owned("谱面集不在曲库中(曲库可能已更新,请刷新)"),
            LoadError::NoLazerDir => text::owned("未找到 osu!lazer 数据目录"),
            LoadError::MissingBlob { path } => text::owned(
                "难度 blob 缺失(曲库可能已更新):",
            ).concat(path.as_str()),
        }
    }
}

pub open spec fn set_named(sets: Seq<LazerSet>, id: Seq<char>) -> spec_fn(int) -> bool {
    |i: int| sets[i].id@ == id
}

/// The set of a track in the library.
pub fn find_set<'a>(lib: &'a LazerLibrary, id: &str) -> (r: Result<&'a LazerSet, LoadError>)
    ensures
        match seqs::least(lib.sets@.len() as int, set_named(lib.sets@, id@)) {
            Some(i) => r is Ok && 0 <= i < lib.sets@.len() && *r->Ok_0 == lib.sets@[i],
            None => r is Err && r->Err_0 is NoSet,
        },
{
    let ghost p = set_named(lib.sets@, id@);
    let mut i: usize = 0;
    while i < lib.sets.len()
        invariant
            i <= lib.sets@.len(),
            p == set_named(lib.sets@, id@),
            forall|j: int| 0 <= j < i ==> !#[trigger] p(j),
        decreases lib.sets.len() - i,
    {
        if text::same(lib.sets[i].id.as_str(), id) {
            proof {
                assert(p(i as int));
                seqs::lemma_least_found(lib.sets@.len() as int, p, i as int);
            }
            return Ok(&lib.sets[i]);
        }
        i = i + 1;
    }
    proof {
        seqs::lemma_least_missing(lib.sets@.len() as int, p);
    }
    Err(LoadError::NoSet)
}

/// The difficulty that a track names, else the one of its set that the policy picks.
pub open spec fn sha2_of(
    track: Track,
    set: LazerSet,
    policy: PickPolicy,
    distance: Seq<Double>,
) -> Seq<char> {
    match track.sha2 {
        Some(s) => s@,
        None => set.beatmaps@[playlist::picked(
            policy,
            playlist::stars_of(set),
            distance,
            set.beatmaps@.len(),
        )].sha2@,
    }
}

/// Where a beatmap lies: in the directory of its set, or in the store of osu!lazer.
pub open spec fn is_osu_path(set: LazerSet, data: Seq<char>, sha2: Seq<char>, path: Seq<char>) -> bool {
    match set.root {
        Some(root) => paths::joined(root@, sha2, path),
        None => paths::joined_twice(data, "files"@, lazer::blob_path(sha2), path),
    }
}

/// Each file under its name, and where its blob lies.
pub open spec fn is_manifest(files: Seq<LazerFile>, data: Seq<char>, m: Seq<VFile>) -> bool {
    &&& m.len() == files.len()
    &&& forall|i: int|
        0 <= i < m.len() ==> (#[trigger] m[i]).name@ == files[i].filename@ && paths::joined_twice(
            data,
            "files"@,
            lazer::blob_path(files[i].hash@),
            m[i].path@,
        )
}

fn manifest_of(files: &Vec<LazerFile>, data: &str) -> (m: Vec<VFile>)
    requires
        files_named(files@),
    ensures
        is_manifest(files@, data@, m@),
{
    let mut m: Vec<VFile> = Vec::new();
    let mut i: usize = 0;
    while i < files.len()
        invariant
            i <= files@.len(),
            files_named(files@),
            is_manifest(files@.take(i as int), data@, m@),
        decreases files.len() - i,
    {
        let f: &LazerFile = &files[i];
        let path: String = paths::join_twice(
            data,
            "files",
            lazer::blob_relative_path(f.hash.as_str()).as_str(),
        );
        m.push(VFile { name: f.filename.clone(), path });
        i = i + 1;
    }
    assert(files@.take(files@.len() as int) =~= files@);
    m
}

/// Where a track was found in the library.
#[derive(Debug)]
pub struct Located {
    pub path: String,
    pub sha2: String,
    /// It cannot be loaded without its file.
    pub must_exist: bool,
}

/// A track of the library whose file may be loaded.
#[derive(Debug)]
pub struct Confirmed {
    pub path: String,
    pub manifest: Option<Vec<VFile>>,
    pub sha2: String,
}

/// The names by which the files of a set are found in the store can be used.
pub open spec fn files_named(files: Seq<LazerFile>) -> bool {
    forall|i: int| 0 <= i < files.len() ==> lazer::blob_named((#[trigger] files[i]).hash@)
}

/// The names by which the beatmaps of a set are found in the store can be used.
pub open spec fn beatmaps_named(beatmaps: Seq<LazerBeatmap>) -> bool {
    forall|i: int| 0 <= i < beatmaps.len() ==> lazer::blob_named((#[trigger] beatmaps[i]).sha2@)
}

/// Where a track of a set lies.
pub fn locate(
    track: &Track,
    set: &LazerSet,
    data: Option<&str>,
    policy: PickPolicy,
    distance: &Vec<Double>,
) -> (r: Result<Located, LoadError>)
    requires
        track.sha2 is None ==> set.beatmaps@.len() > 0,
        policy is Custom ==> distance@.len() == set.beatmaps@.len(),
        set.root is None && data is Some ==> lazer::blob_named(
            sha2_of(*track, *set, policy, distance@),
        ),
    ensures
        match r {
            Ok(l) => {
                &&& set.root is Some || data is Some
                &&& l.sha2@ == sha2_of(*track, *set, policy, distance@)
                &&& is_osu_path(*set, data->0@, l.sha2@, l.path@)
                &&& l.must_exist == (set.root is None)
            },
            Err(e) => set.root is None && data is None && e is NoLazerDir,
        },
{
    let sha2: String = match &track.sha2 {
        Some(s) => s.clone(),
        None => playlist::pick_diff(set, policy, distance).sha2.clone(),
    };
    match &set.root {
        Some(root) => Ok(
            Located {
                path: paths::join(root.as_str(), sha2.as_str()),
                sha2,
                must_exist: false,
            },
        ),
        None => match data {
            Some(dir) => Ok(
                Located {
                    path: lazer::beatmap_blob(dir, sha2.as_str()),
                    sha2,
                    must_exist: true,
                },
            ),
            None => Err(LoadError::NoLazerDir),
        },
    }
}

/// Goes on with a track whose file is there or not: a blob that is gone is an error. The files of
/// a set in the store come along under their names.
pub fn confirm(l: Located, set: &LazerSet, data: Option<&str>, there: bool) -> (r: Result<Confirmed, LoadError>)
    requires
        l.must_exist == (set.root is None),
        set.root is None ==> data is Some,
        set.root is None && there ==> files_named(set.files@),
    ensures
        match r {
            Ok(c) => {
                &&& there || !l.must_exist
                &&& c.path == l.path
                &&& c.sha2 == l.sha2
                &&& match c.manifest {
                    Some(m) => set.root is None && is_manifest(set.files@, data->0@, m@),
                    None => set.root is Some,
                }
            },
            Err(e) => !there && l.must_exist && e is MissingBlob && e->path@ == l.path@,
        },
{
    if l.must_exist && !there {
        return Err(LoadError::MissingBlob { path: l.path });
    }
    let manifest: Option<Vec<VFile>> = match (&set.root, data) {
        (None, Some(dir)) => Some(manifest_of(&set.files, dir)),
        _ => None,
    };
    Ok(Confirmed { path: l.path, manifest, sha2: l.sha2 })
}

/// What is kept of a set that was found: each difficulty with where it lies.
pub open spec fn is_cached_set(set: LazerSet, data: Seq<char>, manifest: Option<Vec<VFile>>, c: CachedSet) -> bool {
    &&& same_files(manifest, c.manifest)
    &&& c.diffs@.len() == set.beatmaps@.len()
    &&& forall|i: int| 0 <= i < c.diffs@.len() ==> is_cached_diff(set, data, i, #[trigger] c.diffs@[i])
}

pub open spec fn is_cached_diff(set: LazerSet, data: Seq<char>, i: int, d: CachedDiff) -> bool {
    let b = set.beatmaps@[i];
    &&& d.sha2@ == b.sha2@
    &&& d.name@ == b.name@
    &&& d.star == b.star_rating
    &&& d.length_ms == b.length_ms
    &&& is_osu_path(set, data, b.sha2@, d.osu_path@)
}

pub fn cache_entry(set: &LazerSet, data: Option<&str>, manifest: &Option<Vec<VFile>>) -> (r: CachedSet)
    requires
        set.root is Some || data is Some,
        set.root is None ==> beatmaps_named(set.beatmaps@),
    ensures
        is_cached_set(*set, data->0@, *manifest, r),
{
    let mut diffs: Vec<CachedDiff> = Vec::new();
    let mut i: usize = 0;
    while i < set.beatmaps.len()
        invariant
            i <= set.beatmaps@.len(),
            set.root is Some || data is Some,
            set.root is None ==> beatmaps_named(set.beatmaps@),
            diffs@.len() == i,
            forall|j: int| 0 <= j < i ==> is_cached_diff(*set, data->0@, j, #[trigger] diffs@[j]),
        decreases set.beatmaps.len() - i,
    {
        let b: &LazerBeatmap = &set.beatmaps[i];
        let osu_path: String = match &set.root {
            Some(root) => paths::join(root.as_str(), b.sha2.as_str()),
            None => match data {
                Some(dir) => lazer::beatmap_blob(dir, b.sha2.as_str()),
                None => String::new(),
            },
        };
        diffs.push(
            CachedDiff {
                sha2: b.sha2.clone(),
                name: b.name.clone(),
                star: b.star_rating,
                length_ms: b.length_ms,
                osu_path,
            },
        );
        i = i + 1;
    }
    CachedSet { diffs, manifest: copy_files(manifest) }
}

pub open spec fn beatmap_named(beatmaps: Seq<LazerBeatmap>, sha2: Seq<char>) -> spec_fn(int) -> bool {
    |i: int| beatmaps[i].sha2@ == sha2
}

/// The length of a difficulty; one that is not in the set has none.
pub open spec fn length_of(set: LazerSet, sha2: Seq<char>) -> Double {
    match seqs::least(set.beatmaps@.len() as int, beatmap_named(set.beatmaps@, sha2)) {
        Some(i) => set.beatmaps@[i].length_ms,
        None => Double { bits: 0 },
    }
}

fn find_length(set: &LazerSet, sha2: &str) -> (r: Double)
    ensures
        r == length_of(*set, sha2@),
{
    let ghost p = beatmap_named(set.beatmaps@, sha2@);
    let mut i: usize = 0;
    while i < set.beatmaps.len()
        invariant
            i <= set.beatmaps@.len(),
            p == beatmap_named(set.beatmaps@, sha2@),
            forall|j: int| 0 <= j < i ==> !#[trigger] p(j),
        decreases set.beatmaps.len() - i,
    {
        if text::same(set.beatmaps[i].sha2.as_str(), sha2) {
            proof {
                assert(p(i as int));
                seqs::lemma_least_found(set.beatmaps@.len() as int, p, i as int);
            }
            return set.beatmaps[i].length_ms;
        }
        i = i + 1;
    }
    proof {
        seqs::lemma_least_missing(set.beatmaps@.len() as int, p);
    }
    Double { bits: 0 }
}

/// The title of a set as it is shown: in its own script where there is one.
pub open spec fn shown_title(set: LazerSet) -> Seq<char> {
    if set.title_unicode@.len() == 0 {
        set.title@
    } else {
        set.title_unicode@
    }
}

pub open spec fn shown_artist(set: LazerSet) -> Seq<char> {
    if set.artist_unicode@.len() == 0 {
        set.artist@
    } else {
        set.artist_unicode@
    }
}

pub fn title_of(set: &LazerSet) -> (r: String)
    ensures
        r@ == shown_title(*set),
{
    non_empty_or(&set.title_unicode, &set.title)
}

pub fn artist_of(set: &LazerSet) -> (r: String)
    ensures
        r@ == shown_artist(*set),
{
    non_empty_or(&set.artist_unicode, &set.artist)
}

/// What is played of a track that was found in the library.
pub fn slow_path(set: &LazerSet, l: Confirmed) -> (r: Playing)
    ensures
        r.osu_path == l.path,
        r.manifest == l.manifest,
        r.sha2 == l.sha2,
        r.title@ == shown_title(*set),
        r.artist@ == shown_artist(*set),
        r.length_ms == length_of(*set, l.sha2@),
{
    let length_ms: Double = find_length(set, l.sha2.as_str());
    Playing {
        osu_path: l.path,
        manifest: l.manifest,
        sha2: l.sha2,
        title: title_of(set),
        artist: artist_of(set),
        length_ms,
    }
}

/// What is sent for a beatmap under the settings. Video and storyboard are one switch.
pub open spec fn is_load(
    s: Settings,
    path: String,
    diff: Option<String>,
    manifest: Option<Vec<VFile>>,
    skin: Option<String>,
    mods: u32,
    start: Single,
    r: Load,
) -> bool {
    &&& r.upscale@ == "off"@
    &&& r.upscale_quality@ == "m"@
    &&& r == Load {
        path,
        diff,
        fail: s.play.fail,
        speed: s.play.speed,
        start: start.larger(Single { bits: 0 }),
        loop_playback: s.play.loop_playback,
        manifest,
        skin,
        force_colours: s.places.force_skin_colours,
        hidden: s.shown.hidden,
        mods,
        storyboard: s.shown.storyboard,
        video: s.shown.storyboard,
        beatmap_hitsounds: s.sound.beatmap_hitsounds,
        upscale: r.upscale,
        monitor: None,
        upscale_quality: r.upscale_quality,
    }
}

fn load_of(
    s: &Settings,
    path: String,
    diff: Option<String>,
    manifest: Option<Vec<VFile>>,
    skin: Option<String>,
    mods: u32,
    start: Single,
) -> (r: Load)
    ensures
        is_load(*s, path, diff, manifest, skin, mods, start, r),
{
    Load {
        path,
        diff,
        fail: s.play.fail,
        speed: s.play.speed,
        start: start.max(Single { bits: 0 }),
        loop_playback: s.play.loop_playback,
        manifest,
        skin,
        force_colours: s.places.force_skin_colours,
        hidden: s.shown.hidden,
        mods,
        storyboard: s.shown.storyboard,
        video: s.shown.storyboard,
        beatmap_hitsounds: s.sound.beatmap_hitsounds,
        upscale: ipc::default_upscale(),
        monitor: None,
        upscale_quality: ipc::default_quality(),
    }
}

/// A track that names nothing but a set and a difficulty.
pub open spec fn is_bare(t: Track, set_id: Seq<char>, sha2: Option<String>, qid: u64) -> bool {
    &&& t.set_id@ == set_id
    &&& t.sha2 == sha2
    &&& t.qid == qid
    &&& t.mods == 0
    &&& t.title@.len() == 0
    &&& t.artist@.len() == 0
    &&& t.length_ms == (Double { bits: 0 })
}

pub(crate) fn bare_track(set_id: String, sha2: Option<String>, qid: u64) -> (t: Track)
    ensures
        is_bare(t, set_id@, sha2, qid),
{
    Track {
        set_id,
        sha2,
        qid,
        mods: 0,
        title: String::new(),
        artist: String::new(),
        length_ms: Double { bits: 0 },
    }
}

fn remember_last(s: &mut Settings, track: &Track)
    ensures
        *final(s) == (Settings {
            list: List {
                lazer_set: Some(track.set_id),
                lazer_sha2: track.sha2,
                ..old(s).list
            },
            ..*old(s)
        }),
{
    s.list.lazer_set = Some(track.set_id.clone());
    s.list.lazer_sha2 = playlist::clone_opt(&track.sha2);
}

fn refresh_meta(
    list: &mut Playlist,
    track: &Track,
    sha2: &String,
    title: String,
    artist: String,
    length_ms: Double,
)
    requires
        old(list)@.wf(),
    ensures
        final(list)@.wf(),
        final(list)@ == old(list)@.with_meta(
            Track { sha2: Some(*sha2), ..*track },
            title,
            artist,
            length_ms,
        ),
{
    let probe: Track = bare_track(track.set_id.clone(), Some(sha2.clone()), 0);
    let ghost before = list@;
    let ghost other = Track { sha2: Some(*sha2), ..*track };
    list.backfill_meta(&probe, title, artist, length_ms);
    assert(list@.tracks =~= before.with_meta(other, title, artist, length_ms).tracks);
}

/// What goes out for a track: the command for the renderer, and the track with the difficulty that
/// was found, for the user interface.
#[derive(Debug)]
pub struct Dispatch {
    pub load: Load,
    pub announced: Track,
}

/// Whenever a track is loaded, it is remembered as the last one, and what the list shows of its
/// song is refreshed.
pub fn dispatch_load(
    s: &mut Settings,
    list: &mut Playlist,
    track: &Track,
    playing: Playing,
    skin: Option<String>,
    start: Single,
) -> (r: Dispatch)
    requires
        old(list)@.wf(),
    ensures
        final(list)@.wf(),
        final(list)@ == old(list)@.with_meta(
            Track { sha2: Some(playing.sha2), ..*track },
            playing.title,
            playing.artist,
            playing.length_ms,
        ),
        keeps_playlist(
            Settings {
                list: List {
                    lazer_set: Some(track.set_id),
                    lazer_sha2: track.sha2,
                    ..old(s).list
                },
                ..*old(s)
            },
            final(list)@,
            *final(s),
        ),
        is_load(
            *old(s),
            playing.osu_path,
            None,
            playing.manifest,
            skin,
            track.mods,
            start,
            r.load,
        ),
        is_bare(r.announced, track.set_id@, Some(playing.sha2), track.qid),
{
    let load: Load = load_of(
        s,
        playing.osu_path,
        None,
        playing.manifest,
        skin,
        track.mods,
        start,
    );
    remember_last(s, track);
    refresh_meta(list, track, &playing.sha2, playing.title, playing.artist, playing.length_ms);
    save_playlist(s, list);
    Dispatch { load, announced: bare_track(track.set_id.clone(), Some(playing.sha2), track.qid) }
}

// ---------- coming back to what was played ----------

/// The play list with what was stored of it: the current place goes to the last track where the
/// list holds it.
pub open spec fn recalled(q: Queue, s: Settings) -> Queue {
    let listed = if s.list.playlist@.len() == 0 {
        q
    } else {
        let back = q.restored(s.list.playlist@, s.list.playlist_pos as int, s.play.play_mode);
        if s.play.play_mode == PlayMode::Random {
            back.with_mode(PlayMode::Random)
        } else {
            back
        }
    };
    match s.list.lazer_set {
        Some(id) => listed.aligned(id@, s.list.lazer_sha2),
        None => listed,
    }
}

/// What comes next on the way back to what was played.
#[derive(Debug)]
pub enum Restore {
    /// Load a track; where that fails, ask again.
    Try { track: Track, again: bool },
    /// Forget the last track, then go on with the file that was picked by hand.
    Forget,
    /// Load the file that was picked by hand, if there is one.
    Manual,
}

/// What is to be loaded first, with what stands at the current place of the list: that, else the
/// track that was played last. Where neither the list nor a last track was stored, it is the file
/// that was picked by hand.
pub open spec fn begins_with(s: Settings, current: Option<Track>, r: Restore) -> bool {
    if s.list.lazer_set is None && s.list.playlist@.len() == 0 {
        r is Manual
    } else {
        match current {
            Some(t) => r == (Restore::Try { track: t, again: false }),
            None => match s.list.lazer_set {
                Some(id) => r is Try && !r->again && is_bare(r->track, id@, s.list.lazer_sha2, 0),
                None => r is Forget,
            },
        }
    }
}

/// Brings the stored play list back, and says what is to be loaded first.
pub fn begin_restore(s: &Settings, list: &mut Playlist) -> (r: Restore)
    requires
        old(list)@.wf(),
        old(list)@.next_qid + s.list.playlist@.len() <= u64::MAX,
    ensures
        final(list)@.wf(),
        if s.list.lazer_set is None && s.list.playlist@.len() == 0 {
            final(list)@ == old(list)@
        } else {
            final(list)@ == recalled(old(list)@, *s)
        },
        begins_with(*s, final(list)@.current(), r),
{
    if s.list.lazer_set.is_none() && s.list.playlist.len() == 0 {
        return Restore::Manual;
    }
    if s.list.playlist.len() > 0 {
        list.restore(&s.list.playlist, s.list.playlist_pos, s.play.play_mode);
        if s.play.play_mode == PlayMode::Random {
            list.set_mode(PlayMode::Random);
        }
    }
    if let Some(id) = &s.list.lazer_set {
        let _ = list.align_current(id.clone(), playlist::clone_opt(&s.list.lazer_sha2));
    }
    match list.current() {
        Some(track) => Restore::Try { track, again: false },
        None => match &s.list.lazer_set {
            Some(id) => Restore::Try {
                track: bare_track(id.clone(), playlist::clone_opt(&s.list.lazer_sha2), 0),
                again: false,
            },
            None => Restore::Forget,
        },
    }
}

/// After a track could not be loaded: what the list now stands at is tried once, since reading
/// the library may have changed it.
pub open spec fn after_failure(current: Option<Track>, again: bool) -> Restore {
    match current {
        Some(track) => if again {
            Restore::Forget
        } else {
            Restore::Try { track, again: true }
        },
        None => Restore::Forget,
    }
}

pub fn restore_failed(list: &Playlist, again: bool) -> (r: Restore)
    requires
        list@.wf(),
    ensures
        r == after_failure(list@.current(), again),
{
    if again {
        return Restore::Forget;
    }
    match list.current() {
        Some(track) => Restore::Try { track, again: true },
        None => Restore::Forget,
    }
}

/// The last track is no more.
pub fn forget_last(s: &mut Settings)
    ensures
        *final(s) == (Settings {
            list: List { lazer_set: None, lazer_sha2: None, ..old(s).list },
            ..*old(s)
        }),
{
    s.list.lazer_set = None;
    s.list.lazer_sha2 = None;
}

/// What is sent for the file that was picked by hand. It is played without mods.
pub fn manual_load(s: &Settings, skin: Option<String>) -> (r: Option<Load>)
    ensures
        match s.manual.path {
            Some(path) => r is Some && is_load(
                *s,
                path,
                s.manual.diff,
                None,
                skin,
                0,
                Single { bits: 0 },
                r->0,
            ),
            None => r is None,
        },
{
    match &s.manual.path {
        Some(path) => Some(
            load_of(
                s,
                path.clone(),
                playlist::clone_opt(&s.manual.diff),
                None,
                skin,
                0,
                Single { bits: 0 },
            ),
        ),
        None => None,
    }
}

/// The tracks are the same but for their numbers.
pub open spec fn same_tracks(a: Seq<Track>, b: Seq<Track>) -> bool {
    &&& a.len() == b.len()
    &&& forall|i: int| 0 <= i < a.len() ==> #[trigger] a[i] == (Track { qid: a[i].qid, ..b[i] })
}

/// A list that is not shuffled comes back from the settings as it was, whatever list takes it up:
/// the same tracks in the same order, and the same one current. Only their numbers are new; none of
/// them was in the list before, and none is there twice.
pub proof fn law_saved_list_is_restored(q: Queue, fresh: Queue)
    requires
        q.wf(),
        q.mode != PlayMode::Random,
        fresh.wf(),
        fresh.next_qid + q.tracks.len() <= u64::MAX,
    ensures
        ({
            let back = fresh.restored(saved_tracks(q.tracks), q.pos, q.mode);
            &&& back.wf()
            &&& back.mode == q.mode
            &&& back.order == q.order
            &&& back.pos == q.pos
            &&& same_tracks(back.tracks, q.tracks)
            &&& same_tracks(back.playing(), q.playing())
            &&& match q.current() {
                Some(t) => back.current() is Some && back.current()->0 == (Track {
                    qid: back.current()->0.qid,
                    ..t
                }),
                None => back.current() is None,
            }
            &&& forall|i: int, j: int|
                0 <= i < back.tracks.len() && 0 <= j < back.tracks.len() && i != j
                    ==> #[trigger] back.tracks[i].qid != #[trigger] back.tracks[j].qid
            &&& forall|i: int, j: int|
                0 <= i < back.tracks.len() && 0 <= j < fresh.tracks.len()
                    ==> #[trigger] back.tracks[i].qid != #[trigger] fresh.tracks[j].qid
        }),
{
}

/// What was found in a library is found again without it: the difficulty that a track names is
/// the one that was kept under that name.
pub proof fn law_kept_set_serves(
    track: Track,
    set: LazerSet,
    data: Seq<char>,
    manifest: Option<Vec<VFile>>,
    c: CachedSet,
    policy: PickPolicy,
    distance: Seq<Double>,
    k: int,
)
    requires
        is_cached_set(set, data, manifest, c),
        track.sha2 is Some,
        0 <= k < set.beatmaps@.len(),
        set.beatmaps@[k].sha2@ == track.sha2->0@,
    ensures
        ({
            let i = cached_place(track, c.diffs@, policy, distance);
            &&& i is Some
            &&& 0 <= i->0 < c.diffs@.len()
            &&& c.diffs@[i->0].sha2@ == track.sha2->0@
            &&& is_osu_path(set, data, track.sha2->0@, c.diffs@[i->0].osu_path@)
            &&& c.diffs@[i->0].length_ms == length_of(set, track.sha2->0@)
        }),
{
    let sha2 = track.sha2->0@;
    let p = diff_named(c.diffs@, sha2);
    let b = beatmap_named(set.beatmaps@, sha2);
    let n = c.diffs@.len() as int;
    assert(is_cached_diff(set, data, k, c.diffs@[k]));
    assert(p(k));
    seqs::lemma_least_exists(n, p, k);
    let i = seqs::least(n, p)->0;
    assert(is_cached_diff(set, data, i, c.diffs@[i]));
    assert(b(i));
    assert forall|j: int| 0 <= j < i implies !#[trigger] b(j) by {
        assert(is_cached_diff(set, data, j, c.diffs@[j]));
        assert(!p(j));
    }
    seqs::lemma_least_found(n, b, i);
}

/// The same policy picks the same difficulty of a set and of what was kept of it.
pub proof fn law_kept_set_picks_alike(
    set: LazerSet,
    data: Seq<char>,
    manifest: Option<Vec<VFile>>,
    c: CachedSet,
    policy: PickPolicy,
    distance: Seq<Double>,
)
    requires
        is_cached_set(set, data, manifest, c),
    ensures
        playlist::picked(policy, playlist::cached_stars(c.diffs@), distance, c.diffs@.len())
            == playlist::picked(
            policy,
            playlist::stars_of(set),
            distance,
            set.beatmaps@.len(),
        ),
{
    assert forall|i: int| 0 <= i < c.diffs@.len() implies (#[trigger] c.diffs@[i]).star
        == set.beatmaps@[i].star_rating by {
        assert(is_cached_diff(set, data, i, c.diffs@[i]));
    }
    playlist::law_cached_pick_is_alike(set, c.diffs@, policy, distance);
}

// ---------- what these say ----------

/// A new renderer is told each setting that it shows or plays by: the volumes, where the hit sounds
/// count only if they are on, what is shown, how it renders, the offset, the programs and whether it
/// logs.
pub proof fn law_renderer_is_told_the_settings(
    s: Settings,
    ffmpeg: Option<String>,
    ffprobe: Option<String>,
    k: int,
)
    requires
        0 <= k < greeting(s, ffmpeg, ffprobe).len(),
    ensures
        greeting(s, ffmpeg, ffprobe).len() == 16,
        ({
            let g = greeting(s, ffmpeg, ffprobe);
            &&& g.contains(Command::SetVolume { v: s.sound.volume })
            &&& g.contains(Command::SetMaster { v: s.sound.master_volume })
            &&& s.sound.hitsound ==> g.contains(Command::SetHitsVolume { v: s.sound.hits_volume })
            &&& !s.sound.hitsound ==> g.contains(
                Command::SetHitsVolume { v: Single { bits: 0 } },
            )
            &&& g.contains(Command::SetOffset { ms: s.sound.audio_offset_ms })
            &&& g.contains(Command::SetFade { on: s.sound.fade_audio })
            &&& g.contains(Command::SetHud { on: s.shown.hud })
            &&& g.contains(Command::SetPp { on: s.shown.pp })
            &&& g.contains(Command::SetHitAnimations { on: !s.shown.reduce_anim })
            &&& g.contains(Command::SetBreakLighten { on: s.shown.break_lighten })
            &&& g.contains(Command::SetCursor { on: s.shown.cursor })
            &&& g.contains(Command::SetCursorSize { x: s.shown.cursor_size })
            &&& g.contains(Command::SetBgOpacity { v: s.shown.bg_opacity })
            &&& g.contains(Command::SetGameplayHidden { on: s.shown.gameplay_hidden })
            &&& g.contains(Command::SetRenderMode { mode: s.render.render_mode })
            &&& g.contains(Command::SetLog { on: s.program.log_enabled })
            &&& g[k] matches Command::SetFfmpegBins { ffmpeg: a, ffprobe: b } ==> a == bin_of(
                s.places.ffmpeg,
                ffmpeg,
            ) && b == bin_of(s.places.ffprobe, ffprobe)
        }),
{
    let g = greeting(s, ffmpeg, ffprobe);
    assert(g[0] == (Command::SetVolume { v: s.sound.volume }));
    assert(g[1] is SetHitsVolume);
    assert(g[2] == (Command::SetHud { on: s.shown.hud }));
    assert(g[3] == (Command::SetPp { on: s.shown.pp }));
    assert(g[4] == (Command::SetHitAnimations { on: !s.shown.reduce_anim }));
    assert(g[5] == (Command::SetBreakLighten { on: s.shown.break_lighten }));
    assert(g[6] == (Command::SetCursor { on: s.shown.cursor }));
    assert(g[7] == (Command::SetCursorSize { x: s.shown.cursor_size }));
    assert(g[8] == (Command::SetRenderMode { mode: s.render.render_mode }));
    assert(g[9] == (Command::SetBgOpacity { v: s.shown.bg_opacity }));
    assert(g[10] == (Command::SetMaster { v: s.sound.master_volume }));
    assert(g[11] == (Command::SetOffset { ms: s.sound.audio_offset_ms }));
    assert(g[12] == (Command::SetGameplayHidden { on: s.shown.gameplay_hidden }));
    assert(g[13] == (Command::SetFade { on: s.sound.fade_audio }));
    assert(g[15] == (Command::SetLog { on: s.program.log_enabled }));
}

/// A program that was chosen by hand comes before the one that is at hand.
pub proof fn law_chosen_program_comes_first(manual: String, bundled: Option<String>)
    ensures
        bin_of(Some(manual), bundled) == Some(manual),
        bin_of(None, bundled) == bundled,
{
}

/// The end of a track asks for the next one, the end of the renderer for no other event, and what
/// tells the state is remembered.
pub proof fn law_events_are_used(ev: Event)
    ensures
        used(ev).advance <==> ev == Event::Ended,
        used(ev).last <==> ev == Event::Exited,
        ev is Status || ev is Loaded ==> used(ev).remember,
        ev == Event::Unloaded || ev == Event::Exited ==> used(ev).remember,
        ev is Error || ev is Ready || ev is DiffList || ev == Event::Ended || ev == Event::Detached
            ==> !used(ev).remember,
{
}

/// Each track is stored with all that brings it back, at its place, and the place in the list with
/// them; no other setting changes.
pub proof fn law_list_is_stored(s: Settings, q: Queue, t: Settings, i: int)
    requires
        keeps_playlist(s, q, t),
        0 <= i < q.tracks.len(),
    ensures
        t.list.playlist@.len() == q.tracks.len(),
        t.list.playlist@[i].set_id == q.tracks[i].set_id,
        t.list.playlist@[i].sha2 == q.tracks[i].sha2,
        t.list.playlist@[i].mods == q.tracks[i].mods,
        t.list.playlist@[i].title == q.tracks[i].title,
        t.list.playlist@[i].artist == q.tracks[i].artist,
        t.list.playlist@[i].length_ms == q.tracks[i].length_ms,
        t.list.playlist_pos == q.pos,
        t.list.lazer_set == s.list.lazer_set,
        t.list.lazer_sha2 == s.list.lazer_sha2,
        t.sound == s.sound && t.shown == s.shown && t.play == s.play && t.places == s.places
            && t.render == s.render && t.program == s.program && t.manual == s.manual,
{
}

/// After a track of the library the next of the list is played, unless one is played over and over;
/// after any other nothing is.
pub proof fn law_next_is_played_after_the_end(q: Queue)
    requires
        q.wf(),
        q.tracks.len() > 0,
    ensures
        after_end(q, false) == (q, None::<Track>),
        q.mode == PlayMode::SingleLoop ==> after_end(q, true) == (q, None::<Track>),
        q.mode == PlayMode::ListOrder && q.pos + 1 < q.tracks.len() ==> after_end(q, true).0.pos
            == q.pos + 1 && after_end(q, true).1 == Some(q.playing()[q.pos + 1]),
        q.mode == PlayMode::ListOrder && q.pos + 1 == q.tracks.len() ==> after_end(q, true).0.pos == 0
            && after_end(q, true).1 == Some(q.playing()[0]),
        q.mode == PlayMode::ListOrder && q.pos > 0 ==> before_it(q).0.pos == q.pos - 1 && before_it(
            q,
        ).1 == Some(q.playing()[q.pos - 1]),
        q.mode == PlayMode::ListOrder && q.pos == 0 ==> before_it(q).0.pos == q.tracks.len() - 1
            && before_it(q).1 == Some(q.playing()[q.tracks.len() - 1]),
        q.mode == PlayMode::SingleLoop ==> before_it(q).1 is None,
{
}

/// Only the one name stands for the older game.
pub proof fn law_sources_have_names(s: Seq<char>)
    ensures
        LibrarySource::named(s) == LibrarySource::Stable <==> s == "stable"@,
        s == "lazer"@ ==> LibrarySource::named(s) == LibrarySource::Lazer,
{
    reveal_strlit("stable");
    reveal_strlit("lazer");
    assert("stable"@.len() == 6);
    assert("lazer"@.len() == 5);
}

/// A library that was read serves for its own source until it is to be read anew.
pub proof fn law_read_library_serves(a: Seq<char>, b: Seq<char>)
    ensures
        serves(Some(a), a, false),
        a != b ==> !serves(Some(a), b, false),
        !serves(Some(a), a, true),
        !serves(None, a, false),
{
}

/// A name that begins in the way of the game's own skins stands for the skin with the rest as its
/// id, and any other for a directory; without a name it is the built-in one.
pub proof fn law_skin_names(id: Seq<char>, s: String, r: SkinRef)
    requires
        is_skin_ref(Some(s), r),
    ensures
        s@ == "realm:skin:"@ + id ==> r is Realm && r->id@ == id,
        r is Realm ==> s@ == "realm:skin:"@ + r->id@,
        r is Dir ==> r->path@ == s@,
        !(r is Builtin),
        forall|x: SkinRef| #[trigger] is_skin_ref(None, x) ==> x is Builtin,
{
    reveal_strlit("realm:skin:");
    let pre = "realm:skin:"@;
    if s@ == pre + id {
        assert(s@.take(pre.len() as int) =~= pre);
        assert(s@.skip(pre.len() as int) =~= id);
    }
    if r is Realm {
        assert(s@ =~= pre + s@.skip(pre.len() as int));
    }
}

/// What is looked for by its name is the first of that name, and is missed only where none has it.
pub proof fn law_found_by_name(
    lib: LazerLibrary,
    set: LazerSet,
    diffs: Seq<CachedDiff>,
    name: Seq<char>,
    j: int,
)
    ensures
        match seqs::least(lib.skins@.len() as int, skin_named(lib.skins@, name)) {
            Some(i) => 0 <= i < lib.skins@.len() && lib.skins@[i].id@ == name && (0 <= j < i
                ==> lib.skins@[j].id@ != name),
            None => 0 <= j < lib.skins@.len() ==> lib.skins@[j].id@ != name,
        },
        match seqs::least(lib.sets@.len() as int, set_named(lib.sets@, name)) {
            Some(i) => 0 <= i < lib.sets@.len() && lib.sets@[i].id@ == name && (0 <= j < i
                ==> lib.sets@[j].id@ != name),
            None => 0 <= j < lib.sets@.len() ==> lib.sets@[j].id@ != name,
        },
        match seqs::least(diffs.len() as int, diff_named(diffs, name)) {
            Some(i) => 0 <= i < diffs.len() && diffs[i].sha2@ == name && (0 <= j < i
                ==> diffs[j].sha2@ != name),
            None => 0 <= j < diffs.len() ==> diffs[j].sha2@ != name,
        },
        match seqs::least(set.beatmaps@.len() as int, beatmap_named(set.beatmaps@, name)) {
            Some(i) => 0 <= i < set.beatmaps@.len() && set.beatmaps@[i].sha2@ == name && (0 <= j < i
                ==> set.beatmaps@[j].sha2@ != name),
            None => 0 <= j < set.beatmaps@.len() ==> set.beatmaps@[j].sha2@ != name,
        },
{
    let a = skin_named(lib.skins@, name);
    let b = set_named(lib.sets@, name);
    let c = diff_named(diffs, name);
    let d = beatmap_named(set.beatmaps@, name);
    seqs::lemma_least(lib.skins@.len() as int, a);
    seqs::lemma_least(lib.sets@.len() as int, b);
    seqs::lemma_least(diffs.len() as int, c);
    seqs::lemma_least(set.beatmaps@.len() as int, d);
    assert(a(j) == (lib.skins@[j].id@ == name));
    assert(b(j) == (lib.sets@[j].id@ == name));
    assert(c(j) == (diffs[j].sha2@ == name));
    assert(d(j) == (set.beatmaps@[j].sha2@ == name));
}

/// A track that names no difficulty, or one that is not known, is played with the one that the
/// policy picks; of a set without difficulties nothing is.
pub proof fn law_unnamed_difficulty_is_picked(
    track: Track,
    diffs: Seq<CachedDiff>,
    policy: PickPolicy,
    distance: Seq<Double>,
)
    requires
        track.sha2 matches Some(s) ==> (forall|j: int|
            0 <= j < diffs.len() ==> (#[trigger] diffs[j]).sha2@ != s@),
    ensures
        diffs.len() == 0 ==> cached_place(track, diffs, policy, distance) is None,
        diffs.len() > 0 ==> cached_place(track, diffs, policy, distance) == Some(
            playlist::picked(policy, playlist::cached_stars(diffs), distance, diffs.len()),
        ),
{
    if let Some(s) = track.sha2 {
        let p = diff_named(diffs, s@);
        assert forall|j: int| 0 <= j < diffs.len() implies !#[trigger] p(j) by {
            assert(diffs[j].sha2@ != s@);
        }
        seqs::lemma_least_missing(diffs.len() as int, p);
    }
}

/// What is played without a library is the known difficulty, with its files, under the title and
/// artist that the track shows; what the track does not know comes from the difficulty.
pub proof fn law_known_track_is_played(track: Track, set: CachedSet, d: CachedDiff, p: Playing)
    requires
        is_from_cache(track, set, d, p),
    ensures
        p.osu_path@ == d.osu_path@,
        p.sha2@ == d.sha2@,
        p.artist@ == track.artist@,
        track.title@.len() > 0 ==> p.title@ == track.title@,
        track.title@.len() == 0 ==> p.title@ == d.name@,
        set.manifest is None <==> p.manifest is None,
        set.manifest matches Some(m) ==> (p.manifest matches Some(n) && n@ == m@),
        0 < track.length_ms.bits <= 0x7FF0_0000_0000_0000 ==> p.length_ms == track.length_ms,
        track.length_ms.bits == 0 ==> p.length_ms == d.length_ms,
{
}

/// What the user is told where a track cannot be loaded.
pub proof fn law_load_errors_are_told(path: String)
    ensures
        LoadError::NoSet.says() == "谱面集不在曲库中(曲库可能已更新,请刷新)"@,
        LoadError::NoLazerDir.says() == "未找到 osu!lazer 数据目录"@,
        (LoadError::MissingBlob { path }).says() == "难度 blob 缺失(曲库可能已更新):"@ + path@,
{
}

/// A track is played with the difficulty that it names, and with the one that the policy picks of
/// its set otherwise. A set with a directory of its own has its beatmaps there; any other has them
/// in the store of the game.
pub proof fn law_track_is_found_in_its_set(
    track: Track,
    set: LazerSet,
    policy: PickPolicy,
    distance: Seq<Double>,
    data: Seq<char>,
    path: Seq<char>,
)
    ensures
        track.sha2 matches Some(s) ==> sha2_of(track, set, policy, distance) == s@,
        track.sha2 is None ==> sha2_of(track, set, policy, distance) == set.beatmaps@[playlist::picked(
            policy,
            playlist::stars_of(set),
            distance,
            set.beatmaps@.len(),
        )].sha2@,
        set.root matches Some(root) ==> (is_osu_path(
            set,
            data,
            sha2_of(track, set, policy, distance),
            path,
        ) <==> paths::joined(root@, sha2_of(track, set, policy, distance), path)),
        set.root is None ==> (is_osu_path(set, data, sha2_of(track, set, policy, distance), path)
            <==> paths::joined_twice(
            data,
            "files"@,
            lazer::blob_path(sha2_of(track, set, policy, distance)),
            path,
        )),
{
}

/// A beatmap of a plain directory lies right below it under its own name.
pub proof fn law_beatmap_lies_below_its_directory(
    set: LazerSet,
    data: Seq<char>,
    sha2: Seq<char>,
    path: Seq<char>,
)
    requires
        set.root is Some,
        paths::plain_base(set.root->0@),
        paths::plain_rel(sha2),
        set.root->0@.last() != '/',
        set.root->0@.last() != '\\',
        is_osu_path(set, data, sha2, path),
    ensures
        path == set.root->0@ + "/"@ + sha2 || path == set.root->0@ + "\\"@ + sha2,
{
    reveal_strlit("/");
    reveal_strlit("\\");
    let root = set.root->0@;
    assert(root.push('/') + sha2 =~= root + "/"@ + sha2);
    assert(root.push('\\') + sha2 =~= root + "\\"@ + sha2);
}

/// Each file of a set is handed over under its own name, with where its content lies in the store.
pub proof fn law_files_are_handed_over(files: Seq<LazerFile>, data: Seq<char>, m: Seq<VFile>, i: int)
    requires
        is_manifest(files, data, m),
        0 <= i < files.len(),
    ensures
        m.len() == files.len(),
        m[i].name@ == files[i].filename@,
        paths::joined_twice(data, "files"@, lazer::blob_path(files[i].hash@), m[i].path@),
{
}

/// What is kept of a set is each of its difficulties with its name, its stars, its length and where
/// it lies, and its files.
pub proof fn law_kept_set_holds_its_difficulties(
    set: LazerSet,
    data: Seq<char>,
    manifest: Option<Vec<VFile>>,
    c: CachedSet,
    i: int,
)
    requires
        is_cached_set(set, data, manifest, c),
        0 <= i < set.beatmaps@.len(),
    ensures
        c.diffs@.len() == set.beatmaps@.len(),
        c.diffs@[i].sha2@ == set.beatmaps@[i].sha2@,
        c.diffs@[i].name@ == set.beatmaps@[i].name@,
        c.diffs@[i].star == set.beatmaps@[i].star_rating,
        c.diffs@[i].length_ms == set.beatmaps@[i].length_ms,
        is_osu_path(set, data, set.beatmaps@[i].sha2@, c.diffs@[i].osu_path@),
        manifest is None <==> c.manifest is None,
        manifest matches Some(m) ==> (c.manifest matches Some(n) && n@ == m@),
{
    assert(is_cached_diff(set, data, i, c.diffs@[i]));
}

/// The length is that of the first difficulty of the name, and none where no difficulty has it.
pub proof fn law_length_is_that_of_the_difficulty(set: LazerSet, sha2: Seq<char>, i: int)
    ensures
        0 <= i < set.beatmaps@.len() && set.beatmaps@[i].sha2@ == sha2 && (forall|j: int|
            0 <= j < i ==> (#[trigger] set.beatmaps@[j]).sha2@ != sha2) ==> length_of(set, sha2)
            == set.beatmaps@[i].length_ms,
        (forall|j: int| 0 <= j < set.beatmaps@.len() ==> (#[trigger] set.beatmaps@[j]).sha2@ != sha2)
            ==> length_of(set, sha2).bits == 0,
{
    let p = beatmap_named(set.beatmaps@, sha2);
    let n = set.beatmaps@.len() as int;
    if 0 <= i < n && set.beatmaps@[i].sha2@ == sha2 && (forall|j: int|
        0 <= j < i ==> (#[trigger] set.beatmaps@[j]).sha2@ != sha2) {
        assert(p(i));
        assert forall|j: int| 0 <= j < i implies !#[trigger] p(j) by {
            assert(set.beatmaps@[j].sha2@ != sha2);
        }
        seqs::lemma_least_found(n, p, i);
    }
    if forall|j: int| 0 <= j < n ==> (#[trigger] set.beatmaps@[j]).sha2@ != sha2 {
        assert forall|j: int| 0 <= j < n implies !#[trigger] p(j) by {
            assert(set.beatmaps@[j].sha2@ != sha2);
        }
        seqs::lemma_least_missing(n, p);
    }
}

/// Title and artist are shown in their own script where there is one, and else as they are.
pub proof fn law_names_are_shown_in_their_script(set: LazerSet)
    ensures
        set.title_unicode@.len() > 0 ==> shown_title(set) == set.title_unicode@,
        set.title_unicode@.len() == 0 ==> shown_title(set) == set.title@,
        set.artist_unicode@.len() > 0 ==> shown_artist(set) == set.artist_unicode@,
        set.artist_unicode@.len() == 0 ==> shown_artist(set) == set.artist@,
{
}

/// What is sent of a beatmap is where it lies with its files, its skin and its mods, and how the
/// settings have it played. It starts nowhere before the beginning, and the video goes with the
/// storyboard.
pub proof fn law_load_says_what_is_set(
    s: Settings,
    path: String,
    diff: Option<String>,
    manifest: Option<Vec<VFile>>,
    skin: Option<String>,
    mods: u32,
    start: Single,
    r: Load,
)
    requires
        is_load(s, path, diff, manifest, skin, mods, start, r),
    ensures
        r.path == path && r.diff == diff && r.manifest == manifest && r.skin == skin && r.mods
            == mods,
        r.speed == s.play.speed,
        r.loop_playback == s.play.loop_playback,
        r.force_colours == s.places.force_skin_colours,
        r.hidden == s.shown.hidden,
        r.storyboard == s.shown.storyboard,
        r.video == s.shown.storyboard,
        r.beatmap_hitsounds == s.sound.beatmap_hitsounds,
        r.upscale@ == "off"@,
        r.upscale_quality@ == "m"@,
        r.monitor is None,
        0 < start.bits <= 0x7F80_0000 ==> r.start == start,
        0x8000_0000 < start.bits <= 0xFF80_0000 ==> r.start.bits == 0,
{
}

/// A track that is told of by its set and its difficulty alone knows nothing else.
pub proof fn law_bare_track_knows_its_song(t: Track, set_id: Seq<char>, sha2: Option<String>, qid: u64)
    requires
        is_bare(t, set_id, sha2, qid),
    ensures
        t.set_id@ == set_id && t.sha2 == sha2 && t.qid == qid,
        t.mods == 0 && t.title@.len() == 0 && t.artist@.len() == 0 && t.length_ms.bits == 0,
{
}

/// The stored list comes back, and then stands at the track that was played last where it holds it;
/// where nothing is stored the list stays as it is.
pub proof fn law_list_stands_at_the_last_track(q: Queue, s: Settings, i: int)
    requires
        q.wf(),
        q.next_qid + s.list.playlist@.len() <= u64::MAX,
        s.play.play_mode != PlayMode::Random,
        s.list.playlist@.len() > 0,
        0 <= i < s.list.playlist@.len(),
    ensures
        recalled(q, s).tracks.len() == s.list.playlist@.len(),
        recalled(q, s).tracks[i].set_id == s.list.playlist@[i].set_id,
        recalled(q, s).tracks[i].sha2 == s.list.playlist@[i].sha2,
        recalled(q, s).tracks[i].mods == s.list.playlist@[i].mods,
        recalled(q, s).mode == s.play.play_mode,
        s.list.lazer_set is None && s.list.playlist_pos < s.list.playlist@.len() ==> recalled(
            q,
            s,
        ).pos == s.list.playlist_pos,
        s.list.lazer_set matches Some(id) ==> ({
            let back = q.restored(s.list.playlist@, s.list.playlist_pos as int, s.play.play_mode);
            back.tracks[i].is_song(id@, s.list.lazer_sha2) && (forall|j: int|
                0 <= j < i ==> !(#[trigger] back.tracks[j]).is_song(id@, s.list.lazer_sha2))
                ==> recalled(q, s).current() == Some(back.tracks[i])
        }),
{
    let back = q.restored(s.list.playlist@, s.list.playlist_pos as int, s.play.play_mode);
    assert(s.list.playlist.len() == s.list.playlist@.len());
    playlist::law_restored_entry_is_the_stored_one(
        q,
        s.list.playlist@,
        s.list.playlist_pos as int,
        s.play.play_mode,
        i,
    );
    if let Some(id) = s.list.lazer_set {
        if back.tracks[i].is_song(id@, s.list.lazer_sha2) && (forall|j: int|
            0 <= j < i ==> !(#[trigger] back.tracks[j]).is_song(id@, s.list.lazer_sha2)) {
            playlist::law_align_goes_to_song(back, id@, s.list.lazer_sha2, i);
        }
    }
}

/// With nothing stored the list stays as it is, and the file that was picked by hand is loaded.
/// Else the track at the current place comes first, then the one that was played last. What fails is
/// tried once more at most, with what the list then stands at.
pub proof fn law_way_back(s: Settings, t: Track, r: Restore)
    ensures
        s.list.lazer_set is None && s.list.playlist@.len() == 0 ==> (begins_with(s, Some(t), r) <==> r
            == Restore::Manual),
        s.list.lazer_set is Some || s.list.playlist@.len() > 0 ==> (begins_with(s, Some(t), r) <==> r
            == Restore::Try { track: t, again: false }),
        s.list.lazer_set is Some && begins_with(s, None, r) ==> r is Try && r->track.set_id@
            == s.list.lazer_set->0@ && r->track.sha2 == s.list.lazer_sha2,
        s.list.lazer_set is None && s.list.playlist@.len() > 0 && begins_with(s, None, r) ==> r
            == Restore::Forget,
        after_failure(Some(t), false) == (Restore::Try { track: t, again: true }),
        after_failure(Some(t), true) == Restore::Forget,
        after_failure(None, false) == Restore::Forget,
{
}

/// It plays if the last event that was kept is a status that says so.
pub proof fn law_plays_as_last_told(ev: Event)
    ensures
        ev matches Event::Status { playing, .. } ==> plays(Some(&ev)) == playing,
        !(ev is Status) ==> !plays(Some(&ev)),
        !plays(None),
{
}

/// What is not found is told by the name of its game.
pub proof fn law_missing_source_is_told()
    ensures
        LibrarySource::Stable.lacking() == "未找到 osu!stable 安装目录(需要 osu!.db)"@,
        LibrarySource::Lazer.lacking() == "未找到 osu!lazer 数据目录(client.realm)"@,
{
}

} // verus!
