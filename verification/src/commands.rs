//! What the user interface shows of the play list and the library, and what it does to them.
use vstd::prelude::*;

use vstd::hash_map::StringHashMap;

use crate::controls::Refusal;
use crate::ctl;
use crate::ctl::LibrarySource;
use crate::ieee::{Double, Single};
use crate::ipc::Command;
use crate::lazer::{LazerBeatmap, LazerCollection, LazerLibrary, LazerSet};
use crate::paths;
use crate::playlist;
use crate::playlist::{PickPolicy, PlayMode, Playlist, Queue, Track};
use crate::seqs;
use crate::settings::Settings;
use crate::text;

verus! {

// ---------- picking a difficulty ----------

/// How difficulties are picked: under a policy with a target, by how far the star rating of each
/// difficulty of each set is from it.
#[derive(Debug)]
pub struct Choice {
    pub policy: PickPolicy,
    pub distances: Vec<Vec<Double>>,
}

impl Choice {
    /// There is a distance for each difficulty where distances count.
    pub open spec fn fits(self, sets: Seq<LazerSet>) -> bool {
        self.policy is Custom ==> {
            &&& self.distances@.len() == sets.len()
            &&& forall|k: int|
                0 <= k < sets.len() ==> (#[trigger] self.distances@[k])@.len()
                    == sets[k].beatmaps@.len()
        }
    }

    pub open spec fn at(self, k: int) -> Seq<Double> {
        if self.policy is Custom {
            self.distances@[k]@
        } else {
            Seq::empty()
        }
    }
}

/// Every set has a difficulty to play.
pub open spec fn playable(sets: Seq<LazerSet>) -> bool {
    forall|k: int| 0 <= k < sets.len() ==> (#[trigger] sets[k]).beatmaps@.len() > 0
}

/// Which difficulty of a set is picked.
pub open spec fn chosen(sets: Seq<LazerSet>, k: int, c: Choice) -> int {
    playlist::picked(c.policy, playlist::stars_of(sets[k]), c.at(k), sets[k].beatmaps@.len())
}

fn choose_diff<'a>(sets: &'a Vec<LazerSet>, k: usize, c: &Choice) -> (r: &'a LazerBeatmap)
    requires
        k < sets@.len(),
        playable(sets@),
        c.fits(sets@),
    ensures
        0 <= chosen(sets@, k as int, *c) < sets@[k as int].beatmaps@.len(),
        *r == sets@[k as int].beatmaps@[chosen(sets@, k as int, *c)],
{
    let none: Vec<Double> = Vec::new();
    match c.policy {
        PickPolicy::Custom(_) => playlist::pick_diff(&sets[k], c.policy, &c.distances[k]),
        _ => {
            assert(none@ =~= c.at(k as int));
            playlist::pick_diff(&sets[k], c.policy, &none)
        },
    }
}

/// Which difficulty of a set is shown: the one that is named where the set has it, else the one
/// that is picked.
pub open spec fn shown(sets: Seq<LazerSet>, k: int, sha2: Option<Seq<char>>, c: Choice) -> int {
    let n = sets[k].beatmaps@.len() as int;
    match sha2 {
        Some(s) => match seqs::least(n, ctl::beatmap_named(sets[k].beatmaps@, s)) {
            Some(i) => i,
            None => chosen(sets, k, c),
        },
        None => chosen(sets, k, c),
    }
}

fn show_diff<'a>(sets: &'a Vec<LazerSet>, k: usize, sha2: Option<&str>, c: &Choice) -> (r: &'a LazerBeatmap)
    requires
        k < sets@.len(),
        playable(sets@),
        c.fits(sets@),
    ensures
        0 <= shown(sets@, k as int, viewed(sha2), *c) < sets@[k as int].beatmaps@.len(),
        *r == sets@[k as int].beatmaps@[shown(sets@, k as int, viewed(sha2), *c)],
{
    if let Some(s) = sha2 {
        let beatmaps: &Vec<LazerBeatmap> = &sets[k].beatmaps;
        let ghost p = ctl::beatmap_named(beatmaps@, s@);
        let mut i: usize = 0;
        while i < beatmaps.len()
            invariant
                i <= beatmaps@.len(),
                k < sets@.len(),
                beatmaps == sets@[k as int].beatmaps,
                sha2 == Some(s),
                p == ctl::beatmap_named(beatmaps@, s@),
                forall|j: int| 0 <= j < i ==> !#[trigger] p(j),
            decreases beatmaps.len() - i,
        {
            if text::same(beatmaps[i].sha2.as_str(), s) {
                proof {
                    assert(p(i as int));
                    seqs::lemma_least_found(beatmaps@.len() as int, p, i as int);
                }
                return &sets[k].beatmaps[i];
            }
            i = i + 1;
        }
        proof {
            seqs::lemma_least_missing(beatmaps@.len() as int, p);
        }
    }
    choose_diff(sets, k, c)
}

pub open spec fn viewed(s: Option<&str>) -> Option<Seq<char>> {
    match s {
        Some(t) => Some(t@),
        None => None,
    }
}

pub open spec fn held(s: Option<String>) -> Option<Seq<char>> {
    match s {
        Some(t) => Some(t@),
        None => None,
    }
}

fn lent(s: &Option<String>) -> (r: Option<&str>)
    ensures
        viewed(r) == held(*s),
{
    match s {
        Some(t) => Some(t.as_str()),
        None => None,
    }
}

/// What the list shows of a track: title and artist, and the length of the difficulty.
pub fn track_display_meta(sets: &Vec<LazerSet>, k: usize, sha2: Option<&str>, c: &Choice) -> (r: (
    String,
    String,
    Double,
))
    requires
        k < sets@.len(),
        playable(sets@),
        c.fits(sets@),
    ensures
        r.0@ == ctl::shown_title(sets@[k as int]),
        r.1@ == ctl::shown_artist(sets@[k as int]),
        0 <= shown(sets@, k as int, viewed(sha2), *c) < sets@[k as int].beatmaps@.len(),
        r.2 == sets@[k as int].beatmaps@[shown(sets@, k as int, viewed(sha2), *c)].length_ms,
{
    let d: &LazerBeatmap = show_diff(sets, k, sha2, c);
    (ctl::title_of(&sets[k]), ctl::artist_of(&sets[k]), d.length_ms)
}

// ---------- the queue ----------

/// A row of the play list.
#[derive(Debug)]
pub struct QueueItem {
    pub qid: u64,
    pub set_id: String,
    pub sha2: String,
    pub mods: u32,
    /// The difficulty was picked by hand.
    pub locked: bool,
    pub title: String,
    pub artist: String,
    pub diff: String,
    pub star: Double,
    pub length_ms: Double,
    pub current: bool,
}

#[verifier::ext_equal]
pub struct ItemView {
    pub qid: u64,
    pub set_id: Seq<char>,
    pub sha2: Seq<char>,
    pub mods: u32,
    pub locked: bool,
    pub title: Seq<char>,
    pub artist: Seq<char>,
    pub diff: Seq<char>,
    pub star: Double,
    pub length_ms: Double,
    pub current: bool,
}

impl View for QueueItem {
    type V = ItemView;

    open spec fn view(&self) -> ItemView {
        ItemView {
            qid: self.qid,
            set_id: self.set_id@,
            sha2: self.sha2@,
            mods: self.mods,
            locked: self.locked,
            title: self.title@,
            artist: self.artist@,
            diff: self.diff@,
            star: self.star,
            length_ms: self.length_ms,
            current: self.current,
        }
    }
}

pub open spec fn item_views(v: Seq<QueueItem>) -> Seq<ItemView> {
    v.map_values(|i: QueueItem| i@)
}

/// A row without a library: what the track itself knows.
pub open spec fn plain_item(t: Track, current: Option<Track>) -> ItemView {
    ItemView {
        qid: t.qid,
        set_id: t.set_id@,
        sha2: match t.sha2 {
            Some(s) => s@,
            None => Seq::empty(),
        },
        mods: t.mods,
        locked: t.sha2 is Some,
        title: t.title@,
        artist: t.artist@,
        diff: Seq::empty(),
        star: Double { bits: 0 },
        length_ms: t.length_ms,
        current: current is Some && current->0.qid == t.qid,
    }
}

/// A row with the set of the library.
pub open spec fn full_item(
    t: Track,
    current: Option<Track>,
    sets: Seq<LazerSet>,
    k: int,
    c: Choice,
) -> ItemView {
    let d = sets[k].beatmaps@[shown(sets, k, held(t.sha2), c)];
    ItemView {
        qid: t.qid,
        set_id: t.set_id@,
        sha2: d.sha2@,
        mods: t.mods,
        locked: t.sha2 is Some,
        title: ctl::shown_title(sets[k]),
        artist: ctl::shown_artist(sets[k]),
        diff: d.name@,
        star: d.star_rating,
        length_ms: d.length_ms,
        current: current is Some && current->0.qid == t.qid,
    }
}

/// The last set with an id.
pub open spec fn last_named(sets: Seq<LazerSet>, id: Seq<char>) -> Option<int>
    decreases sets.len(),
{
    if sets.len() == 0 {
        None
    } else if sets.last().id@ == id {
        Some(sets.len() - 1)
    } else {
        last_named(sets.drop_last(), id)
    }
}

fn last_set(sets: &Vec<LazerSet>, id: &str) -> (r: Option<usize>)
    ensures
        match r {
            Some(k) => k < sets@.len() && last_named(sets@, id@) == Some(k as int),
            None => last_named(sets@, id@) is None,
        },
{
    let mut n: usize = sets.len();
    assert(sets@.take(n as int) =~= sets@);
    while n > 0
        invariant
            n <= sets@.len(),
            last_named(sets@.take(n as int), id@) == last_named(sets@, id@),
        decreases n,
    {
        assert(sets@.take(n as int).drop_last() =~= sets@.take(n - 1));
        if text::same(sets[n - 1].id.as_str(), id) {
            return Some(n - 1);
        }
        n = n - 1;
    }
    None
}

/// The rows for tracks: where a library is known, those of its sets.
pub open spec fn rows(
    tracks: Seq<Track>,
    current: Option<Track>,
    lib: Option<LazerLibrary>,
    c: Choice,
) -> Seq<ItemView>
    decreases tracks.len(),
{
    if tracks.len() == 0 {
        Seq::empty()
    } else {
        let before = rows(tracks.drop_last(), current, lib, c);
        let t = tracks.last();
        match lib {
            None => before.push(plain_item(t, current)),
            Some(l) => match last_named(l.sets@, t.set_id@) {
                Some(k) => before.push(full_item(t, current, l.sets@, k, c)),
                None => before,
            },
        }
    }
}

fn plain_row(t: Track, now: bool) -> (r: QueueItem)
    ensures
        r@ == (ItemView { current: now, ..plain_item(t, None) }),
{
    let locked: bool = t.sha2.is_some();
    let sha2: String = match t.sha2 {
        Some(s) => s,
        None => String::new(),
    };
    let r = QueueItem {
        qid: t.qid,
        set_id: t.set_id,
        sha2,
        mods: t.mods,
        locked,
        title: t.title,
        artist: t.artist,
        diff: String::new(),
        star: Double { bits: 0 },
        length_ms: t.length_ms,
        current: now,
    };
    assert(r@ =~= (ItemView { current: now, ..plain_item(t, None) }));
    r
}

fn full_row(t: Track, now: bool, sets: &Vec<LazerSet>, k: usize, c: &Choice) -> (r: QueueItem)
    requires
        k < sets@.len(),
        playable(sets@),
        c.fits(sets@),
    ensures
        r@ == (ItemView { current: now, ..full_item(t, None, sets@, k as int, *c) }),
{
    let locked: bool = t.sha2.is_some();
    let d: &LazerBeatmap = show_diff(sets, k, lent(&t.sha2), c);
    let r = QueueItem {
        qid: t.qid,
        set_id: t.set_id,
        sha2: d.sha2.clone(),
        mods: t.mods,
        locked,
        title: ctl::title_of(&sets[k]),
        artist: ctl::artist_of(&sets[k]),
        diff: d.name.clone(),
        star: d.star_rating,
        length_ms: d.length_ms,
        current: now,
    };
    assert(r@ =~= (ItemView { current: now, ..full_item(t, None, sets@, k as int, *c) }));
    r
}

/// The rows of the play list. They need no library: without one they show what the tracks know.
pub fn queue(list: &Playlist, lib: Option<&LazerLibrary>, c: &Choice) -> (r: Vec<QueueItem>)
    requires
        list@.wf(),
        lib is Some ==> playable(lib->0.sets@) && c.fits(lib->0.sets@),
    ensures
        item_views(r@) == rows(
            list@.playing(),
            list@.current(),
            match lib {
                Some(l) => Some(*l),
                None => None,
            },
            *c,
        ),
{
    let current: Option<Track> = list.current();
    let tracks: Vec<Track> = list.queue();
    let ghost all = tracks@;
    let ghost known = match lib {
        Some(l) => Some(*l),
        None => None,
    };
    let mut r: Vec<QueueItem> = Vec::new();
    assert(item_views(r@) =~= rows(all.take(0), current, known, *c));
    for t in it: tracks.into_iter()
        invariant
            it.seq() == all,
            lib is Some ==> playable(lib->0.sets@) && c.fits(lib->0.sets@),
            known == match lib {
                Some(l) => Some(*l),
                None => None,
            },
            item_views(r@) == rows(all.take(it.index() as int), current, known, *c),
    {
        let ghost i = it.index() as int;
        let ghost before = r@;
        let ghost track = t;
        assert(all.take(i + 1).drop_last() =~= all.take(i));
        let now: bool = match &current {
            Some(cur) => cur.qid == t.qid,
            None => false,
        };
        match lib {
            None => {
                r.push(plain_row(t, now));
                assert(item_views(r@) =~= item_views(before).push(plain_item(track, current)));
            },
            Some(l) => {
                if let Some(k) = last_set(&l.sets, t.set_id.as_str()) {
                    r.push(full_row(t, now, &l.sets, k, c));
                    assert(item_views(r@) =~= item_views(before).push(
                        full_item(track, current, l.sets@, k as int, *c),
                    ));
                }
            },
        }
    }
    assert(all.take(all.len() as int) =~= all);
    r
}

// ---------- adding ----------

pub open spec fn first_named(sets: Seq<LazerSet>, id: Seq<char>) -> Option<int> {
    seqs::least(sets.len() as int, ctl::set_named(sets, id))
}

fn first_set(sets: &Vec<LazerSet>, id: &str) -> (r: Option<usize>)
    ensures
        match r {
            Some(k) => k < sets@.len() && first_named(sets@, id@) == Some(k as int),
            None => first_named(sets@, id@) is None,
        },
{
    let ghost p = ctl::set_named(sets@, id@);
    let mut i: usize = 0;
    while i < sets.len()
        invariant
            i <= sets@.len(),
            p == ctl::set_named(sets@, id@),
            forall|j: int| 0 <= j < i ==> !#[trigger] p(j),
        decreases sets.len() - i,
    {
        if text::same(sets[i].id.as_str(), id) {
            proof {
                assert(p(i as int));
                seqs::lemma_least_found(sets@.len() as int, p, i as int);
            }
            return Some(i);
        }
        i = i + 1;
    }
    proof {
        seqs::lemma_least_missing(sets@.len() as int, p);
    }
    None
}

/// The difficulty with which a set is added: the one that was asked for, else the one that is
/// picked now, for good.
pub open spec fn locked_sha2(sets: Seq<LazerSet>, k: int, sha2: Option<Seq<char>>, c: Choice) -> Seq<char> {
    match sha2 {
        Some(s) => s,
        None => sets[k].beatmaps@[chosen(sets, k, c)].sha2@,
    }
}

/// The track that is added for a set.
pub open spec fn is_added(
    t: Track,
    sets: Seq<LazerSet>,
    k: int,
    set_id: Seq<char>,
    sha2: Option<Seq<char>>,
    mods: u32,
    pick: Choice,
    show: Choice,
) -> bool {
    let locked = locked_sha2(sets, k, sha2, pick);
    &&& t.set_id@ == set_id
    &&& t.sha2 is Some
    &&& t.sha2->0@ == locked
    &&& t.qid == 0
    &&& t.mods == mods
    &&& t.title@ == ctl::shown_title(sets[k])
    &&& t.artist@ == ctl::shown_artist(sets[k])
    &&& t.length_ms == sets[k].beatmaps@[shown(sets, k, Some(locked), show)].length_ms
}

fn add_set(
    list: &mut Playlist,
    sets: &Vec<LazerSet>,
    k: usize,
    set_id: &String,
    sha2: &Option<String>,
    mods: u32,
    pick: &Choice,
    show: &Choice,
) -> (new: bool)
    requires
        k < sets@.len(),
        playable(sets@),
        pick.fits(sets@),
        show.fits(sets@),
        old(list)@.wf(),
        old(list)@.next_qid < u64::MAX,
        old(list)@.tracks.len() < usize::MAX,
    ensures
        final(list)@.wf(),
        new == (playlist::set_place(old(list)@.tracks, set_id@) is None),
        exists|t: Track|
            #![trigger old(list)@.with_track(t)]
            is_added(t, sets@, k as int, set_id@, held(*sha2), mods, *pick, *show) && final(list)@
                == old(list)@.with_track(t),
{
    let locked: String = match sha2 {
        Some(s) => s.clone(),
        None => choose_diff(sets, k, pick).sha2.clone(),
    };
    let (title, artist, length_ms): (String, String, Double) = track_display_meta(
        sets,
        k,
        Some(locked.as_str()),
        show,
    );
    let ghost before = list@;
    let id: String = set_id.clone();
    let ghost t = Track {
        set_id: id,
        sha2: Some(locked),
        qid: 0,
        mods,
        title,
        artist,
        length_ms,
    };
    let new: bool = list.add(id, Some(locked), mods, title, artist, length_ms);
    assert(is_added(t, sets@, k as int, set_id@, held(*sha2), mods, *pick, *show));
    assert(list@ == before.with_track(t));
    new
}

/// The current track where it is of a set.
pub open spec fn current_of(q: Queue, set_id: Seq<char>) -> Option<Track> {
    match q.current() {
        Some(t) => if t.set_id@ == set_id {
            Some(t)
        } else {
            None
        },
        None => None,
    }
}

fn current_if(list: &Playlist, set_id: &str) -> (r: Option<Track>)
    requires
        list@.wf(),
    ensures
        r == current_of(list@, set_id@),
{
    match list.current() {
        Some(t) => if text::same(t.set_id.as_str(), set_id) {
            Some(t)
        } else {
            None
        },
        None => None,
    }
}

/// Adds a set to the play list, or overwrites its entry. Says whether it is new; where the entry
/// that plays was overwritten, gives it back so that it is loaded again.
pub fn playlist_add(
    list: &mut Playlist,
    lib: &LazerLibrary,
    set_id: String,
    sha2: Option<String>,
    mods: u32,
    c: &Choice,
) -> (r: Result<(bool, Option<Track>), Refusal>)
    requires
        playable(lib.sets@),
        c.fits(lib.sets@),
        old(list)@.wf(),
        old(list)@.next_qid < u64::MAX,
        old(list)@.tracks.len() < usize::MAX,
    ensures
        final(list)@.wf(),
        match first_named(lib.sets@, set_id@) {
            None => final(list)@ == old(list)@ && r is Err && r->Err_0 is NoSet,
            Some(k) => {
                &&& exists|t: Track|
                    #![trigger old(list)@.with_track(t)]
                    is_added(t, lib.sets@, k, set_id@, held(sha2), mods, *c, *c) && final(list)@
                        == old(list)@.with_track(t)
                &&& r is Ok
                &&& r->Ok_0.0 == (playlist::set_place(old(list)@.tracks, set_id@) is None)
                &&& r->Ok_0.1 == if r->Ok_0.0 {
                    None
                } else {
                    current_of(final(list)@, set_id@)
                }
            },
        },
{
    match first_set(&lib.sets, set_id.as_str()) {
        None => Err(Refusal::NoSet),
        Some(k) => {
            let new: bool = add_set(list, &lib.sets, k, &set_id, &sha2, mods, c, c);
            let hit: Option<Track> = if new {
                None
            } else {
                current_if(list, set_id.as_str())
            };
            Ok((new, hit))
        },
    }
}

/// A set to add with others.
#[derive(Debug)]
pub struct BatchAdd {
    pub set_id: String,
    pub sha2: Option<String>,
    pub mods: u32,
    /// The target of this set: none picks the hardest, a negative one the easiest.
    pub target: Option<Double>,
}

/// `q` comes of adding the sets, each one with its own way of picking; a set that the library does
/// not hold is passed over.
pub open spec fn batch(
    start: Queue,
    items: Seq<BatchAdd>,
    picks: Seq<Choice>,
    sets: Seq<LazerSet>,
    show: Choice,
    q: Queue,
) -> bool
    decreases items.len(),
{
    if items.len() == 0 {
        q == start
    } else {
        let i = items.last();
        match first_named(sets, i.set_id@) {
            None => batch(start, items.drop_last(), picks, sets, show, q),
            Some(k) => exists|m: Queue, t: Track|
                #![trigger m.with_track(t)]
                batch(start, items.drop_last(), picks, sets, show, m) && is_added(
                    t,
                    sets,
                    k,
                    i.set_id@,
                    held(i.sha2),
                    i.mods,
                    picks[items.len() - 1],
                    show,
                ) && q == m.with_track(t),
        }
    }
}

/// How many of the sets the library holds.
pub open spec fn held_count(items: Seq<BatchAdd>, sets: Seq<LazerSet>) -> nat
    decreases items.len(),
{
    if items.len() == 0 {
        0
    } else {
        held_count(items.drop_last(), sets) + if first_named(sets, items.last().set_id@) is Some {
            1nat
        } else {
            0
        }
    }
}

/// Adds sets, each one by its own target, and says how many.
pub fn playlist_add_batch(
    list: &mut Playlist,
    lib: &LazerLibrary,
    items: &Vec<BatchAdd>,
    picks: &Vec<Choice>,
    show: &Choice,
) -> (added: usize)
    requires
        playable(lib.sets@),
        show.fits(lib.sets@),
        picks@.len() == items@.len(),
        forall|i: int|
            0 <= i < items@.len() ==> (#[trigger] picks@[i]).fits(lib.sets@) && picks@[i].policy
                == playlist::policy_for(items@[i].target),
        old(list)@.wf(),
        old(list)@.next_qid + items@.len() <= u64::MAX,
        old(list)@.tracks.len() + items@.len() <= usize::MAX,
    ensures
        final(list)@.wf(),
        batch(old(list)@, items@, picks@, lib.sets@, *show, final(list)@),
        added == held_count(items@, lib.sets@),
{
    let ghost start = list@;
    let mut added: usize = 0;
    let mut i: usize = 0;
    assert(items@.take(0).len() == 0);
    while i < items.len()
        invariant
            i <= items@.len(),
            added <= i,
            playable(lib.sets@),
            show.fits(lib.sets@),
            picks@.len() == items@.len(),
            forall|i: int| 0 <= i < items@.len() ==> (#[trigger] picks@[i]).fits(lib.sets@),
            list@.wf(),
            list@.next_qid + (items@.len() - i) <= u64::MAX,
            list@.tracks.len() + (items@.len() - i) <= usize::MAX,
            batch(start, items@.take(i as int), picks@, lib.sets@, *show, list@),
            added == held_count(items@.take(i as int), lib.sets@),
        decreases items.len() - i,
    {
        let item: &BatchAdd = &items[i];
        assert(items@.take(i + 1).drop_last() =~= items@.take(i as int));
        if let Some(k) = first_set(&lib.sets, item.set_id.as_str()) {
            let _ = add_set(
                list,
                &lib.sets,
                k,
                &item.set_id,
                &item.sha2,
                item.mods,
                &picks[i],
                show,
            );
            added = added + 1;
        }
        i = i + 1;
    }
    assert(items@.take(items@.len() as int) =~= items@);
    added
}

// ---------- editing ----------

/// Overwrites mods and difficulty of an entry; where it plays, gives it back so that it is loaded
/// again.
pub fn queue_set_entry(list: &mut Playlist, qid: u64, mods: u32, sha2: Option<String>) -> (r: Result<
    Option<Track>,
    Refusal,
>)
    requires
        old(list)@.wf(),
    ensures
        final(list)@.wf(),
        final(list)@ == old(list)@.with_entry(qid, mods, sha2),
        match playlist::qid_place(old(list)@.tracks, qid) {
            None => r is Err && r->Err_0 is NoEntry,
            Some(i) => r is Ok && r->Ok_0 == if old(list)@.current() is Some
                && old(list)@.current()->0.qid == qid {
                Some(final(list)@.tracks[i])
            } else {
                None
            },
        },
{
    let now: bool = match list.current() {
        Some(t) => t.qid == qid,
        None => false,
    };
    match list.set_entry(qid, mods, sha2) {
        None => Err(Refusal::NoEntry),
        Some(t) => if now {
            Ok(Some(t))
        } else {
            Ok(None)
        },
    }
}

/// The play list after one entry got the difficulty that is picked, where that can be done.
pub open spec fn repicked(q: Queue, sets: Seq<LazerSet>, c: Choice, qid: u64) -> Option<Queue> {
    match playlist::qid_place(q.tracks, qid) {
        None => None,
        Some(i) => match first_named(sets, q.tracks[i].set_id@) {
            None => None,
            Some(k) => Some(
                q.with_entry(
                    qid,
                    q.tracks[i].mods,
                    Some(sets[k].beatmaps@[chosen(sets, k, c)].sha2),
                ),
            ),
        },
    }
}

/// What came of several such edits.
pub struct Repicks {
    pub q: Queue,
    pub done: nat,
    /// The entry that plays, as it was when it was edited last.
    pub hit: Option<Track>,
}

pub open spec fn repicked_all(
    start: Queue,
    sets: Seq<LazerSet>,
    c: Choice,
    qids: Seq<u64>,
) -> Repicks
    decreases qids.len(),
{
    if qids.len() == 0 {
        Repicks { q: start, done: 0, hit: None }
    } else {
        let before = repicked_all(start, sets, c, qids.drop_last());
        let qid = qids.last();
        match repicked(before.q, sets, c, qid) {
            None => before,
            Some(q) => Repicks {
                q,
                done: before.done + 1,
                hit: if start.current() is Some && start.current()->0.qid == qid {
                    match q.current() {
                        Some(t) => if t.qid == qid {
                            Some(t)
                        } else {
                            None
                        },
                        None => None,
                    }
                } else {
                    before.hit
                },
            },
        }
    }
}

/// Has the difficulty of entries picked anew, for good. Where the one that plays is among them,
/// gives it back so that it is loaded again.
pub fn queue_set_diff(list: &mut Playlist, lib: &LazerLibrary, qids: &Vec<u64>, c: &Choice) -> (r: Result<
    Option<Track>,
    Refusal,
>)
    requires
        playable(lib.sets@),
        c.fits(lib.sets@),
        old(list)@.wf(),
    ensures
        final(list)@.wf(),
        ({
            let all = repicked_all(old(list)@, lib.sets@, *c, qids@);
            &&& final(list)@ == all.q
            &&& if qids@.len() > 0 && all.done == 0 {
                r is Err && r->Err_0 is NothingSet
            } else {
                r == Ok::<Option<Track>, Refusal>(all.hit)
            }
        }),
{
    let ghost start = list@;
    let cur: Option<u64> = match list.current() {
        Some(t) => Some(t.qid),
        None => None,
    };
    let mut hit: Option<Track> = None;
    let mut done: bool = false;
    let mut i: usize = 0;
    assert(qids@.take(0).len() == 0);
    while i < qids.len()
        invariant
            i <= qids@.len(),
            playable(lib.sets@),
            c.fits(lib.sets@),
            list@.wf(),
            cur == match start.current() {
                Some(t) => Some(t.qid),
                None => None,
            },
            list@ == repicked_all(start, lib.sets@, *c, qids@.take(i as int)).q,
            hit == repicked_all(start, lib.sets@, *c, qids@.take(i as int)).hit,
            done == (repicked_all(start, lib.sets@, *c, qids@.take(i as int)).done > 0),
        decreases qids.len() - i,
    {
        assert(qids@.take(i + 1).drop_last() =~= qids@.take(i as int));
        let qid: u64 = qids[i];
        if let Some(track) = list.entry(qid) {
            if let Some(k) = first_set(&lib.sets, track.set_id.as_str()) {
                let sha2: String = choose_diff(&lib.sets, k, c).sha2.clone();
                let _ = list.set_entry(qid, track.mods, Some(sha2));
                done = true;
                if cur == Some(qid) {
                    hit = match list.current() {
                        Some(t) => if t.qid == qid {
                            Some(t)
                        } else {
                            None
                        },
                        None => None,
                    };
                }
            }
        }
        i = i + 1;
    }
    assert(qids@.take(qids@.len() as int) =~= qids@);
    if qids.len() > 0 && !done {
        Err(Refusal::NothingSet)
    } else {
        Ok(hit)
    }
}

/// What is played of a set: what was asked for, and where the list has an entry for it, with the
/// mods and the difficulty of that entry.
pub open spec fn plays_as(
    entry: Option<Track>,
    set_id: Seq<char>,
    sha2: Option<String>,
    t: Track,
) -> bool {
    match entry {
        None => ctl::is_bare(t, set_id, sha2, 0),
        Some(cur) => {
            &&& t.mods == cur.mods
            &&& ctl::is_bare(
                Track { mods: 0, ..t },
                set_id,
                if cur.sha2 is Some {
                    cur.sha2
                } else {
                    sha2
                },
                0,
            )
        },
    }
}

/// Plays a set of the library. Where the play list holds it, its place moves there, and mods and
/// difficulty are those of the entry; nothing is added.
pub fn library_play(list: &mut Playlist, lib: &LazerLibrary, set_id: String, sha2: Option<String>) -> (r:
    Result<Track, Refusal>)
    requires
        old(list)@.wf(),
    ensures
        final(list)@.wf(),
        match r {
            Err(e) => {
                &&& first_named(lib.sets@, set_id@) is None
                &&& e is NoSet
                &&& final(list)@ == old(list)@
            },
            Ok(t) => {
                &&& first_named(lib.sets@, set_id@) is Some
                &&& final(list)@ == old(list)@.aligned(set_id@, sha2)
                &&& plays_as(
                    if playlist::track_place(old(list)@.tracks, set_id@, sha2) is Some {
                        final(list)@.current()
                    } else {
                        None
                    },
                    set_id@,
                    sha2,
                    t,
                )
            },
        },
{
    if first_set(&lib.sets, set_id.as_str()).is_none() {
        return Err(Refusal::NoSet);
    }
    let listed: bool = list.align_current(set_id.clone(), playlist::clone_opt(&sha2));
    let mut t: Track = ctl::bare_track(set_id, sha2, 0);
    if listed {
        if let Some(cur) = list.current() {
            t.mods = cur.mods;
            if cur.sha2.is_some() {
                t.sha2 = cur.sha2;
            }
        }
    }
    Ok(t)
}

/// What skipping does.
#[derive(Debug)]
pub enum Skip {
    Nothing,
    Load { track: Track },
    /// The same track from its beginning.
    Again,
    /// The same, and it plays.
    Replay,
}

/// Skips to the next track. A list that plays one over and over, or is empty, begins it again.
pub open spec fn skipped_on(q: Queue, from_library: bool) -> (Queue, Skip) {
    if !from_library {
        (q, Skip::Nothing)
    } else if q.mode == PlayMode::SingleLoop {
        (q, Skip::Replay)
    } else {
        (
            q.stepped(),
            match q.stepped().current() {
                Some(track) => Skip::Load { track },
                None => Skip::Replay,
            },
        )
    }
}

pub fn skip_next(list: &mut Playlist, from_library: bool) -> (r: Skip)
    requires
        old(list)@.wf(),
    ensures
        final(list)@.wf(),
        final(list)@ == skipped_on(old(list)@, from_library).0,
        r == skipped_on(old(list)@, from_library).1,
{
    if !from_library {
        return Skip::Nothing;
    }
    match list.advance() {
        Some(track) => Skip::Load { track },
        None => Skip::Replay,
    }
}

/// Skips to the track before; what is not of the library, or an empty list, begins again.
pub open spec fn skipped_back(q: Queue, from_library: bool) -> (Queue, Skip) {
    if !from_library {
        (q, Skip::Again)
    } else {
        (
            q.rewound(),
            match q.rewound().current() {
                Some(track) => Skip::Load { track },
                None => Skip::Again,
            },
        )
    }
}

pub fn skip_prev(list: &mut Playlist, from_library: bool) -> (r: Skip)
    requires
        old(list)@.wf(),
    ensures
        final(list)@.wf(),
        final(list)@ == skipped_back(old(list)@, from_library).0,
        r == skipped_back(old(list)@, from_library).1,
{
    if !from_library {
        return Skip::Again;
    }
    match list.rewind() {
        Some(track) => Skip::Load { track },
        None => Skip::Again,
    }
}

/// What beginning again tells the renderer.
pub open spec fn beginning_again(playing: bool) -> Seq<Command> {
    if playing {
        seq![Command::Seek { ms: Single { bits: 0 } }, Command::Resume]
    } else {
        seq![Command::Seek { ms: Single { bits: 0 } }]
    }
}

pub fn again_commands(playing: bool) -> (r: Vec<Command>)
    ensures
        r@ == beginning_again(playing),
{
    if playing {
        vec![Command::Seek { ms: Single { bits: 0 } }, Command::Resume]
    } else {
        vec![Command::Seek { ms: Single { bits: 0 } }]
    }
}

// ---------- the library ----------

/// The library as the user interface gets it.
#[derive(Debug)]
pub struct LibraryPayload {
    pub source: String,
    /// The file that it was read from.
    pub realm_path: Option<String>,
    pub lazer_available: bool,
    pub stable_available: bool,
    pub sets: Vec<LazerSet>,
    pub collections: Vec<LazerCollection>,
}

/// The source that was asked for, else that of the settings.
pub open spec fn source_wanted(asked: Option<String>, s: Settings) -> String {
    match asked {
        Some(a) => a,
        None => s.places.source,
    }
}

pub fn wanted_source(asked: Option<String>, s: &Settings) -> (r: String)
    ensures
        r == source_wanted(asked, *s),
{
    match asked {
        Some(a) => a,
        None => s.places.source.clone(),
    }
}

/// The payload tells the source with the file that it was read from, which sources there are, and
/// what the library holds.
pub open spec fn is_payload(
    source: String,
    realm: Option<String>,
    stable: Option<String>,
    lib: LazerLibrary,
    r: LibraryPayload,
) -> bool {
    &&& r.source == source
    &&& r.lazer_available == (realm is Some)
    &&& r.stable_available == (stable is Some)
    &&& r.sets == lib.sets
    &&& r.collections == lib.collections
    &&& match LibrarySource::named(source@) {
        LibrarySource::Lazer => r.realm_path == realm,
        LibrarySource::Stable => match stable {
            Some(root) => r.realm_path is Some && paths::joined(
                root@,
                "osu!.db"@,
                r.realm_path->0@,
            ),
            None => r.realm_path is None,
        },
    }
}

pub fn library_payload(
    source: String,
    realm: Option<String>,
    stable: Option<String>,
    lib: LazerLibrary,
) -> (r: LibraryPayload)
    ensures
        is_payload(source, realm, stable, lib, r),
{
    let lazer_available: bool = realm.is_some();
    let stable_available: bool = stable.is_some();
    let realm_path: Option<String> = match LibrarySource::parse(source.as_str()) {
        LibrarySource::Lazer => realm,
        LibrarySource::Stable => match stable {
            Some(root) => Some(paths::join(root.as_str(), "osu!.db")),
            None => None,
        },
    };
    LibraryPayload {
        source,
        realm_path,
        lazer_available,
        stable_available,
        sets: lib.sets,
        collections: lib.collections,
    }
}

/// So many covers are kept.
pub const MAX_COVERS: usize = 80;

/// The covers that were read, by set; a set without one is remembered too.
pub struct CoverCache {
    covers: StringHashMap<Option<String>>,
}

impl View for CoverCache {
    type V = Map<Seq<char>, Option<String>>;

    closed spec fn view(&self) -> Map<Seq<char>, Option<String>> {
        self.covers@
    }
}

/// A full cache is emptied first: covers can be read again.
pub open spec fn with_cover(
    m: Map<Seq<char>, Option<String>>,
    set_id: Seq<char>,
    cover: Option<String>,
) -> Map<Seq<char>, Option<String>> {
    if m.len() >= MAX_COVERS {
        Map::<Seq<char>, Option<String>>::empty().insert(set_id, cover)
    } else {
        m.insert(set_id, cover)
    }
}

impl CoverCache {
    pub fn new() -> (r: CoverCache)
        ensures
            r@ == Map::<Seq<char>, Option<String>>::empty(),
    {
        CoverCache { covers: StringHashMap::new() }
    }

    pub fn get(&self, set_id: &str) -> (r: Option<Option<String>>)
        ensures
            match r {
                Some(c) => self@.contains_key(set_id@) && c == self@[set_id@],
                None => !self@.contains_key(set_id@),
            },
    {
        match self.covers.get(set_id) {
            Some(c) => Some(playlist::clone_opt(c)),
            None => None,
        }
    }

    pub fn put(&mut self, set_id: String, cover: Option<String>)
        ensures
            final(self)@ == with_cover(old(self)@, set_id@, cover),
    {
        if self.covers.len() >= MAX_COVERS {
            self.covers.clear();
        }
        self.covers.insert(set_id, cover);
    }

    /// Forgets all.
    pub fn clear(&mut self)
        ensures
            final(self)@ == Map::<Seq<char>, Option<String>>::empty(),
    {
        self.covers.clear();
    }
}

/// There are never more covers than are to be kept, and the one that was put last is there.
pub proof fn law_covers_stay_few(
    m: Map<Seq<char>, Option<String>>,
    set_id: Seq<char>,
    cover: Option<String>,
)
    requires
        m.dom().finite(),
        m.len() <= MAX_COVERS,
    ensures
        with_cover(m, set_id, cover).dom().finite(),
        with_cover(m, set_id, cover).len() <= MAX_COVERS,
        with_cover(m, set_id, cover).contains_key(set_id),
        with_cover(m, set_id, cover)[set_id] == cover,
{
}

/// The rows follow the play list: without a library there is one for each track, in the order in
/// which they are played, and the current track has its mark.
pub proof fn law_rows_follow_tracks(q: Queue, c: Choice, i: int)
    requires
        q.wf(),
        0 <= i < q.playing().len(),
    ensures
        rows(q.playing(), q.current(), None, c).len() == q.playing().len(),
        rows(q.playing(), q.current(), None, c)[i] == plain_item(q.playing()[i], q.current()),
        rows(q.playing(), q.current(), None, c)[i].current <==> i == q.pos,
{
    lemma_plain_rows(q.playing(), q.current(), c);
    let cur = q.order[q.pos] as int;
    let at = q.order[i] as int;
    assert(q.playing()[i] == q.tracks[at]);
    assert(q.current() == Some(q.tracks[cur]));
    if i != q.pos {
        assert(at != cur);
        assert(q.tracks[at].qid != q.tracks[cur].qid);
    }
}

proof fn lemma_plain_rows(tracks: Seq<Track>, current: Option<Track>, c: Choice)
    ensures
        rows(tracks, current, None, c).len() == tracks.len(),
        forall|i: int|
            0 <= i < tracks.len() ==> #[trigger] rows(tracks, current, None, c)[i] == plain_item(
                tracks[i],
                current,
            ),
    decreases tracks.len(),
{
    if tracks.len() > 0 {
        lemma_plain_rows(tracks.drop_last(), current, c);
        assert forall|i: int| 0 <= i < tracks.len() implies #[trigger] rows(
            tracks,
            current,
            None,
            c,
        )[i] == plain_item(tracks[i], current) by {
            if i < tracks.len() - 1 {
                assert(tracks.drop_last()[i] == tracks[i]);
            }
        }
    }
}

/// An entry that was added without a difficulty of its own gets one for good: a later target does
/// not change what it plays.
pub proof fn law_added_entry_is_locked(
    t: Track,
    sets: Seq<LazerSet>,
    k: int,
    set_id: Seq<char>,
    mods: u32,
    pick: Choice,
    show: Choice,
    later: Choice,
)
    requires
        0 <= k < sets.len(),
        playable(sets),
        0 <= chosen(sets, k, pick) < sets[k].beatmaps@.len(),
        is_added(t, sets, k, set_id, None, mods, pick, show),
    ensures
        sets[k].beatmaps@[shown(sets, k, held(t.sha2), later)].sha2@ == sets[k].beatmaps@[chosen(
            sets,
            k,
            pick,
        )].sha2@,
{
    let at = chosen(sets, k, pick);
    let p = ctl::beatmap_named(sets[k].beatmaps@, t.sha2->0@);
    assert(p(at));
    seqs::lemma_least_exists(sets[k].beatmaps@.len() as int, p, at);
}

// ---------- what these say ----------

/// Of a set whose ratings are numbers the hardest difficulty is picked, the easiest or the one
/// nearest to the target, as the policy says, by the distances of that very set.
pub proof fn law_choice_picks_by_policy(sets: Seq<LazerSet>, k: int, c: Choice, i: int)
    requires
        0 <= k < sets.len(),
        0 <= i < sets[k].beatmaps@.len(),
        c.fits(sets),
        forall|j: int|
            0 <= j < sets[k].beatmaps@.len() ==> !(#[trigger] sets[k].beatmaps@[j]).star_rating.nan(),
        c.policy is Custom ==> (forall|j: int|
            0 <= j < c.distances@[k]@.len() ==> !(#[trigger] c.distances@[k]@[j]).nan()),
    ensures
        0 <= chosen(sets, k, c) < sets[k].beatmaps@.len(),
        c.policy == PickPolicy::Hardest ==> sets[k].beatmaps@[i].star_rating.at_most(
            sets[k].beatmaps@[chosen(sets, k, c)].star_rating,
        ),
        c.policy == PickPolicy::Easiest ==> sets[k].beatmaps@[chosen(
            sets,
            k,
            c,
        )].star_rating.at_most(sets[k].beatmaps@[i].star_rating),
        c.policy is Custom ==> c.distances@[k]@[chosen(sets, k, c)].at_most(c.distances@[k]@[i]),
{
    let stars = playlist::stars_of(sets[k]);
    let n = stars.len();
    assert forall|j: int| 0 <= j < n implies !(#[trigger] stars[j]).nan() by {
        assert(!sets[k].beatmaps@[j].star_rating.nan());
    }
    assert(stars[i] == sets[k].beatmaps@[i].star_rating);
    if let PickPolicy::Custom(target) = c.policy {
        assert(c.distances@[k]@.len() == n);
        playlist::law_pick_is_extreme(stars, c.distances@[k]@, target, i);
    } else {
        let d = Seq::new(n, |j: int| Double { bits: 0 });
        playlist::law_pick_is_extreme(stars, d, Double { bits: 0 }, i);
        playlist::law_pick_is_first_best(c.policy, stars, c.at(k), n);
        assert(playlist::deciding(c.policy, stars, c.at(k)) =~= playlist::deciding(
            c.policy,
            stars,
            d,
        ));
    }
}

/// The difficulty that is shown is the one of the name where the set has it, and the one that is
/// picked otherwise.
pub proof fn law_shown_is_the_named(sets: Seq<LazerSet>, k: int, name: Seq<char>, c: Choice, i: int)
    requires
        0 <= k < sets.len(),
    ensures
        0 <= i < sets[k].beatmaps@.len() && sets[k].beatmaps@[i].sha2@ == name ==> sets[k].beatmaps@[shown(
            sets,
            k,
            Some(name),
            c,
        )].sha2@ == name,
        (forall|j: int|
            0 <= j < sets[k].beatmaps@.len() ==> (#[trigger] sets[k].beatmaps@[j]).sha2@ != name)
            ==> shown(sets, k, Some(name), c) == chosen(sets, k, c),
        shown(sets, k, None, c) == chosen(sets, k, c),
{
    let p = ctl::beatmap_named(sets[k].beatmaps@, name);
    let n = sets[k].beatmaps@.len() as int;
    if 0 <= i < n && sets[k].beatmaps@[i].sha2@ == name {
        assert(p(i));
        seqs::lemma_least_exists(n, p, i);
    }
    if forall|j: int| 0 <= j < n ==> (#[trigger] sets[k].beatmaps@[j]).sha2@ != name {
        assert forall|j: int| 0 <= j < n implies !#[trigger] p(j) by {
            assert(sets[k].beatmaps@[j].sha2@ != name);
        }
        seqs::lemma_least_missing(n, p);
    }
}

/// A row tells of its track: its number, its set, its mods, whether a difficulty is fixed for it and
/// whether it plays. Names, stars and length are those of the library where there is one, and what
/// the track knows otherwise.
pub proof fn law_row_tells_of_its_track(
    t: Track,
    cur: Option<Track>,
    sets: Seq<LazerSet>,
    k: int,
    c: Choice,
)
    requires
        0 <= k < sets.len(),
    ensures
        ({
            let r = plain_item(t, cur);
            &&& r.qid == t.qid && r.set_id == t.set_id@ && r.mods == t.mods
            &&& t.sha2 matches Some(s) ==> r.sha2 == s@
            &&& r.locked <==> t.sha2 is Some
            &&& r.title == t.title@ && r.artist == t.artist@ && r.length_ms == t.length_ms
            &&& r.current <==> (cur matches Some(u) && u.qid == t.qid)
        }),
        ({
            let r = full_item(t, cur, sets, k, c);
            let d = sets[k].beatmaps@[shown(sets, k, held(t.sha2), c)];
            &&& r.qid == t.qid && r.set_id == t.set_id@ && r.mods == t.mods
            &&& r.locked <==> t.sha2 is Some
            &&& sets[k].title_unicode@.len() > 0 ==> r.title == sets[k].title_unicode@
            &&& sets[k].artist_unicode@.len() > 0 ==> r.artist == sets[k].artist_unicode@
            &&& r.sha2 == d.sha2@ && r.diff == d.name@ && r.star == d.star_rating && r.length_ms
                == d.length_ms
            &&& r.current <==> (cur matches Some(u) && u.qid == t.qid)
        }),
{
}

/// A row holds in the user interface what it shows.
pub proof fn law_item_shows_its_fields(r: QueueItem)
    ensures
        r@.qid == r.qid && r@.set_id == r.set_id@ && r@.sha2 == r.sha2@ && r@.mods == r.mods,
        r@.locked == r.locked && r@.title == r.title@ && r@.artist == r.artist@ && r@.diff == r.diff@,
        r@.star == r.star && r@.length_ms == r.length_ms && r@.current == r.current,
{
}

/// With a library there is a row for each track whose set it holds, in their order: one more track
/// adds one row behind the others, or none where the library does not hold its set.
pub proof fn law_rows_go_track_by_track(
    tracks: Seq<Track>,
    t: Track,
    cur: Option<Track>,
    lib: LazerLibrary,
    c: Choice,
)
    ensures
        rows(Seq::empty(), cur, Some(lib), c).len() == 0,
        last_named(lib.sets@, t.set_id@) is None ==> rows(tracks.push(t), cur, Some(lib), c) == rows(
            tracks,
            cur,
            Some(lib),
            c,
        ),
        last_named(lib.sets@, t.set_id@) matches Some(k) ==> rows(
            tracks.push(t),
            cur,
            Some(lib),
            c,
        ) == rows(tracks, cur, Some(lib), c).push(full_item(t, cur, lib.sets@, k, c)),
{
    assert(tracks.push(t).drop_last() =~= tracks);
}

/// A set is found by its id: the last of them for the rows, the first of them for adding and
/// playing, and none only where no set has the id.
pub proof fn law_set_is_found_by_id(sets: Seq<LazerSet>, id: Seq<char>, j: int)
    ensures
        match last_named(sets, id) {
            Some(k) => 0 <= k < sets.len() && sets[k].id@ == id && (k < j < sets.len() ==> sets[j].id@
                != id),
            None => 0 <= j < sets.len() ==> sets[j].id@ != id,
        },
        match first_named(sets, id) {
            Some(k) => 0 <= k < sets.len() && sets[k].id@ == id && (0 <= j < k ==> sets[j].id@ != id),
            None => 0 <= j < sets.len() ==> sets[j].id@ != id,
        },
    decreases sets.len(),
{
    let p = ctl::set_named(sets, id);
    seqs::lemma_least(sets.len() as int, p);
    assert(p(j) == (sets[j].id@ == id));
    if sets.len() > 0 && sets.last().id@ != id {
        law_set_is_found_by_id(sets.drop_last(), id, j);
    }
}

/// What is added is the set under its id, with the mods and the difficulty that were asked for, or
/// with the one that is picked; it shows the names of the set and the length of that difficulty.
pub proof fn law_added_set_is_the_one_asked(
    t: Track,
    sets: Seq<LazerSet>,
    k: int,
    set_id: Seq<char>,
    sha2: Option<Seq<char>>,
    mods: u32,
    pick: Choice,
    show: Choice,
    i: int,
)
    requires
        0 <= k < sets.len(),
        is_added(t, sets, k, set_id, sha2, mods, pick, show),
    ensures
        t.set_id@ == set_id && t.mods == mods,
        sha2 matches Some(s) ==> (t.sha2 matches Some(x) && x@ == s),
        sha2 is None ==> (t.sha2 matches Some(x) && x@ == sets[k].beatmaps@[chosen(
            sets,
            k,
            pick,
        )].sha2@),
        t.title@ == ctl::shown_title(sets[k]),
        t.artist@ == ctl::shown_artist(sets[k]),
        0 <= i < sets[k].beatmaps@.len() && sets[k].beatmaps@[i].sha2@ == t.sha2->0@ && (forall|j: int|
            0 <= j < i ==> (#[trigger] sets[k].beatmaps@[j]).sha2@ != t.sha2->0@) ==> t.length_ms
            == sets[k].beatmaps@[i].length_ms,
{
    let name = t.sha2->0@;
    let p = ctl::beatmap_named(sets[k].beatmaps@, name);
    let n = sets[k].beatmaps@.len() as int;
    if 0 <= i < n && sets[k].beatmaps@[i].sha2@ == name && (forall|j: int|
        0 <= j < i ==> (#[trigger] sets[k].beatmaps@[j]).sha2@ != name) {
        assert(p(i));
        assert forall|j: int| 0 <= j < i implies !#[trigger] p(j) by {
            assert(sets[k].beatmaps@[j].sha2@ != name);
        }
        seqs::lemma_least_found(n, p, i);
    }
}

/// The entry that plays is given back only where it is of the set.
pub proof fn law_current_of_a_set(q: Queue, set_id: Seq<char>)
    ensures
        current_of(q, set_id) matches Some(t) ==> q.current() == Some(t) && t.set_id@ == set_id,
        q.current() matches Some(t) ==> (t.set_id@ == set_id ==> current_of(q, set_id) == Some(t)),
        q.current() is None ==> current_of(q, set_id) is None,
{
}

/// Sets are added one by one: one more adds its own track behind what the others made of the list,
/// by its own way of picking, and counts where the library holds it.
pub proof fn law_batch_goes_set_by_set(
    start: Queue,
    items: Seq<BatchAdd>,
    i: BatchAdd,
    picks: Seq<Choice>,
    sets: Seq<LazerSet>,
    show: Choice,
    m: Queue,
    t: Track,
)
    requires
        batch(start, items, picks, sets, show, m),
    ensures
        batch(start, Seq::empty(), picks, sets, show, start),
        held_count(Seq::empty(), sets) == 0,
        first_named(sets, i.set_id@) is None ==> batch(start, items.push(i), picks, sets, show, m)
            && held_count(items.push(i), sets) == held_count(items, sets),
        first_named(sets, i.set_id@) is Some ==> held_count(items.push(i), sets) == held_count(
            items,
            sets,
        ) + 1,
        first_named(sets, i.set_id@) matches Some(k) ==> (is_added(
            t,
            sets,
            k,
            i.set_id@,
            held(i.sha2),
            i.mods,
            picks[items.len() as int],
            show,
        ) ==> batch(start, items.push(i), picks, sets, show, m.with_track(t))),
{
    assert(items.push(i).drop_last() =~= items);
}

/// An entry that is picked anew keeps its mods and its place and gets the difficulty that is picked
/// of its set; no other entry changes. It cannot be done for an entry that is not there, or whose
/// set the library does not hold.
pub proof fn law_entry_is_picked_anew(q: Queue, sets: Seq<LazerSet>, c: Choice, i: int, j: int)
    requires
        q.wf(),
        0 <= i < q.tracks.len(),
        0 <= j < q.tracks.len(),
    ensures
        first_named(sets, q.tracks[i].set_id@) is None ==> repicked(q, sets, c, q.tracks[i].qid) is None,
        first_named(sets, q.tracks[i].set_id@) matches Some(k) ==> {
            let r = repicked(q, sets, c, q.tracks[i].qid);
            &&& r is Some
            &&& r->0.tracks.len() == q.tracks.len()
            &&& r->0.tracks[i] == (Track {
                sha2: Some(sets[k].beatmaps@[chosen(sets, k, c)].sha2),
                ..q.tracks[i]
            })
            &&& i != j ==> r->0.tracks[j] == q.tracks[j]
            &&& r->0.pos == q.pos && r->0.order == q.order && r->0.mode == q.mode
        },
{
    let qid = q.tracks[i].qid;
    let p = |x: int| q.tracks[x].qid == qid;
    assert(p(i));
    assert forall|x: int| 0 <= x < i implies !#[trigger] p(x) by {
        assert(q.tracks[x].qid != q.tracks[i].qid);
    }
    seqs::lemma_least_found(q.tracks.len() as int, p, i);
}

/// Entries are picked anew one by one, and each that could be counts; the one that plays is given
/// back as it then is.
pub proof fn law_repicks_go_entry_by_entry(
    q: Queue,
    sets: Seq<LazerSet>,
    c: Choice,
    qids: Seq<u64>,
    qid: u64,
)
    ensures
        ({
            let before = repicked_all(q, sets, c, qids);
            let after = repicked_all(q, sets, c, qids.push(qid));
            &&& repicked(before.q, sets, c, qid) is None ==> after == before
            &&& repicked(before.q, sets, c, qid) matches Some(r) ==> {
                &&& after.q == r
                &&& after.done == before.done + 1
                &&& q.current() is None || q.current()->0.qid != qid ==> after.hit == before.hit
                &&& q.current() is Some && q.current()->0.qid == qid && r.current() is Some
                    && r.current()->0.qid == qid ==> after.hit == r.current()
            }
        }),
        repicked_all(q, sets, c, Seq::empty()).q == q,
        repicked_all(q, sets, c, Seq::empty()).done == 0,
        repicked_all(q, sets, c, Seq::empty()).hit is None,
{
    assert(qids.push(qid).drop_last() =~= qids);
}

/// Playing a set takes the mods of its entry, and the difficulty of the entry where it has one;
/// without an entry it is what was asked for, without mods.
pub proof fn law_set_plays_as_its_entry(
    entry: Track,
    set_id: Seq<char>,
    sha2: Option<String>,
    t: Track,
)
    ensures
        plays_as(Some(entry), set_id, sha2, t) ==> t.set_id@ == set_id && t.mods == entry.mods && (
        entry.sha2 is Some ==> t.sha2 == entry.sha2) && (entry.sha2 is None ==> t.sha2 == sha2),
        plays_as(None, set_id, sha2, t) ==> t.set_id@ == set_id && t.mods == 0 && t.sha2 == sha2,
{
}

/// Skipping goes one on or one back in the order of the list, from its end to its beginning and the
/// other way. One that is played over and over begins again, and what is not of the library stays.
pub proof fn law_skipping_goes_along_the_list(q: Queue)
    requires
        q.wf(),
        q.tracks.len() > 0,
    ensures
        skipped_on(q, false) == (q, Skip::Nothing),
        skipped_back(q, false) == (q, Skip::Again),
        q.mode == PlayMode::SingleLoop ==> skipped_on(q, true) == (q, Skip::Replay),
        q.mode != PlayMode::SingleLoop && q.pos + 1 < q.tracks.len() ==> skipped_on(q, true) == (
            Queue { pos: q.pos + 1, ..q },
            Skip::Load { track: q.playing()[q.pos + 1] },
        ),
        q.mode == PlayMode::ListOrder && q.pos + 1 == q.tracks.len() ==> skipped_on(q, true) == (
            Queue { pos: 0, ..q },
            Skip::Load { track: q.playing()[0] },
        ),
        q.pos > 0 ==> skipped_back(q, true) == (
            Queue { pos: q.pos - 1, ..q },
            Skip::Load { track: q.playing()[q.pos - 1] },
        ),
        q.pos == 0 ==> skipped_back(q, true) == (
            Queue { pos: q.tracks.len() - 1, ..q },
            Skip::Load { track: q.playing()[q.tracks.len() - 1] },
        ),
{
}

/// In an empty list there is nothing to skip to: what plays begins again.
pub proof fn law_empty_list_begins_again(q: Queue)
    requires
        q.wf(),
        q.tracks.len() == 0,
    ensures
        skipped_on(q, true).1 == Skip::Replay,
        skipped_back(q, true).1 == Skip::Again,
{
}

/// Beginning again goes to the beginning, and plays where that is asked for.
pub proof fn law_beginning_again_goes_to_zero(playing: bool)
    ensures
        beginning_again(playing)[0] == (Command::Seek { ms: Single { bits: 0 } }),
        beginning_again(playing).contains(Command::Resume) <==> playing,
        forall|k: int|
            0 <= k < beginning_again(playing).len() ==> (#[trigger] beginning_again(playing)[k]) is Seek
                || beginning_again(playing)[k] is Resume,
{
    if playing {
        assert(beginning_again(playing)[1] == Command::Resume);
    }
}

/// A cover that was put is the one that is found, and while there are fewer than eighty the others
/// stay.
pub proof fn law_put_cover_is_found(
    m: Map<Seq<char>, Option<String>>,
    id: Seq<char>,
    cover: Option<String>,
    other: Seq<char>,
)
    ensures
        with_cover(m, id, cover).contains_key(id),
        with_cover(m, id, cover)[id] == cover,
        m.len() < 80 && m.contains_key(other) && other != id ==> with_cover(m, id, cover).contains_key(
            other,
        ) && with_cover(m, id, cover)[other] == m[other],
        m.len() >= 80 && other != id ==> !with_cover(m, id, cover).contains_key(other),
{
}

/// A source that is asked for comes before the one that is set.
pub proof fn law_asked_source_comes_first(a: String, s: Settings)
    ensures
        source_wanted(Some(a), s) == a,
        source_wanted(None, s) == s.places.source,
{
}

/// The user interface is told of both games, whichever the library is read from, and of the file
/// that it is read from.
pub proof fn law_payload_tells_of_both_games(
    source: String,
    realm: Option<String>,
    stable: Option<String>,
    lib: LazerLibrary,
    r: LibraryPayload,
)
    requires
        is_payload(source, realm, stable, lib, r),
    ensures
        r.source == source && r.sets == lib.sets && r.collections == lib.collections,
        r.lazer_available <==> realm is Some,
        r.stable_available <==> stable is Some,
        source@ != "stable"@ ==> r.realm_path == realm,
        source@ == "stable"@ ==> (stable matches Some(root) ==> (r.realm_path matches Some(p)
            && paths::joined(root@, "osu!.db"@, p@))),
        source@ == "stable"@ && stable is None ==> r.realm_path is None,
{
}

} // verus!
