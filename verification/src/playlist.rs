//! The play list: single loop, list order and random play.
//!
//! Tracks come only from what the user adds; when one ends the player advances along the play
//! order and loads the next.
use vstd::prelude::*;

use crate::ieee::Double;
use crate::lazer::{LazerBeatmap, LazerLibrary, LazerSet};
use crate::pathcache::CachedDiff;
use crate::seqs;
use crate::settings::SavedTrack;
use crate::text;

verus! {

#[derive(Debug, Clone, Copy, PartialEq, Eq, Structural)]
pub enum PlayMode {
    /// One track over and over; the renderer loops by itself.
    SingleLoop,
    /// The order in which the tracks were added.
    ListOrder,
    /// A shuffled order: no track comes twice before the round is over.
    Random,
}

impl Default for PlayMode {
    fn default() -> (m: PlayMode)
        ensures
            m == PlayMode::ListOrder,
    {
        PlayMode::ListOrder
    }
}

impl PlayMode {
    /// The name under which a mode is stored.
    pub open spec fn name(self) -> Seq<char> {
        match self {
            PlayMode::SingleLoop => "single_loop"@,
            PlayMode::ListOrder => "list_order"@,
            PlayMode::Random => "random"@,
        }
    }

    /// The mode with the given name.
    pub fn parse(s: &str) -> (r: Option<PlayMode>)
        ensures
            match r {
                Some(m) => s@ == m.name(),
                None => forall|m: PlayMode| s@ != #[trigger] m.name(),
            },
    {
        if text::same(s, "single_loop") {
            Some(PlayMode::SingleLoop)
        } else if text::same(s, "list_order") {
            Some(PlayMode::ListOrder)
        } else if text::same(s, "random") {
            Some(PlayMode::Random)
        } else {
            None
        }
    }
}

/// A track of the play list: a beatmap set, the difficulty where the user picked one, and a number
/// that tells entries apart. With no difficulty the entry stands for the whole set, and the
/// difficulty is resolved when it is played.
#[derive(Debug)]
pub struct Track {
    pub set_id: String,
    pub sha2: Option<String>,
    pub qid: u64,
    /// Bits of osu! mods, chosen when the track was added.
    pub mods: u32,
    /// What the list shows before the library is parsed.
    pub title: String,
    pub artist: String,
    pub length_ms: Double,
}

impl Clone for Track {
    fn clone(&self) -> (r: Track)
        ensures
            r == *self,
    {
        Track {
            set_id: self.set_id.clone(),
            sha2: clone_opt(&self.sha2),
            qid: self.qid,
            mods: self.mods,
            title: self.title.clone(),
            artist: self.artist.clone(),
            length_ms: self.length_ms,
        }
    }
}

pub(crate) fn clone_opt(s: &Option<String>) -> (r: Option<String>)
    ensures
        r == *s,
{
    match s {
        Some(x) => Some(x.clone()),
        None => None,
    }
}

impl Track {
    /// The same set, and not two different difficulties: an entry for a whole set matches each of
    /// its difficulties.
    pub open spec fn same(self, other: Track) -> bool {
        self.is_song(other.set_id@, other.sha2)
    }

    /// Stands for this difficulty of this set, or for the whole set, or for any of its
    /// difficulties where none is given.
    pub open spec fn is_song(self, set_id: Seq<char>, sha2: Option<String>) -> bool {
        &&& self.set_id@ == set_id
        &&& match (self.sha2, sha2) {
            (Some(a), Some(b)) => a@ == b@,
            _ => true,
        }
    }

    /// The same song as `other`, whatever the two entries' numbers.
    pub fn same_song(&self, other: &Track) -> (r: bool)
        ensures
            r == self.same(*other),
    {
        self.set_id == other.set_id && match (&self.sha2, &other.sha2) {
            (Some(a), Some(b)) => *a == *b,
            _ => true,
        }
    }
}

/// A play list as a mathematical value.
#[verifier::ext_equal]
pub struct Queue {
    pub mode: PlayMode,
    /// In the order in which they were added.
    pub tracks: Seq<Track>,
    /// The play order: indices into `tracks`.
    pub order: Seq<usize>,
    /// The place in `order` of the current track.
    pub pos: int,
    pub rng: u64,
    pub next_qid: u64,
}

/// The indices `0 .. n` in their order.
pub open spec fn identity(n: nat) -> Seq<usize> {
    Seq::new(n, |i: int| i as usize)
}

/// Each of `0 .. n` once.
pub open spec fn is_order(order: Seq<usize>, n: nat) -> bool {
    &&& order.len() == n
    &&& forall|i: int| 0 <= i < n ==> #[trigger] order[i] < n
    &&& forall|i: int, j: int|
        0 <= i < n && 0 <= j < n && i != j ==> #[trigger] order[i] != #[trigger] order[j]
}

pub open spec fn swapped(s: Seq<usize>, i: int, j: int) -> Seq<usize> {
    s.update(i, s[j]).update(j, s[i])
}

/// The state of the random numbers after one draw.
pub open spec fn rng_step(r: u64) -> u64 {
    let a = r ^ (r >> 12);
    let b = a ^ (a << 25);
    b ^ (b >> 27)
}

/// The number that is drawn in state `r`.
pub open spec fn rng_draw(r: u64) -> u64 {
    vstd::wrapping::u64_specs::wrapping_mul(rng_step(r), 0x2545F4914F6CDD1D)
}

/// The places `i, i - 1, .. 1` exchanged, each with one drawn from those up to it.
pub open spec fn mixed(order: Seq<usize>, i: int, rng: u64) -> (Seq<usize>, u64)
    decreases i,
{
    if i <= 0 {
        (order, rng)
    } else {
        mixed(swapped(order, i, ((rng_draw(rng) as usize) as int) % (i + 1)), i - 1, rng_step(rng))
    }
}

/// A shuffled order of the tracks that does not begin with `avoid` where another entry stands
/// second, and the state of the random numbers after it.
pub open spec fn shuffle(tracks: Seq<Track>, rng: u64, avoid: Option<Track>) -> (Seq<usize>, u64) {
    let n = tracks.len();
    let (order, r) = mixed(identity(n), n - 1, rng);
    if n > 1 && avoid is Some && tracks[order[0] as int].same(avoid->0) {
        (swapped(order, 0, 1), r)
    } else {
        (order, r)
    }
}

/// The first place in the play order of a track that is the same song as `t`.
pub open spec fn song_place(tracks: Seq<Track>, order: Seq<usize>, t: Track) -> Option<int> {
    seqs::least(order.len() as int, |i: int| tracks[order[i] as int].same(t))
}

/// The first track of the set.
pub open spec fn set_place(tracks: Seq<Track>, set_id: Seq<char>) -> Option<int> {
    seqs::least(tracks.len() as int, |i: int| tracks[i].set_id@ == set_id)
}

/// The entry with the given number.
pub open spec fn qid_place(tracks: Seq<Track>, qid: u64) -> Option<int> {
    seqs::least(tracks.len() as int, |i: int| tracks[i].qid == qid)
}

/// The first track that is this song.
pub open spec fn track_place(tracks: Seq<Track>, set_id: Seq<char>, sha2: Option<String>) -> Option<int> {
    seqs::least(tracks.len() as int, |i: int| tracks[i].is_song(set_id, sha2))
}

/// The first place at which the play order names the track `k`.
pub open spec fn order_place(order: Seq<usize>, k: int) -> Option<int> {
    seqs::least(order.len() as int, names(order, k))
}

/// The property of the places at which the order names `k`.
pub open spec fn names(order: Seq<usize>, k: int) -> spec_fn(int) -> bool {
    |i: int| order[i] == k
}

pub open spec fn or_zero(o: Option<int>) -> int {
    match o {
        Some(i) => i,
        None => 0,
    }
}

/// Where an index goes when the item at `from` moves to `to`.
pub open spec fn shifted(o: int, from: int, to: int) -> int {
    if o == from {
        to
    } else if from < o <= to {
        o - 1
    } else if to <= o < from {
        o + 1
    } else {
        o
    }
}

/// Where an index goes when the item at `k` leaves.
pub open spec fn closed_up(o: usize, k: int) -> usize {
    if o > k {
        (o - 1) as usize
    } else {
        o
    }
}

/// The sets of the library hold one with this id.
pub open spec fn in_library(lib: LazerLibrary, set_id: Seq<char>) -> bool {
    exists|i: int| 0 <= i < lib.sets@.len() && #[trigger] lib.sets@[i].id@ == set_id
}

impl Queue {
    /// What holds of every play list: the order names each track once (in list order it is the
    /// order of adding), the place is one of it, and no two entries share a number.
    pub open spec fn wf(self) -> bool {
        &&& is_order(self.order, self.tracks.len())
        &&& self.mode != PlayMode::Random ==> self.order == identity(self.tracks.len())
        &&& 0 <= self.pos
        &&& self.pos < self.order.len() || (self.order.len() == 0 && self.pos == 0)
        &&& forall|i: int, j: int|
            0 <= i < self.tracks.len() && 0 <= j < self.tracks.len() && i != j
                ==> #[trigger] self.tracks[i].qid != #[trigger] self.tracks[j].qid
        &&& forall|i: int|
            0 <= i < self.tracks.len() ==> #[trigger] self.tracks[i].qid < self.next_qid
        &&& self.tracks.len() <= usize::MAX
    }

    /// The track at the place.
    pub open spec fn current(self) -> Option<Track> {
        if self.order.len() == 0 {
            None
        } else {
            Some(self.tracks[self.order[self.pos] as int])
        }
    }

    /// The tracks in the order in which they are played.
    pub open spec fn playing(self) -> Seq<Track> {
        Seq::new(self.order.len(), |i: int| self.tracks[self.order[i] as int])
    }

    pub open spec fn with_mode(self, mode: PlayMode) -> Queue {
        let (order, rng) = if mode == PlayMode::Random {
            shuffle(self.tracks, self.rng, None)
        } else {
            (identity(self.tracks.len()), self.rng)
        };
        let pos = match self.current() {
            Some(t) => or_zero(song_place(self.tracks, order, t)),
            None => 0,
        };
        Queue { mode, order, rng, pos, ..self }
    }

    /// The entry of the set is overwritten in its place, and a new one comes last.
    pub open spec fn with_track(self, t: Track) -> Queue {
        match set_place(self.tracks, t.set_id@) {
            Some(i) => Queue {
                tracks: self.tracks.update(
                    i,
                    (Track { set_id: self.tracks[i].set_id, qid: self.tracks[i].qid, ..t }),
                ),
                ..self
            },
            None => Queue {
                tracks: self.tracks.push((Track { qid: self.next_qid, ..t })),
                order: self.order.push(self.tracks.len() as usize),
                next_qid: (self.next_qid + 1) as u64,
                ..self
            },
        }
    }

    pub open spec fn with_entry(self, qid: u64, mods: u32, sha2: Option<String>) -> Queue {
        match qid_place(self.tracks, qid) {
            Some(i) => Queue {
                tracks: self.tracks.update(i, (Track { mods, sha2, ..self.tracks[i] })),
                ..self
            },
            None => self,
        }
    }

    /// The entries with these numbers get the mods.
    pub open spec fn with_mods(self, qids: Seq<u64>, mods: u32) -> Queue {
        Queue {
            tracks: Seq::new(
                self.tracks.len(),
                |i: int|
                    if qids.contains(self.tracks[i].qid) {
                        Track { mods, ..self.tracks[i] }
                    } else {
                        self.tracks[i]
                    },
            ),
            ..self
        }
    }

    /// The entry leaves the tracks and the order. The place stays with the current track; where
    /// that one left, it falls to the one after it, or to the last.
    pub open spec fn without(self, qid: u64) -> Queue {
        match qid_place(self.tracks, qid) {
            Some(k) => {
                let at = or_zero(order_place(self.order, k));
                let left = self.order.remove(at);
                let pos = if at < self.pos { self.pos - 1 } else { self.pos };
                Queue {
                    tracks: self.tracks.remove(k),
                    order: Seq::new(left.len(), |i: int| closed_up(left[i], k)),
                    pos: if pos < left.len() {
                        pos
                    } else if left.len() == 0 {
                        0
                    } else {
                        left.len() - 1
                    },
                    ..self
                }
            },
            None => self,
        }
    }

    pub open spec fn cleared(self) -> Queue {
        Queue { tracks: Seq::empty(), order: Seq::empty(), pos: 0, ..self }
    }

    /// The stored tracks in their order, with numbers from the next free one on.
    pub open spec fn restored(self, saved: Seq<SavedTrack>, pos: int, mode: PlayMode) -> Queue {
        let n = saved.len();
        Queue {
            mode,
            tracks: Seq::new(n, |i: int| track_of(saved[i], (self.next_qid + i) as u64)),
            order: identity(n),
            pos: if n == 0 {
                0
            } else if pos < n {
                pos
            } else {
                n - 1
            },
            next_qid: (self.next_qid + n) as u64,
            ..self
        }
    }

    pub open spec fn with_meta(self, probe: Track, title: String, artist: String, length_ms: Double) -> Queue {
        Queue {
            tracks: Seq::new(
                self.tracks.len(),
                |i: int|
                    if self.tracks[i].same(probe) {
                        Track { title, artist, length_ms, ..self.tracks[i] }
                    } else {
                        self.tracks[i]
                    },
            ),
            ..self
        }
    }

    /// Only the tracks whose set the library holds stay, in list order; the place goes to the
    /// current song where it stays, else to the first.
    pub open spec fn pruned(self, lib: LazerLibrary) -> Queue {
        let tracks = self.tracks.filter(|t: Track| in_library(lib, t.set_id@));
        Queue {
            tracks,
            order: identity(tracks.len()),
            pos: match self.current() {
                Some(t) => if in_library(lib, t.set_id@) {
                    or_zero(track_place(tracks, t.set_id@, t.sha2))
                } else {
                    0
                },
                None => 0,
            },
            ..self
        }
    }

    /// The place goes to the first track that is the same song, if there is one.
    pub open spec fn aligned(self, set_id: Seq<char>, sha2: Option<String>) -> Queue {
        match track_place(self.tracks, set_id, sha2) {
            Some(k) => Queue { pos: or_zero(order_place(self.order, k)), ..self },
            None => self,
        }
    }

    /// The track at `from` moves to `to`. A shuffled order goes on naming the same tracks; the
    /// list order is that of the tracks. The place follows the current song.
    pub open spec fn reordered(self, from: int, to: int) -> Queue {
        if from == to || from >= self.tracks.len() || to >= self.tracks.len() {
            self
        } else {
            let tracks = self.tracks.remove(from).insert(to, self.tracks[from]);
            let order = if self.mode == PlayMode::Random {
                Seq::new(self.order.len(), |i: int| shifted(self.order[i] as int, from, to) as usize)
            } else {
                identity(tracks.len())
            };
            let pos = match self.current() {
                Some(t) => or_zero(song_place(tracks, order, t)),
                None => 0,
            };
            Queue { tracks, order, pos, ..self }
        }
    }

    /// One step along the order; behind its end a random list is shuffled anew and the others
    /// begin again.
    pub open spec fn stepped(self) -> Queue {
        if self.order.len() == 0 {
            self
        } else if self.pos + 1 < self.order.len() {
            Queue { pos: self.pos + 1, ..self }
        } else if self.mode == PlayMode::Random {
            let (order, rng) = shuffle(
                self.tracks,
                self.rng,
                Some(self.tracks[self.order.last() as int]),
            );
            Queue { pos: 0, order, rng, ..self }
        } else {
            Queue { pos: 0, ..self }
        }
    }

    /// One step back along the order, from its beginning to its end.
    pub open spec fn rewound(self) -> Queue {
        if self.order.len() == 0 {
            self
        } else if self.pos == 0 {
            Queue { pos: self.order.len() - 1, ..self }
        } else {
            Queue { pos: self.pos - 1, ..self }
        }
    }
}

/// The entry that a stored track becomes.
pub open spec fn track_of(s: SavedTrack, qid: u64) -> Track {
    Track {
        set_id: s.set_id,
        sha2: s.sha2,
        qid,
        mods: s.mods,
        title: s.title,
        artist: s.artist,
        length_ms: s.length_ms,
    }
}

#[derive(Debug)]
pub struct Playlist {
    mode: PlayMode,
    tracks: Vec<Track>,
    order: Vec<usize>,
    pos: usize,
    rng: u64,
    next_qid: u64,
}

impl View for Playlist {
    type V = Queue;

    closed spec fn view(&self) -> Queue {
        Queue {
            mode: self.mode,
            tracks: self.tracks@,
            order: self.order@,
            pos: self.pos as int,
            rng: self.rng,
            next_qid: self.next_qid,
        }
    }
}

fn identity_order(n: usize) -> (r: Vec<usize>)
    ensures
        r@ == identity(n as nat),
{
    let mut r: Vec<usize> = Vec::new();
    let mut i: usize = 0;
    while i < n
        invariant
            i <= n,
            r@ == identity(i as nat),
        decreases n - i,
    {
        r.push(i);
        i = i + 1;
        assert(r@ =~= identity(i as nat));
    }
    r
}

impl Playlist {
    /// An empty list whose random numbers start from the time, where there is one, and the process.
    pub fn seeded(nanos: Option<u64>, pid: u32) -> (p: Playlist)
        ensures
            p@.wf(),
            p@.mode == PlayMode::ListOrder,
            p@.tracks.len() == 0,
            p@.rng == ((match nanos {
                Some(n) => n,
                None => 0x9E3779B97F4A7C15,
            }) ^ ((pid as u64) << 32)) | 1,
            p@.next_qid == 1,
    {
        let time: u64 = match nanos {
            Some(n) => n,
            None => 0x9E3779B97F4A7C15,
        };
        Playlist::new(time ^ ((pid as u64) << 32))
    }

    /// An empty list in list order; the random numbers start from the seed.
    pub fn new(seed: u64) -> (p: Playlist)
        ensures
            p@ == (Queue {
                mode: PlayMode::ListOrder,
                tracks: Seq::empty(),
                order: Seq::empty(),
                pos: 0,
                rng: seed | 1,
                next_qid: 1,
            }),
            p@.wf(),
    {
        let p = Playlist {
            mode: PlayMode::ListOrder,
            tracks: Vec::new(),
            order: Vec::new(),
            pos: 0,
            rng: seed | 1,
            next_qid: 1,
        };
        assert(p@.order =~= identity(0));
        p
    }

    pub fn mode(&self) -> (m: PlayMode)
        ensures
            m == self@.mode,
    {
        self.mode
    }

    fn next_rand(&mut self) -> (r: u64)
        ensures
            r == rng_draw(old(self)@.rng),
            final(self)@ == (Queue { rng: rng_step(old(self)@.rng), ..old(self)@ }),
    {
        self.rng = self.rng ^ (self.rng >> 12);
        self.rng = self.rng ^ (self.rng << 25);
        self.rng = self.rng ^ (self.rng >> 27);
        self.rng.wrapping_mul(0x2545F4914F6CDD1D)
    }

    /// A shuffled order of the tracks that does not begin with `avoid_first` where another entry
    /// stands second.
    fn shuffled(&mut self, avoid_first: Option<&Track>) -> (order: Vec<usize>)
        ensures
            ({
                let avoid = match avoid_first {
                    Some(t) => Some(*t),
                    None => None,
                };
                let (o, r) = shuffle(old(self)@.tracks, old(self)@.rng, avoid);
                &&& order@ == o
                &&& final(self)@ == (Queue { rng: r, ..old(self)@ })
            }),
            is_order(order@, old(self)@.tracks.len()),
            avoid_first is None && order@.len() > 1 ==> order@.last() == (rng_draw(
                old(self)@.rng,
            ) as usize as int) % (order@.len() as int),
    {
        proof {
            if self@.tracks.len() > 1 {
                assert(self.tracks.len() == self.tracks@.len());
                law_shuffle_is_drawn(self@.tracks, self@.rng);
            }
        }
        let n: usize = self.tracks.len();
        let mut order: Vec<usize> = identity_order(n);
        if n > 1 {
            let mut i: usize = n - 1;
            while i > 0
                invariant
                    0 <= i < n == self@.tracks.len(),
                    is_order(order@, n as nat),
                    self@ == (Queue { rng: self@.rng, ..old(self)@ }),
                    mixed(order@, i as int, self@.rng) == mixed(
                        identity(n as nat),
                        n - 1,
                        old(self)@.rng,
                    ),
                decreases i,
            {
                let j: usize = (self.next_rand() as usize) % (i + 1);
                let a: usize = order[i];
                let b: usize = order[j];
                let ghost before = order@;
                order[i] = b;
                order[j] = a;
                assert(order@ =~= swapped(before, i as int, j as int));
                i = i - 1;
            }
            if let Some(t) = avoid_first {
                if self.tracks[order[0]].same_song(t) {
                    let a: usize = order[0];
                    let b: usize = order[1];
                    let ghost before = order@;
                    order[0] = b;
                    order[1] = a;
                    assert(order@ =~= swapped(before, 0, 1));
                }
            }
        }
        order
    }

    /// The first place in the play order of the same song as `t`, or zero.
    fn song_position(&self, t: &Track) -> (r: usize)
        requires
            is_order(self@.order, self@.tracks.len()),
        ensures
            r == or_zero(song_place(self@.tracks, self@.order, *t)),
            r < self@.order.len() || r == 0,
    {
        let ghost p = |i: int| self@.tracks[self@.order[i] as int].same(*t);
        let mut i: usize = 0;
        while i < self.order.len()
            invariant
                i <= self@.order.len(),
                is_order(self@.order, self@.tracks.len()),
                p == (|i: int| self@.tracks[self@.order[i] as int].same(*t)),
                forall|j: int| 0 <= j < i ==> !#[trigger] p(j),
            decreases self.order.len() - i,
        {
            if self.tracks[self.order[i]].same_song(t) {
                assert(p(i as int));
                proof {
                    seqs::lemma_least_found(self@.order.len() as int, p, i as int);
                }
                return i;
            }
            assert(!p(i as int));
            i = i + 1;
        }
        proof {
            seqs::lemma_least_missing(self@.order.len() as int, p);
        }
        0
    }

    /// The mode changes, and no track comes or goes. A random list is shuffled anew, the others
    /// go back to the order of adding; the place stays with the current song.
    pub fn set_mode(&mut self, mode: PlayMode)
        requires
            old(self)@.wf(),
        ensures
            final(self)@ == old(self)@.with_mode(mode),
            final(self)@.wf(),
    {
        let current: Option<Track> = self.current();
        let order: Vec<usize> = if mode == PlayMode::Random {
            self.shuffled(None)
        } else {
            identity_order(self.tracks.len())
        };
        self.mode = mode;
        self.order = order;
        self.pos = match &current {
            Some(t) => self.song_position(t),
            None => 0,
        };
    }

    fn set_position(&self, set_id: &String) -> (r: Option<usize>)
        ensures
            match r {
                Some(i) => set_place(self@.tracks, set_id@) == Some(i as int) && i
                    < self@.tracks.len() && self@.tracks[i as int].set_id@ == set_id@,
                None => set_place(self@.tracks, set_id@) is None,
            },
    {
        let ghost p = |i: int| self@.tracks[i].set_id@ == set_id@;
        let mut i: usize = 0;
        while i < self.tracks.len()
            invariant
                i <= self@.tracks.len(),
                p == (|i: int| self@.tracks[i].set_id@ == set_id@),
                forall|j: int| 0 <= j < i ==> !#[trigger] p(j),
            decreases self.tracks.len() - i,
        {
            if self.tracks[i].set_id == *set_id {
                assert(p(i as int));
                proof {
                    seqs::lemma_least_found(self@.tracks.len() as int, p, i as int);
                }
                return Some(i);
            }
            assert(!p(i as int));
            i = i + 1;
        }
        proof {
            seqs::lemma_least_missing(self@.tracks.len() as int, p);
        }
        None
    }

    fn qid_position(&self, qid: u64) -> (r: Option<usize>)
        ensures
            match r {
                Some(i) => qid_place(self@.tracks, qid) == Some(i as int) && i < self@.tracks.len()
                    && self@.tracks[i as int].qid == qid,
                None => qid_place(self@.tracks, qid) is None && forall|j: int|
                    0 <= j < self@.tracks.len() ==> #[trigger] self@.tracks[j].qid != qid,
            },
    {
        let ghost p = |i: int| self@.tracks[i].qid == qid;
        let mut i: usize = 0;
        while i < self.tracks.len()
            invariant
                i <= self@.tracks.len(),
                p == (|i: int| self@.tracks[i].qid == qid),
                forall|j: int| 0 <= j < i ==> !#[trigger] p(j),
            decreases self.tracks.len() - i,
        {
            if self.tracks[i].qid == qid {
                assert(p(i as int));
                proof {
                    seqs::lemma_least_found(self@.tracks.len() as int, p, i as int);
                }
                return Some(i);
            }
            assert(!p(i as int));
            i = i + 1;
        }
        proof {
            seqs::lemma_least_missing(self@.tracks.len() as int, p);
            assert forall|j: int| 0 <= j < self@.tracks.len() implies #[trigger] self@.tracks[j].qid
                != qid by {
                assert(!p(j));
            }
        }
        None
    }

    fn track_position(&self, t: &Track) -> (r: Option<usize>)
        ensures
            match r {
                Some(i) => track_place(self@.tracks, t.set_id@, t.sha2) == Some(i as int) && i
                    < self@.tracks.len(),
                None => track_place(self@.tracks, t.set_id@, t.sha2) is None,
            },
    {
        let ghost p = |i: int| self@.tracks[i].is_song(t.set_id@, t.sha2);
        let mut i: usize = 0;
        while i < self.tracks.len()
            invariant
                i <= self@.tracks.len(),
                p == (|i: int| self@.tracks[i].is_song(t.set_id@, t.sha2)),
                forall|j: int| 0 <= j < i ==> !#[trigger] p(j),
            decreases self.tracks.len() - i,
        {
            if self.tracks[i].same_song(t) {
                assert(p(i as int));
                proof {
                    seqs::lemma_least_found(self@.tracks.len() as int, p, i as int);
                }
                return Some(i);
            }
            assert(!p(i as int));
            i = i + 1;
        }
        proof {
            seqs::lemma_least_missing(self@.tracks.len() as int, p);
        }
        None
    }

    fn order_position(&self, k: usize) -> (r: usize)
        requires
            is_order(self@.order, self@.tracks.len()),
            k < self@.tracks.len(),
        ensures
            r < self@.order.len(),
            self@.order[r as int] == k,
            order_place(self@.order, k as int) == Some(r as int),
    {
        let ghost target = k as int;
        let ghost p = names(self@.order, target);
        let mut i: usize = 0;
        while i < self.order.len()
            invariant
                i <= self@.order.len(),
                target == k,
                p == names(self@.order, target),
                forall|j: int| 0 <= j < i ==> !#[trigger] p(j),
            decreases self.order.len() - i,
        {
            if self.order[i] == k {
                assert(p(i as int));
                proof {
                    seqs::lemma_least_found(self@.order.len() as int, p, i as int);
                }
                return i;
            }
            assert(!p(i as int));
            i = i + 1;
        }
        proof {
            lemma_order_covers(self@.order, self@.tracks.len(), k as int);
            let c = choose|c: int| 0 <= c < self@.order.len() && #[trigger] self@.order[c] == k;
            assert(!p(c));
        }
        0
    }

    /// The track at the place.
    pub fn current(&self) -> (r: Option<Track>)
        requires
            self@.wf(),
        ensures
            r == self@.current(),
    {
        if self.order.len() == 0 {
            None
        } else {
            Some(self.tracks[self.order[self.pos]].clone())
        }
    }

    /// Adds a track at the end, or overwrites in its place the entry of the same set: what was
    /// picked, the mods and what the list shows. Says whether the track is a new one.
    pub fn add(
        &mut self,
        set_id: String,
        sha2: Option<String>,
        mods: u32,
        title: String,
        artist: String,
        length_ms: Double,
    ) -> (new: bool)
        requires
            old(self)@.wf(),
            old(self)@.next_qid < u64::MAX,
            old(self)@.tracks.len() < usize::MAX,
        ensures
            new == (set_place(old(self)@.tracks, set_id@) is None),
            final(self)@ == old(self)@.with_track(
                (Track { set_id, sha2, qid: 0, mods, title, artist, length_ms }),
            ),
            final(self)@.wf(),
    {
        match self.set_position(&set_id) {
            Some(i) => {
                let t: Track = Track {
                    set_id: self.tracks[i].set_id.clone(),
                    sha2,
                    qid: self.tracks[i].qid,
                    mods,
                    title,
                    artist,
                    length_ms,
                };
                self.tracks[i] = t;
                false
            },
            None => {
                let qid: u64 = self.next_qid;
                self.next_qid = qid + 1;
                self.order.push(self.tracks.len());
                self.tracks.push(Track { set_id, sha2, qid, mods, title, artist, length_ms });
                proof {
                    if self@.mode != PlayMode::Random {
                        assert(self@.order =~= identity(self@.tracks.len()));
                    }
                }
                true
            },
        }
    }

    /// The entry with a number.
    pub fn entry(&self, qid: u64) -> (r: Option<Track>)
        ensures
            r == match qid_place(self@.tracks, qid) {
                Some(i) => Some(self@.tracks[i]),
                None => None,
            },
    {
        match self.qid_position(qid) {
            Some(i) => Some(self.tracks[i].clone()),
            None => None,
        }
    }

    /// Overwrites the mods and the picked difficulty of an entry and gives it back.
    pub fn set_entry(&mut self, qid: u64, mods: u32, sha2: Option<String>) -> (r: Option<Track>)
        requires
            old(self)@.wf(),
        ensures
            final(self)@ == old(self)@.with_entry(qid, mods, sha2),
            final(self)@.wf(),
            r == match qid_place(old(self)@.tracks, qid) {
                Some(i) => Some(final(self)@.tracks[i]),
                None => None,
            },
    {
        match self.qid_position(qid) {
            Some(i) => {
                let t: Track = Track {
                    set_id: self.tracks[i].set_id.clone(),
                    sha2,
                    qid: self.tracks[i].qid,
                    mods,
                    title: self.tracks[i].title.clone(),
                    artist: self.tracks[i].artist.clone(),
                    length_ms: self.tracks[i].length_ms,
                };
                self.tracks[i] = t;
                Some(self.tracks[i].clone())
            },
            None => None,
        }
    }

    /// Gives the mods to the entries with these numbers; what was picked stays. Gives back the
    /// current track where it is one of them.
    pub fn set_mods_batch(&mut self, qids: &Vec<u64>, mods: u32) -> (r: Option<Track>)
        requires
            old(self)@.wf(),
        ensures
            final(self)@ == old(self)@.with_mods(qids@, mods),
            final(self)@.wf(),
            r == match old(self)@.current() {
                Some(t) => if qids@.contains(t.qid) {
                    final(self)@.current()
                } else {
                    None
                },
                None => None,
            },
    {
        let ghost start = self@;
        let mut k: usize = 0;
        while k < self.tracks.len()
            invariant
                k <= self@.tracks.len() == start.tracks.len(),
                start == old(self)@,
                self@ == (Queue { tracks: self@.tracks, ..start }),
                forall|i: int|
                    0 <= i < k ==> #[trigger] self@.tracks[i] == start.with_mods(
                        qids@,
                        mods,
                    ).tracks[i],
                forall|i: int| k <= i < start.tracks.len() ==> #[trigger] self@.tracks[i] == start.tracks[i],
            decreases self.tracks.len() - k,
        {
            if has_qid(qids, self.tracks[k].qid) {
                let mut t: Track = self.tracks[k].clone();
                t.mods = mods;
                self.tracks[k] = t;
            }
            k = k + 1;
        }
        assert(self@.tracks =~= start.with_mods(qids@, mods).tracks);
        match self.current() {
            Some(t) => {
                if has_qid(qids, t.qid) {
                    Some(t)
                } else {
                    None
                }
            },
            None => None,
        }
    }

    /// Takes an entry out. Where it was the current one the place falls to the next.
    pub fn remove(&mut self, qid: u64)
        requires
            old(self)@.wf(),
        ensures
            final(self)@ == old(self)@.without(qid),
            final(self)@.wf(),
    {
        let k: usize = match self.qid_position(qid) {
            Some(k) => k,
            None => {
                return;
            },
        };
        let at: usize = self.order_position(k);
        let ghost start = self@;
        let ghost left = start.order.remove(at as int);
        self.tracks.remove(k);
        let _ = self.order.remove(at);
        let mut i: usize = 0;
        while i < self.order.len()
            invariant
                i <= self@.order.len() == left.len(),
                left == start.order.remove(at as int),
                is_order(start.order, start.tracks.len()),
                at < start.order.len(),
                start.order[at as int] == k,
                self@ == (Queue { tracks: start.tracks.remove(k as int), order: self@.order, ..start }),
                forall|j: int| 0 <= j < i ==> #[trigger] self@.order[j] == closed_up(left[j], k as int),
                forall|j: int| i <= j < left.len() ==> #[trigger] self@.order[j] == left[j],
            decreases self.order.len() - i,
        {
            let o: usize = self.order[i];
            if o > k {
                self.order[i] = o - 1;
            }
            i = i + 1;
        }
        if at < self.pos {
            self.pos = self.pos - 1;
        }
        if self.pos >= self.order.len() {
            if self.order.len() == 0 {
                self.pos = 0;
            } else {
                self.pos = self.order.len() - 1;
            }
        }
        proof {
            assert(self@.order =~= start.without(qid).order);
            assert forall|i: int, j: int|
                0 <= i < self@.order.len() && 0 <= j < self@.order.len() && i != j implies #[trigger] self@.order[i]
                != #[trigger] self@.order[j] by {
                let a = if i < at { i } else { i + 1 };
                let b = if j < at { j } else { j + 1 };
                assert(left[i] == start.order[a]);
                assert(left[j] == start.order[b]);
                assert(start.order[a] != start.order[b]);
                assert(start.order[a] != start.order[at as int]);
                assert(start.order[b] != start.order[at as int]);
            }
            assert forall|i: int| 0 <= i < self@.order.len() implies #[trigger] self@.order[i]
                < self@.tracks.len() by {
                let a = if i < at { i } else { i + 1 };
                assert(left[i] == start.order[a]);
                assert(start.order[a] != start.order[at as int]);
            }
            if self@.mode != PlayMode::Random {
                assert(at == k) by {
                    assert(start.order[at as int] == at);
                }
                assert(self@.order =~= identity(self@.tracks.len()));
            }
            assert forall|i: int, j: int|
                0 <= i < self@.tracks.len() && 0 <= j < self@.tracks.len() && i != j implies #[trigger] self@.tracks[i].qid
                != #[trigger] self@.tracks[j].qid by {
                let a = if i < k { i } else { i + 1 };
                let b = if j < k { j } else { j + 1 };
                assert(self@.tracks[i] == start.tracks[a]);
                assert(self@.tracks[j] == start.tracks[b]);
            }
        }
    }

    /// Empties the list; the mode stays.
    pub fn clear(&mut self)
        requires
            old(self)@.wf(),
        ensures
            final(self)@ == old(self)@.cleared(),
            final(self)@.wf(),
    {
        self.tracks.clear();
        self.order.clear();
        self.pos = 0;
        assert(self@.order =~= identity(0));
    }

    /// Brings back a stored list, in list order, with its current place.
    pub fn restore(&mut self, saved: &Vec<SavedTrack>, pos: usize, mode: PlayMode)
        requires
            old(self)@.wf(),
            old(self)@.next_qid + saved@.len() <= u64::MAX,
        ensures
            final(self)@ == old(self)@.restored(saved@, pos as int, mode),
            final(self)@.wf(),
    {
        let ghost start = self@;
        let mut tracks: Vec<Track> = Vec::new();
        let mut i: usize = 0;
        while i < saved.len()
            invariant
                i <= saved@.len(),
                tracks@.len() == i,
                start == old(self)@,
                self@ == (Queue { next_qid: (start.next_qid + i) as u64, ..start }),
                start.next_qid + saved@.len() <= u64::MAX,
                forall|j: int|
                    0 <= j < i ==> #[trigger] tracks@[j] == track_of(
                        saved@[j],
                        (start.next_qid + j) as u64,
                    ),
            decreases saved.len() - i,
        {
            let qid: u64 = self.next_qid;
            self.next_qid = qid + 1;
            tracks.push(
                Track {
                    set_id: saved[i].set_id.clone(),
                    sha2: clone_opt(&saved[i].sha2),
                    qid,
                    mods: saved[i].mods,
                    title: saved[i].title.clone(),
                    artist: saved[i].artist.clone(),
                    length_ms: saved[i].length_ms,
                },
            );
            i = i + 1;
        }
        let n: usize = tracks.len();
        self.mode = mode;
        self.tracks = tracks;
        self.order = identity_order(n);
        self.pos = if n == 0 {
            0
        } else if pos < n {
            pos
        } else {
            n - 1
        };
        assert(self@.tracks =~= start.restored(saved@, pos as int, mode).tracks);
    }

    /// The tracks in the order of adding, and the place in the play order.
    pub fn snapshot(&self) -> (r: (Vec<Track>, usize))
        ensures
            r.0@ == self@.tracks,
            r.1 == self@.pos,
    {
        (clone_tracks(&self.tracks), self.pos)
    }

    /// Refreshes what the list shows of a song.
    pub fn backfill_meta(&mut self, probe: &Track, title: String, artist: String, length_ms: Double)
        requires
            old(self)@.wf(),
        ensures
            final(self)@ == old(self)@.with_meta(*probe, title, artist, length_ms),
            final(self)@.wf(),
    {
        let ghost start = self@;
        let mut k: usize = 0;
        while k < self.tracks.len()
            invariant
                k <= self@.tracks.len() == start.tracks.len(),
                self@ == (Queue { tracks: self@.tracks, ..start }),
                forall|i: int|
                    0 <= i < k ==> #[trigger] self@.tracks[i] == start.with_meta(
                        *probe,
                        title,
                        artist,
                        length_ms,
                    ).tracks[i],
                forall|i: int| k <= i < start.tracks.len() ==> #[trigger] self@.tracks[i] == start.tracks[i],
            decreases self.tracks.len() - k,
        {
            if self.tracks[k].same_song(probe) {
                let mut t: Track = self.tracks[k].clone();
                t.title = title.clone();
                t.artist = artist.clone();
                t.length_ms = length_ms;
                self.tracks[k] = t;
            }
            k = k + 1;
        }
        assert(self@.tracks =~= start.with_meta(*probe, title, artist, length_ms).tracks);
    }

    /// Takes out the tracks whose set is not in the library.
    pub fn prune_missing(&mut self, lib: &LazerLibrary)
        requires
            old(self)@.wf(),
        ensures
            final(self)@ == old(self)@.pruned(*lib),
            final(self)@.wf(),
    {
        let ghost start = self@;
        let ghost keep = |t: Track| in_library(*lib, t.set_id@);
        let current: Option<Track> = self.current();
        let mut tracks: Vec<Track> = Vec::new();
        let mut i: usize = 0;
        while i < self.tracks.len()
            invariant
                i <= self@.tracks.len(),
                self@ == start,
                keep == (|t: Track| in_library(*lib, t.set_id@)),
                tracks@ == start.tracks.take(i as int).filter(keep),
            decreases self.tracks.len() - i,
        {
            proof {
                assert(start.tracks.take(i + 1).drop_last() =~= start.tracks.take(i as int));
                reveal(Seq::filter);
            }
            if has_set(lib, &self.tracks[i].set_id) {
                tracks.push(self.tracks[i].clone());
            }
            i = i + 1;
        }
        assert(start.tracks.take(start.tracks.len() as int) =~= start.tracks);
        let n: usize = tracks.len();
        self.tracks = tracks;
        self.order = identity_order(n);
        self.pos = match &current {
            Some(t) => if has_set(lib, &t.set_id) {
                match self.track_position(t) {
                    Some(i) => i,
                    None => 0,
                }
            } else {
                0
            },
            None => 0,
        };
        proof {
            lemma_filter_distinct(start.tracks, keep);
        }
    }

    /// Moves the place to a song of the list; one that is not in the list changes nothing.
    pub fn align_current(&mut self, set_id: String, sha2: Option<String>) -> (found: bool)
        requires
            old(self)@.wf(),
        ensures
            final(self)@ == old(self)@.aligned(set_id@, sha2),
            found == (track_place(old(self)@.tracks, set_id@, sha2) is Some),
            final(self)@.wf(),
    {
        let probe: Track = Track {
            set_id,
            sha2,
            qid: 0,
            mods: 0,
            title: String::new(),
            artist: String::new(),
            length_ms: Double { bits: 0 },
        };
        match self.track_position(&probe) {
            Some(k) => {
                self.pos = self.order_position(k);
                true
            },
            None => {
                false
            },
        }
    }

    /// The tracks in the order in which they are played.
    pub fn queue(&self) -> (r: Vec<Track>)
        requires
            self@.wf(),
        ensures
            r@ == self@.playing(),
    {
        let mut r: Vec<Track> = Vec::new();
        let mut i: usize = 0;
        while i < self.order.len()
            invariant
                i <= self@.order.len(),
                self@.wf(),
                r@.len() == i,
                forall|j: int| 0 <= j < i ==> #[trigger] r@[j] == self@.playing()[j],
            decreases self.order.len() - i,
        {
            r.push(self.tracks[self.order[i]].clone());
            i = i + 1;
        }
        assert(r@ =~= self@.playing());
        r
    }

    /// Moves the track at `from` to `to`, as the user drags it in the list.
    pub fn reorder(&mut self, from: usize, to: usize)
        requires
            old(self)@.wf(),
        ensures
            final(self)@ == old(self)@.reordered(from as int, to as int),
            final(self)@.wf(),
    {
        if from == to || from >= self.tracks.len() || to >= self.tracks.len() {
            return;
        }
        let ghost start = self@;
        let current: Option<Track> = self.current();
        let t: Track = self.tracks.remove(from);
        self.tracks.insert(to, t);
        if self.mode == PlayMode::Random {
            let mut i: usize = 0;
            while i < self.order.len()
                invariant
                    i <= self@.order.len() == start.order.len(),
                    start.wf(),
                    from < start.tracks.len(),
                    to < start.tracks.len(),
                    self@ == (Queue { tracks: self@.tracks, order: self@.order, ..start }),
                    self@.tracks == start.tracks.remove(from as int).insert(
                        to as int,
                        start.tracks[from as int],
                    ),
                    forall|j: int|
                        0 <= j < i ==> #[trigger] self@.order[j] == shifted(
                            start.order[j] as int,
                            from as int,
                            to as int,
                        ),
                    forall|j: int| i <= j < start.order.len() ==> #[trigger] self@.order[j] == start.order[j],
                decreases self.order.len() - i,
            {
                let o: usize = self.order[i];
                self.order[i] = if o == from {
                    to
                } else if from < o && o <= to {
                    o - 1
                } else if to <= o && o < from {
                    o + 1
                } else {
                    o
                };
                i = i + 1;
            }
            proof {
                let s = self@;
                assert(self@.order =~= start.reordered(from as int, to as int).order);
                assert forall|i: int, j: int|
                    0 <= i < s.order.len() && 0 <= j < s.order.len() && i != j implies #[trigger] s.order[i]
                    != #[trigger] s.order[j] by {
                    assert(start.order[i] != start.order[j]);
                }
                assert(is_order(s.order, s.tracks.len()));
            }
        } else {
            self.order = identity_order(self.tracks.len());
        }
        self.pos = match &current {
            Some(t) => self.song_position(t),
            None => 0,
        };
        proof {
            let s = self@;
            assert forall|i: int| 0 <= i < s.tracks.len() implies #[trigger] s.tracks[i]
                == start.tracks[shifted(i, to as int, from as int)] by {}
            assert forall|i: int, j: int|
                0 <= i < s.tracks.len() && 0 <= j < s.tracks.len() && i != j implies #[trigger] s.tracks[i].qid
                != #[trigger] s.tracks[j].qid by {
                let a = shifted(i, to as int, from as int);
                let b = shifted(j, to as int, from as int);
                assert(s.tracks[i] == start.tracks[a] && s.tracks[j] == start.tracks[b]);
            }
            assert forall|i: int| 0 <= i < s.tracks.len() implies #[trigger] s.tracks[i].qid
                < s.next_qid by {
                assert(s.tracks[i] == start.tracks[shifted(i, to as int, from as int)]);
            }
        }
    }

    fn step(&mut self)
        requires
            old(self)@.wf(),
            old(self)@.order.len() > 0,
        ensures
            final(self)@ == old(self)@.stepped(),
            final(self)@.wf(),
            final(self)@.order.len() > 0,
    {
        if self.pos + 1 < self.order.len() {
            self.pos = self.pos + 1;
        } else {
            if self.mode == PlayMode::Random {
                let last: Track = self.tracks[self.order[self.order.len() - 1]].clone();
                let order: Vec<usize> = self.shuffled(Some(&last));
                self.order = order;
            }
            self.pos = 0;
        }
    }

    /// The next track when one has ended; nothing in single loop, where the renderer loops.
    pub fn advance(&mut self) -> (r: Option<Track>)
        requires
            old(self)@.wf(),
        ensures
            final(self)@ == (if old(self)@.mode == PlayMode::SingleLoop {
                old(self)@
            } else {
                old(self)@.stepped()
            }),
            r == (if old(self)@.mode == PlayMode::SingleLoop {
                None
            } else {
                final(self)@.current()
            }),
            final(self)@.wf(),
    {
        if self.order.len() == 0 || self.mode == PlayMode::SingleLoop {
            return None;
        }
        self.step();
        self.current()
    }

    /// The next track on the user's demand, in single loop too.
    pub fn advance_manual(&mut self) -> (r: Option<Track>)
        requires
            old(self)@.wf(),
        ensures
            final(self)@ == old(self)@.stepped(),
            r == final(self)@.current(),
            final(self)@.wf(),
    {
        if self.order.len() == 0 {
            return None;
        }
        self.step();
        self.current()
    }

    /// The track before, along the play order.
    pub fn rewind(&mut self) -> (r: Option<Track>)
        requires
            old(self)@.wf(),
        ensures
            final(self)@ == old(self)@.rewound(),
            r == final(self)@.current(),
            final(self)@.wf(),
    {
        if self.order.len() == 0 {
            return None;
        }
        self.pos = if self.pos == 0 {
            self.order.len() - 1
        } else {
            self.pos - 1
        };
        self.current()
    }
}

fn has_qid(qids: &Vec<u64>, qid: u64) -> (r: bool)
    ensures
        r == qids@.contains(qid),
{
    let mut i: usize = 0;
    while i < qids.len()
        invariant
            i <= qids@.len(),
            forall|j: int| 0 <= j < i ==> #[trigger] qids@[j] != qid,
        decreases qids.len() - i,
    {
        if qids[i] == qid {
            assert(qids@[i as int] == qid);
            return true;
        }
        i = i + 1;
    }
    false
}

fn has_set(lib: &LazerLibrary, set_id: &String) -> (r: bool)
    ensures
        r == in_library(*lib, set_id@),
{
    let mut i: usize = 0;
    while i < lib.sets.len()
        invariant
            i <= lib.sets@.len(),
            forall|j: int| 0 <= j < i ==> #[trigger] lib.sets@[j].id@ != set_id@,
        decreases lib.sets.len() - i,
    {
        if lib.sets[i].id == *set_id {
            assert(lib.sets@[i as int].id@ == set_id@);
            return true;
        }
        i = i + 1;
    }
    false
}

fn clone_tracks(v: &Vec<Track>) -> (r: Vec<Track>)
    ensures
        r@ == v@,
{
    let mut r: Vec<Track> = Vec::new();
    let mut i: usize = 0;
    while i < v.len()
        invariant
            i <= v@.len(),
            r@ == v@.take(i as int),
        decreases v.len() - i,
    {
        r.push(v[i].clone());
        i = i + 1;
        assert(r@ =~= v@.take(i as int));
    }
    assert(v@.take(v@.len() as int) =~= v@);
    r
}

/// A filter leaves a sequence of entries with distinct numbers, each of them one that was there.
proof fn lemma_filter_distinct(s: Seq<Track>, keep: spec_fn(Track) -> bool)
    requires
        forall|i: int, j: int|
            0 <= i < s.len() && 0 <= j < s.len() && i != j ==> #[trigger] s[i].qid
                != #[trigger] s[j].qid,
    ensures
        s.filter(keep).len() <= s.len(),
        forall|i: int|
            0 <= i < s.filter(keep).len() ==> exists|k: int|
                0 <= k < s.len() && s[k] == #[trigger] s.filter(keep)[i],
        forall|i: int, j: int|
            0 <= i < s.filter(keep).len() && 0 <= j < s.filter(keep).len() && i != j
                ==> #[trigger] s.filter(keep)[i].qid != #[trigger] s.filter(keep)[j].qid,
    decreases s.len(),
{
    reveal(Seq::filter);
    if s.len() > 0 {
        let head = s.drop_last();
        lemma_filter_distinct(head, keep);
        let f = head.filter(keep);
        let g = s.filter(keep);
        assert(g == f || g == f.push(s.last()));
        assert forall|i: int| 0 <= i < g.len() implies exists|k: int|
            0 <= k < s.len() && s[k] == #[trigger] g[i] by {
            if i < f.len() {
                let k = choose|k: int| 0 <= k < head.len() && head[k] == f[i];
                assert(s[k] == g[i]);
            } else {
                assert(s[s.len() - 1] == g[i]);
            }
        }
        assert forall|i: int, j: int|
            0 <= i < g.len() && 0 <= j < g.len() && i != j implies #[trigger] g[i].qid
            != #[trigger] g[j].qid by {
            if i < f.len() && j < f.len() {
                assert(f[i].qid != f[j].qid);
            } else if i < f.len() {
                let k = choose|k: int| 0 <= k < head.len() && head[k] == f[i];
                assert(s[k].qid != s[s.len() - 1].qid);
            } else {
                let k = choose|k: int| 0 <= k < head.len() && head[k] == f[j];
                assert(s[k].qid != s[s.len() - 1].qid);
            }
        }
    }
}

/// An order of `0 .. n` names each of them.
pub proof fn lemma_order_covers(order: Seq<usize>, n: nat, k: int)
    requires
        is_order(order, n),
        0 <= k < n,
    ensures
        exists|c: int| 0 <= c < order.len() && #[trigger] order[c] == k,
{
    let named = Set::new(|x: int| 0 <= x < n && exists|c: int| 0 <= c < n && #[trigger] order[c] == x);
    let all = vstd::set_lib::set_int_range(0, n as int);
    vstd::set_lib::lemma_int_range(0, n as int);
    let places = Seq::new(n, |i: int| order[i] as int);
    assert(places.no_duplicates());
    places.unique_seq_to_set();
    assert(places.to_set() =~= named) by {
        assert forall|x: int| named.contains(x) implies places.to_set().contains(x) by {
            let c = choose|c: int| 0 <= c < n && #[trigger] order[c] == x;
            assert(places[c] == x);
        }
        assert forall|x: int| places.to_set().contains(x) implies named.contains(x) by {
            let c = choose|c: int| 0 <= c < n && places[c] == x;
            assert(order[c] == x);
        }
    }
    assert(places.to_set().subset_of(all));
    vstd::set_lib::lemma_subset_equality(places.to_set(), all);
    assert(all.contains(k));
    assert(places.to_set().contains(k));
    let c = choose|c: int| 0 <= c < n && places[c] == k;
    assert(order[c] == k);
}

/// `q` after `k` steps.
pub open spec fn steps(q: Queue, k: nat) -> Queue
    decreases k,
{
    if k == 0 {
        q
    } else {
        steps(q, (k - 1) as nat).stepped()
    }
}

proof fn lemma_song_found(tracks: Seq<Track>, order: Seq<usize>, t: Track, k: int)
    requires
        is_order(order, tracks.len()),
        0 <= k < tracks.len(),
        tracks[k] == t,
    ensures
        song_place(tracks, order, t) is Some,
        0 <= or_zero(song_place(tracks, order, t)) < order.len(),
        tracks[order[or_zero(song_place(tracks, order, t))] as int].same(t),
{
    lemma_order_covers(order, tracks.len(), k);
    let c = choose|c: int| 0 <= c < order.len() && #[trigger] order[c] == k;
    let p = |i: int| tracks[order[i] as int].same(t);
    assert(p(c));
    seqs::lemma_least_exists(order.len() as int, p, c);
}

/// What the shuffle hands out is an order of the tracks.
pub proof fn lemma_mixed_is_order(order: Seq<usize>, i: int, rng: u64, n: nat)
    requires
        is_order(order, n),
        i < n,
    ensures
        is_order(mixed(order, i, rng).0, n),
    decreases i,
{
    if i > 0 {
        let j = ((rng_draw(rng) as usize) as int) % (i + 1);
        assert(0 <= j <= i);
        assert(is_order(swapped(order, i, j), n));
        lemma_mixed_is_order(swapped(order, i, j), i - 1, rng_step(rng), n);
    }
}

pub proof fn lemma_shuffle_is_order(tracks: Seq<Track>, rng: u64, avoid: Option<Track>)
    requires
        tracks.len() <= usize::MAX,
    ensures
        is_order(shuffle(tracks, rng, avoid).0, tracks.len()),
{
    lemma_mixed_is_order(identity(tracks.len()), tracks.len() - 1, rng, tracks.len());
}

/// A change of mode keeps every track, and what plays goes on being the same song.
pub proof fn law_mode_keeps_song(q: Queue, mode: PlayMode)
    requires
        q.wf(),
    ensures
        q.with_mode(mode).wf(),
        q.with_mode(mode).mode == mode,
        q.with_mode(mode).tracks == q.tracks,
        q.current() is Some <==> q.with_mode(mode).current() is Some,
        q.current() is Some ==> q.with_mode(mode).current()->0.same(q.current()->0),
{
    lemma_shuffle_is_order(q.tracks, q.rng, None);
    if q.current() is Some {
        lemma_song_found(
            q.tracks,
            q.with_mode(mode).order,
            q.current()->0,
            q.order[q.pos] as int,
        );
    }
}

/// Outside random play the list is played in the order of adding.
pub proof fn law_list_order_plays_as_added(q: Queue)
    requires
        q.wf(),
        q.mode != PlayMode::Random,
    ensures
        q.playing() == q.tracks,
{
    assert(q.playing() =~= q.tracks);
}

/// A round plays no entry twice and leaves none out, whatever the mode.
pub proof fn law_round_plays_each_once(q: Queue)
    requires
        q.wf(),
    ensures
        forall|i: int, j: int|
            0 <= i < q.playing().len() && 0 <= j < q.playing().len() && i != j
                ==> #[trigger] q.playing()[i].qid != #[trigger] q.playing()[j].qid,
        forall|k: int|
            0 <= k < q.tracks.len() ==> #[trigger] q.playing().contains(q.tracks[k]),
{
    assert forall|i: int, j: int|
        0 <= i < q.playing().len() && 0 <= j < q.playing().len() && i != j implies #[trigger] q.playing()[i].qid
        != #[trigger] q.playing()[j].qid by {
        assert(q.order[i] != q.order[j]);
        assert(q.tracks[q.order[i] as int].qid != q.tracks[q.order[j] as int].qid);
    }
    assert forall|k: int| 0 <= k < q.tracks.len() implies #[trigger] q.playing().contains(
        q.tracks[k],
    ) by {
        lemma_order_covers(q.order, q.tracks.len(), k);
        let c = choose|c: int| 0 <= c < q.order.len() && #[trigger] q.order[c] == k;
        assert(q.playing()[c] == q.tracks[k]);
    }
}

/// From the beginning of a round the steps play the tracks of the play order one after another.
pub proof fn law_steps_follow_order(q: Queue, k: nat)
    requires
        q.wf(),
        q.pos == 0,
        k < q.order.len(),
    ensures
        steps(q, k).order == q.order,
        steps(q, k).pos == k,
        steps(q, k).current() == Some(q.playing()[k as int]),
        steps(q, k).wf(),
        steps(q, k) == (Queue { pos: k as int, ..q }),
    decreases k,
{
    if k > 0 {
        law_steps_follow_order(q, (k - 1) as nat);
    }
}

/// Outside random play the list begins again behind its end.
pub proof fn law_list_wraps(q: Queue)
    requires
        q.wf(),
        q.mode != PlayMode::Random,
        q.pos == 0,
    ensures
        steps(q, q.order.len()) == q,
{
    if q.order.len() > 0 {
        law_steps_follow_order(q, (q.order.len() - 1) as nat);
    }
}

/// Where all entries are different songs, a new random round does not begin with the song that
/// ended the last one.
pub proof fn law_no_repeat_across_rounds(q: Queue)
    requires
        q.wf(),
        q.mode == PlayMode::Random,
        q.order.len() > 1,
        q.pos == q.order.len() - 1,
        forall|i: int, j: int|
            0 <= i < q.tracks.len() && 0 <= j < q.tracks.len() && i != j
                ==> !(#[trigger] q.tracks[i]).same(#[trigger] q.tracks[j]),
    ensures
        q.stepped().pos == 0,
        q.stepped().wf(),
        !q.stepped().current()->0.same(q.current()->0),
{
    let last = q.tracks[q.order.last() as int];
    lemma_shuffle_is_order(q.tracks, q.rng, Some(last));
    lemma_mixed_is_order(identity(q.tracks.len()), q.tracks.len() - 1, q.rng, q.tracks.len());
    let o = mixed(identity(q.tracks.len()), q.tracks.len() - 1, q.rng).0;
    assert(o[0] != o[1]);
    let l = q.order.last() as int;
    if o[0] != l {
        assert(!q.tracks[o[0] as int].same(q.tracks[l]));
    } else {
        assert(o[1] != l);
        assert(q.tracks[o[0] as int].same(last));
        assert(!q.tracks[o[1] as int].same(q.tracks[l]));
    }
}

/// A step back undoes a step, but for the one that shuffles a new round.
pub proof fn law_rewind_undoes_step(q: Queue)
    requires
        q.wf(),
        q.mode != PlayMode::Random || q.pos + 1 < q.order.len() || q.order.len() == 0,
    ensures
        q.stepped().rewound() == q,
{
}

/// A step undoes a step back, but for one behind the end of a random round.
pub proof fn law_step_undoes_rewind(q: Queue)
    requires
        q.wf(),
        q.mode != PlayMode::Random || q.pos > 0 || q.order.len() == 0,
    ensures
        q.rewound().stepped() == q,
{
}

/// Taking an entry out leaves the play order of the others. What plays stays, and where it is
/// what was taken out, the next one plays, or the last where there is none behind it.
pub proof fn law_remove_keeps_others(q: Queue, qid: u64, at: int)
    requires
        q.wf(),
        0 <= at < q.order.len(),
        q.playing()[at].qid == qid,
    ensures
        q.without(qid).playing() == q.playing().remove(at),
        at != q.pos ==> q.without(qid).current() == q.current(),
        at == q.pos && at + 1 < q.order.len() ==> q.without(qid).current() == Some(
            q.playing()[at + 1],
        ),
        at == q.pos && at + 1 == q.order.len() && at > 0 ==> q.without(qid).current() == Some(
            q.playing()[at - 1],
        ),
        q.order.len() == 1 ==> q.without(qid).current() is None,
{
    let k = q.order[at] as int;
    let p = |i: int| q.tracks[i].qid == qid;
    assert(seqs::is_least(q.tracks.len() as int, p, k)) by {
        assert(p(k));
        assert forall|j: int| 0 <= j < k implies !#[trigger] p(j) by {
            assert(q.tracks[j].qid != q.tracks[k].qid);
        }
    }
    seqs::lemma_least_found(q.tracks.len() as int, p, k);
    let o = names(q.order, k);
    assert(seqs::is_least(q.order.len() as int, o, at)) by {
        assert(o(at));
        assert forall|j: int| 0 <= j < at implies !#[trigger] o(j) by {
            assert(q.order[j] != q.order[at]);
        }
    }
    seqs::lemma_least_found(q.order.len() as int, o, at);
    let r = q.without(qid);
    assert forall|i: int| 0 <= i < r.order.len() implies #[trigger] r.playing()[i]
        == q.playing().remove(at)[i] by {
        let a = if i < at { i } else { i + 1 };
        assert(q.order[a] != q.order[at]);
        assert(r.order[i] == closed_up(q.order[a], k));
    }
    assert(r.playing() =~= q.playing().remove(at));
    if q.order.len() > 1 {
        assert(r.current() == Some(r.playing()[r.pos]));
    }
}

/// What was not in the list is in it after adding, at the end, and what plays stays. What was in
/// it stays where it is, under its number.
pub proof fn law_add_appends_or_overwrites(q: Queue, t: Track)
    requires
        q.wf(),
        q.next_qid < u64::MAX,
        q.tracks.len() < usize::MAX,
    ensures
        set_place(q.tracks, t.set_id@) is None ==> {
            &&& q.with_track(t).playing() == q.playing().push((Track { qid: q.next_qid, ..t }))
            &&& q.current() is Some ==> q.with_track(t).current() == q.current()
        },
        set_place(q.tracks, t.set_id@) is Some ==> {
            &&& q.with_track(t).order == q.order
            &&& q.with_track(t).pos == q.pos
            &&& forall|i: int|
                0 <= i < q.tracks.len() ==> (#[trigger] q.with_track(t).tracks[i]).qid
                    == q.tracks[i].qid
        },
        set_place(q.with_track(t).tracks, t.set_id@) is Some,
{
    let p = |i: int| q.tracks[i].set_id@ == t.set_id@;
    seqs::lemma_least(q.tracks.len() as int, p);
    let r = q.with_track(t);
    let p2 = |i: int| r.tracks[i].set_id@ == t.set_id@;
    match set_place(q.tracks, t.set_id@) {
        Some(i) => {
            assert(p2(i));
            seqs::lemma_least_exists(r.tracks.len() as int, p2, i);
        },
        None => {
            assert(p2(q.tracks.len() as int));
            seqs::lemma_least_exists(r.tracks.len() as int, p2, q.tracks.len() as int);
            assert(r.playing() =~= q.playing().push((Track { qid: q.next_qid, ..t })));
        },
    }
}

/// Adding a set twice leaves one entry of it: the second overwrites the first.
pub proof fn law_add_twice_is_one_entry(q: Queue, t: Track, u: Track)
    requires
        q.wf(),
        q.next_qid < u64::MAX,
        q.tracks.len() < usize::MAX,
        t.set_id@ == u.set_id@,
    ensures
        q.with_track(t).with_track(u).tracks.len() == q.with_track(t).tracks.len(),
{
    law_add_appends_or_overwrites(q, t);
}

proof fn lemma_moved_multiset(s: Seq<Track>, from: int, to: int)
    requires
        0 <= from < s.len(),
        0 <= to < s.len(),
    ensures
        s.remove(from).insert(to, s[from]).to_multiset() == s.to_multiset(),
{
    vstd::seq_lib::to_multiset_insert(s.remove(from), to, s[from]);
    vstd::seq_lib::to_multiset_remove(s, from);
    s.to_multiset_ensures();
    assert(s.contains(s[from]));
    assert(s.to_multiset().remove(s[from]).insert(s[from]) =~= s.to_multiset());
}

/// Where each track stands after one was dragged.
proof fn lemma_reordered_tracks(q: Queue, from: int, to: int)
    requires
        q.wf(),
        0 <= from < q.tracks.len(),
        0 <= to < q.tracks.len(),
        from != to,
    ensures
        q.reordered(from, to).tracks.len() == q.tracks.len(),
        forall|i: int|
            0 <= i < q.tracks.len() ==> #[trigger] q.reordered(from, to).tracks[i]
                == q.tracks[shifted(i, to, from)],
        is_order(q.reordered(from, to).order, q.tracks.len()),
{
    let r = q.reordered(from, to);
    if q.mode == PlayMode::Random {
        assert forall|i: int, j: int|
            0 <= i < r.order.len() && 0 <= j < r.order.len() && i != j implies #[trigger] r.order[i]
            != #[trigger] r.order[j] by {
            assert(q.order[i] != q.order[j]);
        }
    }
}

/// Dragging a track takes none out and puts none in. In random play the play order names the same
/// tracks as before; else the dragged track is played at its new place.
pub proof fn law_reorder_moves_one(q: Queue, from: int, to: int)
    requires
        q.wf(),
        0 <= from < q.tracks.len(),
        0 <= to < q.tracks.len(),
    ensures
        q.mode == PlayMode::Random ==> q.reordered(from, to).playing() == q.playing(),
        q.mode != PlayMode::Random ==> q.reordered(from, to).playing() == q.playing().remove(
            from,
        ).insert(to, q.playing()[from]),
        q.reordered(from, to).tracks.to_multiset() == q.tracks.to_multiset(),
{
    let r = q.reordered(from, to);
    lemma_moved_multiset(q.tracks, from, to);
    if from != to {
        lemma_reordered_tracks(q, from, to);
        if q.mode == PlayMode::Random {
            assert forall|i: int| 0 <= i < q.order.len() implies #[trigger] r.playing()[i]
                == q.playing()[i] by {
                assert(r.order[i] == shifted(q.order[i] as int, from, to));
            }
            assert(r.playing() =~= q.playing());
        } else {
            assert(q.playing() =~= q.tracks);
            assert(r.playing() =~= r.tracks);
        }
    } else {
        assert(q.playing().remove(from).insert(to, q.playing()[from]) =~= q.playing());
    }
}

/// While a track is dragged, what plays goes on being the same song.
pub proof fn law_reorder_keeps_song(q: Queue, from: int, to: int)
    requires
        q.wf(),
        0 <= from < q.tracks.len(),
        0 <= to < q.tracks.len(),
    ensures
        q.current() is Some,
        q.reordered(from, to).current() is Some,
        q.reordered(from, to).current()->0.same(q.current()->0),
{
    if from != to {
        let r = q.reordered(from, to);
        lemma_reordered_tracks(q, from, to);
        let k = shifted(q.order[q.pos] as int, from, to);
        assert(r.tracks[k] == q.current()->0);
        lemma_song_found(r.tracks, r.order, q.current()->0, k);
    }
}

/// What is left of a list after pruning is in the library, and pruning again changes nothing of
/// the tracks.
pub proof fn law_prune_leaves_library_tracks(q: Queue, lib: LazerLibrary)
    requires
        q.wf(),
    ensures
        forall|i: int|
            0 <= i < q.pruned(lib).tracks.len() ==> in_library(
                lib,
                (#[trigger] q.pruned(lib).tracks[i]).set_id@,
            ),
        q.pruned(lib).pruned(lib).tracks == q.pruned(lib).tracks,
        forall|t: Track|
            #[trigger] q.tracks.contains(t) && in_library(lib, t.set_id@) ==> q.pruned(
                lib,
            ).tracks.contains(t),
{
    let keep = |t: Track| in_library(lib, t.set_id@);
    broadcast use vstd::seq_lib::group_filter_ensures;

    let kept = q.pruned(lib).tracks;
    assert forall|i: int| 0 <= i < kept.len() implies in_library(
        lib,
        (#[trigger] kept[i]).set_id@,
    ) by {
        assert(keep(kept[i]));
    }
    lemma_filter_all(kept, keep);
    assert forall|t: Track| #[trigger] q.tracks.contains(t) && in_library(lib, t.set_id@) implies kept.contains(
        t,
    ) by {
        let i = choose|i: int| 0 <= i < q.tracks.len() && q.tracks[i] == t;
        assert(keep(q.tracks[i]));
        assert(kept.contains(q.tracks[i]));
    }
}

proof fn lemma_filter_all(s: Seq<Track>, keep: spec_fn(Track) -> bool)
    requires
        forall|i: int| 0 <= i < s.len() ==> keep(#[trigger] s[i]),
    ensures
        s.filter(keep) == s,
    decreases s.len(),
{
    reveal(Seq::filter);
    if s.len() > 0 {
        lemma_filter_all(s.drop_last(), keep);
        assert(s.drop_last().push(s.last()) =~= s);
    } else {
        assert(s.filter(keep) =~= s);
    }
}

/// The random numbers never run dry: a state that is not zero leads to one that is not.
pub proof fn law_random_state_stays_nonzero(r: u64)
    requires
        r != 0,
    ensures
        rng_step(r) != 0,
{
    let a = r ^ (r >> 12);
    let b = a ^ (a << 25);
    assert(r != 0 ==> (r ^ (r >> 12)) != 0) by (bit_vector);
    assert(a != 0 ==> (a ^ (a << 25)) != 0) by (bit_vector);
    assert(b != 0 ==> (b ^ (b >> 27)) != 0) by (bit_vector);
}

/// How the difficulty of a set is picked where the user picked none.
#[derive(Debug, Clone, Copy, PartialEq, Eq, Structural)]
pub enum PickPolicy {
    Hardest,
    Easiest,
    /// The one whose star rating is nearest to the given one.
    Custom(Double),
}

/// The stored target: none asks for the hardest, a negative one for the easiest, and any other
/// for the nearest.
pub open spec fn policy_for(target: Option<Double>) -> PickPolicy {
    match target {
        None => PickPolicy::Hardest,
        Some(t) => if t.below(Double { bits: 0 }) {
            PickPolicy::Easiest
        } else {
            PickPolicy::Custom(t)
        },
    }
}

pub fn policy_of(target: Option<Double>) -> (r: PickPolicy)
    ensures
        r == policy_for(target),
{
    match target {
        None => PickPolicy::Hardest,
        Some(t) => {
            if t.lt(&Double { bits: 0 }) {
                PickPolicy::Easiest
            } else {
                PickPolicy::Custom(t)
            }
        },
    }
}

/// Under the policy, `i` is to be preferred to `j`: by the star ratings, or by how far they are
/// from the target.
pub open spec fn better(
    policy: PickPolicy,
    stars: Seq<Double>,
    distance: Seq<Double>,
    i: int,
    j: int,
) -> bool {
    match policy {
        PickPolicy::Hardest => stars[j].below(stars[i]),
        PickPolicy::Easiest => stars[i].below(stars[j]),
        PickPolicy::Custom(_) => distance[i].below(distance[j]),
    }
}

/// Which of the first `n` is picked: the first one, unless one behind it is to be preferred to
/// what was picked before it.
pub open spec fn picked(
    policy: PickPolicy,
    stars: Seq<Double>,
    distance: Seq<Double>,
    n: nat,
) -> int
    decreases n,
{
    if n <= 1 {
        0
    } else {
        let b = picked(policy, stars, distance, (n - 1) as nat);
        if better(policy, stars, distance, n - 1, b) {
            n - 1
        } else {
            b
        }
    }
}

/// The numbers that decide under the policy.
pub open spec fn deciding(policy: PickPolicy, stars: Seq<Double>, distance: Seq<Double>) -> Seq<Double> {
    if policy is Custom {
        distance
    } else {
        stars
    }
}

/// Where every number that decides is one, what is picked is the first of the best.
pub proof fn law_pick_is_first_best(
    policy: PickPolicy,
    stars: Seq<Double>,
    distance: Seq<Double>,
    n: nat,
)
    requires
        0 < n <= deciding(policy, stars, distance).len(),
        forall|i: int| 0 <= i < n ==> !(#[trigger] deciding(policy, stars, distance)[i]).nan(),
    ensures
        0 <= picked(policy, stars, distance, n) < n,
        forall|i: int|
            #![trigger deciding(policy, stars, distance)[i]]
            0 <= i < n ==> !better(policy, stars, distance, i, picked(policy, stars, distance, n)),
        forall|i: int|
            #![trigger deciding(policy, stars, distance)[i]]
            0 <= i < picked(policy, stars, distance, n) ==> better(
                policy,
                stars,
                distance,
                picked(policy, stars, distance, n),
                i,
            ),
    decreases n,
{
    let d = deciding(policy, stars, distance);
    assert(!d[n - 1].nan());
    if n > 1 {
        law_pick_is_first_best(policy, stars, distance, (n - 1) as nat);
        let b = picked(policy, stars, distance, (n - 1) as nat);
        assert(!d[b].nan());
        assert(forall|i: int| 0 <= i < n ==> !(#[trigger] d[i]).nan());
    }
}

/// The star ratings of the difficulties of a set.
pub open spec fn stars_of(set: LazerSet) -> Seq<Double> {
    Seq::new(set.beatmaps@.len(), |i: int| set.beatmaps@[i].star_rating)
}

/// The difficulty of a set that the policy picks; `distance` holds how far each one's star rating
/// is from the target of a custom policy.
pub fn pick_diff<'a>(set: &'a LazerSet, policy: PickPolicy, distance: &Vec<Double>) -> (r: &'a LazerBeatmap)
    requires
        set.beatmaps@.len() > 0,
        policy is Custom ==> distance@.len() == set.beatmaps@.len(),
    ensures
        0 <= picked(policy, stars_of(*set), distance@, set.beatmaps@.len()) < set.beatmaps@.len(),
        *r == set.beatmaps@[picked(policy, stars_of(*set), distance@, set.beatmaps@.len())],
{
    let mut best: usize = 0;
    let mut i: usize = 1;
    while i < set.beatmaps.len()
        invariant
            1 <= i <= set.beatmaps@.len(),
            best < i,
            policy is Custom ==> distance@.len() == set.beatmaps@.len(),
            best == picked(policy, stars_of(*set), distance@, i as nat),
        decreases set.beatmaps.len() - i,
    {
        let prefer: bool = match policy {
            PickPolicy::Hardest => set.beatmaps[best].star_rating.lt(&set.beatmaps[i].star_rating),
            PickPolicy::Easiest => set.beatmaps[i].star_rating.lt(&set.beatmaps[best].star_rating),
            PickPolicy::Custom(_) => distance[i].lt(&distance[best]),
        };
        if prefer {
            best = i;
        }
        i = i + 1;
    }
    &set.beatmaps[best]
}

/// The star ratings of cached difficulties.
pub open spec fn cached_stars(diffs: Seq<CachedDiff>) -> Seq<Double> {
    Seq::new(diffs.len(), |i: int| diffs[i].star)
}

/// Of difficulties with the same star ratings, and as far from a target, the one at the same place
/// is picked, be they those of a set or of the path cache: where several are equally good, the first
/// in both.
pub proof fn law_cached_pick_is_alike(
    set: LazerSet,
    diffs: Seq<CachedDiff>,
    policy: PickPolicy,
    distance: Seq<Double>,
)
    requires
        diffs.len() == set.beatmaps@.len(),
        forall|i: int|
            0 <= i < diffs.len() ==> (#[trigger] diffs[i]).star == set.beatmaps@[i].star_rating,
    ensures
        picked(policy, cached_stars(diffs), distance, diffs.len()) == picked(
            policy,
            stars_of(set),
            distance,
            set.beatmaps@.len(),
        ),
        diffs.len() > 0 ==> 0 <= picked(policy, cached_stars(diffs), distance, diffs.len())
            < diffs.len(),
{
    assert(cached_stars(diffs) =~= stars_of(set));
    lemma_picked_within(policy, cached_stars(diffs), distance, diffs.len());
}

proof fn lemma_picked_within(policy: PickPolicy, stars: Seq<Double>, distance: Seq<Double>, n: nat)
    ensures
        0 <= picked(policy, stars, distance, n),
        n > 0 ==> picked(policy, stars, distance, n) < n,
    decreases n,
{
    if n > 1 {
        lemma_picked_within(policy, stars, distance, (n - 1) as nat);
    }
}

/// The same choice on the difficulties of the path cache.
pub fn pick_cached_diff<'a>(
    diffs: &'a Vec<CachedDiff>,
    policy: PickPolicy,
    distance: &Vec<Double>,
) -> (r: Option<&'a CachedDiff>)
    requires
        policy is Custom ==> distance@.len() == diffs@.len(),
    ensures
        r is None <==> diffs@.len() == 0,
        r is Some ==> {
            let k = picked(policy, cached_stars(diffs@), distance@, diffs@.len());
            0 <= k < diffs@.len() && *r->0 == diffs@[k]
        },
{
    if diffs.len() == 0 {
        return None;
    }
    let mut best: usize = 0;
    let mut i: usize = 1;
    while i < diffs.len()
        invariant
            1 <= i <= diffs@.len(),
            best < i,
            policy is Custom ==> distance@.len() == diffs@.len(),
            best == picked(policy, cached_stars(diffs@), distance@, i as nat),
        decreases diffs.len() - i,
    {
        let prefer: bool = match policy {
            PickPolicy::Hardest => diffs[best].star.lt(&diffs[i].star),
            PickPolicy::Easiest => diffs[i].star.lt(&diffs[best].star),
            PickPolicy::Custom(_) => distance[i].lt(&distance[best]),
        };
        if prefer {
            best = i;
        }
        i = i + 1;
    }
    Some(&diffs[best])
}

// ---------- what random play draws ----------

/// The random numbers are those of xorshift64*: three shifts move the state on, by 12 to the right,
/// 25 to the left and 27 to the right, and the number is the new state times a constant, in 64 bits.
/// Different states stay different.
pub proof fn law_random_numbers_are_xorshift(r: u64, s: u64)
    ensures
        ({
            let a = r ^ (r >> 12);
            let b = a ^ (a << 25);
            rng_step(r) == b ^ (b >> 27)
        }),
        rng_draw(r) == (rng_step(r) * 0x2545F4914F6CDD1D) % 0x1_0000_0000_0000_0000,
        rng_step(r) == rng_step(s) ==> r == s,
{
    let a = r ^ (r >> 12);
    let b = a ^ (a << 25);
    let c = s ^ (s >> 12);
    let d = c ^ (c << 25);
    assert((b ^ (b >> 27)) == (d ^ (d >> 27)) ==> b == d) by (bit_vector);
    assert((a ^ (a << 25)) == (c ^ (c << 25)) ==> a == c) by (bit_vector);
    assert((r ^ (r >> 12)) == (s ^ (s >> 12)) ==> r == s) by (bit_vector);
}

/// Mixing does the same to the places up to `i` whatever names the entries have, and leaves the
/// places behind alone.
proof fn lemma_mixed_renames(a: Seq<usize>, b: Seq<usize>, i: int, rng: u64, f: spec_fn(usize) -> usize)
    requires
        0 <= i < a.len(),
        i < b.len(),
        forall|k: int| 0 <= k <= i ==> #[trigger] b[k] == f(a[k]),
    ensures
        mixed(a, i, rng).0.len() == a.len(),
        mixed(b, i, rng).0.len() == b.len(),
        forall|k: int| 0 <= k <= i ==> #[trigger] mixed(b, i, rng).0[k] == f(mixed(a, i, rng).0[k]),
        forall|k: int| i < k < b.len() ==> #[trigger] mixed(b, i, rng).0[k] == b[k],
        forall|k: int| i < k < a.len() ==> #[trigger] mixed(a, i, rng).0[k] == a[k],
        mixed(a, i, rng).1 == mixed(b, i, rng).1,
    decreases i,
{
    if i > 0 {
        let j = ((rng_draw(rng) as usize) as int) % (i + 1);
        assert(0 <= j <= i);
        let a2 = swapped(a, i, j);
        let b2 = swapped(b, i, j);
        assert forall|k: int| 0 <= k <= i implies #[trigger] b2[k] == f(a2[k]) by {
            assert(b[k] == f(a[k]) && b[i] == f(a[i]) && b[j] == f(a[j]));
        }
        lemma_mixed_renames(a2, b2, i - 1, rng_step(rng), f);
        let ma = mixed(a2, i - 1, rng_step(rng)).0;
        let mb = mixed(b2, i - 1, rng_step(rng)).0;
        assert(mixed(a, i, rng).0 == ma && mixed(b, i, rng).0 == mb);
        assert(mb[i] == b2[i] && ma[i] == a2[i]);
    }
}

/// A shuffled order is drawn: the entry at the last place is the one whose number is drawn, and the
/// places before it are a shuffle of the others from the next state on, in which the last entry
/// stands for the one that was drawn. So every entry can come to every place.
pub proof fn law_shuffle_is_drawn(tracks: Seq<Track>, rng: u64)
    requires
        1 < tracks.len() <= usize::MAX,
    ensures
        ({
            let n = tracks.len();
            let j = ((rng_draw(rng) as usize) as int) % (n as int);
            let (order, r) = shuffle(tracks, rng, None);
            let (rest, s) = shuffle(tracks.drop_last(), rng_step(rng), None);
            &&& order.len() == n
            &&& rest.len() == n - 1
            &&& order.last() == j
            &&& forall|i: int|
                0 <= i < n - 1 ==> #[trigger] order[i] == (if rest[i] == j {
                    n - 1
                } else {
                    rest[i] as int
                })
            &&& r == s
        }),
{
    let n = tracks.len() as int;
    let j = ((rng_draw(rng) as usize) as int) % n;
    assert(0 <= j < n);
    let first = swapped(identity(n as nat), n - 1, j);
    let f = |x: usize| if x == j { (n - 1) as usize } else { x };
    let small = identity((n - 1) as nat);
    assert forall|k: int| 0 <= k <= n - 2 implies #[trigger] first[k] == f(small[k]) by {}
    lemma_mixed_renames(small, first, n - 2, rng_step(rng), f);
    assert(mixed(identity(n as nat), n - 1, rng) == mixed(first, n - 2, rng_step(rng)));
    assert(mixed(first, n - 2, rng_step(rng)).0[n - 1] == first[n - 1]);
    let order = shuffle(tracks, rng, None).0;
    let rest = shuffle(tracks.drop_last(), rng_step(rng), None).0;
    assert forall|i: int| 0 <= i < n - 1 implies #[trigger] order[i] == (if rest[i] == j {
        n - 1
    } else {
        rest[i] as int
    }) by {
        assert(order[i] == f(rest[i]));
    }
}

/// One entry or none is its own shuffle, and nothing is drawn for it.
pub proof fn law_short_list_is_not_shuffled(tracks: Seq<Track>, rng: u64, avoid: Option<Track>)
    requires
        tracks.len() <= 1,
    ensures
        shuffle(tracks, rng, avoid).0 == Seq::new(tracks.len(), |i: int| i as usize),
        shuffle(tracks, rng, avoid).1 == rng,
{
}

/// A song to avoid changes nothing but the first two places, and only where it would come first.
pub proof fn law_avoiding_exchanges_two(tracks: Seq<Track>, rng: u64, t: Track)
    requires
        1 < tracks.len() <= usize::MAX,
    ensures
        ({
            let (plain, r) = shuffle(tracks, rng, None);
            let (order, s) = shuffle(tracks, rng, Some(t));
            &&& r == s
            &&& order.len() == plain.len()
            &&& !tracks[plain[0] as int].same(t) ==> order == plain
            &&& tracks[plain[0] as int].same(t) ==> order[0] == plain[1] && order[1] == plain[0]
            &&& forall|i: int| 2 <= i < order.len() ==> #[trigger] order[i] == plain[i]
        }),
{
    lemma_shuffle_is_order(tracks, rng, None);
}

/// Random mode plays the shuffled order from the state of the random numbers, and moves that state
/// on; a random round that is over is followed by another one, shuffled from there, that avoids what
/// was played last. Nothing else draws.
pub proof fn law_rounds_are_shuffled(q: Queue, mode: PlayMode)
    requires
        q.wf(),
    ensures
        q.with_mode(PlayMode::Random).order == shuffle(q.tracks, q.rng, None).0,
        q.with_mode(PlayMode::Random).rng == shuffle(q.tracks, q.rng, None).1,
        mode != PlayMode::Random ==> q.with_mode(mode).rng == q.rng && q.with_mode(mode).playing()
            == q.tracks,
        q.mode == PlayMode::Random && q.order.len() > 0 && q.pos + 1 == q.order.len() ==> {
            &&& q.stepped().order == shuffle(q.tracks, q.rng, q.current()).0
            &&& q.stepped().rng == shuffle(q.tracks, q.rng, q.current()).1
            &&& q.stepped().pos == 0
        },
        q.pos + 1 < q.order.len() ==> q.stepped() == (Queue { pos: q.pos + 1, ..q }),
        q.mode != PlayMode::Random && q.pos + 1 == q.order.len() ==> q.stepped() == (Queue {
            pos: 0,
            ..q
        }),
        q.stepped().tracks == q.tracks,
        q.stepped().mode == q.mode,
        q.rewound() == (Queue { pos: q.rewound().pos, ..q }),
        q.pos > 0 ==> q.rewound().pos == q.pos - 1,
        q.pos == 0 && q.order.len() > 0 ==> q.rewound().pos == q.order.len() - 1,
{
    assert(mode != PlayMode::Random ==> q.with_mode(mode).playing() =~= q.tracks);
}

// ---------- what the operations do to the entries ----------

/// Two entries are the same song if they are of one set and do not name two difficulties.
pub proof fn law_same_song(a: Track, b: Track)
    ensures
        a.same(b) <==> a.set_id@ == b.set_id@ && (a.sha2 is None || b.sha2 is None || a.sha2->0@
            == b.sha2->0@),
        a.same(b) <==> b.same(a),
        a.same(a),
{
}

/// What plays is the entry of the play order at the place of the list.
pub proof fn law_current_is_at_its_place(q: Queue)
    requires
        q.wf(),
    ensures
        q.tracks.len() == 0 <==> q.current() is None,
        q.tracks.len() > 0 ==> q.current() == Some(q.playing()[q.pos]) && q.current() == Some(
            q.tracks[q.order[q.pos] as int],
        ),
{
}

/// Adding to an entry that is there gives it the difficulty, the mods and what is shown, and leaves
/// its number; every other entry stays as it is. A new entry has all of it and the next number.
pub proof fn law_added_entry_holds_what_was_given(q: Queue, t: Track, i: int)
    requires
        q.wf(),
        q.next_qid < u64::MAX,
        q.tracks.len() < usize::MAX,
        0 <= i < q.tracks.len(),
    ensures
        ({
            let r = q.with_track(t);
            let first = q.tracks[i].set_id@ == t.set_id@ && forall|j: int|
                0 <= j < i ==> (#[trigger] q.tracks[j]).set_id@ != t.set_id@;
            &&& first ==> r.tracks[i].sha2 == t.sha2 && r.tracks[i].mods == t.mods
                && r.tracks[i].title == t.title && r.tracks[i].artist == t.artist
                && r.tracks[i].length_ms == t.length_ms && r.tracks[i].qid == q.tracks[i].qid
                && r.tracks[i].set_id@ == t.set_id@ && r.tracks.len() == q.tracks.len()
            &&& !first ==> r.tracks[i] == q.tracks[i]
            &&& r.mode == q.mode && r.rng == q.rng && r.pos == q.pos
        }),
        (forall|j: int| 0 <= j < q.tracks.len() ==> (#[trigger] q.tracks[j]).set_id@ != t.set_id@)
            ==> q.with_track(t).tracks == q.tracks.push((Track { qid: q.next_qid, ..t }))
            && q.with_track(t).next_qid == q.next_qid + 1,
{
    let p = |j: int| q.tracks[j].set_id@ == t.set_id@;
    seqs::lemma_least(q.tracks.len() as int, p);
    let first = q.tracks[i].set_id@ == t.set_id@ && forall|j: int|
        0 <= j < i ==> (#[trigger] q.tracks[j]).set_id@ != t.set_id@;
    if first {
        assert(p(i));
        assert forall|j: int| 0 <= j < i implies !#[trigger] p(j) by {
            assert(q.tracks[j].set_id@ != t.set_id@);
        }
        seqs::lemma_least_found(q.tracks.len() as int, p, i);
    }
    match set_place(q.tracks, t.set_id@) {
        Some(k) => {
            assert(p(k));
            assert(q.tracks[k].set_id@ == t.set_id@);
            assert forall|j: int| 0 <= j < k implies (#[trigger] q.tracks[j]).set_id@ != t.set_id@ by {
                assert(!p(j));
            }
        },
        None => {
            assert(!p(i));
        },
    }
}

/// Setting an entry changes its mods and its difficulty; every other entry, the order and what plays
/// stay.
pub proof fn law_entry_is_set(q: Queue, qid: u64, mods: u32, sha2: Option<String>, i: int)
    requires
        q.wf(),
        0 <= i < q.tracks.len(),
    ensures
        q.with_entry(qid, mods, sha2).tracks.len() == q.tracks.len(),
        q.tracks[i].qid == qid ==> q.with_entry(qid, mods, sha2).tracks[i] == (Track {
            mods,
            sha2,
            ..q.tracks[i]
        }),
        q.tracks[i].qid != qid ==> q.with_entry(qid, mods, sha2).tracks[i] == q.tracks[i],
        q.with_entry(qid, mods, sha2) == (Queue {
            tracks: q.with_entry(qid, mods, sha2).tracks,
            ..q
        }),
{
    let p = |j: int| q.tracks[j].qid == qid;
    seqs::lemma_least(q.tracks.len() as int, p);
    match qid_place(q.tracks, qid) {
        Some(k) => {
            assert(p(k));
            if k != i {
                assert(q.tracks[k].qid != q.tracks[i].qid);
            }
        },
        None => {
            assert(!p(i));
        },
    }
}

/// Setting the mods of several entries sets those of just these.
pub proof fn law_mods_are_set(q: Queue, qids: Seq<u64>, mods: u32, i: int)
    requires
        0 <= i < q.tracks.len(),
    ensures
        qids.contains(q.tracks[i].qid) ==> q.with_mods(qids, mods).tracks[i] == (Track {
            mods,
            ..q.tracks[i]
        }),
        !qids.contains(q.tracks[i].qid) ==> q.with_mods(qids, mods).tracks[i] == q.tracks[i],
        q.with_mods(qids, mods).tracks.len() == q.tracks.len(),
        q.with_mods(qids, mods) == (Queue { tracks: q.with_mods(qids, mods).tracks, ..q }),
{
}

/// What is shown of a song is refreshed in each entry of it, and in no other.
pub proof fn law_shown_names_follow_song(
    q: Queue,
    probe: Track,
    title: String,
    artist: String,
    length_ms: Double,
    i: int,
)
    requires
        0 <= i < q.tracks.len(),
    ensures
        ({
            let r = q.with_meta(probe, title, artist, length_ms);
            &&& q.tracks[i].same(probe) ==> r.tracks[i] == (Track {
                title,
                artist,
                length_ms,
                ..q.tracks[i]
            })
            &&& !q.tracks[i].same(probe) ==> r.tracks[i] == q.tracks[i]
            &&& r.tracks.len() == q.tracks.len()
            &&& r == (Queue { tracks: r.tracks, ..q })
        }),
{
}

/// Aligning goes to the song, where the list holds it: what plays then is the one that was added
/// first. Where the list does not hold it nothing changes, and no entry ever does.
pub proof fn law_align_goes_to_song(q: Queue, set_id: Seq<char>, sha2: Option<String>, i: int)
    requires
        q.wf(),
        0 <= i < q.tracks.len(),
        q.tracks[i].is_song(set_id, sha2),
        forall|j: int| 0 <= j < i ==> !(#[trigger] q.tracks[j]).is_song(set_id, sha2),
    ensures
        q.aligned(set_id, sha2).current() == Some(q.tracks[i]),
        q.aligned(set_id, sha2) == (Queue { pos: q.aligned(set_id, sha2).pos, ..q }),
{
    let p = |j: int| q.tracks[j].is_song(set_id, sha2);
    assert(p(i));
    seqs::lemma_least_found(q.tracks.len() as int, p, i);
    lemma_order_covers(q.order, q.tracks.len(), i);
    let c = choose|c: int| 0 <= c < q.order.len() && #[trigger] q.order[c] == i;
    assert(names(q.order, i)(c));
    seqs::lemma_least_exists(q.order.len() as int, names(q.order, i), c);
}

/// A song that the list does not hold is not gone to.
pub proof fn law_align_needs_song(q: Queue, set_id: Seq<char>, sha2: Option<String>)
    requires
        forall|j: int| 0 <= j < q.tracks.len() ==> !(#[trigger] q.tracks[j]).is_song(set_id, sha2),
    ensures
        q.aligned(set_id, sha2) == q,
{
    let p = |j: int| q.tracks[j].is_song(set_id, sha2);
    seqs::lemma_least_missing(q.tracks.len() as int, p);
}

/// Clearing leaves no entry, and what the list is set to.
pub proof fn law_cleared_is_empty(q: Queue)
    ensures
        q.cleared().tracks.len() == 0,
        q.cleared().current() is None,
        q.cleared().mode == q.mode,
        q.cleared().rng == q.rng,
        q.cleared().next_qid == q.next_qid,
{
}

/// A stored entry comes back with all that was stored of it, and with the next free number.
pub proof fn law_restored_entry_is_the_stored_one(
    q: Queue,
    saved: Seq<SavedTrack>,
    pos: int,
    mode: PlayMode,
    i: int,
)
    requires
        0 <= i < saved.len() <= usize::MAX,
        q.next_qid + saved.len() <= u64::MAX,
        0 <= pos,
    ensures
        ({
            let r = q.restored(saved, pos, mode);
            &&& r.tracks.len() == saved.len()
            &&& r.tracks[i].set_id == saved[i].set_id
            &&& r.tracks[i].sha2 == saved[i].sha2
            &&& r.tracks[i].mods == saved[i].mods
            &&& r.tracks[i].title == saved[i].title
            &&& r.tracks[i].artist == saved[i].artist
            &&& r.tracks[i].length_ms == saved[i].length_ms
            &&& r.tracks[i].qid == q.next_qid + i
            &&& r.playing() == r.tracks
            &&& r.mode == mode
            &&& pos < saved.len() ==> r.pos == pos
            &&& pos >= saved.len() ==> r.pos == saved.len() - 1
            &&& r.next_qid == q.next_qid + saved.len()
        }),
{
    let r = q.restored(saved, pos, mode);
    assert(r.playing() =~= r.tracks);
}

/// Pruning decides each entry by itself, by whether a set of the library has the id, and keeps the
/// order of those that stay: with one more entry at the end the same ones stay, and that one if it
/// is in the library. The list is then played in that order.
pub proof fn law_prune_decides_each_entry(q: Queue, t: Track, lib: LazerLibrary)
    requires
        q.tracks.len() < usize::MAX,
    ensures
        ({
            let more = Queue { tracks: q.tracks.push(t), ..q };
            let found = exists|i: int|
                0 <= i < lib.sets@.len() && (#[trigger] lib.sets@[i]).id@ == t.set_id@;
            &&& found ==> more.pruned(lib).tracks == q.pruned(lib).tracks.push(t)
            &&& !found ==> more.pruned(lib).tracks == q.pruned(lib).tracks
        }),
        q.tracks.len() == 0 ==> q.pruned(lib).tracks.len() == 0,
        q.pruned(lib).playing() == q.pruned(lib).tracks,
        q.pruned(lib).mode == q.mode,
        q.pruned(lib).rng == q.rng,
        q.pruned(lib).next_qid == q.next_qid,
{
    broadcast use vstd::seq_lib::group_filter_ensures;

    reveal(Seq::filter);
    assert(q.tracks.push(t).drop_last() =~= q.tracks);
    assert(q.pruned(lib).playing() =~= q.pruned(lib).tracks);
    let found = exists|i: int|
        0 <= i < lib.sets@.len() && (#[trigger] lib.sets@[i]).id@ == t.set_id@;
    if found {
        let i = choose|i: int|
            0 <= i < lib.sets@.len() && (#[trigger] lib.sets@[i]).id@ == t.set_id@;
        assert(lib.sets@[i].id@ == t.set_id@);
        assert(in_library(lib, t.set_id@));
    } else if in_library(lib, t.set_id@) {
        let i = choose|i: int| 0 <= i < lib.sets@.len() && #[trigger] lib.sets@[i].id@ == t.set_id@;
        assert(lib.sets@[i].id@ == t.set_id@);
    }
}

/// What plays and stays in the library goes on being the same song after pruning.
pub proof fn law_prune_keeps_song(q: Queue, lib: LazerLibrary)
    requires
        q.wf(),
        q.current() is Some,
    ensures
        in_library(lib, q.current()->0.set_id@) ==> q.pruned(lib).current() is Some && q.pruned(
            lib,
        ).current()->0.same(q.current()->0),
        !in_library(lib, q.current()->0.set_id@) ==> q.pruned(lib).pos == 0,
{
    broadcast use vstd::seq_lib::group_filter_ensures;

    let t = q.current()->0;
    let keep = |t: Track| in_library(lib, t.set_id@);
    let kept = q.pruned(lib).tracks;
    if in_library(lib, t.set_id@) {
        assert(keep(q.tracks[q.order[q.pos] as int]));
        assert(kept.contains(t));
        let k = choose|k: int| 0 <= k < kept.len() && kept[k] == t;
        let p = |i: int| kept[i].is_song(t.set_id@, t.sha2);
        assert(p(k));
        seqs::lemma_least_exists(kept.len() as int, p, k);
    }
}

// ---------- which difficulty is picked ----------

/// No target asks for the hardest, one below zero for the easiest, and any other for the nearest.
pub proof fn law_target_says_how_to_pick(t: Double)
    ensures
        policy_for(None) == PickPolicy::Hardest,
        0x8000_0000_0000_0000 < t.bits <= 0xFFF0_0000_0000_0000 ==> policy_for(Some(t))
            == PickPolicy::Easiest,
        !(0x8000_0000_0000_0000 < t.bits <= 0xFFF0_0000_0000_0000) ==> policy_for(Some(t))
            == PickPolicy::Custom(t),
{
}

/// Of ratings that are numbers, the hardest is one that no other is above, the easiest one that no
/// other is below, and the nearest one that none is nearer than; each is the first of its kind.
pub proof fn law_pick_is_extreme(stars: Seq<Double>, distance: Seq<Double>, target: Double, i: int)
    requires
        0 <= i < stars.len(),
        stars.len() == distance.len(),
        forall|k: int| 0 <= k < stars.len() ==> !(#[trigger] stars[k]).nan(),
        forall|k: int| 0 <= k < distance.len() ==> !(#[trigger] distance[k]).nan(),
    ensures
        ({
            let h = picked(PickPolicy::Hardest, stars, distance, stars.len());
            let e = picked(PickPolicy::Easiest, stars, distance, stars.len());
            let c = picked(PickPolicy::Custom(target), stars, distance, stars.len());
            &&& 0 <= h < stars.len() && 0 <= e < stars.len() && 0 <= c < stars.len()
            &&& stars[i].at_most(stars[h])
            &&& stars[e].at_most(stars[i])
            &&& distance[c].at_most(distance[i])
            &&& i < h ==> stars[i].below(stars[h])
            &&& i < e ==> stars[e].below(stars[i])
            &&& i < c ==> distance[c].below(distance[i])
        }),
{
    let n = stars.len();
    law_pick_is_first_best(PickPolicy::Hardest, stars, distance, n);
    law_pick_is_first_best(PickPolicy::Easiest, stars, distance, n);
    law_pick_is_first_best(PickPolicy::Custom(target), stars, distance, n);
    let h = picked(PickPolicy::Hardest, stars, distance, n);
    let e = picked(PickPolicy::Easiest, stars, distance, n);
    let c = picked(PickPolicy::Custom(target), stars, distance, n);
    assert(!stars[i].nan() && !stars[h].nan() && !stars[e].nan());
    assert(!distance[i].nan() && !distance[c].nan());
    assert(deciding(PickPolicy::Hardest, stars, distance)[i] == stars[i]);
    assert(deciding(PickPolicy::Custom(target), stars, distance)[i] == distance[i]);
}

/// The modes are stored under their names.
pub proof fn law_modes_have_names()
    ensures
        PlayMode::SingleLoop.name() == "single_loop"@,
        PlayMode::ListOrder.name() == "list_order"@,
        PlayMode::Random.name() == "random"@,
{
}

/// An entry stands for a song of its set, unless both name a difficulty and not the same.
pub proof fn law_entry_stands_for_its_songs(t: Track, set_id: Seq<char>, sha2: Option<String>)
    ensures
        t.set_id@ != set_id ==> !t.is_song(set_id, sha2),
        t.set_id@ == set_id && (t.sha2 is None || sha2 is None) ==> t.is_song(set_id, sha2),
        t.set_id@ == set_id && t.sha2 is Some && sha2 is Some ==> (t.is_song(set_id, sha2)
            <==> t.sha2->0@ == sha2->0@),
{
}

/// What is not in the list cannot be taken out or moved; taking out and moving change neither the
/// mode nor the numbers that are drawn.
pub proof fn law_missing_entries_change_nothing(q: Queue, qid: u64, from: int, to: int)
    ensures
        (forall|i: int| 0 <= i < q.tracks.len() ==> (#[trigger] q.tracks[i]).qid != qid) ==> q.without(
            qid,
        ) == q,
        from >= q.tracks.len() || to >= q.tracks.len() || from == to ==> q.reordered(from, to) == q,
        q.without(qid).mode == q.mode && q.without(qid).rng == q.rng && q.without(qid).next_qid
            == q.next_qid,
        q.reordered(from, to).mode == q.mode && q.reordered(from, to).rng == q.rng,
        q.reordered(from, to).next_qid == q.next_qid,
{
    if forall|i: int| 0 <= i < q.tracks.len() ==> (#[trigger] q.tracks[i]).qid != qid {
        let p = |i: int| q.tracks[i].qid == qid;
        assert forall|i: int| 0 <= i < q.tracks.len() implies !#[trigger] p(i) by {
            assert(q.tracks[i].qid != qid);
        }
        seqs::lemma_least_missing(q.tracks.len() as int, p);
    }
}

/// A library holds a set if one of its sets has the id.
pub proof fn law_library_holds_by_id(lib: LazerLibrary, id: Seq<char>, i: int)
    ensures
        0 <= i < lib.sets@.len() && lib.sets@[i].id@ == id ==> in_library(lib, id),
        (forall|j: int| 0 <= j < lib.sets@.len() ==> (#[trigger] lib.sets@[j]).id@ != id)
            ==> !in_library(lib, id),
{
}

} // verus!
