//! Where the files of the sets that were played lie, so that a playlist plays without the
//! databases being read.
use vstd::prelude::*;

use crate::ieee::Double;
use crate::ipc::VFile;
use crate::seqs;
use crate::text;

verus! {

/// A difficulty: what is shown of it and where its beatmap lies.
#[derive(Debug)]
pub struct CachedDiff {
    pub sha2: String,
    pub name: String,
    pub star: Double,
    pub length_ms: Double,
    pub osu_path: String,
}

/// A set: its difficulties, and its files by name where it is not a directory.
#[derive(Debug)]
pub struct CachedSet {
    pub diffs: Vec<CachedDiff>,
    pub manifest: Option<Vec<VFile>>,
}

#[derive(Debug)]
pub struct CacheEntry {
    pub set_id: String,
    pub set: CachedSet,
}

/// So many sets are kept.
pub const MAX_SETS: usize = 400;

/// The sets with their names, in the order in which they came.
pub type Entries = Seq<(Seq<char>, CachedSet)>;

pub open spec fn entries_of(v: Seq<CacheEntry>) -> Entries {
    v.map_values(|e: CacheEntry| (e.set_id@, e.set))
}

pub open spec fn named(c: Entries, id: Seq<char>) -> spec_fn(int) -> bool {
    |i: int| c[i].0 == id
}

pub open spec fn place(c: Entries, id: Seq<char>) -> Option<int> {
    seqs::least(c.len() as int, named(c, id))
}

pub open spec fn distinct(c: Entries) -> bool {
    forall|i: int, j: int| 0 <= i < j < c.len() ==> (#[trigger] c[i]).0 != (#[trigger] c[j]).0
}

pub open spec fn found(c: Entries, id: Seq<char>) -> Option<CachedSet> {
    match place(c, id) {
        Some(i) => Some(c[i].1),
        None => None,
    }
}

/// A set that is there already is replaced where it stands; for another one the oldest makes room.
pub open spec fn with_set(c: Entries, id: Seq<char>, set: CachedSet) -> Entries {
    match place(c, id) {
        Some(i) => c.update(i, (id, set)),
        None => (if c.len() >= MAX_SETS {
            c.skip(1)
        } else {
            c
        }).push((id, set)),
    }
}

pub open spec fn without_set(c: Entries, id: Seq<char>) -> Entries {
    match place(c, id) {
        Some(i) => c.remove(i),
        None => c,
    }
}

/// What a list of entries says: the last of a name counts, where the first of it stands.
pub open spec fn gathered(v: Entries) -> Entries
    decreases v.len(),
{
    if v.len() == 0 {
        v
    } else {
        let before = gathered(v.drop_last());
        match place(before, v.last().0) {
            Some(i) => before.update(i, v.last()),
            None => before.push(v.last()),
        }
    }
}

pub struct PathCache {
    entries: Vec<CacheEntry>,
}

impl View for PathCache {
    type V = Entries;

    closed spec fn view(&self) -> Entries {
        entries_of(self.entries@)
    }
}

impl PathCache {
    pub fn new() -> (r: PathCache)
        ensures
            r@ == Seq::<(Seq<char>, CachedSet)>::empty(),
    {
        let r = PathCache { entries: Vec::new() };
        assert(r@ =~= Seq::<(Seq<char>, CachedSet)>::empty());
        r
    }

    fn position(&self, set_id: &str) -> (r: Option<usize>)
        ensures
            match r {
                Some(i) => i < self.entries@.len() && place(self@, set_id@) == Some(i as int),
                None => place(self@, set_id@) is None,
            },
    {
        let mut i: usize = 0;
        while i < self.entries.len()
            invariant
                i <= self.entries@.len(),
                forall|j: int| 0 <= j < i ==> !#[trigger] named(self@, set_id@)(j),
            decreases self.entries.len() - i,
        {
            if text::same(self.entries[i].set_id.as_str(), set_id) {
                proof {
                    assert(named(self@, set_id@)(i as int));
                    seqs::lemma_least_found(
                        self@.len() as int,
                        named(self@, set_id@),
                        i as int,
                    );
                }
                return Some(i);
            }
            i = i + 1;
        }
        None
    }

    /// The cache that a stored list gives.
    pub fn load(stored: Vec<CacheEntry>) -> (r: PathCache)
        ensures
            r@ == gathered(entries_of(stored@)),
    {
        let ghost all = entries_of(stored@);
        let mut r = PathCache::new();
        let ghost given = stored@;
        proof {
            assert(all.take(0) =~= Seq::<(Seq<char>, CachedSet)>::empty());
        }
        for e in it: stored.into_iter()
            invariant
                it.seq() == given,
                all == entries_of(given),
                r@ == gathered(all.take(it.index() as int)),
        {
            let ghost i = it.index() as int;
            let ghost before = r@;
            proof {
                assert(all.take(i + 1).drop_last() =~= all.take(i));
                assert(all.take(i + 1).last() == (e.set_id@, e.set));
            }
            let at: Option<usize> = r.position(e.set_id.as_str());
            let ghost entry = (e.set_id@, e.set);
            match at {
                Some(k) => {
                    r.entries.set(k, e);
                    assert(r@ =~= before.update(k as int, entry));
                },
                None => {
                    r.entries.push(e);
                    assert(r@ =~= before.push(entry));
                },
            }
        }
        assert(all.take(all.len() as int) =~= all);
        r
    }

    /// The list to store.
    pub fn entries(&self) -> (r: &Vec<CacheEntry>)
        ensures
            entries_of(r@) == self@,
    {
        &self.entries
    }

    pub fn get(&self, set_id: &str) -> (r: Option<&CachedSet>)
        ensures
            match r {
                Some(set) => found(self@, set_id@) == Some(*set),
                None => found(self@, set_id@) is None,
            },
    {
        match self.position(set_id) {
            Some(i) => Some(&self.entries[i].set),
            None => None,
        }
    }

    pub fn put(&mut self, set_id: &str, set: CachedSet)
        ensures
            final(self)@ == with_set(old(self)@, set_id@, set),
    {
        let entry = CacheEntry { set_id: text::owned(set_id), set };
        let ghost before = self@;
        match self.position(set_id) {
            Some(i) => {
                self.entries.set(i, entry);
                assert(self@ =~= before.update(i as int, (set_id@, set)));
            },
            None => {
                if self.entries.len() >= MAX_SETS {
                    let _ = self.entries.remove(0);
                    assert(self@ =~= before.skip(1));
                }
                let ghost room = self@;
                self.entries.push(entry);
                assert(self@ =~= room.push((set_id@, set)));
            },
        }
    }

    /// Whether there was such a set.
    pub fn remove(&mut self, set_id: &str) -> (r: bool)
        ensures
            final(self)@ == without_set(old(self)@, set_id@),
            r == (place(old(self)@, set_id@) is Some),
    {
        let ghost before = self@;
        match self.position(set_id) {
            Some(i) => {
                let _ = self.entries.remove(i);
                assert(self@ =~= before.remove(i as int));
                true
            },
            None => false,
        }
    }
}

proof fn lemma_place_of(c: Entries, i: int)
    requires
        distinct(c),
        0 <= i < c.len(),
    ensures
        place(c, c[i].0) == Some(i),
{
    let p = named(c, c[i].0);
    assert(p(i));
    seqs::lemma_least_found(c.len() as int, p, i);
}

proof fn lemma_no_place(c: Entries, id: Seq<char>)
    requires
        forall|i: int| 0 <= i < c.len() ==> (#[trigger] c[i]).0 != id,
    ensures
        place(c, id) is None,
{
    seqs::lemma_least_missing(c.len() as int, named(c, id));
}

proof fn lemma_place(c: Entries, id: Seq<char>)
    ensures
        match place(c, id) {
            Some(i) => 0 <= i < c.len() && c[i].0 == id,
            None => forall|i: int| 0 <= i < c.len() ==> (#[trigger] c[i]).0 != id,
        },
{
    let p = named(c, id);
    seqs::lemma_least(c.len() as int, p);
    if place(c, id) is None {
        assert forall|i: int| 0 <= i < c.len() implies (#[trigger] c[i]).0 != id by {
            assert(!p(i));
        }
    }
}

/// No set stands in the cache twice, whatever is put and removed.
pub proof fn law_sets_stay_distinct(c: Entries, id: Seq<char>, set: CachedSet)
    requires
        distinct(c),
    ensures
        distinct(with_set(c, id, set)),
        distinct(without_set(c, id)),
{
    lemma_place(c, id);
}

/// A stored list gives a cache in which no set stands twice; where none stood twice in the list,
/// it is the list.
pub proof fn law_loaded_is_distinct(v: Entries)
    ensures
        distinct(gathered(v)),
        distinct(v) ==> gathered(v) == v,
    decreases v.len(),
{
    if v.len() > 0 {
        let front = v.drop_last();
        law_loaded_is_distinct(front);
        lemma_place(gathered(front), v.last().0);
        if distinct(v) {
            assert(distinct(front));
            assert(front.push(v.last()) =~= v);
            assert(place(front, v.last().0) is None) by {
                lemma_no_place(front, v.last().0);
            }
        }
    }
}

/// What was put is found, whatever was there before.
pub proof fn law_put_is_found(c: Entries, id: Seq<char>, set: CachedSet)
    requires
        distinct(c),
    ensures
        found(with_set(c, id, set), id) == Some(set),
{
    law_sets_stay_distinct(c, id, set);
    lemma_place(c, id);
    let after = with_set(c, id, set);
    let i = match place(c, id) {
        Some(i) => i,
        None => after.len() - 1,
    };
    assert(after[i] == (id, set));
    lemma_place_of(after, i);
}

/// Putting a set loses no other but the oldest, and that only when the cache is full and the set
/// is new.
pub proof fn law_put_keeps_others(c: Entries, id: Seq<char>, set: CachedSet, other: Seq<char>)
    requires
        distinct(c),
        other != id,
        !(c.len() >= MAX_SETS && place(c, id) is None && c[0].0 == other),
    ensures
        found(with_set(c, id, set), other) == found(c, other),
{
    let after = with_set(c, id, set);
    law_sets_stay_distinct(c, id, set);
    lemma_place(c, id);
    lemma_place(c, other);
    match place(c, other) {
        Some(k) => {
            let shift: int = if place(c, id) is None && c.len() >= MAX_SETS {
                1
            } else {
                0
            };
            assert(after[k - shift] == c[k]);
            lemma_place_of(after, k - shift);
        },
        None => {
            assert forall|i: int| 0 <= i < after.len() implies (#[trigger] after[i]).0 != other by {
                if place(c, id) is None && c.len() >= MAX_SETS && i < after.len() - 1 {
                    assert(after[i] == c[i + 1]);
                }
            }
            lemma_no_place(after, other);
        },
    }
}

/// A cache that is not over its limit never gets there.
pub proof fn law_cache_stays_small(c: Entries, id: Seq<char>, set: CachedSet)
    requires
        c.len() <= MAX_SETS,
    ensures
        with_set(c, id, set).len() <= MAX_SETS,
        without_set(c, id).len() <= MAX_SETS,
{
    lemma_place(c, id);
}

/// What was removed is not found, and nothing else goes with it.
pub proof fn law_removed_is_gone(c: Entries, id: Seq<char>, other: Seq<char>)
    requires
        distinct(c),
    ensures
        found(without_set(c, id), id) is None,
        other != id ==> found(without_set(c, id), other) == found(c, other),
{
    let after = without_set(c, id);
    law_sets_stay_distinct(c, id, arbitrary());
    lemma_place(c, id);
    assert forall|i: int| 0 <= i < after.len() implies (#[trigger] after[i]).0 != id by {
        if place(c, id) is Some {
            let k = place(c, id)->0;
            assert(after[i] == if i < k { c[i] } else { c[i + 1] });
        }
    }
    lemma_no_place(after, id);
    if other != id {
        lemma_place(c, other);
        match place(c, other) {
            Some(k) => {
                let j = if place(c, id) is Some && place(c, id)->0 < k {
                    k - 1
                } else {
                    k
                };
                assert(after[j] == c[k]);
                lemma_place_of(after, j);
            },
            None => {
                assert forall|i: int| 0 <= i < after.len() implies (#[trigger] after[i]).0
                    != other by {
                    if place(c, id) is Some {
                        let k = place(c, id)->0;
                        assert(after[i] == if i < k { c[i] } else { c[i + 1] });
                    }
                }
                lemma_no_place(after, other);
            },
        }
    }
}

/// A set is found under its name, and only there; the first of a name counts.
pub proof fn law_found_by_name(c: Entries, id: Seq<char>, i: int)
    ensures
        0 <= i < c.len() && c[i].0 == id && (forall|j: int| 0 <= j < i ==> (#[trigger] c[j]).0 != id)
            ==> found(c, id) == Some(c[i].1),
        (forall|j: int| 0 <= j < c.len() ==> (#[trigger] c[j]).0 != id) ==> found(c, id) is None,
{
    let p = named(c, id);
    if 0 <= i < c.len() && c[i].0 == id && (forall|j: int| 0 <= j < i ==> (#[trigger] c[j]).0 != id) {
        assert(p(i));
        assert forall|j: int| 0 <= j < i implies !#[trigger] p(j) by {
            assert(c[j].0 != id);
        }
        seqs::lemma_least_found(c.len() as int, p, i);
    }
    if forall|j: int| 0 <= j < c.len() ==> (#[trigger] c[j]).0 != id {
        lemma_no_place(c, id);
    }
}

/// A set that is new comes last. Where four hundred are there already, the one that came first
/// goes; with fewer, none does.
pub proof fn law_oldest_makes_room(c: Entries, id: Seq<char>, set: CachedSet)
    requires
        forall|j: int| 0 <= j < c.len() ==> (#[trigger] c[j]).0 != id,
    ensures
        with_set(c, id, set).last() == (id, set),
        c.len() < 400 ==> with_set(c, id, set).drop_last() == c,
        c.len() >= 400 ==> with_set(c, id, set).drop_last() == c.subrange(1, c.len() as int),
{
    lemma_no_place(c, id);
    assert(with_set(c, id, set).drop_last() =~= if c.len() >= 400 {
        c.subrange(1, c.len() as int)
    } else {
        c
    });
}

/// A set that is there already keeps its place.
pub proof fn law_known_set_keeps_its_place(c: Entries, i: int, j: int, set: CachedSet)
    requires
        distinct(c),
        0 <= i < c.len(),
        0 <= j < c.len(),
    ensures
        with_set(c, c[i].0, set).len() == c.len(),
        with_set(c, c[i].0, set)[i] == (c[i].0, set),
        i != j ==> with_set(c, c[i].0, set)[j] == c[j],
{
    lemma_place_of(c, i);
}

/// Of a stored list the last entry of a name counts.
pub proof fn law_last_entry_counts(v: Entries, e: (Seq<char>, CachedSet), other: Seq<char>)
    ensures
        found(gathered(v.push(e)), e.0) == Some(e.1),
        other != e.0 ==> found(gathered(v.push(e)), other) == found(gathered(v), other),
        gathered(Seq::<(Seq<char>, CachedSet)>::empty()).len() == 0,
{
    let before = gathered(v);
    let after = gathered(v.push(e));
    assert(v.push(e).drop_last() =~= v);
    law_loaded_is_distinct(v);
    law_loaded_is_distinct(v.push(e));
    lemma_place(before, e.0);
    let at = match place(before, e.0) {
        Some(i) => i,
        None => after.len() - 1,
    };
    assert(after[at] == e);
    lemma_place_of(after, at);
    if other != e.0 {
        lemma_place(before, other);
        match place(before, other) {
            Some(k) => {
                assert(after[k] == before[k]);
                lemma_place_of(after, k);
            },
            None => {
                assert forall|i: int| 0 <= i < after.len() implies (#[trigger] after[i]).0 != other by {
                    if i != at {
                        assert(after[i] == before[i]);
                    }
                }
                lemma_no_place(after, other);
            },
        }
    }
}

/// An entry is its name and its set.
pub proof fn law_entries_are_names_and_sets(v: Seq<CacheEntry>, i: int)
    requires
        0 <= i < v.len(),
    ensures
        entries_of(v).len() == v.len(),
        entries_of(v)[i].0 == v[i].set_id@,
        entries_of(v)[i].1 == v[i].set,
{
}

} // verus!
