//! The files of a beatmap set by name, and the hit sound samples that are looked up in them.
use vstd::prelude::*;

use vstd::hash_map::StringHashMap;

use crate::ipc::VFile;
use crate::seqs;
use crate::sorting;
use crate::text;

verus! {

/// A name as it is compared: without quotes and white space around it, with slashes, in lower
/// case.
pub open spec fn norm(name: Seq<char>) -> Seq<char> {
    text::unicode_lower(
        text::replaced(text::trimmed_char(text::trimmed(name), '"'), '\\', '/'),
    )
}

fn normalize(name: &str) -> (r: String)
    ensures
        r@ == norm(name@),
{
    let bare: String = text::trim_matches(text::trim(name).as_str(), '"');
    let flat: String = text::replace_char(bare.as_str(), '\\', '/');
    flat.as_str().to_lowercase()
}

/// What follows the last separator.
pub open spec fn after_last(s: Seq<char>, sep: spec_fn(char) -> bool) -> Seq<char> {
    text::split(s, sep).last()
}

/// Where each name leads, the first file of a name first.
pub open spec fn table(files: Seq<VFile>) -> Map<Seq<char>, Seq<char>>
    decreases files.len(),
{
    if files.len() == 0 {
        Map::empty()
    } else {
        let before = table(files.drop_last());
        let f = files.last();
        if before.dom().contains(norm(f.name@)) {
            before
        } else {
            before.insert(norm(f.name@), f.path@)
        }
    }
}

/// Where a name leads: by the whole of it, else by what follows its last slash.
pub open spec fn lookup(m: Map<Seq<char>, Seq<char>>, name: Seq<char>) -> Option<Seq<char>> {
    let n = norm(name);
    let base = after_last(n, text::is_char('/'));
    if m.dom().contains(n) {
        Some(m[n])
    } else if m.dom().contains(base) {
        Some(m[base])
    } else {
        None
    }
}

/// `k` is the first of the storyboards in the order of names.
pub open spec fn is_first_osb(m: Map<Seq<char>, Seq<char>>, k: Seq<char>) -> bool {
    &&& m.dom().contains(k)
    &&& text::ends(k, ".osb"@)
    &&& forall|j: Seq<char>| #[trigger]
        m.dom().contains(j) && text::ends(j, ".osb"@) ==> sorting::lex_le(k, j)
}

/// The files of a set, found by name whatever the case and the separators.
pub struct VirtualFiles {
    names: Vec<String>,
    paths: Vec<String>,
    index: StringHashMap<usize>,
}

impl View for VirtualFiles {
    type V = Map<Seq<char>, Seq<char>>;

    closed spec fn view(&self) -> Map<Seq<char>, Seq<char>> {
        Map::new(
            |k: Seq<char>| self.index@.dom().contains(k),
            |k: Seq<char>| self.paths@[self.index@[k] as int]@,
        )
    }
}

impl VirtualFiles {
    /// The names are distinct and lead to their paths.
    pub closed spec fn wf(&self) -> bool {
        &&& self.names@.len() == self.paths@.len()
        &&& forall|i: int|
            0 <= i < self.names@.len() ==> self.index@.dom().contains((#[trigger] self.names@[i])@)
                && self.index@[self.names@[i]@] == i
        &&& forall|k: Seq<char>| #[trigger]
            self.index@.dom().contains(k) ==> self.index@[k] < self.names@.len()
                && self.names@[self.index@[k] as int]@ == k
    }

    pub fn new(files: &Vec<VFile>) -> (r: VirtualFiles)
        ensures
            r.wf(),
            r@ == table(files@),
    {
        let mut r = VirtualFiles {
            names: Vec::new(),
            paths: Vec::new(),
            index: StringHashMap::new(),
        };
        let mut i: usize = 0;
        assert(r@ =~= table(files@.take(0)));
        while i < files.len()
            invariant
                i <= files@.len(),
                r.names@.len() <= i,
                r.wf(),
                r@ == table(files@.take(i as int)),
            decreases files.len() - i,
        {
            assert(files@.take(i + 1).drop_last() =~= files@.take(i as int));
            let key: String = normalize(files[i].name.as_str());
            let ghost before = r@;
            let ghost n = r.names@.len();
            let ghost old_index = r.index@;
            let ghost old_names = r.names@;
            if !r.index.contains_key(key.as_str()) {
                r.index.insert(key.clone(), r.names.len());
                r.names.push(key);
                r.paths.push(files[i].path.clone());
                proof {
                    assert forall|k: Seq<char>| #[trigger] r.index@.dom().contains(k) implies r.index@[k]
                        < r.names@.len() && r.names@[r.index@[k] as int]@ == k by {
                        if k != key@ {
                            assert(old_index.dom().contains(k));
                        }
                    }
                    assert forall|j: int| 0 <= j < r.names@.len() implies r.index@.dom().contains(
                        (#[trigger] r.names@[j])@,
                    ) && r.index@[r.names@[j]@] == j by {
                        if j < n {
                            assert(old_names[j] == r.names@[j]);
                            assert(old_index.dom().contains(old_names[j]@));
                        }
                    }
                    assert(r@ =~= before.insert(key@, files@[i as int].path@));
                }
            }
            i = i + 1;
        }
        assert(files@.take(files@.len() as int) =~= files@);
        r
    }

    fn path_of(&self, key: &str) -> (r: Option<String>)
        requires
            self.wf(),
        ensures
            match r {
                Some(p) => self@.dom().contains(key@) && p@ == self@[key@],
                None => !self@.dom().contains(key@),
            },
    {
        match self.index.get(key) {
            Some(i) => Some(self.paths[*i].clone()),
            None => None,
        }
    }

    /// Where a file of the set lies.
    pub fn resolve(&self, name: &str) -> (r: Option<String>)
        requires
            self.wf(),
        ensures
            match r {
                Some(p) => lookup(self@, name@) == Some(p@),
                None => lookup(self@, name@) is None,
            },
    {
        let n: String = normalize(name);
        if let Some(p) = self.path_of(n.as_str()) {
            return Some(p);
        }
        let pieces: Vec<String> = text::split_on(n.as_str(), '/');
        assert(text::views(pieces@).last() == pieces@.last()@);
        self.path_of(pieces[pieces.len() - 1].as_str())
    }

    /// Where the storyboard of the set lies: the first of them in the order of names.
    pub fn osb_path(&self) -> (r: Option<String>)
        requires
            self.wf(),
        ensures
            match r {
                Some(p) => exists|k: Seq<char>| #[trigger] is_first_osb(self@, k) && p@ == self@[k],
                None => forall|k: Seq<char>| #[trigger]
                    self@.dom().contains(k) ==> !text::ends(k, ".osb"@),
            },
    {
        let mut best: Option<usize> = None;
        let mut i: usize = 0;
        while i < self.names.len()
            invariant
                i <= self.names@.len(),
                match best {
                    Some(k) => {
                        &&& k < i
                        &&& text::ends(self.names@[k as int]@, ".osb"@)
                        &&& forall|j: int|
                            0 <= j < i && text::ends((#[trigger] self.names@[j])@, ".osb"@)
                                ==> sorting::lex_le(self.names@[k as int]@, self.names@[j]@)
                    },
                    None => forall|j: int|
                        0 <= j < i ==> !text::ends((#[trigger] self.names@[j])@, ".osb"@),
                },
            decreases self.names.len() - i,
        {
            if text::ends_with(self.names[i].as_str(), ".osb") {
                match best {
                    Some(k) => {
                        if sorting::str_lt(self.names[i].as_str(), self.names[k].as_str()) {
                            proof {
                                let a = self.names@[i as int]@;
                                let b = self.names@[k as int]@;
                                sorting::lemma_lex_order(a, b, b);
                                assert forall|j: int|
                                    0 <= j < i + 1 && text::ends(
                                        (#[trigger] self.names@[j])@,
                                        ".osb"@,
                                    ) implies sorting::lex_le(a, self.names@[j]@) by {
                                    sorting::lemma_lex_order(a, b, self.names@[j]@);
                                    sorting::lemma_lex_order(a, a, a);
                                    sorting::lemma_lex_order(b, self.names@[j]@, a);
                                }
                            }
                            best = Some(i);
                        }
                    },
                    None => {
                        proof {
                            let a = self.names@[i as int]@;
                            sorting::lemma_lex_order(a, a, a);
                        }
                        best = Some(i);
                    },
                }
            }
            i = i + 1;
        }
        match best {
            Some(k) => {
                proof {
                    let key = self.names@[k as int]@;
                    assert(self@.dom().contains(key));
                    assert forall|j: Seq<char>| #[trigger]
                        self@.dom().contains(j) && text::ends(j, ".osb"@) implies sorting::lex_le(
                        key,
                        j,
                    ) by {
                        assert(self.names@[self.index@[j] as int]@ == j);
                    }
                    assert(is_first_osb(self@, key));
                }
                Some(self.paths[k].clone())
            },
            None => {
                proof {
                    assert forall|k: Seq<char>| #[trigger]
                        self@.dom().contains(k) implies !text::ends(k, ".osb"@) by {
                        assert(self.names@[self.index@[k] as int]@ == k);
                    }
                }
                None
            },
        }
    }

    /// Where the sample with this stem lies: as it is, else as a wav, an mp3 or an ogg.
    pub fn sample_path(&self, stem: &str) -> (r: Option<String>)
        requires
            self.wf(),
        ensures
            match r {
                Some(p) => find_sample(self@, stem@) == Some(p@),
                None => find_sample(self@, stem@) is None,
            },
    {
        let flat: String = text::replace_char(stem, '\\', '/');
        if let Some(p) = self.resolve(flat.as_str()) {
            return Some(p);
        }
        if let Some(p) = self.resolve(flat.clone().concat(".wav").as_str()) {
            return Some(p);
        }
        if let Some(p) = self.resolve(flat.clone().concat(".mp3").as_str()) {
            return Some(p);
        }
        self.resolve(flat.concat(".ogg").as_str())
    }
}

/// Where a sample is found.
pub open spec fn find_sample(m: Map<Seq<char>, Seq<char>>, stem: Seq<char>) -> Option<Seq<char>> {
    let s = text::replaced(stem, '\\', '/');
    if lookup(m, s) is Some {
        lookup(m, s)
    } else if lookup(m, s + ".wav"@) is Some {
        lookup(m, s + ".wav"@)
    } else if lookup(m, s + ".mp3"@) is Some {
        lookup(m, s + ".mp3"@)
    } else {
        lookup(m, s + ".ogg"@)
    }
}

/// The table knows the names of its files and no others, and of files with one name the first.
pub proof fn law_table_holds_first(files: Seq<VFile>, name: Seq<char>)
    ensures
        match seqs::least(files.len() as int, |i: int| norm(files[i].name@) == name) {
            Some(i) => table(files).dom().contains(name) && table(files)[name] == files[i].path@,
            None => !table(files).dom().contains(name),
        },
    decreases files.len(),
{
    let p = |i: int| norm(files[i].name@) == name;
    seqs::lemma_least(files.len() as int, p);
    if files.len() > 0 {
        let head = files.drop_last();
        let q = |i: int| norm(head[i].name@) == name;
        law_table_holds_first(head, name);
        seqs::lemma_least(head.len() as int, q);
        match seqs::least(head.len() as int, q) {
            Some(i) => {
                assert(p(i));
                assert forall|j: int| 0 <= j < i implies !#[trigger] p(j) by {
                    assert(!q(j));
                }
                seqs::lemma_least_found(files.len() as int, p, i);
            },
            None => {
                let last = files.len() - 1;
                assert forall|j: int| 0 <= j < last implies !#[trigger] p(j) by {
                    assert(!q(j));
                }
                if norm(files.last().name@) == name {
                    assert(p(last));
                    seqs::lemma_least_found(files.len() as int, p, last);
                } else {
                    assert(!p(last));
                    seqs::lemma_least_missing(files.len() as int, p);
                }
            },
        }
    }
}

/// A file is found under every spelling of its name that is the same without case, quotes and the
/// kind of slash.
pub proof fn law_found_under_any_spelling(files: Seq<VFile>, k: int, name: Seq<char>)
    requires
        0 <= k < files.len(),
        norm(name) == norm(files[k].name@),
    ensures
        lookup(table(files), name) is Some,
        lookup(table(files), name) == lookup(table(files), files[k].name@),
{
    law_table_holds_first(files, norm(name));
    let p = |i: int| norm(files[i].name@) == norm(name);
    assert(p(k));
    seqs::lemma_least_exists(files.len() as int, p, k);
}

/// The last part of a path, behind the last slash or backslash.
pub open spec fn basename(p: Seq<char>) -> Seq<char> {
    after_last(text::replaced(p, '\\', '/'), text::is_char('/'))
}

pub fn basename_of(p: &str) -> (r: String)
    ensures
        r@ == basename(p@),
{
    let flat: String = text::replace_char(p, '\\', '/');
    let mut pieces: Vec<String> = text::split_on(flat.as_str(), '/');
    let n: usize = pieces.len();
    assert(text::views(pieces@).last() == pieces@.last()@);
    pieces.swap_remove(n - 1)
}

// ---------- samples ----------

/// Which sample an event asks for: one of a bank, or a file by its name.
#[derive(Debug)]
pub enum SampleSlot {
    Bank { bank: String, name: String, custom: u32 },
    File { filename: String },
}

/// What a sample is cached under.
pub open spec fn slot_key(slot: SampleSlot) -> Seq<char> {
    match slot {
        SampleSlot::Bank { bank, name, custom } => bank@ + "-"@ + name@ + "@"@ + text::decimal(
            custom as nat,
        ),
        SampleSlot::File { filename } => "file:"@ + filename@,
    }
}

pub fn slot_cache_key(slot: &SampleSlot) -> (r: String)
    ensures
        r@ == slot_key(*slot),
{
    match slot {
        SampleSlot::Bank { bank, name, custom } => bank.clone().concat("-").concat(
            name.as_str(),
        ).concat("@").concat(text::decimal_of(*custom as u64).as_str()),
        SampleSlot::File { filename } => text::owned("file:").concat(filename.as_str()),
    }
}

/// Two slots ask for the same sample.
pub open spec fn same_slot(a: SampleSlot, b: SampleSlot) -> bool {
    match (a, b) {
        (
            SampleSlot::Bank { bank, name, custom },
            SampleSlot::Bank { bank: bank2, name: name2, custom: custom2 },
        ) => bank@ == bank2@ && name@ == name2@ && custom == custom2,
        (SampleSlot::File { filename }, SampleSlot::File { filename: filename2 }) => filename@
            == filename2@,
        _ => false,
    }
}

fn slots_match(a: &SampleSlot, b: &SampleSlot) -> (r: bool)
    ensures
        r == same_slot(*a, *b),
{
    match a {
        SampleSlot::Bank { bank, name, custom } => match b {
            SampleSlot::Bank { bank: bank2, name: name2, custom: custom2 } => text::same(
                bank.as_str(),
                bank2.as_str(),
            ) && text::same(name.as_str(), name2.as_str()) && *custom == *custom2,
            SampleSlot::File { .. } => false,
        },
        SampleSlot::File { filename } => match b {
            SampleSlot::Bank { .. } => false,
            SampleSlot::File { filename: filename2 } => text::same(
                filename.as_str(),
                filename2.as_str(),
            ),
        },
    }
}

/// Among the first `n` slots one asks for the same sample.
pub open spec fn asked_before(slots: Seq<SampleSlot>, slot: SampleSlot, n: int) -> bool {
    exists|j: int| 0 <= j < n && same_slot(#[trigger] slots[j], slot)
}

/// The places of the first `n` slots that no slot before asks for.
pub open spec fn first_asked(slots: Seq<SampleSlot>, n: nat) -> Seq<usize>
    decreases n,
{
    if n == 0 {
        Seq::empty()
    } else {
        let before = first_asked(slots, (n - 1) as nat);
        if asked_before(slots, slots[n - 1], n - 1) {
            before
        } else {
            before.push((n - 1) as usize)
        }
    }
}

/// The places of the slots, each sample once.
pub fn distinct_slots(slots: &Vec<SampleSlot>) -> (r: Vec<usize>)
    ensures
        r@ == first_asked(slots@, slots@.len()),
{
    let mut r: Vec<usize> = Vec::new();
    let mut i: usize = 0;
    while i < slots.len()
        invariant
            i <= slots@.len(),
            r@ == first_asked(slots@, i as nat),
        decreases slots.len() - i,
    {
        let mut j: usize = 0;
        while j < i && !slots_match(&slots[j], &slots[i])
            invariant
                j <= i < slots@.len(),
                forall|k: int| 0 <= k < j ==> !same_slot(#[trigger] slots@[k], slots@[i as int]),
            decreases i - j,
        {
            j = j + 1;
        }
        if j == i {
            r.push(i);
        } else {
            assert(same_slot(slots@[j as int], slots@[i as int]));
        }
        i = i + 1;
    }
    r
}

/// Every sample that is asked for is looked up, and none twice.
pub proof fn law_samples_once(slots: Seq<SampleSlot>, n: nat)
    requires
        n <= slots.len() <= usize::MAX,
    ensures
        forall|k: int|
            0 <= k < first_asked(slots, n).len() ==> (#[trigger] first_asked(slots, n)[k]) < n,
        forall|k: int, l: int|
            0 <= k < l < first_asked(slots, n).len() ==> !same_slot(
                slots[(#[trigger] first_asked(slots, n)[k]) as int],
                slots[(#[trigger] first_asked(slots, n)[l]) as int],
            ),
        forall|i: int|
            0 <= i < n ==> exists|k: int|
                0 <= k < first_asked(slots, n).len() && same_slot(
                    slots[(#[trigger] first_asked(slots, n)[k]) as int],
                    #[trigger] slots[i],
                ),
    decreases n,
{
    if n > 0 {
        let m = (n - 1) as nat;
        law_samples_once(slots, m);
        let before = first_asked(slots, m);
        let after = first_asked(slots, n);
        assert forall|i: int| 0 <= i < n implies exists|k: int|
            0 <= k < after.len() && same_slot(
                slots[(#[trigger] after[k]) as int],
                #[trigger] slots[i],
            ) by {
            let x = if i < m {
                i
            } else if asked_before(slots, slots[i], i) {
                choose|j: int| 0 <= j < i && same_slot(#[trigger] slots[j], slots[i])
            } else {
                i
            };
            if x < m {
                let k = choose|k: int|
                    0 <= k < before.len() && same_slot(
                        slots[(#[trigger] before[k]) as int],
                        slots[x],
                    );
                assert(after[k] == before[k]);
                assert(same_slot(slots[after[k] as int], slots[i]));
            } else {
                assert(after[after.len() - 1] == i);
                assert(same_slot(slots[after[after.len() - 1] as int], slots[i]));
            }
        }
    }
}

/// What a sample is resolved by: bank, name, number and, where it is one, the file.
#[derive(Debug)]
pub struct SampleParts {
    pub bank: String,
    pub name: String,
    pub custom: u32,
    pub filename: Option<String>,
}

/// What a slot is resolved by. A file of its own name falls back to the first normal hit of the
/// normal bank.
pub open spec fn are_parts(slot: SampleSlot, r: SampleParts) -> bool {
    match slot {
        SampleSlot::Bank { bank, name, custom } => r == (SampleParts {
            bank,
            name,
            custom,
            filename: None,
        }),
        SampleSlot::File { filename } => {
            &&& r.bank@ == "normal"@
            &&& r.name@ == "hitnormal"@
            &&& r.custom == 1
            &&& r.filename == Some(filename)
        },
    }
}

pub fn sample_parts(slot: &SampleSlot) -> (r: SampleParts)
    ensures
        are_parts(*slot, r),
{
    match slot {
        SampleSlot::Bank { bank, name, custom } => SampleParts {
            bank: bank.clone(),
            name: name.clone(),
            custom: *custom,
            filename: None,
        },
        SampleSlot::File { filename } => SampleParts {
            bank: text::owned("normal"),
            name: text::owned("hitnormal"),
            custom: 1,
            filename: Some(filename.clone()),
        },
    }
}

/// What the samples of a beatmap under a skin are cached under; with the beatmap's own samples
/// and without them they are different.
pub open spec fn layer_key(skin: Option<Seq<char>>, map: Seq<char>, own: bool) -> Seq<char> {
    (match skin {
        Some(s) => s,
        None => Seq::empty(),
    }) + "/"@ + map + "#bm"@ + (if own {
        "1"@
    } else {
        "0"@
    })
}

/// The characters of an optional string.
pub open spec fn opt_str(s: Option<&str>) -> Option<Seq<char>> {
    match s {
        Some(x) => Some(x@),
        None => None,
    }
}

fn make_layer_key(skin: Option<&str>, map: &str, own: bool) -> (r: String)
    ensures
        r@ == layer_key(
            opt_str(skin),
            map@,
            own,
        ),
{
    let first: String = match skin {
        Some(s) => text::owned(s),
        None => String::new(),
    };
    let flag: &str = if own {
        "1"
    } else {
        "0"
    };
    first.concat("/").concat(map).concat("#bm").concat(flag)
}

/// With and without the beatmap's own samples nothing shares a place in the cache.
pub proof fn law_toggled_layers_do_not_mix(skin: Option<Seq<char>>, map: Seq<char>)
    ensures
        layer_key(skin, map, true) != layer_key(skin, map, false),
{
    reveal_strlit("0");
    reveal_strlit("1");
    let a = layer_key(skin, map, true);
    let b = layer_key(skin, map, false);
    assert(a.last() == '1');
    assert(b.last() == '0');
}

/// A sample that was resolved: its bytes, or silence.
#[derive(Debug)]
struct CachedSample {
    layer: String,
    slot: String,
    bytes: Option<Vec<u8>>,
}

/// The samples that were resolved so far.
#[derive(Debug)]
pub struct SampleCache {
    entries: Vec<CachedSample>,
}

pub open spec fn bytes_view(b: Option<Vec<u8>>) -> Option<Seq<u8>> {
    match b {
        Some(v) => Some(v@),
        None => None,
    }
}

/// What is remembered of a sample is remembered once.
pub open spec fn with_sample(
    m: Map<(Seq<char>, Seq<char>), Option<Seq<u8>>>,
    k: (Seq<char>, Seq<char>),
    bytes: Option<Seq<u8>>,
) -> Map<(Seq<char>, Seq<char>), Option<Seq<u8>>> {
    if m.dom().contains(k) {
        m
    } else {
        m.insert(k, bytes)
    }
}

impl View for SampleCache {
    type V = Map<(Seq<char>, Seq<char>), Option<Seq<u8>>>;

    closed spec fn view(&self) -> Self::V {
        Map::new(
            |k: (Seq<char>, Seq<char>)| self.place(k) is Some,
            |k: (Seq<char>, Seq<char>)| bytes_view(self.entries@[self.place(k)->0].bytes),
        )
    }
}

impl SampleCache {
    closed spec fn place(&self, k: (Seq<char>, Seq<char>)) -> Option<int> {
        seqs::least(
            self.entries@.len() as int,
            |i: int| self.entries@[i].layer@ == k.0 && self.entries@[i].slot@ == k.1,
        )
    }

    pub fn new() -> (r: SampleCache)
        ensures
            r@ == Map::<(Seq<char>, Seq<char>), Option<Seq<u8>>>::empty(),
    {
        let r = SampleCache { entries: Vec::new() };
        assert forall|k: (Seq<char>, Seq<char>)| r.place(k) is None by {
            seqs::lemma_least_missing(
                0,
                |i: int| r.entries@[i].layer@ == k.0 && r.entries@[i].slot@ == k.1,
            );
        }
        assert(r@ =~= Map::<(Seq<char>, Seq<char>), Option<Seq<u8>>>::empty());
        r
    }

    /// What was resolved for a slot of a beatmap under a skin, with the beatmap's own samples or
    /// without; nothing where it was not resolved yet.
    pub fn get(&self, skin: Option<&str>, map: &str, slot: &SampleSlot, own: bool) -> (r: Option<&Option<Vec<u8>>>)
        ensures
            ({
                let k = (
                    layer_key(
                        opt_str(skin),
                        map@,
                        own,
                    ),
                    slot_key(*slot),
                );
                match r {
                    Some(b) => self@.dom().contains(k) && bytes_view(*b) == self@[k],
                    None => !self@.dom().contains(k),
                }
            }),
    {
        let layer: String = make_layer_key(skin, map, own);
        let key: String = slot_cache_key(slot);
        let ghost k = (layer@, key@);
        let ghost p = |i: int| self.entries@[i].layer@ == k.0 && self.entries@[i].slot@ == k.1;
        let mut i: usize = 0;
        while i < self.entries.len()
            invariant
                i <= self.entries@.len(),
                k == (layer@, key@),
                k == (layer_key(opt_str(skin), map@, own), slot_key(*slot)),
                p == (|i: int| self.entries@[i].layer@ == k.0 && self.entries@[i].slot@ == k.1),
                forall|j: int| 0 <= j < i ==> !#[trigger] p(j),
            decreases self.entries.len() - i,
        {
            if self.entries[i].layer == layer && self.entries[i].slot == key {
                assert(p(i as int));
                proof {
                    seqs::lemma_least_found(self.entries@.len() as int, p, i as int);
                    assert(self.place(k) == Some(i as int));
                }
                return Some(&self.entries[i].bytes);
            }
            assert(!p(i as int));
            i = i + 1;
        }
        proof {
            seqs::lemma_least_missing(self.entries@.len() as int, p);
            assert(self.place(k) is None);
        }
        None
    }

    /// Remembers what a slot was resolved to, where nothing is remembered of it.
    pub fn put(&mut self, skin: Option<&str>, map: &str, slot: &SampleSlot, own: bool, bytes: Option<Vec<u8>>)
        ensures
            ({
                let k = (
                    layer_key(
                        opt_str(skin),
                        map@,
                        own,
                    ),
                    slot_key(*slot),
                );
                final(self)@ == with_sample(old(self)@, k, bytes_view(bytes))
            }),
    {
        if self.get(skin, map, slot, own).is_some() {
            return;
        }
        let ghost before = *self;
        let layer: String = make_layer_key(skin, map, own);
        let key: String = slot_cache_key(slot);
        self.entries.push(CachedSample { layer, slot: key, bytes });
        proof {
            let k = (layer@, key@);
            let n = before.entries@.len() as int;
            let after = *self;
            assert(before.place(k) is None);
            assert forall|x: (Seq<char>, Seq<char>)| after.place(x) == (if x == k {
                Some(n)
            } else {
                before.place(x)
            }) by {
                let p = |i: int|
                    before.entries@[i].layer@ == x.0 && before.entries@[i].slot@ == x.1;
                let q = |i: int| after.entries@[i].layer@ == x.0 && after.entries@[i].slot@ == x.1;
                seqs::lemma_least(n, p);
                match before.place(x) {
                    Some(i) => {
                        assert(q(i));
                        assert forall|j: int| 0 <= j < i implies !#[trigger] q(j) by {
                            assert(!p(j));
                        }
                        seqs::lemma_least_found(n + 1, q, i);
                    },
                    None => {
                        assert forall|j: int| 0 <= j < n implies !#[trigger] q(j) by {
                            assert(!p(j));
                        }
                        if x == k {
                            assert(q(n));
                            seqs::lemma_least_found(n + 1, q, n);
                        } else {
                            assert(!q(n));
                            seqs::lemma_least_missing(n + 1, q);
                        }
                    },
                }
            }
            assert forall|x: (Seq<char>, Seq<char>)| before.place(x) is Some implies 0
                <= #[trigger] before.place(x)->0 < n by {
                let p = |i: int|
                    before.entries@[i].layer@ == x.0 && before.entries@[i].slot@ == x.1;
                seqs::lemma_least(n, p);
            }
            assert(after@ =~= before@.insert(k, bytes_view(bytes)));
        }
    }
}

/// Names are compared without quotes and white space around them, with slashes for backslashes, and
/// in small letters.
pub proof fn law_names_are_compared_bare(s: Seq<char>)
    requires
        s.len() > 0,
        !text::white(s[0]),
        !text::white(s.last()),
        s[0] != '"',
        s.last() != '"',
    ensures
        norm(s) == text::unicode_lower(text::replaced(s, '\\', '/')),
        norm(seq!['"'] + s.push('"')) == norm(s),
        norm(seq![' '] + s.push(' ')) == norm(s),
        norm(text::replaced(s, '\\', '/')) == norm(s),
{
    text::law_trimming_drops_white_space(s, ' ');
    text::law_trimming_drops_white_space(s.push(' '), ' ');
    text::law_trimming_drops_a_character(s, '"');
    let quoted = seq!['"'] + s.push('"');
    text::law_trimming_drops_white_space(quoted, ' ');
    text::law_trimming_drops_a_character(s.push('"'), '"');
    let flat = text::replaced(s, '\\', '/');
    text::law_trimming_drops_white_space(flat, ' ');
    text::law_trimming_drops_a_character(flat, '"');
    assert(text::replaced(flat, '\\', '/') =~= flat);
}

/// A name leads where the whole of it does, and else where its last part does.
pub proof fn law_whole_name_comes_first(
    m: Map<Seq<char>, Seq<char>>,
    name: Seq<char>,
    dir: Seq<char>,
    file: Seq<char>,
)
    ensures
        m.dom().contains(norm(name)) ==> lookup(m, name) == Some(m[norm(name)]),
        !m.dom().contains(norm(name)) && norm(name) == dir.push('/') + file && (forall|i: int|
            0 <= i < file.len() ==> #[trigger] file[i] != '/') ==> lookup(m, name) == (
        if m.dom().contains(file) {
            Some(m[file])
        } else {
            None
        }),
        lookup(m, name) matches Some(p) ==> exists|k: Seq<char>| #[trigger]
            m.dom().contains(k) && m[k] == p,
{
    if norm(name) == dir.push('/') + file && (forall|i: int|
        0 <= i < file.len() ==> #[trigger] file[i] != '/') {
        text::law_split_at_each_separator(dir, '/', file, text::is_char('/'));
    }
}

/// The last part of a path is what follows its last slash or backslash, and a name without either is
/// its own.
pub proof fn law_basename_is_the_last_part(dir: Seq<char>, file: Seq<char>)
    requires
        forall|i: int| 0 <= i < file.len() ==> #[trigger] file[i] != '/' && file[i] != '\\',
    ensures
        basename(file) == file,
        basename(dir.push('/') + file) == file,
        basename(dir.push('\\') + file) == file,
{
    let flat = text::replaced(dir, '\\', '/');
    assert(text::replaced(file, '\\', '/') =~= file);
    assert(text::replaced(dir.push('/') + file, '\\', '/') =~= flat.push('/') + file);
    assert(text::replaced(dir.push('\\') + file, '\\', '/') =~= flat.push('/') + file);
    text::law_split_at_each_separator(flat, '/', file, text::is_char('/'));
}

/// A sample is looked for as it is named, then as a wav, an mp3 and an ogg, in this order.
pub proof fn law_sample_is_looked_for_in_order(m: Map<Seq<char>, Seq<char>>, stem: Seq<char>)
    requires
        forall|i: int| 0 <= i < stem.len() ==> #[trigger] stem[i] != '\\',
    ensures
        lookup(m, stem) is Some ==> find_sample(m, stem) == lookup(m, stem),
        lookup(m, stem) is None && lookup(m, stem + ".wav"@) is Some ==> find_sample(m, stem)
            == lookup(m, stem + ".wav"@),
        lookup(m, stem) is None && lookup(m, stem + ".wav"@) is None && lookup(m, stem + ".mp3"@) is Some
            ==> find_sample(m, stem) == lookup(m, stem + ".mp3"@),
        lookup(m, stem) is None && lookup(m, stem + ".wav"@) is None && lookup(m, stem + ".mp3"@) is None
            ==> find_sample(m, stem) == lookup(m, stem + ".ogg"@),
{
    assert(text::replaced(stem, '\\', '/') =~= stem);
}

/// The storyboard is a file of that ending, and no other of them comes before it by name.
pub proof fn law_storyboard_is_the_first_by_name(
    m: Map<Seq<char>, Seq<char>>,
    k: Seq<char>,
    other: Seq<char>,
)
    requires
        is_first_osb(m, k),
        m.dom().contains(other),
        text::ends(other, ".osb"@),
    ensures
        m.dom().contains(k),
        text::ends(k, ".osb"@),
        !sorting::lex_lt(other, k),
{
}

/// A sample is kept under its bank, its name and its number, and one of a file under its name.
pub proof fn law_samples_are_kept_by_name(bank: String, name: String, custom: u32, file: String)
    ensures
        slot_key(SampleSlot::Bank { bank, name, custom }) == bank@ + "-"@ + name@ + "@"@ + text::decimal(
            custom as nat,
        ),
        slot_key(SampleSlot::File { filename: file }) == "file:"@ + file@,
        text::number(text::decimal(custom as nat), 10) == custom,
{
    text::law_decimal_reads_back(custom as nat);
}

/// Slots ask for the same sample if everything that they say is the same, and a bank and a file
/// never do.
pub proof fn law_same_slots(
    bank: String,
    name: String,
    custom: u32,
    bank2: String,
    name2: String,
    custom2: u32,
    file: String,
    file2: String,
)
    ensures
        same_slot(
            SampleSlot::Bank { bank, name, custom },
            SampleSlot::Bank { bank: bank2, name: name2, custom: custom2 },
        ) <==> bank@ == bank2@ && name@ == name2@ && custom == custom2,
        same_slot(SampleSlot::File { filename: file }, SampleSlot::File { filename: file2 }) <==> file@
            == file2@,
        !same_slot(SampleSlot::File { filename: file }, SampleSlot::Bank { bank, name, custom }),
        !same_slot(SampleSlot::Bank { bank, name, custom }, SampleSlot::File { filename: file }),
{
}

/// The samples of a beatmap are kept under the skin, the beatmap and whether its own are used.
pub proof fn law_layers_are_kept_apart(skin: Seq<char>, map: Seq<char>)
    ensures
        layer_key(Some(skin), map, true) == skin + "/"@ + map + "#bm"@ + "1"@,
        layer_key(Some(skin), map, false) == skin + "/"@ + map + "#bm"@ + "0"@,
        layer_key(None, map, true) == "/"@ + map + "#bm"@ + "1"@,
{
    assert(layer_key(None, map, true) =~= "/"@ + map + "#bm"@ + "1"@);
}

/// A sample of a bank is looked for by what it says, and one of a file by its name, else as the
/// first normal hit of the normal bank.
pub proof fn law_samples_are_looked_for_by_their_parts(
    bank: String,
    name: String,
    custom: u32,
    file: String,
    r: SampleParts,
)
    ensures
        are_parts(SampleSlot::Bank { bank, name, custom }, r) ==> r.bank == bank && r.name == name
            && r.custom == custom && r.filename is None,
        are_parts(SampleSlot::File { filename: file }, r) ==> r.filename == Some(file) && r.bank@
            == "normal"@ && r.name@ == "hitnormal"@ && r.custom == 1,
{
}

/// What was put first is what is found, and nothing else changes.
pub proof fn law_first_sample_stays(
    m: Map<(Seq<char>, Seq<char>), Option<Seq<u8>>>,
    k: (Seq<char>, Seq<char>),
    other: (Seq<char>, Seq<char>),
    a: Option<Seq<u8>>,
    b: Option<Seq<u8>>,
)
    ensures
        with_sample(m, k, a).dom().contains(k),
        !m.dom().contains(k) ==> with_sample(m, k, a)[k] == a,
        m.dom().contains(k) ==> with_sample(m, k, a) == m,
        with_sample(with_sample(m, k, a), k, b) == with_sample(m, k, a),
        other != k ==> (with_sample(m, k, a).dom().contains(other) <==> m.dom().contains(other)),
        other != k && m.dom().contains(other) ==> with_sample(m, k, a)[other] == m[other],
{
}

} // verus!
