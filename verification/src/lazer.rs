//! The osu!lazer library: beatmap sets, collections and skins out of the tables of client.realm.
//!
//! Files lie in a store that is addressed by content: what a set names is mapped to where the
//! blob lies, and nothing is copied.
use vstd::prelude::*;

use crate::cover;
use crate::ieee::Double;
use crate::paths;
use crate::realm;
use crate::realm::{Link, Row, Store, Value};
use crate::seqs;
use crate::sorting;
use crate::text;

verus! {

#[derive(Debug)]
pub struct LazerFile {
    pub filename: String,
    pub hash: String,
    /// The size of the blob; zero where it is missing.
    pub size: u64,
}

#[derive(Debug)]
pub struct LazerBeatmap {
    pub sha2: String,
    pub md5: String,
    /// The name of the difficulty.
    pub name: String,
    /// The short name of the ruleset.
    pub ruleset: String,
    pub star_rating: Double,
    pub length_ms: Double,
    /// Zero where it is not recorded, as are the next three.
    pub ar: Double,
    pub cs: Double,
    pub od: Double,
    pub hp: Double,
    pub bpm: Double,
    pub online_id: i64,
}

#[derive(Debug)]
pub struct LazerSet {
    pub id: String,
    pub online_id: i64,
    /// When the set was imported, in milliseconds since the Unix epoch; zero where it is not
    /// recorded.
    pub date_added_ms: i64,
    pub artist: String,
    pub artist_unicode: String,
    pub title: String,
    pub title_unicode: String,
    pub creator: String,
    pub tags: String,
    pub source: String,
    /// The directory of the set, where it lies in one.
    pub root: Option<String>,
    /// The set has a storyboard or a video, going by the names of its files.
    pub sb_video: bool,
    pub beatmaps: Vec<LazerBeatmap>,
    pub files: Vec<LazerFile>,
}

#[derive(Debug)]
pub struct LazerCollection {
    pub name: String,
    /// The difficulties in the order of collecting, each once.
    pub md5s: Vec<String>,
}

/// An installed skin and its files.
#[derive(Debug)]
pub struct LazerSkin {
    pub id: String,
    pub name: String,
    pub creator: String,
    pub files: Vec<LazerFile>,
}

#[derive(Debug)]
pub struct LazerLibrary {
    pub sets: Vec<LazerSet>,
    pub collections: Vec<LazerCollection>,
    pub skins: Vec<LazerSkin>,
}

#[verifier::ext_equal]
pub struct FileView {
    pub filename: Seq<char>,
    pub hash: Seq<char>,
    pub size: u64,
}

#[verifier::ext_equal]
pub struct BeatmapView {
    pub sha2: Seq<char>,
    pub md5: Seq<char>,
    pub name: Seq<char>,
    pub ruleset: Seq<char>,
    pub star_rating: Double,
    pub length_ms: Double,
    pub ar: Double,
    pub cs: Double,
    pub od: Double,
    pub hp: Double,
    pub bpm: Double,
    pub online_id: i64,
}

#[verifier::ext_equal]
pub struct SetView {
    pub id: Seq<char>,
    pub online_id: i64,
    pub date_added_ms: i64,
    pub artist: Seq<char>,
    pub artist_unicode: Seq<char>,
    pub title: Seq<char>,
    pub title_unicode: Seq<char>,
    pub creator: Seq<char>,
    pub tags: Seq<char>,
    pub source: Seq<char>,
    pub root: Option<Seq<char>>,
    pub sb_video: bool,
    pub beatmaps: Seq<BeatmapView>,
    pub files: Seq<FileView>,
}

#[verifier::ext_equal]
pub struct CollectionView {
    pub name: Seq<char>,
    pub md5s: Seq<Seq<char>>,
}

#[verifier::ext_equal]
pub struct SkinView {
    pub id: Seq<char>,
    pub name: Seq<char>,
    pub creator: Seq<char>,
    pub files: Seq<FileView>,
}

#[verifier::ext_equal]
pub struct LibraryView {
    pub sets: Seq<SetView>,
    pub collections: Seq<CollectionView>,
    pub skins: Seq<SkinView>,
}

impl View for LazerFile {
    type V = FileView;

    open spec fn view(&self) -> FileView {
        FileView { filename: self.filename@, hash: self.hash@, size: self.size }
    }
}

impl View for LazerBeatmap {
    type V = BeatmapView;

    open spec fn view(&self) -> BeatmapView {
        BeatmapView {
            sha2: self.sha2@,
            md5: self.md5@,
            name: self.name@,
            ruleset: self.ruleset@,
            star_rating: self.star_rating,
            length_ms: self.length_ms,
            ar: self.ar,
            cs: self.cs,
            od: self.od,
            hp: self.hp,
            bpm: self.bpm,
            online_id: self.online_id,
        }
    }
}

pub open spec fn file_views(v: Seq<LazerFile>) -> Seq<FileView> {
    Seq::new(v.len(), |i: int| v[i]@)
}

pub open spec fn beatmap_views(v: Seq<LazerBeatmap>) -> Seq<BeatmapView> {
    Seq::new(v.len(), |i: int| v[i]@)
}

pub open spec fn opt_view(s: Option<String>) -> Option<Seq<char>> {
    match s {
        Some(x) => Some(x@),
        None => None,
    }
}

impl View for LazerSet {
    type V = SetView;

    open spec fn view(&self) -> SetView {
        SetView {
            id: self.id@,
            online_id: self.online_id,
            date_added_ms: self.date_added_ms,
            artist: self.artist@,
            artist_unicode: self.artist_unicode@,
            title: self.title@,
            title_unicode: self.title_unicode@,
            creator: self.creator@,
            tags: self.tags@,
            source: self.source@,
            root: opt_view(self.root),
            sb_video: self.sb_video,
            beatmaps: beatmap_views(self.beatmaps@),
            files: file_views(self.files@),
        }
    }
}

impl View for LazerCollection {
    type V = CollectionView;

    open spec fn view(&self) -> CollectionView {
        CollectionView { name: self.name@, md5s: text::views(self.md5s@) }
    }
}

impl View for LazerSkin {
    type V = SkinView;

    open spec fn view(&self) -> SkinView {
        SkinView {
            id: self.id@,
            name: self.name@,
            creator: self.creator@,
            files: file_views(self.files@),
        }
    }
}

pub open spec fn set_views(v: Seq<LazerSet>) -> Seq<SetView> {
    Seq::new(v.len(), |i: int| v[i]@)
}

pub open spec fn collection_views(v: Seq<LazerCollection>) -> Seq<CollectionView> {
    Seq::new(v.len(), |i: int| v[i]@)
}

pub open spec fn skin_views(v: Seq<LazerSkin>) -> Seq<SkinView> {
    Seq::new(v.len(), |i: int| v[i]@)
}

impl View for LazerLibrary {
    type V = LibraryView;

    open spec fn view(&self) -> LibraryView {
        LibraryView {
            sets: set_views(self.sets@),
            collections: collection_views(self.collections@),
            skins: skin_views(self.skins@),
        }
    }
}

impl Default for LazerLibrary {
    fn default() -> (r: LazerLibrary)
        ensures
            r.sets@.len() == 0,
            r.collections@.len() == 0,
            r.skins@.len() == 0,
    {
        LazerLibrary { sets: Vec::new(), collections: Vec::new(), skins: Vec::new() }
    }
}

// ---------- what the tables say ----------

/// The file that a usage row stands for: none where the row or the file's row is missing, where
/// the name is empty, or where no file is linked.
pub open spec fn file_of(store: Store, link: Link) -> Result<Option<FileView>, Seq<char>> {
    match store.fetch(link) {
        Err(e) => Err(e),
        Ok(None) => Ok(None),
        Ok(Some(usage)) => {
            let filename = realm::text_of(usage.col("Filename"@));
            if filename.len() == 0 {
                Ok(None)
            } else {
                match usage.col("File"@) {
                    Some(Value::Link(l)) => match store.fetch(l) {
                        Err(e) => Err(e),
                        Ok(None) => Ok(None),
                        Ok(Some(row)) => Ok(
                            Some(
                                FileView {
                                    filename,
                                    hash: realm::text_of(row.col("Hash"@)),
                                    size: 0,
                                },
                            ),
                        ),
                    },
                    _ => Ok(None),
                }
            }
        },
    }
}

/// The files that a list of links stands for.
pub open spec fn files_of(store: Store, v: Option<Value>) -> Result<Seq<FileView>, Seq<char>> {
    let links = realm::links_of(v);
    realm::collect(links.len(), |i: int| file_of(store, links[i]))
}

/// The short name of the ruleset that is linked.
pub open spec fn ruleset_of(store: Store, v: Option<Value>) -> Seq<char> {
    match v {
        Some(Value::Link(l)) => match store.fetch_any(l) {
            Some(row) => realm::text_of(row.col("ShortName"@)),
            None => Seq::empty(),
        },
        _ => Seq::empty(),
    }
}

/// The four parameters of a difficulty, zero where they are not recorded.
pub open spec fn params_of(store: Store, v: Option<Value>) -> Result<
    (Double, Double, Double, Double),
    Seq<char>,
> {
    let zero = Double { bits: 0 };
    match v {
        Some(Value::Link(l)) => match store.fetch(l) {
            Err(e) => Err(e),
            Ok(None) => Ok((zero, zero, zero, zero)),
            Ok(Some(d)) => Ok(
                (
                    realm::float_of(d.col("ApproachRate"@)),
                    realm::float_of(d.col("CircleSize"@)),
                    realm::float_of(d.col("OverallDifficulty"@)),
                    realm::float_of(d.col("DrainRate"@)),
                ),
            ),
        },
        _ => Ok((zero, zero, zero, zero)),
    }
}

/// One of the files has the hash.
pub open spec fn has_hash(files: Seq<FileView>, hash: Seq<char>) -> bool {
    exists|i: int| 0 <= i < files.len() && (#[trigger] files[i]).hash == hash
}

/// The difficulty that a link stands for: only one of the osu! ruleset whose file is one of the
/// set's.
pub open spec fn beatmap_of(store: Store, files: Seq<FileView>, link: Link) -> Result<
    Option<BeatmapView>,
    Seq<char>,
> {
    let zero = Double { bits: 0 };
    match store.fetch(link) {
        Err(e) => Err(e),
        Ok(None) => Ok(None),
        Ok(Some(b)) => {
            let sha2 = realm::text_of(b.col("Hash"@));
            let ruleset = ruleset_of(store, b.col("Ruleset"@));
            if sha2.len() == 0 || !has_hash(files, sha2) || ruleset != "osu"@ {
                Ok(None)
            } else {
                match params_of(store, b.col("Difficulty"@)) {
                    Err(e) => Err(e),
                    Ok((ar, cs, od, hp)) => Ok(
                        Some(
                            BeatmapView {
                                sha2,
                                md5: realm::text_of(b.col("MD5Hash"@)),
                                name: realm::text_of(b.col("DifficultyName"@)),
                                ruleset,
                                star_rating: realm::double_of(b.col("StarRating"@), zero),
                                length_ms: realm::double_of(b.col("Length"@), zero),
                                ar,
                                cs,
                                od,
                                hp,
                                bpm: realm::double_of(b.col("BPM"@), zero),
                                online_id: realm::int_of(b.col("OnlineID"@), (-1) as i64),
                            },
                        ),
                    ),
                }
            }
        },
    }
}

pub open spec fn beatmaps_of(store: Store, files: Seq<FileView>, v: Option<Value>) -> Result<
    Seq<BeatmapView>,
    Seq<char>,
> {
    let links = realm::links_of(v);
    realm::collect(links.len(), |i: int| beatmap_of(store, files, links[i]))
}

/// The metadata row of the first difficulty that the set links.
pub open spec fn metadata_of(store: Store, row: Row) -> Option<Row> {
    let links = realm::links_of(row.col("Beatmaps"@));
    if links.len() == 0 {
        None
    } else {
        match store.fetch_any(links[0]) {
            None => None,
            Some(b) => match b.col("Metadata"@) {
                Some(Value::Link(l)) => store.fetch_any(l),
                _ => None,
            },
        }
    }
}

pub open spec fn or_else(s: Seq<char>, fallback: Seq<char>) -> Seq<char> {
    if s.len() == 0 {
        fallback
    } else {
        s
    }
}

/// The name of the author that the metadata link.
pub open spec fn author_of(store: Store, m: Row) -> Seq<char> {
    match m.col("Author"@) {
        Some(Value::Link(l)) => match store.fetch_any(l) {
            Some(user) => realm::text_of(user.col("Username"@)),
            None => Seq::empty(),
        },
        _ => Seq::empty(),
    }
}

/// What the metadata say of a set: artist, title (each with its Unicode form), creator, tags and
/// source.
#[verifier::ext_equal]
pub struct Credits {
    pub artist: Seq<char>,
    pub artist_unicode: Seq<char>,
    pub title: Seq<char>,
    pub title_unicode: Seq<char>,
    pub creator: Seq<char>,
    pub tags: Seq<char>,
    pub source: Seq<char>,
}

pub open spec fn credits_of(store: Store, metadata: Option<Row>) -> Credits {
    match metadata {
        Some(m) => {
            let artist = realm::text_of(m.col("Artist"@));
            let title = realm::text_of(m.col("Title"@));
            Credits {
                artist,
                artist_unicode: or_else(realm::text_of(m.col("ArtistUnicode"@)), artist),
                title,
                title_unicode: or_else(realm::text_of(m.col("TitleUnicode"@)), title),
                creator: author_of(store, m),
                tags: realm::text_of(m.col("Tags"@)),
                source: realm::text_of(m.col("Source"@)),
            }
        },
        None => Credits {
            artist: Seq::empty(),
            artist_unicode: Seq::empty(),
            title: Seq::empty(),
            title_unicode: Seq::empty(),
            creator: Seq::empty(),
            tags: Seq::empty(),
            source: Seq::empty(),
        },
    }
}

pub open spec fn deleted(row: Row) -> bool {
    row.col("DeletePending"@) == Some(Value::Bool(true))
}

/// The set that a row stands for: none where it is about to be deleted or has no difficulty that
/// can be played.
pub open spec fn set_of(store: Store, row: Row) -> Result<Option<SetView>, Seq<char>> {
    if deleted(row) {
        Ok(None)
    } else {
        match files_of(store, row.col("Files"@)) {
            Err(e) => Err(e),
            Ok(files) => match beatmaps_of(store, files, row.col("Beatmaps"@)) {
                Err(e) => Err(e),
                Ok(beatmaps) => if beatmaps.len() == 0 {
                    Ok(None)
                } else {
                    let c = credits_of(store, metadata_of(store, row));
                    Ok(
                        Some(
                            SetView {
                                id: realm::uuid_of(row.col("ID"@)),
                                online_id: realm::int_of(row.col("OnlineID"@), (-1) as i64),
                                date_added_ms: realm::timestamp_of(row.col("DateAdded"@)),
                                artist: c.artist,
                                artist_unicode: c.artist_unicode,
                                title: c.title,
                                title_unicode: c.title_unicode,
                                creator: c.creator,
                                tags: c.tags,
                                source: c.source,
                                root: None,
                                sb_video: false,
                                beatmaps,
                                files,
                            },
                        ),
                    )
                },
            },
        }
    }
}

/// The sets of the database.
pub open spec fn sets_of(store: Store) -> Result<Seq<SetView>, Seq<char>> {
    match store.whole("class_BeatmapSet"@) {
        Err(e) => Err(e),
        Ok(rows) => realm::collect(rows.len(), |i: int| set_of(store, rows[i])),
    }
}

/// The strings of a list, each once, at its first place.
pub open spec fn distinct(v: Seq<Option<String>>) -> Seq<Seq<char>>
    decreases v.len(),
{
    if v.len() == 0 {
        Seq::empty()
    } else {
        let before = distinct(v.drop_last());
        match v.last() {
            Some(s) => if before.contains(s@) {
                before
            } else {
                before.push(s@)
            },
            None => before,
        }
    }
}

/// The collection that a row stands for: none where it has no name.
pub open spec fn collection_of(row: Row) -> Option<CollectionView> {
    let name = realm::text_of(row.col("Name"@));
    if name.len() == 0 {
        None
    } else {
        Some(
            CollectionView {
                name,
                md5s: match row.col("BeatmapMD5Hashes"@) {
                    Some(Value::List(v)) => distinct(v@),
                    _ => Seq::empty(),
                },
            },
        )
    }
}

/// The collection of favourites, whatever the case of its name.
pub open spec fn favourite(c: CollectionView) -> bool {
    text::lowered(c.name) == text::lowered("favourites"@)
}

/// The favourites first, else in the order that they have.
pub open spec fn favourites_first(s: Seq<CollectionView>) -> Seq<CollectionView> {
    s.filter(|c: CollectionView| favourite(c)) + s.filter(|c: CollectionView| !favourite(c))
}

pub open spec fn collections_of(store: Store) -> Result<Seq<CollectionView>, Seq<char>> {
    match store.whole("class_BeatmapCollection"@) {
        Err(e) => Err(e),
        Ok(rows) => match realm::collect(
            rows.len(),
            |i: int| Ok::<Option<CollectionView>, Seq<char>>(collection_of(rows[i])),
        ) {
            Err(e) => Err(e),
            Ok(all) => Ok(favourites_first(all)),
        },
    }
}

/// One of the files is the skin's configuration.
pub open spec fn has_skin_ini(files: Seq<FileView>) -> bool {
    exists|i: int|
        0 <= i < files.len() && text::lowered((#[trigger] files[i]).filename) == text::lowered(
            "skin.ini"@,
        )
}

/// The skin that a row stands for: none where it is about to be deleted, or is built in and has
/// no configuration file.
pub open spec fn skin_of(store: Store, row: Row) -> Result<Option<SkinView>, Seq<char>> {
    if deleted(row) {
        Ok(None)
    } else {
        match files_of(store, row.col("Files"@)) {
            Err(e) => Err(e),
            Ok(files) => if !has_skin_ini(files) {
                Ok(None)
            } else {
                Ok(
                    Some(
                        SkinView {
                            id: realm::uuid_of(row.col("ID"@)),
                            name: realm::text_of(row.col("Name"@)),
                            creator: realm::text_of(row.col("Creator"@)),
                            files,
                        },
                    ),
                )
            },
        }
    }
}

/// The skins of the database in the order of their rows.
pub open spec fn skins_of(store: Store) -> Result<Seq<SkinView>, Seq<char>> {
    match store.whole("class_Skin"@) {
        Err(e) => Err(e),
        Ok(rows) => realm::collect(rows.len(), |i: int| skin_of(store, rows[i])),
    }
}

/// What skins are sorted by: the name in lower case.
pub open spec fn skin_key() -> spec_fn(SkinView) -> Seq<char> {
    |s: SkinView| text::unicode_lower(s.name)
}

// ---------- reading the tables ----------

fn read_file(store: &Store, link: &Link) -> (r: Result<Option<LazerFile>, String>)
    requires
        store.wf(),
        link.table < store.tables@.len(),
    ensures
        match r {
            Ok(Some(f)) => file_of(*store, *link) == Ok::<Option<FileView>, Seq<char>>(Some(f@)),
            Ok(None) => file_of(*store, *link) == Ok::<Option<FileView>, Seq<char>>(None),
            Err(e) => file_of(*store, *link) == Err::<Option<FileView>, Seq<char>>(e@),
        },
{
    let usage: &Row = match store.row(link) {
        Err(e) => {
            return Err(e);
        },
        Ok(None) => {
            return Ok(None);
        },
        Ok(Some(row)) => row,
    };
    let filename: String = realm::string_value(usage.get("Filename"));
    if text::chars_of(filename.as_str()).len() == 0 {
        return Ok(None);
    }
    match usage.get("File") {
        Some(Value::Link(l)) => match store.row(l) {
            Err(e) => Err(e),
            Ok(None) => Ok(None),
            Ok(Some(row)) => Ok(
                Some(LazerFile { filename, hash: realm::string_value(row.get("Hash")), size: 0 }),
            ),
        },
        _ => Ok(None),
    }
}

/// The files that a list of links stands for.
pub fn resolve_named_files(store: &Store, v: Option<&Value>) -> (r: Result<Vec<LazerFile>, String>)
    requires
        store.wf(),
        v is Some ==> realm::value_links_within(*v->0, store.tables@.len()),
    ensures
        match r {
            Ok(files) => files_of(*store, realm::opt(v)) == Ok::<Seq<FileView>, Seq<char>>(
                file_views(files@),
            ),
            Err(e) => files_of(*store, realm::opt(v)) == Err::<Seq<FileView>, Seq<char>>(e@),
        },
{
    let mut files: Vec<LazerFile> = Vec::new();
    let links: &Vec<Link> = match v {
        Some(Value::LinkList(links)) => links,
        _ => {
            assert(file_views(files@) =~= Seq::<FileView>::empty());
            return Ok(files);
        },
    };
    let ghost ls = links@;
    let ghost f = |i: int| file_of(*store, ls[i]);
    assert(file_views(files@) =~= Seq::<FileView>::empty());
    let mut i: usize = 0;
    while i < links.len()
        invariant
            i <= ls.len(),
            ls == links@,
            ls == realm::links_of(realm::opt(v)),
            store.wf(),
            forall|j: int| 0 <= j < ls.len() ==> (#[trigger] ls[j]).table < store.tables@.len(),
            f == (|i: int| file_of(*store, ls[i])),
            realm::collect(i as nat, f) == Ok::<Seq<FileView>, Seq<char>>(file_views(files@)),
        decreases links.len() - i,
    {
        let ghost before = file_views(files@);
        match read_file(store, &links[i]) {
            Err(e) => {
                proof {
                    realm::lemma_collect_error((i + 1) as nat, ls.len(), f);
                }
                return Err(e);
            },
            Ok(None) => {},
            Ok(Some(file)) => {
                files.push(file);
                assert(file_views(files@) =~= before.push(file@));
            },
        }
        i = i + 1;
    }
    Ok(files)
}

/// The short name of the ruleset that is linked.
pub fn ruleset_short_name(store: &Store, v: Option<&Value>) -> (r: String)
    requires
        store.wf(),
        v is Some ==> realm::value_links_within(*v->0, store.tables@.len()),
    ensures
        r@ == ruleset_of(*store, realm::opt(v)),
{
    match v {
        Some(Value::Link(l)) => match store.row_any(l) {
            Some(row) => realm::string_value(row.get("ShortName")),
            None => String::new(),
        },
        _ => String::new(),
    }
}

fn read_params(store: &Store, v: Option<&Value>) -> (r: Result<
    (Double, Double, Double, Double),
    String,
>)
    requires
        store.wf(),
        v is Some ==> realm::value_links_within(*v->0, store.tables@.len()),
    ensures
        match r {
            Ok(p) => params_of(*store, realm::opt(v)) == Ok::<
                (Double, Double, Double, Double),
                Seq<char>,
            >(p),
            Err(e) => params_of(*store, realm::opt(v)) == Err::<
                (Double, Double, Double, Double),
                Seq<char>,
            >(e@),
        },
{
    let zero: Double = Double { bits: 0 };
    match v {
        Some(Value::Link(l)) => match store.row(l) {
            Err(e) => Err(e),
            Ok(None) => Ok((zero, zero, zero, zero)),
            Ok(Some(d)) => Ok(
                (
                    realm::float_value(d.get("ApproachRate")),
                    realm::float_value(d.get("CircleSize")),
                    realm::float_value(d.get("OverallDifficulty")),
                    realm::float_value(d.get("DrainRate")),
                ),
            ),
        },
        _ => Ok((zero, zero, zero, zero)),
    }
}

fn any_hash(files: &Vec<LazerFile>, hash: &String) -> (r: bool)
    ensures
        r == has_hash(file_views(files@), hash@),
{
    let mut i: usize = 0;
    while i < files.len()
        invariant
            i <= files@.len(),
            forall|j: int| 0 <= j < i ==> (#[trigger] file_views(files@)[j]).hash != hash@,
        decreases files.len() - i,
    {
        if files[i].hash == *hash {
            assert(file_views(files@)[i as int].hash == hash@);
            return true;
        }
        i = i + 1;
    }
    false
}

fn read_beatmap(store: &Store, files: &Vec<LazerFile>, link: &Link) -> (r: Result<
    Option<LazerBeatmap>,
    String,
>)
    requires
        store.wf(),
        link.table < store.tables@.len(),
    ensures
        match r {
            Ok(Some(b)) => {
                &&& beatmap_of(*store, file_views(files@), *link) == Ok::<
                    Option<BeatmapView>,
                    Seq<char>,
                >(Some(b@))
                &&& store.fetch(*link) matches Ok(Some(row)) ==> realm::shows_text(
                    row.col("Hash"@),
                    b.sha2@,
                ) && realm::shows_text(row.col("MD5Hash"@), b.md5@) && realm::shows_text(
                    row.col("DifficultyName"@),
                    b.name@,
                )
            },
            Ok(None) => beatmap_of(*store, file_views(files@), *link) == Ok::<
                Option<BeatmapView>,
                Seq<char>,
            >(None),
            Err(e) => beatmap_of(*store, file_views(files@), *link) == Err::<
                Option<BeatmapView>,
                Seq<char>,
            >(e@),
        },
{
    let zero: Double = Double { bits: 0 };
    let b: &Row = match store.row(link) {
        Err(e) => {
            return Err(e);
        },
        Ok(None) => {
            return Ok(None);
        },
        Ok(Some(row)) => row,
    };
    let sha2: String = realm::string_value(b.get("Hash"));
    if text::chars_of(sha2.as_str()).len() == 0 || !any_hash(files, &sha2) {
        return Ok(None);
    }
    let ruleset: String = ruleset_short_name(store, b.get("Ruleset"));
    if !text::same(ruleset.as_str(), "osu") {
        return Ok(None);
    }
    let (ar, cs, od, hp) = match read_params(store, b.get("Difficulty")) {
        Err(e) => {
            return Err(e);
        },
        Ok(p) => p,
    };
    Ok(
        Some(
            LazerBeatmap {
                sha2,
                md5: realm::string_value(b.get("MD5Hash")),
                name: realm::string_value(b.get("DifficultyName")),
                ruleset,
                star_rating: realm::double_value(b.get("StarRating"), zero),
                length_ms: realm::double_value(b.get("Length"), zero),
                ar,
                cs,
                od,
                hp,
                bpm: realm::double_value(b.get("BPM"), zero),
                online_id: realm::int_value(b.get("OnlineID"), -1),
            },
        ),
    )
}

fn read_beatmaps(store: &Store, files: &Vec<LazerFile>, v: Option<&Value>) -> (r: Result<
    Vec<LazerBeatmap>,
    String,
>)
    requires
        store.wf(),
        v is Some ==> realm::value_links_within(*v->0, store.tables@.len()),
    ensures
        match r {
            Ok(beatmaps) => beatmaps_of(*store, file_views(files@), realm::opt(v)) == Ok::<
                Seq<BeatmapView>,
                Seq<char>,
            >(beatmap_views(beatmaps@)),
            Err(e) => beatmaps_of(*store, file_views(files@), realm::opt(v)) == Err::<
                Seq<BeatmapView>,
                Seq<char>,
            >(e@),
        },
{
    let mut beatmaps: Vec<LazerBeatmap> = Vec::new();
    let ghost fs = file_views(files@);
    assert(beatmap_views(beatmaps@) =~= Seq::<BeatmapView>::empty());
    let links: &Vec<Link> = match v {
        Some(Value::LinkList(links)) => links,
        _ => {
            return Ok(beatmaps);
        },
    };
    let ghost ls = links@;
    let ghost f = |i: int| beatmap_of(*store, fs, ls[i]);
    let mut i: usize = 0;
    while i < links.len()
        invariant
            i <= ls.len(),
            ls == links@,
            ls == realm::links_of(realm::opt(v)),
            fs == file_views(files@),
            store.wf(),
            forall|j: int| 0 <= j < ls.len() ==> (#[trigger] ls[j]).table < store.tables@.len(),
            f == (|i: int| beatmap_of(*store, fs, ls[i])),
            realm::collect(i as nat, f) == Ok::<Seq<BeatmapView>, Seq<char>>(
                beatmap_views(beatmaps@),
            ),
        decreases links.len() - i,
    {
        let ghost before = beatmap_views(beatmaps@);
        match read_beatmap(store, files, &links[i]) {
            Err(e) => {
                proof {
                    realm::lemma_collect_error((i + 1) as nat, ls.len(), f);
                }
                return Err(e);
            },
            Ok(None) => {},
            Ok(Some(b)) => {
                beatmaps.push(b);
                assert(beatmap_views(beatmaps@) =~= before.push(b@));
            },
        }
        i = i + 1;
    }
    Ok(beatmaps)
}

fn non_empty_or(value: String, fallback: &String) -> (r: String)
    ensures
        r@ == or_else(value@, fallback@),
{
    if text::chars_of(value.as_str()).len() == 0 {
        fallback.clone()
    } else {
        value
    }
}

fn read_metadata<'a>(store: &'a Store, row: &Row) -> (r: Option<&'a Row>)
    requires
        store.wf(),
        row.links_within(store.tables@.len()),
    ensures
        r == match metadata_of(*store, *row) {
            Some(m) => Some(&m),
            None => None,
        },
        r is Some ==> r->0.links_within(store.tables@.len()),
{
    let first: Link = match row.get("Beatmaps") {
        Some(v) => match realm::first_link(v) {
            Some(l) => l,
            None => {
                return None;
            },
        },
        None => {
            return None;
        },
    };
    match store.row_any(&first) {
        None => None,
        Some(b) => match b.get("Metadata") {
            Some(Value::Link(l)) => store.row_any(l),
            _ => None,
        },
    }
}

fn read_author(store: &Store, m: &Row) -> (r: String)
    requires
        store.wf(),
        m.links_within(store.tables@.len()),
    ensures
        r@ == author_of(*store, *m),
{
    match m.get("Author") {
        Some(Value::Link(l)) => match store.row_any(l) {
            Some(user) => realm::string_value(user.get("Username")),
            None => String::new(),
        },
        _ => String::new(),
    }
}

fn is_deleted(row: &Row) -> (r: bool)
    ensures
        r == deleted(*row),
{
    match row.get("DeletePending") {
        Some(Value::Bool(b)) => *b,
        _ => false,
    }
}

fn read_set(store: &Store, row: &Row) -> (r: Result<Option<LazerSet>, String>)
    requires
        store.wf(),
        row.links_within(store.tables@.len()),
    ensures
        match r {
            Ok(Some(s)) => set_of(*store, *row) == Ok::<Option<SetView>, Seq<char>>(Some(s@)),
            Ok(None) => set_of(*store, *row) == Ok::<Option<SetView>, Seq<char>>(None),
            Err(e) => set_of(*store, *row) == Err::<Option<SetView>, Seq<char>>(e@),
        },
{
    if is_deleted(row) {
        return Ok(None);
    }
    let files: Vec<LazerFile> = match resolve_named_files(store, row.get("Files")) {
        Err(e) => {
            return Err(e);
        },
        Ok(files) => files,
    };
    let beatmaps: Vec<LazerBeatmap> = match read_beatmaps(store, &files, row.get("Beatmaps")) {
        Err(e) => {
            return Err(e);
        },
        Ok(beatmaps) => beatmaps,
    };
    if beatmaps.len() == 0 {
        return Ok(None);
    }
    let id: String = realm::uuid_string(row.get("ID"));
    let online_id: i64 = realm::int_value(row.get("OnlineID"), -1);
    let date_added_ms: i64 = realm::timestamp_ms(row.get("DateAdded"));
    let set: LazerSet = match read_metadata(store, row) {
        Some(m) => {
            let artist: String = realm::string_value(m.get("Artist"));
            let title: String = realm::string_value(m.get("Title"));
            LazerSet {
                id,
                online_id,
                date_added_ms,
                artist_unicode: non_empty_or(
                    realm::string_value(m.get("ArtistUnicode")),
                    &artist,
                ),
                artist,
                title_unicode: non_empty_or(realm::string_value(m.get("TitleUnicode")), &title),
                title,
                creator: read_author(store, m),
                tags: realm::string_value(m.get("Tags")),
                source: realm::string_value(m.get("Source")),
                root: None,
                sb_video: false,
                beatmaps,
                files,
            }
        },
        None => LazerSet {
            id,
            online_id,
            date_added_ms,
            artist: String::new(),
            artist_unicode: String::new(),
            title: String::new(),
            title_unicode: String::new(),
            creator: String::new(),
            tags: String::new(),
            source: String::new(),
            root: None,
            sb_video: false,
            beatmaps,
            files,
        },
    };
    Ok(Some(set))
}

/// The sets of the database, in the order of their rows; the first row that cannot be read ends
/// the reading with its error.
pub fn parse_beatmap_sets(store: &Store) -> (r: Result<Vec<LazerSet>, String>)
    requires
        store.wf(),
    ensures
        match r {
            Ok(sets) => sets_of(*store) == Ok::<Seq<SetView>, Seq<char>>(set_views(sets@)),
            Err(e) => sets_of(*store) == Err::<Seq<SetView>, Seq<char>>(e@),
        },
{
    let rows: &Vec<Row> = match store.bulk_rows("class_BeatmapSet") {
        Err(e) => {
            return Err(e);
        },
        Ok(rows) => rows,
    };
    let ghost rs = rows@;
    let ghost f = |i: int| set_of(*store, rs[i]);
    let mut sets: Vec<LazerSet> = Vec::new();
    assert(set_views(sets@) =~= Seq::<SetView>::empty());
    let mut i: usize = 0;
    while i < rows.len()
        invariant
            i <= rs.len(),
            rs == rows@,
            store.whole("class_BeatmapSet"@) == Ok::<Seq<Row>, Seq<char>>(rs),
            store.wf(),
            forall|j: int| 0 <= j < rs.len() ==> (#[trigger] rs[j]).links_within(store.tables@.len()),
            f == (|i: int| set_of(*store, rs[i])),
            realm::collect(i as nat, f) == Ok::<Seq<SetView>, Seq<char>>(set_views(sets@)),
        decreases rows.len() - i,
    {
        let ghost before = set_views(sets@);
        match read_set(store, &rows[i]) {
            Err(e) => {
                proof {
                    realm::lemma_collect_error((i + 1) as nat, rs.len(), f);
                }
                return Err(e);
            },
            Ok(None) => {},
            Ok(Some(set)) => {
                sets.push(set);
                assert(set_views(sets@) =~= before.push(set@));
            },
        }
        i = i + 1;
    }
    Ok(sets)
}

fn holds(v: &Vec<String>, s: &String) -> (r: bool)
    ensures
        r == text::views(v@).contains(s@),
{
    let mut i: usize = 0;
    while i < v.len()
        invariant
            i <= v@.len(),
            forall|j: int| 0 <= j < i ==> #[trigger] text::views(v@)[j] != s@,
        decreases v.len() - i,
    {
        if v[i] == *s {
            assert(text::views(v@)[i as int] == s@);
            return true;
        }
        i = i + 1;
    }
    false
}

/// The strings of a list, each once.
pub fn distinct_strings(v: &Vec<Option<String>>) -> (r: Vec<String>)
    ensures
        text::views(r@) == distinct(v@),
{
    let mut r: Vec<String> = Vec::new();
    assert(text::views(r@) =~= distinct(v@.take(0)));
    let mut i: usize = 0;
    while i < v.len()
        invariant
            i <= v@.len(),
            text::views(r@) == distinct(v@.take(i as int)),
        decreases v.len() - i,
    {
        assert(v@.take(i + 1).drop_last() =~= v@.take(i as int));
        if let Some(s) = &v[i] {
            if !holds(&r, s) {
                let ghost before = text::views(r@);
                r.push(s.clone());
                assert(text::views(r@) =~= before.push(s@));
            }
        }
        i = i + 1;
    }
    assert(v@.take(v@.len() as int) =~= v@);
    r
}

/// A list of collections with the favourites first.
pub fn favourites_to_front(all: Vec<LazerCollection>) -> (r: Vec<LazerCollection>)
    ensures
        collection_views(r@) == favourites_first(collection_views(all@)),
{
    let ghost views = collection_views(all@);
    let ghost is = |c: CollectionView| favourite(c);
    let ghost not = |c: CollectionView| !favourite(c);
    let mut first: Vec<LazerCollection> = Vec::new();
    let mut rest: Vec<LazerCollection> = Vec::new();
    proof {
        reveal(Seq::filter);
        assert(collection_views(first@) =~= views.take(0).filter(is));
        assert(collection_views(rest@) =~= views.take(0).filter(not));
    }
    for c in it: all.into_iter()
        invariant
            views == collection_views(it.seq()),
            is == (|c: CollectionView| favourite(c)),
            not == (|c: CollectionView| !favourite(c)),
            collection_views(first@) == views.take(it.index()).filter(is),
            collection_views(rest@) == views.take(it.index()).filter(not),
    {
        proof {
            reveal(Seq::filter);
            assert(views.take(it.index() + 1).drop_last() =~= views.take(it.index()));
            assert(views.take(it.index() + 1).last() == c@);
        }
        let ghost f = collection_views(first@);
        let ghost g = collection_views(rest@);
        if text::eq_ignore_ascii_case(c.name.as_str(), "favourites") {
            first.push(c);
            assert(collection_views(first@) =~= f.push(c@));
        } else {
            rest.push(c);
            assert(collection_views(rest@) =~= g.push(c@));
        }
    }
    assert(views.take(views.len() as int) =~= views);
    let ghost f = first@;
    let ghost g = rest@;
    first.append(&mut rest);
    assert(collection_views(first@) =~= collection_views(f) + collection_views(g));
    first
}

fn read_collection(row: &Row) -> (r: Option<LazerCollection>)
    ensures
        match r {
            Some(c) => collection_of(*row) == Some(c@),
            None => collection_of(*row) is None,
        },
{
    let name: String = realm::string_value(row.get("Name"));
    if text::chars_of(name.as_str()).len() == 0 {
        return None;
    }
    let md5s: Vec<String> = match row.get("BeatmapMD5Hashes") {
        Some(Value::List(v)) => distinct_strings(v),
        _ => Vec::new(),
    };
    let c = LazerCollection { name, md5s };
    assert(c@.md5s =~= collection_of(*row)->0.md5s);
    Some(c)
}

/// The collections of the database: those with a name, the favourites first.
pub fn parse_collections(store: &Store) -> (r: Result<Vec<LazerCollection>, String>)
    requires
        store.wf(),
    ensures
        match r {
            Ok(all) => collections_of(*store) == Ok::<Seq<CollectionView>, Seq<char>>(
                collection_views(all@),
            ),
            Err(e) => collections_of(*store) == Err::<Seq<CollectionView>, Seq<char>>(e@),
        },
{
    let rows: &Vec<Row> = match store.bulk_rows("class_BeatmapCollection") {
        Err(e) => {
            return Err(e);
        },
        Ok(rows) => rows,
    };
    let ghost rs = rows@;
    let ghost f = |i: int| Ok::<Option<CollectionView>, Seq<char>>(collection_of(rs[i]));
    let mut all: Vec<LazerCollection> = Vec::new();
    assert(collection_views(all@) =~= Seq::<CollectionView>::empty());
    let mut i: usize = 0;
    while i < rows.len()
        invariant
            i <= rs.len(),
            rs == rows@,
            f == (|i: int| Ok::<Option<CollectionView>, Seq<char>>(collection_of(rs[i]))),
            realm::collect(i as nat, f) == Ok::<Seq<CollectionView>, Seq<char>>(
                collection_views(all@),
            ),
        decreases rows.len() - i,
    {
        let ghost before = collection_views(all@);
        if let Some(c) = read_collection(&rows[i]) {
            all.push(c);
            assert(collection_views(all@) =~= before.push(c@));
        }
        i = i + 1;
    }
    Ok(favourites_to_front(all))
}

fn any_skin_ini(files: &Vec<LazerFile>) -> (r: bool)
    ensures
        r == has_skin_ini(file_views(files@)),
{
    let mut i: usize = 0;
    while i < files.len()
        invariant
            i <= files@.len(),
            forall|j: int|
                0 <= j < i ==> text::lowered((#[trigger] file_views(files@)[j]).filename)
                    != text::lowered("skin.ini"@),
        decreases files.len() - i,
    {
        if text::eq_ignore_ascii_case(files[i].filename.as_str(), "skin.ini") {
            assert(text::lowered(file_views(files@)[i as int].filename) == text::lowered(
                "skin.ini"@,
            ));
            return true;
        }
        i = i + 1;
    }
    false
}

fn read_skin(store: &Store, row: &Row) -> (r: Result<Option<LazerSkin>, String>)
    requires
        store.wf(),
        row.links_within(store.tables@.len()),
    ensures
        match r {
            Ok(Some(s)) => skin_of(*store, *row) == Ok::<Option<SkinView>, Seq<char>>(Some(s@)),
            Ok(None) => skin_of(*store, *row) == Ok::<Option<SkinView>, Seq<char>>(None),
            Err(e) => skin_of(*store, *row) == Err::<Option<SkinView>, Seq<char>>(e@),
        },
{
    if is_deleted(row) {
        return Ok(None);
    }
    let files: Vec<LazerFile> = match resolve_named_files(store, row.get("Files")) {
        Err(e) => {
            return Err(e);
        },
        Ok(files) => files,
    };
    if !any_skin_ini(&files) {
        return Ok(None);
    }
    Ok(
        Some(
            LazerSkin {
                id: realm::uuid_string(row.get("ID")),
                name: realm::string_value(row.get("Name")),
                creator: realm::string_value(row.get("Creator")),
                files,
            },
        ),
    )
}

/// The installed skins of the database, sorted by their names in lower case.
pub fn parse_skins(store: &Store) -> (r: Result<Vec<LazerSkin>, String>)
    requires
        store.wf(),
    ensures
        match r {
            Ok(skins) => skins_of(*store) is Ok && sorting::is_stable_sort(
                skins_of(*store)->Ok_0,
                skin_key(),
                skin_views(skins@),
            ),
            Err(e) => skins_of(*store) == Err::<Seq<SkinView>, Seq<char>>(e@),
        },
{
    let rows: &Vec<Row> = match store.bulk_rows("class_Skin") {
        Err(e) => {
            return Err(e);
        },
        Ok(rows) => rows,
    };
    let ghost rs = rows@;
    let ghost f = |i: int| skin_of(*store, rs[i]);
    let ghost mut all: Seq<SkinView> = Seq::empty();
    let mut skins: Vec<LazerSkin> = Vec::new();
    let mut keys: Vec<String> = Vec::new();
    proof {
        sorting::lemma_sort_empty(skin_key());
        assert(skin_views(skins@) =~= Seq::<SkinView>::empty());
        assert(text::views(keys@) =~= skin_views(skins@).map_values(skin_key()));
    }
    let mut i: usize = 0;
    while i < rows.len()
        invariant
            i <= rs.len(),
            rs == rows@,
            store.whole("class_Skin"@) == Ok::<Seq<Row>, Seq<char>>(rs),
            store.wf(),
            forall|j: int| 0 <= j < rs.len() ==> (#[trigger] rs[j]).links_within(store.tables@.len()),
            f == (|i: int| skin_of(*store, rs[i])),
            realm::collect(i as nat, f) == Ok::<Seq<SkinView>, Seq<char>>(all),
            sorting::is_stable_sort(all, skin_key(), skin_views(skins@)),
            text::views(keys@) == skin_views(skins@).map_values(skin_key()),
        decreases rows.len() - i,
    {
        match read_skin(store, &rows[i]) {
            Err(e) => {
                proof {
                    realm::lemma_collect_error((i + 1) as nat, rs.len(), f);
                }
                return Err(e);
            },
            Ok(None) => {},
            Ok(Some(skin)) => {
                let ghost before = skin_views(skins@);
                let ghost kb = text::views(keys@);
                let key: String = skin.name.as_str().to_lowercase();
                let k: usize = sorting::insertion_point(&keys, key.as_str());
                proof {
                    sorting::lemma_insert(all, skin_key(), before, skin@, k as int);
                    all = all.push(skin@);
                }
                skins.insert(k, skin);
                keys.insert(k, key);
                assert(skin_views(skins@) =~= before.insert(k as int, skin@));
                assert(text::views(keys@) =~= kb.insert(k as int, key@));
                assert(text::views(keys@) =~= skin_views(skins@).map_values(skin_key()));
            },
        }
        i = i + 1;
    }
    Ok(skins)
}

/// The library that the tables hold: sets, collections and skins, or the first error in that
/// order.
pub fn parse(store: &Store) -> (r: Result<LazerLibrary, String>)
    requires
        store.wf(),
    ensures
        match r {
            Ok(lib) => {
                &&& sets_of(*store) == Ok::<Seq<SetView>, Seq<char>>(lib@.sets)
                &&& collections_of(*store) == Ok::<Seq<CollectionView>, Seq<char>>(lib@.collections)
                &&& skins_of(*store) is Ok
                &&& sorting::is_stable_sort(skins_of(*store)->Ok_0, skin_key(), lib@.skins)
            },
            Err(e) => match (sets_of(*store), collections_of(*store), skins_of(*store)) {
                (Err(m), _, _) => e@ == m,
                (Ok(_), Err(m), _) => e@ == m,
                (Ok(_), Ok(_), Err(m)) => e@ == m,
                (Ok(_), Ok(_), Ok(_)) => false,
            },
        },
{
    let sets: Vec<LazerSet> = match parse_beatmap_sets(store) {
        Err(e) => {
            return Err(e);
        },
        Ok(sets) => sets,
    };
    let collections: Vec<LazerCollection> = match parse_collections(store) {
        Err(e) => {
            return Err(e);
        },
        Ok(collections) => collections,
    };
    let skins: Vec<LazerSkin> = match parse_skins(store) {
        Err(e) => {
            return Err(e);
        },
        Ok(skins) => skins,
    };
    Ok(LazerLibrary { sets, collections, skins })
}

// ---------- what can be played ----------

/// The files with the sizes of their blobs, without those whose blob is missing.
pub open spec fn present(files: Seq<FileView>, sizes: Seq<u64>) -> Seq<FileView> {
    Seq::new(files.len(), |i: int| FileView { size: sizes[i], ..files[i] }).filter(
        |f: FileView| f.size > 0,
    )
}

/// A set with what is left of its files and the difficulties whose file is left.
pub open spec fn playable(set: SetView, sizes: Seq<u64>) -> SetView {
    let files = present(set.files, sizes);
    SetView {
        beatmaps: set.beatmaps.filter(|b: BeatmapView| has_hash(files, b.sha2)),
        files,
        ..set
    }
}

/// A set that has files and difficulties.
pub open spec fn worth_keeping(s: SetView) -> bool {
    s.files.len() > 0 && s.beatmaps.len() > 0
}

/// The sets that can be played, where `sizes` holds the size of each blob of each set.
pub open spec fn retained(sets: Seq<SetView>, sizes: Seq<Vec<u64>>) -> Seq<SetView> {
    Seq::new(sets.len(), |i: int| playable(sets[i], sizes[i]@)).filter(
        |s: SetView| worth_keeping(s),
    )
}

fn keep_present(files: Vec<LazerFile>, sizes: &Vec<u64>) -> (r: Vec<LazerFile>)
    requires
        sizes@.len() == files@.len(),
    ensures
        file_views(r@) == present(file_views(files@), sizes@),
{
    let ghost fs = file_views(files@);
    let ghost sized = Seq::new(fs.len(), |i: int| FileView { size: sizes@[i], ..fs[i] });
    let ghost p = |f: FileView| f.size > 0;
    let mut r: Vec<LazerFile> = Vec::new();
    let mut i: usize = 0;
    proof {
        reveal(Seq::filter);
        assert(file_views(r@) =~= sized.take(0).filter(p));
    }
    for f in it: files.into_iter()
        invariant
            fs == file_views(it.seq()),
            sizes.len() == fs.len(),
            i == it.index(),
            sized == Seq::new(fs.len(), |i: int| FileView { size: sizes@[i], ..fs[i] }),
            p == (|f: FileView| f.size > 0),
            file_views(r@) == sized.take(i as int).filter(p),
    {
        let ghost before = file_views(r@);
        let size: u64 = sizes[i];
        let file = LazerFile { filename: f.filename, hash: f.hash, size };
        proof {
            reveal(Seq::filter);
            assert(sized.take(i + 1).drop_last() =~= sized.take(i as int));
            assert(sized.take(i + 1).last() == file@);
        }
        if size > 0 {
            r.push(file);
            assert(file_views(r@) =~= before.push(file@));
        }
        i = i + 1;
    }
    assert(sized.take(sized.len() as int) =~= sized);
    r
}

fn keep_beatmaps(beatmaps: Vec<LazerBeatmap>, files: &Vec<LazerFile>) -> (r: Vec<LazerBeatmap>)
    ensures
        beatmap_views(r@) == beatmap_views(beatmaps@).filter(
            |b: BeatmapView| has_hash(file_views(files@), b.sha2),
        ),
{
    let ghost bs = beatmap_views(beatmaps@);
    let ghost p = |b: BeatmapView| has_hash(file_views(files@), b.sha2);
    let mut r: Vec<LazerBeatmap> = Vec::new();
    proof {
        reveal(Seq::filter);
        assert(beatmap_views(r@) =~= bs.take(0).filter(p));
    }
    for b in it: beatmaps.into_iter()
        invariant
            bs == beatmap_views(it.seq()),
            p == (|b: BeatmapView| has_hash(file_views(files@), b.sha2)),
            beatmap_views(r@) == bs.take(it.index()).filter(p),
    {
        let ghost before = beatmap_views(r@);
        proof {
            reveal(Seq::filter);
            assert(bs.take(it.index() + 1).drop_last() =~= bs.take(it.index()));
            assert(bs.take(it.index() + 1).last() == b@);
        }
        if any_hash(files, &b.sha2) {
            r.push(b);
            assert(beatmap_views(r@) =~= before.push(b@));
        }
    }
    assert(bs.take(bs.len() as int) =~= bs);
    r
}

/// Takes out what cannot be played: files whose blob is missing, difficulties whose file is
/// missing, and sets with none left of either.
pub fn retain_playable(library: LazerLibrary, sizes: &Vec<Vec<u64>>) -> (r: LazerLibrary)
    requires
        sizes@.len() == library.sets@.len(),
        forall|i: int|
            0 <= i < sizes@.len() ==> (#[trigger] sizes@[i])@.len() == library.sets@[i].files@.len(),
    ensures
        r@ == (LibraryView { sets: retained(library@.sets, sizes@), ..library@ }),
{
    let LazerLibrary { sets, collections, skins } = library;
    let ghost ss = set_views(sets@);
    let ghost all = Seq::new(ss.len(), |i: int| playable(ss[i], sizes@[i]@));
    let ghost p = |s: SetView| worth_keeping(s);
    let mut kept: Vec<LazerSet> = Vec::new();
    let mut i: usize = 0;
    proof {
        reveal(Seq::filter);
        assert(set_views(kept@) =~= all.take(0).filter(p));
    }
    for set in it: sets.into_iter()
        invariant
            ss == set_views(it.seq()),
            i == it.index(),
            sizes.len() == ss.len(),
            forall|i: int|
                0 <= i < sizes@.len() ==> (#[trigger] sizes@[i])@.len()
                    == it.seq()[i].files@.len(),
            all == Seq::new(ss.len(), |i: int| playable(ss[i], sizes@[i]@)),
            p == (|s: SetView| worth_keeping(s)),
            set_views(kept@) == all.take(i as int).filter(p),
    {
        let ghost before = set_views(kept@);
        let ghost was = set@;
        let mut set = set;
        let files: Vec<LazerFile> = keep_present(set.files, &sizes[i]);
        let beatmaps: Vec<LazerBeatmap> = keep_beatmaps(set.beatmaps, &files);
        set.files = files;
        set.beatmaps = beatmaps;
        proof {
            reveal(Seq::filter);
            assert(set@ == playable(was, sizes@[i as int]@));
            assert(all.take(i + 1).drop_last() =~= all.take(i as int));
            assert(all.take(i + 1).last() == set@);
        }
        if set.files.len() > 0 && set.beatmaps.len() > 0 {
            kept.push(set);
            assert(set_views(kept@) =~= before.push(set@));
        }
        i = i + 1;
    }
    assert(all.take(all.len() as int) =~= all);
    LazerLibrary { sets: kept, collections, skins }
}

/// A storyboard or a video, going by the name.
pub open spec fn is_sb_video(name: Seq<char>) -> bool {
    let l = text::lowered(name);
    ||| text::ends(l, ".osb"@)
    ||| text::ends(l, ".mp4"@)
    ||| text::ends(l, ".avi"@)
    ||| text::ends(l, ".flv"@)
    ||| text::ends(l, ".m4v"@)
    ||| text::ends(l, ".mov"@)
    ||| text::ends(l, ".webm"@)
    ||| text::ends(l, ".wmv"@)
}

pub fn is_sb_video_name(name: &str) -> (r: bool)
    ensures
        r == is_sb_video(name@),
{
    let l: String = text::to_ascii_lowercase(name);
    let s: &str = l.as_str();
    text::ends_with(s, ".osb") || text::ends_with(s, ".mp4") || text::ends_with(s, ".avi")
        || text::ends_with(s, ".flv") || text::ends_with(s, ".m4v") || text::ends_with(s, ".mov")
        || text::ends_with(s, ".webm") || text::ends_with(s, ".wmv")
}

/// One of the files is a storyboard or a video.
pub open spec fn any_sb_video(files: Seq<FileView>) -> bool {
    exists|i: int| 0 <= i < files.len() && is_sb_video((#[trigger] files[i]).filename)
}

fn has_sb_video(files: &Vec<LazerFile>) -> (r: bool)
    ensures
        r == any_sb_video(file_views(files@)),
{
    let mut i: usize = 0;
    while i < files.len()
        invariant
            i <= files@.len(),
            forall|j: int| 0 <= j < i ==> !is_sb_video((#[trigger] file_views(files@)[j]).filename),
        decreases files.len() - i,
    {
        if is_sb_video_name(files[i].filename.as_str()) {
            assert(is_sb_video(file_views(files@)[i as int].filename));
            return true;
        }
        i = i + 1;
    }
    false
}

/// The sets, each with what its files say of storyboards and videos.
pub open spec fn marked(sets: Seq<SetView>) -> Seq<SetView> {
    Seq::new(sets.len(), |i: int| SetView { sb_video: any_sb_video(sets[i].files), ..sets[i] })
}

/// Marks the sets that have a storyboard or a video.
pub fn mark_sb_video(library: LazerLibrary) -> (r: LazerLibrary)
    ensures
        r@ == (LibraryView { sets: marked(library@.sets), ..library@ }),
{
    let LazerLibrary { sets, collections, skins } = library;
    let ghost ss = set_views(sets@);
    let mut out: Vec<LazerSet> = Vec::new();
    for set in it: sets.into_iter()
        invariant
            ss == set_views(it.seq()),
            set_views(out@) == marked(ss).take(it.index()),
    {
        let ghost before = set_views(out@);
        let mut set = set;
        set.sb_video = has_sb_video(&set.files);
        out.push(set);
        proof {
            assert(ss[it.index()] == it.seq()[it.index()]@);
            assert(set_views(out@) =~= before.push(set@));
            assert(set_views(out@) =~= marked(ss).take(it.index() + 1));
        }
    }
    assert(marked(ss).take(ss.len() as int) =~= marked(ss));
    LazerLibrary { sets: out, collections, skins }
}

// ---------- names and places ----------

/// A name by which a blob can be found: its first two characters are ASCII.
pub open spec fn blob_named(hash: Seq<char>) -> bool {
    &&& hash.len() >= 1 ==> (hash[0] as u32) < 128
    &&& hash.len() >= 2 ==> (hash[1] as u32) < 128
}

/// Whether a blob can be found by a name.
pub fn is_blob_name(hash: &str) -> (r: bool)
    ensures
        r == blob_named(hash@),
{
    let v: Vec<char> = text::chars_of(hash);
    (v.len() < 1 || (v[0] as u32) < 128) && (v.len() < 2 || (v[1] as u32) < 128)
}

/// Where a blob lies in the store: below its first character and its first two.
pub open spec fn blob_path(hash: Seq<char>) -> Seq<char> {
    if hash.len() >= 2 {
        seq![text::lower(hash[0]), '/', text::lower(hash[0]), text::lower(hash[1]), '/'] + hash
    } else {
        hash
    }
}

pub fn blob_relative_path(hash: &str) -> (r: String)
    requires
        blob_named(hash@),
    ensures
        r@ == blob_path(hash@),
{
    let v: Vec<char> = text::chars_of(hash);
    if v.len() >= 2 {
        let mut r: String = String::new();
        r.push(text::lower_char(v[0]));
        r.push('/');
        r.push(text::lower_char(v[0]));
        r.push(text::lower_char(v[1]));
        r.push('/');
        assert(r@ =~= seq![
            text::lower(hash@[0]),
            '/',
            text::lower(hash@[0]),
            text::lower(hash@[1]),
            '/',
        ]);
        r.append(hash);
        r
    } else {
        text::owned(hash)
    }
}

/// Where the file of a difficulty lies below the data directory.
pub fn beatmap_blob(root: &str, sha2: &str) -> (path: String)
    requires
        blob_named(sha2@),
    ensures
        paths::joined_twice(root@, "files"@, blob_path(sha2@), path@),
{
    paths::join_twice(root, "files", blob_relative_path(sha2).as_str())
}

/// The characters that a file name may not hold.
pub open spec fn forbidden(c: char) -> bool {
    c == ':' || c == '*' || c == '?' || c == '"' || c == '<' || c == '>' || c == '|'
}

/// A part of a path with every forbidden character replaced.
pub open spec fn cleaned(seg: Seq<char>) -> Seq<char> {
    Seq::new(seg.len(), |i: int| if forbidden(seg[i]) { '_' } else { seg[i] })
}

/// A part of a path that leads somewhere below.
pub open spec fn goes_down(seg: Seq<char>) -> bool {
    seg.len() > 0 && seg != ".."@
}

/// The parts with slashes between them.
pub open spec fn slashed(segs: Seq<Seq<char>>) -> Seq<char>
    decreases segs.len(),
{
    if segs.len() == 0 {
        Seq::empty()
    } else if segs.len() == 1 {
        segs[0]
    } else {
        slashed(segs.drop_last()).push('/') + segs.last()
    }
}

/// The parts of a path that lead down, cleaned.
pub open spec fn safe_parts(name: Seq<char>) -> Seq<Seq<char>> {
    let segs = text::split(text::replaced(name, '\\', '/'), text::is_char('/')).filter(
        |seg: Seq<char>| goes_down(seg),
    );
    Seq::new(segs.len(), |i: int| cleaned(segs[i]))
}

/// A relative path that stays below where it is put, with plain names.
pub open spec fn sanitized(name: Seq<char>) -> Seq<char> {
    slashed(safe_parts(name))
}

fn clean_segment(seg: &str) -> (r: String)
    ensures
        r@ == cleaned(seg@),
{
    let mut r: String = String::new();
    for c in it: seg.chars()
        invariant
            it.seq() == seg@,
            r@ == cleaned(it.seq().take(it.index())),
    {
        if c == ':' || c == '*' || c == '?' || c == '"' || c == '<' || c == '>' || c == '|' {
            r.push('_');
        } else {
            r.push(c);
        }
        assert(r@ =~= cleaned(it.seq().take(it.index() + 1)));
    }
    assert(seg@.take(seg@.len() as int) =~= seg@);
    r
}

pub open spec fn cleaned_all(segs: Seq<Seq<char>>) -> Seq<Seq<char>> {
    Seq::new(segs.len(), |i: int| cleaned(segs[i]))
}

/// A file name without parts that lead up, and without the characters that a name may not hold.
pub fn sanitize_filename(name: &str) -> (r: String)
    ensures
        r@ == sanitized(name@),
{
    let flat: String = text::replace_char(name, '\\', '/');
    let segs: Vec<String> = text::split_on(flat.as_str(), '/');
    let ghost all = text::views(segs@);
    let ghost p = |seg: Seq<char>| goes_down(seg);
    let mut r: String = String::new();
    let mut first: bool = true;
    let mut i: usize = 0;
    proof {
        reveal(Seq::filter);
        assert(all.take(0).filter(p) =~= Seq::<Seq<char>>::empty());
        assert(cleaned_all(all.take(0).filter(p)) =~= Seq::<Seq<char>>::empty());
    }
    while i < segs.len()
        invariant
            i <= segs@.len(),
            all == text::views(segs@),
            p == (|seg: Seq<char>| goes_down(seg)),
            r@ == slashed(cleaned_all(all.take(i as int).filter(p))),
            first == (all.take(i as int).filter(p).len() == 0),
        decreases segs.len() - i,
    {
        let ghost kept = all.take(i as int).filter(p);
        let ghost parts = cleaned_all(kept);
        proof {
            reveal(Seq::filter);
            assert(all.take(i + 1).drop_last() =~= all.take(i as int));
            assert(all.take(i + 1).last() == segs@[i as int]@);
        }
        if text::chars_of(segs[i].as_str()).len() > 0 && !text::same(segs[i].as_str(), "..") {
            let part: String = clean_segment(segs[i].as_str());
            if !first {
                r.push('/');
            }
            r.append(part.as_str());
            first = false;
            proof {
                let more = cleaned_all(kept.push(segs@[i as int]@));
                assert(more =~= parts.push(part@));
                assert(more.drop_last() =~= parts);
                assert(r@ =~= slashed(more));
            }
        }
        i = i + 1;
    }
    assert(all.take(all.len() as int) =~= all);
    assert(cleaned_all(all.filter(p)) =~= safe_parts(name@));
    r
}

/// A part of the path alone is its only part.
proof fn lemma_split_alone(s: Seq<char>, sep: char)
    requires
        !s.contains(sep),
    ensures
        text::split(s, text::is_char(sep)) == seq![s],
    decreases s.len(),
{
    if s.len() > 0 {
        let head = s.drop_last();
        assert forall|i: int| 0 <= i < head.len() implies head[i] != sep by {
            assert(s[i] == head[i]);
            assert(s.contains(s[i]));
        }
        lemma_split_alone(head, sep);
        assert(s.contains(s[s.len() - 1]));
        assert(head.push(s.last()) =~= s);
        assert(text::split(s, text::is_char(sep)) =~= seq![s]);
    } else {
        assert(s =~= Seq::<char>::empty());
    }
}

/// What follows the last separator is the last part.
proof fn lemma_split_joined(s: Seq<char>, t: Seq<char>, sep: char)
    requires
        !t.contains(sep),
    ensures
        text::split(s.push(sep) + t, text::is_char(sep)) == text::split(s, text::is_char(sep)).push(
            t,
        ),
    decreases t.len(),
{
    let p = text::is_char(sep);
    let whole = s.push(sep) + t;
    if t.len() == 0 {
        assert(whole.drop_last() =~= s);
        assert(whole.last() == sep);
        assert(t =~= Seq::<char>::empty());
    } else {
        let head = t.drop_last();
        assert forall|i: int| 0 <= i < head.len() implies head[i] != sep by {
            assert(t[i] == head[i]);
            assert(t.contains(t[i]));
        }
        lemma_split_joined(s, head, sep);
        assert(whole.drop_last() =~= s.push(sep) + head);
        assert(whole.last() == t.last());
        assert(t.contains(t[t.len() - 1]));
        assert(head.push(t.last()) =~= t);
        let before = text::split(s.push(sep) + head, p);
        assert(before.update(before.len() - 1, before.last().push(whole.last())) =~= text::split(
            s,
            p,
        ).push(t));
    }
}

/// Joining the parts and taking them apart gives the parts.
proof fn lemma_split_slashed(segs: Seq<Seq<char>>)
    requires
        segs.len() > 0,
        forall|i: int| 0 <= i < segs.len() ==> !(#[trigger] segs[i]).contains('/'),
    ensures
        text::split(slashed(segs), text::is_char('/')) == segs,
    decreases segs.len(),
{
    if segs.len() == 1 {
        lemma_split_alone(segs[0], '/');
        assert(segs =~= seq![segs[0]]);
    } else {
        lemma_split_slashed(segs.drop_last());
        lemma_split_joined(slashed(segs.drop_last()), segs.last(), '/');
        assert(segs.drop_last().push(segs.last()) =~= segs);
    }
}

/// The parts that a split gives do not hold the separator.
proof fn lemma_split_parts(s: Seq<char>, sep: char)
    ensures
        forall|i: int|
            0 <= i < text::split(s, text::is_char(sep)).len() ==> !(#[trigger] text::split(
                s,
                text::is_char(sep),
            )[i]).contains(sep),
        forall|i: int, j: int|
            0 <= i < text::split(s, text::is_char(sep)).len() && 0 <= j < text::split(
                s,
                text::is_char(sep),
            )[i].len() ==> s.contains(#[trigger] text::split(s, text::is_char(sep))[i][j]),
    decreases s.len(),
{
    let p = text::is_char(sep);
    if s.len() > 0 {
        let head = s.drop_last();
        lemma_split_parts(head, sep);
        text::lemma_split_nonempty(head, p);
        let before = text::split(head, p);
        let all = text::split(s, p);
        assert forall|i: int| 0 <= i < all.len() implies !(#[trigger] all[i]).contains(sep) by {
            if i < before.len() {
                assert(!before[i].contains(sep));
                if !p(s.last()) && i == before.len() - 1 {
                    assert forall|j: int| 0 <= j < all[i].len() implies all[i][j] != sep by {
                        if j < before[i].len() {
                            assert(before[i].contains(before[i][j]));
                        }
                    }
                }
            }
        }
        assert forall|i: int, j: int|
            0 <= i < all.len() && 0 <= j < all[i].len() implies s.contains(
            #[trigger] all[i][j],
        ) by {
            if i < before.len() && j < before[i].len() {
                assert(head.contains(before[i][j]));
                let k = choose|k: int| 0 <= k < head.len() && head[k] == before[i][j];
                assert(s[k] == all[i][j]);
            } else {
                assert(s[s.len() - 1] == all[i][j]);
            }
        }
    }
}

proof fn lemma_cleaned_part(seg: Seq<char>)
    requires
        goes_down(seg),
        !seg.contains('/'),
        !seg.contains('\\'),
    ensures
        goes_down(cleaned(seg)),
        !cleaned(seg).contains('/'),
        !cleaned(seg).contains('\\'),
        cleaned(cleaned(seg)) == cleaned(seg),
{
    reveal_strlit("..");
    let c = cleaned(seg);
    assert(cleaned(c) =~= c);
    assert forall|i: int| 0 <= i < c.len() implies c[i] != '/' && c[i] != '\\' by {
        assert(seg.contains(seg[i]));
    }
    if c == ".."@ {
        assert(c[0] == '.' && c[1] == '.');
        assert(seg =~= ".."@);
    }
}

/// A sanitized name holds none of the characters that a name may not hold, every part of it leads
/// down, and sanitizing it again changes nothing.
pub proof fn law_sanitized_stays_below(name: Seq<char>)
    ensures
        forall|i: int|
            0 <= i < sanitized(name).len() ==> !forbidden(#[trigger] sanitized(name)[i])
                && sanitized(name)[i] != '\\',
        sanitized(name).len() > 0 ==> paths::plain_rel(sanitized(name)),
        forall|i: int| 0 <= i < safe_parts(name).len() ==> goes_down(#[trigger] safe_parts(name)[i]),
        safe_parts(name).len() > 0 ==> text::split(sanitized(name), text::is_char('/'))
            == safe_parts(name),
        sanitized(sanitized(name)) == sanitized(name),
{
    broadcast use vstd::seq_lib::group_filter_ensures;

    let flat = text::replaced(name, '\\', '/');
    let pieces = text::split(flat, text::is_char('/'));
    let p = |seg: Seq<char>| goes_down(seg);
    let kept = pieces.filter(p);
    let parts = safe_parts(name);
    lemma_split_parts(flat, '/');
    assert forall|i: int| 0 <= i < parts.len() implies {
        &&& goes_down(#[trigger] parts[i])
        &&& !parts[i].contains('/')
        &&& !parts[i].contains('\\')
        &&& cleaned(parts[i]) == parts[i]
    } by {
        assert(p(kept[i]));
        let k = seqs::lemma_filter_source(pieces, p, i);
        assert(!pieces[k].contains('/'));
        assert forall|j: int| 0 <= j < kept[i].len() implies kept[i][j] != '\\' by {
            assert(flat.contains(pieces[k][j]));
        }
        lemma_cleaned_part(kept[i]);
    }
    let out = sanitized(name);
    if parts.len() > 0 {
        lemma_split_slashed(parts);
        lemma_slashed_chars(parts, '\\');
        assert forall|i: int| 0 <= i < out.len() implies out[i] != '\\' by {
            assert(out.contains(out[i]));
        }
        assert forall|i: int| 0 <= i < out.len() implies !forbidden(#[trigger] out[i]) by {
            let c = out[i];
            if forbidden(c) {
                assert forall|j: int| 0 <= j < parts.len() implies !(#[trigger] parts[j]).contains(
                    c,
                ) by {
                    if parts[j].contains(c) {
                        let k = choose|k: int| 0 <= k < parts[j].len() && parts[j][k] == c;
                        assert(cleaned(parts[j])[k] != c);
                    }
                }
                lemma_slashed_chars(parts, c);
                assert(out.contains(c));
            }
        }
        lemma_slashed_first(parts);
        assert(parts[0].contains(parts[0][0]));
        assert(text::replaced(out, '\\', '/') =~= out);
        lemma_filter_keeps(parts, p);
        assert(safe_parts(out) =~= parts);
    } else {
        assert(out =~= Seq::<char>::empty());
        assert(text::replaced(out, '\\', '/') =~= out);
        reveal(Seq::filter);
        let one = text::split(out, text::is_char('/'));
        assert(one =~= seq![Seq::<char>::empty()]);
        assert(one.drop_last() =~= Seq::<Seq<char>>::empty());
        assert(one.drop_last().filter(p) =~= Seq::<Seq<char>>::empty());
        assert(!p(one.last()));
        assert(one.filter(p) =~= Seq::<Seq<char>>::empty());
        assert(safe_parts(out) =~= parts);
    }
}

proof fn lemma_filter_keeps(s: Seq<Seq<char>>, p: spec_fn(Seq<char>) -> bool)
    requires
        forall|i: int| 0 <= i < s.len() ==> p(#[trigger] s[i]),
    ensures
        s.filter(p) == s,
    decreases s.len(),
{
    reveal(Seq::filter);
    if s.len() > 0 {
        lemma_filter_keeps(s.drop_last(), p);
        assert(s.drop_last().push(s.last()) =~= s);
    } else {
        assert(s.filter(p) =~= s);
    }
}

proof fn lemma_slashed_chars(segs: Seq<Seq<char>>, c: char)
    requires
        c != '/',
        forall|i: int| 0 <= i < segs.len() ==> !(#[trigger] segs[i]).contains(c),
    ensures
        !slashed(segs).contains(c),
    decreases segs.len(),
{
    if segs.len() > 1 {
        lemma_slashed_chars(segs.drop_last(), c);
        let s = slashed(segs.drop_last());
        let out = slashed(segs);
        assert forall|i: int| 0 <= i < out.len() implies out[i] != c by {
            if i < s.len() {
                assert(s.contains(s[i]));
            } else if i > s.len() {
                assert(segs.last().contains(segs.last()[i - s.len() - 1]));
            }
        }
    }
}

proof fn lemma_slashed_first(segs: Seq<Seq<char>>)
    requires
        segs.len() > 0,
        segs[0].len() > 0,
    ensures
        slashed(segs).len() > 0,
        slashed(segs)[0] == segs[0][0],
    decreases segs.len(),
{
    if segs.len() > 1 {
        lemma_slashed_first(segs.drop_last());
    }
}

// ---------- the data directory ----------

/// What a line of storage.ini says of the directory: behind the first equals sign, up to the
/// next, without white space around it.
pub open spec fn line_path(line: Seq<char>) -> Option<Seq<char>> {
    if text::starts(line, "FullPath"@) {
        let pieces = text::split(line.skip("FullPath"@.len() as int), text::is_char('='));
        if pieces.len() > 1 && text::trimmed(pieces[1]).len() > 0 {
            Some(text::trimmed(pieces[1]))
        } else {
            None
        }
    } else {
        None
    }
}

/// The directory that the first line with one names.
pub open spec fn full_path(lines: Seq<String>) -> Option<Seq<char>> {
    match seqs::least(lines.len() as int, |i: int| line_path(lines[i]@) is Some) {
        Some(i) => line_path(lines[i]@),
        None => None,
    }
}

fn read_line_path(line: &str) -> (r: Option<String>)
    ensures
        match r {
            Some(p) => line_path(line@) == Some(p@),
            None => line_path(line@) is None,
        },
{
    match text::strip_prefix(line, "FullPath") {
        Some(rest) => {
            let pieces: Vec<String> = text::split_on(rest.as_str(), '=');
            assert(text::views(pieces@).len() == pieces@.len());
            if pieces.len() > 1 {
                assert(text::views(pieces@)[1] == pieces@[1]@);
                let p: String = text::trim(pieces[1].as_str());
                if text::chars_of(p.as_str()).len() > 0 {
                    return Some(p);
                }
            }
            None
        },
        None => None,
    }
}

/// The directory that the lines of a storage.ini name.
pub fn read_storage_ini_fullpath(lines: &Vec<String>) -> (r: Option<String>)
    ensures
        match r {
            Some(p) => full_path(lines@) == Some(p@),
            None => full_path(lines@) is None,
        },
{
    let ghost p = |i: int| line_path(lines@[i]@) is Some;
    let mut i: usize = 0;
    while i < lines.len()
        invariant
            i <= lines@.len(),
            p == (|i: int| line_path(lines@[i]@) is Some),
            forall|j: int| 0 <= j < i ==> !#[trigger] p(j),
        decreases lines.len() - i,
    {
        match read_line_path(lines[i].as_str()) {
            Some(path) => {
                assert(p(i as int));
                proof {
                    seqs::lemma_least_found(lines@.len() as int, p, i as int);
                }
                return Some(path);
            },
            None => {
                assert(!p(i as int));
            },
        }
        i = i + 1;
    }
    proof {
        seqs::lemma_least_missing(lines@.len() as int, p);
    }
    None
}

/// Where the data lie: where storage.ini says, else in the directory itself.
pub open spec fn resolved(dir: Seq<char>, ini: Option<Vec<String>>) -> Seq<char> {
    match ini {
        Some(lines) => match full_path(lines@) {
            Some(p) => p,
            None => dir,
        },
        None => dir,
    }
}

/// Where the data of a directory lie, given the lines of its storage.ini, if it has one.
pub fn resolve_root(dir: &str, ini: &Option<Vec<String>>) -> (r: String)
    ensures
        r@ == resolved(dir@, *ini),
{
    match ini {
        Some(lines) => match read_storage_ini_fullpath(lines) {
            Some(p) => p,
            None => text::owned(dir),
        },
        None => text::owned(dir),
    }
}

/// A directory to take the data from: where it leads to, and whether client.realm is there.
#[derive(Debug)]
pub struct DataDir {
    pub dir: String,
    pub root: String,
    pub has_realm: bool,
}

/// Sets the directory by hand, or with none goes back to finding it. One that does not lead to a
/// client.realm is refused, and what was set stays.
pub open spec fn dir_after(slot: Option<String>, dir: Option<DataDir>) -> Option<String> {
    match dir {
        None => None,
        Some(d) => if d.has_realm {
            Some(d.dir)
        } else {
            slot
        },
    }
}

pub fn set_custom_data_dir(slot: &mut Option<String>, dir: Option<DataDir>) -> (r: Result<(), String>)
    ensures
        *final(slot) == dir_after(*old(slot), dir),
        match dir {
            Some(d) if !d.has_realm => r is Err && r->Err_0@ == "解析后的目录中没有 client.realm:"@
                + d.root@,
            _ => r is Ok,
        },
{
    match dir {
        None => {
            *slot = None;
            Ok(())
        },
        Some(d) => {
            if d.has_realm {
                *slot = Some(d.dir);
                Ok(())
            } else {
                Err(text::owned("解析后的目录中没有 client.realm:").concat(d.root.as_str()))
            }
        },
    }
}

/// The directory that was set by hand.
pub fn custom_data_dir(slot: &Option<String>) -> (r: Option<String>)
    ensures
        r == *slot,
{
    match slot {
        Some(s) => Some(s.clone()),
        None => None,
    }
}

/// The directory in which the data are looked for: what was set by hand, else osu below the
/// application data.
pub fn data_base(slot: &Option<String>, appdata: Option<&str>) -> (r: Option<String>)
    ensures
        match *slot {
            Some(s) => r == Some(s),
            None => match appdata {
                Some(a) => r is Some && paths::joined(a@, "osu"@, r->0@),
                None => r is None,
            },
        },
{
    match slot {
        Some(s) => Some(s.clone()),
        None => match appdata {
            Some(a) => Some(paths::join(a, "osu")),
            None => None,
        },
    }
}

/// The data directory, if client.realm is in it.
pub open spec fn root_of(found: Option<DataDir>) -> Option<String> {
    match found {
        Some(d) => if d.has_realm {
            Some(d.root)
        } else {
            None
        },
        None => None,
    }
}

pub fn data_root(found: Option<DataDir>) -> (r: Option<String>)
    ensures
        r == root_of(found),
{
    match found {
        Some(d) => {
            if d.has_realm {
                Some(d.root)
            } else {
                None
            }
        },
        None => None,
    }
}

/// The database of the data directory.
pub fn realm_path(root: Option<&str>) -> (r: Option<String>)
    ensures
        match root {
            Some(d) => r is Some && paths::joined(d@, "client.realm"@, r->0@),
            None => r is None,
        },
{
    match root {
        Some(d) => Some(paths::join(d, "client.realm")),
        None => None,
    }
}

// ---------- covers and skins ----------

/// The sizes of files.
pub open spec fn sizes_of(files: Seq<LazerFile>) -> Seq<u64> {
    Seq::new(files.len(), |i: int| files[i].size)
}

/// The places of the pictures.
pub open spec fn image_at(files: Seq<LazerFile>) -> spec_fn(int) -> bool {
    |i: int| cover::is_image(files[i].filename@)
}

/// The cover of a set: its largest picture, the last of them where there are several; none where
/// the set has no picture or only empty ones.
pub fn cover_file<'a>(set: &'a LazerSet) -> (r: Option<&'a LazerFile>)
    ensures
        match r {
            Some(f) => exists|k: int| #[trigger]
                cover::is_last_largest(sizes_of(set.files@), image_at(set.files@), k)
                    && set.files@[k] == *f && f.size > 0,
            None => forall|i: int|
                0 <= i < set.files@.len() && #[trigger] image_at(set.files@)(i)
                    ==> set.files@[i].size == 0,
        },
{
    let ghost p = image_at(set.files@);
    let mut best: Option<usize> = None;
    let mut i: usize = 0;
    while i < set.files.len()
        invariant
            i <= set.files@.len(),
            p == image_at(set.files@),
            match best {
                Some(k) => k < i && cover::is_last_largest(
                    sizes_of(set.files@.take(i as int)),
                    p,
                    k as int,
                ),
                None => forall|j: int| 0 <= j < i ==> !#[trigger] p(j),
            },
        decreases set.files.len() - i,
    {
        if cover::is_image_name(set.files[i].filename.as_str()) {
            assert(p(i as int));
            match best {
                Some(k) => {
                    if set.files[i].size >= set.files[k].size {
                        assert(cover::is_last_largest(
                            sizes_of(set.files@.take(i + 1)),
                            p,
                            i as int,
                        )) by {
                            let before = sizes_of(set.files@.take(i as int));
                            let after = sizes_of(set.files@.take(i + 1));
                            assert forall|j: int|
                                0 <= j < after.len() && #[trigger] p(j) implies after[j]
                                <= after[i as int] by {
                                if j < i {
                                    assert(before[j] <= before[k as int]);
                                }
                            }
                        }
                        best = Some(i);
                    } else {
                        assert(cover::is_last_largest(
                            sizes_of(set.files@.take(i + 1)),
                            p,
                            k as int,
                        )) by {
                            let before = sizes_of(set.files@.take(i as int));
                            let after = sizes_of(set.files@.take(i + 1));
                            assert forall|j: int|
                                0 <= j < after.len() && #[trigger] p(j) implies after[j]
                                <= after[k as int] by {
                                if j < i {
                                    assert(before[j] <= before[k as int]);
                                }
                            }
                            assert forall|j: int|
                                k < j < after.len() && #[trigger] p(j) implies after[j]
                                < after[k as int] by {
                                if j < i {
                                    assert(before[j] < before[k as int]);
                                }
                            }
                        }
                    }
                },
                None => {
                    best = Some(i);
                },
            }
        } else {
            assert(!p(i as int));
            proof {
                if best is Some {
                    let k = best->0 as int;
                    let before = sizes_of(set.files@.take(i as int));
                    let after = sizes_of(set.files@.take(i + 1));
                    assert forall|j: int| 0 <= j < after.len() && #[trigger] p(j) implies after[j]
                        <= after[k] by {
                        assert(before[j] <= before[k]);
                    }
                    assert forall|j: int| k < j < after.len() && #[trigger] p(j) implies after[j]
                        < after[k] by {
                        assert(before[j] < before[k]);
                    }
                }
            }
        }
        i = i + 1;
    }
    assert(set.files@.take(set.files@.len() as int) =~= set.files@);
    match best {
        Some(k) => {
            assert(cover::is_last_largest(sizes_of(set.files@), p, k as int));
            if set.files[k].size == 0 {
                assert forall|i: int|
                    0 <= i < set.files@.len() && #[trigger] p(i) implies set.files@[i].size
                    == 0 by {
                    assert(sizes_of(set.files@)[i] <= sizes_of(set.files@)[k as int]);
                }
                None
            } else {
                Some(&set.files[k])
            }
        },
        None => None,
    }
}

/// A blob of the store and where it is put for a skin.
#[derive(Debug)]
pub struct Mount {
    pub blob: String,
    pub target: String,
}

/// The directory into which a skin is put: below the cache under its sanitized name, or the cache
/// itself where nothing is left of the name.
pub open spec fn is_skin_dir(cache: Seq<char>, name: Seq<char>, dir: Seq<char>) -> bool {
    if sanitized(name).len() == 0 {
        dir == cache
    } else {
        paths::joined(cache, sanitized(name), dir)
    }
}

pub fn skin_dir(cache: &str, skin: &LazerSkin) -> (r: String)
    ensures
        is_skin_dir(cache@, skin.name@, r@),
{
    let name: String = sanitize_filename(skin.name.as_str());
    if text::chars_of(name.as_str()).len() == 0 {
        text::owned(cache)
    } else {
        paths::join(cache, name.as_str())
    }
}

/// Which blob goes where for a skin that is put into the given directory.
pub open spec fn are_mounts(
    root: Seq<char>,
    files: Seq<LazerFile>,
    dir: Seq<char>,
    r: Seq<Mount>,
) -> bool {
    &&& r.len() == files.len()
    &&& forall|i: int|
        0 <= i < r.len() ==> {
            &&& paths::joined_twice(
                root,
                "files"@,
                blob_path(files[i].hash@),
                (#[trigger] r[i]).blob@,
            )
            &&& paths::joined(dir, sanitized(files[i].filename@), r[i].target@)
        }
}

pub fn mount_plan(root: &str, skin: &LazerSkin, dir: &str) -> (r: Vec<Mount>)
    requires
        forall|i: int| 0 <= i < skin.files@.len() ==> blob_named((#[trigger] skin.files@[i]).hash@),
    ensures
        are_mounts(root@, skin.files@, dir@, r@),
{
    let mut r: Vec<Mount> = Vec::new();
    let mut i: usize = 0;
    while i < skin.files.len()
        invariant
            i <= skin.files@.len(),
            r@.len() == i,
            forall|i: int| 0 <= i < skin.files@.len() ==> blob_named((#[trigger] skin.files@[i]).hash@),
            forall|j: int|
                0 <= j < i ==> {
                    &&& paths::joined_twice(
                        root@,
                        "files"@,
                        blob_path(skin.files@[j].hash@),
                        (#[trigger] r@[j]).blob@,
                    )
                    &&& paths::joined(dir@, sanitized(skin.files@[j].filename@), r@[j].target@)
                },
        decreases skin.files.len() - i,
    {
        let blob: String = beatmap_blob(root, skin.files[i].hash.as_str());
        let name: String = sanitize_filename(skin.files[i].filename.as_str());
        let target: String = paths::join(dir, name.as_str());
        r.push(Mount { blob, target });
        i = i + 1;
    }
    r
}

/// A file need not be copied again where it lies there already with the size of the blob; a
/// missing blob has no size that a file could have.
pub open spec fn mounted(target: Option<u64>, blob: Option<u64>) -> bool {
    match target {
        Some(n) => n == match blob {
            Some(m) => m,
            None => u64::MAX,
        },
        None => false,
    }
}

pub fn is_mounted(target: Option<u64>, blob: Option<u64>) -> (r: bool)
    ensures
        r == mounted(target, blob),
{
    match target {
        Some(n) => match blob {
            Some(m) => n == m,
            None => n == u64::MAX,
        },
        None => false,
    }
}

// ---------- what holds of a library ----------

/// Every set that is read has a difficulty, and each of its difficulties is of the osu! ruleset
/// and has its file among the set's.
pub proof fn law_sets_have_osu_beatmaps(store: Store, k: int, j: int)
    requires
        sets_of(store) is Ok,
        0 <= k < sets_of(store)->Ok_0.len(),
        0 <= j < sets_of(store)->Ok_0[k].beatmaps.len(),
    ensures
        sets_of(store)->Ok_0[k].beatmaps[j].ruleset == "osu"@,
        has_hash(sets_of(store)->Ok_0[k].files, sets_of(store)->Ok_0[k].beatmaps[j].sha2),
{
    let rows = store.whole("class_BeatmapSet"@)->Ok_0;
    let f = |i: int| set_of(store, rows[i]);
    realm::lemma_collect_member(rows.len(), f, k);
    let i = choose|i: int|
        0 <= i < rows.len() && #[trigger] f(i) == Ok::<Option<SetView>, Seq<char>>(
            Some(sets_of(store)->Ok_0[k]),
        );
    let set = sets_of(store)->Ok_0[k];
    assert(set_of(store, rows[i]) == f(i));
    let links = realm::links_of(rows[i].col("Beatmaps"@));
    let g = |i: int| beatmap_of(store, set.files, links[i]);
    realm::lemma_collect_member(links.len(), g, j);
    let m = choose|m: int|
        0 <= m < links.len() && #[trigger] g(m) == Ok::<Option<BeatmapView>, Seq<char>>(
            Some(set.beatmaps[j]),
        );
    assert(beatmap_of(store, set.files, links[m]) == g(m));
}

/// No set that is read is empty.
pub proof fn law_sets_are_not_empty(store: Store, k: int)
    requires
        sets_of(store) is Ok,
        0 <= k < sets_of(store)->Ok_0.len(),
    ensures
        sets_of(store)->Ok_0[k].beatmaps.len() > 0,
{
    let rows = store.whole("class_BeatmapSet"@)->Ok_0;
    let f = |i: int| set_of(store, rows[i]);
    realm::lemma_collect_member(rows.len(), f, k);
    let i = choose|i: int|
        0 <= i < rows.len() && #[trigger] f(i) == Ok::<Option<SetView>, Seq<char>>(
            Some(sets_of(store)->Ok_0[k]),
        );
    assert(set_of(store, rows[i]) == f(i));
}

/// What is retained can be played: a set with files and difficulties, every file with its blob,
/// and every difficulty with its file.
pub proof fn law_retained_is_playable(sets: Seq<SetView>, sizes: Seq<Vec<u64>>, k: int)
    requires
        0 <= k < retained(sets, sizes).len(),
    ensures
        retained(sets, sizes)[k].files.len() > 0,
        retained(sets, sizes)[k].beatmaps.len() > 0,
        forall|j: int|
            0 <= j < retained(sets, sizes)[k].files.len() ==> (#[trigger] retained(
                sets,
                sizes,
            )[k].files[j]).size > 0,
        forall|j: int|
            0 <= j < retained(sets, sizes)[k].beatmaps.len() ==> has_hash(
                retained(sets, sizes)[k].files,
                (#[trigger] retained(sets, sizes)[k].beatmaps[j]).sha2,
            ),
{
    broadcast use vstd::seq_lib::group_filter_ensures;

    let all = Seq::new(sets.len(), |i: int| playable(sets[i], sizes[i]@));
    let p = |s: SetView| worth_keeping(s);
    let kept = all.filter(p);
    assert(p(kept[k]));
    lemma_kept_set(all, p, k);
    let i = choose|i: int| 0 <= i < all.len() && all[i] == kept[k];
    let set = playable(sets[i], sizes[i]@);
    let sized = Seq::new(
        sets[i].files.len(),
        |m: int| FileView { size: sizes[i]@[m], ..sets[i].files[m] },
    );
    let fp = |f: FileView| f.size > 0;
    assert forall|j: int| 0 <= j < set.files.len() implies (#[trigger] set.files[j]).size > 0 by {
        assert(fp(sized.filter(fp)[j]));
    }
    let bp = |b: BeatmapView| has_hash(set.files, b.sha2);
    assert forall|j: int| 0 <= j < set.beatmaps.len() implies has_hash(
        set.files,
        (#[trigger] set.beatmaps[j]).sha2,
    ) by {
        assert(bp(sets[i].beatmaps.filter(bp)[j]));
    }
}

proof fn lemma_kept_set(s: Seq<SetView>, p: spec_fn(SetView) -> bool, i: int)
    requires
        0 <= i < s.filter(p).len(),
    ensures
        exists|k: int| 0 <= k < s.len() && s[k] == s.filter(p)[i],
    decreases s.len(),
{
    reveal(Seq::filter);
    if s.len() > 0 {
        let f = s.drop_last().filter(p);
        if i < f.len() {
            lemma_kept_set(s.drop_last(), p, i);
            let k = choose|k: int| 0 <= k < s.drop_last().len() && s.drop_last()[k] == f[i];
            assert(s[k] == s.filter(p)[i]);
        } else {
            assert(s[s.len() - 1] == s.filter(p)[i]);
        }
    }
}

/// A collection holds no difficulty twice.
pub proof fn law_collected_once(v: Seq<Option<String>>)
    ensures
        distinct(v).no_duplicates(),
    decreases v.len(),
{
    if v.len() > 0 {
        law_collected_once(v.drop_last());
        let before = distinct(v.drop_last());
        if v.last() is Some && !before.contains(v.last()->0@) {
            assert forall|i: int, j: int|
                0 <= i < distinct(v).len() && 0 <= j < distinct(v).len() && i
                    != j implies distinct(v)[i] != distinct(v)[j] by {
                if i == before.len() {
                    assert(before.contains(before[j]));
                } else if j == before.len() {
                    assert(before.contains(before[i]));
                }
            }
        }
    }
}

/// Nothing that is not a favourite comes before the favourites, and no collection is lost.
pub proof fn law_favourites_lead(s: Seq<CollectionView>)
    ensures
        forall|i: int, j: int|
            0 <= i <= j < favourites_first(s).len() && favourite(#[trigger] favourites_first(s)[j])
                ==> favourite(#[trigger] favourites_first(s)[i]),
        forall|i: int| 0 <= i < s.len() ==> favourites_first(s).contains(#[trigger] s[i]),
{
    broadcast use vstd::seq_lib::group_filter_ensures;

    let p = |c: CollectionView| favourite(c);
    let q = |c: CollectionView| !favourite(c);
    let a = s.filter(p);
    let b = s.filter(q);
    let out = favourites_first(s);
    assert forall|i: int| 0 <= i < out.len() implies favourite(#[trigger] out[i]) == (i
        < a.len()) by {
        if i < a.len() {
            assert(p(a[i]));
        } else {
            assert(q(b[i - a.len()]));
        }
    }
    assert forall|i: int| 0 <= i < s.len() implies out.contains(#[trigger] s[i]) by {
        if p(s[i]) {
            assert(a.contains(s[i]));
            let k = choose|k: int| 0 <= k < a.len() && a[k] == s[i];
            assert(out[k] == s[i]);
        } else {
            assert(q(s[i]));
            assert(b.contains(s[i]));
            let k = choose|k: int| 0 <= k < b.len() && b[k] == s[i];
            assert(out[a.len() + k] == s[i]);
        }
    }
}

// ---------- what is read is what the columns say ----------

/// A difficulty that is read shows what the columns of its row say, each under its own name; its
/// parameters are those of the row that it links. It is read exactly where it has the hash of a file
/// of its set and is for osu!.
pub proof fn law_difficulty_shows_its_row(store: Store, files: Seq<FileView>, link: Link, b: Row)
    requires
        store.fetch(link) == Ok::<Option<Row>, Seq<char>>(Some(b)),
    ensures
        beatmap_of(store, files, link) matches Ok(Some(v)) ==> {
            &&& realm::shows_text(b.col("Hash"@), v.sha2)
            &&& realm::shows_text(b.col("MD5Hash"@), v.md5)
            &&& realm::shows_text(b.col("DifficultyName"@), v.name)
            &&& v.ruleset == "osu"@
            &&& realm::shows_double(b.col("StarRating"@), v.star_rating)
            &&& realm::shows_double(b.col("Length"@), v.length_ms)
            &&& realm::shows_double(b.col("BPM"@), v.bpm)
            &&& realm::shows_int(b.col("OnlineID"@), -1, v.online_id)
            &&& v.sha2.len() > 0
            &&& exists|i: int| 0 <= i < files.len() && (#[trigger] files[i]).hash == v.sha2
            &&& (b.col("Difficulty"@) matches Some(Value::Link(l)) && store.fetch(l) matches Ok(
                Some(d),
            )) ==> {
                let d = store.fetch(b.col("Difficulty"@)->0->Link_0)->Ok_0->0;
                &&& realm::shows_float(d.col("ApproachRate"@), v.ar)
                &&& realm::shows_float(d.col("CircleSize"@), v.cs)
                &&& realm::shows_float(d.col("OverallDifficulty"@), v.od)
                &&& realm::shows_float(d.col("DrainRate"@), v.hp)
            }
            &&& !(b.col("Difficulty"@) matches Some(Value::Link(_))) ==> v.ar.bits == 0 && v.cs.bits
                == 0 && v.od.bits == 0 && v.hp.bits == 0
        },
        (exists|i: int|
            #![trigger files[i]]
            0 <= i < files.len() && files[i].hash.len() > 0 && (b.col("Hash"@) matches Some(
                Value::Text(s),
            ) && files[i].hash == s@)) && !(b.col("Difficulty"@) matches Some(Value::Link(_)))
            && ruleset_of(store, b.col("Ruleset"@)) == "osu"@ ==> beatmap_of(
            store,
            files,
            link,
        ) matches Ok(Some(_)),
        ruleset_of(store, b.col("Ruleset"@)) != "osu"@ ==> beatmap_of(store, files, link)
            == Ok::<Option<BeatmapView>, Seq<char>>(None),
{
}

/// The ruleset of a difficulty is the short name in the row that it links.
pub proof fn law_ruleset_is_its_short_name(store: Store, l: Link, row: Row)
    requires
        store.fetch(l) == Ok::<Option<Row>, Seq<char>>(Some(row)),
    ensures
        realm::shows_text(
            row.col("ShortName"@),
            ruleset_of(store, Some(Value::Link(l))),
        ),
        ruleset_of(store, None).len() == 0,
{
}

/// A file that is read has the name that its usage says and the hash of the file that this links.
pub proof fn law_file_shows_its_row(store: Store, link: Link, usage: Row)
    requires
        store.fetch(link) == Ok::<Option<Row>, Seq<char>>(Some(usage)),
    ensures
        file_of(store, link) matches Ok(Some(f)) ==> {
            &&& realm::shows_text(usage.col("Filename"@), f.filename)
            &&& f.filename.len() > 0
            &&& f.size == 0
            &&& usage.col("File"@) matches Some(Value::Link(l))
            &&& store.fetch(l) matches Ok(Some(row))
            &&& realm::shows_text(row.col("Hash"@), f.hash)
        },
        (usage.col("Filename"@) matches Some(Value::Text(s)) && s@.len() > 0) && (usage.col("File"@)
            matches Some(Value::Link(l)) && store.fetch(l) matches Ok(Some(_))) ==> file_of(
            store,
            link,
        ) matches Ok(Some(_)),
{
}

/// A set that is read shows what the columns of its row say, with the files and the difficulties
/// that these list. It is read exactly where it is not about to be deleted and a difficulty is left.
pub proof fn law_set_shows_its_row(store: Store, row: Row)
    ensures
        set_of(store, row) matches Ok(Some(s)) ==> {
            &&& row.col("ID"@) matches Some(Value::Uuid(b)) ==> s.id == realm::hex_bytes(b@)
            &&& realm::shows_int(row.col("OnlineID"@), -1, s.online_id)
            &&& row.col("DateAdded"@) matches Some(Value::Timestamp(t)) ==> s.date_added_ms == t
            &&& !(row.col("DateAdded"@) matches Some(Value::Timestamp(_))) ==> s.date_added_ms == 0
            &&& files_of(store, row.col("Files"@)) == Ok::<Seq<FileView>, Seq<char>>(s.files)
            &&& beatmaps_of(store, s.files, row.col("Beatmaps"@)) == Ok::<
                Seq<BeatmapView>,
                Seq<char>,
            >(s.beatmaps)
            &&& s.beatmaps.len() > 0
            &&& s.root is None
            &&& !s.sb_video
            &&& row.col("DeletePending"@) != Some(Value::Bool(true))
        },
        row.col("DeletePending"@) == Some(Value::Bool(true)) ==> set_of(store, row)
            == Ok::<Option<SetView>, Seq<char>>(None),
        row.col("DeletePending"@) != Some(Value::Bool(true)) && files_of(
            store,
            row.col("Files"@),
        ) is Ok && (beatmaps_of(
            store,
            files_of(store, row.col("Files"@))->Ok_0,
            row.col("Beatmaps"@),
        ) matches Ok(bs) && bs.len() > 0) ==> set_of(store, row) matches Ok(Some(_)),
{
}

/// Artist, title and the rest of a set are those in the metadata of its first difficulty; a form in
/// its own script that is not there is the plain one, and the creator is the user that is linked.
pub proof fn law_set_has_the_names_of_its_metadata(
    store: Store,
    row: Row,
    first: Link,
    b: Row,
    l: Link,
    m: Row,
)
    requires
        row.col("Beatmaps"@) matches Some(Value::LinkList(ls)) && ls@.len() > 0 && ls@[0] == first,
        store.fetch(first) == Ok::<Option<Row>, Seq<char>>(Some(b)),
        b.col("Metadata"@) == Some(Value::Link(l)),
        store.fetch(l) == Ok::<Option<Row>, Seq<char>>(Some(m)),
    ensures
        set_of(store, row) matches Ok(Some(s)) ==> {
            &&& realm::shows_text(m.col("Artist"@), s.artist)
            &&& realm::shows_text(m.col("Title"@), s.title)
            &&& realm::shows_text(m.col("Tags"@), s.tags)
            &&& realm::shows_text(m.col("Source"@), s.source)
            &&& (m.col("ArtistUnicode"@) matches Some(Value::Text(u)) && u@.len() > 0)
                ==> realm::shows_text(m.col("ArtistUnicode"@), s.artist_unicode)
            &&& !(m.col("ArtistUnicode"@) matches Some(Value::Text(u)) && u@.len() > 0)
                ==> s.artist_unicode == s.artist
            &&& (m.col("TitleUnicode"@) matches Some(Value::Text(u)) && u@.len() > 0)
                ==> realm::shows_text(m.col("TitleUnicode"@), s.title_unicode)
            &&& !(m.col("TitleUnicode"@) matches Some(Value::Text(u)) && u@.len() > 0)
                ==> s.title_unicode == s.title
            &&& (m.col("Author"@) matches Some(Value::Link(u)) && store.fetch(u) matches Ok(
                Some(_),
            )) ==> realm::shows_text(
                store.fetch(m.col("Author"@)->0->Link_0)->Ok_0->0.col("Username"@),
                s.creator,
            )
            &&& !(m.col("Author"@) matches Some(Value::Link(_))) ==> s.creator.len() == 0
        },
{
}

/// Every row of the table of sets that stands for one gives it, and every set comes from such a row.
pub proof fn law_library_holds_every_set(store: Store, rows: Seq<Row>, i: int, k: int)
    requires
        store.whole("class_BeatmapSet"@) == Ok::<Seq<Row>, Seq<char>>(rows),
        sets_of(store) is Ok,
    ensures
        0 <= i < rows.len() && (set_of(store, rows[i]) matches Ok(Some(_))) ==> sets_of(
            store,
        )->Ok_0.contains(set_of(store, rows[i])->Ok_0->0),
        0 <= k < sets_of(store)->Ok_0.len() ==> exists|j: int|
            0 <= j < rows.len() && #[trigger] set_of(store, rows[j]) == Ok::<
                Option<SetView>,
                Seq<char>,
            >(Some(sets_of(store)->Ok_0[k])),
{
    let f = |j: int| set_of(store, rows[j]);
    if 0 <= i < rows.len() {
        realm::law_each_item_is_collected(rows.len(), f, i);
        assert(f(i) == set_of(store, rows[i]));
    }
    if 0 <= k < sets_of(store)->Ok_0.len() {
        realm::lemma_collect_member(rows.len(), f, k);
        let j = choose|j: int|
            0 <= j < rows.len() && #[trigger] f(j) == Ok::<Option<SetView>, Seq<char>>(
                Some(sets_of(store)->Ok_0[k]),
            );
        assert(set_of(store, rows[j]) == f(j));
    }
}

/// Every difficulty of a set comes from a row that the set lists, and every one that it lists and
/// that can be played is in it.
pub proof fn law_set_holds_its_difficulties(
    store: Store,
    files: Seq<FileView>,
    ls: Vec<Link>,
    i: int,
    k: int,
)
    requires
        beatmaps_of(store, files, Some(Value::LinkList(ls))) is Ok,
    ensures
        ({
            let all = beatmaps_of(store, files, Some(Value::LinkList(ls)))->Ok_0;
            &&& 0 <= i < ls@.len() && (beatmap_of(store, files, ls@[i]) matches Ok(Some(_)))
                ==> all.contains(beatmap_of(store, files, ls@[i])->Ok_0->0)
            &&& 0 <= k < all.len() ==> exists|j: int|
                0 <= j < ls@.len() && #[trigger] beatmap_of(store, files, ls@[j]) == Ok::<
                    Option<BeatmapView>,
                    Seq<char>,
                >(Some(all[k]))
        }),
        beatmaps_of(store, files, None) matches Ok(none) && none.len() == 0,
{
    let f = |j: int| beatmap_of(store, files, ls@[j]);
    let all = beatmaps_of(store, files, Some(Value::LinkList(ls)))->Ok_0;
    if 0 <= i < ls@.len() {
        realm::law_each_item_is_collected(ls@.len(), f, i);
        assert(f(i) == beatmap_of(store, files, ls@[i]));
    }
    if 0 <= k < all.len() {
        realm::lemma_collect_member(ls@.len(), f, k);
        let j = choose|j: int|
            0 <= j < ls@.len() && #[trigger] f(j) == Ok::<Option<BeatmapView>, Seq<char>>(
                Some(all[k]),
            );
        assert(beatmap_of(store, files, ls@[j]) == f(j));
    }
}

/// A set has a file for each usage that it lists and that names one, and no other.
pub proof fn law_set_holds_its_files(store: Store, ls: Vec<Link>, i: int, k: int)
    requires
        files_of(store, Some(Value::LinkList(ls))) is Ok,
    ensures
        ({
            let all = files_of(store, Some(Value::LinkList(ls)))->Ok_0;
            &&& 0 <= i < ls@.len() && (file_of(store, ls@[i]) matches Ok(Some(_))) ==> all.contains(
                file_of(store, ls@[i])->Ok_0->0,
            )
            &&& 0 <= k < all.len() ==> exists|j: int|
                0 <= j < ls@.len() && #[trigger] file_of(store, ls@[j]) == Ok::<
                    Option<FileView>,
                    Seq<char>,
                >(Some(all[k]))
        }),
{
    let f = |j: int| file_of(store, ls@[j]);
    let all = files_of(store, Some(Value::LinkList(ls)))->Ok_0;
    if 0 <= i < ls@.len() {
        realm::law_each_item_is_collected(ls@.len(), f, i);
        assert(f(i) == file_of(store, ls@[i]));
    }
    if 0 <= k < all.len() {
        realm::lemma_collect_member(ls@.len(), f, k);
        let j = choose|j: int|
            0 <= j < ls@.len() && #[trigger] f(j) == Ok::<Option<FileView>, Seq<char>>(Some(all[k]));
        assert(file_of(store, ls@[j]) == f(j));
    }
}

/// What is listed is kept, each text once, and nothing else.
pub proof fn law_distinct_keeps_each(v: Seq<Option<String>>, s: Seq<char>)
    ensures
        distinct(v).contains(s) <==> exists|i: int|
            0 <= i < v.len() && (#[trigger] v[i]) is Some && v[i]->0@ == s,
    decreases v.len(),
{
    if v.len() > 0 {
        let rest = v.drop_last();
        law_distinct_keeps_each(rest, s);
        let before = distinct(rest);
        let after = distinct(v);
        if before.contains(s) {
            let k = choose|k: int| 0 <= k < before.len() && before[k] == s;
            assert(after[k] == s);
            let i = choose|i: int|
                0 <= i < rest.len() && (#[trigger] rest[i]) is Some && rest[i]->0@ == s;
            assert(v[i] == rest[i]);
        }
        if v.last() is Some && v.last()->0@ == s {
            if !before.contains(s) {
                assert(after[after.len() - 1] == s);
            }
            assert(v[v.len() - 1] is Some && v[v.len() - 1]->0@ == s);
        }
        if after.contains(s) && !before.contains(s) {
            let k = choose|k: int| 0 <= k < after.len() && after[k] == s;
            assert(k == before.len());
        }
        if exists|i: int| 0 <= i < v.len() && (#[trigger] v[i]) is Some && v[i]->0@ == s {
            let i = choose|i: int| 0 <= i < v.len() && (#[trigger] v[i]) is Some && v[i]->0@ == s;
            if i < rest.len() {
                assert(rest[i] is Some && rest[i]->0@ == s);
            }
        }
    }
}

/// A collection shows the name of its row and holds the difficulties that the row lists: a listed
/// hash that is the MD5 of a difficulty is in it as that difficulty's.
pub proof fn law_collection_holds_listed_difficulties(
    store: Store,
    files: Seq<FileView>,
    link: Link,
    b: Row,
    row: Row,
    v: Vec<Option<String>>,
    i: int,
)
    requires
        store.fetch(link) == Ok::<Option<Row>, Seq<char>>(Some(b)),
        row.col("BeatmapMD5Hashes"@) == Some(Value::List(v)),
        0 <= i < v@.len(),
        v@[i] is Some,
        b.col("MD5Hash"@) matches Some(Value::Text(s)) && s@ == v@[i]->0@,
    ensures
        collection_of(row) matches Some(c) ==> {
            &&& realm::shows_text(row.col("Name"@), c.name)
            &&& c.name.len() > 0
            &&& c.md5s.contains(v@[i]->0@)
            &&& beatmap_of(store, files, link) matches Ok(Some(d)) ==> c.md5s.contains(d.md5)
        },
        (row.col("Name"@) matches Some(Value::Text(n)) && n@.len() > 0) <==> collection_of(row) is Some,
{
    law_distinct_keeps_each(v@, v@[i]->0@);
    assert(v@[i] is Some && v@[i]->0@ == v@[i]->0@);
}

/// A collection that comes last among the rows stands behind all others, and the favourites behind
/// other favourites and before the rest: nothing else changes places.
pub proof fn law_favourites_keep_their_order(s: Seq<CollectionView>, c: CollectionView)
    ensures
        !favourite(c) ==> favourites_first(s.push(c)) == favourites_first(s).push(c),
        favourite(c) ==> exists|k: int|
            #![trigger favourites_first(s).insert(k, c)]
            0 <= k <= favourites_first(s).len() && favourites_first(s.push(c)) == favourites_first(
                s,
            ).insert(k, c) && forall|i: int|
                0 <= i < favourites_first(s).len() ==> (favourite(#[trigger] favourites_first(s)[i])
                    <==> i < k),
        favourites_first(Seq::empty()).len() == 0,
{
    broadcast use vstd::seq_lib::group_filter_ensures;

    reveal(Seq::filter);
    let p = |c: CollectionView| favourite(c);
    let q = |c: CollectionView| !favourite(c);
    assert(s.push(c).drop_last() =~= s);
    let a = s.filter(p);
    let b = s.filter(q);
    if favourite(c) {
        let k = a.len() as int;
        assert(favourites_first(s.push(c)) =~= favourites_first(s).insert(k, c));
        assert forall|i: int| 0 <= i < favourites_first(s).len() implies (favourite(
            #[trigger] favourites_first(s)[i],
        ) <==> i < k) by {
            if i < k {
                assert(p(a[i]));
            } else {
                assert(q(b[i - k]));
            }
        }
    } else {
        assert(favourites_first(s.push(c)) =~= favourites_first(s).push(c));
    }
}

/// The favourites are what is called so, in capitals or not.
pub proof fn law_favourites_by_name(c: CollectionView)
    ensures
        favourite(c) <==> text::lowered(c.name) == "favourites"@,
{
    reveal_strlit("favourites");
    assert(text::lowered("favourites"@) =~= "favourites"@);
}

/// A skin that is read shows what the columns of its row say. It is read exactly where it is not
/// about to be deleted and one of its files is a skin.ini, in capitals or not.
pub proof fn law_skin_shows_its_row(store: Store, row: Row, files: Seq<FileView>)
    requires
        files_of(store, row.col("Files"@)) == Ok::<Seq<FileView>, Seq<char>>(files),
    ensures
        skin_of(store, row) is Ok,
        skin_of(store, row) matches Ok(Some(s)) ==> {
            &&& row.col("ID"@) matches Some(Value::Uuid(b)) ==> s.id == realm::hex_bytes(b@)
            &&& realm::shows_text(row.col("Name"@), s.name)
            &&& realm::shows_text(row.col("Creator"@), s.creator)
            &&& s.files == files
        },
        skin_of(store, row)->Ok_0 is Some <==> row.col("DeletePending"@) != Some(Value::Bool(true))
            && exists|i: int|
            0 <= i < files.len() && text::lowered((#[trigger] files[i]).filename) == "skin.ini"@,
{
    reveal_strlit("skin.ini");
    assert(text::lowered("skin.ini"@) =~= "skin.ini"@);
    if exists|i: int|
        0 <= i < files.len() && text::lowered((#[trigger] files[i]).filename) == "skin.ini"@ {
        let i = choose|i: int|
            0 <= i < files.len() && text::lowered((#[trigger] files[i]).filename) == "skin.ini"@;
        assert(text::lowered(files[i].filename) == text::lowered("skin.ini"@));
    }
}

// ---------- what can be played ----------

/// Whether a set is kept is decided by its own files: with one more set the others are kept as
/// before, and that one with the files that are there and the difficulties that have one of them.
pub proof fn law_each_set_is_kept_by_its_files(
    sets: Seq<SetView>,
    sizes: Seq<Vec<u64>>,
    set: SetView,
    own: Vec<u64>,
)
    requires
        sets.len() == sizes.len(),
        own@.len() == set.files.len(),
    ensures
        ({
            let kept = playable(set, own@);
            let more = retained(sets.push(set), sizes.push(own));
            &&& kept.files.len() > 0 && kept.beatmaps.len() > 0 ==> more == retained(
                sets,
                sizes,
            ).push(kept)
            &&& !(kept.files.len() > 0 && kept.beatmaps.len() > 0) ==> more == retained(sets, sizes)
        }),
        retained(Seq::empty(), Seq::empty()).len() == 0,
{
    broadcast use vstd::seq_lib::group_filter_ensures;

    reveal(Seq::filter);
    let all = Seq::new(sets.len(), |i: int| playable(sets[i], sizes[i]@));
    let more = Seq::new(
        sets.push(set).len(),
        |i: int| playable(sets.push(set)[i], sizes.push(own)[i]@),
    );
    assert(more.drop_last() =~= all);
    assert(more.last() == playable(set, own@));
}

/// A file is left exactly where its size is not zero, with that size, and a difficulty exactly where
/// a file that is left has its hash. What else a set says stays.
pub proof fn law_playable_keeps_what_is_there(set: SetView, sizes: Seq<u64>, i: int, j: int)
    requires
        sizes.len() == set.files.len(),
    ensures
        playable(set, sizes) == (SetView {
            beatmaps: playable(set, sizes).beatmaps,
            files: playable(set, sizes).files,
            ..set
        }),
        0 <= i < set.files.len() && sizes[i] > 0 ==> playable(set, sizes).files.contains(
            (FileView { size: sizes[i], ..set.files[i] }),
        ),
        0 <= i < playable(set, sizes).files.len() ==> exists|k: int|
            0 <= k < set.files.len() && sizes[k] > 0 && playable(set, sizes).files[i] == (FileView {
                size: sizes[k],
                ..#[trigger] set.files[k]
            }),
        0 <= j < set.beatmaps.len() && has_hash(playable(set, sizes).files, set.beatmaps[j].sha2)
            ==> playable(set, sizes).beatmaps.contains(set.beatmaps[j]),
        0 <= j < playable(set, sizes).beatmaps.len() ==> set.beatmaps.contains(
            playable(set, sizes).beatmaps[j],
        ),
{
    broadcast use vstd::seq_lib::group_filter_ensures;

    let sized = Seq::new(set.files.len(), |k: int| FileView { size: sizes[k], ..set.files[k] });
    let fp = |f: FileView| f.size > 0;
    let files = sized.filter(fp);
    let bp = |b: BeatmapView| has_hash(files, b.sha2);
    if 0 <= i < set.files.len() && sizes[i] > 0 {
        assert(fp(sized[i]));
        assert(files.contains(sized[i]));
    }
    if 0 <= i < files.len() {
        assert(fp(files[i]));
        let k = seqs::lemma_filter_source(sized, fp, i);
        assert(files[i] == (FileView { size: sizes[k], ..set.files[k] }));
    }
    if 0 <= j < set.beatmaps.len() && has_hash(files, set.beatmaps[j].sha2) {
        assert(bp(set.beatmaps[j]));
        assert(set.beatmaps.filter(bp).contains(set.beatmaps[j]));
    }
    if 0 <= j < set.beatmaps.filter(bp).len() {
        let k = seqs::lemma_filter_source(set.beatmaps, bp, j);
        assert(set.beatmaps[k] == set.beatmaps.filter(bp)[j]);
    }
}

/// A set is marked exactly where one of its files is a storyboard or a video by its ending, and
/// nothing else of it changes.
pub proof fn law_marked_by_the_files(sets: Seq<SetView>, i: int)
    requires
        0 <= i < sets.len(),
    ensures
        marked(sets).len() == sets.len(),
        marked(sets)[i] == (SetView { sb_video: marked(sets)[i].sb_video, ..sets[i] }),
        marked(sets)[i].sb_video <==> exists|k: int|
            0 <= k < sets[i].files.len() && is_sb_video((#[trigger] sets[i].files[k]).filename),
{
}

/// What ends in one of eight endings, in capitals or not, is a storyboard or a video.
pub proof fn law_storyboards_and_videos_by_ending(name: Seq<char>, end: Seq<char>)
    requires
        end == ".osb"@ || end == ".mp4"@ || end == ".avi"@ || end == ".flv"@ || end == ".m4v"@ || end
            == ".mov"@ || end == ".webm"@ || end == ".wmv"@,
    ensures
        is_sb_video(name + end),
        is_sb_video(name) ==> name.len() >= 4 && (name[name.len() - 4] == '.' || (name.len() >= 5
            && name[name.len() - 5] == '.')),
{
    reveal_strlit(".osb");
    reveal_strlit(".mp4");
    reveal_strlit(".avi");
    reveal_strlit(".flv");
    reveal_strlit(".m4v");
    reveal_strlit(".mov");
    reveal_strlit(".webm");
    reveal_strlit(".wmv");
    let l = text::lowered(name + end);
    assert(l.skip(l.len() - end.len()) =~= end);
    assert(text::ends(l, end));
    let m = text::lowered(name);
    if is_sb_video(name) {
        assert(m.len() >= 4);
        if text::ends(m, ".webm"@) {
            assert(m.skip(m.len() - 5)[0] == m[m.len() - 5]);
        } else {
            assert(m.skip(m.len() - 4)[0] == m[m.len() - 4]);
        }
    }
}

/// A blob lies below its first character and below its first two, in lower case, under its name.
pub proof fn law_blob_lies_below_its_first_characters(hash: Seq<char>)
    requires
        hash.len() >= 2,
    ensures
        blob_path(hash).len() == hash.len() + 5,
        blob_path(hash).skip(5) == hash,
        blob_path(hash)[0] == text::lowered(hash)[0],
        blob_path(hash)[2] == text::lowered(hash)[0],
        blob_path(hash)[3] == text::lowered(hash)[1],
        blob_path(hash)[1] == '/' && blob_path(hash)[4] == '/',
{
    assert(blob_path(hash).skip(5) =~= hash);
}

/// What stands for a value of the library says of each field what the field holds.
pub proof fn law_views_show_the_fields(
    b: LazerBeatmap,
    f: LazerFile,
    s: LazerSet,
    c: LazerCollection,
    k: LazerSkin,
)
    ensures
        b@.sha2 == b.sha2@ && b@.md5 == b.md5@ && b@.name == b.name@ && b@.ruleset == b.ruleset@,
        b@.star_rating == b.star_rating && b@.length_ms == b.length_ms && b@.bpm == b.bpm,
        b@.ar == b.ar && b@.cs == b.cs && b@.od == b.od && b@.hp == b.hp,
        b@.online_id == b.online_id,
        f@.filename == f.filename@ && f@.hash == f.hash@ && f@.size == f.size,
        s@.id == s.id@ && s@.online_id == s.online_id && s@.date_added_ms == s.date_added_ms,
        s@.artist == s.artist@ && s@.artist_unicode == s.artist_unicode@,
        s@.title == s.title@ && s@.title_unicode == s.title_unicode@,
        s@.creator == s.creator@ && s@.tags == s.tags@ && s@.source == s.source@,
        s@.sb_video == s.sb_video && (s@.root is Some <==> s.root is Some),
        s.root is Some ==> s@.root->0 == s.root->0@,
        s@.beatmaps.len() == s.beatmaps@.len() && s@.files.len() == s.files@.len(),
        forall|i: int| 0 <= i < s.beatmaps@.len() ==> #[trigger] s@.beatmaps[i] == s.beatmaps@[i]@,
        forall|i: int| 0 <= i < s.files@.len() ==> #[trigger] s@.files[i] == s.files@[i]@,
        c@.name == c.name@ && c@.md5s.len() == c.md5s@.len(),
        forall|i: int| 0 <= i < c.md5s@.len() ==> #[trigger] c@.md5s[i] == c.md5s@[i]@,
        k@.id == k.id@ && k@.name == k.name@ && k@.creator == k.creator@,
        k@.files.len() == k.files@.len(),
{
}

// ---------- the other tables ----------

/// Every row of the table of collections that stands for one gives it, and every collection comes
/// from such a row.
pub proof fn law_library_holds_every_collection(store: Store, rows: Seq<Row>, i: int, k: int)
    requires
        store.whole("class_BeatmapCollection"@) == Ok::<Seq<Row>, Seq<char>>(rows),
    ensures
        collections_of(store) is Ok,
        0 <= i < rows.len() && collection_of(rows[i]) is Some ==> collections_of(
            store,
        )->Ok_0.contains(collection_of(rows[i])->0),
        0 <= k < collections_of(store)->Ok_0.len() ==> exists|j: int|
            0 <= j < rows.len() && #[trigger] collection_of(rows[j]) == Some(
                collections_of(store)->Ok_0[k],
            ),
{
    let f = |j: int| Ok::<Option<CollectionView>, Seq<char>>(collection_of(rows[j]));
    lemma_all_collected(rows);
    let all = realm::collect(rows.len(), f)->Ok_0;
    let out = collections_of(store)->Ok_0;
    assert(out == favourites_first(all));
    if 0 <= i < rows.len() && collection_of(rows[i]) is Some {
        realm::law_each_item_is_collected(rows.len(), f, i);
        assert(f(i) == Ok::<Option<CollectionView>, Seq<char>>(collection_of(rows[i])));
        lemma_favourites_hold(all, collection_of(rows[i])->0);
    }
    if 0 <= k < out.len() {
        assert(out.contains(out[k]));
        lemma_favourites_hold(all, out[k]);
        let m = choose|m: int| 0 <= m < all.len() && all[m] == out[k];
        realm::lemma_collect_member(rows.len(), f, m);
        let j = choose|j: int|
            0 <= j < rows.len() && #[trigger] f(j) == Ok::<Option<CollectionView>, Seq<char>>(
                Some(all[m]),
            );
        assert(collection_of(rows[j]) == Some(out[k]));
    }
}

proof fn lemma_all_collected(rows: Seq<Row>)
    ensures
        realm::collect(
            rows.len(),
            |j: int| Ok::<Option<CollectionView>, Seq<char>>(collection_of(rows[j])),
        ) is Ok,
{
    lemma_collect_never_fails(
        rows.len(),
        |j: int| Ok::<Option<CollectionView>, Seq<char>>(collection_of(rows[j])),
    );
}

proof fn lemma_collect_never_fails(
    n: nat,
    f: spec_fn(int) -> Result<Option<CollectionView>, Seq<char>>,
)
    requires
        forall|j: int| 0 <= j < n ==> #[trigger] f(j) is Ok,
    ensures
        realm::collect(n, f) is Ok,
    decreases n,
{
    if n > 0 {
        lemma_collect_never_fails((n - 1) as nat, f);
        assert(f(n - 1) is Ok);
    }
}

proof fn lemma_favourites_hold(s: Seq<CollectionView>, c: CollectionView)
    ensures
        favourites_first(s).contains(c) <==> s.contains(c),
{
    broadcast use vstd::seq_lib::group_filter_ensures;

    let p = |x: CollectionView| favourite(x);
    let q = |x: CollectionView| !favourite(x);
    let a = s.filter(p);
    let b = s.filter(q);
    let out = favourites_first(s);
    assert(out == a + b);
    if s.contains(c) {
        if favourite(c) {
            assert(p(c));
            assert(a.contains(c));
            let i = choose|i: int| 0 <= i < a.len() && a[i] == c;
            assert(out[i] == c);
        } else {
            assert(q(c));
            assert(b.contains(c));
            let i = choose|i: int| 0 <= i < b.len() && b[i] == c;
            assert(out[a.len() + i] == c);
        }
    }
    if out.contains(c) {
        let i = choose|i: int| 0 <= i < out.len() && out[i] == c;
        if i < a.len() {
            let k = seqs::lemma_filter_source(s, p, i);
            assert(s[k] == c);
        } else {
            let k = seqs::lemma_filter_source(s, q, i - a.len());
            assert(s[k] == c);
        }
    }
}

/// Every row of the table of skins that stands for one gives it, and every skin comes from such a
/// row. They are sorted by their names in small letters.
pub proof fn law_library_holds_every_skin(store: Store, rows: Seq<Row>, i: int, k: int, s: SkinView)
    requires
        store.whole("class_Skin"@) == Ok::<Seq<Row>, Seq<char>>(rows),
        skins_of(store) is Ok,
    ensures
        0 <= i < rows.len() && (skin_of(store, rows[i]) matches Ok(Some(_))) ==> skins_of(
            store,
        )->Ok_0.contains(skin_of(store, rows[i])->Ok_0->0),
        0 <= k < skins_of(store)->Ok_0.len() ==> exists|j: int|
            0 <= j < rows.len() && #[trigger] skin_of(store, rows[j]) == Ok::<
                Option<SkinView>,
                Seq<char>,
            >(Some(skins_of(store)->Ok_0[k])),
        skin_key()(s) == text::unicode_lower(s.name),
{
    let f = |j: int| skin_of(store, rows[j]);
    if 0 <= i < rows.len() {
        realm::law_each_item_is_collected(rows.len(), f, i);
        assert(f(i) == skin_of(store, rows[i]));
    }
    if 0 <= k < skins_of(store)->Ok_0.len() {
        realm::lemma_collect_member(rows.len(), f, k);
        let j = choose|j: int|
            0 <= j < rows.len() && #[trigger] f(j) == Ok::<Option<SkinView>, Seq<char>>(
                Some(skins_of(store)->Ok_0[k]),
            );
        assert(skin_of(store, rows[j]) == f(j));
    }
}

// ---------- names and places ----------

/// A name is made safe part by part: a part that leads down comes behind the others with a mark for
/// each character that a name may not hold, and one that is empty or leads up is left out.
pub proof fn law_names_are_made_safe_part_by_part(dir: Seq<char>, part: Seq<char>)
    requires
        forall|i: int| 0 <= i < part.len() ==> #[trigger] part[i] != '/' && part[i] != '\\',
    ensures
        part.len() > 0 && part != ".."@ ==> safe_parts(dir.push('/') + part) == safe_parts(dir).push(
            cleaned(part),
        ) && safe_parts(part) == seq![cleaned(part)] && sanitized(part) == cleaned(part),
        part.len() == 0 || part == ".."@ ==> safe_parts(dir.push('/') + part) == safe_parts(dir)
            && safe_parts(part).len() == 0,
        safe_parts(dir.push('/') + part).len() > 1 && part.len() > 0 && part != ".."@ ==> sanitized(
            dir.push('/') + part,
        ) == sanitized(dir) + seq!['/'] + cleaned(part),
        forall|i: int| 0 <= i < part.len() ==> #[trigger] cleaned(part)[i] == (if ":*?\"<>|"@.contains(
            part[i],
        ) {
            '_'
        } else {
            part[i]
        }),
{
    reveal(Seq::filter);
    reveal_strlit(":*?\"<>|");
    let bad = ":*?\"<>|"@;
    let p = |seg: Seq<char>| goes_down(seg);
    let flat = text::replaced(dir, '\\', '/');
    let whole = dir.push('/') + part;
    assert(text::replaced(part, '\\', '/') =~= part);
    assert(text::replaced(whole, '\\', '/') =~= flat.push('/') + part);
    text::law_split_at_each_separator(flat, '/', part, text::is_char('/'));
    let before = text::split(flat, text::is_char('/'));
    let after = before.push(part);
    assert(after.drop_last() =~= before);
    assert(seq![part].drop_last() =~= Seq::<Seq<char>>::empty());
    assert(Seq::<Seq<char>>::empty().filter(p) =~= Seq::<Seq<char>>::empty());
    if goes_down(part) {
        assert(p(part));
        assert(after.filter(p) =~= before.filter(p).push(part));
        assert(safe_parts(whole) =~= safe_parts(dir).push(cleaned(part)));
        assert(seq![part].filter(p) =~= seq![part]);
        assert(safe_parts(part) =~= seq![cleaned(part)]);
        if safe_parts(whole).len() > 1 {
            assert(safe_parts(whole).drop_last() =~= safe_parts(dir));
            assert(sanitized(whole) =~= sanitized(dir) + seq!['/'] + cleaned(part));
        }
    } else {
        assert(!p(part));
        assert(after.filter(p) =~= before.filter(p));
        assert(safe_parts(whole) =~= safe_parts(dir));
        assert(seq![part].filter(p) =~= Seq::<Seq<char>>::empty());
    }
    assert forall|i: int| 0 <= i < part.len() implies #[trigger] cleaned(part)[i] == (if bad.contains(
        part[i],
    ) {
        '_'
    } else {
        part[i]
    }) by {
        let c = part[i];
        assert(bad[0] == ':' && bad[1] == '*' && bad[2] == '?' && bad[3] == '"' && bad[4] == '<'
            && bad[5] == '>' && bad[6] == '|' && bad.len() == 7);
        if bad.contains(c) {
            let k = choose|k: int| 0 <= k < bad.len() && bad[k] == c;
            assert(forbidden(c));
        }
        if forbidden(c) {
            assert(bad.contains(c));
        }
    }
}

/// A line names the directory behind its equals sign, whatever white space is around it; any other
/// line names none, and the first line that names one counts.
pub proof fn law_directory_is_named_in_a_line(
    path: Seq<char>,
    line: Seq<char>,
    lines: Seq<String>,
    i: int,
)
    requires
        path.len() > 0,
        !text::white(path[0]),
        !text::white(path.last()),
        forall|k: int| 0 <= k < path.len() ==> #[trigger] path[k] != '=',
    ensures
        line_path("FullPath = "@ + path) == Some(path),
        line_path("FullPath="@ + path) == Some(path),
        !text::starts(line, "FullPath"@) ==> line_path(line) is None,
        0 <= i < lines.len() && line_path(lines[i]@) is Some && (forall|j: int|
            0 <= j < i ==> line_path((#[trigger] lines[j])@) is None) ==> full_path(lines) == line_path(
            lines[i]@,
        ),
        (forall|j: int| 0 <= j < lines.len() ==> line_path((#[trigger] lines[j])@) is None)
            ==> full_path(lines) is None,
{
    reveal_strlit("FullPath = ");
    reveal_strlit("FullPath=");
    reveal_strlit("FullPath");
    let key = "FullPath"@;
    let eq = text::is_char('=');
    let a = "FullPath = "@ + path;
    let b = "FullPath="@ + path;
    assert(a.take(8) =~= key);
    assert(b.take(8) =~= key);
    let wide = seq![' '] + path;
    assert forall|k: int| 0 <= k < wide.len() implies !eq(#[trigger] wide[k]) by {
        if k > 0 {
            assert(path[k - 1] != '=');
        }
    }
    text::law_split_at_each_separator(seq![' '], '=', wide, eq);
    text::law_split_at_each_separator(Seq::empty(), '=', path, eq);
    assert(a.skip(8) =~= seq![' '].push('=') + wide);
    assert(b.skip(8) =~= Seq::<char>::empty().push('=') + path);
    let none = Seq::<char>::empty();
    assert(seq![' '].drop_last() =~= none);
    assert(text::split(none, eq).len() == 1);
    assert(text::split(seq![' '], eq).len() == 1);
    text::law_trimming_drops_white_space(path, ' ');
    assert(text::split(a.skip(8), eq)[1] == wide);
    assert(text::split(b.skip(8), eq)[1] == path);
    let p = |j: int| line_path(lines[j]@) is Some;
    if 0 <= i < lines.len() && line_path(lines[i]@) is Some && (forall|j: int|
        0 <= j < i ==> line_path((#[trigger] lines[j])@) is None) {
        assert(p(i));
        assert forall|j: int| 0 <= j < i implies !#[trigger] p(j) by {
            assert(line_path(lines[j]@) is None);
        }
        seqs::lemma_least_found(lines.len() as int, p, i);
    }
    if forall|j: int| 0 <= j < lines.len() ==> line_path((#[trigger] lines[j])@) is None {
        assert forall|j: int| 0 <= j < lines.len() implies !#[trigger] p(j) by {
            assert(line_path(lines[j]@) is None);
        }
        seqs::lemma_least_missing(lines.len() as int, p);
    }
}

/// The data lie where the file says, and in the directory itself where it says nothing or is not
/// there.
pub proof fn law_data_lie_where_it_says(dir: Seq<char>, lines: Vec<String>)
    ensures
        full_path(lines@) matches Some(p) ==> resolved(dir, Some(lines)) == p,
        full_path(lines@) is None ==> resolved(dir, Some(lines)) == dir,
        resolved(dir, None) == dir,
{
}

/// A directory serves only with its database in it.
pub proof fn law_directory_needs_its_database(d: DataDir)
    ensures
        d.has_realm ==> root_of(Some(d)) == Some(d.root),
        !d.has_realm ==> root_of(Some(d)) is None,
        root_of(None) is None,
{
}

/// The cover is a picture, and no other picture of the set is larger.
pub proof fn law_cover_is_the_largest_picture(files: Seq<LazerFile>, k: int, j: int)
    requires
        cover::is_last_largest(sizes_of(files), image_at(files), k),
        0 <= j < files.len(),
        cover::is_image(files[j].filename@),
    ensures
        0 <= k < files.len(),
        cover::is_image(files[k].filename@),
        files[j].size <= files[k].size,
        j > k ==> files[j].size < files[k].size,
{
    let p = image_at(files);
    assert(p(k));
    assert(p(j));
    assert(sizes_of(files)[k] == files[k].size);
    assert(sizes_of(files)[j] == files[j].size);
}

/// Each file of a skin goes from its blob to its own safe name in the directory, and is copied
/// unless it is there with the size of the blob. The directory bears the safe name of the skin.
pub proof fn law_skin_is_put_together(
    root: Seq<char>,
    files: Seq<LazerFile>,
    dir: Seq<char>,
    r: Seq<Mount>,
    i: int,
    n: u64,
    m: u64,
)
    requires
        are_mounts(root, files, dir, r),
        0 <= i < files.len(),
        n != m,
    ensures
        r.len() == files.len(),
        paths::joined_twice(root, "files"@, blob_path(files[i].hash@), r[i].blob@),
        paths::joined(dir, sanitized(files[i].filename@), r[i].target@),
        mounted(Some(n), Some(n)),
        !mounted(Some(n), Some(m)),
        !mounted(None, Some(n)),
        n < u64::MAX ==> !mounted(Some(n), None),
        forall|name: Seq<char>, d: Seq<char>| #[trigger]
            is_skin_dir(root, name, d) && sanitized(name).len() > 0 ==> paths::joined(
                root,
                sanitized(name),
                d,
            ),
{
}

/// What cannot be read ends the reading with its own words: of a set that is not about to be
/// deleted, its files and then its difficulties, and of a skin, its files.
pub proof fn law_errors_are_passed_on(store: Store, row: Row, files: Seq<FileView>)
    requires
        row.col("DeletePending"@) != Some(Value::Bool(true)),
    ensures
        files_of(store, row.col("Files"@)) matches Err(e) ==> set_of(store, row) == Err::<
            Option<SetView>,
            Seq<char>,
        >(e) && skin_of(store, row) == Err::<Option<SkinView>, Seq<char>>(e),
        files_of(store, row.col("Files"@)) == Ok::<Seq<FileView>, Seq<char>>(files) ==> (beatmaps_of(
            store,
            files,
            row.col("Beatmaps"@),
        ) matches Err(e) ==> set_of(store, row) == Err::<Option<SetView>, Seq<char>>(e)),
        store.whole("class_BeatmapSet"@) matches Err(e) ==> sets_of(store) == Err::<
            Seq<SetView>,
            Seq<char>,
        >(e),
        store.whole("class_BeatmapCollection"@) matches Err(e) ==> collections_of(store) == Err::<
            Seq<CollectionView>,
            Seq<char>,
        >(e),
        store.whole("class_Skin"@) matches Err(e) ==> skins_of(store) == Err::<
            Seq<SkinView>,
            Seq<char>,
        >(e),
{
}

/// A directory with its database is set, one without leaves what was set, and none takes it back.
pub proof fn law_only_a_good_directory_is_set(slot: Option<String>, d: DataDir)
    ensures
        d.has_realm ==> dir_after(slot, Some(d)) == Some(d.dir),
        !d.has_realm ==> dir_after(slot, Some(d)) == slot,
        dir_after(slot, None) is None,
{
}

} // verus!
