//! What is to be played from a file that the user picked: a beatmap as it is, or one of the
//! difficulties of an archive.
use vstd::prelude::*;

use vstd::hash_map::StringHashMap;

use crate::paths;
use crate::seqs;
use crate::text;

verus! {

/// What a file holds.
#[derive(Debug)]
pub struct BeatmapInput {
    /// Where sounds, backgrounds and the like are looked for.
    pub root: String,
    /// The beatmap, or the storyboard of an input without one.
    pub input: String,
    pub is_osb: bool,
    /// The beatmaps of an archive, as it lists them.
    pub diffs: Vec<String>,
}

/// The beatmap to play and the difficulty that it is, where the input has several.
#[derive(Debug)]
pub struct LoadedWall {
    pub map_path: String,
    pub diff: Option<String>,
}

/// An entry of an archive.
#[derive(Debug)]
pub struct ZipEntry {
    pub name: String,
    pub is_dir: bool,
}

/// What there is at a path.
#[derive(Debug)]
pub enum Source {
    Missing,
    /// A file that is no archive.
    File,
    /// The entries of an archive, and the directory into which it is unpacked.
    Archive { root: String, entries: Vec<ZipEntry> },
    Unreadable { reason: String },
}

/// Why nothing can be played.
#[derive(Debug)]
pub enum Problem {
    Missing { path: String },
    Unreadable { path: String, reason: String },
    /// An archive without beatmap and storyboard.
    Empty { path: String },
    /// A storyboard alone.
    Unplayable,
    NoDiff { want: String, diffs: Vec<String> },
    ManyDiffs { want: String },
}

/// Texts with a separator between them.
pub open spec fn joined_by(parts: Seq<Seq<char>>, sep: Seq<char>) -> Seq<char>
    decreases parts.len(),
{
    if parts.len() == 0 {
        Seq::empty()
    } else if parts.len() == 1 {
        parts[0]
    } else {
        joined_by(parts.drop_last(), sep) + sep + parts.last()
    }
}

fn join_by(parts: &Vec<String>, sep: &str) -> (r: String)
    ensures
        r@ == joined_by(text::views(parts@), sep@),
{
    let mut r: String = String::new();
    let mut i: usize = 0;
    assert(text::views(parts@.take(0)).len() == 0);
    while i < parts.len()
        invariant
            i <= parts@.len(),
            r@ == joined_by(text::views(parts@.take(i as int)), sep@),
        decreases parts.len() - i,
    {
        let ghost all = text::views(parts@.take(i + 1));
        assert(all.drop_last() =~= text::views(parts@.take(i as int)));
        if i > 0 {
            r.append(sep);
        }
        r.append(parts[i].as_str());
        assert(r@ =~= joined_by(all, sep@));
        i = i + 1;
    }
    assert(parts@.take(parts@.len() as int) =~= parts@);
    r
}

impl Problem {
    /// What the user is told.
    pub open spec fn says(self) -> Seq<char> {
        match self {
            Problem::Missing { path } => "解析 "@ + path@ + ": 文件不存在: "@ + path@,
            Problem::Unreadable { path, reason } => "解析 "@ + path@ + ": "@ + reason@,
            Problem::Empty { path } => "解析 "@ + path@ + ": "@ + path@
                + " 中未找到 .osb/.osu 文件"@,
            Problem::Unplayable => "播放模式需要 .osz / .osu(纯 .osb 没有可游玩内容)"@,
            Problem::NoDiff { want, diffs } => "未找到难度 “"@ + want@ + "”,可用难度: "@
                + joined_by(text::views(diffs@), " / "@),
            Problem::ManyDiffs { want } => "难度 “"@ + want@
                + "” 匹配到多个文件,请用更长的名称"@,
        }
    }

    pub fn message(&self) -> (r: String)
        ensures
            r@ == self.says(),
    {
        match self {
            Problem::Missing { path } => text::owned("解析 ").concat(path.as_str()).concat(
                ": 文件不存在: ",
            ).concat(path.as_str()),
            Problem::Unreadable { path, reason } => text::owned("解析 ").concat(
                path.as_str(),
            ).concat(": ").concat(reason.as_str()),
            Problem::Empty { path } => text::owned("解析 ").concat(path.as_str()).concat(
                ": ",
            ).concat(path.as_str()).concat(" 中未找到 .osb/.osu 文件"),
            Problem::Unplayable => text::owned(
                "播放模式需要 .osz / .osu(纯 .osb 没有可游玩内容)",
            ),
            Problem::NoDiff { want, diffs } => text::owned("未找到难度 “").concat(
                want.as_str(),
            ).concat("”,可用难度: ").concat(join_by(diffs, " / ").as_str()),
            Problem::ManyDiffs { want } => text::owned("难度 “").concat(want.as_str()).concat(
                "” 匹配到多个文件,请用更长的名称",
            ),
        }
    }
}

/// The parts of a name, whichever separator an archive uses.
pub open spec fn parts(name: Seq<char>) -> Seq<Seq<char>> {
    text::split(text::replaced(name, '\\', '/'), text::is_char('/'))
}

/// The name leads to a place below the directory that it is joined to: it has no root and no drive,
/// and no part of it leads up.
pub open spec fn stays_below(name: Seq<char>) -> bool {
    &&& name.len() > 0 ==> !separator(name[0])
    &&& !paths::on_drive(name)
    &&& !parts(name).contains(".."@)
}

/// An entry is unpacked unless it is a directory or its name leads out of the directory into which
/// it is unpacked.
pub open spec fn unpacks(e: ZipEntry) -> bool {
    !e.is_dir && stays_below(e.name@)
}

pub fn wanted(e: &ZipEntry) -> (r: bool)
    ensures
        r == unpacks(*e),
{
    if e.is_dir {
        return false;
    }
    let chars: Vec<char> = text::chars_of(e.name.as_str());
    if chars.len() > 0 && (chars[0] == '/' || chars[0] == '\\') {
        return false;
    }
    if chars.len() > 1 && chars[1] == ':' {
        let c: char = chars[0];
        if ('a' <= c && c <= 'z') || ('A' <= c && c <= 'Z') {
            return false;
        }
    }
    let flat: String = text::replace_char(e.name.as_str(), '\\', '/');
    let segments: Vec<String> = text::split_on(flat.as_str(), '/');
    let mut i: usize = 0;
    while i < segments.len()
        invariant
            i <= segments@.len(),
            text::views(segments@) == parts(e.name@),
            !e.is_dir,
            e.name@.len() > 0 ==> !separator(e.name@[0]),
            !paths::on_drive(e.name@),
            forall|j: int| 0 <= j < i ==> (#[trigger] parts(e.name@)[j]) != ".."@,
        decreases segments.len() - i,
    {
        assert(parts(e.name@)[i as int] == segments@[i as int]@);
        if text::same(segments[i].as_str(), "..") {
            return false;
        }
        i = i + 1;
    }
    true
}

/// A file that was unpacked before, with the size that it has in the archive, is left alone.
pub open spec fn unwritten(existing: Option<u64>, size: u64) -> bool {
    existing != Some(size)
}

pub fn needs_writing(existing: Option<u64>, size: u64) -> (r: bool)
    ensures
        r == unwritten(existing, size),
{
    match existing {
        Some(n) => n != size,
        None => true,
    }
}

/// The name has an ending, in capitals or not.
pub open spec fn ending(name: Seq<char>, end: Seq<char>) -> bool {
    text::ends(text::unicode_lower(name), end)
}

pub open spec fn has_ending(end: Seq<char>) -> spec_fn(ZipEntry) -> bool {
    |e: ZipEntry| unpacks(e) && ending(e.name@, end)
}

/// The names of the entries that are unpacked and have an ending.
pub open spec fn named(entries: Seq<ZipEntry>, end: Seq<char>) -> Seq<Seq<char>> {
    entries.filter(has_ending(end)).map_values(|e: ZipEntry| e.name@)
}

/// An archive gives its beatmaps; without any it gives its first storyboard.
pub open spec fn is_archive_input(
    path: Seq<char>,
    root: String,
    entries: Seq<ZipEntry>,
    r: Result<BeatmapInput, Problem>,
) -> bool {
    let osus = named(entries, ".osu"@);
    let osbs = named(entries, ".osb"@);
    match r {
        Ok(b) => {
            &&& b.root == root
            &&& text::views(b.diffs@) == osus
            &&& b.is_osb == (osus.len() == 0)
            &&& osus.len() > 0 || osbs.len() > 0
            &&& paths::joined(
                root@,
                if osus.len() > 0 {
                    osus[0]
                } else {
                    osbs[0]
                },
                b.input@,
            )
        },
        Err(p) => osus.len() == 0 && osbs.len() == 0 && p is Empty && p->Empty_path@ == path,
    }
}

fn archive_input(path: &str, root: String, entries: &Vec<ZipEntry>) -> (r: Result<
    BeatmapInput,
    Problem,
>)
    ensures
        is_archive_input(path@, root, entries@, r),
{
    broadcast use vstd::seq_lib::group_filter_ensures;

    let mut osb: Option<String> = None;
    let mut osus: Vec<String> = Vec::new();
    let mut i: usize = 0;
    proof {
        reveal(Seq::filter);
        assert(entries@.take(0) =~= Seq::<ZipEntry>::empty());
        assert(text::views(osus@) =~= named(entries@.take(0), ".osu"@));
    }
    while i < entries.len()
        invariant
            i <= entries@.len(),
            text::views(osus@) == named(entries@.take(i as int), ".osu"@),
            match osb {
                Some(name) => named(entries@.take(i as int), ".osb"@).len() > 0 && name@ == named(
                    entries@.take(i as int),
                    ".osb"@,
                )[0],
                None => named(entries@.take(i as int), ".osb"@).len() == 0,
            },
        decreases entries.len() - i,
    {
        let e: &ZipEntry = &entries[i];
        let ghost before = osus@;
        proof {
            reveal(Seq::filter);
            lemma_named_grows(entries@, i as int, ".osu"@);
            lemma_named_grows(entries@, i as int, ".osb"@);
        }
        if wanted(e) {
            let lower: String = e.name.as_str().to_lowercase();
            proof {
                lemma_one_ending(lower@);
            }
            if text::ends_with(lower.as_str(), ".osb") {
                if osb.is_none() {
                    osb = Some(e.name.clone());
                }
            } else if text::ends_with(lower.as_str(), ".osu") {
                osus.push(e.name.clone());
                assert(text::views(osus@) =~= text::views(before).push(e.name@));
            }
        }
        i = i + 1;
    }
    assert(entries@.take(entries@.len() as int) =~= entries@);
    if osus.len() > 0 {
        let input: String = paths::join(root.as_str(), osus[0].as_str());
        assert(text::views(osus@)[0] == osus@[0]@);
        Ok(BeatmapInput { root, input, is_osb: false, diffs: osus })
    } else {
        match osb {
            Some(name) => {
                let input: String = paths::join(root.as_str(), name.as_str());
                Ok(BeatmapInput { root, input, is_osb: true, diffs: osus })
            },
            None => Err(Problem::Empty { path: text::owned(path) }),
        }
    }
}

proof fn lemma_named_grows(entries: Seq<ZipEntry>, i: int, end: Seq<char>)
    requires
        0 <= i < entries.len(),
    ensures
        named(entries.take(i + 1), end) == if has_ending(end)(entries[i]) {
            named(entries.take(i), end).push(entries[i].name@)
        } else {
            named(entries.take(i), end)
        },
{
    reveal(Seq::filter);
    assert(entries.take(i + 1).drop_last() =~= entries.take(i));
    assert(named(entries.take(i + 1), end) =~= if has_ending(end)(entries[i]) {
        named(entries.take(i), end).push(entries[i].name@)
    } else {
        named(entries.take(i), end)
    });
}

proof fn lemma_one_ending(s: Seq<char>)
    ensures
        !(text::ends(s, ".osu"@) && text::ends(s, ".osb"@)),
{
    reveal_strlit(".osu");
    reveal_strlit(".osb");
    if text::ends(s, ".osu"@) && text::ends(s, ".osb"@) {
        assert(".osu"@[3] == 'u');
        assert(".osb"@[3] == 'b');
        assert(s.last() == ".osu"@[3]);
        assert(s.last() == ".osb"@[3]);
    }
}

pub open spec fn held(s: Option<String>) -> Option<Seq<char>> {
    match s {
        Some(t) => Some(t@),
        None => None,
    }
}

/// A separator of paths on one platform or another.
pub open spec fn separator(c: char) -> bool {
    c == '/' || c == '\\'
}

/// What follows the dot at `i` is the extension of a path, on every platform.
pub open spec fn extension_at(path: Seq<char>, i: int) -> bool {
    &&& 0 < i < path.len() - 1
    &&& path[i] == '.'
    &&& !separator(path[i - 1]) && path[i - 1] != ':'
    &&& !(separator(path[0]) && separator(path[1]))
    &&& forall|j: int| i < j < path.len() ==> #[trigger] path[j] != '.' && !separator(path[j])
}

/// `e` can be the extension of a path: it is told for a path with one dot in the middle of its
/// last part, and for one without a dot. The rest is up to the platform.
pub open spec fn is_extension(path: Seq<char>, e: Option<Seq<char>>) -> bool {
    &&& forall|i: int| #[trigger] extension_at(path, i) ==> e == Some(path.skip(i + 1))
    &&& !path.contains('.') ==> e is None
}

/// `std::path::Path::extension`: what follows the last dot of the file name. Which parts a path has
/// depends on the platform; names that begin or end with their only dot, and paths that begin with
/// two separators, are left unsaid.
#[verifier::external_body]
fn extension(path: &str) -> (r: Option<String>)
    ensures
        is_extension(path@, held(r)),
{
    std::path::Path::new(path).extension().map(|e| e.to_string_lossy().into_owned())
}

/// The last separator of a path is at `i`, and a name follows it. Two separators in front, which
/// begin the name of a server, dots and doubled separators are left out.
pub open spec fn name_after(path: Seq<char>, i: int) -> bool {
    &&& 0 <= i < path.len() - 1
    &&& separator(path[i])
    &&& i > 0 ==> !separator(path[i - 1]) && path[i - 1] != '.'
    &&& !(separator(path[0]) && separator(path[1]))
    &&& path[i + 1] != '.'
    &&& forall|j: int| i < j < path.len() ==> !separator(#[trigger] path[j])
}

/// `p` is what stands before the separator at `i`; a root keeps its separator, and so may a drive.
pub open spec fn before(path: Seq<char>, i: int, p: Option<Seq<char>>) -> bool {
    if i == 0 {
        p == Some(path.take(1))
    } else if path[i - 1] == ':' {
        p == Some(path.take(i)) || p == Some(path.take(i + 1))
    } else {
        p == Some(path.take(i))
    }
}

/// The last slash of a path is at `k`.
pub open spec fn last_slash(path: Seq<char>, k: int) -> bool {
    &&& 0 <= k < path.len()
    &&& path[k] == '/'
    &&& forall|j: int| k < j < path.len() ==> #[trigger] path[j] != '/'
}

/// `p` is what stands before the last slash, for a platform on which a backslash is a character
/// like others. Dots and slashes right before that slash may go as well.
pub open spec fn before_slash(path: Seq<char>, p: Option<Seq<char>>) -> bool {
    if !path.contains('/') {
        p == Some(Seq::<char>::empty())
    } else {
        exists|k: int| #[trigger]
            last_slash(path, k) && if k == 0 {
                p == Some(path.take(1))
            } else if path[k - 1] != '/' && path[k - 1] != '.' {
                p == Some(path.take(k))
            } else {
                p is Some && p->0.is_prefix_of(path.take(k))
            }
    }
}

/// A name and nothing else, on every platform.
pub open spec fn bare(path: Seq<char>) -> bool {
    &&& path.len() > 0
    &&& path[0] != '.'
    &&& forall|j: int| 0 <= j < path.len() ==> !separator(#[trigger] path[j]) && path[j] != ':'
}

/// `p` can be the parent of a path: it is told for a name in a directory and for a bare name. A
/// backslash is a separator on one platform and a character like others on another.
pub open spec fn is_parent(path: Seq<char>, p: Option<Seq<char>>) -> bool {
    &&& forall|i: int| #[trigger]
        name_after(path, i) ==> before(path, i, p) || (path[i] == '\\' && before_slash(path, p))
    &&& bare(path) ==> p == Some(Seq::<char>::empty())
}

/// `std::path::Path::parent`: the path without its last part. Which parts a path has depends on
/// the platform; names of servers, dots and doubled separators are left unsaid.
#[verifier::external_body]
fn parent(path: &str) -> (r: Option<String>)
    ensures
        is_parent(path@, held(r)),
{
    std::path::Path::new(path).parent().map(|p| p.to_string_lossy().into_owned())
}

/// What is at a path is an archive by its extension, a storyboard by its extension, or else a
/// beatmap; what is no archive lies in its parent.
pub open spec fn is_resolved(
    path: Seq<char>,
    ext: Option<Seq<char>>,
    dir: Option<Seq<char>>,
    source: Source,
    r: Result<BeatmapInput, Problem>,
) -> bool {
    let kind = match ext {
        Some(e) => text::lowered(e),
        None => Seq::empty(),
    };
    match source {
        Source::Missing => r is Err && r->Err_0 is Missing && r->Err_0->Missing_path@ == path,
        Source::Unreadable { reason } => r is Err && r->Err_0 is Unreadable
            && r->Err_0->Unreadable_path@ == path && r->Err_0->reason@ == reason@,
        Source::Archive { root, entries } if kind == "osz"@ => is_archive_input(
            path,
            root,
            entries@,
            r,
        ),
        _ => {
            &&& r is Ok
            &&& r->Ok_0.root@ == match dir {
                Some(d) if d.len() > 0 => d,
                _ => "."@,
            }
            &&& r->Ok_0.input@ == path
            &&& r->Ok_0.is_osb == (kind == "osb"@)
            &&& r->Ok_0.diffs@.len() == 0
        },
    }
}

/// An archive is one by its extension.
pub fn is_archive(path: &str) -> (r: bool)
    ensures
        exists|ext: Option<Seq<char>>| #[trigger]
            is_extension(path@, ext) && r == (ext is Some && text::lowered(ext->0) == "osz"@),
{
    match extension(path) {
        Some(e) => {
            let r: bool = text::same(text::to_ascii_lowercase(e.as_str()).as_str(), "osz");
            assert(is_extension(path@, Some(e@)));
            r
        },
        None => {
            assert(is_extension(path@, None));
            false
        },
    }
}

/// What is at a path, by its extension and its parent.
pub fn resolve_with(
    path: &str,
    ext: Option<String>,
    dir: Option<String>,
    source: Source,
) -> (r: Result<BeatmapInput, Problem>)
    ensures
        is_resolved(
            path@,
            held(ext),
            held(dir),
            source,
            r,
        ),
{
    let kind: String = match ext {
        Some(e) => text::to_ascii_lowercase(e.as_str()),
        None => String::new(),
    };
    match source {
        Source::Missing => {
            return Err(Problem::Missing { path: text::owned(path) });
        },
        Source::Unreadable { reason } => {
            return Err(Problem::Unreadable { path: text::owned(path), reason });
        },
        Source::Archive { root, entries } => {
            if text::same(kind.as_str(), "osz") {
                return archive_input(path, root, &entries);
            }
        },
        Source::File => {},
    }
    proof {
        reveal_strlit("");
        assert(forall|d: Seq<char>| d.len() == 0 ==> #[trigger] d.len() == 0 && d =~= ""@);
    }
    let root: String = match dir {
        Some(d) => if text::same(d.as_str(), "") {
            text::owned(".")
        } else {
            d
        },
        None => text::owned("."),
    };
    let is_osb: bool = text::same(kind.as_str(), "osb");
    Ok(BeatmapInput { root, input: text::owned(path), is_osb, diffs: Vec::new() })
}

/// What is at a path.
pub open spec fn resolves(path: Seq<char>, source: Source, r: Result<BeatmapInput, Problem>) -> bool {
    exists|ext: Option<Seq<char>>, dir: Option<Seq<char>>| #[trigger]
        is_extension(path, ext) && #[trigger] is_parent(path, dir) && is_resolved(
            path,
            ext,
            dir,
            source,
            r,
        )
}

pub fn resolve(path: &str, source: Source) -> (r: Result<BeatmapInput, Problem>)
    ensures
        resolves(path@, source, r),
{
    let ext: Option<String> = extension(path);
    let dir: Option<String> = parent(path);
    let ghost e = held(ext);
    let ghost d = held(dir);
    let r: Result<BeatmapInput, Problem> = resolve_with(path, ext, dir, source);
    assert(is_extension(path@, e) && is_parent(path@, d) && is_resolved(path@, e, d, source, r));
    r
}

/// The number that the hasher of std gives for a path.
pub uninterp spec fn path_hashed(path: Seq<char>) -> u64;

/// `std::hash::BuildHasher::hash_one` with hashers made by `DefaultHasher::default`, which are all
/// alike: the number depends on the characters of the path alone and is known here by its name.
/// Its algorithm is not told.
#[verifier::external_body]
fn path_hash(path: &str) -> (r: u64)
    ensures
        r == path_hashed(path@),
{
    let build = std::hash::BuildHasherDefault::<std::collections::hash_map::DefaultHasher>::default();
    std::hash::BuildHasher::hash_one(&build, path)
}

/// `dir` is the directory for an archive whose path has the hash `h`.
pub open spec fn is_unpack_dir(temp: Seq<char>, h: u64, dir: Seq<char>) -> bool {
    paths::joined_twice(temp, "aria"@, text::hex(h as nat, 16), dir)
}

pub fn unpack_dir_for(temp: &str, h: u64) -> (dir: String)
    ensures
        is_unpack_dir(temp@, h, dir@),
{
    paths::join_twice(temp, "aria", text::hex_of(h, 16).as_str())
}

/// The directory into which an archive is unpacked, below that for temporary files and named by the
/// hash of its path.
pub fn unpack_dir(temp: &str, path: &str) -> (dir: String)
    ensures
        is_unpack_dir(temp@, path_hashed(path@), dir@),
{
    unpack_dir_for(temp, path_hash(path))
}

/// The difficulty has the name, in capitals or not.
pub open spec fn bears(diffs: Seq<Seq<char>>, want: Seq<char>) -> spec_fn(int) -> bool {
    |i: int| text::unicode_lower(diffs[i]) == text::unicode_lower(want)
}

/// The difficulty has the name in its own, in capitals or not.
pub open spec fn holds(diffs: Seq<Seq<char>>, want: Seq<char>) -> spec_fn(int) -> bool {
    |i: int| text::contains(text::unicode_lower(diffs[i]), text::unicode_lower(want))
}

pub open spec fn second(n: int, p: spec_fn(int) -> bool) -> bool {
    exists|i: int, j: int| 0 <= i < j < n && #[trigger] p(i) && #[trigger] p(j)
}

/// Which difficulty is meant.
pub enum Pick {
    At(int),
    /// There is none to pick from.
    Nothing,
    Unknown,
    Ambiguous,
}

/// Nothing where there is no difficulty. Without a name the first; else the first with just that
/// name; else the only one with the name in its own.
pub open spec fn picked(diffs: Seq<Seq<char>>, diff: Option<Seq<char>>) -> Pick {
    let n = diffs.len() as int;
    if n == 0 {
        Pick::Nothing
    } else {
        picked_of(diffs, diff)
    }
}

/// Which of some difficulties is meant.
pub open spec fn picked_of(diffs: Seq<Seq<char>>, diff: Option<Seq<char>>) -> Pick {
    let n = diffs.len() as int;
    match diff {
        Some(want) if want.len() > 0 => match seqs::least(n, bears(diffs, want)) {
            Some(i) => Pick::At(i),
            None => match seqs::least(n, holds(diffs, want)) {
                Some(i) => if second(n, holds(diffs, want)) {
                    Pick::Ambiguous
                } else {
                    Pick::At(i)
                },
                None => Pick::Unknown,
            },
        },
        _ => Pick::At(0),
    }
}

/// What is said of the pick.
pub open spec fn is_answer(
    diffs: Seq<String>,
    diff: Option<Seq<char>>,
    r: Result<Option<String>, Problem>,
) -> bool {
    match picked(text::views(diffs), diff) {
        Pick::At(i) => r is Ok && r->Ok_0 is Some && 0 <= i < diffs.len() && r->Ok_0->0@
            == diffs[i]@,
        Pick::Nothing => r is Ok && r->Ok_0 is None,
        Pick::Unknown => r is Err && r->Err_0 is NoDiff && r->Err_0->NoDiff_want@ == diff->0
            && text::views(r->Err_0->diffs@) == text::views(diffs),
        Pick::Ambiguous => r is Err && r->Err_0 is ManyDiffs && r->Err_0->ManyDiffs_want@ == diff->0,
    }
}

pub open spec fn opt_view(s: Option<&str>) -> Option<Seq<char>> {
    match s {
        Some(t) => Some(t@),
        None => None,
    }
}

fn copies(v: &Vec<String>) -> (r: Vec<String>)
    ensures
        text::views(r@) == text::views(v@),
{
    let mut r: Vec<String> = Vec::new();
    let mut i: usize = 0;
    while i < v.len()
        invariant
            i <= v@.len(),
            text::views(r@) == text::views(v@.take(i as int)),
        decreases v.len() - i,
    {
        let ghost before = r@;
        r.push(v[i].clone());
        assert(text::views(r@) =~= text::views(before).push(v@[i as int]@));
        assert(text::views(v@.take(i + 1)) =~= text::views(v@.take(i as int)).push(v@[i as int]@));
        i = i + 1;
    }
    assert(v@.take(v@.len() as int) =~= v@);
    r
}

/// The difficulty that is meant by a name.
pub fn pick_diff(diffs: &Vec<String>, diff: Option<&str>) -> (r: Result<Option<String>, Problem>)
    ensures
        is_answer(diffs@, opt_view(diff), r),
        diffs@.len() == 0 ==> r is Ok && r->Ok_0 is None,
{
    if diffs.len() == 0 {
        return Ok(None);
    }
    let ghost d = text::views(diffs@);
    let ghost n = d.len() as int;
    proof {
        reveal_strlit("");
    }
    match diff {
        Some(want) => {
            if !text::same(want, "") {
                assert(want@.len() > 0) by {
                    if want@.len() == 0 {
                        assert(want@ =~= ""@);
                    }
                }
                let lower: String = want.to_lowercase();
                let mut i: usize = 0;
                while i < diffs.len()
                    invariant
                        i <= diffs@.len(),
                        d == text::views(diffs@),
                        n == d.len(),
                        n > 0,
                        diff == Some(want),
                        want@.len() > 0,
                        lower@ == text::unicode_lower(want@),
                        forall|j: int| 0 <= j < i ==> !#[trigger] bears(d, want@)(j),
                    decreases diffs.len() - i,
                {
                    assert(d[i as int] == diffs@[i as int]@);
                    if text::same(diffs[i].as_str().to_lowercase().as_str(), lower.as_str()) {
                        proof {
                            assert(bears(d, want@)(i as int));
                            seqs::lemma_least_found(n, bears(d, want@), i as int);
                        }
                        return Ok(Some(diffs[i].clone()));
                    }
                    assert(!bears(d, want@)(i as int));
                    i = i + 1;
                }
                let mut hit: Option<usize> = None;
                let ghost p = holds(d, want@);
                proof {
                    seqs::lemma_least_missing(n, bears(d, want@));
                }
                i = 0;
                while i < diffs.len()
                    invariant
                        i <= diffs@.len(),
                        d == text::views(diffs@),
                        n == d.len(),
                        n > 0,
                        diff == Some(want),
                        want@.len() > 0,
                        lower@ == text::unicode_lower(want@),
                        p == holds(d, want@),
                        seqs::least(n, bears(d, want@)) is None,
                        match hit {
                            Some(k) => k < i && seqs::is_least(n, p, k as int) && forall|j: int|
                                0 <= j < i && j != k ==> !#[trigger] p(j),
                            None => forall|j: int| 0 <= j < i ==> !#[trigger] p(j),
                        },
                    decreases diffs.len() - i,
                {
                    assert(d[i as int] == diffs@[i as int]@);
                    if text::contains_str(
                        diffs[i].as_str().to_lowercase().as_str(),
                        lower.as_str(),
                    ) {
                        assert(p(i as int));
                        match hit {
                            Some(k) => {
                                proof {
                                    assert(p(k as int) && p(i as int));
                                    assert(second(n, p));
                                    seqs::lemma_least_found(n, p, k as int);
                                }
                                return Err(Problem::ManyDiffs { want: text::owned(want) });
                            },
                            None => {
                                hit = Some(i);
                            },
                        }
                    } else {
                        assert(!p(i as int));
                    }
                    i = i + 1;
                }
                match hit {
                    Some(k) => {
                        proof {
                            seqs::lemma_least_found(n, p, k as int);
                            assert(!second(n, p));
                        }
                        return Ok(Some(diffs[k].clone()));
                    },
                    None => {
                        proof {
                            seqs::lemma_least_missing(n, p);
                        }
                        return Err(
                            Problem::NoDiff { want: text::owned(want), diffs: copies(diffs) },
                        );
                    },
                }
            }
        },
        None => {},
    }
    Ok(Some(diffs[0].clone()))
}

/// What is played of an input.
pub open spec fn is_loaded(
    b: BeatmapInput,
    diff: Option<Seq<char>>,
    r: Result<LoadedWall, Problem>,
) -> bool {
    if b.is_osb {
        r is Err && r->Err_0 is Unplayable
    } else {
        match picked(text::views(b.diffs@), diff) {
            Pick::At(i) => {
                &&& r is Ok
                &&& r->Ok_0.diff is Some
                &&& 0 <= i < b.diffs@.len()
                &&& r->Ok_0.diff->0@ == b.diffs@[i]@
                &&& paths::joined(b.root@, b.diffs@[i]@, r->Ok_0.map_path@)
            },
            Pick::Nothing => r is Ok && r->Ok_0.diff is None && r->Ok_0.map_path@ == b.input@,
            Pick::Unknown => r is Err && r->Err_0 is NoDiff && r->Err_0->NoDiff_want@ == diff->0
                && text::views(r->Err_0->diffs@) == text::views(b.diffs@),
            Pick::Ambiguous => r is Err && r->Err_0 is ManyDiffs && r->Err_0->ManyDiffs_want@
                == diff->0,
        }
    }
}

impl BeatmapInput {
    pub fn load(&self, diff: Option<&str>) -> (r: Result<LoadedWall, Problem>)
        ensures
            is_loaded(*self, opt_view(diff), r),
    {
        if self.is_osb {
            return Err(Problem::Unplayable);
        }
        match pick_diff(&self.diffs, diff) {
            Ok(Some(name)) => Ok(
                LoadedWall {
                    map_path: paths::join(self.root.as_str(), name.as_str()),
                    diff: Some(name),
                },
            ),
            Ok(None) => Ok(LoadedWall { map_path: self.input.clone(), diff: None }),
            Err(e) => Err(e),
        }
    }
}

/// The inputs that were looked at, by path.
pub struct Library {
    cache: StringHashMap<BeatmapInput>,
}

impl View for Library {
    type V = Map<Seq<char>, BeatmapInput>;

    closed spec fn view(&self) -> Map<Seq<char>, BeatmapInput> {
        self.cache@
    }
}

impl Library {
    pub fn new() -> (r: Library)
        ensures
            r@ == Map::<Seq<char>, BeatmapInput>::empty(),
    {
        Library { cache: StringHashMap::new() }
    }

    /// Whether a path was looked at already, so that it need not be looked at again.
    pub fn knows(&self, path: &str) -> (r: bool)
        ensures
            r == self@.contains_key(path@),
    {
        self.cache.contains_key(path)
    }

    /// What is at a path: what was found there before, else what is there now.
    pub fn probe(&mut self, path: &str, source: Source) -> (r: Result<&BeatmapInput, Problem>)
        ensures
            match r {
                Ok(b) => final(self)@.contains_key(path@) && *b == final(self)@[path@],
                Err(p) => !old(self)@.contains_key(path@) && resolves(path@, source, Err(p))
                    && final(self)@ == old(self)@,
            },
            r is Ok ==> if old(self)@.contains_key(path@) {
                final(self)@ == old(self)@
            } else {
                final(self)@ == old(self)@.insert(path@, final(self)@[path@]) && resolves(
                    path@,
                    source,
                    Ok(final(self)@[path@]),
                )
            },
    {
        if !self.cache.contains_key(path) {
            match resolve(path, source) {
                Ok(input) => {
                    self.cache.insert(text::owned(path), input);
                },
                Err(p) => {
                    return Err(p);
                },
            }
        }
        match self.cache.get(path) {
            Some(b) => Ok(b),
            None => Err(Problem::Missing { path: text::owned(path) }),
        }
    }

    /// What is played of what is at a path.
    pub fn load(&mut self, path: &str, diff: Option<&str>, source: Source) -> (r: Result<
        LoadedWall,
        Problem,
    >)
        ensures
            if old(self)@.contains_key(path@) {
                final(self)@ == old(self)@ && is_loaded(old(self)@[path@], opt_view(diff), r)
            } else if final(self)@.contains_key(path@) {
                &&& final(self)@ == old(self)@.insert(path@, final(self)@[path@])
                &&& resolves(path@, source, Ok(final(self)@[path@]))
                &&& is_loaded(final(self)@[path@], opt_view(diff), r)
            } else {
                &&& final(self)@ == old(self)@
                &&& r is Err
                &&& resolves(path@, source, Err(r->Err_0))
            },
    {
        match self.probe(path, source) {
            Ok(b) => b.load(diff),
            Err(p) => Err(p),
        }
    }
}

/// Nothing is unpacked outside of the directory for it: the name of an entry that is unpacked has
/// no root, no drive and no part that leads up, and where it lies begins with that directory. Every
/// difficulty and storyboard that is listed is such an entry.
pub proof fn law_unpacked_stays_below(
    entries: Seq<ZipEntry>,
    k: int,
    end: Seq<char>,
    root: Seq<char>,
    path: Seq<char>,
)
    requires
        0 <= k < entries.len(),
        unpacks(entries[k]),
        entries[k].name@.len() > 0,
        paths::plain_base(root),
        paths::joined(root, entries[k].name@, path),
    ensures
        !separator(entries[k].name@[0]),
        !paths::on_drive(entries[k].name@),
        !parts(entries[k].name@).contains(".."@),
        root.is_prefix_of(path),
        path.len() > root.len(),
        forall|i: int|
            0 <= i < named(entries, end).len() ==> exists|m: int|
                0 <= m < entries.len() && #[trigger] unpacks(entries[m]) && entries[m].name@ == (
                #[trigger] named(entries, end)[i]),
{
    broadcast use vstd::seq_lib::group_filter_ensures;

    assert(root.is_prefix_of(path));
    let kept = entries.filter(has_ending(end));
    assert forall|i: int| 0 <= i < named(entries, end).len() implies exists|m: int|
        0 <= m < entries.len() && #[trigger] unpacks(entries[m]) && entries[m].name@ == (
        #[trigger] named(entries, end)[i]) by {
        assert(has_ending(end)(kept[i]));
        let m = seqs::lemma_filter_source(entries, has_ending(end), i);
        assert(unpacks(entries[m]) && entries[m].name@ == named(entries, end)[i]);
    }
}

/// A difficulty is found by its own name, whatever others hold that name in theirs.
pub proof fn law_own_name_is_found(diffs: Seq<Seq<char>>, i: int)
    requires
        0 <= i < diffs.len(),
        diffs[i].len() > 0,
        forall|j: int|
            0 <= j < i ==> text::unicode_lower(#[trigger] diffs[j]) != text::unicode_lower(diffs[i]),
    ensures
        picked(diffs, Some(diffs[i])) == Pick::At(i),
{
    let p = bears(diffs, diffs[i]);
    assert(p(i));
    assert(seqs::is_least(diffs.len() as int, p, i));
    seqs::lemma_least_found(diffs.len() as int, p, i);
}

// ---------- what these say ----------

/// One more text comes behind the others with the separator before it; a single one stands alone.
pub proof fn law_texts_are_joined_one_by_one(parts: Seq<Seq<char>>, p: Seq<char>, sep: Seq<char>)
    ensures
        joined_by(Seq::empty(), sep).len() == 0,
        joined_by(seq![p], sep) == p,
        parts.len() > 0 ==> joined_by(parts.push(p), sep) == joined_by(parts, sep) + sep + p,
{
    assert(parts.push(p).drop_last() =~= parts);
}

/// What the user is told names the path, the reason, or what was asked for and what there is.
pub proof fn law_problems_are_told(path: String, reason: String, diffs: Vec<String>)
    ensures
        (Problem::Missing { path }).says() == "解析 "@ + path@ + ": 文件不存在: "@ + path@,
        (Problem::Unreadable { path, reason }).says() == "解析 "@ + path@ + ": "@ + reason@,
        (Problem::Empty { path }).says() == "解析 "@ + path@ + ": "@ + path@
            + " 中未找到 .osb/.osu 文件"@,
        Problem::Unplayable.says() == "播放模式需要 .osz / .osu(纯 .osb 没有可游玩内容)"@,
        (Problem::NoDiff { want: path, diffs }).says() == "未找到难度 “"@ + path@ + "”,可用难度: "@
            + joined_by(text::views(diffs@), " / "@),
        (Problem::ManyDiffs { want: path }).says() == "难度 “"@ + path@
            + "” 匹配到多个文件,请用更长的名称"@,
{
}

/// A name has the part behind its last separator, of either kind, and the parts before it.
pub proof fn law_parts_of_a_name(dir: Seq<char>, part: Seq<char>)
    requires
        forall|i: int| 0 <= i < part.len() ==> #[trigger] part[i] != '/' && part[i] != '\\',
    ensures
        parts(part) == seq![part],
        parts(dir.push('/') + part) == parts(dir).push(part),
        parts(dir.push('\\') + part) == parts(dir).push(part),
{
    let flat = text::replaced(dir, '\\', '/');
    assert(text::replaced(part, '\\', '/') =~= part);
    assert(text::replaced(dir.push('/') + part, '\\', '/') =~= flat.push('/') + part);
    assert(text::replaced(dir.push('\\') + part, '\\', '/') =~= flat.push('/') + part);
    text::law_split_at_each_separator(flat, '/', part, text::is_char('/'));
}

/// A name that leads up, begins with a separator or with a drive is not unpacked, nor is a
/// directory; a plain name is.
pub proof fn law_what_is_unpacked(e: ZipEntry, dir: Seq<char>)
    ensures
        e.is_dir ==> !unpacks(e),
        e.name@ == ".."@ || e.name@ == dir.push('/') + ".."@ || e.name@ == dir.push('\\') + ".."@
            ==> !unpacks(e),
        e.name@.len() > 0 && (e.name@[0] == '/' || e.name@[0] == '\\') ==> !unpacks(e),
        e.name@.len() > 1 && e.name@[1] == ':' && ('a' <= e.name@[0] <= 'z' || 'A' <= e.name@[0]
            <= 'Z') ==> !unpacks(e),
        !e.is_dir && e.name@ != ".."@ && (forall|i: int|
            0 <= i < e.name@.len() ==> #[trigger] e.name@[i] != '/' && e.name@[i] != '\\' && e.name@[i]
                != ':') ==> unpacks(e),
{
    reveal_strlit("..");
    let up = ".."@;
    assert(up[0] == '.' && up[1] == '.' && up.len() == 2);
    law_parts_of_a_name(dir, up);
    let all = parts(dir).push(up);
    assert(all[all.len() - 1] == up);
    assert(seq![up][0] == up);
    if forall|i: int|
        0 <= i < e.name@.len() ==> #[trigger] e.name@[i] != '/' && e.name@[i] != '\\' && e.name@[i]
            != ':' {
        law_parts_of_a_name(dir, e.name@);
    }
}

/// The entries of an ending are listed in the order of the archive: one more that is unpacked and
/// has the ending comes last, and any other is left out.
pub proof fn law_entries_are_listed_in_order(entries: Seq<ZipEntry>, e: ZipEntry, end: Seq<char>)
    ensures
        named(Seq::empty(), end).len() == 0,
        unpacks(e) && text::ends(text::unicode_lower(e.name@), end) ==> named(entries.push(e), end)
            == named(entries, end).push(e.name@),
        !(unpacks(e) && text::ends(text::unicode_lower(e.name@), end)) ==> named(entries.push(e), end)
            == named(entries, end),
{
    reveal(Seq::filter);
    let n = entries.len() as int;
    lemma_named_grows(entries.push(e), n, end);
    assert(entries.push(e).take(n) =~= entries);
    assert(entries.push(e).take(n + 1) =~= entries.push(e));
    assert(named(Seq::<ZipEntry>::empty(), end) =~= Seq::<Seq<char>>::empty());
}

/// An archive with beatmaps gives them all, and begins with the first; one without gives its first
/// storyboard, and one with neither gives nothing.
pub proof fn law_archive_gives_its_beatmaps(
    path: Seq<char>,
    root: String,
    entries: Seq<ZipEntry>,
    r: Result<BeatmapInput, Problem>,
)
    requires
        is_archive_input(path, root, entries, r),
    ensures
        named(entries, ".osu"@).len() > 0 ==> r is Ok && !r->Ok_0.is_osb && text::views(
            r->Ok_0.diffs@,
        ) == named(entries, ".osu"@) && paths::joined(
            root@,
            named(entries, ".osu"@)[0],
            r->Ok_0.input@,
        ) && r->Ok_0.root == root,
        named(entries, ".osu"@).len() == 0 && named(entries, ".osb"@).len() > 0 ==> r is Ok
            && r->Ok_0.is_osb && r->Ok_0.diffs@.len() == 0 && paths::joined(
            root@,
            named(entries, ".osb"@)[0],
            r->Ok_0.input@,
        ),
        named(entries, ".osu"@).len() == 0 && named(entries, ".osb"@).len() == 0 ==> r is Err
            && r->Err_0 is Empty && r->Err_0->Empty_path@ == path,
{
    if r is Ok {
        assert(text::views(r->Ok_0.diffs@).len() == r->Ok_0.diffs@.len());
    }
}

/// A file that is no archive is played as it is: it lies in its parent, or here where it has none,
/// and is a storyboard if its extension says so, in capitals or not. What is missing or cannot be
/// read is told, with the path.
pub proof fn law_file_is_played_as_it_is(
    path: Seq<char>,
    ext: Option<Seq<char>>,
    dir: Seq<char>,
    reason: String,
    r: Result<BeatmapInput, Problem>,
)
    ensures
        is_resolved(path, ext, Some(dir), Source::File, r) ==> r is Ok && r->Ok_0.input@ == path
            && r->Ok_0.diffs@.len() == 0 && (r->Ok_0.is_osb <==> (ext matches Some(e) && text::lowered(e)
            == "osb"@)) && (dir.len() > 0 ==> r->Ok_0.root@ == dir) && (dir.len() == 0
            ==> r->Ok_0.root@ == "."@),
        is_resolved(path, ext, None, Source::File, r) ==> r is Ok && r->Ok_0.root@ == "."@,
        is_resolved(path, ext, Some(dir), Source::Missing, r) ==> r is Err && r->Err_0 is Missing
            && r->Err_0->Missing_path@ == path,
        is_resolved(path, ext, Some(dir), Source::Unreadable { reason }, r) ==> r is Err
            && r->Err_0 is Unreadable && r->Err_0->Unreadable_path@ == path && r->Err_0->reason@
            == reason@,
{
    reveal_strlit("osb");
    assert("osb"@.len() == 3);
}

/// An archive is read as one if its extension says so, in capitals or not.
pub proof fn law_archive_by_its_extension(
    path: Seq<char>,
    ext: Seq<char>,
    dir: Option<Seq<char>>,
    root: String,
    entries: Vec<ZipEntry>,
    r: Result<BeatmapInput, Problem>,
)
    ensures
        text::lowered(ext) == "osz"@ ==> (is_resolved(
            path,
            Some(ext),
            dir,
            Source::Archive { root, entries },
            r,
        ) <==> is_archive_input(path, root, entries@, r)),
        text::lowered(ext) != "osz"@ ==> (is_resolved(
            path,
            Some(ext),
            dir,
            Source::Archive { root, entries },
            r,
        ) <==> is_resolved(path, Some(ext), dir, Source::File, r)),
{
}

/// An archive is unpacked into a directory named by sixteen hexadecimal digits, which stand for the
/// number of its path: archives with other numbers get other directories.
pub proof fn law_archives_are_unpacked_apart(temp: Seq<char>, h: u64, k: u64, dir: Seq<char>)
    ensures
        is_unpack_dir(temp, h, dir) <==> paths::joined_twice(temp, "aria"@, text::hex(h as nat, 16), dir),
        text::hex(h as nat, 16).len() == 16,
        text::number(text::hex(h as nat, 16), 16) == h,
        h != k ==> text::hex(h as nat, 16) != text::hex(k as nat, 16),
{
    assert(text::sixteens(16) == 0x1_0000_0000_0000_0000) by {
        reveal_with_fuel(text::sixteens, 17);
    }
    text::law_hex_reads_back(h as nat, 16);
    text::law_hex_reads_back(k as nat, 16);
}

/// Without a name the first difficulty is meant. A part of a name means the only difficulty that
/// has it; two that have it leave it open, and none is told. Where there is no difficulty nothing is
/// picked.
pub proof fn law_difficulty_is_meant_by_its_name(
    diffs: Seq<Seq<char>>,
    want: Seq<char>,
    i: int,
    j: int,
)
    requires
        want.len() > 0,
        diffs.len() > 0,
        forall|k: int|
            0 <= k < diffs.len() ==> text::unicode_lower(#[trigger] diffs[k]) != text::unicode_lower(want),
    ensures
        picked(diffs, None) == Pick::At(0),
        picked(diffs, Some(Seq::empty())) == Pick::At(0),
        picked(Seq::empty(), Some(want)) == Pick::Nothing,
        0 <= i < diffs.len() && text::contains(
            text::unicode_lower(diffs[i]),
            text::unicode_lower(want),
        ) && (forall|k: int|
            0 <= k < diffs.len() && k != i ==> !text::contains(
                text::unicode_lower(#[trigger] diffs[k]),
                text::unicode_lower(want),
            )) ==> picked(diffs, Some(want)) == Pick::At(i),
        0 <= i < j < diffs.len() && text::contains(
            text::unicode_lower(diffs[i]),
            text::unicode_lower(want),
        ) && text::contains(text::unicode_lower(diffs[j]), text::unicode_lower(want)) ==> picked(
            diffs,
            Some(want),
        ) == Pick::Ambiguous,
        (forall|k: int|
            0 <= k < diffs.len() ==> !text::contains(
                text::unicode_lower(#[trigger] diffs[k]),
                text::unicode_lower(want),
            )) ==> picked(diffs, Some(want)) == Pick::Unknown,
{
    let n = diffs.len() as int;
    let b = bears(diffs, want);
    let p = holds(diffs, want);
    assert forall|k: int| 0 <= k < n implies !#[trigger] b(k) by {
        assert(text::unicode_lower(diffs[k]) != text::unicode_lower(want));
    }
    seqs::lemma_least_missing(n, b);
    if 0 <= i < n && text::contains(text::unicode_lower(diffs[i]), text::unicode_lower(want)) {
        assert(p(i));
        seqs::lemma_least_exists(n, p, i);
        if forall|k: int|
            0 <= k < n && k != i ==> !text::contains(
                text::unicode_lower(#[trigger] diffs[k]),
                text::unicode_lower(want),
            ) {
            assert forall|k: int| 0 <= k < n && k != i implies !#[trigger] p(k) by {
                assert(!text::contains(text::unicode_lower(diffs[k]), text::unicode_lower(want)));
            }
            seqs::lemma_least_found(n, p, i);
            assert(!second(n, p));
        }
        if i < j < n && text::contains(text::unicode_lower(diffs[j]), text::unicode_lower(want)) {
            assert(p(i) && p(j));
            assert(second(n, p));
        }
    }
    if forall|k: int|
        0 <= k < n ==> !text::contains(
            text::unicode_lower(#[trigger] diffs[k]),
            text::unicode_lower(want),
        ) {
        assert forall|k: int| 0 <= k < n implies !#[trigger] p(k) by {
            assert(!text::contains(text::unicode_lower(diffs[k]), text::unicode_lower(want)));
        }
        seqs::lemma_least_missing(n, p);
    }
}

/// What is played is the difficulty that is meant, below the directory of the input; an input
/// without difficulties is played as it is, and a storyboard alone cannot be.
pub proof fn law_meant_difficulty_is_played(
    b: BeatmapInput,
    diff: Option<Seq<char>>,
    r: Result<LoadedWall, Problem>,
)
    requires
        is_loaded(b, diff, r),
    ensures
        b.is_osb ==> r is Err && r->Err_0 is Unplayable,
        !b.is_osb && b.diffs@.len() == 0 ==> r is Ok && r->Ok_0.diff is None && r->Ok_0.map_path@
            == b.input@,
        !b.is_osb && b.diffs@.len() > 0 && diff is None ==> r is Ok && r->Ok_0.diff is Some
            && r->Ok_0.diff->0@ == b.diffs@[0]@ && paths::joined(
            b.root@,
            b.diffs@[0]@,
            r->Ok_0.map_path@,
        ),
        r is Ok && r->Ok_0.diff is Some ==> paths::joined(
            b.root@,
            r->Ok_0.diff->0@,
            r->Ok_0.map_path@,
        ),
{
    assert(text::views(b.diffs@).len() == b.diffs@.len());
}

/// A file is written unless one of its size is there.
pub proof fn law_file_is_written_once(size: u64, other: u64)
    ensures
        !unwritten(Some(size), size),
        size != other ==> unwritten(Some(other), size),
        unwritten(None, size),
{
}

/// The answer is the difficulty that is meant, nothing where there is none to pick from, and else
/// says what was asked for.
pub proof fn law_answer_is_the_one_meant(
    diffs: Seq<String>,
    want: Seq<char>,
    r: Result<Option<String>, Problem>,
)
    requires
        is_answer(diffs, Some(want), r),
    ensures
        diffs.len() == 0 ==> r is Ok && r->Ok_0 is None,
        picked(text::views(diffs), Some(want)) matches Pick::At(i) ==> r is Ok && r->Ok_0 is Some
            && r->Ok_0->0@ == diffs[i]@,
        picked(text::views(diffs), Some(want)) == Pick::Unknown ==> r is Err && r->Err_0 is NoDiff
            && r->Err_0->NoDiff_want@ == want && text::views(r->Err_0->diffs@) == text::views(diffs),
        picked(text::views(diffs), Some(want)) == Pick::Ambiguous ==> r is Err
            && r->Err_0 is ManyDiffs && r->Err_0->ManyDiffs_want@ == want,
{
    assert(text::views(diffs).len() == diffs.len());
}

} // verus!
