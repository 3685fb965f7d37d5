//! The skins to choose from: those of osu!lazer, and what lies in the directories for skins.
use vstd::prelude::*;

use crate::lazer::LazerSkin;
use crate::sorting;
use crate::text;

verus! {

/// A skin to choose.
#[derive(Debug)]
pub struct SkinChoice {
    pub name: String,
    /// What is stored of it.
    pub path: String,
    /// "lazer" or "stable".
    pub source: String,
}

#[verifier::ext_equal]
pub struct ChoiceView {
    pub name: Seq<char>,
    pub path: Seq<char>,
    pub source: Seq<char>,
}

impl View for SkinChoice {
    type V = ChoiceView;

    open spec fn view(&self) -> ChoiceView {
        ChoiceView { name: self.name@, path: self.path@, source: self.source@ }
    }
}

pub open spec fn choice_views(v: Seq<SkinChoice>) -> Seq<ChoiceView> {
    v.map_values(|c: SkinChoice| c@)
}

/// Something in a directory.
#[derive(Debug)]
pub struct DirEntry {
    pub name: String,
    pub path: String,
    pub is_dir: bool,
}

/// The sign for kelvin: the one character that is no ASCII letter and has one of the letters of
/// `.osk` for its lower case.
pub const KELVIN: char = '\u{212A}';

/// The name of a file with every character that can stand for one of `.osk` in lower case, each in
/// its place.
pub open spec fn folded(file: Seq<char>) -> Seq<char> {
    text::lowered(text::replaced(file, KELVIN, 'k'))
}

/// `name` is what stands before the first `.osk` in the name of a file, in capitals or not, and is
/// not empty.
pub open spec fn is_osk_name(file: Seq<char>, name: Seq<char>) -> bool {
    exists|i: int| #[trigger]
        text::first_at(folded(file), ".osk"@, i) && i > 0 && name == file.take(i)
}

/// The name of the skin in an archive. A file without `.osk`, or with nothing before it, is none.
pub fn osk_name(file: &str) -> (r: Option<String>)
    ensures
        match r {
            Some(name) => is_osk_name(file@, name@),
            None => forall|name: Seq<char>| !#[trigger] is_osk_name(file@, name),
        },
{
    let lower: String = text::to_ascii_lowercase(text::replace_char(file, KELVIN, 'k').as_str());
    assert(lower@ == folded(file@));
    match text::find_str(lower.as_str(), ".osk") {
        None => {
            assert forall|name: Seq<char>| !#[trigger] is_osk_name(file@, name) by {
                if is_osk_name(file@, name) {
                    let i = choose|i: int| #[trigger]
                        text::first_at(lower@, ".osk"@, i) && i > 0 && name == file@.take(i);
                    assert(text::stands_at(lower@, ".osk"@, i));
                }
            }
            None
        },
        Some(at) => {
            assert(text::first_at(lower@, ".osk"@, at as int));
            assert forall|i: int| #[trigger] text::first_at(lower@, ".osk"@, i) implies i == at by {
                assert(text::stands_at(lower@, ".osk"@, i));
                assert(text::stands_at(lower@, ".osk"@, at as int));
            }
            if at == 0 {
                return None;
            }
            let v: Vec<char> = text::chars_of(file);
            let name: String = text::string_of(&v, 0, at);
            assert(name@ =~= file@.take(at as int));
            Some(name)
        },
    }
}

/// An archive names one skin only.
pub proof fn law_osk_name_is_one(file: Seq<char>, a: Seq<char>, b: Seq<char>)
    requires
        is_osk_name(file, a),
        is_osk_name(file, b),
    ensures
        a == b,
{
    let low = folded(file);
    let i = choose|i: int| #[trigger]
        text::first_at(low, ".osk"@, i) && i > 0 && a == file.take(i);
    let k = choose|k: int| #[trigger]
        text::first_at(low, ".osk"@, k) && k > 0 && b == file.take(k);
    assert(text::stands_at(low, ".osk"@, i) && text::stands_at(low, ".osk"@, k));
}

/// What an entry of a directory for skins offers: a directory is a skin, and an archive holds one.
pub open spec fn is_offer(e: DirEntry, source: Seq<char>, c: ChoiceView) -> bool {
    &&& e.name@.len() > 0
    &&& c.path == e.path@
    &&& c.source == source
    &&& if e.is_dir {
        c.name == e.name@
    } else {
        is_osk_name(e.name@, c.name)
    }
}

pub open spec fn offers(e: DirEntry) -> bool {
    e.name@.len() > 0 && (e.is_dir || exists|name: Seq<char>| is_osk_name(e.name@, name))
}

/// The offers of a directory, in its order.
pub open spec fn are_offers(entries: Seq<DirEntry>, source: Seq<char>, out: Seq<ChoiceView>) -> bool
    decreases entries.len(),
{
    if entries.len() == 0 {
        out.len() == 0
    } else if offers(entries.last()) {
        out.len() > 0 && is_offer(entries.last(), source, out.last()) && are_offers(
            entries.drop_last(),
            source,
            out.drop_last(),
        )
    } else {
        are_offers(entries.drop_last(), source, out)
    }
}

pub fn list_skin_dir(entries: &Vec<DirEntry>, source: &str) -> (r: Vec<SkinChoice>)
    ensures
        are_offers(entries@, source@, choice_views(r@)),
{
    let mut r: Vec<SkinChoice> = Vec::new();
    let mut i: usize = 0;
    assert(entries@.take(0).len() == 0);
    while i < entries.len()
        invariant
            i <= entries@.len(),
            are_offers(entries@.take(i as int), source@, choice_views(r@)),
        decreases entries.len() - i,
    {
        let e: &DirEntry = &entries[i];
        let ghost before = r@;
        assert(entries@.take(i + 1).drop_last() =~= entries@.take(i as int));
        if text::chars_of(e.name.as_str()).len() > 0 {
            let name: Option<String> = if e.is_dir {
                Some(e.name.clone())
            } else {
                osk_name(e.name.as_str())
            };
            if let Some(name) = name {
                r.push(SkinChoice { name, path: e.path.clone(), source: text::owned(source) });
                assert(choice_views(r@).drop_last() =~= choice_views(before));
                assert(is_offer(*e, source@, choice_views(r@).last()));
            }
        }
        i = i + 1;
    }
    assert(entries@.take(entries@.len() as int) =~= entries@);
    r
}

/// What an installed skin of osu!lazer offers: its name with who made it, by its id.
pub open spec fn realm_choice(s: LazerSkin) -> ChoiceView {
    ChoiceView {
        name: if s.creator@.len() == 0 {
            s.name@
        } else {
            s.name@ + " ("@ + s.creator@ + ")"@
        },
        path: "realm:skin:"@ + s.id@,
        source: "lazer"@,
    }
}

pub open spec fn realm_choices(skins: Seq<LazerSkin>) -> Seq<ChoiceView> {
    skins.map_values(|s: LazerSkin| realm_choice(s))
}

fn list_realm(skins: &Vec<LazerSkin>) -> (r: Vec<SkinChoice>)
    ensures
        choice_views(r@) == realm_choices(skins@),
{
    let mut r: Vec<SkinChoice> = Vec::new();
    let mut i: usize = 0;
    while i < skins.len()
        invariant
            i <= skins@.len(),
            choice_views(r@) == realm_choices(skins@.take(i as int)),
        decreases skins.len() - i,
    {
        let s: &LazerSkin = &skins[i];
        let ghost before = choice_views(r@);
        let name: String = if text::chars_of(s.creator.as_str()).len() == 0 {
            s.name.clone()
        } else {
            s.name.clone().concat(" (").concat(s.creator.as_str()).concat(")")
        };
        let c = SkinChoice {
            name,
            path: text::owned("realm:skin:").concat(s.id.as_str()),
            source: text::owned("lazer"),
        };
        assert(c@ =~= realm_choice(*s));
        r.push(c);
        assert(choice_views(r@) =~= before.push(realm_choice(*s)));
        assert(realm_choices(skins@.take(i + 1)) =~= realm_choices(skins@.take(i as int)).push(
            realm_choice(*s),
        ));
        i = i + 1;
    }
    assert(skins@.take(skins@.len() as int) =~= skins@);
    r
}

/// Skins are sorted by name, whatever the case.
pub open spec fn choice_key() -> spec_fn(ChoiceView) -> Seq<char> {
    |c: ChoiceView| text::unicode_lower(c.name)
}

fn sort_choices(v: Vec<SkinChoice>) -> (r: Vec<SkinChoice>)
    ensures
        sorting::is_stable_sort(choice_views(v@), choice_key(), choice_views(r@)),
{
    let ghost all = choice_views(v@);
    let mut r: Vec<SkinChoice> = Vec::new();
    let mut keys: Vec<String> = Vec::new();
    proof {
        sorting::lemma_sort_empty(choice_key());
        assert(choice_views(r@) =~= Seq::<ChoiceView>::empty());
        assert(all.take(0) =~= Seq::<ChoiceView>::empty());
        assert(text::views(keys@) =~= choice_views(r@).map_values(choice_key()));
    }
    let ghost given = v@;
    for c in it: v.into_iter()
        invariant
            it.seq() == given,
            all == choice_views(given),
            sorting::is_stable_sort(all.take(it.index() as int), choice_key(), choice_views(r@)),
            text::views(keys@) == choice_views(r@).map_values(choice_key()),
    {
        let ghost i = it.index() as int;
        let ghost before = choice_views(r@);
        let ghost kb = text::views(keys@);
        let ghost cv = c@;
        let key: String = c.name.as_str().to_lowercase();
        let k: usize = sorting::insertion_point(&keys, key.as_str());
        proof {
            sorting::lemma_insert(all.take(i), choice_key(), before, cv, k as int);
            assert(all.take(i + 1) =~= all.take(i).push(cv));
        }
        r.insert(k, c);
        keys.insert(k, key);
        assert(choice_views(r@) =~= before.insert(k as int, cv));
        assert(text::views(keys@) =~= kb.insert(k as int, key@));
        assert(text::views(keys@) =~= choice_views(r@).map_values(choice_key()));
    }
    assert(all.take(all.len() as int) =~= all);
    r
}

/// The skins to choose from: those of osu!lazer first, each part sorted by name. The installed ones
/// come before those in its directory of the same name.
pub open spec fn is_skin_list(
    installed: Seq<LazerSkin>,
    lazer: Seq<DirEntry>,
    stable: Seq<DirEntry>,
    out: Seq<ChoiceView>,
) -> bool {
    exists|found: Seq<ChoiceView>, old_found: Seq<ChoiceView>, n: int|
        #![trigger realm_choices(installed) + found, out.take(n), are_offers(stable, "stable"@, old_found)]
        {
            &&& are_offers(lazer, "lazer"@, found)
            &&& are_offers(stable, "stable"@, old_found)
            &&& 0 <= n <= out.len()
            &&& sorting::is_stable_sort(realm_choices(installed) + found, choice_key(), out.take(n))
            &&& sorting::is_stable_sort(old_found, choice_key(), out.skip(n))
        }
}

pub fn skin_list(installed: &Vec<LazerSkin>, lazer: &Vec<DirEntry>, stable: &Vec<DirEntry>) -> (r: Vec<
    SkinChoice,
>)
    ensures
        is_skin_list(installed@, lazer@, stable@, choice_views(r@)),
{
    let mut first: Vec<SkinChoice> = list_realm(installed);
    let mut found: Vec<SkinChoice> = list_skin_dir(lazer, "lazer");
    let ghost f = choice_views(found@);
    first.append(&mut found);
    assert(choice_views(first@) =~= realm_choices(installed@) + f);
    let other: Vec<SkinChoice> = list_skin_dir(stable, "stable");
    let ghost g = choice_views(other@);
    let mut r: Vec<SkinChoice> = sort_choices(first);
    let mut s: Vec<SkinChoice> = sort_choices(other);
    let ghost x = choice_views(r@);
    let ghost y = choice_views(s@);
    r.append(&mut s);
    assert(choice_views(r@).take(x.len() as int) =~= x);
    assert(choice_views(r@).skip(x.len() as int) =~= y);
    assert(are_offers(stable@, "stable"@, g));
    assert(sorting::is_stable_sort(
        realm_choices(installed@) + f,
        choice_key(),
        choice_views(r@).take(x.len() as int),
    ));
    r
}

/// What an archive names stands at its beginning, is not empty, and is followed by a dot and the
/// three letters, in capitals or not.
pub proof fn law_archive_begins_with_the_name(file: Seq<char>, name: Seq<char>)
    requires
        is_osk_name(file, name),
    ensures
        0 < name.len() <= file.len() - 4,
        name == file.take(name.len() as int),
        file[name.len() as int] == '.',
        file[name.len() as int + 1] == 'o' || file[name.len() as int + 1] == 'O',
        file[name.len() as int + 2] == 's' || file[name.len() as int + 2] == 'S',
        file[name.len() as int + 3] == 'k' || file[name.len() as int + 3] == 'K' || file[name.len() as int
            + 3] == '\u{212A}',
{
    reveal_strlit(".osk");
    let low = folded(file);
    let i = choose|i: int| #[trigger]
        text::first_at(low, ".osk"@, i) && i > 0 && name == file.take(i);
    assert(text::stands_at(low, ".osk"@, i));
    let four = low.subrange(i, i + 4);
    assert(four[0] == '.' && four[1] == 'o' && four[2] == 's' && four[3] == 'k');
    assert(low[i] == '.' && low[i + 1] == 'o' && low[i + 2] == 's' && low[i + 3] == 'k');
}

/// A name in small letters without a dot, followed by the ending, is what the archive names; an
/// ending with nothing before it names nothing.
pub proof fn law_plain_archive_has_its_name(name: Seq<char>, any: Seq<char>)
    requires
        forall|i: int| 0 <= i < name.len() ==> #[trigger] name[i] != '.',
        name.len() > 0,
    ensures
        is_osk_name(name + ".osk"@, name),
        is_osk_name(name + ".OSK"@, name),
        !is_osk_name(".osk"@, any),
        !is_osk_name(name, any),
{
    reveal_strlit(".osk");
    reveal_strlit(".OSK");
    let n = name.len() as int;
    assert forall|file: Seq<char>| file == name + ".osk"@ || file == name + ".OSK"@ implies #[trigger]
        is_osk_name(file, name) by {
        let low = folded(file);
        assert(low.subrange(n, n + 4) =~= ".osk"@);
        assert(text::stands_at(low, ".osk"@, n));
        assert forall|j: int| 0 <= j < n implies !#[trigger] text::stands_at(low, ".osk"@, j) by {
            if text::stands_at(low, ".osk"@, j) {
                assert(low.subrange(j, j + 4)[0] == '.');
                assert(name[j] != '.');
                assert(low[j] == '.');
            }
        }
        assert(text::first_at(low, ".osk"@, n));
        assert(file.take(n) =~= name);
    }
    if is_osk_name(".osk"@, any) {
        law_archive_begins_with_the_name(".osk"@, any);
    }
    if is_osk_name(name, any) {
        law_archive_begins_with_the_name(name, any);
        assert(name[any.len() as int] != '.');
    }
}

/// A directory with a name is offered under it, and an archive under the name that it holds, each
/// with where it lies and where it comes from.
pub proof fn law_offer_is_what_lies_there(e: DirEntry, source: Seq<char>, c: ChoiceView)
    requires
        is_offer(e, source, c),
    ensures
        offers(e),
        c.path == e.path@,
        c.source == source,
        e.is_dir ==> c.name == e.name@,
        !e.is_dir ==> is_osk_name(e.name@, c.name),
{
}

/// What is in a directory is offered piece by piece: one more that offers something adds one behind
/// the others, and one that offers nothing adds none.
pub proof fn law_offers_go_entry_by_entry(
    entries: Seq<DirEntry>,
    e: DirEntry,
    source: Seq<char>,
    out: Seq<ChoiceView>,
    c: ChoiceView,
)
    requires
        are_offers(entries, source, out),
    ensures
        are_offers(Seq::empty(), source, Seq::empty()),
        is_offer(e, source, c) ==> are_offers(entries.push(e), source, out.push(c)),
        e.name@.len() == 0 ==> are_offers(entries.push(e), source, out),
        !e.is_dir && (forall|name: Seq<char>| !#[trigger] is_osk_name(e.name@, name)) ==> are_offers(
            entries.push(e),
            source,
            out,
        ),
{
    assert(entries.push(e).drop_last() =~= entries);
    assert(out.push(c).drop_last() =~= out);
}

/// An installed skin is shown with who made it, where that is known, and is stored by its id.
pub proof fn law_installed_skin_is_stored_by_id(s: LazerSkin)
    ensures
        s.creator@.len() == 0 ==> realm_choice(s).name == s.name@,
        s.creator@.len() > 0 ==> realm_choice(s).name == s.name@ + " ("@ + s.creator@ + ")"@,
        realm_choice(s).path == "realm:skin:"@ + s.id@,
        realm_choice(s).source == "lazer"@,
{
}

/// What is shown of a choice is what it holds.
pub proof fn law_choice_shows_its_fields(c: SkinChoice)
    ensures
        c@.name == c.name@ && c@.path == c.path@ && c@.source == c.source@,
{
}

/// Every installed skin is listed.
pub proof fn law_installed_skins_are_listed(
    installed: Seq<LazerSkin>,
    lazer: Seq<DirEntry>,
    stable: Seq<DirEntry>,
    out: Seq<ChoiceView>,
    i: int,
)
    requires
        is_skin_list(installed, lazer, stable, out),
        0 <= i < installed.len(),
    ensures
        out.contains(realm_choice(installed[i])),
{
    let (found, old_found, n) = choose|found: Seq<ChoiceView>, old_found: Seq<ChoiceView>, n: int|
        #![trigger realm_choices(installed) + found, out.take(n), are_offers(stable, "stable"@, old_found)]
        {
            &&& are_offers(lazer, "lazer"@, found)
            &&& are_offers(stable, "stable"@, old_found)
            &&& 0 <= n <= out.len()
            &&& sorting::is_stable_sort(realm_choices(installed) + found, choice_key(), out.take(n))
            &&& sorting::is_stable_sort(old_found, choice_key(), out.skip(n))
        };
    let all = realm_choices(installed) + found;
    let c = realm_choice(installed[i]);
    sorting::law_sorting_keeps_the_items(all, choice_key(), out.take(n), 0, 0);
    assert(all[i] == c);
    all.to_multiset_ensures();
    out.take(n).to_multiset_ensures();
    assert(all.contains(c));
    assert(all.to_multiset().count(c) > 0);
    assert(out.take(n).to_multiset().count(c) > 0);
    assert(out.take(n).contains(c));
    let k = choose|k: int| 0 <= k < out.take(n).len() && out.take(n)[k] == c;
    assert(out[k] == c);
}

/// Skins are ordered by their names in small letters.
pub proof fn law_skins_are_ordered_by_name(c: ChoiceView)
    ensures
        choice_key()(c) == text::unicode_lower(c.name),
{
}

} // verus!
