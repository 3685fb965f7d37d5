//! Strings as sequences of characters: the searches and rewrites that the player makes on names,
//! paths and tags.
use vstd::prelude::*;

verus! {

/// `String::push`: the character comes behind those that are there.
pub assume_specification[ String::push ](s: &mut String, c: char)
    ensures
        final(s)@ == old(s)@.push(c),
;

/// What `str::to_lowercase` makes of the given characters: the lower case that Unicode gives them.
pub uninterp spec fn unicode_lower(s: Seq<char>) -> Seq<char>;

/// `str::to_lowercase`: the result depends on the characters of the string alone and is known
/// here by its name.
pub assume_specification[ str::to_lowercase ](s: &str) -> (r: String)
    ensures
        r@ == unicode_lower(s@),
;

/// An upper case ASCII letter becomes the lower case one; every other character stays.
pub open spec fn lower(c: char) -> char {
    if 'A' <= c && c <= 'Z' {
        ((c as u32 + 32) as u32) as char
    } else {
        c
    }
}

/// Every character in ASCII lower case.
pub open spec fn lowered(s: Seq<char>) -> Seq<char> {
    Seq::new(s.len(), |i: int| lower(s[i]))
}

/// `t` ends `s`.
pub open spec fn ends(s: Seq<char>, t: Seq<char>) -> bool {
    t.len() <= s.len() && s.skip(s.len() - t.len()) == t
}

/// `t` begins `s`.
pub open spec fn starts(s: Seq<char>, t: Seq<char>) -> bool {
    t.len() <= s.len() && s.take(t.len() as int) == t
}

/// `t` stands in `s` at `i`.
pub open spec fn stands_at(s: Seq<char>, t: Seq<char>, i: int) -> bool {
    0 <= i <= s.len() - t.len() && s.subrange(i, i + t.len()) == t
}

/// `t` stands somewhere in `s`.
pub open spec fn contains(s: Seq<char>, t: Seq<char>) -> bool {
    exists|i: int| stands_at(s, t, i)
}

/// Every `from` replaced by `to`.
pub open spec fn replaced(s: Seq<char>, from: char, to: char) -> Seq<char> {
    Seq::new(s.len(), |i: int| if s[i] == from { to } else { s[i] })
}

/// The characters that Unicode counts as white space.
pub open spec fn white(c: char) -> bool {
    ||| '\u{9}' <= c && c <= '\u{d}'
    ||| c == ' '
    ||| c == '\u{85}'
    ||| c == '\u{a0}'
    ||| c == '\u{1680}'
    ||| '\u{2000}' <= c && c <= '\u{200a}'
    ||| c == '\u{2028}'
    ||| c == '\u{2029}'
    ||| c == '\u{202f}'
    ||| c == '\u{205f}'
    ||| c == '\u{3000}'
}

/// All that is rejected at the ends of `s` lies outside `lo .. hi`.
pub open spec fn trims(s: Seq<char>, out: spec_fn(char) -> bool, lo: int, hi: int) -> bool {
    &&& 0 <= lo <= hi <= s.len()
    &&& forall|i: int| 0 <= i < lo ==> out(#[trigger] s[i])
    &&& forall|i: int| hi <= i < s.len() ==> out(#[trigger] s[i])
    &&& lo < hi ==> !out(s[lo]) && !out(s[hi - 1])
}

/// `s` without the characters at its ends that `out` rejects.
pub open spec fn trimmed_of(s: Seq<char>, out: spec_fn(char) -> bool) -> Seq<char>
    decreases s.len(),
{
    if s.len() == 0 {
        s
    } else if out(s[0]) {
        trimmed_of(s.skip(1), out)
    } else if out(s.last()) {
        trimmed_of(s.drop_last(), out)
    } else {
        s
    }
}

/// `s` without white space at its ends.
pub open spec fn trimmed(s: Seq<char>) -> Seq<char> {
    trimmed_of(s, |c: char| white(c))
}

/// The property of being the given character.
pub open spec fn is_char(c: char) -> spec_fn(char) -> bool {
    |x: char| x == c
}

/// `s` without the given character at its ends.
pub open spec fn trimmed_char(s: Seq<char>, c: char) -> Seq<char> {
    trimmed_of(s, is_char(c))
}

/// The pieces between the separators: one more than there are separators.
pub open spec fn split(s: Seq<char>, sep: spec_fn(char) -> bool) -> Seq<Seq<char>>
    decreases s.len(),
{
    if s.len() == 0 {
        seq![Seq::<char>::empty()]
    } else {
        let before = split(s.drop_last(), sep);
        if sep(s.last()) {
            before.push(Seq::<char>::empty())
        } else {
            before.update(before.len() - 1, before.last().push(s.last()))
        }
    }
}

/// A split has at least one piece.
pub proof fn lemma_split_nonempty(s: Seq<char>, sep: spec_fn(char) -> bool)
    ensures
        split(s, sep).len() >= 1,
    decreases s.len(),
{
    if s.len() > 0 {
        lemma_split_nonempty(s.drop_last(), sep);
    }
}

/// The decimal digits of a number, without leading zeros.
pub open spec fn decimal(n: nat) -> Seq<char>
    decreases n,
{
    if n < 10 {
        seq![digit(n)]
    } else {
        decimal(n / 10).push(digit(n % 10))
    }
}

/// The digit for a number below sixteen, in lower case.
pub open spec fn digit(n: nat) -> char {
    if n < 10 {
        ((0x30 + n) as u32) as char
    } else {
        ((0x57 + n) as u32) as char
    }
}

/// `width` hexadecimal digits of a number, the highest first.
pub open spec fn hex(n: nat, width: nat) -> Seq<char>
    decreases width,
{
    if width == 0 {
        Seq::empty()
    } else {
        hex(n / 16, (width - 1) as nat).push(digit(n % 16))
    }
}

/// The decimal digits of a number, with zeros in front of them where they are fewer than `width`.
pub open spec fn zero_padded(n: nat, width: nat) -> Seq<char>
    decreases n + width,
{
    if n < 10 && width <= 1 {
        seq![digit(n)]
    } else {
        zero_padded(n / 10, if width == 0 {
            0
        } else {
            (width - 1) as nat
        }).push(digit(n % 10))
    }
}

/// The characters of a string.
pub fn chars_of(s: &str) -> (v: Vec<char>)
    ensures
        v@ == s@,
{
    let mut v: Vec<char> = Vec::new();
    for c in it: s.chars()
        invariant
            v@ == it.seq().take(it.index()),
            it.seq() == s@,
    {
        v.push(c);
    }
    v
}

/// The string that `from .. to` of the characters make.
pub fn string_of(v: &Vec<char>, from: usize, to: usize) -> (s: String)
    requires
        from <= to <= v@.len(),
    ensures
        s@ == v@.subrange(from as int, to as int),
{
    let mut s: String = String::new();
    let mut i: usize = from;
    while i < to
        invariant
            from <= i <= to <= v@.len(),
            s@ == v@.subrange(from as int, i as int),
        decreases to - i,
    {
        s.push(v[i]);
        i = i + 1;
    }
    s
}

/// A string of its own with the same characters.
pub fn owned(s: &str) -> (r: String)
    ensures
        r@ == s@,
{
    s.to_owned()
}

pub fn lower_char(c: char) -> (r: char)
    ensures
        r == lower(c),
{
    if 'A' <= c && c <= 'Z' {
        ((c as u8) + 32) as char
    } else {
        c
    }
}

/// The two strings hold the same characters.
pub fn same(a: &str, b: &str) -> (r: bool)
    ensures
        r == (a@ == b@),
{
    let x: Vec<char> = chars_of(a);
    let y: Vec<char> = chars_of(b);
    if x.len() != y.len() {
        return false;
    }
    let mut i: usize = 0;
    while i < x.len()
        invariant
            i <= x@.len() == y@.len(),
            x@ == a@,
            y@ == b@,
            forall|j: int| 0 <= j < i ==> x@[j] == y@[j],
        decreases x.len() - i,
    {
        if x[i] != y[i] {
            return false;
        }
        i = i + 1;
    }
    assert(a@ =~= b@);
    true
}

/// The string in ASCII lower case.
pub fn to_ascii_lowercase(s: &str) -> (r: String)
    ensures
        r@ == lowered(s@),
{
    let mut r: String = String::new();
    for c in it: s.chars()
        invariant
            it.seq() == s@,
            r@ == lowered(it.seq().take(it.index())),
    {
        r.push(lower_char(c));
        assert(r@ =~= lowered(it.seq().take(it.index() + 1)));
    }
    assert(s@.take(s@.len() as int) =~= s@);
    r
}

/// The two strings are equal but for the case of ASCII letters.
pub fn eq_ignore_ascii_case(a: &str, b: &str) -> (r: bool)
    ensures
        r == (lowered(a@) == lowered(b@)),
{
    same(to_ascii_lowercase(a).as_str(), to_ascii_lowercase(b).as_str())
}

pub fn ends_with(s: &str, t: &str) -> (r: bool)
    ensures
        r == ends(s@, t@),
{
    let x: Vec<char> = chars_of(s);
    let y: Vec<char> = chars_of(t);
    if y.len() > x.len() {
        return false;
    }
    let d: usize = x.len() - y.len();
    let mut i: usize = 0;
    while i < y.len()
        invariant
            i <= y@.len() <= x@.len(),
            d == x.len() - y.len(),
            x@ == s@,
            y@ == t@,
            forall|j: int| 0 <= j < i ==> x@[d + j] == y@[j],
        decreases y.len() - i,
    {
        if x[d + i] != y[i] {
            assert(s@.skip(s@.len() - t@.len())[i as int] != t@[i as int]);
            return false;
        }
        i = i + 1;
    }
    assert(s@.skip(s@.len() - t@.len()) =~= t@);
    true
}

pub fn starts_with(s: &str, t: &str) -> (r: bool)
    ensures
        r == starts(s@, t@),
{
    let x: Vec<char> = chars_of(s);
    let y: Vec<char> = chars_of(t);
    if y.len() > x.len() {
        return false;
    }
    let mut i: usize = 0;
    while i < y.len()
        invariant
            i <= y@.len() <= x@.len(),
            x@ == s@,
            y@ == t@,
            forall|j: int| 0 <= j < i ==> x@[j] == y@[j],
        decreases y.len() - i,
    {
        if x[i] != y[i] {
            assert(s@.take(t@.len() as int)[i as int] != t@[i as int]);
            return false;
        }
        i = i + 1;
    }
    assert(s@.take(t@.len() as int) =~= t@);
    true
}

/// What follows the given beginning of the string.
pub fn strip_prefix(s: &str, t: &str) -> (r: Option<String>)
    ensures
        match r {
            Some(rest) => starts(s@, t@) && rest@ == s@.skip(t@.len() as int),
            None => !starts(s@, t@),
        },
{
    if !starts_with(s, t) {
        return None;
    }
    let x: Vec<char> = chars_of(s);
    let n: usize = chars_of(t).len();
    let rest: String = string_of(&x, n, x.len());
    assert(rest@ =~= s@.skip(t@.len() as int));
    Some(rest)
}

fn matches_at(x: &Vec<char>, y: &Vec<char>, at: usize) -> (r: bool)
    requires
        at + y@.len() <= x@.len(),
    ensures
        r == stands_at(x@, y@, at as int),
{
    let mut i: usize = 0;
    while i < y.len()
        invariant
            i <= y@.len(),
            at + y.len() <= x.len(),
            forall|j: int| 0 <= j < i ==> x@[at + j] == y@[j],
        decreases y.len() - i,
    {
        if x[at + i] != y[i] {
            assert(x@.subrange(at as int, at + y@.len())[i as int] != y@[i as int]);
            return false;
        }
        i = i + 1;
    }
    assert(x@.subrange(at as int, at + y@.len()) =~= y@);
    true
}

/// The first place at which `t` stands in `s`.
pub open spec fn first_at(s: Seq<char>, t: Seq<char>, i: int) -> bool {
    stands_at(s, t, i) && forall|j: int| 0 <= j < i ==> !#[trigger] stands_at(s, t, j)
}

pub fn find_str(s: &str, t: &str) -> (r: Option<usize>)
    ensures
        match r {
            Some(i) => first_at(s@, t@, i as int),
            None => !contains(s@, t@),
        },
{
    let x: Vec<char> = chars_of(s);
    let y: Vec<char> = chars_of(t);
    if y.len() > x.len() {
        return None;
    }
    let mut i: usize = 0;
    while i <= x.len() - y.len()
        invariant
            y@.len() <= x@.len(),
            i <= x@.len() - y@.len() + 1,
            x@ == s@,
            y@ == t@,
            forall|j: int| 0 <= j < i ==> !#[trigger] stands_at(s@, t@, j),
        decreases x.len() - y.len() + 1 - i,
    {
        if matches_at(&x, &y, i) {
            return Some(i);
        }
        if i == x.len() - y.len() {
            return None;
        }
        i = i + 1;
    }
    None
}

/// `t` stands somewhere in `s`.
pub fn contains_str(s: &str, t: &str) -> (r: bool)
    ensures
        r == contains(s@, t@),
{
    find_str(s, t).is_some()
}

/// The string with every `from` replaced by `to`.
pub fn replace_char(s: &str, from: char, to: char) -> (r: String)
    ensures
        r@ == replaced(s@, from, to),
{
    let mut r: String = String::new();
    for c in it: s.chars()
        invariant
            it.seq() == s@,
            r@ == replaced(it.seq().take(it.index()), from, to),
    {
        if c == from {
            r.push(to);
        } else {
            r.push(c);
        }
        assert(r@ =~= replaced(it.seq().take(it.index() + 1), from, to));
    }
    assert(s@.take(s@.len() as int) =~= s@);
    r
}

fn is_white(c: char) -> (r: bool)
    ensures
        r == white(c),
{
    ('\u{9}' <= c && c <= '\u{d}') || c == ' ' || c == '\u{85}' || c == '\u{a0}' || c == '\u{1680}'
        || ('\u{2000}' <= c && c <= '\u{200a}') || c == '\u{2028}' || c == '\u{2029}' || c
        == '\u{202f}' || c == '\u{205f}' || c == '\u{3000}'
}

/// A trim takes nothing but rejected characters, and all of them.
proof fn lemma_trimmed_of(s: Seq<char>, out: spec_fn(char) -> bool, lo: int, hi: int)
    requires
        trims(s, out, lo, hi),
    ensures
        trimmed_of(s, out) == s.subrange(lo, hi),
    decreases s.len(),
{
    if s.len() == 0 {
        assert(s.subrange(lo, hi) =~= s);
    } else if out(s[0]) {
        let rest = s.skip(1);
        if lo == 0 {
            assert(hi == 0);
            assert(trims(rest, out, 0, 0));
            lemma_trimmed_of(rest, out, 0, 0);
            assert(rest.subrange(0, 0) =~= s.subrange(lo, hi));
        } else {
            assert(trims(rest, out, lo - 1, hi - 1));
            lemma_trimmed_of(rest, out, lo - 1, hi - 1);
            assert(rest.subrange(lo - 1, hi - 1) =~= s.subrange(lo, hi));
        }
    } else {
        assert(lo == 0);
        if out(s.last()) {
            let rest = s.drop_last();
            assert(hi < s.len());
            assert(hi > 0);
            assert(trims(rest, out, lo, hi));
            lemma_trimmed_of(rest, out, lo, hi);
            assert(rest.subrange(lo, hi) =~= s.subrange(lo, hi));
        } else {
            assert(hi == s.len());
            assert(s.subrange(lo, hi) =~= s);
        }
    }
}

/// The string without white space at its ends.
pub fn trim(s: &str) -> (r: String)
    ensures
        r@ == trimmed(s@),
{
    let x: Vec<char> = chars_of(s);
    let ghost out = |c: char| white(c);
    let mut lo: usize = 0;
    while lo < x.len() && is_white(x[lo])
        invariant
            lo <= x@.len(),
            forall|j: int| 0 <= j < lo ==> white(#[trigger] x@[j]),
        decreases x.len() - lo,
    {
        lo = lo + 1;
    }
    let mut hi: usize = x.len();
    while lo < hi && is_white(x[hi - 1])
        invariant
            lo <= hi <= x@.len(),
            forall|j: int| hi <= j < x@.len() ==> white(#[trigger] x@[j]),
        decreases hi - lo,
    {
        hi = hi - 1;
    }
    assert(trims(x@, out, lo as int, hi as int));
    proof {
        lemma_trimmed_of(x@, out, lo as int, hi as int);
    }
    string_of(&x, lo, hi)
}

/// The string without the given character at its ends.
pub fn trim_matches(s: &str, c: char) -> (r: String)
    ensures
        r@ == trimmed_char(s@, c),
{
    let v: Vec<char> = chars_of(s);
    let ghost out = is_char(c);
    let mut lo: usize = 0;
    while lo < v.len() && v[lo] == c
        invariant
            lo <= v@.len(),
            forall|j: int| 0 <= j < lo ==> #[trigger] v@[j] == c,
        decreases v.len() - lo,
    {
        lo = lo + 1;
    }
    let mut hi: usize = v.len();
    while lo < hi && v[hi - 1] == c
        invariant
            lo <= hi <= v@.len(),
            forall|j: int| hi <= j < v@.len() ==> #[trigger] v@[j] == c,
        decreases hi - lo,
    {
        hi = hi - 1;
    }
    assert(trims(v@, out, lo as int, hi as int));
    proof {
        lemma_trimmed_of(v@, out, lo as int, hi as int);
    }
    string_of(&v, lo, hi)
}

/// The views of the strings of a list.
pub open spec fn views(v: Seq<String>) -> Seq<Seq<char>> {
    Seq::new(v.len(), |i: int| v[i]@)
}

/// The pieces of the string between the occurrences of `sep`.
pub fn split_on(s: &str, sep: char) -> (r: Vec<String>)
    ensures
        views(r@) == split(s@, is_char(sep)),
        r@.len() >= 1,
{
    let ghost p = is_char(sep);
    let mut r: Vec<String> = Vec::new();
    let mut last: String = String::new();
    proof {
        assert(s@.take(0) =~= Seq::<char>::empty());
        assert(views(r@).push(last@) =~= split(s@.take(0), p));
    }
    for c in it: s.chars()
        invariant
            it.seq() == s@,
            p == is_char(sep),
            views(r@).push(last@) == split(it.seq().take(it.index()), p),
    {
        let ghost done = it.seq().take(it.index());
        let ghost more = it.seq().take(it.index() + 1);
        assert(more.drop_last() =~= done);
        assert(more.last() == c);
        let ghost before = views(r@);
        let ghost word = last@;
        if c == sep {
            r.push(last);
            assert(views(r@) =~= before.push(word));
            last = String::new();
            assert(views(r@).push(last@) =~= split(more, p));
        } else {
            last.push(c);
            assert(views(r@).push(last@) =~= split(more, p));
        }
    }
    assert(s@.take(s@.len() as int) =~= s@);
    let ghost before = views(r@);
    let ghost word = last@;
    r.push(last);
    assert(views(r@) =~= before.push(word));
    r
}

fn digit_char(n: u8) -> (c: char)
    requires
        n < 16,
    ensures
        c == digit(n as nat),
{
    if n < 10 {
        (0x30 + n) as char
    } else {
        (0x57 + n) as char
    }
}

/// The decimal digits of a number.
pub fn decimal_of(n: u64) -> (s: String)
    ensures
        s@ == decimal(n as nat),
    decreases n,
{
    if n < 10 {
        let mut s: String = String::new();
        s.push(digit_char(n as u8));
        assert(s@ =~= decimal(n as nat));
        s
    } else {
        let mut s: String = decimal_of(n / 10);
        s.push(digit_char((n % 10) as u8));
        s
    }
}

/// `width` hexadecimal digits of a number.
pub fn hex_of(n: u64, width: u8) -> (s: String)
    ensures
        s@ == hex(n as nat, width as nat),
    decreases width,
{
    if width == 0 {
        String::new()
    } else {
        let mut s: String = hex_of(n / 16, width - 1);
        s.push(digit_char((n % 16) as u8));
        s
    }
}

/// The decimal digits of a number, at least `width` of them.
pub fn zero_padded_of(n: u64, width: u8) -> (s: String)
    ensures
        s@ == zero_padded(n as nat, width as nat),
    decreases n + width,
{
    if n < 10 && width <= 1 {
        let mut s: String = String::new();
        s.push(digit_char(n as u8));
        assert(s@ =~= zero_padded(n as nat, width as nat));
        s
    } else {
        let rest: u8 = if width == 0 {
            0
        } else {
            width - 1
        };
        let mut s: String = zero_padded_of(n / 10, rest);
        s.push(digit_char((n % 10) as u8));
        s
    }
}

// ---------- what the texts say ----------

/// A letter from A to Z becomes the one 32 places behind it, and nothing else changes; a text keeps
/// its length and each character its place.
pub proof fn law_lower_case_moves_capitals(s: Seq<char>, i: int)
    requires
        0 <= i < s.len(),
    ensures
        lowered(s).len() == s.len(),
        0x41 <= s[i] as int <= 0x5A ==> lowered(s)[i] as int == s[i] as int + 32,
        !(0x41 <= s[i] as int <= 0x5A) ==> lowered(s)[i] == s[i],
        lowered(lowered(s)) == lowered(s),
{
    assert(lowered(lowered(s)) =~= lowered(s));
}

/// Replacing changes the one character to the other, in every place, and nothing else.
pub proof fn law_replaced_in_every_place(s: Seq<char>, from: char, to: char, i: int)
    requires
        0 <= i < s.len(),
    ensures
        replaced(s, from, to).len() == s.len(),
        s[i] == from ==> replaced(s, from, to)[i] == to,
        s[i] != from ==> replaced(s, from, to)[i] == s[i],
{
}

/// A text begins with what it is put together from first, ends with what comes last, and holds what
/// stands between.
pub proof fn law_parts_of_a_text(a: Seq<char>, b: Seq<char>, c: Seq<char>)
    ensures
        starts(a + b, a),
        ends(a + b, b),
        stands_at(a + b + c, b, a.len() as int),
        contains(a + b + c, b),
        ends(a, b) ==> a == a.take(a.len() - b.len()) + b,
        starts(a, b) ==> a == b + a.skip(b.len() as int),
{
    assert((a + b).take(a.len() as int) =~= a);
    assert((a + b).skip(a.len() as int) =~= b);
    assert((a + b + c).subrange(a.len() as int, (a.len() + b.len()) as int) =~= b);
    assert(stands_at(a + b + c, b, a.len() as int));
    if ends(a, b) {
        assert(a =~= a.take(a.len() - b.len()) + a.skip(a.len() - b.len()));
    }
    if starts(a, b) {
        assert(a =~= a.take(b.len() as int) + a.skip(b.len() as int));
    }
}

/// Trimming takes white space off both ends and nothing else: what is left stands in the text,
/// between white space only, and has none at its ends.
pub proof fn law_trimmed_is_the_middle(s: Seq<char>, out: spec_fn(char) -> bool) -> (r: (int, int))
    ensures
        0 <= r.0 <= r.1 <= s.len(),
        trimmed_of(s, out) == s.subrange(r.0, r.1),
        forall|i: int| 0 <= i < r.0 ==> out(#[trigger] s[i]),
        forall|i: int| r.1 <= i < s.len() ==> out(#[trigger] s[i]),
        r.0 < r.1 ==> !out(s[r.0]) && !out(s[r.1 - 1]),
    decreases s.len(),
{
    if s.len() == 0 {
        assert(s =~= s.subrange(0, 0));
        (0, 0)
    } else if out(s[0]) {
        let rest = s.skip(1);
        let (lo, hi) = law_trimmed_is_the_middle(rest, out);
        assert(rest.subrange(lo, hi) =~= s.subrange(lo + 1, hi + 1));
        assert forall|i: int| 0 <= i < lo + 1 implies out(#[trigger] s[i]) by {
            if i > 0 {
                assert(out(rest[i - 1]));
            }
        }
        assert forall|i: int| hi + 1 <= i < s.len() implies out(#[trigger] s[i]) by {
            assert(out(rest[i - 1]));
        }
        (lo + 1, hi + 1)
    } else if out(s.last()) {
        let rest = s.drop_last();
        let (lo, hi) = law_trimmed_is_the_middle(rest, out);
        assert(rest.subrange(lo, hi) =~= s.subrange(lo, hi));
        assert forall|i: int| 0 <= i < lo implies out(#[trigger] s[i]) by {
            assert(out(rest[i]));
        }
        assert forall|i: int| hi <= i < s.len() implies out(#[trigger] s[i]) by {
            if i < rest.len() {
                assert(out(rest[i]));
            }
        }
        (lo, hi)
    } else {
        assert(s =~= s.subrange(0, s.len() as int));
        (0, s.len() as int)
    }
}

/// Spaces, tabs and line ends are white; no other ASCII character is.
pub proof fn law_white_space(c: char)
    requires
        (c as u32) < 128,
    ensures
        white(c) <==> c == ' ' || 9 <= c as int <= 13,
{
}

/// The number that a digit stands for.
pub open spec fn digit_value(c: char) -> int {
    if 0x30 <= c as int <= 0x39 {
        c as int - 0x30
    } else {
        c as int - 0x61 + 10
    }
}

/// The number that digits to a base stand for.
pub open spec fn number(s: Seq<char>, base: int) -> int
    decreases s.len(),
{
    if s.len() == 0 {
        0
    } else {
        base * number(s.drop_last(), base) + digit_value(s.last())
    }
}

/// A digit stands for its number, from 0 to 9 and from a to f.
pub proof fn law_digit_stands_for_its_number(n: nat)
    requires
        n < 16,
    ensures
        digit_value(digit(n)) == n,
        n < 10 ==> digit(n) as int == 0x30 + n,
        n >= 10 ==> digit(n) as int == 0x61 + n - 10,
{
}

/// The decimal digits of a number stand for it, and do not begin with a zero unless it is zero.
pub proof fn law_decimal_reads_back(n: nat)
    ensures
        number(decimal(n), 10) == n,
        decimal(n).len() > 0,
        n > 0 ==> decimal(n)[0] != '0',
        forall|i: int| 0 <= i < decimal(n).len() ==> 0x30 <= #[trigger] decimal(n)[i] as int <= 0x39,
    decreases n,
{
    if n < 10 {
        assert(decimal(n).drop_last() =~= Seq::<char>::empty());
        assert(decimal(n).last() == digit(n));
        assert(number(decimal(n).drop_last(), 10) == 0);
    } else {
        law_decimal_reads_back(n / 10);
        assert(decimal(n).drop_last() =~= decimal(n / 10));
        assert(decimal(n).last() == digit(n % 10));
    }
}

/// Padded digits stand for the number and are not fewer than asked for.
pub proof fn law_padded_reads_back(n: nat, width: nat)
    ensures
        number(zero_padded(n, width), 10) == n,
        zero_padded(n, width).len() >= width,
        zero_padded(n, width).len() > 0,
        n < 10 && width <= 1 ==> zero_padded(n, width).len() == 1,
        n < 100 && width == 2 ==> zero_padded(n, width).len() == 2,
        n < 1000 && width == 3 ==> zero_padded(n, width).len() == 3,
        n < 10000 && width == 4 ==> zero_padded(n, width).len() == 4,
    decreases n + width,
{
    if n < 10 && width <= 1 {
        assert(zero_padded(n, width).drop_last() =~= Seq::<char>::empty());
        assert(zero_padded(n, width).last() == digit(n));
        assert(number(zero_padded(n, width).drop_last(), 10) == 0);
    } else {
        let w: nat = if width == 0 {
            0
        } else {
            (width - 1) as nat
        };
        law_padded_reads_back(n / 10, w);
        assert(zero_padded(n, width).drop_last() =~= zero_padded(n / 10, w));
        assert(zero_padded(n, width).last() == digit(n % 10));
    }
}

/// Sixteen, as often multiplied as there are digits.
pub open spec fn sixteens(width: nat) -> nat
    decreases width,
{
    if width == 0 {
        1
    } else {
        16 * sixteens((width - 1) as nat)
    }
}

/// The hexadecimal digits of a number that they can hold stand for it, and are as many as asked for.
pub proof fn law_hex_reads_back(n: nat, width: nat)
    requires
        n < sixteens(width),
    ensures
        hex(n, width).len() == width,
        number(hex(n, width), 16) == n,
    decreases width,
{
    if width > 0 {
        law_hex_reads_back(n / 16, (width - 1) as nat);
        assert(hex(n, width).drop_last() =~= hex(n / 16, (width - 1) as nat));
        assert(hex(n, width).last() == digit(n % 16));
    }
}

/// White space before or behind a text does not count, and a text without any at its ends stays.
pub proof fn law_trimming_drops_white_space(s: Seq<char>, c: char)
    ensures
        white(c) ==> trimmed(seq![c] + s) == trimmed(s),
        white(c) ==> trimmed(s.push(c)) == trimmed(s),
        s.len() > 0 && !white(s[0]) && !white(s.last()) ==> trimmed(s) == s,
        trimmed(Seq::<char>::empty()) == Seq::<char>::empty(),
    decreases s.len(),
{
    assert((seq![c] + s).skip(1) =~= s);
    assert(s.push(c).drop_last() =~= s);
    if white(c) {
        if s.len() == 0 {
            assert(s.push(c).skip(1) =~= s);
        } else if white(s[0]) {
            law_trimming_drops_white_space(s.skip(1), c);
            assert(s.push(c).skip(1) =~= s.skip(1).push(c));
        }
    }
}

/// A character that is trimmed off does not count at the ends of a text, and a text without it there
/// stays.
pub proof fn law_trimming_drops_a_character(s: Seq<char>, c: char)
    ensures
        trimmed_char(seq![c] + s, c) == trimmed_char(s, c),
        trimmed_char(s.push(c), c) == trimmed_char(s, c),
        s.len() > 0 && s[0] != c && s.last() != c ==> trimmed_char(s, c) == s,
    decreases s.len(),
{
    assert((seq![c] + s).skip(1) =~= s);
    assert(s.push(c).drop_last() =~= s);
    if s.len() == 0 {
        assert(s.push(c).skip(1) =~= s);
    } else if s[0] == c {
        law_trimming_drops_a_character(s.skip(1), c);
        assert(s.push(c).skip(1) =~= s.skip(1).push(c));
    }
}

/// A text is split at each separator and nowhere else: a text without one is a single piece, and
/// what follows the last one is the last piece.
pub proof fn law_split_at_each_separator(
    a: Seq<char>,
    c: char,
    b: Seq<char>,
    sep: spec_fn(char) -> bool,
)
    requires
        sep(c),
        forall|i: int| 0 <= i < b.len() ==> !sep(#[trigger] b[i]),
    ensures
        split(b, sep) == seq![b],
        split(a.push(c) + b, sep) == split(a, sep).push(b),
    decreases b.len(),
{
    let whole = a.push(c) + b;
    if b.len() == 0 {
        assert(whole =~= a.push(c));
        assert(a.push(c).drop_last() =~= a);
        assert(b =~= Seq::<char>::empty());
    } else {
        let front = b.drop_last();
        assert forall|i: int| 0 <= i < front.len() implies !sep(#[trigger] front[i]) by {
            assert(!sep(b[i]));
        }
        law_split_at_each_separator(a, c, front, sep);
        assert(!sep(b[b.len() - 1]));
        assert(whole.drop_last() =~= a.push(c) + front);
        assert(front.push(b.last()) =~= b);
        assert(split(b, sep) =~= seq![b]);
        assert(split(whole, sep) =~= split(a, sep).push(b));
    }
}

} // verus!
