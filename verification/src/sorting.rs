//! The order of strings, and lists that are sorted by it.
use vstd::prelude::*;

use crate::text;

verus! {

/// `a` comes before `b`: at the first place where they differ it has the smaller character, or
/// it ends there. UTF-8 orders strings in the same way by their bytes.
pub open spec fn lex_lt(a: Seq<char>, b: Seq<char>) -> bool
    decreases a.len(),
{
    if b.len() == 0 {
        false
    } else if a.len() == 0 {
        true
    } else if a[0] != b[0] {
        a[0] < b[0]
    } else {
        lex_lt(a.skip(1), b.skip(1))
    }
}

/// `a` does not come after `b`.
pub open spec fn lex_le(a: Seq<char>, b: Seq<char>) -> bool {
    !lex_lt(b, a)
}

proof fn lemma_same_head_and_rest(a: Seq<char>, b: Seq<char>)
    requires
        a.len() > 0,
        b.len() > 0,
        a[0] == b[0],
        a.skip(1) == b.skip(1),
    ensures
        a == b,
{
    assert(a =~= seq![a[0]] + a.skip(1));
    assert(b =~= seq![b[0]] + b.skip(1));
}

/// A string does not come both before and after another, and the order is transitive.
pub proof fn lemma_lex_order(a: Seq<char>, b: Seq<char>, c: Seq<char>)
    ensures
        !(lex_lt(a, b) && lex_lt(b, a)),
        !lex_lt(a, a),
        lex_lt(a, b) || lex_lt(b, a) || a == b,
        lex_lt(a, b) && lex_lt(b, c) ==> lex_lt(a, c),
        lex_le(a, b) && lex_le(b, c) ==> lex_le(a, c),
    decreases a.len(),
{
    if a.len() > 0 && b.len() > 0 && c.len() > 0 {
        lemma_lex_order(a.skip(1), b.skip(1), c.skip(1));
        if a[0] == b[0] && a.skip(1) == b.skip(1) {
            lemma_same_head_and_rest(a, b);
        }
    } else if a.len() > 0 && b.len() > 0 {
        lemma_lex_order(a.skip(1), b.skip(1), c);
        if a[0] == b[0] && a.skip(1) == b.skip(1) {
            lemma_same_head_and_rest(a, b);
        }
    } else {
        if a.len() > 0 {
            lemma_lex_order(a.skip(1), b, c);
        }
        if a.len() == 0 && b.len() == 0 {
            assert(a =~= b);
        }
    }
}

/// The keys stand in their order.
pub open spec fn sorted(keys: Seq<Seq<char>>) -> bool {
    forall|i: int, j: int| 0 <= i <= j < keys.len() ==> lex_le(#[trigger] keys[i], #[trigger] keys[j])
}

/// `k` is where `key` goes into sorted keys, behind all that are not greater.
pub open spec fn is_insertion_point(keys: Seq<Seq<char>>, key: Seq<char>, k: int) -> bool {
    &&& 0 <= k <= keys.len()
    &&& forall|i: int| 0 <= i < k ==> lex_le(#[trigger] keys[i], key)
    &&& forall|i: int| k <= i < keys.len() ==> lex_lt(key, #[trigger] keys[i])
}

/// The items whose key is the given one, in their order.
pub open spec fn with_key<A>(s: Seq<A>, key: spec_fn(A) -> Seq<char>, k: Seq<char>) -> Seq<A> {
    s.filter(|a: A| key(a) == k)
}

/// `out` holds the items of `input` in the order of their keys, and items with the same key in
/// the order in which they came.
pub open spec fn is_stable_sort<A>(input: Seq<A>, key: spec_fn(A) -> Seq<char>, out: Seq<A>) -> bool {
    &&& sorted(out.map_values(key))
    &&& forall|k: Seq<char>| #[trigger] with_key(out, key, k) == with_key(input, key, k)
}

proof fn lemma_filter_none<A>(s: Seq<A>, p: spec_fn(A) -> bool)
    requires
        forall|i: int| 0 <= i < s.len() ==> !p(#[trigger] s[i]),
    ensures
        s.filter(p) == Seq::<A>::empty(),
    decreases s.len(),
{
    reveal(Seq::filter);
    if s.len() > 0 {
        lemma_filter_none(s.drop_last(), p);
    }
}

/// An item put where its key goes keeps a sorted list sorted and the order of equal keys.
pub proof fn lemma_insert<A>(input: Seq<A>, key: spec_fn(A) -> Seq<char>, out: Seq<A>, a: A, k: int)
    requires
        is_stable_sort(input, key, out),
        is_insertion_point(out.map_values(key), key(a), k),
    ensures
        is_stable_sort(input.push(a), key, out.insert(k, a)),
{
    let keys = out.map_values(key);
    let res = out.insert(k, a);
    let after = res.map_values(key);
    assert(after =~= keys.insert(k, key(a)));
    assert forall|i: int, j: int| 0 <= i <= j < after.len() implies lex_le(
        #[trigger] after[i],
        #[trigger] after[j],
    ) by {
        lemma_lex_order(after[i], after[j], after[j]);
        if i < k && j > k {
            assert(lex_le(keys[i], keys[j - 1]));
        } else if i < k && j < k {
            assert(lex_le(keys[i], keys[j]));
        } else if i > k {
            assert(lex_le(keys[i - 1], keys[j - 1]));
        } else if i < k {
            assert(lex_le(keys[i], key(a)));
        } else if i == k && j > k {
            assert(lex_lt(key(a), keys[j - 1]));
        }
    }
    assert forall|x: Seq<char>| #[trigger] with_key(res, key, x) == with_key(input.push(a), key, x) by {
        let p = |b: A| key(b) == x;
        let head = out.take(k);
        let tail = out.skip(k);
        assert(out =~= head + tail);
        assert(res =~= head.push(a) + tail);
        Seq::<A>::filter_distributes_over_add(head.push(a), tail, p);
        Seq::<A>::filter_distributes_over_add(head, tail, p);
        assert(with_key(out, key, x) == with_key(input, key, x));
        assert(head.push(a).filter(p) == if p(a) {
            head.filter(p).push(a)
        } else {
            head.filter(p)
        }) by {
            reveal(Seq::filter);
            assert(head.push(a).drop_last() =~= head);
        }
        assert(input.push(a).filter(p) == if p(a) {
            input.filter(p).push(a)
        } else {
            input.filter(p)
        }) by {
            reveal(Seq::filter);
            assert(input.push(a).drop_last() =~= input);
        }
        if p(a) {
            assert forall|i: int| 0 <= i < tail.len() implies !p(#[trigger] tail[i]) by {
                assert(keys[k + i] == key(tail[i]));
                lemma_lex_order(key(a), key(tail[i]), key(a));
            }
            lemma_filter_none(tail, p);
            assert(res.filter(p) =~= out.filter(p).push(a));
        }
    }
}

/// Nothing sorted is nothing.
pub proof fn lemma_sort_empty<A>(key: spec_fn(A) -> Seq<char>)
    ensures
        is_stable_sort(Seq::<A>::empty(), key, Seq::<A>::empty()),
{
}

/// `a` comes before `b`.
pub fn str_lt(a: &str, b: &str) -> (r: bool)
    ensures
        r == lex_lt(a@, b@),
{
    let x: Vec<char> = text::chars_of(a);
    let y: Vec<char> = text::chars_of(b);
    let mut i: usize = 0;
    assert(a@.skip(0) =~= a@ && b@.skip(0) =~= b@);
    while i < x.len() && i < y.len()
        invariant
            i <= x@.len(),
            i <= y@.len(),
            x@ == a@,
            y@ == b@,
            lex_lt(a@.skip(i as int), b@.skip(i as int)) == lex_lt(a@, b@),
        decreases x.len() - i,
    {
        if x[i] != y[i] {
            return x[i] < y[i];
        }
        assert(a@.skip(i as int).skip(1) =~= a@.skip(i + 1));
        assert(b@.skip(i as int).skip(1) =~= b@.skip(i + 1));
        i = i + 1;
    }
    i < y.len()
}

/// Where `key` goes into sorted keys.
pub fn insertion_point(keys: &Vec<String>, key: &str) -> (k: usize)
    requires
        sorted(text::views(keys@)),
    ensures
        is_insertion_point(text::views(keys@), key@, k as int),
{
    let mut k: usize = keys.len();
    let ghost vs = text::views(keys@);
    while k > 0
        invariant
            k <= keys@.len(),
            vs == text::views(keys@),
            sorted(vs),
            forall|i: int| k <= i < vs.len() ==> lex_lt(key@, #[trigger] vs[i]),
        decreases k,
    {
        if !str_lt(key, keys[k - 1].as_str()) {
            assert forall|i: int| 0 <= i < k implies lex_le(#[trigger] vs[i], key@) by {
                assert(lex_le(vs[i], vs[k - 1]));
                lemma_lex_order(vs[i], vs[k - 1], key@);
            }
            return k;
        }
        assert(lex_lt(key@, vs[k - 1]));
        k = k - 1;
    }
    0
}

/// Texts are ordered by the first place where they differ, and one that goes on comes behind one
/// that ends.
pub proof fn law_first_difference_decides(p: Seq<char>, a: char, b: char, x: Seq<char>, y: Seq<char>)
    ensures
        a < b ==> lex_lt(p + seq![a] + x, p + seq![b] + y) && !lex_lt(p + seq![b] + y, p + seq![a] + x),
        lex_lt(p, p + seq![a] + x),
        !lex_lt(p + seq![a] + x, p),
    decreases p.len(),
{
    let l = p + seq![a] + x;
    let r = p + seq![b] + y;
    if p.len() > 0 {
        let q = p.skip(1);
        law_first_difference_decides(q, a, b, x, y);
        assert(l.skip(1) =~= q + seq![a] + x);
        assert(r.skip(1) =~= q + seq![b] + y);
        assert(l[0] == p[0] && r[0] == p[0]);
    } else {
        assert(l[0] == a && r[0] == b);
    }
}

proof fn lemma_count_with_key<A>(s: Seq<A>, key: spec_fn(A) -> Seq<char>, a: A)
    ensures
        s.to_multiset().count(a) == with_key(s, key, key(a)).to_multiset().count(a),
    decreases s.len(),
{
    reveal(Seq::filter);
    s.to_multiset_ensures();
    if s.len() > 0 {
        let rest = s.drop_last();
        let kept = with_key(rest, key, key(a));
        lemma_count_with_key(rest, key, a);
        assert(rest.push(s.last()) =~= s);
        rest.to_multiset_ensures();
        kept.to_multiset_ensures();
        if key(s.last()) == key(a) {
            assert(with_key(s, key, key(a)) == kept.push(s.last()));
        } else {
            assert(with_key(s, key, key(a)) == kept);
        }
    } else {
        assert(with_key(s, key, key(a)) =~= s);
    }
}

/// Sorting takes nothing away and adds nothing, and leaves no item before one with a smaller key.
pub proof fn law_sorting_keeps_the_items<A>(
    input: Seq<A>,
    key: spec_fn(A) -> Seq<char>,
    out: Seq<A>,
    i: int,
    j: int,
)
    requires
        is_stable_sort(input, key, out),
    ensures
        out.to_multiset() == input.to_multiset(),
        out.len() == input.len(),
        0 <= i < j < out.len() ==> !lex_lt(key(out[j]), key(out[i])),
{
    assert forall|a: A| out.to_multiset().count(a) == #[trigger] input.to_multiset().count(a) by {
        lemma_count_with_key(out, key, a);
        lemma_count_with_key(input, key, a);
        assert(with_key(out, key, key(a)) == with_key(input, key, key(a)));
    }
    assert(out.to_multiset() =~= input.to_multiset());
    out.to_multiset_ensures();
    input.to_multiset_ensures();
    if 0 <= i < j < out.len() {
        let keys = out.map_values(key);
        assert(lex_le(keys[i], keys[j]));
    }
}

} // verus!
