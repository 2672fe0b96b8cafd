//! The order in which sync work is done: a sort key, and a stable sort by it.

use vstd::prelude::*;
use vstd::utf8::encode_utf8;

use crate::text::{
    bytes_leq, lemma_bytes_leq_antisymmetric, lemma_bytes_leq_reflexive, lemma_bytes_leq_total,
    lemma_bytes_leq_transitive, lemma_utf8_injective, text_leq,
};

verus! {

/// What sync work is ordered by: first the rank of its kind, then the host, then a priority among
/// the tags of one host, then the tag.
pub ghost struct SortKey {
    pub rank: int,
    pub host: int,
    pub priority: int,
    pub tag: Seq<char>,
}

/// Lexicographic order of keys.
pub open spec fn key_leq(a: SortKey, b: SortKey) -> bool {
    if a.rank != b.rank {
        a.rank < b.rank
    } else if a.host != b.host {
        a.host < b.host
    } else if a.priority != b.priority {
        a.priority < b.priority
    } else {
        text_leq(a.tag, b.tag)
    }
}

pub proof fn lemma_key_leq_reflexive(a: SortKey)
    ensures
        key_leq(a, a),
{
    lemma_bytes_leq_reflexive(encode_utf8(a.tag));
}

pub proof fn lemma_key_leq_total(a: SortKey, b: SortKey)
    ensures
        key_leq(a, b) || key_leq(b, a),
{
    lemma_bytes_leq_total(encode_utf8(a.tag), encode_utf8(b.tag));
}

pub proof fn lemma_key_leq_transitive(a: SortKey, b: SortKey, c: SortKey)
    requires
        key_leq(a, b),
        key_leq(b, c),
    ensures
        key_leq(a, c),
{
    if bytes_leq(encode_utf8(a.tag), encode_utf8(b.tag)) && bytes_leq(
        encode_utf8(b.tag),
        encode_utf8(c.tag),
    ) {
        lemma_bytes_leq_transitive(encode_utf8(a.tag), encode_utf8(b.tag), encode_utf8(c.tag));
    }
}

pub proof fn lemma_key_leq_antisymmetric(a: SortKey, b: SortKey)
    requires
        key_leq(a, b),
        key_leq(b, a),
    ensures
        a == b,
{
    lemma_bytes_leq_antisymmetric(encode_utf8(a.tag), encode_utf8(b.tag));
    lemma_utf8_injective(a.tag, b.tag);
}

/// A piece of work that has a place in the order.
pub trait SortKeyed: Sized {
    spec fn sort_key(&self) -> SortKey;

    /// Whether this may stand before `other`.
    fn at_or_before(&self, other: &Self) -> (r: bool)
        ensures
            r == key_leq(self.sort_key(), other.sort_key()),
    ;
}

/// No item stands before one with a smaller key.
pub open spec fn is_sorted<T: SortKeyed>(s: Seq<T>) -> bool {
    forall|i: int, j: int|
        0 <= i < j < s.len() ==> key_leq(#[trigger] s[i].sort_key(), #[trigger] s[j].sort_key())
}

/// Whether an item has the key `k`.
pub open spec fn has_key<T: SortKeyed>(k: SortKey) -> spec_fn(T) -> bool {
    |x: T| x.sort_key() == k
}

/// The items of `s` with key `k`, in the order in which they stand.
pub open spec fn with_key<T: SortKeyed>(s: Seq<T>, k: SortKey) -> Seq<T> {
    s.filter(has_key(k))
}

/// `sorted` holds the items of `items`, ordered by key, and those with the same key in the order
/// in which `items` has them. This fixes `sorted`: see [`lemma_stable_sort_unique`].
pub open spec fn is_stable_sort<T: SortKeyed>(sorted: Seq<T>, items: Seq<T>) -> bool {
    &&& is_sorted(sorted)
    &&& sorted.to_multiset() == items.to_multiset()
    &&& forall|k: SortKey| #[trigger] with_key(sorted, k) == with_key(items, k)
}

proof fn lemma_with_key_add<T: SortKeyed>(a: Seq<T>, b: Seq<T>, k: SortKey)
    ensures
        with_key(a + b, k) == with_key(a, k) + with_key(b, k),
{
    Seq::filter_distributes_over_add(a, b, has_key(k));
}

proof fn lemma_with_key_one<T: SortKeyed>(x: T, k: SortKey)
    ensures
        with_key(seq![x], k) == if x.sort_key() == k {
            seq![x]
        } else {
            Seq::empty()
        },
{
    reveal_with_fuel(Seq::filter, 2);
    let p = has_key::<T>(k);
    assert(seq![x].drop_last() =~= Seq::<T>::empty());
    assert(Seq::<T>::empty().filter(p) =~= Seq::<T>::empty());
    if p(x) {
        assert(seq![x].filter(p) =~= seq![x]);
    } else {
        assert(seq![x].filter(p) =~= Seq::<T>::empty());
    }
}

proof fn lemma_with_key_none<T: SortKeyed>(s: Seq<T>, k: SortKey)
    requires
        forall|i: int| 0 <= i < s.len() ==> (#[trigger] s[i]).sort_key() != k,
    ensures
        with_key(s, k) == Seq::<T>::empty(),
{
    let p = has_key::<T>(k);
    let kept = with_key(s, k);
    if kept.len() > 0 {
        s.lemma_filter_pred(p, 0);
        lemma_filter_from(s, p);
        assert(s.contains(kept[0]));
    }
    assert(kept =~= Seq::<T>::empty());
}

/// What a filter keeps was there.
proof fn lemma_filter_from<T>(s: Seq<T>, p: spec_fn(T) -> bool)
    ensures
        forall|i: int| 0 <= i < s.filter(p).len() ==> s.contains(#[trigger] s.filter(p)[i]),
    decreases s.len(),
{
    reveal(Seq::filter);
    if s.len() > 0 {
        lemma_filter_from(s.drop_last(), p);
        assert forall|i: int| 0 <= i < s.filter(p).len() implies s.contains(
            #[trigger] s.filter(p)[i],
        ) by {
            if i < s.drop_last().filter(p).len() {
                let y = s.drop_last().filter(p)[i];
                assert(s.filter(p)[i] == y);
                let j = choose|j: int| 0 <= j < s.drop_last().len() && s.drop_last()[j] == y;
                assert(s[j] == y);
            } else {
                assert(s[s.len() - 1] == s.filter(p)[i]);
            }
        }
    }
}

/// Two lists that both are the stable sort of the same items are the same list.
pub proof fn lemma_stable_sort_unique<T: SortKeyed>(a: Seq<T>, b: Seq<T>, items: Seq<T>)
    requires
        is_stable_sort(a, items),
        is_stable_sort(b, items),
    ensures
        a == b,
{
    assert forall|k: SortKey| #[trigger] with_key(a, k) == with_key(b, k) by {
        assert(with_key(a, k) == with_key(items, k));
        assert(with_key(b, k) == with_key(items, k));
    }
    lemma_sorted_same_keys_equal(a, b);
}

/// Sorted lists with the same items under every key are equal.
pub proof fn lemma_sorted_same_keys_equal<T: SortKeyed>(a: Seq<T>, b: Seq<T>)
    requires
        is_sorted(a),
        is_sorted(b),
        forall|k: SortKey| #[trigger] with_key(a, k) == with_key(b, k),
    ensures
        a == b,
    decreases a.len(),
{
    if a.len() == 0 {
        if b.len() > 0 {
            let k = b[0].sort_key();
            lemma_with_key_none(a, k);
            lemma_with_key_first(b);
            assert(with_key(a, k) == with_key(b, k));
        }
        assert(a =~= b);
    } else {
        let k = a[0].sort_key();
        lemma_with_key_first(a);
        assert(with_key(a, k) == with_key(b, k));
        if b.len() == 0 {
            lemma_with_key_none(b, k);
        }
        let l = b[0].sort_key();
        lemma_with_key_first(b);
        assert(with_key(a, l) == with_key(b, l));
        lemma_least_key(a, b);
        lemma_least_key(b, a);
        lemma_key_leq_antisymmetric(k, l);
        assert(a[0] == b[0]);
        let (a1, b1) = (a.drop_first(), b.drop_first());
        assert(a =~= seq![a[0]] + a1);
        assert(b =~= seq![b[0]] + b1);
        assert forall|m: SortKey| #[trigger] with_key(a1, m) == with_key(b1, m) by {
            lemma_with_key_add(seq![a[0]], a1, m);
            lemma_with_key_add(seq![b[0]], b1, m);
            assert(with_key(a, m) == with_key(b, m));
            let h = with_key(seq![a[0]], m);
            assert((h + with_key(a1, m)).skip(h.len() as int) =~= with_key(a1, m));
            assert((h + with_key(b1, m)).skip(h.len() as int) =~= with_key(b1, m));
        }
        assert forall|i: int, j: int| 0 <= i < j < a1.len() implies key_leq(
            #[trigger] a1[i].sort_key(),
            #[trigger] a1[j].sort_key(),
        ) by {
            assert(key_leq(a[i + 1].sort_key(), a[j + 1].sort_key()));
        }
        assert forall|i: int, j: int| 0 <= i < j < b1.len() implies key_leq(
            #[trigger] b1[i].sort_key(),
            #[trigger] b1[j].sort_key(),
        ) by {
            assert(key_leq(b[i + 1].sort_key(), b[j + 1].sort_key()));
        }
        lemma_sorted_same_keys_equal(a1, b1);
    }
}

/// The first item of a list is the first of those with its key.
proof fn lemma_with_key_first<T: SortKeyed>(s: Seq<T>)
    requires
        s.len() > 0,
    ensures
        with_key(s, s[0].sort_key()).len() > 0,
        with_key(s, s[0].sort_key())[0] == s[0],
{
    let k = s[0].sort_key();
    assert(s =~= seq![s[0]] + s.drop_first());
    lemma_with_key_add(seq![s[0]], s.drop_first(), k);
    lemma_with_key_one(s[0], k);
}

/// The first key of a sorted list is no larger than a key that another list with the same items
/// under that key begins with.
proof fn lemma_least_key<T: SortKeyed>(a: Seq<T>, b: Seq<T>)
    requires
        is_sorted(a),
        a.len() > 0,
        b.len() > 0,
        with_key(a, b[0].sort_key()) == with_key(b, b[0].sort_key()),
    ensures
        key_leq(a[0].sort_key(), b[0].sort_key()),
{
    let l = b[0].sort_key();
    lemma_with_key_first(b);
    if forall|i: int| 0 <= i < a.len() ==> (#[trigger] a[i]).sort_key() != l {
        lemma_with_key_none(a, l);
    }
    let i = choose|i: int| 0 <= i < a.len() && (#[trigger] a[i]).sort_key() == l;
    if i == 0 {
        lemma_key_leq_reflexive(l);
    } else {
        assert(key_leq(a[0].sort_key(), a[i].sort_key()));
    }
}

/// No two items have the same key.
pub open spec fn distinct_keys<T: SortKeyed>(s: Seq<T>) -> bool {
    forall|i: int, j: int|
        0 <= i < j < s.len() ==> #[trigger] s[i].sort_key() != #[trigger] s[j].sort_key()
}

/// Where keys are distinct, an item is the only one with its key.
pub proof fn lemma_only_one<T: SortKeyed>(s: Seq<T>, i: int)
    requires
        distinct_keys(s),
        0 <= i < s.len(),
    ensures
        with_key(s, s[i].sort_key()) == seq![s[i]],
{
    let k = s[i].sort_key();
    let (pre, post) = (s.subrange(0, i), s.subrange(i + 1, s.len() as int));
    assert(s =~= pre + (seq![s[i]] + post));
    lemma_with_key_add(pre, seq![s[i]] + post, k);
    lemma_with_key_add(seq![s[i]], post, k);
    lemma_with_key_one(s[i], k);
    assert forall|j: int| 0 <= j < pre.len() implies (#[trigger] pre[j]).sort_key() != k by {
        assert(pre[j] == s[j]);
        assert(s[j].sort_key() != s[i].sort_key());
    }
    assert forall|j: int| 0 <= j < post.len() implies (#[trigger] post[j]).sort_key() != k by {
        assert(post[j] == s[i + 1 + j]);
        assert(s[i].sort_key() != s[i + 1 + j].sort_key());
    }
    lemma_with_key_none(pre, k);
    lemma_with_key_none(post, k);
    assert(with_key(s, k) =~= seq![s[i]]);
}

/// A list and its sort have the same items.
pub proof fn lemma_sort_same_items<T: SortKeyed>(sorted: Seq<T>, items: Seq<T>)
    requires
        is_stable_sort(sorted, items),
    ensures
        sorted.len() == items.len(),
        forall|x: T| #[trigger] sorted.contains(x) <==> items.contains(x),
{
    broadcast use vstd::seq_lib::group_to_multiset_ensures;

    sorted.to_multiset_ensures();
    items.to_multiset_ensures();
    assert forall|x: T| #[trigger] sorted.contains(x) <==> items.contains(x) by {
        assert(sorted.contains(x) <==> sorted.to_multiset().count(x) > 0);
        assert(items.contains(x) <==> items.to_multiset().count(x) > 0);
    }
}

/// Sorting keeps keys distinct.
pub proof fn lemma_sort_distinct<T: SortKeyed>(sorted: Seq<T>, items: Seq<T>)
    requires
        is_stable_sort(sorted, items),
        distinct_keys(items),
    ensures
        distinct_keys(sorted),
{
    lemma_sort_same_items(sorted, items);
    assert forall|i: int, j: int| 0 <= i < j < sorted.len() implies #[trigger] sorted[i].sort_key()
        != #[trigger] sorted[j].sort_key() by {
        let k = sorted[i].sort_key();
        if sorted[j].sort_key() == k {
            assert(sorted.contains(sorted[i]));
            let m = choose|m: int| 0 <= m < items.len() && items[m] == sorted[i];
            lemma_only_one(items, m);
            assert(with_key(sorted, k) == with_key(items, k));
            let (pre, post) = (sorted.subrange(0, j), sorted.subrange(j, sorted.len() as int));
            assert(sorted =~= pre + post);
            lemma_with_key_add(pre, post, k);
            assert(post[0] == sorted[j]);
            lemma_with_key_first(post);
            let (pre0, pre1) = (pre.subrange(0, i), pre.subrange(i, j));
            assert(pre =~= pre0 + pre1);
            lemma_with_key_add(pre0, pre1, k);
            assert(pre1[0] == sorted[i]);
            lemma_with_key_first(pre1);
            assert(with_key(sorted, k).len() >= 2);
        }
    }
}

/// Where keys are distinct, the order in which the items are given does not matter.
pub proof fn lemma_sort_of_permutation<T: SortKeyed>(
    sorted_a: Seq<T>,
    a: Seq<T>,
    sorted_b: Seq<T>,
    b: Seq<T>,
)
    requires
        is_stable_sort(sorted_a, a),
        is_stable_sort(sorted_b, b),
        distinct_keys(a),
        distinct_keys(b),
        forall|x: T| #[trigger] a.contains(x) <==> b.contains(x),
    ensures
        sorted_a == sorted_b,
{
    assert forall|k: SortKey| #[trigger] with_key(sorted_a, k) == with_key(sorted_b, k) by {
        assert(with_key(sorted_a, k) == with_key(a, k));
        assert(with_key(sorted_b, k) == with_key(b, k));
        if exists|i: int| 0 <= i < a.len() && (#[trigger] a[i]).sort_key() == k {
            let i = choose|i: int| 0 <= i < a.len() && (#[trigger] a[i]).sort_key() == k;
            assert(a.contains(a[i]));
            let j = choose|j: int| 0 <= j < b.len() && b[j] == a[i];
            lemma_only_one(a, i);
            lemma_only_one(b, j);
        } else {
            lemma_with_key_none(a, k);
            assert forall|j: int| 0 <= j < b.len() implies (#[trigger] b[j]).sort_key() != k by {
                assert(b.contains(b[j]));
                assert(a.contains(b[j]));
            }
            lemma_with_key_none(b, k);
        }
    }
    lemma_sorted_same_keys_equal(sorted_a, sorted_b);
}

/// Where an item that comes first among equals goes: putting `x` at `i` keeps the list the stable
/// sort of `x` followed by what it was the sort of.
proof fn lemma_insert<T: SortKeyed>(out: Seq<T>, i: int, x: T, items: Seq<T>)
    requires
        is_stable_sort(out, items),
        0 <= i <= out.len(),
        forall|j: int| 0 <= j < i ==> !key_leq(x.sort_key(), (#[trigger] out[j]).sort_key()),
        i < out.len() ==> key_leq(x.sort_key(), out[i].sort_key()),
    ensures
        is_stable_sort(out.insert(i, x), seq![x] + items),
{
    let r = out.insert(i, x);
    let (pre, post) = (out.subrange(0, i), out.subrange(i, out.len() as int));
    assert(r =~= pre + (seq![x] + post));
    assert forall|a: int, b: int| 0 <= a < b < r.len() implies key_leq(
        #[trigger] r[a].sort_key(),
        #[trigger] r[b].sort_key(),
    ) by {
        let ka = r[a].sort_key();
        let kb = r[b].sort_key();
        if b < i {
            assert(r[a] == out[a] && r[b] == out[b]);
        } else if b == i {
            assert(r[a] == out[a]);
            lemma_key_leq_total(x.sort_key(), out[a].sort_key());
        } else if a == i {
            assert(r[b] == out[b - 1]);
            if b - 1 > i {
                assert(key_leq(out[i].sort_key(), out[b - 1].sort_key()));
                lemma_key_leq_transitive(
                    x.sort_key(),
                    out[i].sort_key(),
                    out[b - 1].sort_key(),
                );
            }
        } else if a < i {
            assert(r[a] == out[a] && r[b] == out[b - 1]);
            assert(key_leq(out[a].sort_key(), out[b - 1].sort_key()));
        } else {
            assert(r[a] == out[a - 1] && r[b] == out[b - 1]);
            assert(key_leq(out[a - 1].sort_key(), out[b - 1].sort_key()));
        }
    }
    assert forall|k: SortKey| #[trigger] with_key(r, k) == with_key(seq![x] + items, k) by {
        lemma_with_key_add(pre, seq![x] + post, k);
        lemma_with_key_add(seq![x], post, k);
        lemma_with_key_add(seq![x], items, k);
        lemma_with_key_add(pre, post, k);
        assert(out =~= pre + post);
        assert(with_key(out, k) == with_key(items, k));
        lemma_with_key_one(x, k);
        if x.sort_key() == k {
            assert forall|j: int| 0 <= j < pre.len() implies (#[trigger] pre[j]).sort_key()
                != k by {
                assert(pre[j] == out[j]);
                lemma_key_leq_reflexive(k);
            }
            lemma_with_key_none(pre, k);
            assert(with_key(r, k) =~= seq![x] + with_key(post, k));
            assert(with_key(out, k) =~= with_key(post, k));
        } else {
            assert(with_key(r, k) =~= with_key(pre, k) + with_key(post, k));
            assert(with_key(seq![x] + items, k) =~= with_key(items, k));
        }
    }
    vstd::seq_lib::to_multiset_insert(out, i, x);
    vstd::seq_lib::to_multiset_insert(items, 0, x);
    assert(items.insert(0, x) =~= seq![x] + items);
}

/// Sorts by key; items with the same key keep their order.
pub fn stable_sort<T: SortKeyed>(items: Vec<T>) -> (sorted: Vec<T>)
    ensures
        is_stable_sort(sorted@, items@),
{
    let ghost all = items@;
    let mut rest = items;
    let mut out: Vec<T> = Vec::new();
    assert(all.skip(all.len() as int) =~= Seq::<T>::empty());
    while rest.len() > 0
        invariant
            rest@.len() <= all.len(),
            rest@ == all.take(rest@.len() as int),
            is_stable_sort(out@, all.skip(rest@.len() as int)),
        decreases rest@.len(),
    {
        let ghost n = rest@.len() as int;
        match rest.pop() {
            Some(x) => {
                assert(x == all[n - 1]);
                assert(rest@ =~= all.take(n - 1));
                assert(all.skip(n - 1) =~= seq![x] + all.skip(n));
                let mut i: usize = 0;
                while i < out.len() && !x.at_or_before(&out[i])
                    invariant
                        i <= out@.len(),
                        forall|j: int|
                            0 <= j < i ==> !key_leq(
                                x.sort_key(),
                                (#[trigger] out@[j]).sort_key(),
                            ),
                    decreases out@.len() - i,
                {
                    i = i + 1;
                }
                proof {
                    lemma_insert(out@, i as int, x, all.skip(n));
                }
                out.insert(i, x);
            },
            None => {},
        }
    }
    assert(all.skip(0) =~= all);
    out
}

/// Sorting keeps every item, puts none before one of a smaller key, and leaves those of one key in the
/// order in which they came.
pub proof fn law_sort_keeps_items_and_ties<T: SortKeyed>(items: Vec<T>, sorted: Vec<T>, key: SortKey)
    requires
        call_ensures(stable_sort::<T>, (items,), sorted),
    ensures
        sorted@.to_multiset() == items@.to_multiset(),
        sorted@.len() == items@.len(),
        forall|i: int, j: int|
            0 <= i < j < sorted@.len() ==> key_leq(
                #[trigger] sorted@[i].sort_key(),
                #[trigger] sorted@[j].sort_key(),
            ),
        sorted@.filter(|x: T| x.sort_key() == key) == items@.filter(|x: T| x.sort_key() == key),
{
    let p = |x: T| x.sort_key() == key;
    assert(p =~= has_key::<T>(key));
    assert(with_key(sorted@, key) == with_key(items@, key));
    sorted@.to_multiset_ensures();
    items@.to_multiset_ensures();
}

/// Keys are compared by rank, those of one rank by host, those of one host by priority, and those of
/// one priority by tag.
pub proof fn law_keys_are_compared_in_turn(a: SortKey, b: SortKey)
    ensures
        a.rank < b.rank ==> key_leq(a, b) && !key_leq(b, a),
        a.rank == b.rank && a.host < b.host ==> key_leq(a, b) && !key_leq(b, a),
        a.rank == b.rank && a.host == b.host && a.priority < b.priority ==> key_leq(a, b)
            && !key_leq(b, a),
        a.rank == b.rank && a.host == b.host && a.priority == b.priority ==> (key_leq(a, b)
            <==> text_leq(a.tag, b.tag)),
{
}

} // verus!
