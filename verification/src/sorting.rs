//! Stable insertion sort: the order in which the emitters list links and
//! entities. Equal keys keep the order they had, as `sort_by` does.

use vstd::prelude::*;
use crate::ontology::{Entity, EntityView, Link, LinkView};
use crate::search::{first_index, lemma_first_index_found};
use crate::text::{lemma_seq_lt_irreflexive, lemma_seq_lt_transitive, seq_lt, str_eq, str_lt};

verus! {

/// `s` with `x` placed before the first element that `x` is below.
pub open spec fn insert_by<T>(s: Seq<T>, x: T, lt: spec_fn(T, T) -> bool) -> Seq<T>
    decreases s.len(),
{
    if s.len() == 0 {
        seq![x]
    } else if lt(x, s[0]) {
        seq![x] + s
    } else {
        seq![s[0]] + insert_by(s.drop_first(), x, lt)
    }
}

/// `s` sorted by `lt`, keeping the order they had for elements of which neither
/// is below the other.
pub open spec fn sort_by<T>(s: Seq<T>, lt: spec_fn(T, T) -> bool) -> Seq<T>
    decreases s.len(),
{
    if s.len() == 0 {
        s
    } else {
        insert_by(sort_by(s.drop_last(), lt), s.last(), lt)
    }
}

/// Inserting before the first element that `x` is below is inserting at
/// that position.
pub proof fn lemma_insert_at<T>(s: Seq<T>, x: T, lt: spec_fn(T, T) -> bool, j: int)
    requires
        0 <= j <= s.len(),
        forall|k: int| 0 <= k < j ==> !lt(x, #[trigger] s[k]),
        j < s.len() ==> lt(x, s[j]),
    ensures
        insert_by(s, x, lt) == s.insert(j, x),
    decreases j,
{
    if j == 0 {
        if s.len() == 0 {
            assert(seq![x] =~= s.insert(0, x));
        } else {
            assert(seq![x] + s =~= s.insert(0, x));
        }
    } else {
        assert(!lt(x, s[0]));
        let t = s.drop_first();
        assert forall|k: int| 0 <= k < j - 1 implies !lt(x, #[trigger] t[k]) by {
            assert(t[k] == s[k + 1]);
        }
        lemma_insert_at(t, x, lt, j - 1);
        assert(seq![s[0]] + t.insert(j - 1, x) =~= s.insert(j, x));
    }
}

proof fn lemma_take_step<T>(s: Seq<T>, i: int)
    requires
        0 <= i < s.len(),
    ensures
        s.take(i + 1).drop_last() == s.take(i),
        s.take(i + 1).last() == s[i],
        s.take(i + 1).len() > 0,
{
    assert(s.take(i + 1).drop_last() =~= s.take(i));
}

/// Links ordered by object.
pub open spec fn link_object_lt() -> spec_fn(LinkView, LinkView) -> bool {
    |a: LinkView, b: LinkView| seq_lt(a.object, b.object)
}

/// Links ordered by subject, then by object.
pub open spec fn link_subject_object_lt() -> spec_fn(LinkView, LinkView) -> bool {
    |a: LinkView, b: LinkView|
        seq_lt(a.subject, b.subject) || (a.subject == b.subject && seq_lt(a.object, b.object))
}

/// Entities ordered by name.
pub open spec fn entity_name_lt() -> spec_fn(EntityView, EntityView) -> bool {
    |a: EntityView, b: EntityView| seq_lt(a.name, b.name)
}

/// The order the links are sorted by.
pub open spec fn link_order(by_subject: bool) -> spec_fn(LinkView, LinkView) -> bool {
    if by_subject {
        link_subject_object_lt()
    } else {
        link_object_lt()
    }
}

pub open spec fn link_views(v: Seq<&Link>) -> Seq<LinkView> {
    v.map_values(|l: &Link| l@)
}

pub open spec fn entity_views(v: Seq<&Entity>) -> Seq<EntityView> {
    v.map_values(|e: &Entity| e@)
}

fn link_below(a: &Link, b: &Link, by_subject: bool) -> (r: bool)
    ensures
        r == (link_order(by_subject))(a@, b@),
{
    if by_subject {
        if str_lt(a.subject.as_str(), b.subject.as_str()) {
            true
        } else {
            str_eq(a.subject.as_str(), b.subject.as_str()) && str_lt(
                a.object.as_str(),
                b.object.as_str(),
            )
        }
    } else {
        str_lt(a.object.as_str(), b.object.as_str())
    }
}

/// Sorts links by object, or by subject and then object; stable.
pub fn sort_links<'a>(v: Vec<&'a Link>, by_subject: bool) -> (r: Vec<&'a Link>)
    ensures
        link_views(r@) == sort_by(link_views(v@), link_order(by_subject)),
{
    let ghost lt = link_order(by_subject);
    let ghost input = link_views(v@);
    let mut r: Vec<&'a Link> = Vec::new();
    let n = v.len();
    assert(input.take(0) =~= Seq::<LinkView>::empty());
    for i in 0..n
        invariant
            n == v@.len(),
            lt == link_order(by_subject),
            input == link_views(v@),
            link_views(r@) == sort_by(input.take(i as int), lt),
    {
        let x = v[i];
        let ghost rv = link_views(r@);
        let mut j: usize = 0;
        while j < r.len() && !link_below(x, r[j], by_subject)
            invariant
                j <= r@.len(),
                rv == link_views(r@),
                lt == link_order(by_subject),
                forall|k: int| 0 <= k < j ==> !lt(x@, #[trigger] rv[k]),
            decreases r@.len() - j,
        {
            j = j + 1;
        }
        proof {
            lemma_insert_at(rv, x@, lt, j as int);
            lemma_take_step(input, i as int);
        }
        r.insert(j, x);
        assert(link_views(r@) =~= rv.insert(j as int, x@));
    }
    assert(input.take(n as int) =~= input);
    r
}

/// Sorts entities by name; stable.
pub fn sort_entities<'a>(v: Vec<&'a Entity>) -> (r: Vec<&'a Entity>)
    ensures
        entity_views(r@) == sort_by(entity_views(v@), entity_name_lt()),
{
    let ghost lt = entity_name_lt();
    let ghost input = entity_views(v@);
    let mut r: Vec<&'a Entity> = Vec::new();
    let n = v.len();
    assert(input.take(0) =~= Seq::<EntityView>::empty());
    for i in 0..n
        invariant
            n == v@.len(),
            lt == entity_name_lt(),
            input == entity_views(v@),
            entity_views(r@) == sort_by(input.take(i as int), lt),
    {
        let x = v[i];
        let ghost rv = entity_views(r@);
        let mut j: usize = 0;
        while j < r.len() && !str_lt(x.name.as_str(), r[j].name.as_str())
            invariant
                j <= r@.len(),
                rv == entity_views(r@),
                lt == entity_name_lt(),
                forall|k: int| 0 <= k < j ==> !lt(x@, #[trigger] rv[k]),
            decreases r@.len() - j,
        {
            j = j + 1;
        }
        proof {
            lemma_insert_at(rv, x@, lt, j as int);
            lemma_take_step(input, i as int);
        }
        r.insert(j, x);
        assert(entity_views(r@) =~= rv.insert(j as int, x@));
    }
    assert(input.take(n as int) =~= input);
    r
}


// ---- order laws --------------------------------------------------------------

/// `lt` is a strict order: irreflexive and transitive.
pub open spec fn strict_order<T>(lt: spec_fn(T, T) -> bool) -> bool {
    &&& forall|a: T| !#[trigger] lt(a, a)
    &&& forall|a: T, b: T, c: T| #[trigger] lt(a, b) && #[trigger] lt(b, c) ==> lt(a, c)
}

/// No later element is below an earlier one.
pub open spec fn sorted_by<T>(s: Seq<T>, lt: spec_fn(T, T) -> bool) -> bool {
    forall|i: int, j: int| 0 <= i < j < s.len() ==> !lt(#[trigger] s[j], #[trigger] s[i])
}

/// The position at which `insert_by` places `x`.
proof fn lemma_insert_position<T>(s: Seq<T>, x: T, lt: spec_fn(T, T) -> bool) -> (j: int)
    ensures
        0 <= j <= s.len(),
        forall|k: int| 0 <= k < j ==> !lt(x, #[trigger] s[k]),
        j < s.len() ==> lt(x, s[j]),
        insert_by(s, x, lt) == s.insert(j, x),
{
    let p = |y: T| lt(x, y);
    lemma_first_index_found(s, p);
    let j = match first_index(s, p) {
        Some(i) => i,
        None => s.len() as int,
    };
    assert forall|k: int| 0 <= k < j implies !lt(x, #[trigger] s[k]) by {
        assert(!p(s[k]));
    }
    if j < s.len() {
        assert(p(s[j]));
    }
    lemma_insert_at(s, x, lt, j);
    j
}

/// Inserting keeps the elements and adds `x`.
pub proof fn lemma_insert_by_multiset<T>(s: Seq<T>, x: T, lt: spec_fn(T, T) -> bool)
    ensures
        insert_by(s, x, lt).to_multiset() =~= s.to_multiset().insert(x),
{
    broadcast use vstd::seq_lib::group_to_multiset_ensures;

    let j = lemma_insert_position(s, x, lt);
    let r = s.insert(j, x);
    assert(r.remove(j) =~= s);
    assert(r.to_multiset().remove(x) =~= s.to_multiset());
    assert(r.contains(x)) by {
        assert(r[j] == x);
    }
    assert(r.to_multiset().count(x) > 0);
}

/// Inserting into a sorted sequence keeps it sorted.
pub proof fn lemma_insert_by_sorted<T>(s: Seq<T>, x: T, lt: spec_fn(T, T) -> bool)
    requires
        strict_order(lt),
        sorted_by(s, lt),
    ensures
        sorted_by(insert_by(s, x, lt), lt),
{
    let j = lemma_insert_position(s, x, lt);
    let r = s.insert(j, x);
    assert forall|p: int, q: int| 0 <= p < q < r.len() implies !lt(
        #[trigger] r[q],
        #[trigger] r[p],
    ) by {
        if q < j {
            assert(r[q] == s[q] && r[p] == s[p]);
        } else if q == j {
            assert(r[p] == s[p]);
        } else if p == j {
            assert(r[q] == s[q - 1]);
            if lt(s[q - 1], x) {
                assert(lt(x, s[j]));
                assert(lt(s[q - 1], s[j]));
                if q - 1 == j {
                    assert(!lt(s[j], s[j]));
                }
            }
        } else if p < j {
            assert(r[q] == s[q - 1] && r[p] == s[p]);
        } else {
            assert(r[q] == s[q - 1] && r[p] == s[p - 1]);
        }
    }
}

/// Sorting keeps exactly the elements, and its result is sorted.
pub proof fn lemma_sort_by<T>(s: Seq<T>, lt: spec_fn(T, T) -> bool)
    requires
        strict_order(lt),
    ensures
        sort_by(s, lt).to_multiset() =~= s.to_multiset(),
        sorted_by(sort_by(s, lt), lt),
    decreases s.len(),
{
    broadcast use vstd::seq_lib::group_to_multiset_ensures;

    if s.len() > 0 {
        lemma_sort_by(s.drop_last(), lt);
        lemma_insert_by_multiset(sort_by(s.drop_last(), lt), s.last(), lt);
        lemma_insert_by_sorted(sort_by(s.drop_last(), lt), s.last(), lt);
        assert(s.drop_last().push(s.last()) =~= s);
    }
}

/// Ordering links by object is a strict order.
pub proof fn lemma_link_object_order()
    ensures
        strict_order(link_object_lt()),
{
    assert forall|a: LinkView| !#[trigger] (link_object_lt())(a, a) by {
        lemma_seq_lt_irreflexive(a.object);
    }
    assert forall|a: LinkView, b: LinkView, c: LinkView|
        #[trigger] (link_object_lt())(a, b) && #[trigger] (link_object_lt())(b, c) implies (
        link_object_lt())(a, c) by {
        lemma_seq_lt_transitive(a.object, b.object, c.object);
    }
}

/// Ordering links by subject and then object is a strict order.
pub proof fn lemma_link_subject_object_order()
    ensures
        strict_order(link_subject_object_lt()),
{
    let lt = link_subject_object_lt();
    assert forall|a: LinkView| !#[trigger] lt(a, a) by {
        lemma_seq_lt_irreflexive(a.subject);
        lemma_seq_lt_irreflexive(a.object);
    }
    assert forall|a: LinkView, b: LinkView, c: LinkView|
        #[trigger] lt(a, b) && #[trigger] lt(b, c) implies lt(a, c) by {
        lemma_seq_lt_irreflexive(a.subject);
        lemma_seq_lt_irreflexive(b.subject);
        if seq_lt(a.subject, b.subject) && seq_lt(b.subject, c.subject) {
            lemma_seq_lt_transitive(a.subject, b.subject, c.subject);
        }
        if a.subject == b.subject && b.subject == c.subject {
            lemma_seq_lt_transitive(a.object, b.object, c.object);
        }
    }
}

/// Ordering entities by name is a strict order.
pub proof fn lemma_entity_name_order()
    ensures
        strict_order(entity_name_lt()),
{
    assert forall|a: EntityView| !#[trigger] (entity_name_lt())(a, a) by {
        lemma_seq_lt_irreflexive(a.name);
    }
    assert forall|a: EntityView, b: EntityView, c: EntityView|
        #[trigger] (entity_name_lt())(a, b) && #[trigger] (entity_name_lt())(b, c) implies (
        entity_name_lt())(a, c) by {
        lemma_seq_lt_transitive(a.name, b.name, c.name);
    }
}


// ---- sorted sequences with the same elements ---------------------------------

/// `klt` is a strict total order.
pub open spec fn total_order<K>(klt: spec_fn(K, K) -> bool) -> bool {
    &&& forall|a: K| !#[trigger] klt(a, a)
    &&& forall|a: K, b: K, c: K| #[trigger] klt(a, b) && #[trigger] klt(b, c) ==> klt(a, c)
    &&& forall|a: K, b: K| a != b ==> #[trigger] klt(a, b) || klt(b, a)
}

/// Elements ordered by a key.
pub open spec fn by_key<T, K>(key: spec_fn(T) -> K, klt: spec_fn(K, K) -> bool) -> spec_fn(
    T,
    T,
) -> bool {
    |x: T, y: T| klt(key(x), key(y))
}

proof fn lemma_filter_count<T>(s: Seq<T>, p: spec_fn(T) -> bool, x: T)
    ensures
        s.filter(p).to_multiset().count(x) == if p(x) {
            s.to_multiset().count(x)
        } else {
            0
        },
    decreases s.len(),
{
    broadcast use vstd::seq_lib::group_to_multiset_ensures;

    reveal(Seq::filter);
    if s.len() == 0 {
        assert(s.filter(p) =~= Seq::<T>::empty());
    } else {
        let t = s.drop_last();
        lemma_filter_count(t, p, x);
        assert(t.push(s.last()) =~= s);
    }
}

/// Filtering keeps equal multisets equal.
pub proof fn lemma_filter_multiset<T>(s1: Seq<T>, s2: Seq<T>, p: spec_fn(T) -> bool)
    requires
        s1.to_multiset() == s2.to_multiset(),
    ensures
        s1.filter(p).to_multiset() == s2.filter(p).to_multiset(),
{
    assert forall|x: T| #[trigger] s1.filter(p).to_multiset().count(x) == s2.filter(
        p,
    ).to_multiset().count(x) by {
        lemma_filter_count(s1, p, x);
        lemma_filter_count(s2, p, x);
    }
    assert(s1.filter(p).to_multiset() =~= s2.filter(p).to_multiset());
}

proof fn lemma_in_multiset<T>(a: Seq<T>, b: Seq<T>, i: int) -> (k: int)
    requires
        a.to_multiset() == b.to_multiset(),
        0 <= i < a.len(),
    ensures
        0 <= k < b.len(),
        b[k] == a[i],
{
    broadcast use vstd::seq_lib::group_to_multiset_ensures;

    assert(a.contains(a[i]));
    assert(a.to_multiset().count(a[i]) > 0);
    assert(b.to_multiset().count(a[i]) > 0);
    assert(b.contains(a[i]));
    choose|k: int| 0 <= k < b.len() && b[k] == a[i]
}

/// Two sequences with the same elements, both sorted by a key under a strict
/// total order, list the same keys in the same order.
pub proof fn lemma_sorted_same_keys<T, K>(
    a: Seq<T>,
    b: Seq<T>,
    key: spec_fn(T) -> K,
    klt: spec_fn(K, K) -> bool,
)
    requires
        total_order(klt),
        sorted_by(a, by_key(key, klt)),
        sorted_by(b, by_key(key, klt)),
        a.to_multiset() == b.to_multiset(),
    ensures
        a.map_values(key) == b.map_values(key),
    decreases a.len(),
{
    broadcast use vstd::seq_lib::group_to_multiset_ensures;

    let lt = by_key(key, klt);
    assert(a.len() == a.to_multiset().len());
    assert(b.len() == b.to_multiset().len());
    if a.len() == 0 {
        assert(a.map_values(key) =~= b.map_values(key));
    } else {
        let k = lemma_in_multiset(a, b, 0);
        let m = lemma_in_multiset(b, a, 0);
        // The first keys agree.
        if k > 0 {
            assert(!lt(b[k], b[0]));
        }
        if m > 0 {
            assert(!lt(a[m], a[0]));
        }
        assert(key(a[0]) == key(b[0]));
        // Up to position k, b's keys are all that key.
        assert forall|j: int| 0 <= j <= k implies key(#[trigger] b[j]) == key(b[0]) by {
            if j > 0 {
                assert(!lt(b[j], b[0]));
            }
            if j < k {
                assert(!lt(b[k], b[j]));
            }
            if key(b[j]) != key(b[0]) {
                assert(klt(key(b[0]), key(b[j])));
                if j < k && key(b[k]) != key(b[j]) {
                    assert(klt(key(b[j]), key(b[k])));
                }
            }
        }
        let a1 = a.drop_first();
        let b1 = b.remove(k);
        assert(a.remove(0) =~= a1);
        assert(a1.to_multiset() == a.to_multiset().remove(a[0]));
        assert(b1.to_multiset() == b.to_multiset().remove(b[k]));
        assert forall|i: int, j: int| 0 <= i < j < a1.len() implies !lt(
            #[trigger] a1[j],
            #[trigger] a1[i],
        ) by {
            assert(a1[j] == a[j + 1] && a1[i] == a[i + 1]);
        }
        assert forall|i: int, j: int| 0 <= i < j < b1.len() implies !lt(
            #[trigger] b1[j],
            #[trigger] b1[i],
        ) by {
            let ii = if i < k {
                i
            } else {
                i + 1
            };
            let jj = if j < k {
                j
            } else {
                j + 1
            };
            assert(b1[i] == b[ii] && b1[j] == b[jj]);
        }
        lemma_sorted_same_keys(a1, b1, key, klt);
        assert forall|i: int| 0 <= i < a.len() implies #[trigger] a.map_values(key)[i]
            == b.map_values(key)[i] by {
            if i > 0 {
                assert(a1.map_values(key)[i - 1] == b1.map_values(key)[i - 1]);
                assert(a[i] == a1[i - 1]);
                if i - 1 < k {
                    assert(b1[i - 1] == b[i - 1]);
                    assert(key(b[i - 1]) == key(b[0]));
                    assert(key(b[i]) == key(b[0]));
                } else {
                    assert(b1[i - 1] == b[i]);
                }
            }
        }
        assert(a.map_values(key) =~= b.map_values(key));
    }
}


// ---- stability -----------------------------------------------------------------

pub open spec fn key_is<T, K>(key: spec_fn(T) -> K, k: K) -> spec_fn(T) -> bool {
    |x: T| key(x) == k
}

proof fn lemma_key_order_strict<T, K>(key: spec_fn(T) -> K, klt: spec_fn(K, K) -> bool)
    requires
        total_order(klt),
    ensures
        strict_order(by_key(key, klt)),
{
    let lt = by_key(key, klt);
    assert forall|a: T| !#[trigger] lt(a, a) by {
        assert(!klt(key(a), key(a)));
    }
    assert forall|a: T, b: T, c: T| #[trigger] lt(a, b) && #[trigger] lt(b, c) implies lt(a, c) by {
        assert(klt(key(a), key(b)) && klt(key(b), key(c)));
    }
}

pub proof fn lemma_filter_none<T>(s: Seq<T>, p: spec_fn(T) -> bool)
    requires
        forall|i: int| 0 <= i < s.len() ==> !p(#[trigger] s[i]),
    ensures
        s.filter(p) == Seq::<T>::empty(),
{
    assert forall|i: int| 0 <= i < s.len() implies (|x: T| !p(x))(#[trigger] s[i]) by {}
    s.lemma_all_neg_filter_empty(p);
    assert(s.filter(p) =~= Seq::<T>::empty());
}

proof fn lemma_insert_class<T, K>(
    t: Seq<T>,
    y: T,
    key: spec_fn(T) -> K,
    klt: spec_fn(K, K) -> bool,
    k: K,
)
    requires
        total_order(klt),
        sorted_by(t, by_key(key, klt)),
    ensures
        insert_by(t, y, by_key(key, klt)).filter(key_is(key, k)) == if key(y) == k {
            t.filter(key_is(key, k)).push(y)
        } else {
            t.filter(key_is(key, k))
        },
{
    reveal(Seq::filter);
    let lt = by_key(key, klt);
    let p = key_is(key, k);
    let j = lemma_insert_position(t, y, lt);
    let a = t.take(j);
    let b = t.skip(j);
    assert(t.insert(j, y) =~= a + seq![y] + b);
    assert(t =~= a + b);
    Seq::filter_distributes_over_add(a + seq![y], b, p);
    Seq::filter_distributes_over_add(a, seq![y], p);
    Seq::filter_distributes_over_add(a, b, p);
    assert(seq![y].drop_last() =~= Seq::<T>::empty());
    assert(Seq::<T>::empty().filter(p) =~= Seq::<T>::empty());
    assert(seq![y].last() == y);
    if key(y) == k {
        assert forall|i: int| 0 <= i < b.len() implies !p(#[trigger] b[i]) by {
            assert(b[i] == t[j + i]);
            assert(klt(key(y), key(t[j])));
            if i > 0 {
                assert(!lt(t[j + i], t[j]));
                if key(t[j + i]) != key(t[j]) {
                    assert(klt(key(t[j]), key(t[j + i])));
                }
            }
        }
        lemma_filter_none(b, p);
        assert(seq![y].filter(p) =~= seq![y]);
        assert(b.filter(p) =~= Seq::<T>::empty());
        assert(a.filter(p) + seq![y] + b.filter(p) =~= (a.filter(p) + b.filter(p)).push(y));
    } else {
        assert(seq![y].filter(p) =~= Seq::<T>::empty());
        assert(a.filter(p) + seq![y].filter(p) =~= a.filter(p));
    }
}

/// Sorting is stable: the elements of any one key come out in the order they
/// came in.
pub proof fn lemma_sort_stable<T, K>(
    s: Seq<T>,
    key: spec_fn(T) -> K,
    klt: spec_fn(K, K) -> bool,
    k: K,
)
    requires
        total_order(klt),
    ensures
        sort_by(s, by_key(key, klt)).filter(key_is(key, k)) == s.filter(key_is(key, k)),
    decreases s.len(),
{
    reveal(Seq::filter);
    if s.len() > 0 {
        let lt = by_key(key, klt);
        lemma_key_order_strict(key, klt);
        lemma_sort_by(s.drop_last(), lt);
        lemma_sort_stable(s.drop_last(), key, klt, k);
        lemma_insert_class(sort_by(s.drop_last(), lt), s.last(), key, klt, k);
    }
}

} // verus!
