//! The order of strings by code point, and a stable sort by a string key.

use vstd::prelude::*;

verus! {

/// Whether `a` comes strictly before `b` in the lexicographic order of their
/// code points: at the first place where they differ `a` has the smaller
/// character, or `a` ends there and `b` goes on.
pub open spec fn precedes(a: Seq<char>, b: Seq<char>) -> bool
    decreases a.len(),
{
    if b.len() == 0 {
        false
    } else if a.len() == 0 {
        true
    } else if a[0] != b[0] {
        a[0] < b[0]
    } else {
        precedes(a.drop_first(), b.drop_first())
    }
}

/// No string precedes itself.
pub proof fn lemma_precedes_irreflexive(a: Seq<char>)
    ensures
        !precedes(a, a),
    decreases a.len(),
{
    if a.len() > 0 {
        lemma_precedes_irreflexive(a.drop_first());
    }
}

/// Of two strings at most one precedes the other.
pub proof fn lemma_precedes_asymmetric(a: Seq<char>, b: Seq<char>)
    requires
        precedes(a, b),
    ensures
        !precedes(b, a),
    decreases a.len(),
{
    if a.len() > 0 && b.len() > 0 && a[0] == b[0] {
        lemma_precedes_asymmetric(a.drop_first(), b.drop_first());
    }
}

/// Of two different strings one precedes the other.
pub proof fn lemma_precedes_total(a: Seq<char>, b: Seq<char>)
    requires
        !precedes(a, b),
        !precedes(b, a),
    ensures
        a == b,
    decreases a.len(),
{
    if a.len() > 0 && b.len() > 0 {
        lemma_precedes_total(a.drop_first(), b.drop_first());
        assert(a =~= seq![a[0]] + a.drop_first());
        assert(b =~= seq![b[0]] + b.drop_first());
    } else {
        assert(a =~= b);
    }
}

/// "Does not come after" is transitive.
pub proof fn lemma_not_after_transitive(a: Seq<char>, b: Seq<char>, c: Seq<char>)
    requires
        !precedes(b, a),
        !precedes(c, b),
    ensures
        !precedes(c, a),
    decreases a.len(),
{
    if a.len() > 0 && b.len() > 0 && c.len() > 0 && a[0] == b[0] && b[0] == c[0] {
        lemma_not_after_transitive(a.drop_first(), b.drop_first(), c.drop_first());
    }
}

/// Executable form of [`precedes`].
pub fn comes_before(a: &Vec<char>, b: &Vec<char>) -> (r: bool)
    ensures
        r == precedes(a@, b@),
{
    let mut i: usize = 0;
    assert(a@.skip(0) =~= a@ && b@.skip(0) =~= b@);
    while i < a.len() && i < b.len() && a[i] == b[i]
        invariant
            i <= a.len(),
            i <= b.len(),
            precedes(a@, b@) == precedes(a@.skip(i as int), b@.skip(i as int)),
        decreases a.len() - i,
    {
        assert(a@.skip(i as int).drop_first() =~= a@.skip(i + 1));
        assert(b@.skip(i as int).drop_first() =~= b@.skip(i + 1));
        i += 1;
    }
    if i >= b.len() {
        false
    } else if i >= a.len() {
        true
    } else {
        assert(a@.skip(i as int)[0] == a@[i as int] && b@.skip(i as int)[0] == b@[i as int]);
        a[i] < b[i]
    }
}

/// Whether the keys that `key` gives never go down along `s`.
pub open spec fn ascending_by<A>(s: Seq<A>, key: spec_fn(A) -> Seq<char>) -> bool {
    forall|i: int, j: int| 0 <= i < j < s.len() ==> !precedes(#[trigger] key(s[j]), #[trigger] key(s[i]))
}

/// Whether `select(k)` tests, for every `k`, that the key of an item is `k`.
pub open spec fn selects_by<A>(
    select: spec_fn(Seq<char>) -> spec_fn(A) -> bool,
    key: spec_fn(A) -> Seq<char>,
) -> bool {
    forall|k: Seq<char>, x: A| #[trigger] select(k)(x) == (key(x) == k)
}

/// Two sequences whose keys ascend, and which hold under every key the same
/// items in the same order, are the same sequence: a stable sort has one
/// result.
pub proof fn lemma_sorted_once<A>(
    a: Seq<A>,
    b: Seq<A>,
    key: spec_fn(A) -> Seq<char>,
    select: spec_fn(Seq<char>) -> spec_fn(A) -> bool,
)
    requires
        selects_by(select, key),
        ascending_by(a, key),
        ascending_by(b, key),
        forall|k: Seq<char>| #[trigger] a.filter(select(k)) == b.filter(select(k)),
    ensures
        a == b,
    decreases a.len(),
{
    if a.len() == 0 {
        if b.len() > 0 {
            let k = key(b.last());
            assert(select(k)(b.last()));
            b.lemma_filter_contains(select(k), b.len() - 1);
            a.lemma_filter_len(select(k));
            assert(a.filter(select(k)) == b.filter(select(k)));
        }
        assert(a =~= b);
    } else {
        let x = a.last();
        let k = key(x);
        let front_a = a.drop_last();
        assert(a =~= front_a.push(x));
        assert(select(k)(x));
        front_a.lemma_filter_push(x, select(k));
        assert(a.filter(select(k)) == b.filter(select(k)));
        assert(b.filter(select(k)).last() == x);
        b.lemma_filter_len(select(k));
        let y = b.last();
        let ky = key(y);
        let front_b = b.drop_last();
        assert(b =~= front_b.push(y));
        assert(select(ky)(y));
        front_b.lemma_filter_push(y, select(ky));
        assert(a.filter(select(ky)) == b.filter(select(ky)));
        if ky != k {
            // Each last item stands before the end of the other sequence,
            // so each key does not come after the other.
            assert(b.filter(select(k)).contains(x));
            b.lemma_filter_contains_rev(select(k), x);
            let j = choose|j: int| 0 <= j < b.len() && b[j] == x;
            assert(!select(ky)(x));
            assert(j < b.len() - 1);
            assert(!precedes(key(b[b.len() - 1]), key(b[j])));
            assert(a.filter(select(ky)).last() == y);
            assert(a.filter(select(ky)).contains(y));
            a.lemma_filter_contains_rev(select(ky), y);
            let i = choose|i: int| 0 <= i < a.len() && a[i] == y;
            assert(!select(k)(y));
            assert(i < a.len() - 1);
            assert(!precedes(key(a[a.len() - 1]), key(a[i])));
            lemma_precedes_total(k, ky);
        }
        assert(x == y);
        assert forall|k2: Seq<char>| #[trigger]
            front_a.filter(select(k2)) == front_b.filter(select(k2)) by {
            front_a.lemma_filter_push(x, select(k2));
            front_b.lemma_filter_push(x, select(k2));
            assert(a.filter(select(k2)) == b.filter(select(k2)));
            if select(k2)(x) {
                assert(front_a.filter(select(k2)).push(x).drop_last() =~= front_a.filter(
                    select(k2),
                ));
                assert(front_b.filter(select(k2)).push(x).drop_last() =~= front_b.filter(
                    select(k2),
                ));
            }
        }
        assert(ascending_by(front_a, key)) by {
            assert forall|i: int, j: int| 0 <= i < j < front_a.len() implies !precedes(
                #[trigger] key(front_a[j]),
                #[trigger] key(front_a[i]),
            ) by {
                assert(front_a[i] == a[i] && front_a[j] == a[j]);
            }
        }
        assert(ascending_by(front_b, key)) by {
            assert forall|i: int, j: int| 0 <= i < j < front_b.len() implies !precedes(
                #[trigger] key(front_b[j]),
                #[trigger] key(front_b[i]),
            ) by {
                assert(front_b[i] == b[i] && front_b[j] == b[j]);
            }
        }
        lemma_sorted_once(front_a, front_b, key, select);
    }
}

/// An item together with the key that orders it.
pub struct Keyed<T> {
    pub key: Vec<char>,
    pub item: T,
}

/// Whether the keys never go down along `s`.
pub open spec fn ascending<T>(s: Seq<Keyed<T>>) -> bool {
    forall|i: int, j: int| 0 <= i < j < s.len() ==> !precedes(#[trigger] s[j].key@, #[trigger] s[i].key@)
}

/// The entries of `s` whose key is `key`, in the order in which `s` holds
/// them.
pub open spec fn with_key<T>(s: Seq<Keyed<T>>, key: Seq<char>) -> Seq<Keyed<T>> {
    s.filter(has_key(key))
}

/// The test that an entry's key is `key`.
pub open spec fn has_key<T>(key: Seq<char>) -> spec_fn(Keyed<T>) -> bool {
    |e: Keyed<T>| e.key@ == key
}

/// What appending an entry does to the entries of one key.
pub(crate) proof fn lemma_with_key_push<T>(s: Seq<Keyed<T>>, x: Keyed<T>, key: Seq<char>)
    ensures
        with_key(s.push(x), key) == if x.key@ == key {
            with_key(s, key).push(x)
        } else {
            with_key(s, key)
        },
{
    s.lemma_filter_push(x, has_key(key));
}

/// An empty sequence holds no entry of any key.
pub(crate) proof fn lemma_with_key_empty<T>(key: Seq<char>)
    ensures
        with_key(Seq::<Keyed<T>>::empty(), key) == Seq::<Keyed<T>>::empty(),
{
    Seq::<Keyed<T>>::empty().lemma_filter_len(has_key(key));
    assert(with_key(Seq::<Keyed<T>>::empty(), key) =~= Seq::<Keyed<T>>::empty());
}

/// Whether `sorted` is `input` sorted by key with equal keys left in their
/// order: the keys ascend, and under every key stand the same entries in the
/// same order as in `input`.
pub open spec fn stably_sorted<T>(input: Seq<Keyed<T>>, sorted: Seq<Keyed<T>>) -> bool {
    &&& ascending(sorted)
    &&& forall|key: Seq<char>| #[trigger] with_key(sorted, key) == with_key(input, key)
}

/// A sequence has one stable sort: two sequences that are each the input
/// stably sorted are equal.
pub proof fn lemma_stable_sort_unique<T>(
    input: Seq<Keyed<T>>,
    first: Seq<Keyed<T>>,
    second: Seq<Keyed<T>>,
)
    requires
        stably_sorted(input, first),
        stably_sorted(input, second),
    ensures
        first == second,
{
    let key = |e: Keyed<T>| e.key@;
    let select = |k: Seq<char>| has_key::<T>(k);
    assert forall|k: Seq<char>| #[trigger] first.filter(select(k)) == second.filter(select(k)) by {
        assert(with_key(first, k) == with_key(input, k));
        assert(with_key(second, k) == with_key(input, k));
    }
    lemma_sorted_once(first, second, key, select);
}

/// Every entry of a stably sorted sequence is an entry of its input.
pub(crate) proof fn lemma_stably_sorted_contains<T>(input: Seq<Keyed<T>>, sorted: Seq<Keyed<T>>, i: int)
    requires
        stably_sorted(input, sorted),
        0 <= i < sorted.len(),
    ensures
        input.contains(sorted[i]),
{
    let key = sorted[i].key@;
    sorted.lemma_filter_contains(has_key(key), i);
    assert(with_key(sorted, key) == with_key(input, key));
    input.lemma_filter_contains_rev(has_key(key), sorted[i]);
}

/// Inserting an entry behind entries with other keys puts it first among the
/// entries of its key and leaves the other keys as they were.
proof fn lemma_with_key_insert<T>(s: Seq<Keyed<T>>, pos: int, x: Keyed<T>, key: Seq<char>)
    requires
        0 <= pos <= s.len(),
        forall|i: int| 0 <= i < pos ==> (#[trigger] s[i]).key@ != x.key@,
    ensures
        with_key(s.insert(pos, x), key) == if x.key@ == key {
            seq![x] + with_key(s, key)
        } else {
            with_key(s, key)
        },
{
    let pred = has_key::<T>(key);
    let front = s.take(pos);
    let back = s.skip(pos);
    assert(s.insert(pos, x) =~= front.push(x) + back);
    assert(s =~= front + back);
    Seq::filter_distributes_over_add(front.push(x), back, pred);
    Seq::filter_distributes_over_add(front, back, pred);
    lemma_with_key_push(front, x, key);
    if x.key@ == key {
        assert(front.all(|e: Keyed<T>| !pred(e)));
        front.lemma_all_neg_filter_empty(pred);
        assert(front.filter(pred) =~= Seq::<Keyed<T>>::empty());
        assert(with_key(s.insert(pos, x), key) =~= seq![x] + with_key(s, key));
    } else {
        assert(with_key(s.insert(pos, x), key) =~= with_key(s, key));
    }
}

/// Finds where `key` goes in the ascending `sorted`: before the first entry
/// that does not precede it.
pub fn insertion_point<T>(sorted: &Vec<Keyed<T>>, key: &Vec<char>) -> (pos: usize)
    ensures
        pos <= sorted.len(),
        forall|i: int| 0 <= i < pos ==> precedes((#[trigger] sorted[i]).key@, key@),
        pos < sorted.len() ==> !precedes(sorted[pos as int].key@, key@),
{
    let mut pos: usize = 0;
    while pos < sorted.len() && comes_before(&sorted[pos].key, key)
        invariant
            pos <= sorted.len(),
            forall|i: int| 0 <= i < pos ==> precedes((#[trigger] sorted[i]).key@, key@),
        decreases sorted.len() - pos,
    {
        pos += 1;
    }
    pos
}

/// Sorts the entries by key. Entries with equal keys stay in the order in
/// which they came.
pub fn stable_sort_by_key<T>(items: Vec<Keyed<T>>) -> (sorted: Vec<Keyed<T>>)
    ensures
        stably_sorted(items@, sorted@),
        sorted.len() == items.len(),
{
    let mut rest = items;
    let mut sorted: Vec<Keyed<T>> = Vec::new();
    assert forall|key: Seq<char>| #[trigger]
        with_key(rest@, key) + with_key(sorted@, key) == with_key(items@, key) by {
        lemma_with_key_empty::<T>(key);
        assert(with_key(rest@, key) + with_key(sorted@, key) =~= with_key(items@, key));
    }
    while rest.len() > 0
        invariant
            ascending(sorted@),
            rest.len() + sorted.len() == items.len(),
            forall|key: Seq<char>| #[trigger]
                with_key(rest@, key) + with_key(sorted@, key) == with_key(items@, key),
        decreases rest.len(),
    {
        let ghost before_rest = rest@;
        let ghost before_sorted = sorted@;
        let x = rest.pop().unwrap();
        let pos = insertion_point(&sorted, &x.key);
        sorted.insert(pos, x);
        proof {
            let kx = x.key@;
            assert forall|i: int| 0 <= i < pos implies (#[trigger] before_sorted[i]).key@ != kx by {
                lemma_precedes_irreflexive(kx);
            }
            assert forall|i: int, j: int| 0 <= i < j < sorted@.len() implies !precedes(
                #[trigger] sorted@[j].key@,
                #[trigger] sorted@[i].key@,
            ) by {
                if j == pos {
                    lemma_precedes_asymmetric(before_sorted[i].key@, kx);
                } else if i == pos {
                    assert(sorted@[j] == before_sorted[j - 1]);
                    if j - 1 > pos {
                        lemma_not_after_transitive(
                            kx,
                            before_sorted[pos as int].key@,
                            before_sorted[j - 1].key@,
                        );
                    }
                } else {
                    let oi = if i < pos { i } else { i - 1 };
                    let oj = if j < pos { j } else { j - 1 };
                    assert(sorted@[i] == before_sorted[oi]);
                    assert(sorted@[j] == before_sorted[oj]);
                }
            }
            assert forall|key: Seq<char>| #[trigger]
                with_key(rest@, key) + with_key(sorted@, key) == with_key(items@, key) by {
                lemma_with_key_insert(before_sorted, pos as int, x, key);
                assert(before_rest =~= rest@.push(x));
                lemma_with_key_push(rest@, x, key);
                assert(with_key(before_rest, key) + with_key(before_sorted, key) == with_key(
                    items@,
                    key,
                ));
                if kx == key {
                    assert(with_key(before_rest, key) == with_key(rest@, key).push(x));
                    assert(with_key(rest@, key).push(x) + with_key(before_sorted, key) =~= with_key(
                        rest@,
                        key,
                    ) + (seq![x] + with_key(before_sorted, key)));
                } else {
                    assert(with_key(before_rest, key) == with_key(rest@, key));
                }
            }
        }
    }
    assert forall|key: Seq<char>| #[trigger] with_key(sorted@, key) == with_key(items@, key) by {
        assert(rest@ =~= Seq::<Keyed<T>>::empty());
        assert(with_key(rest@, key) + with_key(sorted@, key) == with_key(items@, key));
        lemma_with_key_empty::<T>(key);
        assert(with_key(rest@, key) + with_key(sorted@, key) =~= with_key(sorted@, key));
    }
    sorted
}

} // verus!
