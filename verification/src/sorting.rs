//! Putting things in the order of a text they carry.

use vstd::multiset::Multiset;
use vstd::prelude::*;
use vstd::seq_lib::*;

use crate::ordered::{before, lemma_precedes_transitive, lemma_precedes_trichotomy, precedes};
use crate::text::{same_text, views};

verus! {

/// Something with a text that it is ordered by.
pub trait Keyed: Sized {
    spec fn key(&self) -> Seq<char>;

    fn key_text(&self) -> (text: &str)
        ensures
            text@ == self.key(),
    ;
}

impl Keyed for String {
    open spec fn key(&self) -> Seq<char> {
        self@
    }

    fn key_text(&self) -> (text: &str) {
        self.as_str()
    }
}

/// The first place whose key does not come before `k`.
pub open spec fn slot_by<T>(items: Seq<T>, key: spec_fn(T) -> Seq<char>, k: Seq<char>) -> int
    decreases items.len(),
{
    if items.len() == 0 || !precedes(key(items[0]), k) {
        0
    } else {
        1 + slot_by(items.skip(1), key, k)
    }
}

/// The same items in the order of their keys, those with one key in the order
/// they had.
pub open spec fn in_order_by<T>(items: Seq<T>, key: spec_fn(T) -> Seq<char>) -> Seq<T>
    decreases items.len(),
{
    if items.len() == 0 {
        items
    } else {
        let rest = in_order_by(items.skip(1), key);
        rest.insert(slot_by(rest, key, key(items[0])), items[0])
    }
}

/// The key of something that has one.
pub open spec fn own_key<T: Keyed>() -> spec_fn(T) -> Seq<char> {
    |item: T| item.key()
}

/// Things that have a key, in the order of their keys.
pub open spec fn in_order<T: Keyed>(items: Seq<T>) -> Seq<T> {
    in_order_by(items, own_key::<T>())
}

/// Texts in order.
pub open spec fn texts_in_order(texts: Seq<Seq<char>>) -> Seq<Seq<char>> {
    in_order_by(texts, |t: Seq<char>| t)
}

proof fn lemma_slot<T>(items: Seq<T>, key: spec_fn(T) -> Seq<char>, k: Seq<char>)
    ensures
        0 <= slot_by(items, key, k) <= items.len(),
        forall|i: int| 0 <= i < slot_by(items, key, k) ==> precedes(key(#[trigger] items[i]), k),
        slot_by(items, key, k) < items.len() ==> !precedes(key(items[slot_by(items, key, k)]), k),
    decreases items.len(),
{
    if items.len() > 0 && precedes(key(items[0]), k) {
        lemma_slot(items.skip(1), key, k);
        assert forall|i: int| 0 <= i < slot_by(items, key, k) implies precedes(
            key(#[trigger] items[i]),
            k,
        ) by {
            if i > 0 {
                assert(items.skip(1)[i - 1] == items[i]);
            }
        }
    }
}

proof fn lemma_slot_unique<T>(items: Seq<T>, key: spec_fn(T) -> Seq<char>, k: Seq<char>, at: int)
    requires
        0 <= at <= items.len(),
        forall|i: int| 0 <= i < at ==> precedes(key(#[trigger] items[i]), k),
        at < items.len() ==> !precedes(key(items[at]), k),
    ensures
        slot_by(items, key, k) == at,
{
    lemma_slot(items, key, k);
    let s = slot_by(items, key, k);
    if s < at {
        assert(precedes(key(items[s]), k));
    }
    if at < s {
        assert(precedes(key(items[at]), k));
    }
}

/// Whether keys never come before those that stand earlier.
pub open spec fn ascending<T>(items: Seq<T>, key: spec_fn(T) -> Seq<char>) -> bool {
    forall|i: int, j: int|
        0 <= i < j < items.len() ==> !precedes(key(#[trigger] items[j]), key(#[trigger] items[i]))
}

/// Sorting keeps every item, and no item comes before one with a smaller key.
pub proof fn lemma_in_order<T>(items: Seq<T>, key: spec_fn(T) -> Seq<char>)
    ensures
        ascending(in_order_by(items, key), key),
        in_order_by(items, key).to_multiset() == items.to_multiset(),
        in_order_by(items, key).len() == items.len(),
    decreases items.len(),
{
    broadcast use group_to_multiset_ensures;

    if items.len() > 0 {
        let rest = in_order_by(items.skip(1), key);
        let x = items[0];
        let at = slot_by(rest, key, key(x));
        lemma_in_order(items.skip(1), key);
        lemma_slot(rest, key, key(x));
        let out = rest.insert(at, x);
        assert forall|i: int, j: int| 0 <= i < j < out.len() implies !precedes(
            key(#[trigger] out[j]),
            key(#[trigger] out[i]),
        ) by {
            if i == at {
                // everything after the slot is not before the key at the slot
                let y = rest[j - 1];
                if precedes(key(y), key(x)) {
                    let z = rest[at];
                    if j - 1 > at {
                        assert(!precedes(key(rest[j - 1]), key(rest[at])));
                        lemma_precedes_trichotomy(key(z), key(y));
                        if precedes(key(z), key(y)) {
                            lemma_precedes_transitive(key(z), key(y), key(x));
                        }
                    }
                    assert(false);
                }
            } else if j == at {
                lemma_precedes_trichotomy(key(rest[i]), key(x));
                assert(precedes(key(rest[i]), key(x)));
            } else {
                let a = if i < at { i } else { i - 1 };
                let b = if j < at { j } else { j - 1 };
                assert(out[i] == rest[a] && out[j] == rest[b]);
            }
        }
        assert(items =~= seq![x] + items.skip(1));
        lemma_multiset_commutative(seq![x], items.skip(1));
        assert(seq![x].to_multiset() =~= Multiset::singleton(x)) by {
            assert(seq![x] =~= Seq::<T>::empty().push(x));
        }
        assert(out.to_multiset() =~= items.to_multiset());
    }
}

/// Sorting goes by the keys alone: it can be done before or after the items
/// are turned into something else that has the same keys.
pub proof fn lemma_in_order_map<T, U>(
    items: Seq<T>,
    key: spec_fn(T) -> Seq<char>,
    f: spec_fn(T) -> U,
    other: spec_fn(U) -> Seq<char>,
)
    requires
        forall|x: T| #[trigger] other(f(x)) == key(x),
    ensures
        in_order_by(items.map_values(f), other) == in_order_by(items, key).map_values(f),
    decreases items.len(),
{
    let mapped = items.map_values(f);
    if items.len() == 0 {
        assert(in_order_by(mapped, other) =~= in_order_by(items, key).map_values(f));
    } else {
        lemma_in_order_map(items.skip(1), key, f, other);
        let rest = in_order_by(items.skip(1), key);
        assert(mapped.skip(1) =~= items.skip(1).map_values(f));
        let at = slot_by(rest, key, key(items[0]));
        lemma_slot(rest, key, key(items[0]));
        let other_rest = rest.map_values(f);
        assert forall|i: int| 0 <= i < at implies precedes(
            other(#[trigger] other_rest[i]),
            key(items[0]),
        ) by {
            assert(other_rest[i] == f(rest[i]));
        }
        if at < rest.len() {
            assert(other_rest[at] == f(rest[at]));
        }
        lemma_slot_unique(other_rest, other, key(items[0]), at);
        assert(other(mapped[0]) == key(items[0]));
        assert(in_order_by(mapped, other) =~= in_order_by(items, key).map_values(f));
    }
}

/// Sorted strings are the sorted texts.
pub proof fn lemma_strings_in_order(items: Seq<String>)
    ensures
        views(in_order(items)) == texts_in_order(views(items)),
{
    let f = |s: String| s@;
    let other = |t: Seq<char>| t;
    lemma_in_order_map(items, own_key::<String>(), f, other);
    assert(views(items) =~= items.map_values(f));
    assert(views(in_order(items)) =~= in_order(items).map_values(f));
}

/// Put items in order.
pub fn sort<T: Keyed>(items: Vec<T>) -> (out: Vec<T>)
    ensures
        out@ == in_order(items@),
{
    let ghost all = items@;
    let mut items = items;
    let mut out: Vec<T> = Vec::new();
    assert(all.skip(all.len() as int) =~= out@);
    while items.len() > 0
        invariant
            items@.len() <= all.len(),
            items@ == all.take(items@.len() as int),
            out@ == in_order(all.skip(items@.len() as int)),
        decreases items@.len(),
    {
        let ghost n = items@.len() - 1;
        match items.pop() {
            None => {},
            Some(item) => {
                let at = find_slot(&out, item.key_text());
                proof {
                    lemma_slot(out@, own_key::<T>(), item.key());
                    assert(all.skip(n)[0] == item);
                    assert(all.skip(n).skip(1) =~= all.skip(n + 1));
                }
                out.insert(at, item);
                assert(items@ =~= all.take(n));
            },
        }
    }
    assert(all.skip(0) =~= all);
    out
}

fn find_slot<T: Keyed>(items: &Vec<T>, key: &str) -> (at: usize)
    ensures
        at == slot_by(items@, own_key::<T>(), key@),
{
    let mut at: usize = 0;
    while at < items.len() && before(items[at].key_text(), key)
        invariant
            at <= items@.len(),
            forall|i: int| 0 <= i < at ==> precedes((#[trigger] items@[i]).key(), key@),
        decreases items@.len() - at,
    {
        at = at + 1;
    }
    proof {
        let own = own_key::<T>();
        assert forall|i: int| 0 <= i < at implies precedes(own(#[trigger] items@[i]), key@) by {
            assert(precedes(items@[i].key(), key@));
        }
        lemma_slot_unique(items@, own, key@, at as int);
    }
    at
}

/// Items without those that have the key of the one just before them.
pub open spec fn without_repeats_by<T>(items: Seq<T>, key: spec_fn(T) -> Seq<char>) -> Seq<T>
    decreases items.len(),
{
    if items.len() < 2 {
        items
    } else {
        let rest = without_repeats_by(items.drop_last(), key);
        if key(items[items.len() - 2]) == key(items.last()) {
            rest
        } else {
            rest.push(items.last())
        }
    }
}

pub open spec fn without_repeats<T: Keyed>(items: Seq<T>) -> Seq<T> {
    without_repeats_by(items, own_key::<T>())
}

/// In ascending order, what is left has each key once, and no key is lost.
pub proof fn lemma_without_repeats<T>(items: Seq<T>, key: spec_fn(T) -> Seq<char>)
    requires
        ascending(items, key),
    ensures
        forall|i: int, j: int|
            0 <= i < j < without_repeats_by(items, key).len() ==> precedes(
                key(#[trigger] without_repeats_by(items, key)[i]),
                key(#[trigger] without_repeats_by(items, key)[j]),
            ),
        items.len() > 0 ==> without_repeats_by(items, key).len() > 0 && key(
            without_repeats_by(items, key).last(),
        ) == key(items.last()),
        forall|k: int|
            0 <= k < items.len() ==> exists|i: int|
                0 <= i < without_repeats_by(items, key).len() && key(
                    #[trigger] without_repeats_by(items, key)[i],
                ) == key(#[trigger] items[k]),
    decreases items.len(),
{
    let out = without_repeats_by(items, key);
    if items.len() == 1 {
        assert(key(out[0]) == key(items[0]));
    }
    if items.len() >= 2 {
        let head = items.drop_last();
        let x = items.last();
        let y = items[items.len() - 2];
        assert forall|i: int, j: int| 0 <= i < j < head.len() implies !precedes(
            key(#[trigger] head[j]),
            key(#[trigger] head[i]),
        ) by {
            assert(head[j] == items[j] && head[i] == items[i]);
        }
        lemma_without_repeats(head, key);
        let rest = without_repeats_by(head, key);
        assert(head.last() == y);
        if key(y) != key(x) {
            assert(!precedes(key(items[items.len() - 1]), key(items[items.len() - 2])));
            lemma_precedes_trichotomy(key(x), key(y));
            assert(precedes(key(y), key(x)));
            assert forall|i: int, j: int| 0 <= i < j < out.len() implies precedes(
                key(#[trigger] out[i]),
                key(#[trigger] out[j]),
            ) by {
                if j < rest.len() {
                    assert(out[i] == rest[i] && out[j] == rest[j]);
                } else {
                    assert(out[j] == x && out[i] == rest[i]);
                    if i < rest.len() - 1 {
                        assert(precedes(key(rest[i]), key(rest[rest.len() - 1])));
                        lemma_precedes_transitive(key(rest[i]), key(y), key(x));
                    }
                }
            }
        }
        assert forall|k: int| 0 <= k < items.len() implies exists|i: int|
            0 <= i < out.len() && key(#[trigger] out[i]) == key(#[trigger] items[k]) by {
            if k < head.len() {
                assert(head[k] == items[k]);
                let i = choose|i: int|
                    0 <= i < rest.len() && key(#[trigger] rest[i]) == key(head[k]);
                assert(key(out[i]) == key(items[k]));
            } else {
                assert(key(out[out.len() - 1]) == key(items[k]));
            }
        }
    }
}

/// Leaving out repeats goes by the keys alone.
pub proof fn lemma_without_repeats_map<T, U>(
    items: Seq<T>,
    key: spec_fn(T) -> Seq<char>,
    f: spec_fn(T) -> U,
    other: spec_fn(U) -> Seq<char>,
)
    requires
        forall|x: T| #[trigger] other(f(x)) == key(x),
    ensures
        without_repeats_by(items.map_values(f), other) == without_repeats_by(items, key).map_values(
            f,
        ),
    decreases items.len(),
{
    let mapped = items.map_values(f);
    if items.len() >= 2 {
        lemma_without_repeats_map(items.drop_last(), key, f, other);
        assert(mapped.drop_last() =~= items.drop_last().map_values(f));
        assert(mapped.last() == f(items.last()));
        assert(mapped[items.len() - 2] == f(items[items.len() - 2]));
    }
    assert(without_repeats_by(mapped, other) =~= without_repeats_by(items, key).map_values(f));
}

/// Remove items that have the key of the one just before them.
pub fn dedup<T: Keyed>(items: Vec<T>) -> (out: Vec<T>)
    ensures
        out@ == without_repeats(items@),
{
    let ghost all = items@;
    let mut kept: Vec<T> = Vec::new();
    for item in it: items
        invariant
            it.seq() == all,
            kept@ == without_repeats(all.take(it.index())),
            kept@.len() > 0 <==> it.index() > 0,
            it.index() > 0 ==> kept@.last().key() == all[it.index() - 1].key(),
    {
        let ghost n = it.index();
        let repeat = if kept.len() > 0 {
            same_text(kept[kept.len() - 1].key_text(), item.key_text())
        } else {
            false
        };
        proof {
            assert(all.take(n + 1).drop_last() =~= all.take(n));
        }
        if !repeat {
            kept.push(item);
        }
        assert(kept@ =~= without_repeats(all.take(n + 1)));
    }
    assert(all.take(all.len() as int) =~= all);
    kept
}

// ---------------------------------------------------- what holds of the order

/// The items with one key, in the order they have.
pub open spec fn only<T>(items: Seq<T>, key: spec_fn(T) -> Seq<char>, k: Seq<char>) -> Seq<T>
    decreases items.len(),
{
    if items.len() == 0 {
        items
    } else if key(items[0]) == k {
        seq![items[0]] + only(items.skip(1), key, k)
    } else {
        only(items.skip(1), key, k)
    }
}

proof fn lemma_only_concat<T>(a: Seq<T>, b: Seq<T>, key: spec_fn(T) -> Seq<char>, k: Seq<char>)
    ensures
        only(a + b, key, k) == only(a, key, k) + only(b, key, k),
    decreases a.len(),
{
    if a.len() == 0 {
        assert(a + b =~= b);
        assert(only(a, key, k) + only(b, key, k) =~= only(b, key, k));
    } else {
        lemma_only_concat(a.skip(1), b, key, k);
        assert((a + b).skip(1) =~= a.skip(1) + b);
        assert(only(a + b, key, k) =~= only(a, key, k) + only(b, key, k));
    }
}

proof fn lemma_only_none<T>(a: Seq<T>, key: spec_fn(T) -> Seq<char>, k: Seq<char>)
    requires
        forall|i: int| 0 <= i < a.len() ==> key(#[trigger] a[i]) != k,
    ensures
        only(a, key, k).len() == 0,
    decreases a.len(),
{
    if a.len() > 0 {
        assert(key(a[0]) != k);
        let rest = a.skip(1);
        assert forall|i: int| 0 <= i < rest.len() implies key(#[trigger] rest[i]) != k by {
            assert(rest[i] == a[i + 1]);
        }
        lemma_only_none(rest, key, k);
    }
}

/// Sorting is stable: those with one key keep the order they had.
pub proof fn lemma_sorting_is_stable<T>(
    items: Seq<T>,
    key: spec_fn(T) -> Seq<char>,
    k: Seq<char>,
)
    ensures
        only(in_order_by(items, key), key, k) == only(items, key, k),
    decreases items.len(),
{
    if items.len() > 0 {
        let rest = in_order_by(items.skip(1), key);
        let x = items[0];
        let at = slot_by(rest, key, key(x));
        lemma_sorting_is_stable(items.skip(1), key, k);
        lemma_slot(rest, key, key(x));
        let a = rest.take(at);
        let b = rest.skip(at);
        assert(rest =~= a + b);
        assert(rest.insert(at, x) =~= a + (seq![x] + b));
        lemma_only_concat(a, b, key, k);
        lemma_only_concat(a, seq![x] + b, key, k);
        assert((seq![x] + b).skip(1) =~= b);
        if key(x) == k {
            assert forall|i: int| 0 <= i < a.len() implies key(#[trigger] a[i]) != k by {
                assert(a[i] == rest[i]);
                lemma_precedes_trichotomy(k, k);
            }
            lemma_only_none(a, key, k);
            assert(only(a, key, k) + (seq![x] + only(b, key, k)) =~= seq![x] + (only(a, key, k)
                + only(b, key, k)));
        }
    }
}

/// Of those with one key the first is left.
pub proof fn lemma_the_first_is_left<T>(items: Seq<T>, key: spec_fn(T) -> Seq<char>, i: int) -> (m:
    int)
    requires
        ascending(items, key),
        0 <= i < without_repeats_by(items, key).len(),
    ensures
        0 <= m < items.len(),
        without_repeats_by(items, key)[i] == items[m],
        forall|j: int| 0 <= j < m ==> key(#[trigger] items[j]) != key(items[m]),
    decreases items.len(),
{
    if items.len() < 2 {
        i
    } else {
        let head = items.drop_last();
        assert(ascending(head, key)) by {
            assert forall|a: int, b: int| 0 <= a < b < head.len() implies !precedes(
                key(#[trigger] head[b]),
                key(#[trigger] head[a]),
            ) by {
                assert(head[a] == items[a] && head[b] == items[b]);
            }
        }
        let rest = without_repeats_by(head, key);
        if i < rest.len() {
            let m = lemma_the_first_is_left(head, key, i);
            assert forall|j: int| 0 <= j < m implies key(#[trigger] items[j]) != key(items[m]) by {
                assert(head[j] == items[j]);
            }
            m
        } else {
            let m = items.len() - 1;
            let prev = items[m - 1];
            assert forall|j: int| 0 <= j < m implies key(#[trigger] items[j]) != key(items[m]) by {
                if key(items[j]) == key(items[m]) {
                    assert(!precedes(key(items[m]), key(prev)));
                    if j < m - 1 {
                        assert(!precedes(key(prev), key(items[j])));
                    }
                    lemma_precedes_trichotomy(key(prev), key(items[m]));
                }
            }
            m
        }
    }
}

/// What comes first of those with one key is the first item with it.
pub proof fn lemma_only_first<T>(
    items: Seq<T>,
    key: spec_fn(T) -> Seq<char>,
    m: int,
)
    requires
        0 <= m < items.len(),
        forall|j: int| 0 <= j < m ==> key(#[trigger] items[j]) != key(items[m]),
    ensures
        only(items, key, key(items[m])).len() > 0,
        only(items, key, key(items[m]))[0] == items[m],
    decreases m,
{
    if m > 0 {
        let rest = items.skip(1);
        assert(rest[m - 1] == items[m]);
        assert forall|j: int| 0 <= j < m - 1 implies key(#[trigger] rest[j]) != key(rest[m - 1]) by {
            assert(rest[j] == items[j + 1]);
        }
        lemma_only_first(rest, key, m - 1);
        assert(key(items[0]) != key(items[m]));
    }
}

proof fn lemma_only_place<T>(items: Seq<T>, key: spec_fn(T) -> Seq<char>, k: Seq<char>) -> (m: int)
    requires
        only(items, key, k).len() > 0,
    ensures
        0 <= m < items.len(),
        key(items[m]) == k,
        items[m] == only(items, key, k)[0],
        forall|j: int| 0 <= j < m ==> key(#[trigger] items[j]) != k,
    decreases items.len(),
{
    if key(items[0]) == k {
        0
    } else {
        let rest = items.skip(1);
        let m = lemma_only_place(rest, key, k);
        assert(rest[m] == items[m + 1]);
        assert forall|j: int| 0 <= j < m + 1 implies key(#[trigger] items[j]) != k by {
            if j > 0 {
                assert(rest[j - 1] == items[j]);
            }
        }
        m + 1
    }
}

/// Where things are sorted and each key is kept once, what is kept of a key is
/// the first thing that had it before.
pub proof fn lemma_first_of_a_key_is_kept<T>(
    items: Seq<T>,
    key: spec_fn(T) -> Seq<char>,
    i: int,
) -> (m: int)
    requires
        0 <= i < without_repeats_by(in_order_by(items, key), key).len(),
    ensures
        0 <= m < items.len(),
        without_repeats_by(in_order_by(items, key), key)[i] == items[m],
        forall|j: int| 0 <= j < m ==> key(#[trigger] items[j]) != key(items[m]),
{
    let sorted = in_order_by(items, key);
    lemma_in_order(items, key);
    let n = lemma_the_first_is_left(sorted, key, i);
    let k = key(sorted[n]);
    lemma_only_first(sorted, key, n);
    lemma_sorting_is_stable(items, key, k);
    lemma_only_place(items, key, k)
}

} // verus!
