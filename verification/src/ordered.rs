//! Texts in order, and maps keyed by text.

use vstd::prelude::*;

use crate::text::chars_of;

verus! {

/// Dictionary order by code point.
pub open spec fn precedes(a: Seq<char>, b: Seq<char>) -> bool
    decreases a.len(),
{
    if b.len() == 0 {
        false
    } else if a.len() == 0 {
        true
    } else if a[0] != b[0] {
        a[0] < b[0]
    } else {
        precedes(a.drop_first(), b.drop_first())
    }
}

pub proof fn lemma_precedes_trichotomy(a: Seq<char>, b: Seq<char>)
    ensures
        a == b ==> !precedes(a, b),
        a != b ==> (precedes(a, b) <==> !precedes(b, a)),
    decreases a.len(),
{
    if a.len() == 0 && b.len() == 0 {
        assert(a =~= b);
    } else if a.len() > 0 && b.len() > 0 && a[0] == b[0] {
        lemma_precedes_trichotomy(a.drop_first(), b.drop_first());
        if a.drop_first() == b.drop_first() {
            assert(a =~= seq![a[0]] + a.drop_first());
            assert(b =~= seq![b[0]] + b.drop_first());
        }
    }
}

pub proof fn lemma_precedes_transitive(a: Seq<char>, b: Seq<char>, c: Seq<char>)
    requires
        precedes(a, b),
        precedes(b, c),
    ensures
        precedes(a, c),
    decreases a.len(),
{
    if a.len() > 0 && b.len() > 0 && c.len() > 0 && a[0] == b[0] && b[0] == c[0] {
        lemma_precedes_transitive(a.drop_first(), b.drop_first(), c.drop_first());
    }
}

/// Whether one text stands before another.
pub fn before(a: &str, b: &str) -> (yes: bool)
    ensures
        yes == precedes(a@, b@),
{
    let left = chars_of(a);
    let right = chars_of(b);
    let mut i: usize = 0;
    assert(left@.skip(0) =~= left@);
    assert(right@.skip(0) =~= right@);
    loop
        invariant
            i <= left@.len(),
            i <= right@.len(),
            left@ == a@,
            right@ == b@,
            precedes(a@, b@) == precedes(left@.skip(i as int), right@.skip(i as int)),
        decreases left@.len() - i,
    {
        if i >= right.len() {
            return false;
        }
        if i >= left.len() {
            return true;
        }
        if left[i] != right[i] {
            return left[i] < right[i];
        }
        assert(left@.skip(i as int).drop_first() =~= left@.skip(i + 1));
        assert(right@.skip(i as int).drop_first() =~= right@.skip(i + 1));
        i = i + 1;
    }
}

/// A map from text, kept in key order with each key once.
#[derive(Debug)]
pub struct TextMap<V> {
    entries: Vec<(String, V)>,
}

/// Keys strictly increasing.
pub open spec fn in_key_order<V>(entries: Seq<(String, V)>) -> bool {
    forall|i: int, j: int|
        0 <= i < j < entries.len() ==> precedes(#[trigger] entries[i].0@, #[trigger] entries[j].0@)
}

/// Where a key stands among the entries, or -1.
pub open spec fn place_of<V>(entries: Seq<(String, V)>, key: Seq<char>) -> int {
    if exists|i: int| 0 <= i < entries.len() && (#[trigger] entries[i]).0@ == key {
        choose|i: int| 0 <= i < entries.len() && (#[trigger] entries[i]).0@ == key
    } else {
        -1
    }
}

/// The map that a list of entries denotes.
pub open spec fn map_of<V>(entries: Seq<(String, V)>) -> Map<Seq<char>, V> {
    Map::new(|key: Seq<char>| place_of(entries, key) >= 0, |key: Seq<char>| entries[place_of(entries, key)].1)
}

proof fn lemma_place<V>(entries: Seq<(String, V)>, i: int)
    requires
        in_key_order(entries),
        0 <= i < entries.len(),
    ensures
        place_of(entries, entries[i].0@) == i,
{
    let key = entries[i].0@;
    let j = place_of(entries, key);
    assert(entries[i].0@ == key);
    lemma_precedes_trichotomy(key, key);
    if i < j {
        assert(precedes(entries[i].0@, entries[j].0@));
    }
    if j < i {
        assert(precedes(entries[j].0@, entries[i].0@));
    }
}

impl<V> TextMap<V> {
    #[verifier::type_invariant]
    spec fn ordered(self) -> bool {
        in_key_order(self.entries@)
    }

    pub fn new() -> (m: Self)
        ensures
            m@ == Map::<Seq<char>, V>::empty(),
    {
        let m = TextMap { entries: Vec::new() };
        assert(m@ =~= Map::<Seq<char>, V>::empty());
        m
    }

    /// Where a key stands, and whether it is there. When it is not, the place
    /// is where it would go.
    fn find(&self, key: &str) -> (at: (usize, bool))
        ensures
            at.0 <= self.entries@.len(),
            forall|i: int| 0 <= i < at.0 ==> precedes((#[trigger] self.entries@[i]).0@, key@),
            at.1 ==> at.0 < self.entries@.len() && self.entries@[at.0 as int].0@ == key@,
            !at.1 ==> forall|i: int|
                at.0 <= i < self.entries@.len() ==> precedes(key@, (#[trigger] self.entries@[i]).0@),
    {
        proof {
            use_type_invariant(self);
        }
        let mut i: usize = 0;
        while i < self.entries.len() && before(self.entries[i].0.as_str(), key)
            invariant
                i <= self.entries@.len(),
                forall|k: int| 0 <= k < i ==> precedes((#[trigger] self.entries@[k]).0@, key@),
            decreases self.entries@.len() - i,
        {
            i = i + 1;
        }
        if i < self.entries.len() {
            let found = !before(key, self.entries[i].0.as_str());
            proof {
                let here = self.entries@[i as int].0@;
                lemma_precedes_trichotomy(here, key@);
                if !found {
                    assert forall|k: int| i <= k < self.entries@.len() implies precedes(
                        key@,
                        (#[trigger] self.entries@[k]).0@,
                    ) by {
                        if k > i {
                            assert(precedes(self.entries@[i as int].0@, self.entries@[k].0@));
                            lemma_precedes_transitive(key@, here, self.entries@[k].0@);
                        }
                    }
                }
            }
            (i, found)
        } else {
            (i, false)
        }
    }

    proof fn lemma_absent(self, key: Seq<char>, at: int)
        requires
            0 <= at <= self.entries@.len(),
            forall|i: int| 0 <= i < at ==> precedes((#[trigger] self.entries@[i]).0@, key),
            forall|i: int|
                at <= i < self.entries@.len() ==> precedes(key, (#[trigger] self.entries@[i]).0@),
        ensures
            !self@.contains_key(key),
    {
        lemma_precedes_trichotomy(key, key);
        let place = place_of(self.entries@, key);
        if place >= 0 {
            assert(self.entries@[place].0@ == key);
        }
    }

    pub fn get(&self, key: &str) -> (found: Option<&V>)
        ensures
            match found {
                Some(v) => self@.contains_key(key@) && *v == self@[key@],
                None => !self@.contains_key(key@),
            },
    {
        let at = self.find(key);
        proof {
            use_type_invariant(self);
        }
        if at.1 {
            proof {
                lemma_place(self.entries@, at.0 as int);
            }
            Some(&self.entries[at.0].1)
        } else {
            proof {
                self.lemma_absent(key@, at.0 as int);
            }
            None
        }
    }

    /// Set a key, replacing what it had.
    pub fn insert(&mut self, key: String, value: V)
        ensures
            final(self)@ == old(self)@.insert(key@, value),
    {
        let at = self.find(key.as_str());
        proof {
            use_type_invariant(&*self);
        }
        let ghost was = self.entries@;
        let ghost k = key@;
        let mut entries: Vec<(String, V)> = Vec::new();
        std::mem::swap(&mut entries, &mut self.entries);
        proof {
            if !at.1 {
                old(self).lemma_absent(k, at.0 as int);
            }
        }
        if at.1 {
            entries.remove(at.0);
        }
        let ghost less = entries@;
        entries.insert(at.0, (key, value));
        proof {
            let now = entries@;
            let shift: int = if at.1 { 0 } else { 1 };
            assert forall|i: int| 0 <= i < now.len() implies now[i] == (if i < at.0 {
                was[i]
            } else if i == at.0 {
                (key, value)
            } else {
                was[i - shift]
            }) by {}
            assert forall|i: int, j: int| 0 <= i < j < now.len() implies precedes(
                #[trigger] now[i].0@,
                #[trigger] now[j].0@,
            ) by {
                if i < at.0 && j < at.0 {
                    assert(precedes(was[i].0@, was[j].0@));
                } else if i < at.0 && j == at.0 {
                    assert(precedes(was[i].0@, k));
                } else if i < at.0 {
                    assert(precedes(was[i].0@, was[j - shift].0@));
                } else if i == at.0 {
                    if at.1 {
                        assert(precedes(was[at.0 as int].0@, was[j].0@));
                    } else {
                        assert(precedes(k, was[j - 1].0@));
                    }
                } else {
                    assert(precedes(was[i - shift].0@, was[j - shift].0@));
                }
            }
            assert(in_key_order(now));
            lemma_insert_map(was, now, at.0 as int, at.1, key, value);
        }
        self.entries = entries;
    }

    /// Set a key that has nothing yet; one that has keeps it.
    pub fn insert_if_absent(&mut self, key: String, value: V)
        ensures
            final(self)@ == (if old(self)@.contains_key(key@) {
                old(self)@
            } else {
                old(self)@.insert(key@, value)
            }),
    {
        if self.get(key.as_str()).is_none() {
            self.insert(key, value);
        }
    }
}

impl<V> View for TextMap<V> {
    type V = Map<Seq<char>, V>;

    closed spec fn view(&self) -> Map<Seq<char>, V> {
        map_of(self.entries@)
    }
}

/// A map is a larger value than anything it holds.
pub broadcast proof fn lemma_entry_smaller<V>(m: TextMap<V>, key: Seq<char>)
    requires
        m@.contains_key(key),
    ensures
        #[trigger] (decreases_to!(m => m@[key])),
{
    let i = place_of(m.entries@, key);
    assert(decreases_to!(m => m.entries));
    assert(decreases_to!(m.entries => m.entries@));
    assert(decreases_to!(m.entries@ => m.entries@[i]));
    assert(decreases_to!(m.entries@[i] => m.entries@[i].1));
}

proof fn lemma_insert_map<V>(
    was: Seq<(String, V)>,
    now: Seq<(String, V)>,
    at: int,
    replaced: bool,
    key: String,
    value: V,
)
    requires
        in_key_order(was),
        in_key_order(now),
        0 <= at <= was.len(),
        replaced ==> at < was.len() && was[at].0@ == key@,
        !replaced ==> !map_of(was).contains_key(key@),
        now.len() == was.len() + (if replaced { 0int } else { 1 }),
        forall|i: int|
            0 <= i < now.len() ==> now[i] == (if i < at {
                was[i]
            } else if i == at {
                (key, value)
            } else {
                was[i - (if replaced { 0int } else { 1 })]
            }),
    ensures
        map_of(now) == map_of(was).insert(key@, value),
{
    let shift: int = if replaced { 0 } else { 1 };
    let target = map_of(was).insert(key@, value);
    assert forall|k: Seq<char>| map_of(now).contains_key(k) == target.contains_key(k) by {
        let p = place_of(now, k);
        let q = place_of(was, k);
        if p >= 0 {
            assert(now[p].0@ == k);
            if p < at {
                assert(was[p].0@ == k);
            } else if p > at {
                assert(was[p - shift].0@ == k);
            }
        }
        if q >= 0 {
            assert(was[q].0@ == k);
            if q < at {
                assert(now[q].0@ == k);
            } else if q == at && replaced {
                assert(now[at].0@ == k);
            } else {
                assert(now[q + shift].0@ == k);
            }
        }
        if k == key@ {
            assert(now[at].0@ == k);
        }
    }
    assert forall|k: Seq<char>| map_of(now).contains_key(k) implies map_of(now)[k] == target[k] by {
        let p = place_of(now, k);
        assert(now[p].0@ == k);
        lemma_place(now, at);
        if p < at {
            lemma_place(was, p);
        } else if p > at {
            assert(was[p - shift].0@ == k);
            lemma_place(was, p - shift);
        }
    }
    assert(map_of(now) =~= target);
}

/// The first character in which two texts differ decides, by its code point.
/// Where one is the start of the other, the shorter comes first.
pub proof fn lemma_first_difference_decides(common: Seq<char>, a: Seq<char>, b: Seq<char>)
    ensures
        a.len() > 0 && b.len() > 0 && a[0] < b[0] ==> precedes(
            common + a,
            common + b,
        ) && !precedes(common + b, common + a),
        a.len() == 0 && b.len() > 0 ==> precedes(common + a, common + b) && !precedes(
            common + b,
            common + a,
        ),
        !precedes(common, common),
    decreases common.len(),
{
    let x = common + a;
    let y = common + b;
    lemma_precedes_trichotomy(common, common);
    lemma_precedes_trichotomy(x, y);
    if common.len() > 0 {
        let rest = common.drop_first();
        lemma_first_difference_decides(rest, a, b);
        assert(x.drop_first() =~= rest + a);
        assert(y.drop_first() =~= rest + b);
    } else {
        assert(x =~= a);
        assert(y =~= b);
    }
    if a.len() == 0 && b.len() > 0 {
        assert(x.len() != y.len());
    }
    if a.len() > 0 && b.len() > 0 && a[0] < b[0] {
        assert(x[common.len() as int] != y[common.len() as int]);
    }
}

} // verus!
