//! A map from texts to values that keeps its keys in the order of their
//! characters, which is also the order of their UTF-8 bytes.

use vstd::prelude::*;

use crate::text::chars_of;

verus! {

/// `a` and `b` agree up to position `k`, where `a` ends or has the smaller
/// character.
pub open spec fn smaller_at(a: Seq<char>, b: Seq<char>, k: int) -> bool {
    &&& 0 <= k <= a.len()
    &&& k < b.len()
    &&& forall|j: int| 0 <= j < k ==> #[trigger] a[j] == b[j]
    &&& k == a.len() || a[k] < b[k]
}

/// `a` comes before `b`.
pub open spec fn text_less(a: Seq<char>, b: Seq<char>) -> bool {
    exists|k: int| smaller_at(a, b, k)
}

/// Each text comes before the ones that follow it.
pub open spec fn increasing(keys: Seq<Seq<char>>) -> bool {
    forall|i: int, j: int| 0 <= i < j < keys.len() ==> #[trigger] text_less(keys[i], keys[j])
}

/// The map that sends the i-th key to the i-th value.
pub open spec fn map_of<V>(keys: Seq<Seq<char>>, values: Seq<V>) -> Map<Seq<char>, V> {
    Map::new(|k: Seq<char>| keys.contains(k), |k: Seq<char>| values[keys.index_of(k)])
}

/// The items of `s` whose flag is `want`, in their order.
pub open spec fn picked<T>(s: Seq<T>, flags: Seq<bool>, want: bool) -> Seq<T>
    decreases s.len(),
{
    if s.len() == 0 {
        Seq::empty()
    } else {
        let init = picked(s.drop_last(), flags.drop_last(), want);
        if flags[s.len() - 1] == want {
            init.push(s.last())
        } else {
            init
        }
    }
}

/// No text comes before itself.
pub proof fn lemma_less_irreflexive(a: Seq<char>)
    ensures
        !text_less(a, a),
{
}

/// Of two texts one comes first, unless they are the same.
pub proof fn lemma_less_total(a: Seq<char>, b: Seq<char>)
    ensures
        a == b || text_less(a, b) || text_less(b, a),
{
    if a != b {
        lemma_less_total_from(a, b, 0);
    }
}

proof fn lemma_less_total_from(a: Seq<char>, b: Seq<char>, k: int)
    requires
        0 <= k <= a.len(),
        k <= b.len(),
        forall|j: int| 0 <= j < k ==> a[j] == b[j],
        a != b,
    ensures
        text_less(a, b) || text_less(b, a),
    decreases a.len() - k,
{
    if k == a.len() {
        if k == b.len() {
            assert(a =~= b);
        } else {
            assert(smaller_at(a, b, k));
        }
    } else if k == b.len() {
        assert(smaller_at(b, a, k));
    } else if a[k] == b[k] {
        lemma_less_total_from(a, b, k + 1);
    } else if a[k] < b[k] {
        assert(smaller_at(a, b, k));
    } else {
        assert(smaller_at(b, a, k));
    }
}

/// The order of texts is transitive.
pub proof fn lemma_less_transitive(a: Seq<char>, b: Seq<char>, c: Seq<char>)
    requires
        text_less(a, b),
        text_less(b, c),
    ensures
        text_less(a, c),
{
    let i = choose|k: int| smaller_at(a, b, k);
    let j = choose|k: int| smaller_at(b, c, k);
    let k = if i <= j {
        i
    } else {
        j
    };
    assert forall|m: int| 0 <= m < k implies #[trigger] a[m] == c[m] by {
        assert(a[m] == b[m]);
        assert(b[m] == c[m]);
    }
    if i < j {
        assert(b[i] == c[i]);
    }
    if j < i {
        assert(a[j] == b[j]);
    }
    assert(smaller_at(a, c, k));
}

/// At most one of two texts comes before the other.
pub proof fn lemma_less_asymmetric(a: Seq<char>, b: Seq<char>)
    requires
        text_less(a, b),
    ensures
        !text_less(b, a),
        a != b,
{
    if text_less(b, a) {
        lemma_less_transitive(a, b, a);
    }
    lemma_less_irreflexive(a);
}

/// In increasing order every key stands once, so the i-th key has the i-th
/// value.
pub proof fn lemma_map_of<V>(keys: Seq<Seq<char>>, values: Seq<V>)
    requires
        increasing(keys),
        keys.len() == values.len(),
    ensures
        forall|i: int, j: int|
            0 <= i < keys.len() && 0 <= j < keys.len() && i != j ==> #[trigger] keys[i]
                != #[trigger] keys[j],
        forall|i: int|
            0 <= i < keys.len() ==> map_of(keys, values).contains_key(#[trigger] keys[i]),
        forall|i: int|
            0 <= i < keys.len() ==> map_of(keys, values)[#[trigger] keys[i]] == values[i],
        forall|k: Seq<char>| #[trigger]
            map_of(keys, values).contains_key(k) ==> exists|i: int|
                0 <= i < keys.len() && #[trigger] keys[i] == k,
{
    assert forall|i: int, j: int|
        0 <= i < keys.len() && 0 <= j < keys.len() && i != j implies #[trigger] keys[i]
        != #[trigger] keys[j] by {
        if i < j {
            assert(text_less(keys[i], keys[j]));
            lemma_less_asymmetric(keys[i], keys[j]);
        } else {
            assert(text_less(keys[j], keys[i]));
            lemma_less_asymmetric(keys[j], keys[i]);
        }
    }
    assert forall|i: int| 0 <= i < keys.len() implies map_of(keys, values)[#[trigger] keys[i]]
        == values[i] by {
        let k = keys.index_of(keys[i]);
        assert(keys.contains(keys[i]));
        assert(0 <= k < keys.len() && keys[k] == keys[i]);
    }
}

/// Where `picked` takes its items from: the i-th picked item is the item at an
/// index whose flag is `want`, and those indices increase with i.
pub proof fn lemma_picked<T>(s: Seq<T>, flags: Seq<bool>, want: bool)
    requires
        s.len() == flags.len(),
    ensures
        picked(s, flags, want).len() <= s.len(),
        forall|i: int|
            0 <= i < s.len() && flags[i] == want ==> picked(s, flags, want).contains(
                #[trigger] s[i],
            ),
        exists|at: Seq<int>| picked_at(s, flags, want, at),
    decreases s.len(),
{
    if s.len() == 0 {
        assert(picked_at(s, flags, want, Seq::empty()));
    } else {
        let s0 = s.drop_last();
        let f0 = flags.drop_last();
        lemma_picked(s0, f0, want);
        let p0 = picked(s0, f0, want);
        let at0 = choose|at: Seq<int>| picked_at(s0, f0, want, at);
        let p = picked(s, flags, want);
        if flags.last() == want {
            let at = at0.push(s.len() - 1);
            assert(picked_at(s, flags, want, at));
        } else {
            assert(picked_at(s, flags, want, at0));
        }
        assert forall|i: int| 0 <= i < s.len() && flags[i] == want implies p.contains(
            #[trigger] s[i],
        ) by {
            if i < s.len() - 1 {
                assert(s0[i] == s[i]);
                assert(p0.contains(s0[i]));
                let k = p0.index_of(s[i]);
                assert(p[k] == s[i]);
            } else {
                assert(p[p.len() - 1] == s[i]);
            }
        }
    }
}

/// `at` lists, in increasing order, indices from which `picked` takes its items.
pub open spec fn picked_at<T>(s: Seq<T>, flags: Seq<bool>, want: bool, at: Seq<int>) -> bool {
    &&& at.len() == picked(s, flags, want).len()
    &&& forall|i: int| 0 <= i < at.len() ==> 0 <= #[trigger] at[i] < s.len()
    &&& forall|i: int| 0 <= i < at.len() ==> flags[#[trigger] at[i]] == want
    &&& forall|i: int| 0 <= i < at.len() ==> picked(s, flags, want)[i] == s[#[trigger] at[i]]
    &&& forall|i: int, j: int| 0 <= i < j < at.len() ==> #[trigger] at[i] < #[trigger] at[j]
}

/// Picking from keys and from values picks the same places.
pub proof fn lemma_picked_together<V>(
    keys: Seq<Seq<char>>,
    values: Seq<V>,
    flags: Seq<bool>,
    want: bool,
)
    requires
        keys.len() == values.len() == flags.len(),
    ensures
        picked(keys, flags, want).len() == picked(values, flags, want).len(),
        exists|at: Seq<int>|
            picked_at(keys, flags, want, at) && picked_at(values, flags, want, at),
    decreases keys.len(),
{
    if keys.len() == 0 {
        let at = Seq::<int>::empty();
        assert(picked_at(keys, flags, want, at) && picked_at(values, flags, want, at));
    } else {
        let k0 = keys.drop_last();
        let v0 = values.drop_last();
        let f0 = flags.drop_last();
        lemma_picked_together(k0, v0, f0, want);
        let at0 = choose|at: Seq<int>|
            picked_at(k0, f0, want, at) && picked_at(v0, f0, want, at);
        if flags.last() == want {
            let at = at0.push(keys.len() - 1);
            assert(picked_at(keys, flags, want, at));
            assert(picked_at(values, flags, want, at));
        } else {
            assert(picked_at(keys, flags, want, at0));
            assert(picked_at(values, flags, want, at0));
        }
    }
}

/// The keys that remain are in order, and each keeps its value.
pub proof fn lemma_picked_map<V>(
    keys: Seq<Seq<char>>,
    values: Seq<V>,
    flags: Seq<bool>,
    want: bool,
)
    requires
        keys.len() == values.len() == flags.len(),
        increasing(keys),
    ensures
        increasing(picked(keys, flags, want)),
        picked(keys, flags, want).len() == picked(values, flags, want).len(),
        forall|i: int|
            0 <= i < keys.len() ==> (map_of(
                picked(keys, flags, want),
                picked(values, flags, want),
            ).contains_key(#[trigger] keys[i]) <==> flags[i] == want),
        map_of(picked(keys, flags, want), picked(values, flags, want)).submap_of(
            map_of(keys, values),
        ),
{
    lemma_picked_together(keys, values, flags, want);
    let at = choose|at: Seq<int>|
        picked_at(keys, flags, want, at) && picked_at(values, flags, want, at);
    let pk = picked(keys, flags, want);
    let pv = picked(values, flags, want);
    assert forall|i: int, j: int| 0 <= i < j < pk.len() implies #[trigger] text_less(
        pk[i],
        pk[j],
    ) by {
        assert(at[i] < at[j]);
        assert(text_less(keys[at[i]], keys[at[j]]));
    }
    lemma_map_of(keys, values);
    lemma_map_of(pk, pv);
    lemma_picked(keys, flags, want);
    let m = map_of(pk, pv);
    let whole = map_of(keys, values);
    assert forall|i: int| 0 <= i < keys.len() implies (m.contains_key(#[trigger] keys[i])
        <==> flags[i] == want) by {
        if m.contains_key(keys[i]) {
            let n = choose|n: int| 0 <= n < pk.len() && #[trigger] pk[n] == keys[i];
            assert(keys[at[n]] == keys[i]);
            assert(at[n] == i);
        }
    }
    assert forall|k: Seq<char>| #[trigger] m.contains_key(k) implies whole.contains_key(k)
        && whole[k] == m[k] by {
        let n = choose|n: int| 0 <= n < pk.len() && #[trigger] pk[n] == k;
        assert(keys[at[n]] == k);
        assert(values[at[n]] == pv[n]);
    }
}

/// Where the flags tell which items satisfy `p`, picking is filtering.
pub proof fn lemma_picked_filter<T>(
    s: Seq<T>,
    flags: Seq<bool>,
    want: bool,
    p: spec_fn(T) -> bool,
)
    requires
        s.len() == flags.len(),
        forall|i: int| 0 <= i < s.len() ==> (flags[i] == want) == p(#[trigger] s[i]),
    ensures
        picked(s, flags, want) == s.filter(p),
    decreases s.len(),
{
    reveal(Seq::filter);
    if s.len() > 0 {
        lemma_picked_filter(s.drop_last(), flags.drop_last(), want, p);
        assert(s.last() == s[s.len() - 1]);
    } else {
        assert(picked(s, flags, want) =~= s.filter(p));
    }
}

/// Texts are ordered by their first different character, and a beginning comes
/// before the whole. Of two different texts exactly one comes before the other.
pub proof fn law_texts_are_ordered(
    front: Seq<char>,
    x: char,
    a: Seq<char>,
    y: char,
    b: Seq<char>,
)
    ensures
        x < y ==> text_less(front + seq![x] + a, front + seq![y] + b) && !text_less(
            front + seq![y] + b,
            front + seq![x] + a,
        ),
        text_less(front, front + seq![y] + b) && !text_less(front + seq![y] + b, front),
        !text_less(front, front),
        a != b ==> text_less(a, b) != text_less(b, a),
{
    let left = front + seq![x] + a;
    let right = front + seq![y] + b;
    let k = front.len() as int;
    if x < y {
        assert(smaller_at(left, right, k));
        lemma_less_asymmetric(left, right);
    }
    assert(smaller_at(front, right, k));
    lemma_less_asymmetric(front, right);
    lemma_less_irreflexive(front);
    lemma_less_total(a, b);
    if text_less(a, b) {
        lemma_less_asymmetric(a, b);
    }
}

/// What a filter lets through was there before.
pub proof fn lemma_filtered_from<T>(s: Seq<T>, p: spec_fn(T) -> bool, i: int)
    requires
        0 <= i < s.filter(p).len(),
    ensures
        s.contains(s.filter(p)[i]),
    decreases s.len(),
{
    reveal(Seq::filter);
    if s.len() > 0 {
        let init = s.drop_last();
        if i < init.filter(p).len() {
            lemma_filtered_from(init, p, i);
            let k = init.index_of(init.filter(p)[i]);
            assert(s[k] == init.filter(p)[i]);
        } else {
            assert(s[s.len() - 1] == s.filter(p)[i]);
        }
    }
}

/// How a text stands to another in the order of texts.
pub enum TextOrder {
    Before,
    Same,
    After,
}

/// Compares two texts.
pub fn order_texts(a: &str, b: &str) -> (order: TextOrder)
    ensures
        match order {
            TextOrder::Before => text_less(a@, b@),
            TextOrder::Same => a@ == b@,
            TextOrder::After => text_less(b@, a@),
        },
{
    let left = chars_of(a);
    let right = chars_of(b);
    let mut k: usize = 0;
    while k < left.len() && k < right.len()
        invariant
            k <= left@.len(),
            k <= right@.len(),
            left@ == a@,
            right@ == b@,
            forall|j: int| 0 <= j < k ==> #[trigger] left@[j] == right@[j],
        decreases left@.len() - k,
    {
        if left[k] < right[k] {
            assert(smaller_at(a@, b@, k as int));
            return TextOrder::Before;
        }
        if right[k] < left[k] {
            assert(smaller_at(b@, a@, k as int));
            return TextOrder::After;
        }
        k = k + 1;
    }
    if k < right.len() {
        assert(smaller_at(a@, b@, k as int));
        TextOrder::Before
    } else if k < left.len() {
        assert(smaller_at(b@, a@, k as int));
        TextOrder::After
    } else {
        assert(a@ =~= b@);
        TextOrder::Same
    }
}

/// A map from texts to values, in the order of its keys.
pub struct TextMap<V> {
    entries: Vec<(String, V)>,
}

impl<V> View for TextMap<V> {
    type V = Map<Seq<char>, V>;

    open spec fn view(&self) -> Map<Seq<char>, V> {
        map_of(self.keys(), self.values())
    }
}

impl<V> TextMap<V> {
    /// The keys, in order.
    pub closed spec fn keys(&self) -> Seq<Seq<char>> {
        Seq::new(self.entries@.len(), |i: int| self.entries@[i].0@)
    }

    /// The values, in the order of their keys.
    pub closed spec fn values(&self) -> Seq<V> {
        Seq::new(self.entries@.len(), |i: int| self.entries@[i].1)
    }

    /// The keys increase, and each has a value.
    pub open spec fn wf(&self) -> bool {
        &&& increasing(self.keys())
        &&& self.keys().len() == self.values().len()
    }

    /// The map without entries.
    pub fn new() -> (map: Self)
        ensures
            map.wf(),
            map.keys().len() == 0,
            map@ == Map::<Seq<char>, V>::empty(),
    {
        let map = TextMap { entries: Vec::new() };
        assert(map@ =~= Map::<Seq<char>, V>::empty());
        map
    }

    /// The number of entries.
    pub fn len(&self) -> (n: usize)
        ensures
            n == self.keys().len(),
            n == self.values().len(),
    {
        self.entries.len()
    }

    /// Whether the map has no entry.
    pub fn is_empty(&self) -> (empty: bool)
        requires
            self.wf(),
        ensures
            empty == (self.keys().len() == 0),
            empty == (self@ == Map::<Seq<char>, V>::empty()),
    {
        proof {
            lemma_map_of(self.keys(), self.values());
            if self.keys().len() == 0 {
                assert(self@ =~= Map::<Seq<char>, V>::empty());
            } else {
                assert(self@.contains_key(self.keys()[0]));
            }
        }
        self.entries.len() == 0
    }

    /// The i-th key.
    pub fn key_at(&self, i: usize) -> (key: &str)
        requires
            i < self.keys().len(),
        ensures
            key@ == self.keys()[i as int],
    {
        self.entries[i].0.as_str()
    }

    /// The i-th value.
    pub fn value_at(&self, i: usize) -> (value: &V)
        requires
            i < self.values().len(),
        ensures
            *value == self.values()[i as int],
    {
        &self.entries[i].1
    }

    /// The i-th value, to be changed in place.
    pub fn value_at_mut(&mut self, i: usize) -> (value: &mut V)
        requires
            i < old(self).values().len(),
        ensures
            *value == old(self).values()[i as int],
            final(self).keys() == old(self).keys(),
            final(self).values() == old(self).values().update(i as int, *final(value)),
    {
        &mut self.entries[i].1
    }

    /// The place of a key: the index of the first entry whose key does not come
    /// before it, and whether that entry has this very key.
    fn locate(&self, key: &str) -> (place: (usize, bool))
        requires
            self.wf(),
        ensures
            place.0 <= self.keys().len(),
            forall|j: int| 0 <= j < place.0 ==> text_less(#[trigger] self.keys()[j], key@),
            place.1 ==> place.0 < self.keys().len() && self.keys()[place.0 as int] == key@,
            !place.1 ==> forall|j: int|
                place.0 <= j < self.keys().len() ==> text_less(key@, #[trigger] self.keys()[j]),
            place.1 == self@.contains_key(key@),
    {
        let mut i: usize = 0;
        proof {
            lemma_map_of(self.keys(), self.values());
        }
        while i < self.entries.len()
            invariant
                self.wf(),
                i <= self.entries@.len(),
                self.keys().len() == self.entries@.len(),
                forall|j: int| 0 <= j < i ==> text_less(#[trigger] self.keys()[j], key@),
                forall|j: int|
                    0 <= j < self.keys().len() ==> self@.contains_key(#[trigger] self.keys()[j]),
                forall|k: Seq<char>| #[trigger]
                    self@.contains_key(k) ==> exists|j: int|
                        0 <= j < self.keys().len() && #[trigger] self.keys()[j] == k,
            decreases self.entries@.len() - i,
        {
            match order_texts(self.entries[i].0.as_str(), key) {
                TextOrder::Before => {
                    assert(self.keys()[i as int] == self.entries@[i as int].0@);
                },
                TextOrder::Same => {
                    assert(self.keys()[i as int] == key@);
                    return (i, true);
                },
                TextOrder::After => {
                    assert forall|j: int| i <= j < self.keys().len() implies text_less(
                        key@,
                        #[trigger] self.keys()[j],
                    ) by {
                        assert(text_less(key@, self.keys()[i as int]));
                        if i < j {
                            assert(text_less(self.keys()[i as int], self.keys()[j]));
                            lemma_less_transitive(key@, self.keys()[i as int], self.keys()[j]);
                        }
                    }
                    proof {
                        self.lemma_absent(key@, i as int);
                    }
                    return (i, false);
                },
            }
            i = i + 1;
        }
        proof {
            self.lemma_absent(key@, i as int);
        }
        (i, false)
    }

    proof fn lemma_absent(&self, key: Seq<char>, at: int)
        requires
            self.wf(),
            0 <= at <= self.keys().len(),
            forall|j: int| 0 <= j < at ==> text_less(#[trigger] self.keys()[j], key),
            forall|j: int| at <= j < self.keys().len() ==> text_less(key, #[trigger] self.keys()[j]),
        ensures
            !self@.contains_key(key),
    {
        lemma_map_of(self.keys(), self.values());
        if self@.contains_key(key) {
            let j = choose|j: int| 0 <= j < self.keys().len() && #[trigger] self.keys()[j] == key;
            lemma_less_irreflexive(key);
        }
    }

    /// Whether the map has an entry for `key`.
    pub fn contains_key(&self, key: &str) -> (found: bool)
        requires
            self.wf(),
        ensures
            found == self@.contains_key(key@),
    {
        self.locate(key).1
    }

    /// The index of the entry for `key`.
    pub fn index_of(&self, key: &str) -> (index: Option<usize>)
        requires
            self.wf(),
        ensures
            match index {
                Some(i) => i < self.keys().len() && self.keys()[i as int] == key@
                    && self@.contains_key(key@) && self@[key@] == self.values()[i as int],
                None => !self@.contains_key(key@),
            },
    {
        let place = self.locate(key);
        if place.1 {
            proof {
                lemma_map_of(self.keys(), self.values());
            }
            Some(place.0)
        } else {
            None
        }
    }

    /// The value for `key`.
    pub fn get(&self, key: &str) -> (value: Option<&V>)
        requires
            self.wf(),
        ensures
            match value {
                Some(v) => self@.contains_key(key@) && self@[key@] == *v,
                None => !self@.contains_key(key@),
            },
    {
        match self.index_of(key) {
            Some(i) => Some(self.value_at(i)),
            None => None,
        }
    }

    /// Sets the value for `key` and gives back the one that it replaces.
    pub fn insert(&mut self, key: String, value: V) -> (replaced: Option<V>)
        requires
            old(self).wf(),
        ensures
            final(self).wf(),
            final(self)@ == old(self)@.insert(key@, value),
            match replaced {
                Some(v) => old(self)@.contains_key(key@) && old(self)@[key@] == v
                    && final(self).keys() == old(self).keys(),
                None => !old(self)@.contains_key(key@),
            },
    {
        let place = self.locate(key.as_str());
        let i: usize = place.0;
        let ghost keys = self.keys();
        let ghost values = self.values();
        proof {
            lemma_map_of(keys, values);
        }
        if place.1 {
            let previous = self.entries.remove(i);
            self.entries.insert(i, (key, value));
            assert(self.keys() =~= keys);
            assert(self.values() =~= values.update(i as int, value));
            proof {
                lemma_map_of(self.keys(), self.values());
                assert(self@ =~= old(self)@.insert(key@, value)) by {
                    assert forall|k: Seq<char>| #[trigger] self@.contains_key(k) implies self@[k]
                        == old(self)@.insert(key@, value)[k] by {
                        let j = choose|j: int| 0 <= j < keys.len() && #[trigger] keys[j] == k;
                        assert(self.keys()[j] == k);
                    }
                    assert forall|k: Seq<char>| old(self)@.contains_key(k) implies #[trigger] self@.contains_key(k) by {
                        let j = choose|j: int| 0 <= j < keys.len() && #[trigger] keys[j] == k;
                        assert(self.keys()[j] == k);
                    }
                }
            }
            Some(previous.1)
        } else {
            self.entries.insert(i, (key, value));
            assert(self.keys() =~= keys.insert(i as int, key@));
            assert(self.values() =~= values.insert(i as int, value));
            proof {
                let now = self.keys();
                assert forall|a: int, b: int| 0 <= a < b < now.len() implies #[trigger] text_less(
                    now[a],
                    now[b],
                ) by {
                    if a < i && b == i {
                        assert(text_less(keys[a], key@));
                    } else if a == i {
                        assert(text_less(key@, keys[b - 1]));
                    } else {
                        let x = if a < i { a } else { a - 1 };
                        let y = if b < i { b } else { b - 1 };
                        assert(text_less(keys[x], keys[y]));
                    }
                }
                lemma_map_of(self.keys(), self.values());
                assert(self@ =~= old(self)@.insert(key@, value)) by {
                    assert(now[i as int] == key@);
                    assert forall|k: Seq<char>| #[trigger] self@.contains_key(k) implies self@[k]
                        == old(self)@.insert(key@, value)[k] && old(self)@.insert(
                        key@,
                        value,
                    ).contains_key(k) by {
                        let j = choose|j: int| 0 <= j < now.len() && #[trigger] now[j] == k;
                        if j != i {
                            let x = if j < i { j } else { j - 1 };
                            assert(keys[x] == k);
                            assert(now[j] != now[i as int]);
                        }
                    }
                    assert forall|k: Seq<char>| old(self)@.contains_key(k) implies #[trigger] self@.contains_key(k) by {
                        let j = choose|j: int| 0 <= j < keys.len() && #[trigger] keys[j] == k;
                        let x = if j < i { j } else { j + 1 };
                        assert(now[x] == k);
                    }
                }
            }
            None
        }
    }

    /// Takes the entries whose flag is set out of the map, in the order of
    /// their keys.
    pub fn extract(&mut self, flags: &Vec<bool>) -> (taken: Vec<V>)
        requires
            old(self).wf(),
            flags@.len() == old(self).keys().len(),
        ensures
            final(self).wf(),
            final(self).keys() == picked(old(self).keys(), flags@, false),
            final(self).values() == picked(old(self).values(), flags@, false),
            taken@ == picked(old(self).values(), flags@, true),
    {
        let mut taken: Vec<V> = Vec::new();
        let ghost keys = self.keys();
        let ghost values = self.values();
        let mut done: usize = 0;
        let mut kept: usize = 0;
        assert(keys.skip(0) =~= keys);
        assert(values.skip(0) =~= values);
        assert(picked(keys.take(0), flags@.take(0), false) + keys.skip(0) =~= keys);
        assert(picked(values.take(0), flags@.take(0), false) + values.skip(0) =~= values);
        while done < flags.len()
            invariant
                kept <= done <= flags@.len(),
                keys.len() == flags@.len(),
                values.len() == flags@.len(),
                self.entries@.len() == kept + flags@.len() - done,
                self.keys().len() == self.entries@.len(),
                self.values().len() == self.entries@.len(),
                kept == picked(keys.take(done as int), flags@.take(done as int), false).len(),
                kept == picked(values.take(done as int), flags@.take(done as int), false).len(),
                self.keys() == picked(keys.take(done as int), flags@.take(done as int), false)
                    + keys.skip(done as int),
                self.values() == picked(values.take(done as int), flags@.take(done as int), false)
                    + values.skip(done as int),
                taken@ == picked(values.take(done as int), flags@.take(done as int), true),
            decreases flags@.len() - done,
        {
            let ghost k0 = picked(keys.take(done as int), flags@.take(done as int), false);
            let ghost v0 = picked(values.take(done as int), flags@.take(done as int), false);
            let ghost now_keys = self.keys();
            let ghost now_values = self.values();
            assert(keys.take(done + 1).drop_last() =~= keys.take(done as int));
            assert(values.take(done + 1).drop_last() =~= values.take(done as int));
            assert(flags@.take(done + 1).drop_last() =~= flags@.take(done as int));
            assert(now_values[kept as int] == values[done as int]);
            assert(now_keys[kept as int] == keys[done as int]);
            if flags[done] {
                let entry = self.entries.remove(kept);
                taken.push(entry.1);
                assert(self.keys() =~= now_keys.remove(kept as int));
                assert(self.values() =~= now_values.remove(kept as int));
                assert(now_keys.remove(kept as int) =~= k0 + keys.skip(done + 1));
                assert(now_values.remove(kept as int) =~= v0 + values.skip(done + 1));
            } else {
                assert(k0 + keys.skip(done as int) =~= k0.push(keys[done as int]) + keys.skip(
                    done + 1,
                ));
                assert(v0 + values.skip(done as int) =~= v0.push(values[done as int])
                    + values.skip(done + 1));
                kept = kept + 1;
            }
            done = done + 1;
        }
        assert(keys.take(done as int) =~= keys);
        assert(values.take(done as int) =~= values);
        assert(flags@.take(done as int) =~= flags@);
        assert(self.keys() =~= picked(keys, flags@, false));
        assert(self.values() =~= picked(values, flags@, false));
        proof {
            lemma_picked_map(keys, values, flags@, false);
        }
        taken
    }

    /// Takes the entry for `key` out of the map.
    pub fn remove(&mut self, key: &str) -> (removed: Option<V>)
        requires
            old(self).wf(),
        ensures
            final(self).wf(),
            final(self)@ == old(self)@.remove(key@),
            match removed {
                Some(v) => old(self)@.contains_key(key@) && old(self)@[key@] == v,
                None => !old(self)@.contains_key(key@) && *final(self) == *old(self),
            },
    {
        let place = self.locate(key);
        let i: usize = place.0;
        let ghost keys = self.keys();
        let ghost values = self.values();
        proof {
            lemma_map_of(keys, values);
        }
        if place.1 {
            let entry = self.entries.remove(i);
            assert(self.keys() =~= keys.remove(i as int));
            assert(self.values() =~= values.remove(i as int));
            proof {
                let now = self.keys();
                assert forall|a: int, b: int| 0 <= a < b < now.len() implies #[trigger] text_less(
                    now[a],
                    now[b],
                ) by {
                    let x = if a < i { a } else { a + 1 };
                    let y = if b < i { b } else { b + 1 };
                    assert(text_less(keys[x], keys[y]));
                }
                lemma_map_of(self.keys(), self.values());
                assert(self@ =~= old(self)@.remove(key@)) by {
                    assert forall|k: Seq<char>| #[trigger] self@.contains_key(k) implies k != key@
                        && old(self)@.contains_key(k) && self@[k] == old(self)@[k] by {
                        let j = choose|j: int| 0 <= j < now.len() && #[trigger] now[j] == k;
                        let x = if j < i { j } else { j + 1 };
                        assert(keys[x] == k);
                        assert(keys[x] != keys[i as int]);
                    }
                    assert forall|k: Seq<char>| old(self)@.contains_key(k) && k != key@ implies #[trigger] self@.contains_key(k) by {
                        let j = choose|j: int| 0 <= j < keys.len() && #[trigger] keys[j] == k;
                        let x = if j < i { j } else { j - 1 };
                        assert(now[x] == k);
                    }
                }
            }
            Some(entry.1)
        } else {
            assert(self@ =~= old(self)@.remove(key@));
            None
        }
    }
}

impl<V: Copy> TextMap<V> {
    /// A second map with the same entries.
    pub fn duplicate(&self) -> (copy: Self)
        requires
            self.wf(),
        ensures
            copy.wf(),
            copy.keys() == self.keys(),
            copy.values() == self.values(),
            copy@ == self@,
    {
        let mut entries: Vec<(String, V)> = Vec::new();
        let mut i: usize = 0;
        while i < self.entries.len()
            invariant
                i <= self.entries@.len(),
                entries@.len() == i,
                forall|j: int|
                    0 <= j < i ==> (#[trigger] entries@[j]).0@ == self.entries@[j].0@
                        && entries@[j].1 == self.entries@[j].1,
            decreases self.entries@.len() - i,
        {
            entries.push((self.entries[i].0.clone(), self.entries[i].1));
            i = i + 1;
        }
        let copy = TextMap { entries };
        assert(copy.keys() =~= self.keys());
        assert(copy.values() =~= self.values());
        copy
    }
}

} // verus!
