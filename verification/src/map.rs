//! A map from texts to values that is kept, and walked, in the order of its keys.
use vstd::prelude::*;

use crate::text::before;
use crate::text::precedes;
use crate::text::precedes_irreflexive;
use crate::text::precedes_total;
use crate::text::precedes_transitive;

verus! {

/// Whether the keys of a listing come in strictly ascending order.
pub open spec fn ascending<V>(s: Seq<(Seq<char>, V)>) -> bool {
    forall|i: int, j: int| 0 <= i < j < s.len() ==> precedes(#[trigger] s[i].0, #[trigger] s[j].0)
}

/// The map `m` after each pair of a listing has been entered in turn: where a key
/// occurs more than once, the last pair counts.
pub open spec fn overlay<V>(m: Map<Seq<char>, V>, s: Seq<(Seq<char>, V)>) -> Map<Seq<char>, V>
    decreases s.len(),
{
    if s.len() == 0 {
        m
    } else {
        overlay(m, s.drop_last()).insert(s.last().0, s.last().1)
    }
}

/// An ascending listing with a pair entered at its place: in front of the first
/// greater key, or instead of the pair that had the same key.
pub open spec fn put<V>(s: Seq<(Seq<char>, V)>, key: Seq<char>, value: V) -> Seq<(Seq<char>, V)>
    decreases s.len(),
{
    if s.len() == 0 || precedes(key, s[0].0) {
        seq![(key, value)] + s
    } else if s[0].0 == key {
        seq![(key, value)] + s.drop_first()
    } else {
        seq![s[0]] + put(s.drop_first(), key, value)
    }
}

/// A map from texts to values, kept in ascending order of its keys.
#[derive(Debug)]
pub struct SortedMap<V> {
    entries: Vec<(String, V)>,
}

impl<V> SortedMap<V> {
    /// The keys with their values, in ascending order.
    pub closed spec fn members(&self) -> Seq<(Seq<char>, V)> {
        Seq::new(self.entries@.len(), |i: int| (self.entries@[i].0@, self.entries@[i].1))
    }

    #[verifier::type_invariant]
    spec fn keys_ascend(self) -> bool {
        ascending(self.members())
    }
}

/// The values of a map are structurally smaller than the map.
pub proof fn values_are_smaller<V>(map: SortedMap<V>)
    ensures
        forall|i: int|
            0 <= i < map.members().len() ==> (#[trigger] decreases_to!(map => map.members()[i].1)),
{
    assert forall|i: int| 0 <= i < map.members().len() implies (#[trigger] decreases_to!(
        map => map.members()[i].1
    )) by {
        assert(decreases_to!(map => map.entries@));
        assert(decreases_to!(map.entries@ => map.entries@[i]));
        assert(decreases_to!(map.entries@[i] => map.entries@[i].1));
    }
}

impl<V> View for SortedMap<V> {
    type V = Map<Seq<char>, V>;

    open spec fn view(&self) -> Map<Seq<char>, V> {
        overlay(Map::empty(), self.members())
    }
}

/// What an ascending listing holds, key by key.
pub proof fn overlay_of_ascending<V>(s: Seq<(Seq<char>, V)>)
    requires
        ascending(s),
    ensures
        forall|i: int|
            0 <= i < s.len() ==> overlay(Map::empty(), s).contains_key(#[trigger] s[i].0)
                && overlay(Map::<Seq<char>, V>::empty(), s)[s[i].0] == s[i].1,
        forall|k: Seq<char>| #[trigger]
            overlay(Map::<Seq<char>, V>::empty(), s).contains_key(k) ==> exists|i: int|
                0 <= i < s.len() && #[trigger] s[i].0 == k,
    decreases s.len(),
{
    let m = overlay(Map::<Seq<char>, V>::empty(), s);
    if s.len() > 0 {
        let front = s.drop_last();
        let last = s.len() - 1;
        overlay_of_ascending(front);
        assert forall|i: int| 0 <= i < s.len() implies m.contains_key(#[trigger] s[i].0)
            && m[s[i].0] == s[i].1 by {
            if i < last {
                assert(s[i] == front[i]);
                assert(precedes(s[i].0, s[last].0));
                precedes_irreflexive(s[i].0);
            }
        }
        assert forall|k: Seq<char>| #[trigger] m.contains_key(k) implies exists|i: int|
            0 <= i < s.len() && #[trigger] s[i].0 == k by {
            if k == s[last].0 {
            } else {
                assert(overlay(Map::<Seq<char>, V>::empty(), front).contains_key(k));
                let i = choose|i: int| 0 <= i < front.len() && #[trigger] front[i].0 == k;
                assert(s[i].0 == k);
            }
        }
    }
}

/// Entering two listings one after the other is entering their concatenation.
pub proof fn overlay_concat<V>(
    m: Map<Seq<char>, V>,
    s: Seq<(Seq<char>, V)>,
    t: Seq<(Seq<char>, V)>,
)
    ensures
        overlay(overlay(m, s), t) == overlay(m, s + t),
    decreases t.len(),
{
    if t.len() == 0 {
        assert(s + t =~= s);
    } else {
        overlay_concat(m, s, t.drop_last());
        assert((s + t).drop_last() =~= s + t.drop_last());
    }
}

/// Entering a listing and changing the values afterwards is changing the values first.
pub proof fn overlay_mapped<V, W>(
    m: Map<Seq<char>, V>,
    s: Seq<(Seq<char>, V)>,
    f: spec_fn(V) -> W,
)
    ensures
        overlay(m, s).map_values(f) == overlay(
            m.map_values(f),
            s.map_values(|p: (Seq<char>, V)| (p.0, f(p.1))),
        ),
    decreases s.len(),
{
    let t = s.map_values(|p: (Seq<char>, V)| (p.0, f(p.1)));
    if s.len() > 0 {
        overlay_mapped(m, s.drop_last(), f);
        assert(t.drop_last() =~= s.drop_last().map_values(|p: (Seq<char>, V)| (p.0, f(p.1))));
    }
    assert(overlay(m, s).map_values(f) =~= overlay(m.map_values(f), t));
}

/// Where [`put`] enters a pair, seen from the position of its key.
proof fn put_at<V>(s: Seq<(Seq<char>, V)>, key: Seq<char>, value: V, at: int)
    requires
        ascending(s),
        0 <= at <= s.len(),
        forall|i: int| 0 <= i < at ==> precedes(#[trigger] s[i].0, key),
        at < s.len() ==> !precedes(s[at].0, key),
    ensures
        at < s.len() && s[at].0 == key ==> put(s, key, value) == s.update(at, (key, value)),
        !(at < s.len() && s[at].0 == key) ==> put(s, key, value) == s.insert(at, (key, value)),
    decreases s.len(),
{
    if s.len() == 0 {
    } else if at == 0 {
        precedes_irreflexive(key);
        if s[0].0 != key {
            precedes_total(s[0].0, key);
        }
    } else {
        assert(precedes(s[0].0, key));
        if precedes(key, s[0].0) {
            precedes_transitive(s[0].0, key, s[0].0);
        }
        precedes_irreflexive(s[0].0);
        let rest = s.drop_first();
        assert(ascending(rest)) by {
            assert forall|i: int, j: int| 0 <= i < j < rest.len() implies precedes(
                #[trigger] rest[i].0,
                #[trigger] rest[j].0,
            ) by {
                assert(precedes(s[i + 1].0, s[j + 1].0));
            }
        }
        assert forall|i: int| 0 <= i < at - 1 implies precedes(#[trigger] rest[i].0, key) by {
            assert(precedes(s[i + 1].0, key));
        }
        put_at(rest, key, value, at - 1);
        if at < s.len() && s[at].0 == key {
            assert(put(s, key, value) =~= s.update(at, (key, value)));
        } else {
            assert(put(s, key, value) =~= s.insert(at, (key, value)));
        }
    }
}

/// A pair whose key comes after all others is entered at the end.
pub proof fn put_last<V>(s: Seq<(Seq<char>, V)>, key: Seq<char>, value: V)
    requires
        ascending(s),
        forall|i: int| 0 <= i < s.len() ==> precedes(#[trigger] s[i].0, key),
    ensures
        put(s, key, value) == s.push((key, value)),
{
    put_at(s, key, value, s.len() as int);
    assert(s.insert(s.len() as int, (key, value)) =~= s.push((key, value)));
}

/// Entering a pair keeps a listing ascending and enters the pair in the map that
/// the listing holds.
pub proof fn put_enters<V>(s: Seq<(Seq<char>, V)>, key: Seq<char>, value: V)
    requires
        ascending(s),
    ensures
        ascending(put(s, key, value)),
        overlay(Map::empty(), put(s, key, value)) == overlay(Map::empty(), s).insert(key, value),
    decreases s.len(),
{
    let at = lower_bound(s, key);
    put_at(s, key, value, at);
    let t = put(s, key, value);
    let same = at < s.len() && s[at].0 == key;
    assert forall|i: int| at <= i < s.len() && !same implies precedes(key, #[trigger] s[i].0) by {
        if s[at].0 != key {
            precedes_total(s[at].0, key);
        }
        if i > at {
            precedes_transitive(key, s[at].0, s[i].0);
        }
    }
    assert forall|i: int, j: int| 0 <= i < j < t.len() implies precedes(
        #[trigger] t[i].0,
        #[trigger] t[j].0,
    ) by {
        if same {
            assert(t[i].0 == s[i].0 && t[j].0 == s[j].0);
        } else {
            let a = if i < at { i } else { i - 1 };
            let b = if j < at { j } else { j - 1 };
            if i != at {
                assert(t[i] == s[a]);
            }
            if j != at {
                assert(t[j] == s[b]);
            }
            if i != at && j != at {
                assert(precedes(s[a].0, s[b].0));
            }
        }
    }
    overlay_of_ascending(s);
    overlay_of_ascending(t);
    let before = overlay(Map::<Seq<char>, V>::empty(), s);
    let after = overlay(Map::<Seq<char>, V>::empty(), t);
    assert(t[at] == (key, value));
    assert forall|k: Seq<char>| #[trigger] after.contains_key(k) == before.insert(
        key,
        value,
    ).contains_key(k) by {
        assert(after.contains_key(t[at].0));
        if after.contains_key(k) && k != key {
            let i = choose|i: int| 0 <= i < t.len() && #[trigger] t[i].0 == k;
            let a = if same || i < at { i } else { i - 1 };
            assert(s[a].0 == k);
        }
        if before.contains_key(k) && k != key {
            let i = choose|i: int| 0 <= i < s.len() && #[trigger] s[i].0 == k;
            let a = if same || i < at { i } else { i + 1 };
            assert(t[a].0 == k);
        }
    }
    assert forall|k: Seq<char>| after.contains_key(k) implies #[trigger] after[k]
        == before.insert(key, value)[k] by {
        if k == key {
            assert(after[t[at].0] == t[at].1);
        } else {
            let i = choose|i: int| 0 <= i < t.len() && #[trigger] t[i].0 == k;
            let a = if same || i < at { i } else { i - 1 };
            assert(t[i] == s[a]);
            assert(before[s[a].0] == s[a].1);
        }
    }
    assert(after =~= before.insert(key, value));
}

impl<V> SortedMap<V> {
    /// The empty map.
    pub fn new() -> (map: Self)
        ensures
            map.members() == Seq::<(Seq<char>, V)>::empty(),
            map@ == Map::<Seq<char>, V>::empty(),
    {
        let map = SortedMap { entries: Vec::new() };
        assert(map.members() =~= Seq::empty());
        map
    }

    /// The number of keys.
    pub fn len(&self) -> (n: usize)
        ensures
            n == self.members().len(),
            ascending(self.members()),
    {
        proof {
            use_type_invariant(self);
        }
        self.entries.len()
    }

    /// The key and the value at a position, counted in ascending order of the keys.
    pub fn entry(&self, i: usize) -> (entry: (&String, &V))
        requires
            i < self.members().len(),
        ensures
            (entry.0@, *entry.1) == self.members()[i as int],
            self@.contains_key(entry.0@),
            self@[entry.0@] == *entry.1,
    {
        proof {
            use_type_invariant(self);
            overlay_of_ascending(self.members());
            assert(self.members()[i as int].0 == self.entries@[i as int].0@);
        }
        (&self.entries[i].0, &self.entries[i].1)
    }

    /// The position of a key, or the position at which it would have to stand.
    fn position(&self, key: &str) -> (at: usize)
        ensures
            at <= self.members().len(),
            forall|i: int| 0 <= i < at ==> precedes(#[trigger] self.members()[i].0, key@),
            at < self.members().len() ==> !precedes(self.members()[at as int].0, key@),
    {
        proof {
            use_type_invariant(self);
        }
        let mut low: usize = 0;
        let mut high: usize = self.entries.len();
        while low < high
            invariant
                low <= high <= self.members().len(),
                self.members().len() == self.entries@.len(),
                ascending(self.members()),
                forall|i: int| 0 <= i < low ==> precedes(#[trigger] self.members()[i].0, key@),
                high < self.members().len() ==> !precedes(self.members()[high as int].0, key@),
            decreases high - low,
        {
            let mid: usize = low + (high - low) / 2;
            let ghost s = self.members();
            if before(self.entries[mid].0.as_str(), key) {
                proof {
                    assert forall|i: int| 0 <= i < mid + 1 implies precedes(
                        #[trigger] s[i].0,
                        key@,
                    ) by {
                        if i < mid {
                            precedes_transitive(s[i].0, s[mid as int].0, key@);
                        }
                    }
                }
                low = mid + 1;
            } else {
                high = mid;
            }
        }
        low
    }

    /// The value of a key, where the map has the key.
    pub fn get(&self, key: &str) -> (value: Option<&V>)
        ensures
            value is Some <==> self@.contains_key(key@),
            value matches Some(v) ==> *v == self@[key@],
    {
        let at = self.position(key);
        let ghost s = self.members();
        proof {
            use_type_invariant(self);
            overlay_of_ascending(s);
            precedes_irreflexive(key@);
        }
        if at < self.entries.len() && !before(key, self.entries[at].0.as_str()) {
            proof {
                if s[at as int].0 != key@ {
                    precedes_total(s[at as int].0, key@);
                }
            }
            Some(&self.entries[at].1)
        } else {
            proof {
                if self@.contains_key(key@) {
                    let i = choose|i: int| 0 <= i < s.len() && #[trigger] s[i].0 == key@;
                    assert(i >= at);
                    if i > at {
                        precedes_transitive(key@, s[at as int].0, s[i].0);
                    }
                }
            }
            None
        }
    }

    /// Enters a key with its value, in place of the value that the key had.
    pub fn insert(&mut self, key: String, value: V)
        ensures
            final(self).members() == put(old(self).members(), key@, value),
            final(self)@ == old(self)@.insert(key@, value),
    {
        proof {
            use_type_invariant(&*self);
            put_enters(self.members(), key@, value);
        }
        let ghost s = self.members();
        let at = self.position(key.as_str());
        proof {
            put_at(s, key@, value, at as int);
            precedes_irreflexive(key@);
        }
        let mut entries: Vec<(String, V)> = Vec::new();
        std::mem::swap(&mut entries, &mut self.entries);
        let ghost done = put(s, key@, value);
        if at < entries.len() && !before(key.as_str(), entries[at].0.as_str()) {
            proof {
                if s[at as int].0 != key@ {
                    precedes_total(s[at as int].0, key@);
                }
            }
            entries.set(at, (key, value));
        } else {
            entries.insert(at, (key, value));
        }
        assert((SortedMap { entries }).members() =~= done);
        *self = SortedMap { entries };
    }
}

/// Whether texts come in strictly ascending order.
pub open spec fn increasing(keys: Seq<Seq<char>>) -> bool {
    forall|i: int, j: int|
        0 <= i < j < keys.len() ==> precedes(#[trigger] keys[i], #[trigger] keys[j])
}

/// Texts in strictly ascending order are determined by which texts they are.
pub proof fn increasing_unique(a: Seq<Seq<char>>, b: Seq<Seq<char>>)
    requires
        increasing(a),
        increasing(b),
        forall|k: Seq<char>| #[trigger] a.contains(k) <==> b.contains(k),
    ensures
        a == b,
    decreases a.len(),
{
    if a.len() == 0 {
        if b.len() > 0 {
            assert(b.contains(b[0]));
            assert(a.contains(b[0]));
        }
        assert(a =~= b);
    } else {
        assert(a.contains(a[0]));
        assert(b.contains(a[0]));
        let m = a.len() - 1;
        let n = b.len() - 1;
        assert(a.contains(a[m]) && b.contains(b[n]));
        assert(a.contains(b[n]));
        let i = choose|i: int| 0 <= i < b.len() && b[i] == a[m];
        let j = choose|j: int| 0 <= j < a.len() && a[j] == b[n];
        assert(a[m] == b[n]) by {
            if i < n && j < m {
                precedes_transitive(a[m], b[n], a[m]);
                precedes_irreflexive(a[m]);
            }
        }
        let x = a.drop_last();
        let y = b.drop_last();
        assert forall|k: Seq<char>| #[trigger] x.contains(k) <==> y.contains(k) by {
            if x.contains(k) {
                let p = choose|p: int| 0 <= p < x.len() && x[p] == k;
                assert(a[p] == k);
                assert(a.contains(k));
                let q = choose|q: int| 0 <= q < b.len() && b[q] == k;
                precedes_irreflexive(k);
                assert(q < n);
                assert(y[q] == k);
            }
            if y.contains(k) {
                let p = choose|p: int| 0 <= p < y.len() && y[p] == k;
                assert(b[p] == k);
                assert(b.contains(k));
                assert(a.contains(k));
                let q = choose|q: int| 0 <= q < a.len() && a[q] == k;
                precedes_irreflexive(k);
                assert(q < m);
                assert(x[q] == k);
            }
        }
        increasing_unique(x, y);
        assert(a =~= x.push(a[m]));
        assert(b =~= y.push(b[n]));
    }
}

/// What texts a list holds.
pub open spec fn key_views(keys: Seq<String>) -> Seq<Seq<char>> {
    keys.map_values(|k: String| k@)
}

/// The keys of two maps together, in ascending order.
pub fn all_keys<A, B>(a: &SortedMap<A>, b: &SortedMap<B>) -> (keys: Vec<String>)
    ensures
        increasing(key_views(keys@)),
        forall|k: Seq<char>| #[trigger]
            key_views(keys@).contains(k) <==> a@.contains_key(k) || b@.contains_key(k),
{
    let m = a.len();
    let n = b.len();
    let ghost s = a.members();
    let ghost t = b.members();
    let mut keys: Vec<String> = Vec::new();
    let mut i: usize = 0;
    let mut j: usize = 0;
    while i < m || j < n
        invariant
            i <= m,
            j <= n,
            s == a.members(),
            t == b.members(),
            m == s.len(),
            n == t.len(),
            ascending(s),
            ascending(t),
            increasing(key_views(keys@)),
            forall|k: int, p: int|
                0 <= k < keys@.len() && i <= p < m ==> precedes(
                    #[trigger] key_views(keys@)[k],
                    #[trigger] s[p].0,
                ),
            forall|k: int, p: int|
                0 <= k < keys@.len() && j <= p < n ==> precedes(
                    #[trigger] key_views(keys@)[k],
                    #[trigger] t[p].0,
                ),
            forall|k: int|
                0 <= k < keys@.len() ==> a@.contains_key(#[trigger] key_views(keys@)[k])
                    || b@.contains_key(key_views(keys@)[k]),
            forall|p: int| 0 <= p < i ==> key_views(keys@).contains(#[trigger] s[p].0),
            forall|p: int| 0 <= p < j ==> key_views(keys@).contains(#[trigger] t[p].0),
        decreases m - i + n - j,
    {
        let ghost had = key_views(keys@);
        let ghost i0 = i as int;
        let ghost j0 = j as int;
        let from_a = i < m && (j >= n || !before(b.entry(j).0.as_str(), a.entry(i).0.as_str()));
        let from_b = j < n && (i >= m || !before(a.entry(i).0.as_str(), b.entry(j).0.as_str()));
        let key = if from_a {
            a.entry(i).0.clone()
        } else {
            b.entry(j).0.clone()
        };
        let ghost new_key = key@;
        proof {
            if i < m && j < n {
                precedes_irreflexive(s[i0].0);
                if s[i0].0 != t[j0].0 {
                    precedes_total(s[i0].0, t[j0].0);
                    if precedes(s[i0].0, t[j0].0) && precedes(t[j0].0, s[i0].0) {
                        precedes_transitive(s[i0].0, t[j0].0, s[i0].0);
                    }
                }
            }
        }
        proof {
            assert forall|k: int| 0 <= k < had.len() implies precedes(#[trigger] had[k], new_key) by {
                if from_a {
                    assert(precedes(had[k], s[i0].0));
                } else {
                    assert(precedes(had[k], t[j0].0));
                }
            }
        }
        keys.push(key);
        if from_a {
            i = i + 1;
        }
        if from_b {
            j = j + 1;
        }
        proof {
            let now = key_views(keys@);
            assert(now =~= had.push(new_key));
            assert(now[had.len() as int] == new_key);
            assert(increasing(now)) by {
                assert forall|k: int, p: int| 0 <= k < p < now.len() implies precedes(
                    #[trigger] now[k],
                    #[trigger] now[p],
                ) by {
                    if p < had.len() {
                        assert(precedes(had[k], had[p]));
                    } else {
                        assert(precedes(had[k], new_key));
                    }
                }
            }
            assert forall|k: int, p: int| 0 <= k < keys@.len() && i <= p < m implies precedes(
                #[trigger] now[k],
                #[trigger] s[p].0,
            ) by {
                if k < had.len() {
                    assert(had[k] == now[k]);
                } else if from_a {
                    assert(precedes(s[i0].0, s[p].0));
                } else if p > i0 {
                    precedes_transitive(new_key, s[i0].0, s[p].0);
                }
            }
            assert forall|k: int, p: int| 0 <= k < keys@.len() && j <= p < n implies precedes(
                #[trigger] now[k],
                #[trigger] t[p].0,
            ) by {
                if k < had.len() {
                    assert(had[k] == now[k]);
                } else if from_b {
                    assert(precedes(t[j0].0, t[p].0));
                } else if p > j0 {
                    precedes_transitive(new_key, t[j0].0, t[p].0);
                }
            }
            assert forall|k: int| 0 <= k < keys@.len() implies a@.contains_key(#[trigger] now[k])
                || b@.contains_key(now[k]) by {
                if k < had.len() {
                    assert(had[k] == now[k]);
                }
            }
            assert forall|p: int| 0 <= p < i implies now.contains(#[trigger] s[p].0) by {
                if p < i0 {
                    let k = choose|k: int| 0 <= k < had.len() && had[k] == s[p].0;
                    assert(now[k] == s[p].0);
                }
            }
            assert forall|p: int| 0 <= p < j implies now.contains(#[trigger] t[p].0) by {
                if p < j0 {
                    let k = choose|k: int| 0 <= k < had.len() && had[k] == t[p].0;
                    assert(now[k] == t[p].0);
                }
            }
        }
    }
    proof {
        overlay_of_ascending(s);
        overlay_of_ascending(t);
        let listed = key_views(keys@);
        assert forall|k: Seq<char>| #[trigger] listed.contains(k) <==> a@.contains_key(k)
            || b@.contains_key(k) by {
            if a@.contains_key(k) {
                let p = choose|p: int| 0 <= p < s.len() && #[trigger] s[p].0 == k;
                assert(listed.contains(s[p].0));
            }
            if b@.contains_key(k) {
                let p = choose|p: int| 0 <= p < t.len() && #[trigger] t[p].0 == k;
                assert(listed.contains(t[p].0));
            }
        }
    }
    keys
}

/// The number of keys of an ascending listing that come before a key.
proof fn lower_bound<V>(s: Seq<(Seq<char>, V)>, key: Seq<char>) -> (at: int)
    requires
        ascending(s),
    ensures
        0 <= at <= s.len(),
        forall|i: int| 0 <= i < at ==> precedes(#[trigger] s[i].0, key),
        at < s.len() ==> !precedes(s[at].0, key),
    decreases s.len(),
{
    if s.len() == 0 {
        0
    } else {
        let at = lower_bound(s.drop_last(), key);
        assert forall|i: int| 0 <= i < at implies precedes(#[trigger] s[i].0, key) by {
            assert(s.drop_last()[i] == s[i]);
        }
        if at == s.len() - 1 && precedes(s[at].0, key) {
            at + 1
        } else {
            at
        }
    }
}

} // verus!
