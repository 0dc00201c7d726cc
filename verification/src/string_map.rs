//! A small map from texts to texts.

use vstd::prelude::*;

#[allow(unused_imports)]
use crate::order::{
    lemma_precedes_irreflexive, lemma_precedes_total, lemma_precedes_transitive, precedes,
};
use crate::order::text_precedes;
use crate::text::same_text;

verus! {

/// The views of a sequence of pairs of strings.
pub open spec fn pair_views(pairs: Seq<(String, String)>) -> Seq<(Seq<char>, Seq<char>)> {
    pairs.map_values(|pair: (String, String)| (pair.0@, pair.1@))
}

/// The map that a sequence of pairs stands for: where a key occurs more than once,
/// the last pair counts.
pub open spec fn map_of(pairs: Seq<(Seq<char>, Seq<char>)>) -> Map<Seq<char>, Seq<char>>
    decreases pairs.len(),
{
    if pairs.len() == 0 {
        Map::empty()
    } else {
        map_of(pairs.drop_last()).insert(pairs.last().0, pairs.last().1)
    }
}

/// No key occurs twice.
pub open spec fn distinct_keys(pairs: Seq<(Seq<char>, Seq<char>)>) -> bool {
    forall|i: int, j: int|
        0 <= i < j < pairs.len() ==> (#[trigger] pairs[i]).0 != (#[trigger] pairs[j]).0
}

/// The keys ascend, none of them twice.
pub open spec fn ascending(pairs: Seq<(Seq<char>, Seq<char>)>) -> bool {
    forall|i: int, j: int|
        0 <= i < j < pairs.len() ==> precedes((#[trigger] pairs[i]).0, (#[trigger] pairs[j]).0)
}

/// The pairs of `map` in ascending order of their keys.
pub open spec fn listing(map: Map<Seq<char>, Seq<char>>) -> Seq<(Seq<char>, Seq<char>)> {
    choose|pairs: Seq<(Seq<char>, Seq<char>)>| ascending(pairs) && #[trigger] map_of(pairs) == map
}

proof fn lemma_ascending_distinct(pairs: Seq<(Seq<char>, Seq<char>)>)
    requires
        ascending(pairs),
    ensures
        distinct_keys(pairs),
{
    assert forall|i: int, j: int| 0 <= i < j < pairs.len() implies (#[trigger] pairs[i]).0
        != (#[trigger] pairs[j]).0 by {
        lemma_precedes_irreflexive(pairs[i].0);
    }
}

/// A map of pairs has the keys of the pairs.
pub proof fn lemma_map_of_keys(pairs: Seq<(Seq<char>, Seq<char>)>, key: Seq<char>)
    ensures
        map_of(pairs).dom().contains(key) <==> exists|i: int|
            0 <= i < pairs.len() && (#[trigger] pairs[i]).0 == key,
    decreases pairs.len(),
{
    if pairs.len() > 0 {
        let front = pairs.drop_last();
        lemma_map_of_keys(front, key);
        if map_of(pairs).dom().contains(key) {
            if pairs.last().0 == key {
                assert(pairs[pairs.len() - 1].0 == key);
            } else {
                let i = choose|i: int| 0 <= i < front.len() && (#[trigger] front[i]).0 == key;
                assert(pairs[i].0 == key);
            }
        }
        if exists|i: int| 0 <= i < pairs.len() && (#[trigger] pairs[i]).0 == key {
            let i = choose|i: int| 0 <= i < pairs.len() && (#[trigger] pairs[i]).0 == key;
            if i < front.len() {
                assert(front[i].0 == key);
            }
        }
    }
}

/// A map of pairs without repeated keys has each of the pairs.
pub proof fn lemma_map_of_values(pairs: Seq<(Seq<char>, Seq<char>)>, i: int)
    requires
        distinct_keys(pairs),
        0 <= i < pairs.len(),
    ensures
        map_of(pairs).dom().contains(pairs[i].0),
        map_of(pairs)[pairs[i].0] == pairs[i].1,
    decreases pairs.len(),
{
    if i < pairs.len() - 1 {
        let front = pairs.drop_last();
        assert(distinct_keys(front));
        lemma_map_of_values(front, i);
        assert(front[i] == pairs[i]);
        assert(pairs[i].0 != pairs[pairs.len() - 1].0);
    }
}

/// A pair with a new key may be put in anywhere.
proof fn lemma_map_of_insert(
    pairs: Seq<(Seq<char>, Seq<char>)>,
    at: int,
    key: Seq<char>,
    value: Seq<char>,
)
    requires
        0 <= at <= pairs.len(),
        distinct_keys(pairs),
        !map_of(pairs).dom().contains(key),
    ensures
        distinct_keys(pairs.insert(at, (key, value))),
        map_of(pairs.insert(at, (key, value))) == map_of(pairs).insert(key, value),
{
    let more = pairs.insert(at, (key, value));
    lemma_map_of_keys(pairs, key);
    assert(forall|i: int| 0 <= i < at ==> #[trigger] more[i] == pairs[i]);
    assert(forall|i: int| at < i < more.len() ==> #[trigger] more[i] == pairs[i - 1]);
    assert(more[at] == (key, value));
    assert forall|i: int, j: int| 0 <= i < j < more.len() implies (#[trigger] more[i]).0 != (
    #[trigger] more[j]).0 by {
        let i0 = if i < at { i } else { i - 1 };
        let j0 = if j < at { j } else { j - 1 };
        if i == at {
            assert(pairs[j0].0 != key);
        } else if j == at {
            assert(pairs[i0].0 != key);
        } else {
            assert(pairs[i0].0 != pairs[j0].0);
        }
    }
    let target = map_of(pairs).insert(key, value);
    assert forall|k: Seq<char>| #[trigger] map_of(more).dom().contains(k) <==> target.dom().contains(
        k,
    ) by {
        lemma_map_of_keys(more, k);
        lemma_map_of_keys(pairs, k);
        if target.dom().contains(k) {
            if k == key {
                assert(more[at].0 == k);
            } else {
                let i = choose|i: int| 0 <= i < pairs.len() && (#[trigger] pairs[i]).0 == k;
                let i1 = if i < at { i } else { i + 1 };
                assert(more[i1].0 == k);
            }
        }
        if map_of(more).dom().contains(k) && k != key {
            let i = choose|i: int| 0 <= i < more.len() && (#[trigger] more[i]).0 == k;
            let i0 = if i < at { i } else { i - 1 };
            assert(pairs[i0].0 == k);
        }
    }
    assert forall|k: Seq<char>| #[trigger] map_of(more).dom().contains(k) implies map_of(more)[k]
        == target[k] by {
        lemma_map_of_keys(more, k);
        let i = choose|i: int| 0 <= i < more.len() && (#[trigger] more[i]).0 == k;
        lemma_map_of_values(more, i);
        if i != at {
            let i0 = if i < at { i } else { i - 1 };
            lemma_map_of_values(pairs, i0);
            assert(pairs[i0].0 != key);
        }
    }
    assert(map_of(more) =~= target);
}

/// A value may be replaced in place.
proof fn lemma_map_of_update(pairs: Seq<(Seq<char>, Seq<char>)>, at: int, value: Seq<char>)
    requires
        0 <= at < pairs.len(),
        distinct_keys(pairs),
    ensures
        distinct_keys(pairs.update(at, (pairs[at].0, value))),
        map_of(pairs.update(at, (pairs[at].0, value))) == map_of(pairs).insert(pairs[at].0, value),
    decreases pairs.len(),
{
    let changed = pairs.update(at, (pairs[at].0, value));
    let front = pairs.drop_last();
    assert forall|i: int, j: int| 0 <= i < j < changed.len() implies (#[trigger] changed[i]).0 != (
    #[trigger] changed[j]).0 by {
        assert(pairs[i].0 != pairs[j].0);
    }
    if at < front.len() {
        assert(distinct_keys(front));
        lemma_map_of_update(front, at, value);
        assert(changed.drop_last() =~= front.update(at, (front[at].0, value)));
        assert(pairs[at].0 != pairs[pairs.len() - 1].0);
    } else {
        assert(changed.drop_last() =~= front);
    }
    assert(map_of(changed) =~= map_of(pairs).insert(pairs[at].0, value));
}

proof fn lemma_ascending_unique(
    s: Seq<(Seq<char>, Seq<char>)>,
    t: Seq<(Seq<char>, Seq<char>)>,
)
    requires
        ascending(s),
        ascending(t),
        map_of(s) == map_of(t),
    ensures
        s == t,
    decreases s.len(),
{
    if s.len() == 0 || t.len() == 0 {
        if s.len() > 0 {
            assert(map_of(s).dom().contains(s.last().0));
        }
        if t.len() > 0 {
            assert(map_of(t).dom().contains(t.last().0));
        }
        assert(s =~= t);
    } else {
        let a = s.last().0;
        let b = t.last().0;
        assert(map_of(s).dom().contains(a));
        assert(map_of(t).dom().contains(b));
        lemma_map_of_keys(t, a);
        lemma_map_of_keys(s, b);
        let j = choose|j: int| 0 <= j < t.len() && (#[trigger] t[j]).0 == a;
        let i = choose|i: int| 0 <= i < s.len() && (#[trigger] s[i]).0 == b;
        if a != b {
            assert(precedes(s[i].0, s[s.len() - 1].0));
            assert(precedes(t[j].0, t[t.len() - 1].0));
            lemma_precedes_transitive(a, b, a);
            lemma_precedes_irreflexive(a);
        }
        lemma_ascending_distinct(s);
        lemma_ascending_distinct(t);
        lemma_map_of_values(s, s.len() - 1);
        lemma_map_of_values(t, t.len() - 1);
        let s1 = s.drop_last();
        let t1 = t.drop_last();
        lemma_map_of_keys(s1, a);
        lemma_map_of_keys(t1, a);
        assert forall|k: int| 0 <= k < s1.len() implies (#[trigger] s1[k]).0 != a by {
            assert(s[k].0 != s[s.len() - 1].0);
        }
        assert forall|k: int| 0 <= k < t1.len() implies (#[trigger] t1[k]).0 != a by {
            assert(t[k].0 != t[t.len() - 1].0);
        }
        assert(map_of(s1) =~= map_of(s).remove(a));
        assert(map_of(t1) =~= map_of(t).remove(a));
        assert(ascending(s1));
        assert(ascending(t1));
        lemma_ascending_unique(s1, t1);
        assert(s =~= s1.push(s.last()));
        assert(t =~= t1.push(t.last()));
    }
}

/// A map has one ascending sequence of pairs: whatever order the pairs were given
/// in, its listing is the same.
pub proof fn lemma_listing_unique(pairs: Seq<(Seq<char>, Seq<char>)>)
    requires
        ascending(pairs),
    ensures
        listing(map_of(pairs)) == pairs,
{
    lemma_ascending_unique(listing(map_of(pairs)), pairs);
}

/// A pair goes in between the smaller and the greater keys.
proof fn lemma_ascending_insert(
    pairs: Seq<(Seq<char>, Seq<char>)>,
    at: int,
    key: Seq<char>,
    value: Seq<char>,
)
    requires
        ascending(pairs),
        0 <= at <= pairs.len(),
        forall|i: int| 0 <= i < at ==> precedes((#[trigger] pairs[i]).0, key),
        forall|i: int| at <= i < pairs.len() ==> precedes(key, (#[trigger] pairs[i]).0),
    ensures
        ascending(pairs.insert(at, (key, value))),
{
    let more = pairs.insert(at, (key, value));
    assert forall|i: int, j: int| 0 <= i < j < more.len() implies precedes(
        (#[trigger] more[i]).0,
        (#[trigger] more[j]).0,
    ) by {
        let i0 = if i < at { i } else { i - 1 };
        let j0 = if j < at { j } else { j - 1 };
        if i != at && j != at {
            assert(precedes(pairs[i0].0, pairs[j0].0));
        } else if i == at {
            assert(precedes(key, pairs[j0].0));
        } else {
            assert(precedes(pairs[i0].0, key));
        }
    }
}

/// There is a place for a new key among ascending ones.
proof fn lemma_insert_position(pairs: Seq<(Seq<char>, Seq<char>)>, key: Seq<char>) -> (at: int)
    requires
        ascending(pairs),
        forall|i: int| 0 <= i < pairs.len() ==> (#[trigger] pairs[i]).0 != key,
    ensures
        0 <= at <= pairs.len(),
        forall|i: int| 0 <= i < at ==> precedes((#[trigger] pairs[i]).0, key),
        forall|i: int| at <= i < pairs.len() ==> precedes(key, (#[trigger] pairs[i]).0),
    decreases pairs.len(),
{
    if pairs.len() == 0 {
        0
    } else {
        let last = pairs.len() - 1;
        let front = pairs.drop_last();
        assert(ascending(front));
        assert forall|i: int| 0 <= i < front.len() implies (#[trigger] front[i]).0 != key by {
            assert(pairs[i].0 != key);
        }
        let at = lemma_insert_position(front, key);
        lemma_precedes_total(pairs[last].0, key);
        if precedes(pairs[last].0, key) {
            assert forall|i: int| 0 <= i < pairs.len() implies precedes(
                (#[trigger] pairs[i]).0,
                key,
            ) by {
                if i < last {
                    lemma_precedes_transitive(pairs[i].0, pairs[last].0, key);
                }
            }
            pairs.len() as int
        } else {
            assert forall|i: int| 0 <= i < at implies precedes((#[trigger] pairs[i]).0, key) by {
                assert(precedes(front[i].0, key));
            }
            assert forall|i: int| at <= i < pairs.len() implies precedes(
                key,
                (#[trigger] pairs[i]).0,
            ) by {
                if i < last {
                    assert(precedes(key, front[i].0));
                }
            }
            at
        }
    }
}

proof fn lemma_listing_exists(pairs: Seq<(Seq<char>, Seq<char>)>) -> (r: Seq<
    (Seq<char>, Seq<char>),
>)
    ensures
        ascending(r),
        map_of(r) == map_of(pairs),
    decreases pairs.len(),
{
    if pairs.len() == 0 {
        pairs
    } else {
        let s = lemma_listing_exists(pairs.drop_last());
        let key = pairs.last().0;
        let value = pairs.last().1;
        lemma_ascending_distinct(s);
        lemma_map_of_keys(s, key);
        if map_of(s).dom().contains(key) {
            let i = choose|i: int| 0 <= i < s.len() && (#[trigger] s[i]).0 == key;
            lemma_map_of_update(s, i, value);
            let r = s.update(i, (key, value));
            assert forall|j: int, k: int| 0 <= j < k < r.len() implies precedes(
                (#[trigger] r[j]).0,
                (#[trigger] r[k]).0,
            ) by {
                assert(precedes(s[j].0, s[k].0));
            }
            r
        } else {
            let at = lemma_insert_position(s, key);
            lemma_map_of_insert(s, at, key, value);
            lemma_ascending_insert(s, at, key, value);
            s.insert(at, (key, value))
        }
    }
}

/// The listing of a map has the pairs of the map, by ascending keys.
pub proof fn lemma_listing(pairs: Seq<(Seq<char>, Seq<char>)>)
    ensures
        ascending(listing(map_of(pairs))),
        map_of(listing(map_of(pairs))) == map_of(pairs),
{
    let r = lemma_listing_exists(pairs);
    assert(ascending(r) && map_of(r) == map_of(pairs));
}

/// Each pair of `a` is one of `b`.
pub open spec fn pairs_within(
    a: Seq<(Seq<char>, Seq<char>)>,
    b: Seq<(Seq<char>, Seq<char>)>,
) -> bool {
    forall|i: int| 0 <= i < a.len() ==> b.contains(#[trigger] a[i])
}

proof fn lemma_within_map(
    a: Seq<(Seq<char>, Seq<char>)>,
    b: Seq<(Seq<char>, Seq<char>)>,
    key: Seq<char>,
)
    requires
        pairs_within(a, b),
        distinct_keys(a),
        distinct_keys(b),
        map_of(a).dom().contains(key),
    ensures
        map_of(b).dom().contains(key),
        map_of(b)[key] == map_of(a)[key],
{
    lemma_map_of_keys(a, key);
    let i = choose|i: int| 0 <= i < a.len() && (#[trigger] a[i]).0 == key;
    let j = choose|j: int| 0 <= j < b.len() && #[trigger] b[j] == a[i];
    lemma_map_of_values(a, i);
    lemma_map_of_values(b, j);
}

/// The map of pairs without repeated keys depends on the pairs alone, not on their
/// order.
pub proof fn lemma_map_of_any_order(
    a: Seq<(Seq<char>, Seq<char>)>,
    b: Seq<(Seq<char>, Seq<char>)>,
)
    requires
        pairs_within(a, b),
        pairs_within(b, a),
        distinct_keys(a),
        distinct_keys(b),
    ensures
        map_of(a) == map_of(b),
{
    let x = map_of(a);
    let y = map_of(b);
    assert forall|key: Seq<char>| #[trigger] x.dom().contains(key) implies y.dom().contains(key)
        && y[key] == x[key] by {
        lemma_within_map(a, b, key);
    }
    assert forall|key: Seq<char>| #[trigger] y.dom().contains(key) implies x.dom().contains(
        key,
    ) by {
        lemma_within_map(b, a, key);
    }
    assert(x =~= y);
}

/// `pairs` with `value` for `key`: in its place where the key is there, else at the
/// end.
pub open spec fn with_pair(
    pairs: Seq<(Seq<char>, Seq<char>)>,
    key: Seq<char>,
    value: Seq<char>,
) -> Seq<(Seq<char>, Seq<char>)> {
    if exists|i: int| 0 <= i < pairs.len() && (#[trigger] pairs[i]).0 == key {
        pairs.update(
            choose|i: int| 0 <= i < pairs.len() && (#[trigger] pairs[i]).0 == key,
            (key, value),
        )
    } else {
        pairs.push((key, value))
    }
}

/// `pairs` without repeated keys: each key where it first stands, with the value that
/// it has last.
pub open spec fn merged(pairs: Seq<(Seq<char>, Seq<char>)>) -> Seq<(Seq<char>, Seq<char>)>
    decreases pairs.len(),
{
    if pairs.len() == 0 {
        Seq::empty()
    } else {
        with_pair(merged(pairs.drop_last()), pairs.last().0, pairs.last().1)
    }
}

/// A map from texts to texts, kept as a list of pairs without repeated keys.
#[derive(Debug)]
pub struct StringMap {
    entries: Vec<(String, String)>,
}

impl StringMap {
    /// The pairs in the order in which their keys were first given.
    pub closed spec fn entries(&self) -> Seq<(Seq<char>, Seq<char>)> {
        pair_views(self.entries@)
    }

    #[verifier::type_invariant]
    spec fn keys_are_distinct(&self) -> bool {
        distinct_keys(pair_views(self.entries@))
    }
}

impl View for StringMap {
    type V = Map<Seq<char>, Seq<char>>;

    open spec fn view(&self) -> Map<Seq<char>, Seq<char>> {
        map_of(self.entries())
    }
}

impl Default for StringMap {
    fn default() -> (r: StringMap)
        ensures
            r.entries() == Seq::<(Seq<char>, Seq<char>)>::empty(),
            r@ == Map::<Seq<char>, Seq<char>>::empty(),
    {
        StringMap::new()
    }
}

impl StringMap {
    /// The empty map.
    pub fn new() -> (r: StringMap)
        ensures
            r.entries() == Seq::<(Seq<char>, Seq<char>)>::empty(),
            r@ == Map::<Seq<char>, Seq<char>>::empty(),
    {
        let entries: Vec<(String, String)> = Vec::new();
        assert(pair_views(entries@) =~= Seq::empty());
        StringMap { entries }
    }

    fn position(&self, key: &str) -> (r: Option<usize>)
        ensures
            r is Some <==> self@.dom().contains(key@),
            r matches Some(i) ==> i < self.entries@.len() && self.entries@[i as int].0@ == key@,
    {
        for i in 0..self.entries.len()
            invariant
                forall|j: int| 0 <= j < i ==> (#[trigger] self.entries@[j]).0@ != key@,
        {
            if same_text(self.entries[i].0.as_str(), key) {
                proof {
                    lemma_map_of_keys(self.entries(), key@);
                    assert(self.entries()[i as int].0 == key@);
                }
                return Some(i);
            }
        }
        proof {
            lemma_map_of_keys(self.entries(), key@);
            assert forall|j: int| 0 <= j < self.entries().len() implies (
            #[trigger] self.entries()[j]).0 != key@ by {
                assert(self.entries@[j].0@ != key@);
            }
        }
        None
    }

    /// The value of `key`, if the map has one.
    pub fn get(&self, key: &str) -> (r: Option<&str>)
        ensures
            r is Some <==> self@.dom().contains(key@),
            r matches Some(value) ==> value@ == self@[key@],
    {
        match self.position(key) {
            Some(i) => {
                proof {
                    use_type_invariant(self);
                    lemma_map_of_values(self.entries(), i as int);
                    assert(self.entries()[i as int] == (
                        self.entries@[i as int].0@,
                        self.entries@[i as int].1@,
                    ));
                }
                Some(self.entries[i].1.as_str())
            },
            None => None,
        }
    }

    /// Gives `key` the value `value`, in place of the one it may have had. A new key
    /// comes last.
    pub fn insert(&mut self, key: String, value: String)
        ensures
            final(self).entries() == with_pair(old(self).entries(), key@, value@),
            final(self)@ == old(self)@.insert(key@, value@),
    {
        proof {
            use_type_invariant(&*self);
            lemma_map_of_keys(self.entries(), key@);
        }
        let ghost before = self.entries();
        let found = self.position(key.as_str());
        let mut entries: Vec<(String, String)> = Vec::new();
        std::mem::swap(&mut entries, &mut self.entries);
        match found {
            Some(i) => {
                proof {
                    lemma_map_of_update(before, i as int, value@);
                    assert(before[i as int].0 == key@);
                }
                entries.set(i, (key, value));
                assert(pair_views(entries@) =~= before.update(i as int, (key@, value@)));
            },
            None => {
                proof {
                    lemma_map_of_insert(before, before.len() as int, key@, value@);
                }
                entries.push((key, value));
                assert(pair_views(entries@) =~= before.insert(
                    before.len() as int,
                    (key@, value@),
                ));
            },
        }
        self.entries = entries;
    }

    /// The map of `pairs`: where a key occurs more than once, the last pair counts. The
    /// keys keep the order in which they first occur.
    pub fn from_pairs(pairs: Vec<(String, String)>) -> (r: StringMap)
        ensures
            r.entries() == merged(pair_views(pairs@)),
            r@ == map_of(pair_views(pairs@)),
    {
        let mut map = StringMap::new();
        for i in 0..pairs.len()
            invariant
                map.entries() == merged(pair_views(pairs@).take(i as int)),
                map@ == map_of(pair_views(pairs@).take(i as int)),
        {
            let ghost views = pair_views(pairs@);
            map.insert(pairs[i].0.clone(), pairs[i].1.clone());
            assert(views.take(i + 1).drop_last() =~= views.take(i as int));
            assert(views.take(i + 1).last() == views[i as int]);
        }
        assert(pair_views(pairs@).take(pairs@.len() as int) =~= pair_views(pairs@));
        map
    }

    /// The number of keys.
    pub fn len(&self) -> (r: usize)
        ensures
            r == self.entries().len(),
            r == self@.dom().len(),
    {
        proof {
            use_type_invariant(self);
            lemma_map_of_len(self.entries());
        }
        self.entries.len()
    }

    /// The pairs in the order in which their keys were first given.
    pub fn pairs(&self) -> (r: Vec<(String, String)>)
        ensures
            pair_views(r@) == self.entries(),
            distinct_keys(self.entries()),
    {
        let mut out: Vec<(String, String)> = Vec::new();
        for i in 0..self.entries.len()
            invariant
                pair_views(out@) == self.entries().take(i as int),
        {
            let ghost before = out@;
            out.push((self.entries[i].0.clone(), self.entries[i].1.clone()));
            assert(pair_views(out@) =~= pair_views(before).push(self.entries()[i as int]));
            assert(pair_views(out@) =~= self.entries().take(i + 1));
        }
        assert(self.entries().take(self.entries().len() as int) =~= self.entries());
        proof {
            use_type_invariant(self);
        }
        out
    }

    /// The pairs in ascending order of their keys.
    pub fn sorted_pairs(&self) -> (r: Vec<(String, String)>)
        ensures
            pair_views(r@) == listing(self@),
            ascending(listing(self@)),
            map_of(listing(self@)) == self@,
    {
        let mut out: Vec<(String, String)> = Vec::new();
        assert(pair_views(out@) =~= Seq::empty());
        assert(self.entries().take(0) =~= Seq::empty());
        proof {
            use_type_invariant(self);
        }
        for i in 0..self.entries.len()
            invariant
                distinct_keys(self.entries()),
                ascending(pair_views(out@)),
                map_of(pair_views(out@)) == map_of(self.entries().take(i as int)),
        {
            let ghost front = self.entries().take(i as int);
            let ghost pair = self.entries()[i as int];
            proof {
                lemma_map_of_keys(front, pair.0);
                assert forall|j: int| 0 <= j < front.len() implies (#[trigger] front[j]).0
                    != pair.0 by {
                    assert(self.entries()[j].0 != self.entries()[i as int].0);
                }
                assert(self.entries().take(i + 1).drop_last() =~= front);
                assert(self.entries().take(i + 1).last() == pair);
            }
            insert_sorted(&mut out, self.entries[i].0.clone(), self.entries[i].1.clone());
        }
        assert(self.entries().take(self.entries().len() as int) =~= self.entries());
        proof {
            lemma_listing_unique(pair_views(out@));
        }
        out
    }
}

impl Clone for StringMap {
    fn clone(&self) -> (r: StringMap)
        ensures
            r.entries() == self.entries(),
            r@ == self@,
    {
        let entries = self.pairs();
        StringMap { entries }
    }
}

/// The number of keys of a map is the number of pairs without repeated keys.
pub proof fn lemma_map_of_len(pairs: Seq<(Seq<char>, Seq<char>)>)
    requires
        distinct_keys(pairs),
    ensures
        map_of(pairs).dom().finite(),
        map_of(pairs).dom().len() == pairs.len(),
    decreases pairs.len(),
{
    if pairs.len() > 0 {
        let front = pairs.drop_last();
        assert(distinct_keys(front));
        lemma_map_of_len(front);
        lemma_map_of_keys(front, pairs.last().0);
        assert forall|i: int| 0 <= i < front.len() implies (#[trigger] front[i]).0
            != pairs.last().0 by {
            assert(pairs[i].0 != pairs[pairs.len() - 1].0);
        }
        assert(map_of(pairs).dom() =~= map_of(front).dom().insert(pairs.last().0));
    }
}

fn insert_sorted(out: &mut Vec<(String, String)>, key: String, value: String)
    requires
        ascending(pair_views(old(out)@)),
        !map_of(pair_views(old(out)@)).dom().contains(key@),
    ensures
        ascending(pair_views(final(out)@)),
        map_of(pair_views(final(out)@)) == map_of(pair_views(old(out)@)).insert(key@, value@),
{
    let ghost before = pair_views(out@);
    let mut at: usize = 0;
    while at < out.len() && text_precedes(out[at].0.as_str(), key.as_str())
        invariant
            pair_views(out@) == before,
            at <= out@.len(),
            forall|i: int| 0 <= i < at ==> precedes((#[trigger] before[i]).0, key@),
        decreases out.len() - at,
    {
        assert(before[at as int].0 == out@[at as int].0@);
        at += 1;
    }
    proof {
        lemma_map_of_keys(before, key@);
        assert forall|i: int| at <= i < before.len() implies precedes(
            key@,
            (#[trigger] before[i]).0,
        ) by {
            assert(before[at as int].0 == out@[at as int].0@);
            lemma_precedes_total(key@, before[at as int].0);
            if at < i {
                lemma_precedes_transitive(key@, before[at as int].0, before[i].0);
            }
        }
        lemma_ascending_distinct(before);
        lemma_map_of_insert(before, at as int, key@, value@);
    }
    out.insert(at, (key, value));
    assert(pair_views(out@) =~= before.insert(at as int, (key@, value@)));
    proof {
        lemma_ascending_insert(before, at as int, key@, value@);
    }
}

/// The views of pairs are the texts of the pairs, one by one.
pub proof fn lemma_pair_views_one_by_one(pairs: Seq<(String, String)>)
    ensures
        pair_views(pairs).len() == pairs.len(),
        forall|i: int|
            0 <= i < pairs.len() ==> #[trigger] pair_views(pairs)[i] == (pairs[i].0@, pairs[i].1@),
{
}

/// A map stands for its pairs.
pub proof fn lemma_map_of_its_entries(map: StringMap)
    ensures
        map@ == map_of(map.entries()),
{
}

/// Pairs make a map one after the other.
pub proof fn lemma_map_of_step(
    pairs: Seq<(Seq<char>, Seq<char>)>,
    key: Seq<char>,
    value: Seq<char>,
)
    ensures
        map_of(Seq::empty()) == Map::<Seq<char>, Seq<char>>::empty(),
        map_of(pairs.push((key, value))) == map_of(pairs).insert(key, value),
{
    assert(pairs.push((key, value)).drop_last() =~= pairs);
}

/// A key has the value that it was given last.
pub proof fn lemma_last_value_counts(pairs: Seq<(Seq<char>, Seq<char>)>, i: int)
    requires
        0 <= i < pairs.len(),
        forall|j: int| i < j < pairs.len() ==> (#[trigger] pairs[j]).0 != pairs[i].0,
    ensures
        map_of(pairs).dom().contains(pairs[i].0),
        map_of(pairs)[pairs[i].0] == pairs[i].1,
    decreases pairs.len(),
{
    if i < pairs.len() - 1 {
        let front = pairs.drop_last();
        assert forall|j: int| i < j < front.len() implies (#[trigger] front[j]).0 != front[i].0 by {
            assert(pairs[j].0 != pairs[i].0);
        }
        lemma_last_value_counts(front, i);
        assert(pairs[pairs.len() - 1].0 != pairs[i].0);
    }
}

/// Two pairs of a listing stand in the order of their keys.
pub proof fn lemma_listed_in_order(pairs: Seq<(Seq<char>, Seq<char>)>, i: int, j: int)
    requires
        0 <= i < j < listing(map_of(pairs)).len(),
    ensures
        precedes(listing(map_of(pairs))[i].0, listing(map_of(pairs))[j].0),
{
    lemma_listing(pairs);
}

/// A listing begins with the smallest key; behind it stands the listing of the rest.
pub proof fn lemma_listing_smallest_first(pairs: Seq<(Seq<char>, Seq<char>)>, key: Seq<char>)
    requires
        map_of(pairs).dom().contains(key),
        forall|other: Seq<char>| #[trigger]
            map_of(pairs).dom().contains(other) && other != key ==> precedes(key, other),
    ensures
        listing(map_of(pairs)) == seq![(key, map_of(pairs)[key])] + listing(
            map_of(pairs).remove(key),
        ),
{
    let map = map_of(pairs);
    let all = listing(map);
    lemma_listing(pairs);
    lemma_ascending_distinct(all);
    lemma_map_of_keys(all, key);
    let i = choose|i: int| 0 <= i < all.len() && (#[trigger] all[i]).0 == key;
    lemma_map_of_values(all, 0);
    if i > 0 {
        assert(precedes(all[0].0, all[i].0));
        assert(map.dom().contains(all[0].0));
        lemma_precedes_irreflexive(key);
        if all[0].0 != key {
            lemma_precedes_transitive(key, all[0].0, key);
        }
    }
    let rest = all.drop_first();
    assert forall|a: int, b: int| 0 <= a < b < rest.len() implies precedes(
        (#[trigger] rest[a]).0,
        (#[trigger] rest[b]).0,
    ) by {
        assert(precedes(all[a + 1].0, all[b + 1].0));
    }
    lemma_ascending_distinct(rest);
    lemma_map_of_keys(rest, key);
    assert forall|a: int| 0 <= a < rest.len() implies (#[trigger] rest[a]).0 != key by {
        assert(all[0].0 != all[a + 1].0);
    }
    lemma_map_of_insert(rest, 0, key, map[key]);
    assert(all =~= rest.insert(0, (key, map[key])));
    assert(map.remove(key) =~= map_of(rest));
    lemma_listing_unique(rest);
    assert(all =~= seq![(key, map[key])] + rest);
}

/// Merging pairs keeps what they stand for, and repeats no key.
pub proof fn lemma_merged_is_same_map(pairs: Seq<(Seq<char>, Seq<char>)>)
    ensures
        map_of(merged(pairs)) == map_of(pairs),
        forall|i: int, j: int|
            0 <= i < j < merged(pairs).len() ==> (#[trigger] merged(pairs)[i]).0 != (
            #[trigger] merged(pairs)[j]).0,
    decreases pairs.len(),
{
    if pairs.len() > 0 {
        let front = merged(pairs.drop_last());
        let key = pairs.last().0;
        let value = pairs.last().1;
        lemma_merged_is_same_map(pairs.drop_last());
        assert(distinct_keys(front));
        lemma_map_of_keys(front, key);
        if exists|i: int| 0 <= i < front.len() && (#[trigger] front[i]).0 == key {
            let i = choose|i: int| 0 <= i < front.len() && (#[trigger] front[i]).0 == key;
            lemma_map_of_update(front, i, value);
        } else {
            lemma_map_of_insert(front, front.len() as int, key, value);
            assert(front.insert(front.len() as int, (key, value)) =~= front.push((key, value)));
        }
        assert(distinct_keys(merged(pairs)));
    }
}

/// One more pair goes behind the merged ones if its key is new; else it replaces the
/// value of the key, and every key keeps its place.
pub proof fn lemma_merged_step(
    pairs: Seq<(Seq<char>, Seq<char>)>,
    key: Seq<char>,
    value: Seq<char>,
)
    ensures
        merged(Seq::empty()) == Seq::<(Seq<char>, Seq<char>)>::empty(),
        (forall|i: int| 0 <= i < pairs.len() ==> (#[trigger] pairs[i]).0 != key) ==> merged(
            pairs.push((key, value)),
        ) == merged(pairs).push((key, value)),
        (exists|i: int| 0 <= i < pairs.len() && (#[trigger] pairs[i]).0 == key) ==> {
            let before = merged(pairs);
            let after = merged(pairs.push((key, value)));
            &&& after.len() == before.len()
            &&& forall|i: int|
                0 <= i < before.len() ==> #[trigger] after[i] == (if before[i].0 == key {
                    (key, value)
                } else {
                    before[i]
                })
        },
{
    let front = merged(pairs);
    assert(pairs.push((key, value)).drop_last() =~= pairs);
    lemma_merged_is_same_map(pairs);
    lemma_map_of_keys(pairs, key);
    lemma_map_of_keys(front, key);
    if exists|i: int| 0 <= i < front.len() && (#[trigger] front[i]).0 == key {
        let at = choose|i: int| 0 <= i < front.len() && (#[trigger] front[i]).0 == key;
        let after = merged(pairs.push((key, value)));
        assert(after == front.update(at, (key, value)));
        assert forall|i: int| 0 <= i < front.len() implies #[trigger] after[i] == (if front[i].0
            == key {
            (key, value)
        } else {
            front[i]
        }) by {
            if i < at {
                assert(front[i].0 != front[at].0);
            }
            if at < i {
                assert(front[at].0 != front[i].0);
            }
        }
    }
}

/// A value is put in the place of its key, or behind all pairs where the key is new.
pub proof fn lemma_with_pair_in_place(
    pairs: Seq<(Seq<char>, Seq<char>)>,
    key: Seq<char>,
    value: Seq<char>,
    i: int,
)
    requires
        forall|a: int, b: int|
            0 <= a < b < pairs.len() ==> (#[trigger] pairs[a]).0 != (#[trigger] pairs[b]).0,
    ensures
        0 <= i < pairs.len() && pairs[i].0 == key ==> with_pair(pairs, key, value) == pairs.update(
            i,
            (key, value),
        ),
        (forall|a: int| 0 <= a < pairs.len() ==> (#[trigger] pairs[a]).0 != key) ==> with_pair(
            pairs,
            key,
            value,
        ) == pairs.push((key, value)),
{
    if 0 <= i < pairs.len() && pairs[i].0 == key {
        let at = choose|a: int| 0 <= a < pairs.len() && (#[trigger] pairs[a]).0 == key;
        assert(at == i);
    }
}

/// Keys are distinct if no two of them are equal, and ascend if each comes before those
/// behind it.
pub proof fn lemma_key_orders(pairs: Seq<(Seq<char>, Seq<char>)>)
    ensures
        distinct_keys(pairs) <==> forall|i: int, j: int|
            0 <= i < j < pairs.len() ==> (#[trigger] pairs[i]).0 != (#[trigger] pairs[j]).0,
        ascending(pairs) <==> forall|i: int, j: int|
            0 <= i < j < pairs.len() ==> precedes((#[trigger] pairs[i]).0, (#[trigger] pairs[j]).0),
{
}

} // verus!
