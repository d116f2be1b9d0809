//! An association map keyed by strings, kept sorted by key.
//!
//! The store's dirty-key layer and its staged batches are maps from flat key
//! to optional record. This map keeps its pairs in strictly ascending key
//! order, so every key occurs once and a walk over the pairs visits keys in
//! ascending order — the order in which a persistence pass must visit them.
//! Its view is the mathematical `Map` from key characters to the deep view
//! of the stored value.

use vstd::prelude::*;
use vstd::string::StrSliceExecFns;

verus! {

/// Lexicographic order on character sequences, by code point.
pub open spec fn spec_chars_lt(a: Seq<char>, b: Seq<char>) -> bool
    decreases b.len(),
{
    if b.len() == 0 {
        false
    } else if a.len() == 0 {
        true
    } else if (a[0] as u32) < (b[0] as u32) {
        true
    } else if a[0] == b[0] {
        spec_chars_lt(a.drop_first(), b.drop_first())
    } else {
        false
    }
}

/// No sequence is below itself.
pub proof fn lemma_chars_lt_irreflexive(a: Seq<char>)
    ensures
        !spec_chars_lt(a, a),
    decreases a.len(),
{
    if a.len() > 0 {
        lemma_chars_lt_irreflexive(a.drop_first());
    }
}

/// Two distinct sequences are ordered one way or the other.
pub proof fn lemma_chars_lt_connected(a: Seq<char>, b: Seq<char>)
    ensures
        a != b ==> spec_chars_lt(a, b) || spec_chars_lt(b, a),
    decreases a.len() + b.len(),
{
    if a.len() == 0 || b.len() == 0 {
        if a.len() == 0 && b.len() > 0 {
            assert(spec_chars_lt(a, b));
        }
        if b.len() == 0 && a.len() > 0 {
            assert(spec_chars_lt(b, a));
        }
        if a.len() == 0 && b.len() == 0 {
            assert(a =~= b);
        }
    } else if a[0] == b[0] {
        lemma_chars_lt_connected(a.drop_first(), b.drop_first());
        if a.drop_first() == b.drop_first() {
            assert(a.len() == b.len());
            assert forall|i: int| 0 <= i < a.len() implies a[i] == b[i] by {
                if i > 0 {
                    assert(a.drop_first()[i - 1] == b.drop_first()[i - 1]);
                }
            }
            assert(a =~= b);
        }
    } else {
        vstd::utf8::char_u32_cast(a[0], a[0] as u32);
        vstd::utf8::char_u32_cast(b[0], b[0] as u32);
        assert((a[0] as u32) != (b[0] as u32));
        if (a[0] as u32) < (b[0] as u32) {
            assert(spec_chars_lt(a, b));
        } else {
            assert(spec_chars_lt(b, a));
        }
    }
}

/// The order is transitive.
pub proof fn lemma_chars_lt_transitive(a: Seq<char>, b: Seq<char>, c: Seq<char>)
    ensures
        spec_chars_lt(a, b) && spec_chars_lt(b, c) ==> spec_chars_lt(a, c),
    decreases a.len() + b.len() + c.len(),
{
    if a.len() > 0 && b.len() > 0 && c.len() > 0 {
        lemma_chars_lt_transitive(a.drop_first(), b.drop_first(), c.drop_first());
    }
}

/// Sequences that agree on a prefix are ordered as their tails are.
pub proof fn lemma_chars_lt_common_prefix(a: Seq<char>, b: Seq<char>, i: int)
    requires
        0 <= i <= a.len(),
        i <= b.len(),
        forall|j: int| 0 <= j < i ==> a[j] == b[j],
    ensures
        spec_chars_lt(a, b) == spec_chars_lt(a.skip(i), b.skip(i)),
    decreases i,
{
    if i > 0 {
        assert(a.len() > 0 && b.len() > 0 && a[0] == b[0]);
        lemma_chars_lt_common_prefix(a.drop_first(), b.drop_first(), i - 1);
        assert(a.drop_first().skip(i - 1) =~= a.skip(i));
        assert(b.drop_first().skip(i - 1) =~= b.skip(i));
    } else {
        assert(a.skip(0) =~= a);
        assert(b.skip(0) =~= b);
    }
}

/// Decides [`spec_chars_lt`] on string slices.
pub fn str_lt(a: &str, b: &str) -> (r: bool)
    ensures
        r == spec_chars_lt(a@, b@),
{
    let a_len = a.unicode_len();
    let b_len = b.unicode_len();
    let mut i: usize = 0;
    while i < a_len && i < b_len
        invariant
            a_len == a@.len(),
            b_len == b@.len(),
            i <= a_len,
            i <= b_len,
            forall|j: int| 0 <= j < i ==> a@[j] == b@[j],
        decreases a_len - i,
    {
        let ca = a.get_char(i);
        let cb = b.get_char(i);
        if ca as u32 != cb as u32 {
            proof {
                lemma_chars_lt_common_prefix(a@, b@, i as int);
                assert(a@.skip(i as int)[0] == a@[i as int]);
                assert(b@.skip(i as int)[0] == b@[i as int]);
            }
            return (ca as u32) < (cb as u32);
        }
        proof {
            vstd::utf8::char_u32_cast(ca, ca as u32);
            vstd::utf8::char_u32_cast(cb, cb as u32);
            assert(a@[i as int] == b@[i as int]);
        }
        i = i + 1;
    }
    proof {
        lemma_chars_lt_common_prefix(a@, b@, i as int);
        if i == a_len {
            assert(a@.skip(i as int).len() == 0);
        }
        if i == b_len {
            assert(b@.skip(i as int).len() == 0);
        }
    }
    a_len < b_len
}

/// The map an association sequence describes: later pairs override earlier
/// ones, and values enter by their deep view.
pub open spec fn spec_pairs_map<V: DeepView>(pairs: Seq<(String, V)>) -> Map<
    Seq<char>,
    V::V,
>
    decreases pairs.len(),
{
    if pairs.len() == 0 {
        Map::empty()
    } else {
        spec_pairs_map(pairs.drop_last()).insert(
            pairs.last().0@,
            pairs.last().1.deep_view(),
        )
    }
}

/// The keys of an association sequence, in order.
pub open spec fn spec_pair_keys<V>(pairs: Seq<(String, V)>) -> Seq<Seq<char>> {
    pairs.map_values(|p: (String, V)| p.0@)
}

/// Strictly ascending keys.
pub open spec fn spec_keys_sorted<V>(pairs: Seq<(String, V)>) -> bool {
    forall|i: int, j: int|
        0 <= i < j < pairs.len() ==> spec_chars_lt(#[trigger] pairs[i].0@, #[trigger] pairs[j].0@)
}

/// A key is in the map exactly when some pair carries it.
pub proof fn lemma_pairs_map_contains<V: DeepView>(pairs: Seq<(String, V)>, k: Seq<char>)
    ensures
        spec_pairs_map(pairs).contains_key(k) <==> (exists|i: int|
            0 <= i < pairs.len() && #[trigger] pairs[i].0@ == k),
    decreases pairs.len(),
{
    if pairs.len() > 0 {
        lemma_pairs_map_contains(pairs.drop_last(), k);
        if pairs.last().0@ == k {
            assert(pairs[pairs.len() - 1].0@ == k);
        } else if spec_pairs_map(pairs).contains_key(k) {
            let i = choose|i: int| 0 <= i < pairs.drop_last().len() && #[trigger] pairs.drop_last()[i].0@
                == k;
            assert(pairs[i].0@ == k);
        } else {
            assert forall|i: int| 0 <= i < pairs.len() implies #[trigger] pairs[i].0@ != k by {
                if i < pairs.len() - 1 {
                    assert(pairs.drop_last()[i].0@ != k);
                }
            }
        }
    }
}

/// With no repeated keys, the map carries each pair's value under its key.
pub proof fn lemma_pairs_map_get<V: DeepView>(pairs: Seq<(String, V)>, i: int)
    requires
        forall|p: int, q: int|
            0 <= p < q < pairs.len() ==> (#[trigger] pairs[p].0@) != (#[trigger] pairs[q].0@),
        0 <= i < pairs.len(),
    ensures
        spec_pairs_map(pairs).contains_key(pairs[i].0@),
        spec_pairs_map(pairs)[pairs[i].0@] == pairs[i].1.deep_view(),
    decreases pairs.len(),
{
    if i == pairs.len() - 1 {
    } else {
        lemma_pairs_map_get(pairs.drop_last(), i);
        assert(pairs.drop_last()[i] == pairs[i]);
        assert(pairs[pairs.len() - 1].0@ != pairs[i].0@);
    }
}

/// Sorted keys never repeat.
pub proof fn lemma_sorted_keys_distinct<V>(pairs: Seq<(String, V)>)
    requires
        spec_keys_sorted(pairs),
    ensures
        forall|p: int, q: int|
            0 <= p < q < pairs.len() ==> (#[trigger] pairs[p].0@) != (#[trigger] pairs[q].0@),
{
    assert forall|p: int, q: int|
        0 <= p < q < pairs.len() implies (#[trigger] pairs[p].0@) != (#[trigger] pairs[q].0@) by {
        lemma_chars_lt_irreflexive(pairs[p].0@);
    }
}

/// Inserting a fresh key anywhere inserts it into the map.
pub proof fn lemma_pairs_map_insert_new<V: DeepView>(
    pairs: Seq<(String, V)>,
    pos: int,
    pair: (String, V),
)
    requires
        0 <= pos <= pairs.len(),
        forall|i: int| 0 <= i < pairs.len() ==> (#[trigger] pairs[i].0@) != pair.0@,
    ensures
        spec_pairs_map(pairs.insert(pos, pair)) == spec_pairs_map(pairs).insert(
            pair.0@,
            pair.1.deep_view(),
        ),
    decreases pairs.len(),
{
    let grown = pairs.insert(pos, pair);
    if pos == pairs.len() {
        assert(grown.drop_last() =~= pairs);
        assert(grown.last() == pair);
    } else {
        assert(grown.drop_last() =~= pairs.drop_last().insert(pos, pair));
        assert(grown.last() == pairs.last());
        assert(forall|i: int|
            0 <= i < pairs.drop_last().len() ==> (#[trigger] pairs.drop_last()[i].0@) != pair.0@);
        lemma_pairs_map_insert_new(pairs.drop_last(), pos, pair);
        assert(pairs[pairs.len() - 1].0@ != pair.0@);
        assert(spec_pairs_map(grown) =~= spec_pairs_map(pairs).insert(
            pair.0@,
            pair.1.deep_view(),
        ));
    }
}

/// Overwriting the pair that carries a key updates it in the map.
pub proof fn lemma_pairs_map_update<V: DeepView>(
    pairs: Seq<(String, V)>,
    i: int,
    pair: (String, V),
)
    requires
        forall|p: int, q: int|
            0 <= p < q < pairs.len() ==> (#[trigger] pairs[p].0@) != (#[trigger] pairs[q].0@),
        0 <= i < pairs.len(),
        pair.0@ == pairs[i].0@,
    ensures
        spec_pairs_map(pairs.update(i, pair)) == spec_pairs_map(pairs).insert(
            pair.0@,
            pair.1.deep_view(),
        ),
    decreases pairs.len(),
{
    let updated = pairs.update(i, pair);
    if i == pairs.len() - 1 {
        assert(updated.drop_last() =~= pairs.drop_last());
        assert(updated.last() == pair);
        assert(spec_pairs_map(updated) =~= spec_pairs_map(pairs).insert(
            pair.0@,
            pair.1.deep_view(),
        ));
    } else {
        assert(updated.drop_last() =~= pairs.drop_last().update(i, pair));
        assert(updated.last() == pairs.last());
        assert(pairs.drop_last()[i] == pairs[i]);
        lemma_pairs_map_update(pairs.drop_last(), i, pair);
        assert(pairs[pairs.len() - 1].0@ != pair.0@);
        assert(spec_pairs_map(updated) =~= spec_pairs_map(pairs).insert(
            pair.0@,
            pair.1.deep_view(),
        ));
    }
}

/// Removing the pair that carries a key removes it from the map.
pub proof fn lemma_pairs_map_remove<V: DeepView>(pairs: Seq<(String, V)>, i: int)
    requires
        forall|p: int, q: int|
            0 <= p < q < pairs.len() ==> (#[trigger] pairs[p].0@) != (#[trigger] pairs[q].0@),
        0 <= i < pairs.len(),
    ensures
        spec_pairs_map(pairs.remove(i)) == spec_pairs_map(pairs).remove(pairs[i].0@),
    decreases pairs.len(),
{
    let shrunk = pairs.remove(i);
    if i == pairs.len() - 1 {
        assert(shrunk =~= pairs.drop_last());
        lemma_pairs_map_contains(pairs.drop_last(), pairs[i].0@);
        assert forall|j: int| 0 <= j < pairs.drop_last().len() implies (#[trigger] pairs.drop_last()[
            j
        ].0@) != pairs[i].0@ by {
            assert(pairs[j].0@ != pairs[i].0@);
        }
        assert(!spec_pairs_map(pairs.drop_last()).contains_key(pairs[i].0@));
        assert(spec_pairs_map(shrunk) =~= spec_pairs_map(pairs).remove(pairs[i].0@));
    } else {
        assert(shrunk.drop_last() =~= pairs.drop_last().remove(i));
        assert(shrunk.last() == pairs.last());
        assert(pairs.drop_last()[i] == pairs[i]);
        lemma_pairs_map_remove(pairs.drop_last(), i);
        assert(pairs[pairs.len() - 1].0@ != pairs[i].0@);
        assert(spec_pairs_map(shrunk) =~= spec_pairs_map(pairs).remove(pairs[i].0@));
    }
}

/// Sequences whose pairs agree in key characters and value views describe
/// the same map.
pub proof fn lemma_pairs_map_congruent<V: DeepView>(p1: Seq<(String, V)>, p2: Seq<(String, V)>)
    requires
        p1.len() == p2.len(),
        forall|i: int|
            0 <= i < p1.len() ==> (#[trigger] p1[i].0@) == (#[trigger] p2[i].0@) && p1[i].1.deep_view()
                == p2[i].1.deep_view(),
    ensures
        spec_pairs_map(p1) == spec_pairs_map(p2),
    decreases p1.len(),
{
    if p1.len() > 0 {
        assert(forall|i: int|
            0 <= i < p1.drop_last().len() ==> (#[trigger] p1.drop_last()[i].0@) == (
            #[trigger] p2.drop_last()[i].0@) && p1.drop_last()[i].1.deep_view()
                == p2.drop_last()[i].1.deep_view());
        lemma_pairs_map_congruent(p1.drop_last(), p2.drop_last());
        assert(p1[p1.len() - 1].0@ == p2[p2.len() - 1].0@);
        assert(p1[p1.len() - 1].1.deep_view() == p2[p2.len() - 1].1.deep_view());
    }
}

/// A value that can be copied without changing its view.
pub trait DuplicableValue: DeepView + Sized {
    /// A copy with the same content.
    fn duplicate_value(&self) -> (r: Self)
        ensures
            r.deep_view() == self.deep_view(),
    ;
}

/// An association map from flat keys to values, sorted ascending by key.
pub struct KvMap<V> {
    pairs: Vec<(String, V)>,
}

impl<V: DeepView> View for KvMap<V> {
    type V = Map<Seq<char>, V::V>;

    closed spec fn view(&self) -> Map<Seq<char>, V::V> {
        spec_pairs_map(self.pairs@)
    }
}

impl<V: DeepView> KvMap<V> {
    /// The map's internal order is intact: keys strictly ascending.
    pub closed spec fn wf(self) -> bool {
        spec_keys_sorted(self.pairs@)
    }

    /// How many keys the map holds.
    pub closed spec fn spec_len(self) -> nat {
        self.pairs@.len()
    }

    /// The keys in ascending order.
    pub closed spec fn spec_keys(self) -> Seq<Seq<char>> {
        spec_pair_keys(self.pairs@)
    }

    /// The values, ordered as the keys are.
    pub closed spec fn spec_values(self) -> Seq<V::V> {
        self.pairs@.map_values(|p: (String, V)| p.1.deep_view())
    }

    /// How the ordered keys relate to the map view: they are exactly its
    /// domain, ascending, each carrying its value.
    pub proof fn lemma_keys(self)
        requires
            self.wf(),
        ensures
            self.spec_keys().len() == self.spec_len(),
            self.spec_values().len() == self.spec_len(),
            forall|i: int, j: int|
                0 <= i < j < self.spec_keys().len() ==> spec_chars_lt(
                    #[trigger] self.spec_keys()[i],
                    #[trigger] self.spec_keys()[j],
                ),
            forall|i: int|
                0 <= i < self.spec_keys().len() ==> self@.contains_key(
                    #[trigger] self.spec_keys()[i],
                ) && self@[self.spec_keys()[i]] == self.spec_values()[i],
            forall|k: Seq<char>|
                self@.contains_key(k) ==> exists|i: int|
                    0 <= i < self.spec_keys().len() && #[trigger] self.spec_keys()[i] == k,
    {
        lemma_sorted_keys_distinct(self.pairs@);
        assert forall|i: int|
            0 <= i < self.spec_keys().len() implies self@.contains_key(
            #[trigger] self.spec_keys()[i],
        ) && self@[self.spec_keys()[i]] == self.spec_values()[i] by {
            lemma_pairs_map_get(self.pairs@, i);
        }
        assert forall|k: Seq<char>| self@.contains_key(k) implies exists|i: int|
            0 <= i < self.spec_keys().len() && #[trigger] self.spec_keys()[i] == k by {
            lemma_pairs_map_contains(self.pairs@, k);
            let i = choose|i: int| 0 <= i < self.pairs@.len() && #[trigger] self.pairs@[i].0@ == k;
            assert(self.spec_keys()[i] == k);
        }
    }

    /// An empty map.
    pub fn new() -> (r: KvMap<V>)
        ensures
            r@ == Map::<Seq<char>, V::V>::empty(),
            r.wf(),
            r.spec_len() == 0,
    {
        KvMap { pairs: Vec::new() }
    }

    /// The number of keys held.
    pub fn len(&self) -> (r: usize)
        ensures
            r == self.spec_len(),
    {
        self.pairs.len()
    }

    /// True when no key is held.
    pub fn is_empty(&self) -> (r: bool)
        ensures
            r == (self.spec_len() == 0),
            r ==> self@ == Map::<Seq<char>, V::V>::empty(),
            !r ==> self@ !== Map::<Seq<char>, V::V>::empty(),
    {
        proof {
            if self.pairs@.len() > 0 {
                lemma_pairs_map_contains(self.pairs@, self.pairs@[0].0@);
                assert(self@.contains_key(self.pairs@[0].0@));
            } else {
                assert(self@ =~= Map::<Seq<char>, V::V>::empty());
            }
        }
        self.pairs.is_empty()
    }

    /// The value a key maps to, if any.
    pub fn get(&self, key: &String) -> (r: Option<&V>)
        requires
            self.wf(),
        ensures
            match r {
                Some(v) => self@.contains_key(key@) && self@[key@] == v.deep_view(),
                None => !self@.contains_key(key@),
            },
    {
        proof {
            lemma_sorted_keys_distinct(self.pairs@);
        }
        let n = self.pairs.len();
        let mut i: usize = 0;
        while i < n
            invariant
                self.wf(),
                n == self.pairs@.len(),
                i <= n,
                forall|j: int| 0 <= j < i ==> (#[trigger] self.pairs@[j].0@) != key@,
            decreases n - i,
        {
            let pair = &self.pairs[i];
            if pair.0 == *key {
                proof {
                    lemma_sorted_keys_distinct(self.pairs@);
                    lemma_pairs_map_get(self.pairs@, i as int);
                }
                return Some(&self.pairs[i].1);
            }
            i = i + 1;
        }
        proof {
            lemma_pairs_map_contains(self.pairs@, key@);
        }
        None
    }

    /// Maps `key` to `value`, replacing any previous value.
    pub fn insert(&mut self, key: String, value: V)
        requires
            old(self).wf(),
        ensures
            final(self)@ == old(self)@.insert(key@, value.deep_view()),
            final(self).wf(),
            final(self).spec_len() == if old(self)@.contains_key(key@) {
                old(self).spec_len()
            } else {
                old(self).spec_len() + 1
            },
    {
        proof {
            lemma_sorted_keys_distinct(self.pairs@);
            lemma_pairs_map_contains(self.pairs@, key@);
        }
        let n = self.pairs.len();
        let mut i: usize = 0;
        while i < n
            invariant
                self == old(self),
                self.wf(),
                n == self.pairs@.len(),
                i <= n,
                forall|j: int| 0 <= j < i ==> spec_chars_lt(#[trigger] self.pairs@[j].0@, key@),
            decreases n - i,
        {
            let pair = &self.pairs[i];
            if pair.0 == *&key {
                proof {
                    lemma_sorted_keys_distinct(self.pairs@);
                    lemma_pairs_map_contains(self.pairs@, key@);
                    assert(self.pairs@[i as int].0@ == key@);
                    lemma_pairs_map_update(self.pairs@, i as int, (key, value));
                }
                self.pairs.set(i, (key, value));
                proof {
                    assert forall|p: int, q: int|
                        0 <= p < q < self.pairs@.len() implies spec_chars_lt(
                        #[trigger] self.pairs@[p].0@,
                        #[trigger] self.pairs@[q].0@,
                    ) by {
                        assert(old(self).pairs@[p].0@ == self.pairs@[p].0@);
                        assert(old(self).pairs@[q].0@ == self.pairs@[q].0@);
                    }
                }
                return ;
            }
            if !str_lt(pair.0.as_str(), key.as_str()) {
                proof {
                    lemma_chars_lt_connected(self.pairs@[i as int].0@, key@);
                    assert(spec_chars_lt(key@, self.pairs@[i as int].0@));
                    assert forall|j: int| 0 <= j < self.pairs@.len() implies (
                    #[trigger] self.pairs@[j].0@) != key@ by {
                        lemma_chars_lt_irreflexive(key@);
                        if j < i {
                        } else {
                            if j > i {
                                lemma_chars_lt_transitive(
                                    key@,
                                    self.pairs@[i as int].0@,
                                    self.pairs@[j].0@,
                                );
                            }
                        }
                    }
                    lemma_pairs_map_contains(self.pairs@, key@);
                    lemma_pairs_map_insert_new(self.pairs@, i as int, (key, value));
                }
                self.pairs.insert(i, (key, value));
                proof {
                    let gp = self.pairs@;
                    let op = old(self).pairs@;
                    assert forall|p: int, q: int|
                        0 <= p < q < gp.len() implies spec_chars_lt(
                        #[trigger] gp[p].0@,
                        #[trigger] gp[q].0@,
                    ) by {
                        if p < i && q == i {
                        } else if p == i && q > i {
                            lemma_chars_lt_transitive(key@, op[i as int].0@, gp[q].0@);
                            if q == i + 1 {
                            } else {
                                assert(gp[q] == op[q - 1]);
                            }
                        } else if p < i && q > i {
                            assert(gp[p] == op[p]);
                            assert(gp[q] == op[q - 1]);
                        } else if p > i && q > i {
                            assert(gp[p] == op[p - 1]);
                            assert(gp[q] == op[q - 1]);
                        }
                    }
                }
                return ;
            }
            i = i + 1;
        }
        proof {
            assert forall|j: int| 0 <= j < self.pairs@.len() implies (#[trigger] self.pairs@[j].0@)
                != key@ by {
                lemma_chars_lt_irreflexive(key@);
            }
            lemma_pairs_map_contains(self.pairs@, key@);
            lemma_pairs_map_insert_new(self.pairs@, self.pairs@.len() as int, (key, value));
            assert(self.pairs@.insert(self.pairs@.len() as int, (key, value)) =~= self.pairs@.push(
                (key, value),
            ));
        }
        self.pairs.push((key, value));
    }

    /// Drops `key` and returns the value it mapped to, if any.
    pub fn remove(&mut self, key: &String) -> (r: Option<V>)
        requires
            old(self).wf(),
        ensures
            final(self)@ == old(self)@.remove(key@),
            final(self).wf(),
            match r {
                Some(v) => old(self)@.contains_key(key@) && old(self)@[key@] == v.deep_view()
                    && final(self).spec_len() + 1 == old(self).spec_len(),
                None => !old(self)@.contains_key(key@) && final(self).spec_len() == old(
                    self,
                ).spec_len(),
            },
    {
        proof {
            lemma_sorted_keys_distinct(self.pairs@);
        }
        let n = self.pairs.len();
        let mut i: usize = 0;
        while i < n
            invariant
                self == old(self),
                self.wf(),
                n == self.pairs@.len(),
                i <= n,
                forall|j: int| 0 <= j < i ==> (#[trigger] self.pairs@[j].0@) != key@,
            decreases n - i,
        {
            let pair = &self.pairs[i];
            if pair.0 == *key {
                proof {
                    lemma_sorted_keys_distinct(self.pairs@);
                    lemma_pairs_map_get(self.pairs@, i as int);
                    lemma_pairs_map_remove(self.pairs@, i as int);
                }
                let removed = self.pairs.remove(i);
                proof {
                    let gp = self.pairs@;
                    let op = old(self).pairs@;
                    assert forall|p: int, q: int|
                        0 <= p < q < gp.len() implies spec_chars_lt(
                        #[trigger] gp[p].0@,
                        #[trigger] gp[q].0@,
                    ) by {
                        let p0 = if p < i {
                            p
                        } else {
                            p + 1
                        };
                        let q0 = if q < i {
                            q
                        } else {
                            q + 1
                        };
                        assert(gp[p] == op[p0]);
                        assert(gp[q] == op[q0]);
                    }
                }
                return Some(removed.1);
            }
            i = i + 1;
        }
        proof {
            lemma_pairs_map_contains(self.pairs@, key@);
            assert(self@ =~= self@.remove(key@));
        }
        None
    }

    /// A key-by-key copy of the map: the same view, keys, values and order.
    pub fn duplicate(&self) -> (r: KvMap<V>) where V: DuplicableValue
        ensures
            r@ == self@,
            r.wf() == self.wf(),
            r.spec_len() == self.spec_len(),
            r.spec_keys() == self.spec_keys(),
            r.spec_values() == self.spec_values(),
    {
        let n = self.pairs.len();
        let mut pairs: Vec<(String, V)> = Vec::new();
        let mut i: usize = 0;
        while i < n
            invariant
                n == self.pairs@.len(),
                i <= n,
                pairs@.len() == i,
                forall|j: int| #![all_triggers]
                    0 <= j < i ==> pairs@[j].0@ == self.pairs@[j].0@,
                forall|j: int| #![all_triggers]
                    0 <= j < i ==> pairs@[j].1.deep_view() == self.pairs@[j].1.deep_view(),
            decreases n - i,
        {
            let pair = &self.pairs[i];
            let key = pair.0.clone();
            let value = pair.1.duplicate_value();
            pairs.push((key, value));
            i = i + 1;
        }
        let r = KvMap { pairs };
        proof {
            lemma_pairs_map_congruent(r.pairs@, self.pairs@);
            assert(spec_pair_keys(r.pairs@) =~= spec_pair_keys(self.pairs@));
            assert forall|j: int| 0 <= j < r.pairs@.len() implies r.spec_values()[j]
                == self.spec_values()[j] by {
                assert(r.pairs@[j].1.deep_view() == self.pairs@[j].1.deep_view());
            }
            assert(r.spec_values() =~= self.spec_values());
            assert(spec_keys_sorted(r.pairs@) == spec_keys_sorted(self.pairs@)) by {
                if spec_keys_sorted(r.pairs@) {
                    assert forall|p: int, q: int|
                        0 <= p < q < self.pairs@.len() implies spec_chars_lt(
                        #[trigger] self.pairs@[p].0@,
                        #[trigger] self.pairs@[q].0@,
                    ) by {
                        assert(spec_chars_lt(r.pairs@[p].0@, r.pairs@[q].0@));
                    }
                }
                if spec_keys_sorted(self.pairs@) {
                    assert forall|p: int, q: int|
                        0 <= p < q < r.pairs@.len() implies spec_chars_lt(
                        #[trigger] r.pairs@[p].0@,
                        #[trigger] r.pairs@[q].0@,
                    ) by {
                        assert(spec_chars_lt(self.pairs@[p].0@, self.pairs@[q].0@));
                    }
                }
            }
        }
        r
    }

    /// The pair at `index` in ascending key order.
    pub fn pair_at(&self, index: usize) -> (r: (&String, &V))
        requires
            self.wf(),
            index < self.spec_len(),
        ensures
            r.0@ == self.spec_keys()[index as int],
            r.1.deep_view() == self.spec_values()[index as int],
            self@.contains_key(r.0@),
            self@[r.0@] == r.1.deep_view(),
    {
        proof {
            lemma_sorted_keys_distinct(self.pairs@);
            lemma_pairs_map_get(self.pairs@, index as int);
        }
        let pair = &self.pairs[index];
        (&pair.0, &pair.1)
    }
}

} // verus!
