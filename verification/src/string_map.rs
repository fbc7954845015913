//! A map from strings to values that keeps its entries in dictionary order
//! of their keys.

use crate::text::order::{
    lemma_precedes_asymmetric, lemma_precedes_total, lemma_precedes_transitive, precedes, rank,
    Rank,
};
use vstd::prelude::*;

verus! {

/// The map that a sequence of pairs builds when each pair is written in
/// turn: of two pairs with one key the later one stays.
pub open spec fn pairs_map<V>(pairs: Seq<(Seq<char>, V)>) -> Map<Seq<char>, V>
    decreases pairs.len(),
{
    if pairs.len() == 0 {
        Map::empty()
    } else {
        pairs_map(pairs.drop_last()).insert(pairs.last().0, pairs.last().1)
    }
}

/// Whether the keys of `pairs` stand in strictly ascending dictionary order.
pub open spec fn ascending<V>(pairs: Seq<(Seq<char>, V)>) -> bool {
    forall|i: int, j: int|
        0 <= i < j < pairs.len() ==> precedes(#[trigger] pairs[i].0, #[trigger] pairs[j].0)
}

/// How many pairs, counted from `pos`, have a key that stands before `key`
/// without a gap.
pub open spec fn slot_from<V>(pairs: Seq<(Seq<char>, V)>, key: Seq<char>, pos: int) -> nat
    decreases pairs.len() - pos,
{
    if 0 <= pos < pairs.len() && precedes(pairs[pos].0, key) {
        1 + slot_from(pairs, key, pos + 1)
    } else {
        0
    }
}

/// The place of `key` among ascending `pairs`: the index of the first pair
/// whose key does not stand before `key`.
pub open spec fn slot<V>(pairs: Seq<(Seq<char>, V)>, key: Seq<char>) -> nat {
    slot_from(pairs, key, 0)
}

/// Ascending `pairs` with `value` written under `key`: in place of the pair
/// that had the key, or else at the key's place in the order.
pub open spec fn put<V>(pairs: Seq<(Seq<char>, V)>, key: Seq<char>, value: V) -> Seq<
    (Seq<char>, V),
> {
    let i = slot(pairs, key) as int;
    if i < pairs.len() && pairs[i].0 == key {
        pairs.update(i, (key, value))
    } else {
        pairs.insert(i, (key, value))
    }
}

/// Whether some pair of `pairs` has the key `key`.
pub open spec fn has_key<V>(pairs: Seq<(Seq<char>, V)>, key: Seq<char>) -> bool {
    exists|i: int| 0 <= i < pairs.len() && (#[trigger] pairs[i]).0 == key
}

/// A key is in the map of `pairs` exactly if some pair has it.
pub proof fn lemma_pairs_map_keys<V>(pairs: Seq<(Seq<char>, V)>, key: Seq<char>)
    ensures
        pairs_map(pairs).contains_key(key) <==> has_key(pairs, key),
    decreases pairs.len(),
{
    if pairs.len() > 0 {
        let front = pairs.drop_last();
        let end = pairs.len() - 1;
        lemma_pairs_map_keys(front, key);
        if pairs[end].0 == key {
        } else if has_key(front, key) {
            let i = choose|i: int| 0 <= i < front.len() && (#[trigger] front[i]).0 == key;
            assert(pairs[i].0 == key);
        } else if has_key(pairs, key) {
            let i = choose|i: int| 0 <= i < pairs.len() && (#[trigger] pairs[i]).0 == key;
            assert(front[i].0 == key);
        }
    }
}

/// Under a key the map of `pairs` holds the value of the last pair that has
/// the key.
pub proof fn lemma_pairs_map_last<V>(pairs: Seq<(Seq<char>, V)>, i: int)
    requires
        0 <= i < pairs.len(),
        forall|j: int| i < j < pairs.len() ==> (#[trigger] pairs[j]).0 != pairs[i].0,
    ensures
        pairs_map(pairs).contains_key(pairs[i].0),
        pairs_map(pairs)[pairs[i].0] == pairs[i].1,
    decreases pairs.len(),
{
    let end = pairs.len() - 1;
    if i < end {
        let front = pairs.drop_last();
        assert(pairs[end].0 != pairs[i].0);
        assert(front[i] == pairs[i]);
        assert forall|j: int| i < j < front.len() implies (#[trigger] front[j]).0
            != front[i].0 by {
            assert(front[j] == pairs[j]);
        }
        lemma_pairs_map_last(front, i);
    }
}

/// The value that the map of `pairs` holds under a key stands beside that
/// key in one of the pairs.
pub proof fn lemma_pairs_map_value<V>(pairs: Seq<(Seq<char>, V)>, key: Seq<char>)
    requires
        pairs_map(pairs).contains_key(key),
    ensures
        exists|i: int| 0 <= i < pairs.len() && #[trigger] pairs[i] == (key, pairs_map(pairs)[key]),
    decreases pairs.len(),
{
    if pairs.len() > 0 {
        let end = pairs.len() - 1;
        if pairs[end].0 == key {
            assert(pairs[end] == (key, pairs_map(pairs)[key]));
        } else {
            let front = pairs.drop_last();
            lemma_pairs_map_value(front, key);
            let i = choose|i: int|
                0 <= i < front.len() && #[trigger] front[i] == (key, pairs_map(front)[key]);
            assert(pairs[i] == front[i]);
        }
    }
}

/// In ascending pairs no key occurs twice, so the map holds under each key
/// the value that stands beside it.
pub proof fn lemma_ascending_map<V>(pairs: Seq<(Seq<char>, V)>, i: int)
    requires
        ascending(pairs),
        0 <= i < pairs.len(),
    ensures
        pairs_map(pairs).contains_key(pairs[i].0),
        pairs_map(pairs)[pairs[i].0] == pairs[i].1,
{
    assert forall|j: int| i < j < pairs.len() implies (#[trigger] pairs[j]).0 != pairs[i].0 by {
        lemma_precedes_asymmetric(pairs[i].0, pairs[j].0);
    }
    lemma_pairs_map_last(pairs, i);
}

/// The place of a key ends a stretch of pairs that stand before it, and the
/// pair at the place, if there is one, does not.
pub proof fn lemma_slot_from<V>(pairs: Seq<(Seq<char>, V)>, key: Seq<char>, pos: int)
    requires
        0 <= pos <= pairs.len(),
    ensures
        pos + slot_from(pairs, key, pos) <= pairs.len(),
        forall|i: int|
            pos <= i < pos + slot_from(pairs, key, pos) ==> precedes((#[trigger] pairs[i]).0, key),
        pos + slot_from(pairs, key, pos) < pairs.len() ==> !precedes(
            pairs[pos + slot_from(pairs, key, pos)].0,
            key,
        ),
    decreases pairs.len() - pos,
{
    if pos < pairs.len() && precedes(pairs[pos].0, key) {
        lemma_slot_from(pairs, key, pos + 1);
    }
}

/// A stretch of pairs that stand before the key and that cannot be extended
/// ends at the key's place.
pub proof fn lemma_slot_unique<V>(pairs: Seq<(Seq<char>, V)>, key: Seq<char>, pos: int, n: nat)
    requires
        0 <= pos,
        pos + n <= pairs.len(),
        forall|i: int| pos <= i < pos + n ==> precedes((#[trigger] pairs[i]).0, key),
        pos + n < pairs.len() ==> !precedes(pairs[pos + n].0, key),
    ensures
        slot_from(pairs, key, pos) == n,
    decreases n,
{
    if n > 0 {
        lemma_slot_unique(pairs, key, pos + 1, (n - 1) as nat);
    }
}

/// Among ascending pairs, every pair before the place of a key stands before
/// the key, every pair after the place stands after it, and the pair at the
/// place is the only one that can have the key.
pub proof fn lemma_slot_splits<V>(pairs: Seq<(Seq<char>, V)>, key: Seq<char>)
    requires
        ascending(pairs),
    ensures
        slot(pairs, key) <= pairs.len(),
        forall|i: int| 0 <= i < slot(pairs, key) ==> precedes((#[trigger] pairs[i]).0, key),
        forall|i: int|
            slot(pairs, key) <= i < pairs.len() && (#[trigger] pairs[i]).0 != key ==> precedes(
                key,
                pairs[i].0,
            ),
        forall|i: int|
            0 <= i < pairs.len() && (#[trigger] pairs[i]).0 == key ==> i == slot(pairs, key),
{
    lemma_slot_from(pairs, key, 0);
    let n = slot(pairs, key) as int;
    assert forall|i: int| n <= i < pairs.len() && (#[trigger] pairs[i]).0 != key implies precedes(
        key,
        pairs[i].0,
    ) by {
        if pairs[n].0 == key {
            assert(precedes(pairs[n].0, pairs[i].0));
        } else {
            lemma_precedes_total(pairs[n].0, key);
            if i > n {
                assert(precedes(pairs[n].0, pairs[i].0));
                lemma_precedes_transitive(key, pairs[n].0, pairs[i].0);
            }
        }
    }
    assert forall|i: int| 0 <= i < pairs.len() && (#[trigger] pairs[i]).0 == key implies i
        == n by {
        if i < n {
            lemma_precedes_asymmetric(pairs[i].0, key);
        } else if i > n {
            if pairs[n].0 == key {
                assert(precedes(pairs[n].0, pairs[i].0));
                lemma_precedes_asymmetric(pairs[n].0, pairs[i].0);
            } else {
                assert(precedes(key, pairs[n].0));
                assert(precedes(pairs[n].0, pairs[i].0));
                lemma_precedes_asymmetric(pairs[n].0, pairs[i].0);
            }
        }
    }
}

/// Writing a pair into ascending pairs keeps them ascending and changes
/// their map as an insertion does.
pub proof fn lemma_put<V>(pairs: Seq<(Seq<char>, V)>, key: Seq<char>, value: V)
    requires
        ascending(pairs),
    ensures
        ascending(put(pairs, key, value)),
        pairs_map(put(pairs, key, value)) == pairs_map(pairs).insert(key, value),
{
    lemma_slot_splits(pairs, key);
    let n = slot(pairs, key) as int;
    let after = put(pairs, key, value);
    let replaced = n < pairs.len() && pairs[n].0 == key;
    assert(after[n] == (key, value));
    assert forall|i: int, j: int| 0 <= i < j < after.len() implies precedes(
        #[trigger] after[i].0,
        #[trigger] after[j].0,
    ) by {
        if replaced {
            assert(after[i].0 == pairs[i].0);
            assert(after[j].0 == pairs[j].0);
        } else {
            let pi = if i < n { i } else { i - 1 };
            let pj = if j < n { j } else { j - 1 };
            if i == n {
                assert(after[j] == pairs[pj]);
            } else if j == n {
                assert(after[i] == pairs[pi]);
            } else {
                assert(after[i] == pairs[pi]);
                assert(after[j] == pairs[pj]);
            }
        }
    }
    let left = pairs_map(after);
    let right = pairs_map(pairs).insert(key, value);
    assert forall|k: Seq<char>|
        #![trigger left.dom().contains(k)]
        #![trigger right.dom().contains(k)]
        left.dom().contains(k) == right.dom().contains(k) && (left.dom().contains(k) ==> left[k]
            == right[k]) by {
        lemma_pairs_map_keys(after, k);
        lemma_pairs_map_keys(pairs, k);
        if k == key {
            lemma_ascending_map(after, n);
        } else {
            if left.contains_key(k) {
                let i = choose|i: int| 0 <= i < after.len() && (#[trigger] after[i]).0 == k;
                let pi = if replaced || i < n { i } else { i - 1 };
                assert(after[i] == pairs[pi]);
                lemma_ascending_map(after, i);
                lemma_ascending_map(pairs, pi);
            }
            if right.contains_key(k) {
                let i = choose|i: int| 0 <= i < pairs.len() && (#[trigger] pairs[i]).0 == k;
                let ai = if replaced || i < n { i } else { i + 1 };
                assert(after[ai] == pairs[i]);
                lemma_ascending_map(after, ai);
                lemma_ascending_map(pairs, i);
            }
        }
    }
    assert(left =~= right);
}

/// Ascending pairs are told by their map: two such lists with one map are one
/// list.
pub proof fn lemma_ascending_unique<V>(p: Seq<(Seq<char>, V)>, q: Seq<(Seq<char>, V)>)
    requires
        ascending(p),
        ascending(q),
        pairs_map(p) == pairs_map(q),
    ensures
        p == q,
    decreases p.len(),
{
    if p.len() == 0 || q.len() == 0 {
        if q.len() > 0 {
            lemma_ascending_map(q, 0);
        }
        if p.len() > 0 {
            lemma_ascending_map(p, 0);
        }
        assert(p =~= q);
    } else {
        let a = p.last();
        let b = q.last();
        let front_p = p.drop_last();
        let front_q = q.drop_last();
        lemma_ascending_map(p, p.len() - 1);
        lemma_ascending_map(q, q.len() - 1);
        lemma_pairs_map_keys(q, a.0);
        lemma_pairs_map_keys(p, b.0);
        let j = choose|j: int| 0 <= j < q.len() && (#[trigger] q[j]).0 == a.0;
        let i = choose|i: int| 0 <= i < p.len() && (#[trigger] p[i]).0 == b.0;
        if a.0 != b.0 {
            assert(precedes(q[j].0, q[q.len() - 1].0));
            assert(precedes(p[i].0, p[p.len() - 1].0));
            lemma_precedes_asymmetric(a.0, b.0);
        }
        assert(a == b);
        assert(ascending(front_p)) by {
            assert forall|i: int, j: int| 0 <= i < j < front_p.len() implies precedes(
                #[trigger] front_p[i].0,
                #[trigger] front_p[j].0,
            ) by {
                assert(precedes(p[i].0, p[j].0));
            }
        }
        assert(ascending(front_q)) by {
            assert forall|i: int, j: int| 0 <= i < j < front_q.len() implies precedes(
                #[trigger] front_q[i].0,
                #[trigger] front_q[j].0,
            ) by {
                assert(precedes(q[i].0, q[j].0));
            }
        }
        lemma_pairs_map_keys(front_p, a.0);
        lemma_pairs_map_keys(front_q, a.0);
        if has_key(front_p, a.0) {
            let i = choose|i: int| 0 <= i < front_p.len() && (#[trigger] front_p[i]).0 == a.0;
            assert(precedes(p[i].0, p[p.len() - 1].0));
            lemma_precedes_asymmetric(p[i].0, a.0);
        }
        if has_key(front_q, a.0) {
            let j = choose|j: int| 0 <= j < front_q.len() && (#[trigger] front_q[j]).0 == a.0;
            assert(precedes(q[j].0, q[q.len() - 1].0));
            lemma_precedes_asymmetric(q[j].0, a.0);
        }
        assert(pairs_map(front_p) =~= pairs_map(p).remove(a.0));
        assert(pairs_map(front_q) =~= pairs_map(q).remove(a.0));
        lemma_ascending_unique(front_p, front_q);
        assert(p =~= front_p.push(a));
        assert(q =~= front_q.push(b));
    }
}

/// The order in which two values are written under different keys makes no
/// difference to the pairs.
pub proof fn lemma_put_commutes<V>(
    pairs: Seq<(Seq<char>, V)>,
    key: Seq<char>,
    value: V,
    other_key: Seq<char>,
    other_value: V,
)
    requires
        ascending(pairs),
        key != other_key,
    ensures
        put(put(pairs, key, value), other_key, other_value) == put(
            put(pairs, other_key, other_value),
            key,
            value,
        ),
{
    let one = put(put(pairs, key, value), other_key, other_value);
    let other = put(put(pairs, other_key, other_value), key, value);
    lemma_put(pairs, key, value);
    lemma_put(pairs, other_key, other_value);
    lemma_put(put(pairs, key, value), other_key, other_value);
    lemma_put(put(pairs, other_key, other_value), key, value);
    assert(pairs_map(one) =~= pairs_map(other));
    lemma_ascending_unique(one, other);
}

/// A map from strings to values of type `V`, kept as a list of entries in
/// ascending dictionary order of their keys. No key occurs twice, so two maps
/// with the same entries are the same list.
#[derive(Debug, PartialEq, Eq)]
pub struct StringMap<V> {
    entries: Vec<(String, V)>,
}

impl<V> StringMap<V> {
    #[verifier::type_invariant]
    closed spec fn ordered(&self) -> bool {
        ascending(self.pairs())
    }

    /// The entries, in ascending order of their keys.
    pub closed spec fn pairs(&self) -> Seq<(Seq<char>, V)> {
        Seq::new(self.entries@.len(), |i: int| (self.entries@[i].0@, self.entries@[i].1))
    }

    /// The map from each key to its value.
    pub open spec fn view(&self) -> Map<Seq<char>, V> {
        pairs_map(self.pairs())
    }

    /// An entry of the map is a part of the map.
    pub proof fn lemma_entry_decreases(&self, i: int)
        requires
            0 <= i < self.pairs().len(),
        ensures
            decreases_to!(self => self.pairs()[i].1),
    {
        assert(decreases_to!(self => self.entries));
        assert(decreases_to!(self.entries => self.entries[i]));
        assert(decreases_to!(self.entries[i] => self.entries[i].1));
    }

    /// A value of the map is a part of the map.
    pub proof fn lemma_value_decreases(&self, key: Seq<char>)
        requires
            self@.contains_key(key),
        ensures
            decreases_to!(self => self@[key]),
    {
        lemma_pairs_map_value(self.pairs(), key);
        let i = choose|i: int|
            0 <= i < self.pairs().len() && #[trigger] self.pairs()[i] == (key, self@[key]);
        self.lemma_entry_decreases(i);
    }

    /// The empty map.
    pub fn new() -> (r: Self)
        ensures
            r.pairs() == Seq::<(Seq<char>, V)>::empty(),
            r@ == Map::<Seq<char>, V>::empty(),
    {
        let r = StringMap { entries: Vec::new() };
        assert(r.pairs() =~= Seq::<(Seq<char>, V)>::empty());
        r
    }

    /// The number of entries. Every map keeps its entries in ascending order.
    pub fn len(&self) -> (r: usize)
        ensures
            r == self.pairs().len(),
            ascending(self.pairs()),
    {
        proof {
            use_type_invariant(self);
        }
        self.entries.len()
    }

    /// Whether the map has no entry.
    pub fn is_empty(&self) -> (r: bool)
        ensures
            r == (self.pairs().len() == 0),
    {
        self.entries.len() == 0
    }

    /// The key and the value of the entry at `index`, counted in ascending
    /// order of the keys.
    pub fn entry(&self, index: usize) -> (r: (&String, &V))
        requires
            index < self.pairs().len(),
        ensures
            r.0@ == self.pairs()[index as int].0,
            *r.1 == self.pairs()[index as int].1,
            ascending(self.pairs()),
    {
        proof {
            use_type_invariant(self);
        }
        let e = &self.entries[index];
        (&e.0, &e.1)
    }

    /// Finds the place of `key` by halving the stretch of entries that can
    /// hold it.
    fn find(&self, key: &str) -> (r: usize)
        ensures
            r == slot(self.pairs(), key@),
            r <= self.pairs().len(),
            ascending(self.pairs()),
    {
        proof {
            use_type_invariant(self);
        }
        let mut low: usize = 0;
        let mut high: usize = self.entries.len();
        while low < high
            invariant
                0 <= low <= high <= self.pairs().len(),
                self.pairs().len() == self.entries@.len(),
                ascending(self.pairs()),
                forall|i: int| 0 <= i < low ==> precedes((#[trigger] self.pairs()[i]).0, key@),
                high < self.pairs().len() ==> !precedes(self.pairs()[high as int].0, key@),
            decreases high - low,
        {
            let mid: usize = low + (high - low) / 2;
            match rank(self.entries[mid].0.as_str(), key) {
                Rank::Before => {
                    proof {
                        assert forall|i: int| 0 <= i < mid + 1 implies precedes(
                            (#[trigger] self.pairs()[i]).0,
                            key@,
                        ) by {
                            if i < mid {
                                assert(precedes(self.pairs()[i].0, self.pairs()[mid as int].0));
                                lemma_precedes_transitive(
                                    self.pairs()[i].0,
                                    self.pairs()[mid as int].0,
                                    key@,
                                );
                            }
                        }
                    }
                    low = mid + 1;
                },
                _ => {
                    high = mid;
                },
            }
        }
        proof {
            lemma_slot_unique(self.pairs(), key@, 0, low as nat);
        }
        low
    }

    /// The value under `key`, if the map has the key.
    pub fn get(&self, key: &str) -> (r: Option<&V>)
        ensures
            match r {
                Some(v) => self@.contains_key(key@) && *v == self@[key@],
                None => !self@.contains_key(key@),
            },
    {
        let i = self.find(key);
        proof {
            lemma_slot_splits(self.pairs(), key@);
            lemma_pairs_map_keys(self.pairs(), key@);
        }
        if i < self.entries.len() {
            match rank(self.entries[i].0.as_str(), key) {
                Rank::Same => {
                    proof {
                        lemma_ascending_map(self.pairs(), i as int);
                    }
                    return Some(&self.entries[i].1);
                },
                _ => {},
            }
        }
        None
    }

    /// Whether the map has `key`.
    pub fn contains_key(&self, key: &str) -> (r: bool)
        ensures
            r == self@.contains_key(key@),
    {
        self.get(key).is_some()
    }

    /// Writes `value` under `key` and returns the value that the key had
    /// before, if it had one.
    pub fn insert(&mut self, key: String, value: V) -> (r: Option<V>)
        ensures
            final(self).pairs() == put(old(self).pairs(), key@, value),
            ascending(final(self).pairs()),
            final(self)@ == old(self)@.insert(key@, value),
            r == if old(self)@.contains_key(key@) {
                Some(old(self)@[key@])
            } else {
                None
            },
    {
        let i = self.find(key.as_str());
        proof {
            lemma_slot_splits(self.pairs(), key@);
            lemma_pairs_map_keys(self.pairs(), key@);
            lemma_put(self.pairs(), key@, value);
        }
        let mut entries: Vec<(String, V)> = Vec::new();
        core::mem::swap(&mut self.entries, &mut entries);
        let ghost pairs = old(self).pairs();
        let ghost held = |e: Seq<(String, V)>| Seq::new(e.len(), |j: int| (e[j].0@, e[j].1));
        assert(held(entries@) =~= pairs);
        let mut before: Option<V> = None;
        if i < entries.len() {
            match rank(entries[i].0.as_str(), key.as_str()) {
                Rank::Same => {
                    proof {
                        lemma_ascending_map(pairs, i as int);
                    }
                    let gone = entries.remove(i);
                    assert(held(entries@) =~= pairs.remove(i as int));
                    before = Some(gone.1);
                },
                _ => {},
            }
        }
        entries.insert(i, (key, value));
        assert(held(entries@) =~= put(pairs, key@, value));
        core::mem::swap(&mut self.entries, &mut entries);
        assert(self.pairs() =~= put(pairs, key@, value));
        before
    }
}

} // verus!
