//! Small tables of strings, kept in the order in which their keys came in.
//!
//! A key is found by going through the pairs from the front. The first pair
//! with the key is the one that counts, and `insert` writes to that pair, so
//! that a table filled by `insert` alone never holds a key twice.

use crate::text::str_eq;
use vstd::prelude::*;

verus! {

/// Whether a pair of `pairs` has the key `key`.
pub open spec fn has_key(pairs: Seq<(Seq<char>, Seq<char>)>, key: Seq<char>) -> bool {
    exists|i: int| 0 <= i < pairs.len() && (#[trigger] pairs[i]).0 == key
}

/// Whether the pair at `index` is the first of `pairs` with the key `key`.
pub open spec fn is_first_index_of(pairs: Seq<(Seq<char>, Seq<char>)>, key: Seq<char>, index: int) -> bool {
    &&& 0 <= index < pairs.len()
    &&& pairs[index].0 == key
    &&& forall|j: int| 0 <= j < index ==> (#[trigger] pairs[j]).0 != key
}

/// The index of the first pair of `pairs` with the key `key`.
pub open spec fn first_index_of(pairs: Seq<(Seq<char>, Seq<char>)>, key: Seq<char>) -> int {
    choose|i: int| is_first_index_of(pairs, key, i)
}

/// Whether no key stands twice in `pairs`.
pub open spec fn distinct_keys(pairs: Seq<(Seq<char>, Seq<char>)>) -> bool {
    forall|i: int, j: int| 0 <= i < j < pairs.len() ==> (#[trigger] pairs[i]).0 != (#[trigger] pairs[j]).0
}

/// `pairs` with `value` under `key`: in the first pair that has the key, or
/// in a new pair at the end if none has it.
pub open spec fn with_pair(pairs: Seq<(Seq<char>, Seq<char>)>, key: Seq<char>, value: Seq<char>) -> Seq<
    (Seq<char>, Seq<char>),
> {
    if has_key(pairs, key) {
        pairs.update(first_index_of(pairs, key), (key, value))
    } else {
        pairs.push((key, value))
    }
}

/// The map that `pairs` stands for: each key with the value of the first
/// pair that has it.
pub open spec fn as_map(pairs: Seq<(Seq<char>, Seq<char>)>) -> Map<Seq<char>, Seq<char>> {
    Map::new(|key: Seq<char>| has_key(pairs, key), |key: Seq<char>| pairs[first_index_of(pairs, key)].1)
}

/// The first pair with a key is at one index only, and there is one
/// wherever a pair has the key.
pub proof fn lemma_first_index(pairs: Seq<(Seq<char>, Seq<char>)>, key: Seq<char>, index: int)
    requires
        is_first_index_of(pairs, key, index),
    ensures
        has_key(pairs, key),
        first_index_of(pairs, key) == index,
{
    let chosen = first_index_of(pairs, key);
    assert(is_first_index_of(pairs, key, chosen));
    if chosen < index {
        assert(pairs[chosen].0 != key);
    }
    if index < chosen {
        assert(pairs[index].0 != key);
    }
}

/// Where a pair has the key, a first such pair exists.
pub proof fn lemma_has_first_index(pairs: Seq<(Seq<char>, Seq<char>)>, key: Seq<char>)
    requires
        has_key(pairs, key),
    ensures
        is_first_index_of(pairs, key, first_index_of(pairs, key)),
    decreases pairs.len(),
{
    let at = choose|i: int| 0 <= i < pairs.len() && (#[trigger] pairs[i]).0 == key;
    lemma_first_among(pairs, key, at);
}

/// Below any pair with the key there is a first one.
proof fn lemma_first_among(pairs: Seq<(Seq<char>, Seq<char>)>, key: Seq<char>, at: int)
    requires
        0 <= at < pairs.len(),
        pairs[at].0 == key,
    ensures
        is_first_index_of(pairs, key, first_index_of(pairs, key)),
    decreases at,
{
    if exists|j: int| 0 <= j < at && (#[trigger] pairs[j]).0 == key {
        let j = choose|j: int| 0 <= j < at && (#[trigger] pairs[j]).0 == key;
        lemma_first_among(pairs, key, j);
    } else {
        assert(is_first_index_of(pairs, key, at));
    }
}

/// To put a value under a key changes the map at that key and nowhere else.
pub proof fn lemma_with_pair_inserts(pairs: Seq<(Seq<char>, Seq<char>)>, key: Seq<char>, value: Seq<char>)
    ensures
        as_map(with_pair(pairs, key, value)) == as_map(pairs).insert(key, value),
{
    let after = with_pair(pairs, key, value);
    let want = as_map(pairs).insert(key, value);
    if has_key(pairs, key) {
        lemma_has_first_index(pairs, key);
    }
    let at = if has_key(pairs, key) {
        first_index_of(pairs, key)
    } else {
        pairs.len() as int
    };
    assert(after[at] == (key, value));
    assert forall|j: int| 0 <= j < pairs.len() && j != at implies #[trigger] after[j] == pairs[j] by {}
    assert(is_first_index_of(after, key, at));
    lemma_first_index(after, key, at);
    assert forall|k: Seq<char>| #[trigger] has_key(after, k) == want.dom().contains(k) by {
        if has_key(after, k) {
            let i = choose|i: int| 0 <= i < after.len() && (#[trigger] after[i]).0 == k;
            if k != key {
                assert(i != at);
                assert(pairs[i].0 == k);
            }
        }
        if k != key && has_key(pairs, k) {
            let i = choose|i: int| 0 <= i < pairs.len() && (#[trigger] pairs[i]).0 == k;
            assert(after[i].0 == k);
        }
    }
    assert forall|k: Seq<char>| has_key(after, k) implies #[trigger] as_map(after)[k] == want[k] by {
        if k != key {
            lemma_has_first_index(after, k);
            let i = first_index_of(after, k);
            assert(i != at);
            assert(pairs[i].0 == k);
            assert forall|j: int| 0 <= j < i implies (#[trigger] pairs[j]).0 != k by {
                assert(after[j].0 != k);
            }
            lemma_first_index(pairs, k, i);
        }
    }
    assert(as_map(after) =~= want);
}

/// To put a value under a key leaves every key where it stands once.
pub proof fn lemma_with_pair_distinct(pairs: Seq<(Seq<char>, Seq<char>)>, key: Seq<char>, value: Seq<char>)
    requires
        distinct_keys(pairs),
    ensures
        distinct_keys(with_pair(pairs, key, value)),
{
    let after = with_pair(pairs, key, value);
    if has_key(pairs, key) {
        lemma_has_first_index(pairs, key);
        let at = first_index_of(pairs, key);
        assert forall|i: int, j: int| 0 <= i < j < after.len() implies (#[trigger] after[i]).0 != (
        #[trigger] after[j]).0 by {
            assert(after[i].0 == pairs[i].0);
            assert(after[j].0 == pairs[j].0);
        }
    } else {
        assert forall|i: int, j: int| 0 <= i < j < after.len() implies (#[trigger] after[i]).0 != (
        #[trigger] after[j]).0 by {
            if j < pairs.len() {
                assert(after[i] == pairs[i]);
                assert(after[j] == pairs[j]);
            } else {
                assert(after[i] == pairs[i]);
            }
        }
    }
}

/// A table of string pairs in which the first pair with a key counts.
#[derive(Debug, Clone)]
pub struct Assoc {
    pairs: Vec<(String, String)>,
}

impl View for Assoc {
    type V = Seq<(Seq<char>, Seq<char>)>;

    closed spec fn view(&self) -> Seq<(Seq<char>, Seq<char>)> {
        Seq::new(self.pairs@.len(), |i: int| (self.pairs@[i].0@, self.pairs@[i].1@))
    }
}

impl Assoc {
    /// Whether no key stands twice. It is so of every table made by `new`
    /// and `insert`.
    pub open spec fn wf(&self) -> bool {
        distinct_keys(self@)
    }

    /// The empty table.
    pub fn new() -> (table: Assoc)
        ensures
            table@.len() == 0,
            table.wf(),
    {
        Assoc { pairs: Vec::new() }
    }

    /// The number of pairs.
    pub fn len(&self) -> (n: usize)
        ensures
            n == self@.len(),
    {
        self.pairs.len()
    }

    /// The key and the value of the pair at `index`.
    pub fn pair(&self, index: usize) -> (pair: (&str, &str))
        requires
            index < self@.len(),
        ensures
            (pair.0@, pair.1@) == self@[index as int],
    {
        let pair = &self.pairs[index];
        (pair.0.as_str(), pair.1.as_str())
    }

    /// The index of the first pair with the key `key`, or the number of
    /// pairs if there is none.
    fn find(&self, key: &str) -> (index: usize)
        ensures
            index <= self@.len(),
            index < self@.len() ==> is_first_index_of(self@, key@, index as int),
            index == self@.len() ==> !has_key(self@, key@),
    {
        let mut i: usize = 0;
        while i < self.pairs.len()
            invariant
                i <= self.pairs@.len(),
                forall|j: int| 0 <= j < i ==> (#[trigger] self@[j]).0 != key@,
            decreases self.pairs.len() - i,
        {
            if str_eq(self.pairs[i].0.as_str(), key) {
                assert(self@[i as int].0 == key@);
                return i;
            }
            i += 1;
        }
        i
    }

    /// The value under `key`, if a pair has that key.
    pub fn get(&self, key: &str) -> (value: Option<&str>)
        ensures
            value is Some <==> has_key(self@, key@),
            value matches Some(v) ==> as_map(self@)[key@] == v@,
    {
        let i = self.find(key);
        if i < self.pairs.len() {
            proof {
                lemma_first_index(self@, key@, i as int);
            }
            Some(self.pairs[i].1.as_str())
        } else {
            None
        }
    }

    /// Puts `value` under `key`, in place of the value that the key had.
    pub fn insert(&mut self, key: &str, value: &str)
        ensures
            final(self)@ == with_pair(old(self)@, key@, value@),
            as_map(final(self)@) == as_map(old(self)@).insert(key@, value@),
            old(self).wf() ==> final(self).wf(),
    {
        let i = self.find(key);
        let pair = (key.to_owned(), value.to_owned());
        if i < self.pairs.len() {
            proof {
                lemma_first_index(self@, key@, i as int);
            }
            self.pairs.set(i, pair);
        } else {
            self.pairs.push(pair);
        }
        proof {
            assert(self@ =~= with_pair(old(self)@, key@, value@));
            lemma_with_pair_inserts(old(self)@, key@, value@);
            if old(self).wf() {
                lemma_with_pair_distinct(old(self)@, key@, value@);
            }
        }
    }
}

} // verus!
