//! The table from canonical keys to entity identifiers, and what a run of
//! entries does to it.
//!
//! An entry is written over whatever the table held under its key, so that
//! of two entries with one key the later one stays.

use crate::assoc::{as_map, Assoc};
use crate::record::{entry_views, StoreEntry};
use vstd::prelude::*;

verus! {

/// The most that the store file may grow to, in bytes.
pub const MAP_SIZE: u64 = 8 * 1024 * 1024 * 1024;

/// The number of tables in the store.
pub const MAX_TABLES: u32 = 1;

/// `table` after the entries of `entries` were written to it, one after the
/// other.
pub open spec fn upserted(table: Map<Seq<char>, Seq<char>>, entries: Seq<(Seq<char>, Seq<char>)>) -> Map<
    Seq<char>,
    Seq<char>,
>
    decreases entries.len(),
{
    if entries.len() == 0 {
        table
    } else {
        upserted(table, entries.drop_last()).insert(entries.last().0, entries.last().1)
    }
}

/// Whether an entry of `entries` has the key `key`.
pub open spec fn writes_key(entries: Seq<(Seq<char>, Seq<char>)>, key: Seq<char>) -> bool {
    exists|i: int| 0 <= i < entries.len() && (#[trigger] entries[i]).0 == key
}

/// To write two runs of entries one after the other is to write them as one
/// run.
pub proof fn lemma_upserted_concat(
    table: Map<Seq<char>, Seq<char>>,
    first: Seq<(Seq<char>, Seq<char>)>,
    second: Seq<(Seq<char>, Seq<char>)>,
)
    ensures
        upserted(table, first + second) == upserted(upserted(table, first), second),
    decreases second.len(),
{
    if second.len() == 0 {
        assert(first + second == first);
    } else {
        lemma_upserted_concat(table, first, second.drop_last());
        assert((first + second).drop_last() == first + second.drop_last());
        assert((first + second).last() == second.last());
    }
}

/// A key that no entry has is left as it was: in the table or not, and with
/// the same value.
pub proof fn lemma_unwritten_key_stays(
    table: Map<Seq<char>, Seq<char>>,
    entries: Seq<(Seq<char>, Seq<char>)>,
    key: Seq<char>,
)
    requires
        !writes_key(entries, key),
    ensures
        upserted(table, entries).dom().contains(key) == table.dom().contains(key),
        upserted(table, entries)[key] == table[key],
    decreases entries.len(),
{
    if entries.len() > 0 {
        let front = entries.drop_last();
        assert forall|i: int| 0 <= i < front.len() implies (#[trigger] front[i]).0 != key by {
            assert(entries[i].0 != key);
        }
        lemma_unwritten_key_stays(table, front, key);
        assert(entries[entries.len() - 1].0 != key);
    }
}

/// The last write wins: under a key the table holds the value of the last
/// entry that has the key.
pub proof fn lemma_last_write_wins(
    table: Map<Seq<char>, Seq<char>>,
    entries: Seq<(Seq<char>, Seq<char>)>,
    last: int,
)
    requires
        0 <= last < entries.len(),
        forall|j: int| last < j < entries.len() ==> (#[trigger] entries[j]).0 != entries[last].0,
    ensures
        upserted(table, entries).dom().contains(entries[last].0),
        upserted(table, entries)[entries[last].0] == entries[last].1,
    decreases entries.len(),
{
    if last < entries.len() - 1 {
        let front = entries.drop_last();
        assert forall|j: int| last < j < front.len() implies (#[trigger] front[j]).0
            != front[last].0 by {
            assert(entries[j].0 != entries[last].0);
        }
        lemma_last_write_wins(table, front, last);
        assert(entries[entries.len() - 1].0 != entries[last].0);
    }
}

/// Where every entry with the key `key` has the value `value`, and there is
/// such an entry, the table holds `value` under `key`.
pub proof fn lemma_agreed_value_wins(
    table: Map<Seq<char>, Seq<char>>,
    entries: Seq<(Seq<char>, Seq<char>)>,
    key: Seq<char>,
    value: Seq<char>,
)
    requires
        writes_key(entries, key),
        forall|i: int| 0 <= i < entries.len() && (#[trigger] entries[i]).0 == key ==> entries[i].1 == value,
    ensures
        upserted(table, entries).dom().contains(key),
        upserted(table, entries)[key] == value,
    decreases entries.len(),
{
    let front = entries.drop_last();
    if entries.last().0 != key {
        let at = choose|i: int| 0 <= i < entries.len() && (#[trigger] entries[i]).0 == key;
        assert(front[at].0 == key);
        assert forall|i: int| 0 <= i < front.len() && (#[trigger] front[i]).0 == key implies front[i].1
            == value by {
            assert(entries[i].0 == key);
        }
        lemma_agreed_value_wins(table, front, key, value);
    } else {
        assert(entries[entries.len() - 1].0 == key);
    }
}

/// A table from keys to values, held in memory.
#[derive(Debug, Clone)]
pub struct Table {
    rows: Assoc,
}

impl View for Table {
    type V = Map<Seq<char>, Seq<char>>;

    closed spec fn view(&self) -> Map<Seq<char>, Seq<char>> {
        as_map(self.rows@)
    }
}

impl Table {
    /// The empty table.
    pub fn new() -> (table: Table)
        ensures
            table@ == Map::<Seq<char>, Seq<char>>::empty(),
    {
        let table = Table { rows: Assoc::new() };
        assert(table@ =~= Map::<Seq<char>, Seq<char>>::empty());
        table
    }

    /// The value under `key`, if the table has the key.
    pub fn get(&self, key: &str) -> (value: Option<&str>)
        ensures
            value is Some <==> self@.dom().contains(key@),
            value matches Some(v) ==> self@[key@] == v@,
    {
        self.rows.get(key)
    }

    /// Writes `value` under `key`, over the value that the key had.
    pub fn upsert(&mut self, key: &str, value: &str)
        ensures
            final(self)@ == old(self)@.insert(key@, value@),
    {
        self.rows.insert(key, value);
    }

    /// Writes the entries of `entries`, one after the other.
    pub fn upsert_all(&mut self, entries: &Vec<StoreEntry>)
        ensures
            final(self)@ == upserted(old(self)@, entry_views(entries@)),
    {
        let mut i: usize = 0;
        while i < entries.len()
            invariant
                i <= entries.len(),
                self@ == upserted(old(self)@, entry_views(entries@).take(i as int)),
            decreases entries.len() - i,
        {
            let ghost done = entry_views(entries@).take(i as int);
            let ghost next = entry_views(entries@).take(i + 1);
            proof {
                assert(next.drop_last() == done);
                assert(next.last() == entries@[i as int]@);
            }
            self.upsert(entries[i].key.as_str(), entries[i].value.as_str());
            i += 1;
        }
        assert(entry_views(entries@).take(entries@.len() as int) == entry_views(entries@));
    }
}

} // verus!
