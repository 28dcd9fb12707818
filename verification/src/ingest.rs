//! One pass over a dump: which lines are decoded, when the pass stops, and
//! what the decoded records leave in the table.
//!
//! The pass itself belongs to the caller, who reads the lines, decodes the
//! records and writes to the store. What is decided along the way is decided
//! here: `Ingest::on_line` says what to do with a line, `record_entries`
//! says what a decoded record writes, and the caller commits once, when the
//! lines have run out or `on_line` has said to stop.

use crate::entity::{Entity, EntityView};
use crate::reader::{frame_line, framed};
use crate::record::{
    entry_views, lemma_entries_carry_id, record_entries, record_entries_of, StoreEntry,
};
use crate::store::{
    lemma_agreed_value_wins, lemma_unwritten_key_stays, lemma_upserted_concat, upserted,
    writes_key, Table,
};
use vstd::prelude::*;

verus! {

/// Progress is reported at the first record and then at every record that
/// comes this many records after it.
pub const PROGRESS_EVERY: u64 = 100_000;

/// What to do with a line.
#[derive(Debug, Clone, PartialEq, Eq)]
pub enum Action {
    /// The line holds no record: go on to the next line.
    Skip,
    /// Decode this text as a record, and write what it gives.
    Decode(String),
    /// The cap on records is passed: read no further, and commit.
    Stop,
}

/// What `Ingest::on_line` decided on a line.
#[derive(Debug, Clone, PartialEq, Eq)]
pub struct Step {
    /// Whether progress is to be reported now. To report it or not changes
    /// nothing in the table.
    pub report: bool,
    pub action: Action,
}

/// The state of a pass over a dump.
#[derive(Debug, Clone, PartialEq, Eq)]
pub struct Ingest {
    /// The number of lines with a record seen so far.
    pub records_seen: u64,
    /// The number of records after which the pass stops, if it is to stop
    /// before the end of the dump.
    pub cap: Option<u64>,
}

/// Whether progress is reported at the `seen`-th record.
pub open spec fn report_due(seen: int) -> bool {
    seen % (PROGRESS_EVERY as int) == 1
}

/// Whether the `seen`-th record lies beyond the cap.
pub open spec fn beyond_cap(seen: int, cap: Option<u64>) -> bool {
    match cap {
        Some(most) => seen > most,
        None => false,
    }
}

impl Ingest {
    /// A pass that goes to the end of the dump.
    pub fn new() -> (ingest: Ingest)
        ensures
            ingest.records_seen == 0,
            ingest.cap is None,
    {
        Ingest { records_seen: 0, cap: None }
    }

    /// A pass that stops after `most` records.
    pub fn with_cap(most: u64) -> (ingest: Ingest)
        ensures
            ingest.records_seen == 0,
            ingest.cap == Some(most),
    {
        Ingest { records_seen: 0, cap: Some(most) }
    }

    /// Decides what to do with the next line of the dump.
    ///
    /// A line too short to hold a record is skipped and not counted. Any
    /// other line is counted as a record; progress is reported if it is due
    /// at that count; and the line's text, without the comma at its end, is
    /// to be decoded, unless the count has passed the cap.
    pub fn on_line(&mut self, line: &str) -> (step: Step)
        requires
            old(self).records_seen < u64::MAX,
        ensures
            final(self).cap == old(self).cap,
            framed(line@) is None ==> {
                &&& final(self).records_seen == old(self).records_seen
                &&& !step.report
                &&& step.action is Skip
            },
            framed(line@) matches Some(text) ==> {
                &&& final(self).records_seen == old(self).records_seen + 1
                &&& step.report == report_due(final(self).records_seen as int)
                &&& if beyond_cap(final(self).records_seen as int, old(self).cap) {
                    step.action is Stop
                } else {
                    step.action matches Action::Decode(t) && t@ == text
                }
            },
    {
        match frame_line(line) {
            None => Step { report: false, action: Action::Skip },
            Some(text) => {
                self.records_seen = self.records_seen + 1;
                let report = self.records_seen % PROGRESS_EVERY == 1;
                let stop = match self.cap {
                    Some(most) => self.records_seen > most,
                    None => false,
                };
                if stop {
                    Step { report, action: Action::Stop }
                } else {
                    Step { report, action: Action::Decode(text) }
                }
            },
        }
    }
}

impl Default for Ingest {
    /// A pass without a cap.
    fn default() -> (ingest: Ingest)
        ensures
            ingest.records_seen == 0,
            ingest.cap is None,
    {
        Ingest::new()
    }
}

/// The entries that a run of records writes, in order. A record that could
/// not be decoded stands in the run as `None`.
pub open spec fn ingested(records: Seq<Option<EntityView>>) -> Seq<(Seq<char>, Seq<char>)>
    decreases records.len(),
{
    if records.len() == 0 {
        Seq::empty()
    } else {
        ingested(records.drop_last()) + record_entries_of(records.last())
    }
}

/// The records in `records`, each as its view.
pub open spec fn record_views(records: Seq<Option<Entity>>) -> Seq<Option<EntityView>> {
    Seq::new(
        records.len(),
        |i: int|
            match records[i] {
                Some(entity) => Some(entity@),
                None => None,
            },
    )
}

/// A run of one record writes the entries of that record.
pub proof fn lemma_ingested_one(record: Option<EntityView>)
    ensures
        ingested(seq![record]) == record_entries_of(record),
{
    let none = Seq::<Option<EntityView>>::empty();
    assert(seq![record].drop_last() == none);
    assert(ingested(none) == Seq::<(Seq<char>, Seq<char>)>::empty());
    assert(ingested(none) + record_entries_of(record) == record_entries_of(record));
}

/// Two runs of records, one after the other, write what the first writes
/// and then what the second writes.
pub proof fn lemma_ingested_concat(first: Seq<Option<EntityView>>, second: Seq<Option<EntityView>>)
    ensures
        ingested(first + second) == ingested(first) + ingested(second),
    decreases second.len(),
{
    if second.len() == 0 {
        assert(first + second == first);
    } else {
        lemma_ingested_concat(first, second.drop_last());
        assert((first + second).drop_last() == first + second.drop_last());
        assert((first + second).last() == second.last());
    }
}

/// A record that could not be decoded writes nothing and takes nothing from
/// the records around it: the run writes what it would write without that
/// record.
pub proof fn lemma_undecoded_record_is_skipped(
    before: Seq<Option<EntityView>>,
    after: Seq<Option<EntityView>>,
)
    ensures
        ingested(before + seq![None] + after) == ingested(before + after),
{
    let gap = seq![None::<EntityView>];
    lemma_ingested_one(None);
    lemma_ingested_concat(before, gap);
    lemma_ingested_concat(before + gap, after);
    lemma_ingested_concat(before, after);
    assert(ingested(before) + ingested(gap) == ingested(before));
}

/// A key that none of the records writes is in none of their entries.
pub proof fn lemma_ingested_leaves_key(records: Seq<Option<EntityView>>, key: Seq<char>)
    requires
        forall|i: int| 0 <= i < records.len() ==> !writes_key(record_entries_of(#[trigger] records[i]), key),
    ensures
        !writes_key(ingested(records), key),
    decreases records.len(),
{
    if records.len() > 0 {
        let front = records.drop_last();
        assert forall|i: int| 0 <= i < front.len() implies !writes_key(
            record_entries_of(#[trigger] front[i]),
            key,
        ) by {
            assert(front[i] == records[i]);
        }
        lemma_ingested_leaves_key(front, key);
        let head = ingested(front);
        let tail = record_entries_of(records.last());
        assert(records.last() == records[records.len() - 1]);
        assert forall|i: int| 0 <= i < (head + tail).len() implies (#[trigger] (head + tail)[i]).0
            != key by {
            if i < head.len() {
                assert(head[i].0 != key);
            } else {
                assert(tail[i - head.len()].0 != key);
            }
        }
    }
}

/// Where several records write one key, the table is left with the
/// identifier of the last of them.
pub proof fn lemma_last_record_wins(
    table: Map<Seq<char>, Seq<char>>,
    records: Seq<Option<EntityView>>,
    last: int,
    key: Seq<char>,
)
    requires
        0 <= last < records.len(),
        writes_key(record_entries_of(records[last]), key),
        forall|j: int| last < j < records.len() ==> !writes_key(record_entries_of(#[trigger] records[j]), key),
    ensures
        records[last] is Some,
        upserted(table, ingested(records)).dom().contains(key),
        upserted(table, ingested(records))[key] == records[last]->0.id,
{
    let before = records.take(last);
    let after = records.skip(last + 1);
    let entity = records[last]->0;
    let middle = record_entries_of(records[last]);
    assert(records == before + seq![records[last]] + after);
    lemma_ingested_concat(before + seq![records[last]], after);
    lemma_ingested_concat(before, seq![records[last]]);
    lemma_ingested_one(records[last]);
    assert forall|i: int| 0 <= i < after.len() implies !writes_key(
        record_entries_of(#[trigger] after[i]),
        key,
    ) by {
        assert(after[i] == records[last + 1 + i]);
    }
    lemma_ingested_leaves_key(after, key);
    lemma_upserted_concat(table, ingested(before) + middle, ingested(after));
    lemma_upserted_concat(table, ingested(before), middle);
    lemma_entries_carry_id(entity.id, entity.sitelinks);
    lemma_agreed_value_wins(upserted(table, ingested(before)), middle, key, entity.id);
    lemma_unwritten_key_stays(
        upserted(upserted(table, ingested(before)), middle),
        ingested(after),
        key,
    );
}

/// Writes to `table` what the records of `records` give, in their order.
pub fn load(table: &mut Table, records: &Vec<Option<Entity>>)
    ensures
        final(table)@ == upserted(old(table)@, ingested(record_views(records@))),
{
    let mut i: usize = 0;
    while i < records.len()
        invariant
            i <= records.len(),
            table@ == upserted(old(table)@, ingested(record_views(records@).take(i as int))),
        decreases records.len() - i,
    {
        let ghost done = record_views(records@).take(i as int);
        let ghost next = record_views(records@).take(i + 1);
        let entries = record_entries(records[i].as_ref());
        proof {
            assert(next.drop_last() == done);
            assert(next.last() == record_views(records@)[i as int]);
            lemma_upserted_concat(old(table)@, ingested(done), entry_views(entries@));
        }
        table.upsert_all(&entries);
        i += 1;
    }
    assert(record_views(records@).take(records@.len() as int) == record_views(records@));
}

} // verus!
