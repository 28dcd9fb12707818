//! From a decoded record to the entries that it adds to the table.

use crate::entity::{Entity, EntityView};
use crate::key::{canonical_key, make_key};
use crate::sitekey::{decompose, decomposed};
use vstd::prelude::*;

verus! {

/// One entry of the table: the canonical key of a page, and the identifier
/// of the entity that the page belongs to.
#[derive(Debug, Clone, PartialEq, Eq)]
pub struct StoreEntry {
    pub key: String,
    pub value: String,
}

impl View for StoreEntry {
    type V = (Seq<char>, Seq<char>);

    open spec fn view(&self) -> (Seq<char>, Seq<char>) {
        (self.key@, self.value@)
    }
}

/// The entries in `entries`, each as a pair of key and value.
pub open spec fn entry_views(entries: Seq<StoreEntry>) -> Seq<(Seq<char>, Seq<char>)> {
    Seq::new(entries.len(), |i: int| entries[i]@)
}

/// The entry that the sitelink `title` under `site_key` gives to the entity
/// `id`; none where the site key names no project.
pub open spec fn sitelink_entry(id: Seq<char>, site_key: Seq<char>, title: Seq<char>) -> Option<
    (Seq<char>, Seq<char>),
> {
    match decomposed(site_key) {
        Some(project) => Some((canonical_key(project.lang, project.site, title), id)),
        None => None,
    }
}

/// The entries that the sitelinks `links` give to the entity `id`, in the
/// order of the sitelinks.
pub open spec fn sitelink_entries(id: Seq<char>, links: Seq<(Seq<char>, Seq<char>)>) -> Seq<
    (Seq<char>, Seq<char>),
>
    decreases links.len(),
{
    if links.len() == 0 {
        Seq::empty()
    } else {
        let before = sitelink_entries(id, links.drop_last());
        match sitelink_entry(id, links.last().0, links.last().1) {
            Some(entry) => before.push(entry),
            None => before,
        }
    }
}

/// The entries of a record: those of its sitelinks if it was decoded, none
/// if it was not.
pub open spec fn record_entries_of(record: Option<EntityView>) -> Seq<(Seq<char>, Seq<char>)> {
    match record {
        Some(entity) => sitelink_entries(entity.id, entity.sitelinks),
        None => Seq::empty(),
    }
}

/// Every entry of an entity carries that entity's identifier as its value.
pub proof fn lemma_entries_carry_id(id: Seq<char>, links: Seq<(Seq<char>, Seq<char>)>)
    ensures
        forall|i: int|
            0 <= i < sitelink_entries(id, links).len() ==> (#[trigger] sitelink_entries(
                id,
                links,
            )[i]).1 == id,
    decreases links.len(),
{
    if links.len() > 0 {
        lemma_entries_carry_id(id, links.drop_last());
        let before = sitelink_entries(id, links.drop_last());
        let all = sitelink_entries(id, links);
        assert forall|i: int| 0 <= i < all.len() implies (#[trigger] all[i]).1 == id by {
            if i < before.len() {
                assert(all[i] == before[i]);
            }
        }
    }
}

/// An entity has at most one entry for each of its sitelinks.
pub proof fn lemma_entries_bounded(id: Seq<char>, links: Seq<(Seq<char>, Seq<char>)>)
    ensures
        sitelink_entries(id, links).len() <= links.len(),
    decreases links.len(),
{
    if links.len() > 0 {
        lemma_entries_bounded(id, links.drop_last());
    }
}

/// The entries that `entity` adds to the table: one for each sitelink whose
/// site key names a project, in the order of the sitelinks.
pub fn entity_entries(entity: &Entity) -> (entries: Vec<StoreEntry>)
    ensures
        entry_views(entries@) == sitelink_entries(entity@.id, entity@.sitelinks),
{
    let mut entries: Vec<StoreEntry> = Vec::new();
    let n = entity.len();
    let mut i: usize = 0;
    while i < n
        invariant
            i <= n,
            n == entity@.sitelinks.len(),
            entry_views(entries@) == sitelink_entries(entity@.id, entity@.sitelinks.take(i as int)),
        decreases n - i,
    {
        let (site_key, title) = entity.sitelink(i);
        let ghost done = entity@.sitelinks.take(i as int);
        let ghost next = entity@.sitelinks.take(i + 1);
        proof {
            assert(next.drop_last() == done);
            assert(next.last() == entity@.sitelinks[i as int]);
        }
        match decompose(site_key) {
            Some(project) => {
                let key = make_key(project.lang.as_str(), project.site.as_str(), title);
                let ghost before = entry_views(entries@);
                entries.push(StoreEntry { key, value: entity.id().to_owned() });
                assert(entry_views(entries@) == before.push((key@, entity@.id)));
            },
            None => {},
        }
        i += 1;
    }
    assert(entity@.sitelinks.take(n as int) == entity@.sitelinks);
    entries
}

/// The entries that a record adds to the table. A record that could not be
/// decoded adds none, and neither does an entity without sitelinks.
pub fn record_entries(record: Option<&Entity>) -> (entries: Vec<StoreEntry>)
    ensures
        entry_views(entries@) == record_entries_of(
            match record {
                Some(entity) => Some(entity@),
                None => None,
            },
        ),
        record is None ==> entries@.len() == 0,
        record matches Some(entity) && entity@.sitelinks.len() == 0 ==> entries@.len() == 0,
{
    match record {
        Some(entity) => {
            if entity.is_empty() {
                Vec::new()
            } else {
                entity_entries(entity)
            }
        },
        None => Vec::new(),
    }
}

} // verus!
