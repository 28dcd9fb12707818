//! Entities and their sitelinks, as far as a record's text is read.

use crate::assoc::{as_map, distinct_keys, has_key, with_pair, Assoc};
use vstd::prelude::*;

verus! {

/// The link from an entity to one page: the title of that page.
#[derive(Debug, Clone, PartialEq, Eq)]
pub struct Sitelink {
    pub title: String,
}

/// One record of a dump: an identifier such as `Q42`, and for each site key
/// at most one sitelink.
#[derive(Debug, Clone)]
pub struct Entity {
    id: String,
    sitelinks: Assoc,
}

/// An `Entity` as sequences: its identifier, and its sitelinks as pairs of
/// site key and title, in the order in which the site keys came in.
pub struct EntityView {
    pub id: Seq<char>,
    pub sitelinks: Seq<(Seq<char>, Seq<char>)>,
}

impl View for Entity {
    type V = EntityView;

    closed spec fn view(&self) -> EntityView {
        EntityView { id: self.id@, sitelinks: self.sitelinks@ }
    }
}

impl Entity {
    /// Whether the entity has at most one sitelink for each site key. It is
    /// so of every entity made by `new` and `insert`.
    pub open spec fn wf(&self) -> bool {
        distinct_keys(self@.sitelinks)
    }

    /// An entity without sitelinks.
    pub fn new(id: &str) -> (entity: Entity)
        ensures
            entity@.id == id@,
            entity@.sitelinks.len() == 0,
            entity.wf(),
    {
        Entity { id: id.to_owned(), sitelinks: Assoc::new() }
    }

    /// The identifier.
    pub fn id(&self) -> (id: &str)
        ensures
            id@ == self@.id,
    {
        self.id.as_str()
    }

    /// The number of sitelinks.
    pub fn len(&self) -> (n: usize)
        ensures
            n == self@.sitelinks.len(),
    {
        self.sitelinks.len()
    }

    /// Whether the entity has no sitelink.
    pub fn is_empty(&self) -> (empty: bool)
        ensures
            empty == (self@.sitelinks.len() == 0),
    {
        self.sitelinks.len() == 0
    }

    /// The site key and the title of the sitelink at `index`.
    pub fn sitelink(&self, index: usize) -> (link: (&str, &str))
        requires
            index < self@.sitelinks.len(),
        ensures
            (link.0@, link.1@) == self@.sitelinks[index as int],
    {
        self.sitelinks.pair(index)
    }

    /// The title that the entity has for `site_key`, if it has one.
    pub fn title(&self, site_key: &str) -> (title: Option<&str>)
        ensures
            title is Some <==> has_key(self@.sitelinks, site_key@),
            title matches Some(t) ==> as_map(self@.sitelinks)[site_key@] == t@,
    {
        self.sitelinks.get(site_key)
    }

    /// Gives the entity `link` as its sitelink for `site_key`, in place of
    /// the one that it had for that key.
    pub fn insert(&mut self, site_key: &str, link: Sitelink)
        ensures
            final(self)@.id == old(self)@.id,
            final(self)@.sitelinks == with_pair(old(self)@.sitelinks, site_key@, link.title@),
            old(self).wf() ==> final(self).wf(),
    {
        self.sitelinks.insert(site_key, link.title.as_str());
    }
}

} // verus!
