//! The record store: a mapping from page identifier to counters record.
//!
//! A store is viewed as a `Map` from a page's characters to its record. The
//! entries are kept in a vector in which no page occurs twice, so the mapping
//! holds at most one record per page.

use vstd::prelude::*;
use crate::record::Analytics;
use crate::text::same_text;

verus! {

/// The mapping that a sequence of entries builds when they are written one
/// after the other, from the first to the last, into an empty store: a later
/// entry for a page replaces an earlier one.
pub open spec fn entries_map(entries: Seq<(Seq<char>, Analytics)>) -> Map<Seq<char>, Analytics>
    decreases entries.len(),
{
    if entries.len() == 0 {
        Map::empty()
    } else {
        entries_map(entries.drop_last()).insert(entries.last().0, entries.last().1)
    }
}

/// No page occurs in two entries.
pub open spec fn distinct_pages(entries: Seq<(Seq<char>, Analytics)>) -> bool {
    forall|i: int, j: int|
        0 <= i < j < entries.len() ==> (#[trigger] entries[i]).0 != (#[trigger] entries[j]).0
}

/// `entries` lists `store`: every entry is a page of the store with the
/// record that the store holds for it, no page is listed twice, and no page
/// of the store is left out. The order of the entries is free.
pub open spec fn lists(
    entries: Seq<(Seq<char>, Analytics)>,
    store: Map<Seq<char>, Analytics>,
) -> bool {
    &&& distinct_pages(entries)
    &&& forall|i: int|
        0 <= i < entries.len() ==> store.contains_key((#[trigger] entries[i]).0)
            && store[entries[i].0] == entries[i].1
    &&& forall|page: Seq<char>| #[trigger]
        store.contains_key(page) ==> exists|i: int|
            0 <= i < entries.len() && (#[trigger] entries[i]).0 == page
}

/// Owned entries as plain values: each page by its characters.
pub open spec fn owned_entries(entries: Seq<(String, Analytics)>) -> Seq<(Seq<char>, Analytics)> {
    entries.map_values(|e: (String, Analytics)| (e.0@, e.1))
}

/// Borrowed entries as plain values: each page by its characters.
pub open spec fn borrowed_entries(entries: Seq<(&String, &Analytics)>) -> Seq<
    (Seq<char>, Analytics),
> {
    entries.map_values(|e: (&String, &Analytics)| (e.0@, *e.1))
}

/// Entries with distinct pages list the mapping that they build.
pub proof fn lemma_distinct_entries_list_their_map(entries: Seq<(Seq<char>, Analytics)>)
    requires
        distinct_pages(entries),
    ensures
        lists(entries, entries_map(entries)),
    decreases entries.len(),
{
    if entries.len() > 0 {
        let head = entries.drop_last();
        let store = entries_map(entries);
        lemma_distinct_entries_list_their_map(head);
        assert forall|i: int| 0 <= i < entries.len() implies
            store.contains_key((#[trigger] entries[i]).0)
            && store[entries[i].0] == entries[i].1 by {
            if i < head.len() {
                assert(head[i] == entries[i]);
            }
        }
        assert forall|page: Seq<char>| #[trigger] store.contains_key(page) implies
            exists|i: int| 0 <= i < entries.len() && (#[trigger] entries[i]).0 == page by {
            if page != entries.last().0 {
                let i = choose|i: int| 0 <= i < head.len() && (#[trigger] head[i]).0 == page;
                assert(entries[i].0 == page);
            }
        }
    }
}

/// A listing determines the store: two stores with the same listing are equal.
pub proof fn lemma_listing_determines_store(
    entries: Seq<(Seq<char>, Analytics)>,
    a: Map<Seq<char>, Analytics>,
    b: Map<Seq<char>, Analytics>,
)
    requires
        lists(entries, a),
        lists(entries, b),
    ensures
        a == b,
{
    assert forall|page: Seq<char>| a.contains_key(page) || b.contains_key(page) implies
        a.contains_key(page) && b.contains_key(page) && a[page] == b[page] by {
        let i = choose|i: int| 0 <= i < entries.len() && (#[trigger] entries[i]).0 == page;
        assert(a[entries[i].0] == b[entries[i].0]);
    }
    assert(a =~= b);
}

/// A store has as many pages as any listing of it has entries.
pub proof fn lemma_listing_counts_pages(
    entries: Seq<(Seq<char>, Analytics)>,
    store: Map<Seq<char>, Analytics>,
)
    requires
        lists(entries, store),
    ensures
        store.dom().finite(),
        store.len() == entries.len(),
    decreases entries.len(),
{
    if entries.len() == 0 {
        assert(store.dom() =~= Set::empty());
    } else {
        let head = entries.drop_last();
        let rest = store.remove(entries.last().0);
        assert(lists(head, rest)) by {
            assert forall|page: Seq<char>| #[trigger] rest.contains_key(page) implies
                exists|i: int| 0 <= i < head.len() && (#[trigger] head[i]).0 == page by {
                let i = choose|i: int| 0 <= i < entries.len() && (#[trigger] entries[i]).0 == page;
                assert(head[i] == entries[i]);
            }
        }
        lemma_listing_counts_pages(head, rest);
        assert(store.dom() =~= rest.dom().insert(entries.last().0));
    }
}

/// The store: at most one record per page.
#[derive(Debug)]
pub struct Database {
    analytics: Vec<(String, Analytics)>,
}

impl View for Database {
    type V = Map<Seq<char>, Analytics>;

    closed spec fn view(&self) -> Map<Seq<char>, Analytics> {
        entries_map(owned_entries(self.analytics@))
    }
}

impl Database {
    /// The entries as plain values, in the order in which they are kept.
    spec fn entries(&self) -> Seq<(Seq<char>, Analytics)> {
        owned_entries(self.analytics@)
    }

    #[verifier::type_invariant]
    spec fn one_record_per_page(&self) -> bool {
        distinct_pages(self.entries())
    }

    /// An empty store.
    pub fn new() -> (db: Self)
        ensures
            db@ == Map::<Seq<char>, Analytics>::empty(),
    {
        Self { analytics: Vec::new() }
    }

    /// Where the entry of `page` stands, if the store has one.
    fn position(&self, page: &str) -> (at: Option<usize>)
        ensures
            (match at {
                Some(i) => i < self.entries().len() && self.entries()[i as int].0 == page@,
                None => forall|j: int|
                    0 <= j < self.entries().len() ==> (#[trigger] self.entries()[j]).0 != page@,
            }),
    {
        let mut i: usize = 0;
        while i < self.analytics.len()
            invariant
                i <= self.analytics.len(),
                forall|j: int| 0 <= j < i ==> (#[trigger] self.entries()[j]).0 != page@,
            decreases self.analytics.len() - i,
        {
            if same_text(self.analytics[i].0.as_str(), page) {
                return Some(i);
            }
            i += 1;
        }
        None
    }

    /// The record of `page`, or `None` where the store has none for it.
    pub fn get(&self, page: &str) -> (found: Option<&Analytics>)
        ensures
            (match found {
                Some(analytics) => self@.contains_key(page@) && *analytics == self@[page@],
                None => !self@.contains_key(page@),
            }),
    {
        proof {
            use_type_invariant(self);
            lemma_distinct_entries_list_their_map(self.entries());
        }
        match self.position(page) {
            Some(i) => Some(&self.analytics[i].1),
            None => None,
        }
    }

    /// Stores `analytics` for `page`. A page that had no record gets one; a
    /// page that had one has it replaced whole. No other page is touched.
    pub fn insert(&mut self, page: String, analytics: Analytics)
        ensures
            final(self)@ == old(self)@.insert(page@, analytics),
    {
        proof {
            use_type_invariant(&*self);
        }
        let ghost before = self.entries();
        let at = self.position(page.as_str());
        let mut entries: Vec<(String, Analytics)> = Vec::new();
        std::mem::swap(&mut entries, &mut self.analytics);
        match at {
            Some(i) => {
                entries[i].1 = analytics;
                proof {
                    assert(owned_entries(entries@) =~= before.update(
                        i as int,
                        (page@, analytics),
                    ));
                    lemma_replace_entry(before, i as int, analytics);
                }
            },
            None => {
                entries.push((page, analytics));
                proof {
                    assert(owned_entries(entries@) =~= before.push((page@, analytics)));
                    assert(owned_entries(entries@).drop_last() =~= before);
                }
            },
        }
        self.analytics = entries;
    }

    /// Stores `analytics` for `page`, exactly as [`Database::insert`] does:
    /// there is one way to write a record, whether or not the page is new.
    pub fn update(&mut self, page: String, analytics: Analytics)
        ensures
            final(self)@ == old(self)@.insert(page@, analytics),
    {
        self.insert(page, analytics)
    }

    /// Every entry of the store, each page once with its record. The order is
    /// unspecified. There are as many entries as the store has pages, which
    /// are finitely many, and a store built from these entries is this store
    /// again.
    pub fn get_all(&self) -> (all: Vec<(&String, &Analytics)>)
        ensures
            lists(borrowed_entries(all@), self@),
            self@.dom().finite(),
            all@.len() == self@.len(),
            entries_map(borrowed_entries(all@)) == self@,
    {
        let mut all: Vec<(&String, &Analytics)> = Vec::new();
        let mut i: usize = 0;
        while i < self.analytics.len()
            invariant
                i <= self.analytics.len(),
                all@.len() == i,
                forall|j: int|
                    0 <= j < i ==> (#[trigger] all@[j]).0@ == self.analytics@[j].0@ && *all@[j].1
                        == self.analytics@[j].1,
            decreases self.analytics.len() - i,
        {
            let entry = &self.analytics[i];
            all.push((&entry.0, &entry.1));
            i += 1;
        }
        proof {
            use_type_invariant(self);
            assert(borrowed_entries(all@) =~= self.entries());
            lemma_distinct_entries_list_their_map(self.entries());
            lemma_listing_counts_pages(self.entries(), self@);
        }
        all
    }

    /// The store that holds `entries`, written one after the other from the
    /// first to the last: where a page occurs more than once, its last record
    /// stays.
    pub fn from_entries(entries: Vec<(String, Analytics)>) -> (db: Self)
        ensures
            db@ == entries_map(owned_entries(entries@)),
    {
        let ghost given = owned_entries(entries@);
        let mut db = Database::new();
        for entry in it: entries
            invariant
                owned_entries(it.seq()) == given,
                db@ == entries_map(given.take(it.index())),
        {
            proof {
                assert(given.take(it.index() + 1).drop_last() =~= given.take(it.index()));
            }
            db.insert(entry.0, entry.1);
        }
        proof {
            assert(given.take(given.len() as int) =~= given);
        }
        db
    }
}

/// Replacing the record of one entry, among entries with distinct pages,
/// writes that record for the entry's page and keeps the pages distinct.
proof fn lemma_replace_entry(entries: Seq<(Seq<char>, Analytics)>, at: int, analytics: Analytics)
    requires
        distinct_pages(entries),
        0 <= at < entries.len(),
    ensures
        distinct_pages(entries.update(at, (entries[at].0, analytics))),
        entries_map(entries.update(at, (entries[at].0, analytics))) == entries_map(entries).insert(
            entries[at].0,
            analytics,
        ),
{
    let page = entries[at].0;
    let after = entries.update(at, (page, analytics));
    let store = entries_map(entries).insert(page, analytics);
    lemma_distinct_entries_list_their_map(entries);
    assert(lists(after, store)) by {
        assert forall|p: Seq<char>| #[trigger] store.contains_key(p) implies
            exists|i: int| 0 <= i < after.len() && (#[trigger] after[i]).0 == p by {
            if p == page {
                assert(after[at].0 == p);
            } else {
                let i = choose|i: int| 0 <= i < entries.len() && (#[trigger] entries[i]).0 == p;
                assert(after[i].0 == p);
            }
        }
    }
    lemma_distinct_entries_list_their_map(after);
    lemma_listing_determines_store(after, entries_map(after), store);
}

impl Clone for Database {
    /// A store of its own with the same records.
    fn clone(&self) -> (copy: Self)
        ensures
            copy@ == self@,
    {
        let mut entries: Vec<(String, Analytics)> = Vec::new();
        let mut i: usize = 0;
        while i < self.analytics.len()
            invariant
                i <= self.analytics.len(),
                entries@ == self.analytics@.take(i as int),
            decreases self.analytics.len() - i,
        {
            let entry = &self.analytics[i];
            entries.push((entry.0.clone(), entry.1));
            i += 1;
        }
        proof {
            use_type_invariant(self);
            assert(entries@ =~= self.analytics@);
        }
        Database { analytics: entries }
    }
}

} // verus!
