//! What holds of every store, whatever was written to it.
//!
//! A store is spoken of by its view: a write of `record` to `page` takes the
//! store `s` to `s.insert(page, record)`, a read of `page` gives `s[page]`
//! where `s.contains_key(page)` and nothing otherwise, and a read of the whole
//! store gives some `listing` with `lists(listing, s)`. A history of writes
//! into an empty store ends in `entries_map(writes)`.

use vstd::prelude::*;
use crate::record::Analytics;
use crate::store::{
    distinct_pages, entries_map, lemma_distinct_entries_list_their_map,
    lemma_listing_counts_pages, lemma_listing_determines_store, lists,
};

verus! {

/// The pages that a history of writes wrote to.
pub open spec fn pages_written(writes: Seq<(Seq<char>, Analytics)>) -> Set<Seq<char>> {
    Set::new(
        |page: Seq<char>| exists|i: int| 0 <= i < writes.len() && (#[trigger] writes[i]).0 == page,
    )
}

/// The write at `at` is the last one of the history to its page.
pub open spec fn is_last_write(writes: Seq<(Seq<char>, Analytics)>, at: int) -> bool {
    &&& 0 <= at < writes.len()
    &&& forall|later: int|
        at < later < writes.len() ==> (#[trigger] writes[later]).0 != writes[at].0
}

/// A read of a page gives the record that was just written to it.
pub proof fn law_read_gives_what_was_written(
    store: Map<Seq<char>, Analytics>,
    page: Seq<char>,
    record: Analytics,
)
    ensures
        store.insert(page, record).contains_key(page),
        store.insert(page, record)[page] == record,
{
}

/// A second write to a page replaces the first: the store is as if only the
/// second had been made, and nothing of the first record is left.
pub proof fn law_second_write_replaces_first(
    store: Map<Seq<char>, Analytics>,
    page: Seq<char>,
    first: Analytics,
    second: Analytics,
)
    ensures
        store.insert(page, first).insert(page, second) == store.insert(page, second),
        store.insert(page, first).insert(page, second)[page] == second,
{
}

/// A page that no write of the history names has no record: it is absent,
/// and writes to other pages do not change that.
pub proof fn law_unwritten_page_is_absent(writes: Seq<(Seq<char>, Analytics)>, page: Seq<char>)
    requires
        forall|i: int| 0 <= i < writes.len() ==> (#[trigger] writes[i]).0 != page,
    ensures
        !entries_map(writes).contains_key(page),
    decreases writes.len(),
{
    if writes.len() > 0 {
        let head = writes.drop_last();
        assert forall|i: int| 0 <= i < head.len() implies (#[trigger] head[i]).0 != page by {
            assert(head[i] == writes[i]);
        }
        law_unwritten_page_is_absent(head, page);
    }
}

/// After a history of writes the store holds exactly the pages written to,
/// each with the record of the last write to it.
pub proof fn law_store_holds_last_writes(writes: Seq<(Seq<char>, Analytics)>)
    ensures
        entries_map(writes).dom() == pages_written(writes),
        forall|at: int|
            is_last_write(writes, at) ==> entries_map(writes)[(#[trigger] writes[at]).0]
                == writes[at].1,
    decreases writes.len(),
{
    if writes.len() > 0 {
        let head = writes.drop_last();
        let store = entries_map(writes);
        law_store_holds_last_writes(head);
        assert forall|page: Seq<char>|
            store.dom().contains(page) == pages_written(writes).contains(page) by {
            if page == writes.last().0 {
                assert(writes[writes.len() - 1].0 == page);
            } else if pages_written(head).contains(page) {
                let i = choose|i: int| 0 <= i < head.len() && (#[trigger] head[i]).0 == page;
                assert(writes[i].0 == page);
            } else if pages_written(writes).contains(page) {
                let i = choose|i: int| 0 <= i < writes.len() && (#[trigger] writes[i]).0 == page;
                assert(head[i].0 == page);
            }
        }
        assert forall|at: int| is_last_write(writes, at) implies
            store[(#[trigger] writes[at]).0] == writes[at].1 by {
            if at < head.len() {
                assert(is_last_write(head, at)) by {
                    assert forall|later: int| at < later < head.len() implies
                        (#[trigger] head[later]).0 != head[at].0 by {
                        assert(head[later] == writes[later]);
                    }
                }
            }
        }
    }
}

/// A page that was written to has a last write.
proof fn lemma_last_write_exists(writes: Seq<(Seq<char>, Analytics)>, page: Seq<char>) -> (at: int)
    requires
        pages_written(writes).contains(page),
    ensures
        is_last_write(writes, at),
        writes[at].0 == page,
    decreases writes.len(),
{
    if writes.last().0 == page {
        writes.len() - 1
    } else {
        let head = writes.drop_last();
        let i = choose|i: int| 0 <= i < writes.len() && (#[trigger] writes[i]).0 == page;
        assert(head[i].0 == page);
        let at = lemma_last_write_exists(head, page);
        assert forall|later: int| at < later < writes.len() implies
            (#[trigger] writes[later]).0 != writes[at].0 by {
            if later < head.len() {
                assert(head[later] == writes[later]);
            }
        }
        at
    }
}

/// A read of the whole store after a history of writes gives one entry for
/// each page written to, however often it was written, and each entry is the
/// last write to its page.
pub proof fn law_listing_after_writes(
    writes: Seq<(Seq<char>, Analytics)>,
    listing: Seq<(Seq<char>, Analytics)>,
)
    requires
        lists(listing, entries_map(writes)),
    ensures
        pages_written(writes).finite(),
        listing.len() == pages_written(writes).len(),
        forall|i: int|
            0 <= i < listing.len() ==> exists|at: int|
                is_last_write(writes, at) && #[trigger] writes[at] == #[trigger] listing[i],
{
    law_store_holds_last_writes(writes);
    lemma_listing_counts_pages(listing, entries_map(writes));
    assert forall|i: int| 0 <= i < listing.len() implies exists|at: int|
        is_last_write(writes, at) && #[trigger] writes[at] == #[trigger] listing[i] by {
        let at = lemma_last_write_exists(writes, listing[i].0);
        assert(writes[at] == listing[i]);
    }
}

/// Writes to `n` different pages leave `n` entries, one for each write.
pub proof fn law_distinct_writes_are_all_listed(
    writes: Seq<(Seq<char>, Analytics)>,
    listing: Seq<(Seq<char>, Analytics)>,
)
    requires
        distinct_pages(writes),
        lists(listing, entries_map(writes)),
    ensures
        listing.len() == writes.len(),
        forall|i: int| 0 <= i < listing.len() ==> writes.contains(#[trigger] listing[i]),
        forall|i: int| 0 <= i < writes.len() ==> listing.contains(#[trigger] writes[i]),
{
    let store = entries_map(writes);
    lemma_distinct_entries_list_their_map(writes);
    lemma_listing_counts_pages(writes, store);
    lemma_listing_counts_pages(listing, store);
    assert forall|i: int| 0 <= i < listing.len() implies writes.contains(#[trigger] listing[i]) by {
        let j = choose|j: int| 0 <= j < writes.len() && (#[trigger] writes[j]).0 == listing[i].0;
        assert(writes[j] == listing[i]);
    }
    assert forall|i: int| 0 <= i < writes.len() implies listing.contains(#[trigger] writes[i]) by {
        let j = choose|j: int| 0 <= j < listing.len() && (#[trigger] listing[j]).0 == writes[i].0;
        assert(listing[j] == writes[i]);
    }
}

/// The order in which different pages are written does not matter: two
/// histories that make the same writes, each page once, end in the same store.
pub proof fn law_order_of_writes_is_irrelevant(
    a: Seq<(Seq<char>, Analytics)>,
    b: Seq<(Seq<char>, Analytics)>,
)
    requires
        distinct_pages(a),
        distinct_pages(b),
        forall|i: int| 0 <= i < a.len() ==> b.contains(#[trigger] a[i]),
        forall|i: int| 0 <= i < b.len() ==> a.contains(#[trigger] b[i]),
    ensures
        entries_map(a) == entries_map(b),
{
    let store = entries_map(a);
    lemma_distinct_entries_list_their_map(a);
    lemma_distinct_entries_list_their_map(b);
    assert(lists(b, store)) by {
        assert forall|i: int| 0 <= i < b.len() implies
            store.contains_key((#[trigger] b[i]).0) && store[b[i].0] == b[i].1 by {
            let j = choose|j: int| 0 <= j < a.len() && a[j] == b[i];
            assert(store[a[j].0] == a[j].1);
        }
        assert forall|page: Seq<char>| #[trigger] store.contains_key(page) implies
            exists|i: int| 0 <= i < b.len() && (#[trigger] b[i]).0 == page by {
            let j = choose|j: int| 0 <= j < a.len() && (#[trigger] a[j]).0 == page;
            let i = choose|i: int| 0 <= i < b.len() && b[i] == a[j];
            assert(b[i].0 == page);
        }
    }
    lemma_listing_determines_store(b, store, entries_map(b));
}

/// Exchanging two neighbouring writes of a history that go to different pages
/// changes nothing: the history ends in the same store. So writes may be
/// reordered freely as long as the writes to each page keep their order.
pub proof fn law_neighbouring_writes_may_swap(writes: Seq<(Seq<char>, Analytics)>, at: int)
    requires
        0 <= at < writes.len() - 1,
        writes[at].0 != writes[at + 1].0,
    ensures
        entries_map(writes.update(at, writes[at + 1]).update(at + 1, writes[at])) == entries_map(
            writes,
        ),
    decreases writes.len(),
{
    let swapped = writes.update(at, writes[at + 1]).update(at + 1, writes[at]);
    let head = writes.drop_last();
    if at + 1 == writes.len() - 1 {
        reveal_with_fuel(entries_map, 2);
        assert(swapped.drop_last().drop_last() =~= head.drop_last());
        law_writes_to_different_pages_commute(
            entries_map(head.drop_last()),
            writes[at].0,
            writes[at].1,
            writes[at + 1].0,
            writes[at + 1].1,
        );
    } else {
        assert(swapped.drop_last() =~= head.update(at, head[at + 1]).update(at + 1, head[at]));
        law_neighbouring_writes_may_swap(head, at);
    }
}

/// Two writes to different pages do not disturb each other: in either order
/// they end in the same store, and each page has the record written to it.
pub proof fn law_writes_to_different_pages_commute(
    store: Map<Seq<char>, Analytics>,
    page: Seq<char>,
    record: Analytics,
    other_page: Seq<char>,
    other_record: Analytics,
)
    requires
        page != other_page,
    ensures
        store.insert(page, record).insert(other_page, other_record) == store.insert(
            other_page,
            other_record,
        ).insert(page, record),
        store.insert(page, record).insert(other_page, other_record)[page] == record,
        store.insert(page, record).insert(other_page, other_record)[other_page] == other_record,
{
    assert(store.insert(page, record).insert(other_page, other_record) =~= store.insert(
        other_page,
        other_record,
    ).insert(page, record));
}

/// A write changes one page only: every other page is present or absent as
/// before, with the record it had.
pub proof fn law_write_leaves_other_pages(
    store: Map<Seq<char>, Analytics>,
    page: Seq<char>,
    record: Analytics,
    other_page: Seq<char>,
)
    requires
        page != other_page,
    ensures
        store.insert(page, record).contains_key(other_page) == store.contains_key(other_page),
        store.contains_key(other_page) ==> store.insert(page, record)[other_page]
            == store[other_page],
{
}

/// Written out as a listing and built again from it, a store is the same
/// store: a listing loses nothing, in whatever order it comes.
pub proof fn law_listing_rebuilds_store(
    listing: Seq<(Seq<char>, Analytics)>,
    store: Map<Seq<char>, Analytics>,
)
    requires
        lists(listing, store),
    ensures
        entries_map(listing) == store,
{
    lemma_distinct_entries_list_their_map(listing);
    lemma_listing_determines_store(listing, entries_map(listing), store);
}

/// An empty store has an empty listing, and only an empty store has one.
pub proof fn law_empty_store_lists_nothing(
    listing: Seq<(Seq<char>, Analytics)>,
    store: Map<Seq<char>, Analytics>,
)
    requires
        lists(listing, store),
    ensures
        listing.len() == 0 <==> store == Map::<Seq<char>, Analytics>::empty(),
{
    lemma_listing_counts_pages(listing, store);
    if listing.len() == 0 {
        assert(store =~= Map::<Seq<char>, Analytics>::empty());
    }
}

} // verus!
