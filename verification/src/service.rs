//! The rules of the service in front of the store.
//!
//! The functions here decide what a request does to the store and what is
//! replied. They take the store as it is while the caller holds exclusive
//! access to it; waiting for that access, writing the store out and sending
//! the reply are the caller's part.

use vstd::prelude::*;
use vstd::string::StringSliceAdditionalSpecFns;
use crate::record::Analytics;
use crate::store::{borrowed_entries, entries_map, lists, owned_entries, Database};
use crate::text::{same_bytes, starts_with};

verus! {

/// The status of a reply that carries out the request.
pub const STATUS_OK: u16 = 200;

/// The status of the reply to a read of a page that has no record.
pub const STATUS_NOT_FOUND: u16 = 404;

/// What the service answers.
#[derive(Debug, PartialEq, Eq)]
pub enum Reply<'a> {
    /// The request was carried out; there is nothing to send back.
    Done,
    /// The record of the page that was asked for.
    Record(&'a Analytics),
    /// Every entry of the store.
    Records(Vec<(&'a String, &'a Analytics)>),
    /// The page that was asked for has no record.
    NotFound,
}

impl<'a> Reply<'a> {
    /// The status that goes with the reply: "not found" for a missing page,
    /// success for everything else.
    pub open spec fn spec_status(&self) -> u16 {
        match self {
            Reply::NotFound => STATUS_NOT_FOUND,
            _ => STATUS_OK,
        }
    }

    /// The status that goes with the reply.
    #[verifier::when_used_as_spec(spec_status)]
    pub fn status(&self) -> (code: u16)
        ensures
            code == self.spec_status(),
    {
        match self {
            Reply::NotFound => STATUS_NOT_FOUND,
            _ => STATUS_OK,
        }
    }
}

/// The store that the service starts with. `snapshot` holds the entries that
/// were read back from the last save, or `None` where there was nothing to
/// read or what was there could not be understood: the service then starts
/// empty. Starting never fails.
pub fn restore(snapshot: Option<Vec<(String, Analytics)>>) -> (db: Database)
    ensures
        db@ == (match snapshot {
            Some(entries) => entries_map(owned_entries(entries@)),
            None => Map::<Seq<char>, Analytics>::empty(),
        }),
{
    match snapshot {
        Some(entries) => Database::from_entries(entries),
        None => Database::new(),
    }
}

/// A write: `analytics` becomes the record of `page`, whole, whether or not
/// the page had one. The caller then saves the store and replies with
/// [`acknowledge`].
pub fn update_analytics(db: &mut Database, page: String, analytics: Analytics)
    ensures
        final(db)@ == old(db)@.insert(page@, analytics),
{
    db.update(page, analytics);
}

/// The reply to a write, once saving the store was attempted. `saved` tells
/// whether the save went through. The write is acknowledged either way: a
/// failed save neither fails the request nor takes the write back.
#[allow(unused_variables)]
pub fn acknowledge(saved: bool) -> (reply: Reply<'static>)
    ensures
        reply == Reply::Done,
{
    Reply::Done
}

/// A read of one page: its record, or "not found" where it has none. The
/// store is left as it is.
pub fn get_analytics<'a>(db: &'a Database, page: &str) -> (reply: Reply<'a>)
    ensures
        reply == (if db@.contains_key(page@) {
            Reply::Record(&db@[page@])
        } else {
            Reply::NotFound
        }),
{
    match db.get(page) {
        Some(analytics) => Reply::Record(analytics),
        None => Reply::NotFound,
    }
}

/// A read of the whole store: every page once, with its record, in no
/// particular order. An empty store gives an empty list, not "not found".
/// What is listed is enough to build the store again. The store is left as
/// it is.
pub fn get_all_analytics<'a>(db: &'a Database) -> (reply: Reply<'a>)
    ensures
        reply matches Reply::Records(entries) && (lists(borrowed_entries(entries@), db@)
            && db@.dom().finite()
            && entries@.len() == db@.len()
            && entries_map(borrowed_entries(entries@)) == db@),
{
    Reply::Records(db.get_all())
}

/// The origins that cross-origin requests are accepted from, as the bytes of
/// the request's `Origin` header: those that begin with `http://localhost`,
/// and the opaque origin `null`.
pub open spec fn origin_allowed(origin: Seq<u8>) -> bool {
    "http://localhost".spec_bytes().is_prefix_of(origin) || origin == "null".spec_bytes()
}

/// Whether cross-origin requests from `origin` are accepted.
pub fn allowed_origin(origin: &[u8]) -> (allowed: bool)
    ensures
        allowed == origin_allowed(origin@),
{
    starts_with(origin, "http://localhost".as_bytes()) || same_bytes(origin, "null".as_bytes())
}

} // verus!
