//! The persistent store: an ordered map from byte-string keys to byte-string
//! values, kept by `sled`. Everything in this file is a statement about that
//! crate, taken on trust; the rest of the library reasons from it.

use crate::order::{from_bound, is_listing, pairs_view};
use vstd::prelude::*;

verus! {

/// `sled::Db`, the handle of an open store. Nothing inside it is read here.
#[verifier::external_type_specification]
#[verifier::external_body]
pub struct ExDb(sled::Db);

/// `sled::Error`, the failure of a call on a store. Nothing inside it is
/// read here.
#[verifier::external_type_specification]
#[verifier::external_body]
pub struct ExFault(sled::Error);

/// The entries that a store holds. The store is taken to have one owner:
/// while it is open, nothing but the calls below changes what it holds.
pub uninterp spec fn db_entries(db: sled::Db) -> Map<Seq<u8>, Seq<u8>>;

/// The content of a store that holds nothing.
pub open spec fn no_entries() -> Map<Seq<u8>, Seq<u8>> {
    Map::empty()
}

/// The directory that a store was opened under, as its handle keeps it.
pub uninterp spec fn db_path(db: sled::Db) -> Seq<char>;

/// `sled::open`: opens the store kept in the directory `path`, creating it
/// where there is none. On success the handle is one of the store under
/// `path`. Nothing is claimed of what an opened store holds, nor of when
/// opening succeeds.
#[verifier::external_body]
pub(crate) fn db_open(path: &str) -> (r: Result<sled::Db, sled::Error>)
    ensures
        r is Ok ==> db_path(r->Ok_0) == path@,
{
    sled::open(path)
}

/// `sled::Tree::insert`: on success the store maps `key` to `value` and is
/// otherwise as before, and the value that `key` had before is returned.
/// The handle stays one of the same directory, whatever comes back.
#[verifier::external_body]
pub(crate) fn db_insert(db: &mut sled::Db, key: &[u8], value: &[u8]) -> (r: Result<
    Option<Vec<u8>>,
    sled::Error,
>)
    ensures
        match r {
            Ok(previous) => {
                &&& db_entries(*final(db)) == db_entries(*old(db)).insert(key@, value@)
                &&& previous is Some == db_entries(*old(db)).contains_key(key@)
                &&& previous is Some ==> previous->Some_0@ == db_entries(*old(db))[key@]
            },
            Err(_) => true,
        },
        db_path(*final(db)) == db_path(*old(db)),
{
    db.insert(key, value).map(|previous| previous.map(|v| v.to_vec()))
}

/// `sled::Tree::get`: on success the value that the store holds for `key`,
/// if it holds one.
#[verifier::external_body]
pub(crate) fn db_get(db: &sled::Db, key: &[u8]) -> (r: Result<Option<Vec<u8>>, sled::Error>)
    ensures
        match r {
            Ok(found) => {
                &&& found is Some == db_entries(*db).contains_key(key@)
                &&& found is Some ==> found->Some_0@ == db_entries(*db)[key@]
            },
            Err(_) => true,
        },
{
    db.get(key).map(|found| found.map(|v| v.to_vec()))
}

/// `sled::Tree::remove`: on success the store no longer holds `key` and is
/// otherwise as before, and the value that `key` had is returned; removing a
/// key that is not there succeeds and returns nothing. The handle stays one
/// of the same directory, whatever comes back.
#[verifier::external_body]
pub(crate) fn db_remove(db: &mut sled::Db, key: &[u8]) -> (r: Result<Option<Vec<u8>>, sled::Error>)
    ensures
        match r {
            Ok(previous) => {
                &&& db_entries(*final(db)) == db_entries(*old(db)).remove(key@)
                &&& previous is Some == db_entries(*old(db)).contains_key(key@)
                &&& previous is Some ==> previous->Some_0@ == db_entries(*old(db))[key@]
            },
            Err(_) => true,
        },
        db_path(*final(db)) == db_path(*old(db)),
{
    db.remove(key).map(|previous| previous.map(|v| v.to_vec()))
}

/// `sled::Tree::clear`: on success the store holds nothing. The handle stays
/// one of the same directory, whatever comes back.
#[verifier::external_body]
pub(crate) fn db_clear(db: &mut sled::Db) -> (r: Result<(), sled::Error>)
    ensures
        r is Ok ==> db_entries(*final(db)) == no_entries(),
        db_path(*final(db)) == db_path(*old(db)),
{
    db.clear()
}

/// `sled::Tree::iter`, read to its end: on success every entry of the store,
/// by ascending key. The first failure of the iterator is returned.
#[verifier::external_body]
pub(crate) fn db_iter(db: &sled::Db) -> (r: Result<Vec<(Vec<u8>, Vec<u8>)>, sled::Error>)
    ensures
        r is Ok ==> is_listing(pairs_view(r->Ok_0@), db_entries(*db)),
{
    db.iter().map(|entry| entry.map(|(k, v)| (k.to_vec(), v.to_vec()))).collect()
}

/// `sled::Tree::range` from `lower` on, read to its end: on success every
/// entry of the store whose key is `lower` or comes after it, by ascending
/// key. The first failure of the iterator is returned.
#[verifier::external_body]
pub(crate) fn db_range_from(db: &sled::Db, lower: &[u8]) -> (r: Result<
    Vec<(Vec<u8>, Vec<u8>)>,
    sled::Error,
>)
    ensures
        r is Ok ==> is_listing(pairs_view(r->Ok_0@), from_bound(db_entries(*db), lower@)),
{
    db.range(lower..).map(|entry| entry.map(|(k, v)| (k.to_vec(), v.to_vec()))).collect()
}

} // verus!
