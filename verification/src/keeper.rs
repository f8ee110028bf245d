//! The note keeper itself: the operations on an open store.

use crate::archive::{archive_records, archive_text, parse_archive, render_archive};
use crate::database::{Database, StoreError};
use crate::order::{
    from_bound, insert_all, is_listing, lemma_listing_is_listing_of, listing_of, pairs_view, Pair,
};
use crate::report::{listing_text, render_listing};
use crate::store::{
    db_clear, db_entries, db_get, db_insert, db_iter, db_open, db_path, db_range_from,
    db_remove, no_entries,
};
use crate::tag::{beginning_tag, Tag};
use crate::text::read_lossy;
use vstd::prelude::*;
use vstd::string::*;
use vstd::utf8::*;

verus! {

/// The confirmation of a new entry: its key and the text as stored.
pub open spec fn confirmation(key: Seq<char>, stored: Seq<char>) -> Seq<char> {
    "\nInfo added for "@ + key + "\n"@ + stored + "\n\n"@
}

/// The report of everything in the store.
pub open spec fn full_report(found: Seq<Pair>) -> Seq<char> {
    "Listing all entries\n"@ + listing_text(found, " :: "@, "\n"@)
}

/// The report of a search from the prefix `tag` on.
pub open spec fn search_report(tag: Seq<char>, found: Seq<Pair>) -> Seq<char> {
    "Searching for entries with tag: "@ + tag + "\n"@ + listing_text(found, " :: "@, " \n"@)
}

/// The report for the prefix `tag`: of everything for the beginning prefix,
/// of a search otherwise.
pub open spec fn tag_report(tag: Seq<char>, found: Seq<Pair>) -> Seq<char> {
    if tag == beginning_tag() {
        full_report(found)
    } else {
        search_report(tag, found)
    }
}

/// The entries that the prefix `tag` selects: all of them for the beginning
/// prefix, otherwise those whose key is the prefix or comes after it. There
/// is no upper bound.
pub open spec fn selected(m: Map<Seq<u8>, Seq<u8>>, tag: Seq<char>) -> Map<Seq<u8>, Seq<u8>> {
    if tag == beginning_tag() {
        m
    } else {
        from_bound(m, encode_utf8(tag))
    }
}

/// Words the confirmation of a new entry.
pub fn confirmation_text(key: &str, stored: &str) -> (r: String)
    ensures
        r@ == confirmation(key@, stored@),
{
    let mut r = String::from_str("\nInfo added for ");
    r.append(key);
    r.append("\n");
    r.append(stored);
    r.append("\n\n");
    r
}

/// Words the report for the rendered tag `tag` over the entries found.
pub fn report_text(tag: &str, found: &Vec<(Vec<u8>, Vec<u8>)>) -> (r: String)
    ensures
        r@ == tag_report(tag@, pairs_view(found@)),
{
    proof {
        reveal_strlit("0000-01-01");
    }
    let all = String::from_str(tag) == String::from_str("0000-01-01");
    assert(all == (tag@ == beginning_tag())) by {
        assert("0000-01-01"@ =~= beginning_tag());
    }
    if all {
        let mut r = String::from_str("Listing all entries\n");
        let lines = render_listing(found, " :: ", "\n");
        r.append(lines.as_str());
        r
    } else {
        let mut r = String::from_str("Searching for entries with tag: ");
        r.append(tag);
        r.append("\n");
        let lines = render_listing(found, " :: ", " \n");
        r.append(lines.as_str());
        r
    }
}

/// What removing a key comes to, given the value that the store held for it:
/// done where it held one, an error where it held none.
pub fn removal_outcome(previous: Option<Vec<u8>>) -> (r: Result<(), StoreError>)
    ensures
        r == (if previous is Some {
            Ok::<(), StoreError>(())
        } else {
            Err::<(), StoreError>(StoreError::NotFound)
        }),
{
    match previous {
        Some(_) => Ok(()),
        None => Err(StoreError::NotFound),
    }
}

/// A note keeper on an open store.
pub struct InfoKeep {
    db: sled::Db,
}

impl View for InfoKeep {
    type V = Map<Seq<u8>, Seq<u8>>;

    /// The entries in the store.
    closed spec fn view(&self) -> Map<Seq<u8>, Seq<u8>> {
        db_entries(self.db)
    }
}

impl InfoKeep {
    /// The directory that the store was opened under.
    pub closed spec fn path(&self) -> Seq<char> {
        db_path(self.db)
    }

    /// What an attempt to open a store comes to: a keeper on the store that
    /// was opened, with what that store holds, or the failure of the store.
    pub fn opened(outcome: Result<sled::Db, sled::Error>) -> (r: Result<Self, StoreError>)
        ensures
            match outcome {
                Ok(db) => {
                    &&& r is Ok
                    &&& r->Ok_0@ == db_entries(db)
                    &&& r->Ok_0.path() == db_path(db)
                },
                Err(_) => r == Err::<Self, StoreError>(StoreError::Backend),
            },
    {
        match outcome {
            Ok(db) => Ok(InfoKeep { db }),
            Err(_) => Err(StoreError::Backend),
        }
    }
}

impl Database for InfoKeep {
    type DBUnit = Vec<u8>;

    /// Opens the store kept under `path`, creating it where there is none.
    /// The keeper is one on the store under `path`; what it holds is whatever
    /// was left there. Whether opening succeeds lies with the store.
    fn init(path: &str) -> (r: Result<Self, StoreError>)
        ensures
            match r {
                Ok(keep) => keep.path() == path@,
                Err(e) => e == StoreError::Backend,
            },
    {
        InfoKeep::opened(db_open(path))
    }

    /// Files `info` under `key`, replacing what was there, reads it back and
    /// returns the confirmation.
    fn new_entry(&mut self, key: &str, info: &str) -> (r: Result<String, StoreError>)
        ensures
            final(self).path() == old(self).path(),
            match r {
                Ok(said) => {
                    &&& final(self)@ == old(self)@.insert(encode_utf8(key@), encode_utf8(info@))
                    &&& said@ == confirmation(key@, info@)
                },
                Err(e) => e == StoreError::Backend,
            },
    {
        broadcast use {encode_utf8_valid_utf8, encode_utf8_decode_utf8};

        match db_insert(&mut self.db, key.as_bytes(), info.as_bytes()) {
            Ok(_) => {},
            Err(_) => {
                return Err(StoreError::Backend);
            },
        }
        match db_get(&self.db, key.as_bytes()) {
            Ok(Some(stored)) => {
                let text = read_lossy(stored.as_slice());
                Ok(confirmation_text(key, text.as_str()))
            },
            _ => Err(StoreError::Backend),
        }
    }

    /// Lists all entries by ascending key. A key is held once, so no entry
    /// occurs twice in the listing. With `sort` the store is also rewritten
    /// from the listing: every entry is filed again over itself. The store is
    /// not emptied first, so at no point does it hold less than before.
    fn sort_db(&mut self, sort: bool) -> (r: Result<Vec<(Vec<u8>, Vec<u8>)>, StoreError>)
        ensures
            final(self).path() == old(self).path(),
            match r {
                Ok(listing) => {
                    &&& is_listing(pairs_view(listing@), old(self)@)
                    &&& pairs_view(listing@) == listing_of(old(self)@)
                    &&& final(self)@ == old(self)@
                },
                Err(e) => e == StoreError::Backend && (!sort ==> final(self)@ == old(self)@),
            },
    {
        let listing = match db_iter(&self.db) {
            Ok(listing) => listing,
            Err(_) => {
                return Err(StoreError::Backend);
            },
        };
        proof {
            lemma_listing_is_listing_of(pairs_view(listing@), old(self)@);
        }
        if sort {
            let ghost all = pairs_view(listing@);
            let n = listing.len();
            let mut i: usize = 0;
            while i < n
                invariant
                    sort,
                    i <= n,
                    n == listing.len(),
                    all == pairs_view(listing@),
                    is_listing(all, old(self)@),
                    self@ == old(self)@,
                    self.path() == old(self).path(),
                decreases n - i,
            {
                assert(old(self)@.contains_key(all[i as int].0));
                assert(old(self)@.insert(all[i as int].0, all[i as int].1) =~= old(self)@);
                match db_insert(&mut self.db, listing[i].0.as_slice(), listing[i].1.as_slice()) {
                    Ok(_) => {},
                    Err(_) => {
                        return Err(StoreError::Backend);
                    },
                }
                i += 1;
            }
        }
        Ok(listing)
    }

    /// Renders all entries, one per line, by ascending key.
    fn print_db(&self) -> (r: Result<String, StoreError>)
        ensures
            match r {
                Ok(lines) => {
                    &&& is_listing(listing_of(self@), self@)
                    &&& lines@ == listing_text(listing_of(self@), " :: "@, "\n"@)
                },
                Err(e) => e == StoreError::Backend,
            },
    {
        match db_iter(&self.db) {
            Ok(found) => {
                let lines = render_listing(&found, " :: ", "\n");
                proof {
                    lemma_listing_is_listing_of(pairs_view(found@), self@);
                }
                Ok(lines)
            },
            Err(_) => Err(StoreError::Backend),
        }
    }

    /// Reports the entries that `tag` selects. A tag that renders to the
    /// beginning prefix selects everything; any other selects the entries
    /// from its prefix on, with no upper bound.
    fn search_tag(&self, tag: Tag) -> (r: Result<String, StoreError>)
        ensures
            match r {
                Ok(report) => {
                    &&& is_listing(
                        listing_of(selected(self@, tag.text())),
                        selected(self@, tag.text()),
                    )
                    &&& report@ == tag_report(
                        tag.text(),
                        listing_of(selected(self@, tag.text())),
                    )
                },
                Err(e) => e == StoreError::Backend,
            },
    {
        let full_tag = tag.full_tag();
        proof {
            reveal_strlit("0000-01-01");
        }
        let all = full_tag == String::from_str("0000-01-01");
        assert(all == (tag.text() == beginning_tag())) by {
            assert("0000-01-01"@ =~= beginning_tag());
        }
        let found = if all {
            db_iter(&self.db)
        } else {
            db_range_from(&self.db, full_tag.as_str().as_bytes())
        };
        match found {
            Ok(found) => {
                let report = report_text(full_tag.as_str(), &found);
                proof {
                    lemma_listing_is_listing_of(pairs_view(found@), selected(self@, tag.text()));
                }
                Ok(report)
            },
            Err(_) => Err(StoreError::Backend),
        }
    }

    /// Removes the entry filed under `key`. Where there is none this is an
    /// error, and the store stays as it was.
    fn remove_info(&mut self, key: &str) -> (r: Result<(), StoreError>)
        ensures
            final(self).path() == old(self).path(),
            match r {
                Ok(_) => {
                    &&& old(self)@.contains_key(encode_utf8(key@))
                    &&& final(self)@ == old(self)@.remove(encode_utf8(key@))
                },
                Err(StoreError::NotFound) => {
                    &&& !old(self)@.contains_key(encode_utf8(key@))
                    &&& final(self)@ == old(self)@
                },
                Err(StoreError::Backend) => true,
            },
    {
        match db_remove(&mut self.db, key.as_bytes()) {
            Ok(previous) => {
                assert(previous is None ==> old(self)@.remove(encode_utf8(key@)) =~= old(self)@);
                removal_outcome(previous)
            },
            Err(_) => Err(StoreError::Backend),
        }
    }

    /// Removes every entry.
    fn clear_db(&mut self) -> (r: Result<(), StoreError>)
        ensures
            final(self).path() == old(self).path(),
            match r {
                Ok(_) => final(self)@ == no_entries(),
                Err(e) => e == StoreError::Backend,
            },
    {
        match db_clear(&mut self.db) {
            Ok(_) => Ok(()),
            Err(_) => Err(StoreError::Backend),
        }
    }

    /// Renders all entries, by ascending key, as an archive. The store is
    /// left as it was.
    fn export_db(&mut self) -> (r: Result<String, StoreError>)
        ensures
            final(self)@ == old(self)@,
            final(self).path() == old(self).path(),
            match r {
                Ok(archive) => {
                    &&& is_listing(listing_of(old(self)@), old(self)@)
                    &&& archive@ == archive_text(listing_of(old(self)@))
                },
                Err(e) => e == StoreError::Backend,
            },
    {
        match db_iter(&self.db) {
            Ok(found) => {
                let archive = render_archive(&found);
                proof {
                    lemma_listing_is_listing_of(pairs_view(found@), old(self)@);
                }
                Ok(archive)
            },
            Err(_) => Err(StoreError::Backend),
        }
    }

    /// Files the records of `archive`, line by line, each replacing what its
    /// key held. An archive whose first line is not the header holds no
    /// records. Where there is no record to file, the store is not touched
    /// and the import succeeds.
    fn import_db(&mut self, archive: &str) -> (r: Result<(), StoreError>)
        ensures
            final(self).path() == old(self).path(),
            archive_records(encode_utf8(archive@)).len() == 0 ==> r is Ok && final(self)@ == old(
                self,
            )@,
            match r {
                Ok(_) => final(self)@ == insert_all(
                    old(self)@,
                    archive_records(encode_utf8(archive@)),
                ),
                Err(e) => e == StoreError::Backend,
            },
    {
        let records = parse_archive(archive.as_bytes());
        let ghost all = pairs_view(records@);
        let n = records.len();
        let mut i: usize = 0;
        assert(all.subrange(0, n as int) =~= all);
        while i < n
            invariant
                i <= n,
                n == records.len(),
                all == pairs_view(records@),
                all == archive_records(encode_utf8(archive@)),
                self.path() == old(self).path(),
                insert_all(self@, all.subrange(i as int, n as int)) == insert_all(old(self)@, all),
            decreases n - i,
        {
            let ghost rest = all.subrange(i as int, n as int);
            assert(rest[0] == all[i as int]);
            assert(rest.drop_first() =~= all.subrange(i + 1, n as int));
            match db_insert(&mut self.db, records[i].0.as_slice(), records[i].1.as_slice()) {
                Ok(_) => {},
                Err(_) => {
                    return Err(StoreError::Backend);
                },
            }
            i += 1;
        }
        Ok(())
    }
}

} // verus!
