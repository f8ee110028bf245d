//! What a note store offers, whatever keeps its entries.

use crate::tag::Tag;
use vstd::prelude::*;
use vstd::string::*;

verus! {

/// Why an operation on the store did not go through.
#[derive(Clone, Copy, Debug, PartialEq, Eq, Structural)]
pub enum StoreError {
    /// The key to remove is not in the store.
    NotFound,
    /// The store itself failed: it could not be opened, read or written.
    Backend,
}

/// The operations of a note store.
pub trait Database: Sized {
    /// The form in which keys and values are listed.
    type DBUnit;

    /// Opens the store kept under `path`, creating it where there is none.
    fn init(path: &str) -> Result<Self, StoreError>;

    /// Files `info` under `key` and returns a confirmation.
    fn new_entry(&mut self, key: &str, info: &str) -> Result<String, StoreError>;

    /// Lists all entries by ascending key; with `sort`, also rewrites the
    /// store from that listing.
    fn sort_db(&mut self, sort: bool) -> Result<Vec<(Self::DBUnit, Self::DBUnit)>, StoreError>;

    /// Renders all entries as an archive.
    fn export_db(&mut self) -> Result<String, StoreError>;

    /// Files the records of an archive.
    fn import_db(&mut self, archive: &str) -> Result<(), StoreError>;

    /// Renders all entries, one per line.
    fn print_db(&self) -> Result<String, StoreError>;

    /// Reports the entries that a tag selects.
    fn search_tag(&self, tag: Tag) -> Result<String, StoreError>;

    /// Removes the entry filed under `key`.
    fn remove_info(&mut self, key: &str) -> Result<(), StoreError>;

    /// Removes every entry.
    fn clear_db(&mut self) -> Result<(), StoreError>;

    /// The library's name and version, for display.
    fn version() -> (r: String)
        ensures
            r@ == "InfoKeep Library Version: "@ + "0.1.0"@,
    {
        String::from_str("InfoKeep Library Version: ").concat("0.1.0")
    }
}

} // verus!
