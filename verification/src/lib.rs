//! A note keeper: free-text entries filed under timestamp keys in an ordered,
//! persistent key-value store, with date tags for searching and a plain-text
//! archive format for moving a store from one place to another.

pub mod archive;
pub mod chronology;
pub mod clock;
pub mod database;
pub mod keeper;
pub mod order;
pub mod report;
pub mod store;
pub mod tag;
pub mod text;

pub use clock::Time;
pub use database::{Database, StoreError};
pub use keeper::InfoKeep;
pub use tag::Tag;
