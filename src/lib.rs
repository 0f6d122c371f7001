//! A single-file record store: fixed-width rows appended to and scanned from
//! a file image through an in-memory page cache.
pub mod cursor;
pub mod layout;
pub mod pager;
pub mod row;
pub mod statement;
pub mod table;
