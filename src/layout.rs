//! Byte widths and offsets of the row format and the page geometry.
use vstd::prelude::*;

verus! {

pub const ID_SIZE: usize = 2;

pub const USERNAME_SIZE: usize = 32;

pub const EMAIL_SIZE: usize = 255;

pub const ROW_SIZE: usize = 289;

pub const ID_OFFSET: usize = 0;

pub const USERNAME_OFFSET: usize = 2;

pub const EMAIL_OFFSET: usize = 34;

pub const TABLE_MAX_PAGES: usize = 100;

pub const PAGE_SIZE: usize = 4096;

pub const ROWS_PER_PAGE: usize = 14;

pub const TABLE_MAX_ROWS: usize = 1400;

/// The constants agree with one another: each offset is the sum of the widths
/// before it, a page holds as many whole rows as fit, and the table holds as
/// many rows as its pages do.
pub proof fn lemma_layout_consistent()
    ensures
        ROW_SIZE == ID_SIZE + USERNAME_SIZE + EMAIL_SIZE,
        USERNAME_OFFSET == ID_OFFSET + ID_SIZE,
        EMAIL_OFFSET == USERNAME_OFFSET + USERNAME_SIZE,
        ROWS_PER_PAGE == PAGE_SIZE / ROW_SIZE,
        TABLE_MAX_ROWS == ROWS_PER_PAGE * TABLE_MAX_PAGES,
{
}

} // verus!
