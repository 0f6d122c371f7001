//! A walker over a table's rows by row index.
use crate::pager::{locate, locate_row};
use crate::table::Table;
use vstd::prelude::*;

verus! {

/// A row index into a table, the table's row count when the cursor was made,
/// and whether the index has reached that count.
pub struct Cursor {
    pub row_num: usize,
    pub row_count: usize,
    pub end_of_table: bool,
}

impl Cursor {
    /// The index stays within the rows, and the flag says whether it has
    /// reached their end.
    pub open spec fn wf(&self) -> bool {
        &&& self.row_num <= self.row_count
        &&& self.end_of_table == (self.row_num >= self.row_count)
    }

    /// A cursor on the first row; at the end already if the table is empty.
    pub fn at_table_start(table: &Table) -> (r: Cursor)
        ensures
            r.wf(),
            r.row_num == 0,
            r.row_count == table.row_count,
            r.end_of_table == (table.row_count == 0),
    {
        Cursor { row_num: 0, row_count: table.row_count, end_of_table: table.row_count == 0 }
    }

    /// A cursor just past the last row: the slot where a new row goes.
    pub fn at_table_end(table: &Table) -> (r: Cursor)
        ensures
            r.wf(),
            r.row_num == table.row_count,
            r.row_count == table.row_count,
            r.end_of_table,
    {
        Cursor { row_num: table.row_count, row_count: table.row_count, end_of_table: true }
    }

    /// The page and the byte offset within it of the cursor's row.
    pub fn position(&self) -> (r: (usize, usize))
        ensures
            r.0 == locate(self.row_num as int).0,
            r.1 == locate(self.row_num as int).1,
    {
        locate_row(self.row_num)
    }

    /// Moves to the next row, reaching the end after the last one.
    pub fn advance(&mut self)
        requires
            old(self).wf(),
            !old(self).end_of_table,
        ensures
            final(self).wf(),
            final(self).row_num == old(self).row_num + 1,
            final(self).row_count == old(self).row_count,
            final(self).end_of_table == (final(self).row_num == final(self).row_count),
    {
        self.row_num = self.row_num + 1;
        if self.row_num >= self.row_count {
            self.end_of_table = true;
        }
    }
}

} // verus!
