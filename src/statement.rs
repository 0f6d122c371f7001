//! The two operations on a table: append one row, and read all rows.
use crate::cursor::Cursor;
use crate::layout::{EMAIL_SIZE, PAGE_SIZE, ROW_SIZE, TABLE_MAX_PAGES, TABLE_MAX_ROWS, USERNAME_SIZE};
use crate::pager::{locate, PagerError};
use crate::row::{encode_spec, lemma_decode_encode, row_of, Row, RowError};
use crate::table::{row_at, Table};
use vstd::prelude::*;
use vstd::utf8::encode_utf8;

verus! {

/// What a statement asks for.
#[derive(Debug)]
pub enum StatementType {
    Insert(Box<Row>),
    Select,
}

/// A statement to run against a table.
#[derive(Debug)]
pub struct Statement {
    pub kind: StatementType,
}

impl Statement {
    /// A statement that inserts `row`.
    pub fn insert(row: Row) -> (r: Statement)
        ensures
            r.kind is Insert && *r.kind->Insert_0 == row,
    {
        Statement { kind: StatementType::Insert(Box::new(row)) }
    }

    /// A statement that reads all rows.
    pub fn select() -> (r: Statement)
        ensures
            r.kind is Select,
    {
        Statement { kind: StatementType::Select }
    }
}

/// The words of a text: its maximal runs of characters that are not
/// whitespace, in order.
pub uninterp spec fn words_of(s: Seq<char>) -> Seq<Seq<char>>;

/// Relies on str::split_whitespace: the words of `s`, in order.
#[verifier::external_body]
fn split_words(s: &str) -> (r: Vec<String>)
    ensures
        word_texts(r@) == words_of(s@),
{
    let mut r: Vec<String> = Vec::new();
    for w in s.split_whitespace() {
        r.push(w.to_string());
    }
    r
}

/// The value of a string of decimal digits.
pub open spec fn decimal_value(d: Seq<char>) -> int
    decreases d.len(),
{
    if d.len() == 0 {
        0
    } else {
        decimal_value(d.drop_last()) * 10 + (d.last() as u32 - '0' as u32)
    }
}

/// One or more ASCII decimal digits.
pub open spec fn all_digits(d: Seq<char>) -> bool {
    d.len() > 0 && forall|i: int| 0 <= i < d.len() ==> '0' <= #[trigger] d[i] <= '9'
}

/// The identifier that a text denotes: an optional `+` and then decimal
/// digits whose value fits in 16 bits.
pub open spec fn u16_text(s: Seq<char>) -> Option<u16> {
    let d = if s.len() > 0 && s[0] == '+' {
        s.drop_first()
    } else {
        s
    };
    if all_digits(d) && decimal_value(d) <= u16::MAX {
        Some(decimal_value(d) as u16)
    } else {
        None
    }
}

/// Relies on u16's `FromStr` (`str::parse`): an optional `+` sign followed by
/// decimal digits whose value fits, and nothing else, parses; all else fails.
#[verifier::external_body]
fn parse_u16(s: &str) -> (r: Option<u16>)
    ensures
        r == u16_text(s@),
{
    s.parse::<u16>().ok()
}

/// Why a command could not be turned into a statement.
#[derive(Debug, PartialEq)]
pub enum PrepareError {
    /// The first word is no known keyword.
    Unrecognized(String),
    /// The command is empty, or an insert lacks one of its three arguments.
    InvalidSyntax,
    /// The identifier of an insert is no 16-bit unsigned number.
    InvalidId,
    /// A text of an insert does not fit its field.
    Row(RowError),
}

/// What turning the words `ws` of a command into a statement gives:
/// `insert <id> <username> <email>`, where words after the third argument are
/// ignored, or `select`, where all words after it are ignored.
pub open spec fn prepared(ws: Seq<Seq<char>>, r: Result<Statement, PrepareError>) -> bool {
    if ws.len() == 0 {
        r == Err::<Statement, PrepareError>(PrepareError::InvalidSyntax)
    } else if ws[0] == "select"@ {
        r is Ok && r->Ok_0.kind is Select
    } else if ws[0] != "insert"@ {
        r is Err && r->Err_0 is Unrecognized && r->Err_0->Unrecognized_0@ == ws[0]
    } else if ws.len() < 4 {
        r == Err::<Statement, PrepareError>(PrepareError::InvalidSyntax)
    } else if u16_text(ws[1]) is None {
        r == Err::<Statement, PrepareError>(PrepareError::InvalidId)
    } else if encode_utf8(ws[2]).len() > USERNAME_SIZE {
        r == Err::<Statement, PrepareError>(PrepareError::Row(RowError::UsernameTooLong))
    } else if encode_utf8(ws[3]).len() > EMAIL_SIZE {
        r == Err::<Statement, PrepareError>(PrepareError::Row(RowError::EmailTooLong))
    } else {
        &&& r is Ok
        &&& r->Ok_0.kind is Insert
        &&& (*r->Ok_0.kind->Insert_0)@ == row_of(
            u16_text(ws[1])->Some_0,
            encode_utf8(ws[2]),
            encode_utf8(ws[3]),
        )
        &&& r->Ok_0.kind->Insert_0.inv()
    }
}

/// The texts of a list of words.
pub open spec fn word_texts(words: Seq<String>) -> Seq<Seq<char>> {
    words.map_values(|w: String| w@)
}

/// Turns the words of a command into a statement.
pub fn prepare_words(words: &Vec<String>) -> (r: Result<Statement, PrepareError>)
    ensures
        prepared(word_texts(words@), r),
{
    let ghost ws = word_texts(words@);
    if words.len() == 0 {
        return Err(PrepareError::InvalidSyntax);
    }
    assert(words@[0]@ == ws[0]);
    let select_kw = "select".to_owned();
    let insert_kw = "insert".to_owned();
    if words[0] == select_kw {
        return Ok(Statement::select());
    }
    if words[0] != insert_kw {
        return Err(PrepareError::Unrecognized(words[0].clone()));
    }
    if words.len() < 4 {
        return Err(PrepareError::InvalidSyntax);
    }
    assert(words@[1]@ == ws[1]);
    assert(words@[2]@ == ws[2]);
    assert(words@[3]@ == ws[3]);
    let id = match parse_u16(words[1].as_str()) {
        Some(id) => id,
        None => {
            return Err(PrepareError::InvalidId);
        },
    };
    match Row::new(id, words[2].as_str(), words[3].as_str()) {
        Ok(row) => Ok(Statement::insert(row)),
        Err(e) => Err(PrepareError::Row(e)),
    }
}

/// Turns a command into a statement, word by word.
pub fn prepare_statement(input: String) -> (r: Result<Statement, PrepareError>)
    ensures
        prepared(words_of(input@), r),
{
    let words = split_words(input.as_str());
    prepare_words(&words)
}

/// Why an operation failed.
#[derive(Debug, Clone, Copy, PartialEq, Eq, Structural)]
pub enum ExecutionError {
    /// The table already holds `TABLE_MAX_ROWS` rows.
    TableFull,
    /// The page store refused a page.
    Pager(PagerError),
}

/// The row models of a sequence of rows.
pub open spec fn row_views(rows: Seq<Row>) -> Seq<(u16, Seq<u8>, Seq<u8>)> {
    rows.map_values(|r: Row| r@)
}

/// Appends `row` after the table's last row; a full table is left unchanged.
pub fn execute_insert(row: Row, table: &mut Table) -> (r: Result<(), ExecutionError>)
    requires
        old(table).wf(),
        row.inv(),
    ensures
        final(table).wf(),
        old(table).row_count >= TABLE_MAX_ROWS ==> r == Err::<(), ExecutionError>(
            ExecutionError::TableFull,
        ) && *final(table) == *old(table),
        old(table).row_count < TABLE_MAX_ROWS ==> r is Ok && final(table).row_count
            == old(table).row_count + 1 && final(table).rows() == old(table).rows().push(row@),
        old(table).row_count < TABLE_MAX_ROWS ==> ({
            let (p, o) = locate(old(table).row_count as int);
            &&& final(table).pager.file@ == old(table).pager.file@
            &&& final(table).pager.resident(p)
            &&& forall|i: int|
                i != p ==> #[trigger] final(table).pager.resident(i) == old(table).pager.resident(i)
                    && final(table).pager.page_view(i) == old(table).pager.page_view(i)
            &&& final(table).pager.page_view(p) == old(table).pager.page_view(p).subrange(0, o)
                + encode_spec(row@) + old(table).pager.page_view(p).subrange(
                o + ROW_SIZE,
                PAGE_SIZE as int,
            )
        }),
{
    if table.row_count >= TABLE_MAX_ROWS {
        return Err(ExecutionError::TableFull);
    }
    let ghost before = *table;
    let cursor = Cursor::at_table_end(table);
    let bytes = row.encode();
    let (page_num, offset) = cursor.position();
    let loaded = table.pager.page(page_num);
    assert(loaded is Ok);
    let ghost loaded_pager = table.pager;
    table.pager.write_bytes(page_num, offset, &bytes);
    table.row_count = table.row_count + 1;
    proof {
        let n = before.row_count as int;
        let page = loaded_pager.page_view(page_num as int);
        assert forall|k: int| 0 <= k < n implies row_at(&table.pager, k) == row_at(&before.pager, k) by {
            assert(loaded_pager.page_view(locate(k).0) == before.pager.page_view(locate(k).0));
            if locate(k).0 == page_num {
                let o = locate(k).1;
                assert(o + ROW_SIZE <= offset || offset + ROW_SIZE <= o);
                assert(table.pager.page_view(page_num as int).subrange(o, o + ROW_SIZE) =~= page.subrange(
                    o,
                    o + ROW_SIZE,
                ));
            }
        }
        assert(table.pager.page_view(page_num as int).subrange(offset as int, offset + ROW_SIZE)
            =~= bytes@);
        lemma_decode_encode(row@);
        assert(table.rows() =~= before.rows().push(row@));
        assert forall|k: int| 0 <= k < table.row_count implies #[trigger] table.row_durable(k) by {
            if k < n {
                assert(before.row_durable(k));
            }
        }
    }
    Ok(())
}

/// A run of successful inserts into an empty table: after `inserted.len()`
/// inserts the table holds that many rows, and they are the inserted rows in
/// the order in which they were inserted. `tables[i]` is the table before the
/// insert of `inserted[i]`, `tables[i + 1]` the table after it.
pub proof fn lemma_inserts_in_order(tables: Seq<Table>, inserted: Seq<(u16, Seq<u8>, Seq<u8>)>)
    requires
        tables.len() == inserted.len() + 1,
        tables[0].row_count == 0,
        forall|i: int|
            0 <= i < inserted.len() ==> (#[trigger] tables[i + 1]).row_count == tables[i].row_count + 1
                && tables[i + 1].rows() == tables[i].rows().push(inserted[i]),
    ensures
        tables.last().row_count == inserted.len(),
        tables.last().rows() == inserted,
    decreases inserted.len(),
{
    if inserted.len() == 0 {
        assert(tables[0].rows() =~= inserted);
    } else {
        let n = inserted.len() - 1;
        lemma_inserts_in_order(tables.subrange(0, n + 1), inserted.subrange(0, n));
        assert(tables.subrange(0, n + 1).last() == tables[n]);
        assert(tables[n + 1] == tables[n as int + 1]);
        assert(tables.last().rows() =~= inserted.subrange(0, n).push(inserted[n]));
        assert(inserted.subrange(0, n).push(inserted[n]) =~= inserted);
    }
}

/// All rows of the table, in row-index order. Pages are loaded as needed; what
/// the table holds does not change.
pub fn execute_select(table: &mut Table) -> (r: Result<Vec<Row>, ExecutionError>)
    requires
        old(table).wf(),
    ensures
        final(table).wf(),
        final(table).row_count == old(table).row_count,
        final(table).pager.file@ == old(table).pager.file@,
        final(table).pager.same_pages(&old(table).pager),
        final(table).rows() == old(table).rows(),
        old(table).row_count <= TABLE_MAX_ROWS ==> r is Ok && row_views(r->Ok_0@) == old(
            table,
        ).rows(),
        old(table).row_count > TABLE_MAX_ROWS ==> r == Err::<Vec<Row>, ExecutionError>(
            ExecutionError::Pager(PagerError::OutOfBounds(TABLE_MAX_PAGES)),
        ),
{
    let ghost before = *table;
    let mut rows: Vec<Row> = Vec::new();
    let mut cursor = Cursor::at_table_start(table);
    while !cursor.end_of_table
        invariant
            before == *old(table),
            table.wf(),
            cursor.wf(),
            cursor.row_count == table.row_count,
            table.row_count == before.row_count,
            table.pager.file@ == before.pager.file@,
            table.pager.same_pages(&before.pager),
            cursor.row_num <= TABLE_MAX_ROWS,
            rows@.len() == cursor.row_num,
            forall|j: int| 0 <= j < rows@.len() ==> (#[trigger] rows@[j])@ == before.rows()[j],
        decreases cursor.row_count - cursor.row_num,
    {
        let (page_num, offset) = cursor.position();
        let ghost prev = *table;
        let loaded = table.pager.page(page_num);
        proof {
            assert forall|k: int| 0 <= k < table.row_count implies #[trigger] table.row_durable(k) by {
                assert(prev.row_durable(k));
            }
        }
        match loaded {
            Err(e) => {
                assert(table.rows() =~= before.rows());
                return Err(ExecutionError::Pager(e));
            },
            Ok(()) => {},
        }
        let row = table.pager.read_row(page_num, offset);
        rows.push(row);
        cursor.advance();
    }
    assert(table.rows() =~= before.rows());
    assert(row_views(rows@) =~= before.rows());
    Ok(rows)
}

} // verus!
