use dbonk::cursor::Cursor;
use dbonk::layout::{PAGE_SIZE, ROWS_PER_PAGE, ROW_SIZE, TABLE_MAX_PAGES, TABLE_MAX_ROWS};
use dbonk::pager::{locate_row, Pager, PagerError};
use dbonk::row::{Row, RowError};
use dbonk::statement::{execute_insert, execute_select, ExecutionError, Statement, StatementType};
use dbonk::table::Table;

fn empty_table() -> Table {
    Table::new(Pager::new(Vec::new()))
}

fn sample(i: u16) -> Row {
    Row::new(i, &format!("user{}", i), &format!("user{}@example.com", i)).unwrap()
}

#[test]
fn execute_select_with_data_succeeds() {
    let mut table = empty_table();
    for _ in 0..5 {
        execute_insert(Row::default(), &mut table).unwrap();
    }
    let rows = execute_select(&mut table).unwrap();
    assert_eq!(rows.len(), 5);
}

#[test]
fn execute_insert_exceeding_row_limit_fails() {
    let mut table = empty_table();
    for _ in 0..TABLE_MAX_ROWS {
        let row = Row::new(u16::MAX, "a".repeat(32).as_str(), "a".repeat(255).as_str()).unwrap();
        execute_insert(row, &mut table).unwrap();
    }
    let result = execute_insert(Row::default(), &mut table);
    assert!(result.is_err());
}

#[test]
fn oversized_fields_are_rejected() {
    let r = Row::new(u16::MAX, "a".repeat(33).as_str(), "a".repeat(256).as_str());
    assert_eq!(r.err(), Some(RowError::UsernameTooLong));
    let r = Row::new(1, "a".repeat(32).as_str(), "a".repeat(256).as_str());
    assert_eq!(r.err(), Some(RowError::EmailTooLong));
    assert!(Row::new(1, "a".repeat(32).as_str(), "a".repeat(255).as_str()).is_ok());
}

#[test]
fn round_trip_keeps_identifier_and_texts() {
    let row = Row::new(4242, "alice", "alice@example.com").unwrap();
    let bytes = row.encode();
    assert_eq!(bytes.len(), ROW_SIZE);
    let back = Row::decode(&bytes, 0);
    assert!(back == row);
    assert_eq!(back.id(), 4242);
    assert_eq!(back.username(), b"alice".to_vec());
    assert_eq!(back.email(), b"alice@example.com".to_vec());
}

#[test]
fn encoding_is_big_endian_and_zero_padded() {
    let row = Row::new(0x0102, "ab", "c").unwrap();
    let bytes = row.encode();
    assert_eq!(bytes[0], 1);
    assert_eq!(bytes[1], 2);
    assert_eq!(&bytes[2..4], b"ab");
    assert!(bytes[4..34].iter().all(|b| *b == 0));
    assert_eq!(bytes[34], b'c');
    assert!(bytes[35..289].iter().all(|b| *b == 0));
}

#[test]
fn default_row_is_all_zero() {
    let row = Row::default();
    assert_eq!(row.id(), 0);
    assert!(row.username().is_empty());
    assert!(row.encode().iter().all(|b| *b == 0));
}

#[test]
fn locator_crosses_page_boundary() {
    assert_eq!(ROWS_PER_PAGE, 14);
    assert_eq!(locate_row(13), (0, 13 * 289));
    assert_eq!(locate_row(14), (1, 0));
    let table = empty_table();
    assert_eq!(table.row_slot(13), (0, 3757));
    assert_eq!(table.pager.row_location(29), (2, 289));
}

#[test]
fn inserts_are_read_back_in_order() {
    let mut table = empty_table();
    for i in 0..20u16 {
        execute_insert(sample(i), &mut table).unwrap();
        assert_eq!(table.row_count, i as usize + 1);
    }
    let rows = execute_select(&mut table).unwrap();
    assert_eq!(rows.len(), 20);
    for (i, row) in rows.iter().enumerate() {
        assert!(*row == sample(i as u16));
    }
}

#[test]
fn full_table_rejects_insert_and_keeps_count() {
    let mut table = empty_table();
    for i in 0..TABLE_MAX_ROWS {
        execute_insert(sample(i as u16), &mut table).unwrap();
    }
    assert_eq!(table.row_count, 1400);
    let result = execute_insert(sample(7), &mut table);
    assert_eq!(result, Err(ExecutionError::TableFull));
    assert_eq!(table.row_count, 1400);
}

#[test]
fn close_then_reopen_keeps_rows() {
    let mut table = empty_table();
    for i in 0..5u16 {
        execute_insert(sample(i), &mut table).unwrap();
    }
    table.close();
    assert_eq!(table.pager.file.len(), PAGE_SIZE);
    let mut reopened = Table::new(Pager::new(table.pager.file.clone()));
    // The whole first page is written, so the zero padding after the fifth
    // row reads back as empty rows.
    assert_eq!(reopened.row_count, PAGE_SIZE / ROW_SIZE);
    let rows = execute_select(&mut reopened).unwrap();
    for i in 0..5usize {
        assert!(rows[i] == sample(i as u16));
    }
    for row in &rows[5..] {
        assert!(*row == Row::default());
    }
}

#[test]
fn close_writes_every_page_holding_rows() {
    let mut table = empty_table();
    for i in 0..30u16 {
        execute_insert(sample(i), &mut table).unwrap();
    }
    table.close();
    assert_eq!(table.pager.file.len(), 3 * PAGE_SIZE);
    let mut reopened = Table::new(Pager::new(table.pager.file.clone()));
    let rows = execute_select(&mut reopened).unwrap();
    for i in 0..30usize {
        assert!(rows[i] == sample(i as u16));
    }
}

#[test]
fn empty_file_has_no_rows() {
    let mut table = empty_table();
    assert_eq!(table.row_count, 0);
    let cursor = Cursor::at_table_start(&table);
    assert!(cursor.end_of_table);
    let rows = execute_select(&mut table).unwrap();
    assert!(rows.is_empty());
}

#[test]
fn cursor_walks_to_the_end() {
    let mut table = empty_table();
    for i in 0..3u16 {
        execute_insert(sample(i), &mut table).unwrap();
    }
    let mut cursor = Cursor::at_table_start(&table);
    assert!(!cursor.end_of_table);
    assert_eq!(cursor.position(), (0, 0));
    cursor.advance();
    assert_eq!(cursor.position(), (0, 289));
    cursor.advance();
    assert!(!cursor.end_of_table);
    cursor.advance();
    assert!(cursor.end_of_table);
    let end = Cursor::at_table_end(&table);
    assert!(end.end_of_table);
    assert_eq!(end.position(), (0, 3 * 289));
}

#[test]
fn partial_trailing_record_is_dropped() {
    let row = sample(9);
    let mut file = row.encode();
    file.extend(sample(10).encode());
    file.extend(vec![7u8; 10]);
    let mut table = Table::new(Pager::new(file));
    assert_eq!(table.row_count, 2);
    let rows = execute_select(&mut table).unwrap();
    assert_eq!(rows.len(), 2);
    assert!(rows[0] == sample(9));
    assert!(rows[1] == sample(10));
}

#[test]
fn page_loads_from_file_and_past_its_end() {
    let mut file = vec![0u8; PAGE_SIZE];
    file.extend(vec![5u8; 100]);
    let mut pager = Pager::new(file);
    assert!(!pager.is_resident(1));
    pager.page(1).unwrap();
    assert!(pager.is_resident(1));
    let page = pager.pages[1].as_ref().unwrap();
    assert_eq!(page.len(), PAGE_SIZE);
    assert_eq!(page[99], 5);
    assert_eq!(page[100], 0);
    pager.page(7).unwrap();
    assert!(pager.pages[7].as_ref().unwrap().iter().all(|b| *b == 0));
}

#[test]
fn page_out_of_bounds_is_refused() {
    let mut pager = Pager::new(Vec::new());
    assert_eq!(pager.page(TABLE_MAX_PAGES), Err(PagerError::OutOfBounds(100)));
    assert!(pager.page(TABLE_MAX_PAGES - 1).is_ok());
}

#[test]
fn flush_of_absent_page_is_refused() {
    let mut pager = Pager::new(Vec::new());
    assert_eq!(pager.flush_page(0), Err(PagerError::NoBytes));
    assert!(pager.file.is_empty());
    pager.page(2).unwrap();
    assert_eq!(pager.flush_page(2), Ok(()));
    assert_eq!(pager.file.len(), 3 * PAGE_SIZE);
    assert_eq!(pager.file_len(), 3 * PAGE_SIZE);
}

#[test]
fn oversized_file_fails_select() {
    let mut table = Table::new(Pager::new(vec![0u8; (TABLE_MAX_PAGES + 1) * PAGE_SIZE]));
    assert!(table.row_count > TABLE_MAX_ROWS);
    let result = execute_select(&mut table);
    assert_eq!(
        result.err(),
        Some(ExecutionError::Pager(PagerError::OutOfBounds(TABLE_MAX_PAGES)))
    );
    assert_eq!(execute_insert(Row::default(), &mut table), Err(ExecutionError::TableFull));
}

#[test]
fn statements_carry_their_request() {
    let s = Statement::insert(sample(3));
    match s.kind {
        StatementType::Insert(row) => assert!(*row == sample(3)),
        StatementType::Select => panic!("expected an insert"),
    }
    assert!(matches!(Statement::select().kind, StatementType::Select));
}

#[test]
fn insert_leaves_file_until_close() {
    let mut table = empty_table();
    execute_insert(sample(1), &mut table).unwrap();
    assert!(table.pager.file.is_empty());
    assert!(table.pager.is_resident(0));
    let page = table.pager.pages[0].as_ref().unwrap();
    assert_eq!(&page[0..ROW_SIZE], sample(1).encode().as_slice());
    assert!(!table.pager.is_resident(1));
}

#[test]
fn close_on_empty_table_writes_nothing() {
    let mut table = empty_table();
    table.close();
    assert!(table.pager.file.is_empty());
}

#[test]
fn second_close_changes_nothing() {
    let mut table = empty_table();
    for i in 0..17u16 {
        execute_insert(sample(i), &mut table).unwrap();
    }
    table.close();
    let first = table.pager.file.clone();
    assert_eq!(first.len(), 2 * PAGE_SIZE);
    table.close();
    assert_eq!(table.pager.file, first);
}

#[test]
fn close_keeps_pages_it_does_not_write() {
    let mut file = vec![0u8; 2 * PAGE_SIZE];
    file[PAGE_SIZE + 5] = 9;
    let mut table = Table::new(Pager::new(file));
    assert_eq!(table.row_count, 2 * PAGE_SIZE / ROW_SIZE);
    execute_insert(sample(2), &mut table).unwrap();
    // Only the page of the new row is resident, so only it is written.
    assert!(table.pager.is_resident(2));
    table.close();
    assert_eq!(table.pager.file.len(), 3 * PAGE_SIZE);
    assert_eq!(table.pager.file[PAGE_SIZE + 5], 9);
}
