use dbonk::row::{Row, RowError};
use dbonk::statement::{prepare_statement, prepare_words, PrepareError, StatementType};

fn inserted(input: &str) -> Row {
    match prepare_statement(input.to_string()).unwrap().kind {
        StatementType::Insert(row) => *row,
        StatementType::Select => panic!("expected an insert"),
    }
}

#[test]
fn insert_command_builds_row() {
    let row = inserted("insert 17 bob bob@example.com");
    assert!(row == Row::new(17, "bob", "bob@example.com").unwrap());
    assert_eq!(row.id(), 17);
    assert_eq!(row.username(), b"bob".to_vec());
}

#[test]
fn insert_command_ignores_extra_words_and_spacing() {
    let row = inserted("   insert\t+5   ann  ann@x.org  trailing words");
    assert!(row == Row::new(5, "ann", "ann@x.org").unwrap());
}

#[test]
fn select_command_ignores_arguments() {
    let s = prepare_statement("select everything now".to_string()).unwrap();
    assert!(matches!(s.kind, StatementType::Select));
    let s = prepare_statement("  select".to_string()).unwrap();
    assert!(matches!(s.kind, StatementType::Select));
}

#[test]
fn unknown_keyword_is_reported() {
    let e = prepare_statement("delete 1".to_string()).err().unwrap();
    assert_eq!(e, PrepareError::Unrecognized("delete".to_string()));
}

#[test]
fn empty_command_is_invalid() {
    assert_eq!(prepare_statement(String::new()).err(), Some(PrepareError::InvalidSyntax));
    assert_eq!(prepare_statement("  \t ".to_string()).err(), Some(PrepareError::InvalidSyntax));
}

#[test]
fn insert_needs_three_arguments() {
    assert_eq!(
        prepare_statement("insert 1 bob".to_string()).err(),
        Some(PrepareError::InvalidSyntax)
    );
}

#[test]
fn insert_identifier_must_be_u16() {
    for bad in ["x", "70000", "-1", "+", "65536", "1.5"] {
        let e = prepare_statement(format!("insert {} a b", bad)).err();
        assert_eq!(e, Some(PrepareError::InvalidId), "{}", bad);
    }
    assert_eq!(inserted("insert 65535 a b").id(), 65535);
    assert_eq!(inserted("insert 007 a b").id(), 7);
}

#[test]
fn insert_texts_must_fit() {
    let long_name = "n".repeat(33);
    let e = prepare_statement(format!("insert 1 {} e", long_name)).err();
    assert_eq!(e, Some(PrepareError::Row(RowError::UsernameTooLong)));
    let long_mail = "m".repeat(256);
    let e = prepare_statement(format!("insert 1 u {}", long_mail)).err();
    assert_eq!(e, Some(PrepareError::Row(RowError::EmailTooLong)));
    let row = inserted(&format!("insert 1 {} {}", "n".repeat(32), "m".repeat(255)));
    assert_eq!(row.username().len(), 32);
    assert_eq!(row.email().len(), 255);
}

fn words(ws: &[&str]) -> Vec<String> {
    ws.iter().map(|w| w.to_string()).collect()
}

#[test]
fn prepare_words_builds_statements() {
    match prepare_words(&words(&["insert", "3", "alice", "a@b.c"])).unwrap().kind {
        StatementType::Insert(row) => assert!(*row == Row::new(3, "alice", "a@b.c").unwrap()),
        StatementType::Select => panic!("expected an insert"),
    }
    let s = prepare_words(&words(&["select"])).unwrap();
    assert!(matches!(s.kind, StatementType::Select));
}

#[test]
fn prepare_words_reports_each_error() {
    assert_eq!(prepare_words(&Vec::new()).err(), Some(PrepareError::InvalidSyntax));
    assert_eq!(
        prepare_words(&words(&["insert", "1", "bob"])).err(),
        Some(PrepareError::InvalidSyntax)
    );
    assert_eq!(
        prepare_words(&words(&["insert", "x1", "bob", "e"])).err(),
        Some(PrepareError::InvalidId)
    );
    assert_eq!(
        prepare_words(&words(&["update"])).err(),
        Some(PrepareError::Unrecognized("update".to_string()))
    );
    let long = "u".repeat(40);
    assert_eq!(
        prepare_words(&words(&["insert", "1", long.as_str(), "e"])).err(),
        Some(PrepareError::Row(RowError::UsernameTooLong))
    );
}
