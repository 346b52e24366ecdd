use csvview::row::Row;
use csvview::table::Table;

#[test]
fn scenario_short_row() {
    let t = Table::from_text("a,b\n1,2\n3\n");
    assert_eq!(t.header_names(), vec!["a".to_string(), "b".to_string()]);
    assert_eq!(t.num_cols(), 2);
    assert_eq!(t.num_rows(), 2);
    assert_eq!(t.rows[0].to_strings(), vec!["1".to_string(), "2".to_string()]);
    assert_eq!(t.rows[1].to_strings(), vec!["3".to_string()]);
    assert_eq!(t.rows[0].rowid(), 0);
    assert_eq!(t.rows[1].rowid(), 1);
}

#[test]
fn scenario_empty_header_field() {
    let t = Table::from_text("x,,z\n");
    assert_eq!(
        t.header_names(),
        vec!["x".to_string(), "col:1".to_string(), "z".to_string()]
    );
    assert_eq!(t.num_cols(), 3);
    assert_eq!(t.num_rows(), 0);
}

#[test]
fn scenario_empty_header_line_padded() {
    let t = Table::from_text("\n1,2,3\n");
    assert_eq!(
        t.header_names(),
        vec!["col:0".to_string(), "col:1".to_string(), "col:2".to_string()]
    );
    assert_eq!(t.num_cols(), 3);
    assert_eq!(t.num_rows(), 1);
}

#[test]
fn scenario_only_blank_lines() {
    let t = Table::from_text("h1,h2\n\n\n");
    assert_eq!(t.num_rows(), 0);
    assert_eq!(t.num_cols(), 2);
    assert_eq!(t.header_names(), vec!["h1".to_string(), "h2".to_string()]);
}

#[test]
fn header_wider_than_rows() {
    let t = Table::from_text("a,b,c\n1\n");
    assert_eq!(t.num_cols(), 3);
    assert_eq!(t.header.num_cols(), 3);
    assert_eq!(t.rows[0].num_cols(), 1);
}

#[test]
fn crlf_line_endings() {
    let t = Table::from_text("a,b\r\n1,2\r\n\r\n");
    assert_eq!(t.header_names(), vec!["a".to_string(), "b".to_string()]);
    assert_eq!(t.num_rows(), 1);
    assert_eq!(t.rows[0].to_strings(), vec!["1".to_string(), "2".to_string()]);
}

#[test]
fn no_trailing_newline() {
    let t = Table::from_text("a\n1");
    assert_eq!(t.num_rows(), 1);
    assert_eq!(t.rows[0].to_strings(), vec!["1".to_string()]);
}

#[test]
fn empty_text_gives_one_synthesized_column() {
    let t = Table::from_text("");
    assert_eq!(t.num_rows(), 0);
    assert_eq!(t.num_cols(), 1);
    assert_eq!(t.header_names(), vec!["col:0".to_string()]);
}

#[test]
fn from_line_splits_and_trims() {
    let r = Row::from_line(" a , b ,c");
    assert_eq!(r.num_cols(), 3);
    assert_eq!(
        r.to_strings(),
        vec!["a".to_string(), "b".to_string(), "c".to_string()]
    );
    assert_eq!(r.rowid(), -1);
}

#[test]
fn from_line_empty_line_gives_one_empty_cell() {
    let r = Row::from_line("");
    assert_eq!(r.num_cols(), 1);
    assert_eq!(r.to_strings(), vec!["".to_string()]);
}

#[test]
fn from_line_consecutive_delimiters() {
    let r = Row::from_line("a,,b,");
    assert_eq!(r.num_cols(), 4);
    assert_eq!(
        r.to_strings(),
        vec!["a".to_string(), "".to_string(), "b".to_string(), "".to_string()]
    );
}

#[test]
fn cells_trim_unicode_whitespace() {
    let r = Row::from_line("\u{000C}a,\u{00A0}b\u{3000},\u{2003}c");
    assert_eq!(
        r.to_strings(),
        vec!["a".to_string(), "b".to_string(), "c".to_string()]
    );
}

#[test]
fn whitespace_only_line_is_not_blank() {
    let t = Table::from_text("h\n \n");
    assert_eq!(t.num_rows(), 1);
    assert_eq!(t.rows[0].to_strings(), vec!["".to_string()]);
}
