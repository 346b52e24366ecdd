use csvview::adapter::BasicColumn;
use csvview::error::Error;
use csvview::strutil;
use csvview::table::Table;
use std::cmp::Ordering;

#[test]
fn rowid_column_sorts_in_insertion_order() {
    let t = Table::from_text("h\nc\nb\na\n");
    let col = BasicColumn::RowId;
    assert_eq!(t.rows[0].compare(&t.rows[1], col), Ordering::Less);
    assert_eq!(t.rows[2].compare(&t.rows[1], col), Ordering::Greater);
    assert_eq!(t.rows[1].compare(&t.rows[1], col), Ordering::Equal);
    assert_eq!(t.rows[0].to_column(col), "0");
    assert_eq!(t.rows[2].to_column(col), "2");
}

#[test]
fn data_column_sorts_lexicographically() {
    let t = Table::from_text("h\n10\n9\nabc\nabd\n");
    let col = BasicColumn::ColumnPos { c: 0 };
    // textual, not numeric: "10" < "9"
    assert_eq!(t.rows[0].compare(&t.rows[1], col), Ordering::Less);
    assert_eq!(t.rows[2].compare(&t.rows[3], col), Ordering::Less);
    assert_eq!(t.rows[3].compare(&t.rows[2], col), Ordering::Greater);
    assert_eq!(t.rows[2].compare(&t.rows[2], col), Ordering::Equal);
}

#[test]
fn missing_cell_renders_and_sorts_as_placeholder() {
    let t = Table::from_text("a,b\n1,2\n3\n");
    let col = BasicColumn::ColumnPos { c: 1 };
    assert_eq!(t.rows[1].to_column(col), "<NULL>");
    assert_eq!(t.rows[0].to_column(col), "2");
    // '2' (0x32) < '<' (0x3c): the real cell sorts before the placeholder
    assert_eq!(t.rows[0].compare(&t.rows[1], col), Ordering::Less);
    // both rows short: equal as placeholders
    assert_eq!(t.rows[1].compare(&t.rows[1], col), Ordering::Equal);
    // a column past every row never panics
    let far = BasicColumn::ColumnPos { c: 9 };
    assert_eq!(t.rows[0].compare(&t.rows[1], far), Ordering::Equal);
    assert_eq!(t.rows[0].to_column(far), "<NULL>");
}

#[test]
fn data_column_order_is_transitive() {
    let t = Table::from_text("h\nalpha\nbeta\ngamma\n");
    let col = BasicColumn::ColumnPos { c: 0 };
    assert_eq!(t.rows[0].compare(&t.rows[1], col), Ordering::Less);
    assert_eq!(t.rows[1].compare(&t.rows[2], col), Ordering::Less);
    assert_eq!(t.rows[0].compare(&t.rows[2], col), Ordering::Less);
    assert_eq!(t.rows[2].compare(&t.rows[0], col), Ordering::Greater);
}

#[test]
fn header_rowid_is_sentinel() {
    let t = Table::from_text("a,b\n1,2\n");
    assert_eq!(t.header.rowid(), -1);
    assert_eq!(t.header.rowid_str(), "-1");
}

#[test]
fn str_compare_orders_strings() {
    assert_eq!(strutil::str_compare("abc", "abd"), Ordering::Less);
    assert_eq!(strutil::str_compare("ab", "abc"), Ordering::Less);
    assert_eq!(strutil::str_compare("b", "abc"), Ordering::Greater);
    assert_eq!(strutil::str_compare("", ""), Ordering::Equal);
    assert_eq!(strutil::str_compare("same", "same"), Ordering::Equal);
}

#[test]
fn split_str_keeps_empty_fields() {
    let parts = strutil::split_str("a,,b,", ',');
    assert_eq!(
        parts,
        vec!["a".to_string(), "".to_string(), "b".to_string(), "".to_string()]
    );
    assert_eq!(strutil::split_str("", ','), vec!["".to_string()]);
}

#[test]
fn trim_str_strips_both_ends() {
    assert_eq!(strutil::trim_str("  x  "), "x");
    assert_eq!(strutil::trim_str("\t a b \r\n"), "a b");
    assert_eq!(strutil::trim_str(""), "");
    assert_eq!(strutil::trim_str(" \t "), "");
}

#[test]
fn trim_str_strips_unicode_whitespace() {
    // the same set str::trim removes
    assert_eq!(strutil::trim_str("\u{000C}a"), "a");
    assert_eq!(strutil::trim_str("\u{000B}b\u{000B}"), "b");
    assert_eq!(strutil::trim_str("\u{00A0}x\u{3000}"), "x");
    assert_eq!(strutil::trim_str("\u{2003}hi\u{2028}"), "hi");
    assert_eq!(strutil::trim_str("\u{0085}\u{202F}\u{205F}\u{1680}"), "");
    assert_eq!("\u{000C}a".trim(), strutil::trim_str("\u{000C}a"));
    // interior whitespace is kept
    assert_eq!(strutil::trim_str(" a\u{00A0}b "), "a\u{00A0}b");
}

#[test]
fn decimal_rendering() {
    assert_eq!(strutil::u64_to_string(0), "0");
    assert_eq!(strutil::u64_to_string(7), "7");
    assert_eq!(strutil::u64_to_string(1234567890), "1234567890");
    assert_eq!(strutil::i64_to_string(-42), "-42");
    assert_eq!(strutil::i64_to_string(-1), "-1");
    assert_eq!(strutil::i64_to_string(10), "10");
}

#[test]
fn file_error_carries_exact_path() {
    let e = Error::from_bad_file("data/missing.csv", "No such file or directory");
    let msg = e.get_message().unwrap();
    assert_eq!(
        msg,
        "could not open 'data/missing.csv': No such file or directory"
    );
    assert!(msg.contains("data/missing.csv"));
    assert_eq!(e.exit_code(), 1);
}

#[test]
fn exit_code_error_has_no_message() {
    let e = Error::ExitCode(3);
    assert!(e.get_message().is_none());
    assert_eq!(e.exit_code(), 3);
}

#[test]
fn try_get_returns_cell_or_missing() {
    let t = Table::from_text("a,b\n1,2\n3\n");
    assert_eq!(t.rows[0].try_get(1, "?"), "2");
    assert_eq!(t.rows[1].try_get(1, "?"), "?");
}
