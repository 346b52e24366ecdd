use csvview::cell::Cell;
use csvview::table::Table;

#[test]
fn col_width_is_widest_cell() {
    let t = Table::from_text("ab,c\nlongcell,x\nmid,yy\n");
    assert_eq!(t.col_width(0), 8);
    assert_eq!(t.col_width(1), 2);
    assert_eq!(t.col_width(5), 0);
}

#[test]
fn short_rows_contribute_nothing() {
    let t = Table::from_text("a,b\nonly\n");
    assert_eq!(t.col_width(0), 4);
    assert_eq!(t.col_width(1), 0);
}

#[test]
fn display_width_formula() {
    let t = Table::from_text("ab,c\nlongcell,x\n");
    // max(max(8, 6) + 2, 2 + 4) = 10
    assert_eq!(t.col_width2(0, 6, 2, 4), 10);
    // max(max(1, 6) + 2, 1 + 4) = 8
    assert_eq!(t.col_width2(1, 6, 2, 4), 8);
    // a wide header wins: max(max(8, 0) + 0, 2 + 12) = 14
    assert_eq!(t.col_width2(0, 0, 0, 12), 14);
}

#[test]
fn total_width_is_sum_of_display_widths() {
    let t = Table::from_text("ab,c\nlongcell,x\n");
    let w0 = t.col_width2(0, 6, 2, 6);
    let w1 = t.col_width2(1, 6, 2, 6);
    assert_eq!(t.sum_colwidth2(6, 2, 6), w0 + w1);
    assert_eq!(t.sum_colwidth2(6, 2, 6), 10 + 8);
}

#[test]
fn rowid_width_is_last_id_width() {
    let t = Table::from_text("h\n1\n2\n3\n");
    // last rowid is 2, one digit
    assert_eq!(t.rowid_width(), 1);
    let empty = Table::from_text("h\n");
    assert_eq!(empty.rowid_width(), 0);
    let mut text = String::from("h\n");
    for i in 0..11 {
        text.push_str(&format!("{}\n", i));
    }
    let wide = Table::from_text(&text);
    // last rowid is 10, two digits
    assert_eq!(wide.rowid_width(), 2);
}

#[test]
fn rowid_column_covers_label_and_ids() {
    let t = Table::from_text("h\n1\n2\n");
    // "rowid" is five characters; the padded label wins over the one-digit ids
    assert_eq!(t.rowid_col_width(4), 9);
    assert_eq!(t.rowid_col_width(0), 5);
}

#[test]
fn synthesized_labels_use_two_digit_positions() {
    let t = Table::from_text(",,,,,,,,,,\n");
    assert_eq!(t.num_cols(), 11);
    let names = t.header_names();
    assert_eq!(names[0], "col:0");
    assert_eq!(names[10], "col:10");
}

#[test]
fn cell_len_counts_characters() {
    let c = Cell::from_string("  hello ");
    assert_eq!(c.len(), 5);
    assert_eq!(c.text(), "hello");
    let empty = Cell::from_string(" \t ");
    assert_eq!(empty.len(), 0);
}

#[test]
fn cell_set_value_replaces_exactly() {
    let mut c = Cell::from_string("old");
    c.set_value("new value");
    assert_eq!(c.text(), "new value");
}

#[test]
fn row_cell_width_zero_when_short() {
    let t = Table::from_text("a,b\nxy\n");
    assert_eq!(t.rows[0].cell_width(0), 2);
    assert_eq!(t.rows[0].cell_width(1), 0);
}
