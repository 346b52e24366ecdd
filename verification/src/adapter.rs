//! The sortable view adapter: maps each row to a display string per column
//! and to a total sort order, so a table widget can render and sort rows
//! without seeing their internals.

use crate::row::Row;
use crate::strutil::flip;
use crate::strutil::i64_dec;
use crate::strutil::i64_to_string;
use crate::strutil::lemma_lex_cmp_antisym;
use crate::strutil::lemma_lex_cmp_eq;
use crate::strutil::lemma_lex_cmp_trans;
use crate::strutil::lex_cmp;
use crate::strutil::str_compare;
use crate::table::Table;
use core::cmp::Ordering;
use vstd::prelude::*;

verus! {

/// The placeholder text shown for a missing cell of a short row.
pub open spec fn null_text_spec() -> Seq<char> {
    seq!['<', 'N', 'U', 'L', 'L', '>']
}

/// Runtime counterpart of [`null_text_spec`].
pub fn null_text() -> (r: &'static str)
    ensures
        r@ == null_text_spec(),
{
    proof {
        reveal_strlit("<NULL>");
        assert("<NULL>"@ =~= null_text_spec());
    }
    "<NULL>"
}

/// A column identity: the row-identity pseudo-column (always present,
/// leftmost), or the data column at a position.
#[derive(Copy, Clone, Debug, PartialEq, Eq, Hash)]
pub enum BasicColumn {
    RowId,
    ColumnPos { c: usize },
}

/// Numeric order on integers.
pub open spec fn int_cmp(a: int, b: int) -> Ordering {
    if a < b {
        Ordering::Less
    } else if a == b {
        Ordering::Equal
    } else {
        Ordering::Greater
    }
}

impl Row {
    /// The text this row shows in a column: its identity in decimal, or the
    /// cell's text, or the placeholder where the row is short.
    pub open spec fn to_column_spec(self, column: BasicColumn) -> Seq<char> {
        match column {
            BasicColumn::RowId => i64_dec(self.rowid as int),
            BasicColumn::ColumnPos { c } => self.try_get_spec(c as int, null_text_spec()),
        }
    }

    /// Runtime counterpart of [`Row::to_column_spec`].
    pub fn to_column(&self, column: BasicColumn) -> (r: String)
        ensures
            r@ == self.to_column_spec(column),
    {
        match column {
            BasicColumn::RowId => i64_to_string(self.rowid),
            BasicColumn::ColumnPos { c } => String::from_str(self.try_get(c, null_text())),
        }
    }

    /// The sort order of two rows in a column: numeric on identities for
    /// the row-identity column, lexicographic on the raw cell texts for a
    /// data column, a missing cell comparing as the placeholder.
    pub open spec fn compare_spec(self, other: Row, column: BasicColumn) -> Ordering {
        match column {
            BasicColumn::RowId => int_cmp(self.rowid as int, other.rowid as int),
            BasicColumn::ColumnPos { c } => lex_cmp(
                self.try_get_spec(c as int, null_text_spec()),
                other.try_get_spec(c as int, null_text_spec()),
            ),
        }
    }

    /// Runtime counterpart of [`Row::compare_spec`]; it never panics, also
    /// on a column position past either row's cells.
    pub fn compare(&self, other: &Row, column: BasicColumn) -> (r: Ordering)
        ensures
            r == self.compare_spec(*other, column),
    {
        match column {
            BasicColumn::RowId => {
                if self.rowid < other.rowid {
                    Ordering::Less
                } else if self.rowid == other.rowid {
                    Ordering::Equal
                } else {
                    Ordering::Greater
                }
            },
            BasicColumn::ColumnPos { c } => {
                let missing = null_text();
                str_compare(self.try_get(c, missing), other.try_get(c, missing))
            },
        }
    }
}

/// Law: in the row-identity column, the rows of a loaded table sort exactly
/// in insertion order — identities are the contiguous 0-based indices.
pub proof fn lemma_rowid_sort_is_insertion_order(t: Table, i: int, j: int)
    requires
        t.wf_loading(),
        0 <= i < t.rows.len(),
        0 <= j < t.rows.len(),
    ensures
        t.rows[i].compare_spec(t.rows[j], BasicColumn::RowId) == int_cmp(i, j),
{
}

/// Law: comparing two rows the other way round flips the result; in
/// particular the order is antisymmetric.
pub proof fn lemma_compare_antisym(x: Row, y: Row, column: BasicColumn)
    ensures
        y.compare_spec(x, column) == flip(x.compare_spec(y, column)),
{
    match column {
        BasicColumn::RowId => {},
        BasicColumn::ColumnPos { c } => {
            lemma_lex_cmp_antisym(
                x.try_get_spec(c as int, null_text_spec()),
                y.try_get_spec(c as int, null_text_spec()),
            );
        },
    }
}

/// Law: in a data column two rows compare equal exactly when they show the
/// same text there (the placeholder standing in for a missing cell).
pub proof fn lemma_compare_equal_iff_same_text(x: Row, y: Row, c: usize)
    ensures
        (x.compare_spec(y, BasicColumn::ColumnPos { c }) == Ordering::Equal) <==> (x.try_get_spec(
            c as int,
            null_text_spec(),
        ) == y.try_get_spec(c as int, null_text_spec())),
{
    lemma_lex_cmp_eq(
        x.try_get_spec(c as int, null_text_spec()),
        y.try_get_spec(c as int, null_text_spec()),
    );
}

/// Law: the order is transitive.
pub proof fn lemma_compare_trans(x: Row, y: Row, z: Row, column: BasicColumn)
    requires
        x.compare_spec(y, column) == Ordering::Less,
        y.compare_spec(z, column) == Ordering::Less,
    ensures
        x.compare_spec(z, column) == Ordering::Less,
{
    match column {
        BasicColumn::RowId => {},
        BasicColumn::ColumnPos { c } => {
            lemma_lex_cmp_trans(
                x.try_get_spec(c as int, null_text_spec()),
                y.try_get_spec(c as int, null_text_spec()),
                z.try_get_spec(c as int, null_text_spec()),
            );
        },
    }
}

/// Law: a short row renders and sorts in a data column as if it held the
/// placeholder text at the missing position.
pub proof fn lemma_short_row_is_placeholder(x: Row, c: usize)
    requires
        c >= x.cells.len(),
    ensures
        x.to_column_spec(BasicColumn::ColumnPos { c }) == null_text_spec(),
{
}

/// Law: a data column sorts by exactly the texts it displays.
pub proof fn lemma_compare_matches_to_column(x: Row, y: Row, c: usize)
    ensures
        x.compare_spec(y, BasicColumn::ColumnPos { c }) == lex_cmp(
            x.to_column_spec(BasicColumn::ColumnPos { c }),
            y.to_column_spec(BasicColumn::ColumnPos { c }),
        ),
{
}

} // verus!
