//! A row of cells with a stable identity.

use crate::cell::Cell;
use crate::strutil::count_char;
use crate::strutil::i64_dec;
use crate::strutil::i64_to_string;
use crate::strutil::is_trimmed;
use crate::strutil::lemma_split_char_count;
use crate::strutil::lemma_trim_spec_trimmed;
use crate::strutil::split_char;
use crate::strutil::split_str;
use crate::strutil::trim_spec;
use vstd::prelude::*;

verus! {

/// The cell texts one delimited line parses to: the line split at every
/// comma, each field trimmed of surrounding whitespace.
pub open spec fn line_cells(s: Seq<char>) -> Seq<Seq<char>> {
    split_char(s, ',').map_values(|f: Seq<char>| trim_spec(f))
}

/// An ordered sequence of cells plus a stable identity: the row's insertion
/// index, or -1 before insertion (the header keeps -1 forever).
#[derive(Clone, Debug)]
pub struct Row {
    pub cells: Vec<Cell>,
    pub rowid: i64,
}

impl Row {
    /// The sequence of cell texts.
    pub open spec fn cells_view(self) -> Seq<Seq<char>> {
        self.cells.deep_view()
    }

    /// The row's identity.
    pub fn rowid(&self) -> (r: i64)
        ensures
            r == self.rowid,
    {
        self.rowid
    }

    /// The row's identity rendered in decimal.
    pub fn rowid_str(&self) -> (r: String)
        ensures
            r@ == i64_dec(self.rowid as int),
    {
        i64_to_string(self.rowid)
    }

    /// The number of cells this row holds.
    pub fn num_cols(&self) -> (n: usize)
        ensures
            n == self.cells.len(),
    {
        self.cells.len()
    }

    /// Copies of all cell texts, in order.
    pub fn to_strings(&self) -> (r: Vec<String>)
        ensures
            r.deep_view() == self.cells_view(),
    {
        let mut r: Vec<String> = Vec::new();
        let mut i: usize = 0;
        while i < self.cells.len()
            invariant
                0 <= i <= self.cells.len(),
                r@.len() == i,
                forall|k: int| 0 <= k < i ==> r@[k]@ == self.cells[k]@,
            decreases self.cells.len() - i,
        {
            r.push(String::from_str(self.cells[i].text()));
            i = i + 1;
        }
        proof {
            assert(r.deep_view() =~~= self.cells_view());
        }
        r
    }

    /// Appends one cell, leaving the identity unchanged.
    pub fn add_cell(&mut self, cell: Cell)
        ensures
            final(self).cells@ == old(self).cells@.push(cell),
            final(self).rowid == old(self).rowid,
    {
        self.cells.push(cell);
    }

    /// The width this row contributes at column `c`: the cell's length in
    /// characters, or zero where the row is short.
    pub open spec fn cell_width_spec(self, c: int) -> nat {
        if 0 <= c < self.cells.len() {
            self.cells[c]@.len()
        } else {
            0
        }
    }

    /// Runtime counterpart of [`Row::cell_width_spec`].
    pub fn cell_width(&self, c: usize) -> (n: usize)
        ensures
            n == self.cell_width_spec(c as int),
    {
        if c < self.cells.len() {
            self.cells[c].len()
        } else {
            0
        }
    }

    /// The cell text at `c`, or `missing` where the row is short.
    pub open spec fn try_get_spec(self, c: int, missing: Seq<char>) -> Seq<char> {
        if 0 <= c < self.cells.len() {
            self.cells[c]@
        } else {
            missing
        }
    }

    /// Runtime counterpart of [`Row::try_get_spec`].
    pub fn try_get<'a>(&'a self, c: usize, missing: &'a str) -> (r: &'a str)
        ensures
            r@ == self.try_get_spec(c as int, missing@),
    {
        if c < self.cells.len() {
            self.cells[c].text()
        } else {
            missing
        }
    }

    /// Parses one delimited line into a row of trimmed cells, with the
    /// identity still unassigned.
    pub fn from_line(s: &str) -> (r: Row)
        ensures
            r.rowid == -1,
            r.cells_view() == line_cells(s@),
    {
        let fields = split_str(s, ',');
        let mut row = Row { cells: Vec::new(), rowid: -1i64 };
        let mut i: usize = 0;
        while i < fields.len()
            invariant
                0 <= i <= fields.len(),
                row.rowid == -1,
                fields.deep_view() == split_char(s@, ','),
                row.cells.len() == i,
                forall|k: int| 0 <= k < i ==> row.cells[k]@ == trim_spec(
                    fields.deep_view()[k],
                ),
            decreases fields.len() - i,
        {
            let cell = Cell::from_string(fields[i].as_str());
            proof {
                assert(fields@[i as int]@ == fields.deep_view()[i as int]);
            }
            row.add_cell(cell);
            i = i + 1;
        }
        proof {
            assert(row.cells_view() =~~= line_cells(s@));
        }
        row
    }
}

/// Law: a line with `k` delimiters parses to exactly `k + 1` cells, and
/// every cell is free of surrounding whitespace.
pub proof fn lemma_from_line_cells(s: Seq<char>)
    ensures
        line_cells(s).len() == count_char(s, ',') + 1,
        forall|i: int| 0 <= i < line_cells(s).len() ==> is_trimmed(#[trigger] line_cells(s)[i]),
{
    lemma_split_char_count(s, ',');
    assert forall|i: int| 0 <= i < line_cells(s).len() implies is_trimmed(
        #[trigger] line_cells(s)[i],
    ) by {
        lemma_trim_spec_trimmed(split_char(s, ',')[i]);
    }
}

} // verus!
