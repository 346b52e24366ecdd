//! The parsed dataset: header, data rows, and the layout computations.

use crate::cell::Cell;
use crate::row::line_cells;
use crate::row::Row;
use crate::strutil::dec_digits;
use crate::strutil::i64_dec;
use crate::strutil::lemma_count_char_le;
use crate::strutil::lemma_dec_digits_len;
use crate::strutil::lemma_split_char_count;
use crate::strutil::split_char;
use crate::strutil::split_str;
use crate::strutil::u64_to_string;
use vstd::prelude::*;

verus! {

/// A line with its trailing carriage return removed, as happens to every
/// data line before the blank-line test.
pub open spec fn strip_cr(l: Seq<char>) -> Seq<char> {
    if l.len() > 0 && l.last() == '\r' {
        l.drop_last()
    } else {
        l
    }
}

/// The non-blank lines among `ls`, each with its trailing carriage return
/// removed; blank lines produce no row.
pub open spec fn kept_lines(ls: Seq<Seq<char>>) -> Seq<Seq<char>>
    decreases ls.len(),
{
    if ls.len() == 0 {
        seq![]
    } else {
        let rest = kept_lines(ls.drop_last());
        let l = strip_cr(ls.last());
        if l.len() > 0 {
            rest.push(l)
        } else {
            rest
        }
    }
}

/// The text split into lines at every newline character.
pub open spec fn raw_lines(text: Seq<char>) -> Seq<Seq<char>> {
    split_char(text, '\n')
}

/// The header line: the text up to the first newline (the whole text when
/// it holds none).
pub open spec fn header_line(text: Seq<char>) -> Seq<char> {
    raw_lines(text)[0]
}

/// The data lines: every non-blank line after the first.
pub open spec fn data_lines(text: Seq<char>) -> Seq<Seq<char>> {
    kept_lines(raw_lines(text).skip(1))
}

/// The running maximum of `hdr` and the cell count of every line in `ls`.
pub open spec fn max_cols(hdr: nat, ls: Seq<Seq<char>>) -> nat
    decreases ls.len(),
{
    if ls.len() == 0 {
        hdr
    } else {
        let m = max_cols(hdr, ls.drop_last());
        let w = line_cells(ls.last()).len();
        if w > m {
            w
        } else {
            m
        }
    }
}

/// The column count of the loaded table: the maximum cell count across the
/// header and every data row.
pub open spec fn table_num_cols(text: Seq<char>) -> nat {
    max_cols(line_cells(header_line(text)).len(), data_lines(text))
}

/// The label `col:<c>` synthesized for an empty or missing header cell.
pub open spec fn col_label_spec(c: int) -> Seq<char> {
    seq!['c', 'o', 'l', ':'] + dec_digits(c as nat)
}

/// A synthesized label is never empty.
pub proof fn lemma_col_label_len(c: int)
    ensures
        col_label_spec(c).len() >= 5,
{
    lemma_dec_digits_len(c as nat);
}

/// The header cells after normalization to `n` columns: empty cells are
/// replaced by their synthesized label, and missing cells are appended as
/// synthesized labels.
pub open spec fn normalize_header(h: Seq<Seq<char>>, n: nat) -> Seq<Seq<char>> {
    Seq::new(
        n,
        |c: int|
            if c < h.len() {
                if h[c].len() == 0 {
                    col_label_spec(c)
                } else {
                    h[c]
                }
            } else {
                col_label_spec(c)
            },
    )
}

/// Renders the label `col:<c>`, as [`col_label_spec`] describes.
pub fn col_label(c: usize) -> (r: String)
    ensures
        r@ == col_label_spec(c as int),
{
    let mut r = String::from_str("col:");
    let digits = u64_to_string(c as u64);
    r.append(digits.as_str());
    proof {
        reveal_strlit("col:");
        assert(r@ =~= col_label_spec(c as int));
    }
    r
}

/// The full parsed dataset: one header row, the data rows in insertion
/// order, and the maximum observed column count.
#[derive(Debug)]
pub struct Table {
    pub header: Row,
    pub rows: Vec<Row>,
    pub num_cols: usize,
}

impl Table {
    /// Well-formedness while loading: the header is never inserted, row
    /// identities are their indices, and the column count dominates the
    /// header and every row.
    pub open spec fn wf_loading(self) -> bool {
        &&& self.header.rowid == -1
        &&& forall|i: int| 0 <= i < self.rows.len() ==> (#[trigger] self.rows[i]).rowid == i
        &&& self.header.cells.len() <= self.num_cols
        &&& forall|i: int|
            0 <= i < self.rows.len() ==> (#[trigger] self.rows[i]).cells.len() <= self.num_cols
    }

    /// Well-formedness after normalization: additionally the header holds
    /// exactly `num_cols` cells, none of them empty.
    pub open spec fn wf(self) -> bool {
        &&& self.wf_loading()
        &&& self.header.cells.len() == self.num_cols
        &&& forall|c: int|
            0 <= c < self.header.cells.len() ==> (#[trigger] self.header.cells[c])@.len() > 0
    }

    /// The column count.
    pub fn num_cols(&self) -> (n: usize)
        ensures
            n == self.num_cols,
    {
        self.num_cols
    }

    /// The number of data rows.
    pub fn num_rows(&self) -> (n: usize)
        ensures
            n == self.rows.len(),
    {
        self.rows.len()
    }

    /// Copies of the header cell texts, in order.
    pub fn header_names(&self) -> (r: Vec<String>)
        ensures
            r.deep_view() == self.header.cells_view(),
    {
        self.header.to_strings()
    }

    /// Appends one parsed row, assigning it the next sequential identity
    /// and widening the column count to cover it.
    pub fn add_line(&mut self, row: Row)
        requires
            old(self).rows.len() < 0x7fff_ffff_ffff_ffff,
        ensures
            final(self).header == old(self).header,
            final(self).num_cols == (if row.cells.len() > old(self).num_cols {
                row.cells.len() as int
            } else {
                old(self).num_cols as int
            }),
            final(self).rows@ == old(self).rows@.push(
                Row { cells: row.cells, rowid: old(self).rows.len() as i64 },
            ),
    {
        let mut row = row;
        if row.cells.len() > self.num_cols {
            self.num_cols = row.cells.len();
        }
        row.rowid = self.rows.len() as i64;
        self.rows.push(row);
    }

    /// Synthesizes names for empty header cells and pads the header to the
    /// full column count, re-establishing the header invariant.
    pub fn fix_header_names(&mut self)
        requires
            old(self).wf_loading(),
        ensures
            final(self).wf(),
            final(self).rows == old(self).rows,
            final(self).num_cols == old(self).num_cols,
            final(self).header.rowid == -1,
            final(self).header.cells.deep_view() == normalize_header(
                old(self).header.cells.deep_view(),
                old(self).num_cols as nat,
            ),
    {
        let mut c: usize = 0;
        while c < self.header.cells.len()
            invariant
                0 <= c <= self.header.cells.len(),
                self.rows == old(self).rows,
                self.num_cols == old(self).num_cols,
                self.header.rowid == -1,
                self.header.cells.len() == old(self).header.cells.len(),
                old(self).wf_loading(),
                forall|k: int|
                    0 <= k < c ==> (#[trigger] self.header.cells[k])@ == (
                    if old(self).header.cells[k]@.len() == 0 {
                        col_label_spec(k)
                    } else {
                        old(self).header.cells[k]@
                    }),
                forall|k: int|
                    c <= k < self.header.cells.len() ==> #[trigger] self.header.cells[k] == old(
                        self,
                    ).header.cells[k],
            decreases self.header.cells.len() - c,
        {
            if self.header.cells[c].len() == 0 {
                let label = col_label(c);
                self.header.cells.set(c, Cell { value: label });
            }
            c = c + 1;
        }
        while self.header.cells.len() < self.num_cols
            invariant
                old(self).header.cells.len() <= self.header.cells.len() <= self.num_cols,
                self.rows == old(self).rows,
                self.num_cols == old(self).num_cols,
                self.header.rowid == -1,
                old(self).wf_loading(),
                forall|k: int|
                    0 <= k < old(self).header.cells.len() ==> (#[trigger] self.header.cells[k])@
                        == (if old(self).header.cells[k]@.len() == 0 {
                        col_label_spec(k)
                    } else {
                        old(self).header.cells[k]@
                    }),
                forall|k: int|
                    old(self).header.cells.len() <= k < self.header.cells.len() ==> (
                    #[trigger] self.header.cells[k])@ == col_label_spec(k),
            decreases self.num_cols - self.header.cells.len(),
        {
            let c2 = self.header.cells.len();
            let label = col_label(c2);
            self.header.add_cell(Cell { value: label });
        }
        proof {
            assert forall|k: int| 0 <= k < self.header.cells.len() implies (
            #[trigger] self.header.cells[k])@.len() > 0 by {
                lemma_col_label_len(k);
            }
            assert(self.header.cells.deep_view() =~~= normalize_header(
                old(self).header.cells.deep_view(),
                old(self).num_cols as nat,
            ));
        }
    }

    /// The widest cell in data column `c` over the first `n` rows.
    pub open spec fn col_width_to(self, c: int, n: int) -> nat
        decreases n,
    {
        if n <= 0 {
            0
        } else {
            let w = self.rows[n - 1].cell_width_spec(c);
            let m = self.col_width_to(c, n - 1);
            if w > m {
                w
            } else {
                m
            }
        }
    }

    /// The widest cell in data column `c` over all data rows; a short row
    /// contributes nothing to the maximum.
    pub open spec fn col_width_spec(self, c: int) -> nat {
        self.col_width_to(c, self.rows.len() as int)
    }

    /// Runtime counterpart of [`Table::col_width_spec`].
    pub fn col_width(&self, c: usize) -> (n: usize)
        ensures
            n == self.col_width_spec(c as int),
    {
        let mut w: usize = 0;
        let mut i: usize = 0;
        while i < self.rows.len()
            invariant
                0 <= i <= self.rows.len(),
                w == self.col_width_to(c as int, i as int),
            decreases self.rows.len() - i,
        {
            let cw = self.rows[i].cell_width(c);
            if cw > w {
                w = cw;
            }
            i = i + 1;
        }
        w
    }

    /// The display width of data column `c`: its widest cell, raised to
    /// `min_cell_width`, plus `cell_padding` — or the header label's length
    /// plus `header_padding`, whichever is larger.
    pub open spec fn display_width_spec(
        self,
        c: int,
        min_cell_width: nat,
        cell_padding: nat,
        header_padding: nat,
    ) -> nat {
        let base = if self.col_width_spec(c) > min_cell_width {
            self.col_width_spec(c)
        } else {
            min_cell_width
        };
        let w = base + cell_padding;
        let h = self.header.cells[c]@.len() + header_padding;
        if w > h {
            w
        } else {
            h
        }
    }

    /// Runtime counterpart of [`Table::display_width_spec`].
    pub fn col_width2(
        &self,
        c: usize,
        cell_minwidth: usize,
        cell_padding: usize,
        header_padding: usize,
    ) -> (n: usize)
        requires
            c < self.header.cells.len(),
            self.display_width_spec(
                c as int,
                cell_minwidth as nat,
                cell_padding as nat,
                header_padding as nat,
            ) <= usize::MAX,
        ensures
            n == self.display_width_spec(
                c as int,
                cell_minwidth as nat,
                cell_padding as nat,
                header_padding as nat,
            ),
    {
        let w0 = self.col_width(c);
        let base = if w0 > cell_minwidth {
            w0
        } else {
            cell_minwidth
        };
        let w = base + cell_padding;
        let h = self.header.cells[c].len() + header_padding;
        if w > h {
            w
        } else {
            h
        }
    }

    /// Law: a column's display width covers its widest data value with its
    /// padding, the minimum cell width with its padding, and the header
    /// label with its padding.
    pub proof fn lemma_display_width_bounds(self, c: int, m: nat, p: nat, h: nat)
        ensures
            self.display_width_spec(c, m, p, h) >= self.col_width_spec(c) + p,
            self.display_width_spec(c, m, p, h) >= m + p,
            self.display_width_spec(c, m, p, h) >= self.header.cells[c]@.len() + h,
    {
    }

    /// The sum of the display widths of the first `k` columns.
    pub open spec fn total_width_to(self, k: int, m: nat, p: nat, h: nat) -> nat
        decreases k,
    {
        if k <= 0 {
            0
        } else {
            self.total_width_to(k - 1, m, p, h) + self.display_width_spec(k - 1, m, p, h)
        }
    }

    /// The sum of the display widths of all columns: the width the whole
    /// table needs so that no column is clipped.
    pub open spec fn total_width_spec(self, m: nat, p: nat, h: nat) -> nat {
        self.total_width_to(self.num_cols as int, m, p, h)
    }

    proof fn lemma_total_width_mono(self, k1: int, k2: int, m: nat, p: nat, h: nat)
        requires
            k1 <= k2,
        ensures
            self.total_width_to(k1, m, p, h) <= self.total_width_to(k2, m, p, h),
        decreases k2,
    {
        if k1 < k2 && k2 > 0 {
            self.lemma_total_width_mono(k1, k2 - 1, m, p, h);
        }
    }

    /// Runtime counterpart of [`Table::total_width_spec`].
    pub fn sum_colwidth2(
        &self,
        cell_minwidth: usize,
        cell_padding: usize,
        header_padding: usize,
    ) -> (n: usize)
        requires
            self.wf(),
            self.total_width_spec(
                cell_minwidth as nat,
                cell_padding as nat,
                header_padding as nat,
            ) <= usize::MAX,
        ensures
            n == self.total_width_spec(
                cell_minwidth as nat,
                cell_padding as nat,
                header_padding as nat,
            ),
    {
        let ghost m = cell_minwidth as nat;
        let ghost p = cell_padding as nat;
        let ghost h = header_padding as nat;
        let mut sum: usize = 0;
        let mut c: usize = 0;
        while c < self.num_cols
            invariant
                self.wf(),
                self.total_width_spec(m, p, h) <= usize::MAX,
                m == cell_minwidth as nat,
                p == cell_padding as nat,
                h == header_padding as nat,
                0 <= c <= self.num_cols,
                sum == self.total_width_to(c as int, m, p, h),
            decreases self.num_cols - c,
        {
            proof {
                self.lemma_total_width_mono(c + 1, self.num_cols as int, m, p, h);
            }
            let w = self.col_width2(c, cell_minwidth, cell_padding, header_padding);
            sum = sum + w;
            c = c + 1;
        }
        sum
    }

    /// The width of the row-identity column's widest value: the last row's
    /// identity rendered in decimal, or zero when there are no rows.
    pub open spec fn rowid_width_spec(self) -> nat {
        if self.rows.len() == 0 {
            0
        } else {
            i64_dec(self.rows[self.rows.len() - 1].rowid as int).len()
        }
    }

    /// Runtime counterpart of [`Table::rowid_width_spec`].
    pub fn rowid_width(&self) -> (n: usize)
        ensures
            n == self.rowid_width_spec(),
    {
        if self.rows.len() == 0 {
            0
        } else {
            let s = self.rows[self.rows.len() - 1].rowid_str();
            s.as_str().unicode_len()
        }
    }

    /// The display width of the row-identity column: its widest value or
    /// the `rowid` header label plus padding, whichever is larger.
    pub fn rowid_col_width(&self, header_padding: usize) -> (n: usize)
        requires
            header_padding + 5 <= usize::MAX,
        ensures
            n == (if self.rowid_width_spec() > header_padding + 5 {
                self.rowid_width_spec() as int
            } else {
                header_padding + 5
            }),
    {
        let rw = self.rowid_width();
        proof {
            reveal_strlit("rowid");
        }
        let hw = "rowid".unicode_len() + header_padding;
        if rw > hw {
            rw
        } else {
            hw
        }
    }

    /// Parses a whole delimited text: the first line becomes the header,
    /// every later non-blank line becomes a data row with the next
    /// sequential identity, and the header is then normalized.
    pub fn from_text(text: &str) -> (t: Table)
        requires
            text@.len() < 0x7fff_ffff_ffff_ffff,
        ensures
            t.wf(),
            t.num_cols == table_num_cols(text@),
            t.rows@.len() == data_lines(text@).len(),
            forall|i: int|
                0 <= i < t.rows@.len() ==> (#[trigger] t.rows@[i]).cells_view() == line_cells(
                    data_lines(text@)[i],
                ),
            t.header.cells.deep_view() == normalize_header(
                line_cells(header_line(text@)),
                table_num_cols(text@),
            ),
            t.header.rowid == -1,
    {
        let lines = split_str(text, '\n');
        proof {
            lemma_split_char_count(text@, '\n');
            assert(lines@.len() >= 1);
            assert(lines@[0]@ == lines.deep_view()[0]);
        }
        let header = Row::from_line(lines[0].as_str());
        let hn = header.num_cols();
        let mut t = Table { header, rows: Vec::new(), num_cols: hn };
        let ghost hcount = line_cells(header_line(text@)).len();
        proof {
            assert(raw_lines(text@).skip(1).subrange(0, 0) =~= Seq::<Seq<char>>::empty());
        }
        let mut i: usize = 1;
        while i < lines.len()
            invariant
                text@.len() < 0x7fff_ffff_ffff_ffff,
                lines.deep_view() == raw_lines(text@),
                lines@.len() == raw_lines(text@).len(),
                1 <= i <= lines@.len(),
                t.wf_loading(),
                t.header.cells_view() == line_cells(header_line(text@)),
                t.header.cells.len() == hcount,
                t.rows@.len() == kept_lines(raw_lines(text@).skip(1).subrange(0, i - 1)).len(),
                forall|k: int|
                    0 <= k < t.rows@.len() ==> (#[trigger] t.rows@[k]).cells_view() == line_cells(
                        kept_lines(raw_lines(text@).skip(1).subrange(0, i - 1))[k],
                    ),
                t.num_cols == max_cols(
                    hcount,
                    kept_lines(raw_lines(text@).skip(1).subrange(0, i - 1)),
                ),
            decreases lines@.len() - i,
        {
            let ghost prefix = raw_lines(text@).skip(1).subrange(0, i - 1);
            let ghost next = raw_lines(text@).skip(1).subrange(0, i as int);
            let ln = lines[i].as_str();
            let n = ln.unicode_len();
            proof {
                assert(lines@[i as int]@ == lines.deep_view()[i as int]);
                assert(ln@ == raw_lines(text@)[i as int]);
                assert(next.drop_last() =~= prefix);
                assert(next.last() == ln@);
            }
            let stripped: &str = if n > 0 && ln.get_char(n - 1) == '\r' {
                ln.substring_char(0, n - 1)
            } else {
                ln
            };
            proof {
                if n > 0 && ln@[n - 1] == '\r' {
                    assert(stripped@ =~= ln@.drop_last());
                }
                assert(stripped@ == strip_cr(ln@));
                if strip_cr(ln@).len() > 0 {
                    assert(kept_lines(next) == kept_lines(prefix).push(strip_cr(ln@)));
                } else {
                    assert(kept_lines(next) == kept_lines(prefix));
                }
            }
            if stripped.unicode_len() > 0 {
                let row = Row::from_line(stripped);
                proof {
                    lemma_kept_lines_len(prefix);
                    lemma_split_char_count(text@, '\n');
                    lemma_count_char_le(text@, '\n');
                    assert(t.rows@.len() <= prefix.len());
                    assert(row.cells.len() == line_cells(strip_cr(ln@)).len());
                }
                t.add_line(row);
            }
            proof {
                if strip_cr(ln@).len() > 0 {
                    let kp = kept_lines(prefix);
                    let kn = kept_lines(next);
                    assert(kn == kp.push(strip_cr(ln@)));
                    assert(kn.drop_last() =~= kp);
                    assert(kn.last() == strip_cr(ln@));
                    assert(max_cols(hcount, kn) == (if line_cells(strip_cr(ln@)).len() > max_cols(
                        hcount,
                        kp,
                    ) {
                        line_cells(strip_cr(ln@)).len()
                    } else {
                        max_cols(hcount, kp)
                    }));
                }
            }
            i = i + 1;
        }
        proof {
            assert(raw_lines(text@).skip(1).subrange(0, lines@.len() - 1) =~= raw_lines(
                text@,
            ).skip(1));
        }
        t.fix_header_names();
        proof {
            assert(t.header.cells.deep_view() =~~= t.header.cells_view());
        }
        t
    }
}

/// Dropping blank lines cannot add lines.
pub proof fn lemma_kept_lines_len(ls: Seq<Seq<char>>)
    ensures
        kept_lines(ls).len() <= ls.len(),
    decreases ls.len(),
{
    if ls.len() > 0 {
        lemma_kept_lines_len(ls.drop_last());
    }
}

} // verus!
