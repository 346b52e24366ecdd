//! A single text field of a row.

use crate::strutil::trim_spec;
use crate::strutil::trim_str;
use vstd::prelude::*;

verus! {

/// One text field, trimmed of surrounding whitespace at construction.
#[derive(Clone, Debug)]
pub struct Cell {
    pub value: String,
}

impl View for Cell {
    type V = Seq<char>;

    open spec fn view(&self) -> Seq<char> {
        self.value@
    }
}

impl DeepView for Cell {
    type V = Seq<char>;

    open spec fn deep_view(&self) -> Seq<char> {
        self.view()
    }
}

impl Cell {
    /// Builds a cell from a raw field, trimming surrounding whitespace.
    pub fn from_string(s: &str) -> (c: Cell)
        ensures
            c@ == trim_spec(s@),
    {
        Cell { value: trim_str(s) }
    }

    /// The cell's display length, in characters.
    pub fn len(&self) -> (n: usize)
        ensures
            n == self@.len(),
    {
        self.value.as_str().unicode_len()
    }

    /// Replaces the cell's text with `s`, exactly as given.
    pub fn set_value(&mut self, s: &str)
        ensures
            final(self)@ == s@,
    {
        self.value = String::from_str(s);
    }

    /// The cell's text.
    pub fn text(&self) -> (r: &str)
        ensures
            r@ == self@,
    {
        self.value.as_str()
    }
}

} // verus!
