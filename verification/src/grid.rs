//! Serialization of an accumulated table as a preformatted text grid.
//!
//! The grid renderer's width bookkeeping panics on some strings that hold the
//! terminal escape character (U+001B), so every cell string is cleaned of
//! that character before the grid is drawn.

use vstd::prelude::*;

use crate::text::lemma_strip_esc_clean;
use crate::text::strip_esc;
use crate::text::strip_escapes;

verus! {

/// The text of the grid drawn for a matrix of cell strings: one bordered row
/// per inner sequence, one column per cell string. Its exact shape is the
/// grid renderer's own; it is a function of the cell strings alone.
pub uninterp spec fn grid_text(rows: Seq<Seq<Seq<char>>>) -> Seq<char>;

/// One row's cell strings with every escape character removed.
pub open spec fn strip_row(row: Seq<Seq<char>>) -> Seq<Seq<char>> {
    row.map_values(|cell: Seq<char>| strip_esc(cell))
}

/// The whole matrix with every cell's escape characters removed.
pub open spec fn strip_rows(rows: Seq<Seq<Seq<char>>>) -> Seq<Seq<Seq<char>>> {
    rows.map_values(|row: Seq<Seq<char>>| strip_row(row))
}

/// A copy of one row with every cell's escape characters removed.
fn sanitize_row(row: &Vec<String>) -> (r: Vec<String>)
    ensures
        r.deep_view() == strip_row(row.deep_view()),
        forall|j: int|
            0 <= j < r.deep_view().len() ==> !(#[trigger] r.deep_view()[j]).contains('\u{1b}'),
{
    let mut r: Vec<String> = Vec::new();
    let mut i: usize = 0;
    while i < row.len()
        invariant
            i <= row.len(),
            r@.len() == i,
            forall|k: int| 0 <= k < i ==> #[trigger] r@[k]@ == strip_esc(row.deep_view()[k]),
        decreases row.len() - i,
    {
        r.push(strip_escapes(row[i].as_str()));
        i = i + 1;
    }
    proof {
        assert(r.deep_view() =~= strip_row(row.deep_view()));
        assert forall|j: int| 0 <= j < r.deep_view().len() implies !(#[trigger] r.deep_view()[j]).contains(
            '\u{1b}',
        ) by {
            lemma_strip_esc_clean(row.deep_view()[j]);
        }
    }
    r
}

/// A copy of the accumulated rows with every cell's escape characters
/// removed, fit for the grid renderer.
pub(crate) fn sanitize_rows(rows: &Vec<Vec<String>>) -> (r: Vec<Vec<String>>)
    ensures
        r.deep_view() == strip_rows(rows.deep_view()),
        forall|i: int, j: int|
            0 <= i < r.deep_view().len() && 0 <= j < r.deep_view()[i].len() ==> !(
            #[trigger] r.deep_view()[i][j]).contains('\u{1b}'),
{
    let mut r: Vec<Vec<String>> = Vec::new();
    let mut i: usize = 0;
    while i < rows.len()
        invariant
            i <= rows.len(),
            r@.len() == i,
            forall|k: int|
                0 <= k < i ==> #[trigger] r@[k].deep_view() == strip_row(rows.deep_view()[k]),
            forall|k: int, j: int|
                0 <= k < i && 0 <= j < r@[k].deep_view().len() ==> !(
                #[trigger] r@[k].deep_view()[j]).contains('\u{1b}'),
        decreases rows.len() - i,
    {
        r.push(sanitize_row(&rows[i]));
        i = i + 1;
    }
    proof {
        assert(r.deep_view() =~= strip_rows(rows.deep_view()));
        assert forall|i2: int, j: int|
            0 <= i2 < r.deep_view().len() && 0 <= j < r.deep_view()[i2].len() implies !(
        #[trigger] r.deep_view()[i2][j]).contains('\u{1b}') by {
            assert(r.deep_view()[i2] == r@[i2].deep_view());
        }
    }
    r
}

/// Relies on prettytable's `Table`: `Table::from` builds a table that holds
/// the given cell strings with the default format, and `to_string` (through
/// `Display`) draws it as a text grid that depends on the cell strings alone
/// (its `win_crlf` feature is off, so the line ending does not vary by
/// target). Its width bookkeeping panics on some strings that hold the
/// terminal escape character, so that character is required out.
#[verifier::external_body]
pub(crate) fn grid_to_string(rows: &Vec<Vec<String>>) -> (r: String)
    requires
        forall|i: int, j: int|
            0 <= i < rows.deep_view().len() && 0 <= j < rows.deep_view()[i].len() ==> !(
            #[trigger] rows.deep_view()[i][j]).contains('\u{1b}'),
    ensures
        r@ == grid_text(rows.deep_view()),
{
    prettytable::Table::from(rows).to_string()
}

} // verus!
