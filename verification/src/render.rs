//! Text as it is shown on a terminal: tables of cells laid out with borders
//! and aligned columns, and names in bold.

use vstd::prelude::*;
use crate::report::cells_of;
use crate::text::{escape, is_plain};

verus! {

/// The text that the table layout makes of a table of cells: the rows between
/// border lines, each column as wide as its widest cell.
pub uninterp spec fn rendered_table(cells: Seq<Seq<Seq<char>>>) -> Seq<char>;

/// Whether no cell of the table holds an escape character.
pub open spec fn plain_cells(cells: Seq<Seq<Seq<char>>>) -> bool {
    forall|i: int, j: int|
        0 <= i < cells.len() && 0 <= j < cells[i].len() ==> !(#[trigger] cells[i][j]).contains(
            escape(),
        )
}

/// Lays out a table with `prettytable`: `Table::from` makes a table in the
/// default format with one left-aligned cell for each given text, and its
/// `to_string` lays it out. The text depends on the cells alone, so it is
/// given a name and nothing more is said of it. A cell with an escape
/// character is kept out, because the layout measures such a cell with an
/// internal assertion that can fail.
#[verifier::external_body]
fn layout_table(rows: &Vec<Vec<String>>) -> (text: String)
    requires
        plain_cells(cells_of(*rows)),
    ensures
        text@ == rendered_table(cells_of(*rows)),
{
    prettytable::Table::from(rows).to_string()
}

/// Styles `text` as bold with `colored`: `Colorize::bold`, and the `Display`
/// of what it returns. Whether the escape sequences that switch bold on and
/// off stand around the text depends on the environment and on whether the
/// output is a terminal, so nothing is said of the result.
#[verifier::external_body]
pub(crate) fn bold(text: &str) -> (styled: String) {
    colored::Colorize::bold(text).to_string()
}

/// Whether no cell of the row holds an escape character.
fn plain_row(row: &Vec<String>) -> (plain: bool)
    ensures
        plain == (forall|j: int| 0 <= j < row@.len() ==> !(#[trigger] row@[j])@.contains(escape())),
{
    let mut j: usize = 0;
    while j < row.len()
        invariant
            j <= row.len(),
            forall|k: int| 0 <= k < j ==> !(#[trigger] row@[k])@.contains(escape()),
        decreases row.len() - j,
    {
        if !is_plain(row[j].as_str()) {
            return false;
        }
        j = j + 1;
    }
    true
}

/// Whether no cell of the table holds an escape character.
pub fn plain_table(rows: &Vec<Vec<String>>) -> (plain: bool)
    ensures
        plain == plain_cells(cells_of(*rows)),
{
    let mut i: usize = 0;
    while i < rows.len()
        invariant
            i <= rows.len(),
            forall|k: int, j: int|
                0 <= k < i && 0 <= j < rows@[k]@.len() ==> !(#[trigger] rows@[k]@[j])@.contains(
                    escape(),
                ),
        decreases rows.len() - i,
    {
        if !plain_row(&rows[i]) {
            let ghost j = choose|j: int|
                0 <= j < rows@[i as int]@.len() && (#[trigger] rows@[i as int]@[j])@.contains(
                    escape(),
                );
            assert(cells_of(*rows)[i as int][j].contains(escape()));
            return false;
        }
        i = i + 1;
    }
    assert forall|k: int, j: int|
        0 <= k < cells_of(*rows).len() && 0 <= j < cells_of(*rows)[k].len() implies !(
        #[trigger] cells_of(*rows)[k][j]).contains(escape()) by {
        assert(!rows@[k]@[j]@.contains(escape()));
    }
    true
}

/// The table laid out as text, with borders and aligned columns; `None` for a
/// table with an escape character in a cell, which cannot be laid out.
pub fn render_table(rows: &Vec<Vec<String>>) -> (text: Option<String>)
    ensures
        match text {
            Some(text) => plain_cells(cells_of(*rows)) && text@ == rendered_table(cells_of(*rows)),
            None => !plain_cells(cells_of(*rows)),
        },
{
    if plain_table(rows) {
        Some(layout_table(rows))
    } else {
        None
    }
}

} // verus!
