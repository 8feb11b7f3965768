//! Laying the rows out as a grid of three columns: glyph, name, size.

use vstd::prelude::*;
use vstd::string::*;
use crate::entry::{glyph_text, rows, PathData, Row};
use crate::report::{sort_by_size, stable_sorted};
use crate::size::size_text;

verus! {

/// The number of columns of the listing: one for each field of a row.
pub const COLUMNS: usize = 3;

/// The number of spaces between two columns.
pub const SPACING: u16 = 1;

/// `term_grid::Grid`, the collection of cells that the layout is made from.
/// Nothing of its inside is known here.
#[verifier::external_type_specification]
#[verifier::external_body]
pub struct ExGrid(term_grid::Grid);

/// The texts of the cells of a grid, in the order in which they were added,
/// each cell aligned to the left.
pub uninterp spec fn grid_cells(grid: term_grid::Grid) -> Seq<Seq<char>>;

/// The number of spaces between two columns, for a grid that was made to flow
/// from left to right and to be filled with spaces, and whose cells each have
/// the width of their text and stand aligned to the left. `None` for any
/// other grid: one that flows from top to bottom, one that is filled with a
/// text, one that holds a cell with a width set by hand or aligned to the
/// right. The grids of this module are made by `new_grid` and filled by
/// `add_cell` alone, so theirs is never `None`.
pub uninterp spec fn grid_spaces(grid: term_grid::Grid) -> Option<nat>;

/// The text that `term_grid`'s `Display` writes for a grid that flows from
/// left to right, holds the given cells, separates columns by `spaces` spaces
/// and was fitted into `columns` columns: one line for each row of the grid.
pub uninterp spec fn grid_text(cells: Seq<Seq<char>>, spaces: nat, columns: nat) -> Seq<char>;

/// `term_grid::Grid::new` with the options left-to-right and filling by
/// spaces. Trusted: the new grid holds no cell and keeps the number of spaces
/// that it was given.
#[verifier::external_body]
fn new_grid(spaces: u16) -> (grid: term_grid::Grid)
    ensures
        grid_cells(grid) == Seq::<Seq<char>>::empty(),
        grid_spaces(grid) == Some(spaces as nat),
{
    term_grid::Grid::new(
        term_grid::GridOptions {
            filling: term_grid::Filling::Spaces(usize::from(spaces)),
            direction: term_grid::Direction::LeftToRight,
        },
    )
}

/// `term_grid::Grid::add` on `term_grid::Cell::from` of a text. Trusted: the
/// cell comes after those that the grid held, and the options stay.
#[verifier::external_body]
fn add_cell(grid: &mut term_grid::Grid, text: &str)
    ensures
        grid_cells(*final(grid)) == grid_cells(*old(grid)).push(text@),
        grid_spaces(*final(grid)) == grid_spaces(*old(grid)),
{
    grid.add(term_grid::Cell::from(text));
}

/// `term_grid::Grid::fit_into_columns`, written out through its `Display`.
/// Trusted: the text depends on the cells, the spacing and the number of
/// columns alone. With no column the outside function divides by zero.
#[verifier::external_body]
fn fit_into_columns(grid: &term_grid::Grid, columns: usize) -> (text: String)
    requires
        columns > 0,
        grid_spaces(*grid).is_some(),
    ensures
        text@ == grid_text(grid_cells(*grid), grid_spaces(*grid).unwrap(), columns as nat),
{
    format!("{}", grid.fit_into_columns(columns))
}

/// The three cells of a row: its glyph, its name, its size as shown.
pub open spec fn row_cells(row: Row) -> Seq<Seq<char>> {
    seq![glyph_text(row.marker), row.name, size_text(row.size)]
}

/// The cells of all rows, row after row.
pub open spec fn data_cells(data: Seq<Row>) -> Seq<Seq<char>>
    decreases data.len(),
{
    if data.len() == 0 {
        Seq::empty()
    } else {
        data_cells(data.drop_last()) + row_cells(data.last())
    }
}

/// The listing of the rows as they stand: three cells for each, laid out from
/// left to right in three columns, one space apart.
pub fn layout(data: &Vec<PathData>) -> (text: String)
    ensures
        text@ == grid_text(data_cells(rows(data@)), SPACING as nat, COLUMNS as nat),
{
    let mut grid = new_grid(SPACING);
    let mut i: usize = 0;
    while i < data.len()
        invariant
            i <= data.len(),
            grid_spaces(grid) == Some(SPACING as nat),
            grid_cells(grid) == data_cells(rows(data@).take(i as int)),
        decreases data.len() - i,
    {
        let entry = &data[i];
        let shown = entry.get_human_readable_size();
        let ghost held = grid_cells(grid);
        add_cell(&mut grid, entry.marker.glyph());
        add_cell(&mut grid, entry.name.as_str());
        add_cell(&mut grid, shown.as_str());
        proof {
            let upto = rows(data@).take(i + 1);
            assert(upto.drop_last() =~= rows(data@).take(i as int));
            assert(upto.last() == entry@);
            assert(grid_cells(grid) =~= held + row_cells(entry@));
        }
        i = i + 1;
    }
    proof {
        assert(rows(data@).take(i as int) =~= rows(data@));
    }
    fit_into_columns(&grid, COLUMNS)
}

/// The listing that is printed for the entries: sorts them by size, smallest
/// first, entries of one size staying in their order, and lays them out.
pub fn render_data(data: &mut Vec<PathData>) -> (text: String)
    ensures
        stable_sorted(rows(final(data)@), rows(old(data)@)),
        text@ == grid_text(data_cells(rows(final(data)@)), SPACING as nat, COLUMNS as nat),
{
    sort_by_size(data);
    layout(data)
}

} // verus!
