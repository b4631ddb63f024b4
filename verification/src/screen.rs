//! The 64 x 32 monochrome pixel grid, stored in a `grid::Grid<bool>`.
//!
//! Convention: the grid is addressed as (row, column); this library's own
//! interface speaks (x, y) with x the column in [0, 64) and y the row in
//! [0, 32). The spec-level view of a grid is a map from (x, y) pairs to
//! cell states, whose domain is exactly the cells the grid holds.

use vstd::prelude::*;

verus! {

#[verifier::external_type_specification]
#[verifier::external_body]
#[verifier::reject_recursive_types(T)]
pub struct ExGrid<T>(grid::Grid<T>);

/// What a screen grid holds: the cell at column x, row y under key (x, y),
/// for every (x, y) the grid's dimensions cover.
pub uninterp spec fn grid_cells(g: grid::Grid<bool>) -> Map<(int, int), bool>;

/// The screen is 64 columns wide and 32 rows tall.
pub const SCREEN_WIDTH: u16 = 64;

pub const SCREEN_HEIGHT: u16 = 32;

/// Whether (x, y) lies on the screen.
pub open spec fn on_screen(p: (int, int)) -> bool {
    0 <= p.0 < SCREEN_WIDTH && 0 <= p.1 < SCREEN_HEIGHT
}

/// The screen's cell positions.
pub open spec fn screen_dom() -> Set<(int, int)> {
    Set::new(|p: (int, int)| on_screen(p))
}

/// A full-size screen with every cell off.
pub open spec fn blank_screen() -> Map<(int, int), bool> {
    Map::new(|p: (int, int)| on_screen(p), |p: (int, int)| false)
}

/// Relies on grid::Grid::new: a fresh rows x cols grid with every cell set
/// to bool's default, false.
#[verifier::external_body]
pub(crate) fn new_screen() -> (g: grid::Grid<bool>)
    ensures
        grid_cells(g) == blank_screen(),
{
    grid::Grid::new(SCREEN_HEIGHT as usize, SCREEN_WIDTH as usize)
}

/// Relies on grid::Grid::get: `Some` of the element at (row, col) exactly
/// when both are in bounds, which the caller guarantees.
#[verifier::external_body]
pub(crate) fn get_cell(g: &grid::Grid<bool>, x: usize, y: usize) -> (r: bool)
    requires
        grid_cells(*g).dom().contains((x as int, y as int)),
    ensures
        r == grid_cells(*g)[(x as int, y as int)],
{
    *g.get(y, x).unwrap()
}

/// Relies on grid::Grid::get_mut: `Some` of the element at (row, col)
/// exactly when both are in bounds, which the caller guarantees; writing
/// through it replaces that element and no other.
#[verifier::external_body]
pub(crate) fn set_cell(g: &mut grid::Grid<bool>, x: usize, y: usize, v: bool)
    requires
        grid_cells(*old(g)).dom().contains((x as int, y as int)),
    ensures
        grid_cells(*final(g)) == grid_cells(*old(g)).insert((x as int, y as int), v),
{
    *g.get_mut(y, x).unwrap() = v;
}

} // verus!
