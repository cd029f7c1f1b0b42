//! The mathematical model of the automaton: cells, toroidal indexing,
//! neighbor counting, and the generation-step rule, together with the
//! laws the engine is held to.

use vstd::prelude::*;

verus! {

/// One cell of the automaton: dead or alive.
#[derive(Clone, Copy, Debug, PartialEq, Eq, Structural)]
pub enum Cell {
    Dead,
    Alive,
}

impl Cell {
    /// The opposite state.
    pub open spec fn flipped(self) -> Cell {
        match self {
            Cell::Alive => Cell::Dead,
            Cell::Dead => Cell::Alive,
        }
    }

    /// Flip this cell in place.
    pub fn toggle(&mut self)
        ensures
            *final(self) == old(self).flipped(),
    {
        *self = match *self {
            Cell::Alive => Cell::Dead,
            Cell::Dead => Cell::Alive,
        };
    }
}

/// How much a cell contributes to a neighbor count: one if alive, zero if dead.
pub open spec fn cell_count(c: Cell) -> nat {
    match c {
        Cell::Alive => 1nat,
        Cell::Dead => 0nat,
    }
}

/// The row or column just before `i`, wrapping from 0 to `n - 1`.
pub open spec fn wrap_dec(i: nat, n: nat) -> nat
    recommends
        i < n,
{
    if i == 0 {
        (n - 1) as nat
    } else {
        (i - 1) as nat
    }
}

/// The row or column just after `i`, wrapping from `n - 1` to 0.
pub open spec fn wrap_inc(i: nat, n: nat) -> nat
    recommends
        i < n,
{
    if i + 1 == n {
        0
    } else {
        i + 1
    }
}

/// Row-major position of `(row, col)` in a linear buffer of the given width.
pub open spec fn linear_index(width: nat, row: nat, col: nat) -> nat {
    row * width + col
}

/// A cell position inside the grid maps to a position inside the buffer.
pub proof fn lemma_linear_index_bound(width: nat, height: nat, row: nat, col: nat)
    requires
        row < height,
        col < width,
    ensures
        linear_index(width, row, col) < width * height,
{
    assert(row * width + col < width * height) by (nonlinear_arith)
        requires
            row < height,
            col < width,
    ;
}

/// Distinct in-bounds cell positions map to distinct buffer positions.
pub proof fn lemma_linear_index_injective(width: nat, r1: nat, c1: nat, r2: nat, c2: nat)
    requires
        c1 < width,
        c2 < width,
        linear_index(width, r1, c1) == linear_index(width, r2, c2),
    ensures
        r1 == r2,
        c1 == c2,
{
    let x = linear_index(width, r1, c1) as int;
    vstd::arithmetic::div_mod::lemma_fundamental_div_mod_converse(
        x,
        width as int,
        r1 as int,
        c1 as int,
    );
    vstd::arithmetic::div_mod::lemma_fundamental_div_mod_converse(
        x,
        width as int,
        r2 as int,
        c2 as int,
    );
}

/// Number of live cells among the 8 toroidal neighbors of `(row, col)`:
/// rows wrap modulo `height`, columns wrap modulo `width`, so every cell has
/// exactly 8 neighbors no matter where it sits. Kept opaque so that callers
/// reason about whole counts; `reveal` it where the eight terms matter.
#[verifier::opaque]
pub open spec fn neighbor_count(
    cells: Seq<Cell>,
    width: nat,
    height: nat,
    row: nat,
    col: nat,
) -> nat
    recommends
        cells.len() == width * height,
        row < height,
        col < width,
{
    let north = wrap_dec(row, height);
    let south = wrap_inc(row, height);
    let west = wrap_dec(col, width);
    let east = wrap_inc(col, width);
    cell_count(cells[linear_index(width, north, west) as int]) + cell_count(
        cells[linear_index(width, north, col) as int],
    ) + cell_count(cells[linear_index(width, north, east) as int]) + cell_count(
        cells[linear_index(width, row, west) as int],
    ) + cell_count(cells[linear_index(width, row, east) as int]) + cell_count(
        cells[linear_index(width, south, west) as int],
    ) + cell_count(cells[linear_index(width, south, col) as int]) + cell_count(
        cells[linear_index(width, south, east) as int],
    )
}

/// The standard rule set, applied to one cell: a live cell survives with two
/// or three live neighbors and otherwise dies; a dead cell comes alive with
/// exactly three live neighbors and otherwise stays dead.
pub open spec fn next_cell(current: Cell, live_neighbors: nat) -> Cell {
    match current {
        Cell::Alive => if live_neighbors < 2 {
            Cell::Dead
        } else if live_neighbors == 2 || live_neighbors == 3 {
            Cell::Alive
        } else {
            Cell::Dead
        },
        Cell::Dead => if live_neighbors == 3 {
            Cell::Alive
        } else {
            Cell::Dead
        },
    }
}

/// The whole next generation: every cell is stepped by `next_cell` against
/// the neighbor counts taken from the current generation.
pub open spec fn next_generation(cells: Seq<Cell>, width: nat, height: nat) -> Seq<Cell>
    recommends
        cells.len() == width * height,
{
    Seq::new(
        cells.len(),
        |i: int|
            next_cell(
                cells[i],
                neighbor_count(
                    cells,
                    width,
                    height,
                    (i / (width as int)) as nat,
                    (i % (width as int)) as nat,
                ),
            ),
    )
}

/// Reading `next_generation` at the position of an in-bounds cell gives that
/// cell stepped against its own neighbor count.
pub proof fn lemma_next_generation_at(
    cells: Seq<Cell>,
    width: nat,
    height: nat,
    row: nat,
    col: nat,
)
    requires
        cells.len() == width * height,
        row < height,
        col < width,
    ensures
        next_generation(cells, width, height)[linear_index(width, row, col) as int] == next_cell(
            cells[linear_index(width, row, col) as int],
            neighbor_count(cells, width, height, row, col),
        ),
{
    lemma_linear_index_bound(width, height, row, col);
    vstd::arithmetic::div_mod::lemma_fundamental_div_mod_converse(
        linear_index(width, row, col) as int,
        width as int,
        row as int,
        col as int,
    );
}

/// Underpopulation: a live cell with fewer than two live neighbors is dead
/// in the next generation.
pub proof fn lemma_underpopulation(cells: Seq<Cell>, width: nat, height: nat, row: nat, col: nat)
    requires
        cells.len() == width * height,
        row < height,
        col < width,
        cells[linear_index(width, row, col) as int] is Alive,
        neighbor_count(cells, width, height, row, col) < 2,
    ensures
        next_generation(cells, width, height)[linear_index(width, row, col) as int] is Dead,
{
    lemma_next_generation_at(cells, width, height, row, col);
}

/// Reproduction: a dead cell with exactly three live neighbors is alive in
/// the next generation.
pub proof fn lemma_reproduction(cells: Seq<Cell>, width: nat, height: nat, row: nat, col: nat)
    requires
        cells.len() == width * height,
        row < height,
        col < width,
        cells[linear_index(width, row, col) as int] is Dead,
        neighbor_count(cells, width, height, row, col) == 3,
    ensures
        next_generation(cells, width, height)[linear_index(width, row, col) as int] is Alive,
{
    lemma_next_generation_at(cells, width, height, row, col);
}

/// Whether `(r, c)` is one of the five cells of a glider anchored at
/// `(anchor_row, anchor_col)`, each offset wrapped by toroidal addition.
pub open spec fn glider_covers(
    width: nat,
    height: nat,
    anchor_row: nat,
    anchor_col: nat,
    r: nat,
    c: nat,
) -> bool
    recommends
        width > 0,
        height > 0,
{
    ||| (r == (anchor_row + 0) % height && c == (anchor_col + 1) % width)
    ||| (r == (anchor_row + 1) % height && c == (anchor_col + 2) % width)
    ||| (r == (anchor_row + 2) % height && c == (anchor_col + 0) % width)
    ||| (r == (anchor_row + 2) % height && c == (anchor_col + 1) % width)
    ||| (r == (anchor_row + 2) % height && c == (anchor_col + 2) % width)
}

/// Position of the glyph for `(row, col)` in the text snapshot, whose rows
/// are `width + 1` characters long: `width` glyphs plus a newline.
pub open spec fn text_index(width: nat, row: nat, col: nat) -> nat {
    row * (width + 1) + col
}

/// Every position in a row of the text snapshot comes before every position
/// in a later row.
pub proof fn lemma_text_index_mono(width: nat, r1: nat, c1: nat, r2: nat)
    requires
        r1 < r2,
        c1 <= width,
    ensures
        text_index(width, r1, c1) < text_index(width, r2, 0),
{
    assert(r1 * (width + 1) + c1 < r2 * (width + 1)) by (nonlinear_arith)
        requires
            r1 < r2,
            c1 <= width,
    ;
}

/// The glyph a cell is drawn with in the text snapshot: a filled square for
/// a live cell, an empty square for a dead one.
pub open spec fn glyph(c: Cell) -> char {
    match c {
        Cell::Alive => '\u{25fc}',
        Cell::Dead => '\u{25fb}',
    }
}

} // verus!
