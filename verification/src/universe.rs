//! The grid engine: a `width x height` toroidal cell buffer, a scratch
//! buffer for double-buffered stepping, and the mutation operations that
//! seed or edit the grid.

use crate::rules::{
    cell_count, glider_covers, glyph, linear_index, neighbor_count, next_cell, next_generation,
    text_index, Cell,
};
use vstd::prelude::*;

verus! {

/// Why a mutation was rejected.
#[derive(Clone, Copy, Debug, PartialEq, Eq, Structural)]
pub enum GridError {
    /// A coordinate lay outside the grid.
    OutOfBounds,
}

/// The simulation state: current generation plus an equally shaped scratch
/// buffer that holds the next generation while it is being computed.
pub struct Universe {
    width: u32,
    height: u32,
    cells: Vec<Cell>,
    cells_temp: Vec<Cell>,
}

/// Count a cell as one if alive, zero if dead.
pub fn live_unit(c: Cell) -> (r: u8)
    ensures
        r as nat == cell_count(c),
{
    match c {
        Cell::Alive => 1,
        Cell::Dead => 0,
    }
}

/// A buffer of `total` dead cells.
fn dead_cells(total: usize) -> (v: Vec<Cell>)
    ensures
        v@.len() == total,
        forall|i: int| 0 <= i < total ==> v@[i] is Dead,
{
    let mut v: Vec<Cell> = Vec::new();
    let mut i: usize = 0;
    while i < total
        invariant
            i <= total,
            v@.len() == i,
            forall|j: int| 0 <= j < i ==> v@[j] is Dead,
        decreases total - i,
    {
        v.push(Cell::Dead);
        i = i + 1;
    }
    v
}

/// A fresh buffer with the same contents as `src`.
fn copy_cells(src: &Vec<Cell>) -> (dst: Vec<Cell>)
    ensures
        dst@ == src@,
{
    let mut dst: Vec<Cell> = Vec::new();
    let mut i: usize = 0;
    while i < src.len()
        invariant
            i <= src@.len(),
            dst@ == src@.subrange(0, i as int),
        decreases src@.len() - i,
    {
        dst.push(src[i]);
        proof {
            assert(dst@ =~= src@.subrange(0, i + 1 as int));
        }
        i = i + 1;
    }
    proof {
        assert(src@.subrange(0, src@.len() as int) =~= src@);
    }
    dst
}

/// The blank flag a construction call asked for; seeding is the default.
pub open spec fn spec_blanc(blanc: Option<bool>) -> bool {
    match blanc {
        Some(b) => b,
        None => false,
    }
}

/// The edge length a construction call asked for; 32 is the default.
pub open spec fn spec_size(size: Option<u32>) -> nat {
    (match size {
        Some(s) => s,
        None => 32u32,
    }) as nat
}

impl Universe {
    /// The grid width, as a mathematical value.
    pub closed spec fn spec_width(self) -> nat {
        self.width as nat
    }

    /// The grid height, as a mathematical value.
    pub closed spec fn spec_height(self) -> nat {
        self.height as nat
    }

    /// The current generation, row-major.
    pub closed spec fn spec_cells(self) -> Seq<Cell> {
        self.cells@
    }

    /// The scratch buffer.
    pub closed spec fn spec_scratch(self) -> Seq<Cell> {
        self.cells_temp@
    }

    /// The buffers have the right shape and linear indexing cannot overflow.
    pub open spec fn size_ok(self) -> bool {
        &&& self.spec_cells().len() == self.spec_width() * self.spec_height()
        &&& self.spec_width() * self.spec_height() <= u32::MAX
    }

    /// Well-formedness: the shape invariant holds and the scratch buffer
    /// mirrors the current generation, so a step never sees stale scratch
    /// content from before an edit.
    pub open spec fn wf(self) -> bool {
        &&& self.size_ok()
        &&& self.spec_scratch() == self.spec_cells()
    }

    /// The grid width.
    pub fn width(&self) -> (w: u32)
        ensures
            w as nat == self.spec_width(),
    {
        self.width
    }

    /// The grid height.
    pub fn height(&self) -> (h: u32)
        ensures
            h as nat == self.spec_height(),
    {
        self.height
    }

    /// Read-only view of the current generation, valid until the next
    /// mutating call.
    pub fn cells(&self) -> (c: &[Cell])
        ensures
            c@ == self.spec_cells(),
    {
        self.cells.as_slice()
    }

    /// Read-only view of the current generation, valid until the next
    /// mutating call.
    pub fn get_cells(&self) -> (c: &[Cell])
        ensures
            c@ == self.spec_cells(),
    {
        self.cells.as_slice()
    }

    /// Row-major buffer position of the cell at `(row, column)`.
    fn get_index(&self, row: u32, column: u32) -> (idx: usize)
        requires
            self.size_ok(),
            (row as nat) < self.spec_height(),
            (column as nat) < self.spec_width(),
        ensures
            idx == linear_index(self.spec_width(), row as nat, column as nat),
            idx < self.spec_cells().len(),
    {
        proof {
            crate::rules::lemma_linear_index_bound(
                self.spec_width(),
                self.spec_height(),
                row as nat,
                column as nat,
            );
        }
        (row * self.width + column) as usize
    }

    /// Count the live cells among the 8 toroidal neighbors of
    /// `(row, column)`.
    #[verifier::rlimit(50)]
    pub fn live_neighbor_count(&self, row: u32, column: u32) -> (count: u8)
        requires
            self.size_ok(),
            (row as nat) < self.spec_height(),
            (column as nat) < self.spec_width(),
        ensures
            count as nat == neighbor_count(
                self.spec_cells(),
                self.spec_width(),
                self.spec_height(),
                row as nat,
                column as nat,
            ),
            count <= 8,
    {
        proof {
            reveal(crate::rules::neighbor_count);
        }
        let mut count: u8 = 0;

        let north = if row == 0 {
            self.height - 1
        } else {
            row - 1
        };
        let south = if row == self.height - 1 {
            0
        } else {
            row + 1
        };
        let west = if column == 0 {
            self.width - 1
        } else {
            column - 1
        };
        let east = if column == self.width - 1 {
            0
        } else {
            column + 1
        };

        let nw = self.get_index(north, west);
        count = count + live_unit(self.cells[nw]);

        let n = self.get_index(north, column);
        count = count + live_unit(self.cells[n]);

        let ne = self.get_index(north, east);
        count = count + live_unit(self.cells[ne]);

        let w = self.get_index(row, west);
        count = count + live_unit(self.cells[w]);

        let e = self.get_index(row, east);
        count = count + live_unit(self.cells[e]);

        let sw = self.get_index(south, west);
        count = count + live_unit(self.cells[sw]);

        let s = self.get_index(south, column);
        count = count + live_unit(self.cells[s]);

        let se = self.get_index(south, east);
        count = count + live_unit(self.cells[se]);

        count
    }

    /// Build a square grid. With the blank flag set every cell starts dead;
    /// otherwise cell `i` starts alive exactly when `alive[i]` is set, so a
    /// caller can seed from any source of randomness. The scratch buffer
    /// starts as a copy of the current generation.
    pub fn new(blanc: Option<bool>, size: Option<u32>, alive: &Vec<bool>) -> (u: Universe)
        requires
            spec_size(size) * spec_size(size) <= u32::MAX,
            !spec_blanc(blanc) ==> alive@.len() == spec_size(size) * spec_size(size),
        ensures
            u.wf(),
            u.spec_width() == spec_size(size),
            u.spec_height() == spec_size(size),
            forall|i: int|
                0 <= i < u.spec_cells().len() ==> u.spec_cells()[i] == (if !spec_blanc(blanc)
                    && alive@[i] {
                    Cell::Alive
                } else {
                    Cell::Dead
                }),
    {
        let blanc_v: bool = match blanc {
            Some(b) => b,
            None => false,
        };
        let size_v: u32 = match size {
            Some(s) => s,
            None => 32,
        };
        let total = (size_v * size_v) as usize;
        let cells: Vec<Cell> = if blanc_v {
            dead_cells(total)
        } else {
            seeded_cells(alive)
        };
        let cells_temp = copy_cells(&cells);
        Universe { width: size_v, height: size_v, cells, cells_temp }
    }

    /// Resize the grid to the given width. Both buffers are rebuilt at the
    /// new shape and every cell becomes dead: a resize is a deliberate
    /// reset, not a content-preserving operation.
    pub fn set_width(&mut self, width: u32)
        requires
            old(self).wf(),
            (width as nat) * old(self).spec_height() <= u32::MAX,
        ensures
            final(self).wf(),
            final(self).spec_width() == width as nat,
            final(self).spec_height() == old(self).spec_height(),
            forall|i: int|
                0 <= i < final(self).spec_cells().len() ==> final(self).spec_cells()[i] is Dead,
    {
        self.width = width;
        let total = (width * self.height) as usize;
        self.cells = dead_cells(total);
        self.cells_temp = copy_cells(&self.cells);
    }

    /// Resize the grid to the given height. Both buffers are rebuilt at the
    /// new shape and every cell becomes dead: a resize is a deliberate
    /// reset, not a content-preserving operation.
    pub fn set_height(&mut self, height: u32)
        requires
            old(self).wf(),
            old(self).spec_width() * (height as nat) <= u32::MAX,
        ensures
            final(self).wf(),
            final(self).spec_width() == old(self).spec_width(),
            final(self).spec_height() == height as nat,
            forall|i: int|
                0 <= i < final(self).spec_cells().len() ==> final(self).spec_cells()[i] is Dead,
    {
        self.height = height;
        let total = (self.width * height) as usize;
        self.cells = dead_cells(total);
        self.cells_temp = copy_cells(&self.cells);
    }

    /// Flip the state of the cell at `(row, col)`; coordinates outside the
    /// grid are rejected and leave the grid untouched. The scratch buffer
    /// is re-mirrored afterward.
    pub fn toggle_cell(&mut self, col: u32, row: u32) -> (result: Result<(), GridError>)
        requires
            old(self).wf(),
        ensures
            final(self).wf(),
            final(self).spec_width() == old(self).spec_width(),
            final(self).spec_height() == old(self).spec_height(),
            result is Ok <==> ((row as nat) < old(self).spec_height() && (col as nat) < old(
                self,
            ).spec_width()),
            result is Ok ==> final(self).spec_cells() == old(self).spec_cells().update(
                linear_index(old(self).spec_width(), row as nat, col as nat) as int,
                old(self).spec_cells()[linear_index(
                    old(self).spec_width(),
                    row as nat,
                    col as nat,
                ) as int].flipped(),
            ),
            result is Err ==> *final(self) == *old(self) && result == Err::<(), GridError>(
                GridError::OutOfBounds,
            ),
    {
        if row >= self.height || col >= self.width {
            return Err(GridError::OutOfBounds);
        }
        let idx = self.get_index(row, col);
        let mut cell = self.cells[idx];
        cell.toggle();
        self.cells.set(idx, cell);
        self.cells_temp = copy_cells(&self.cells);
        Ok(())
    }

    /// Set every cell in `coords` (given as `(row, col)` pairs, all in
    /// bounds) to alive, leaving every other cell as it was. Only the
    /// current generation is touched; the caller re-mirrors the scratch
    /// buffer.
    fn set_alive_list(&mut self, coords: &[(u32, u32)])
        requires
            old(self).size_ok(),
            forall|j: int|
                0 <= j < coords@.len() ==> (#[trigger] coords@[j]).0 < old(self).spec_height()
                    && coords@[j].1 < old(self).spec_width(),
        ensures
            final(self).size_ok(),
            final(self).spec_width() == old(self).spec_width(),
            final(self).spec_height() == old(self).spec_height(),
            final(self).spec_scratch() == old(self).spec_scratch(),
            forall|r: u32, c: u32|
                (r as nat) < old(self).spec_height() && (c as nat) < old(self).spec_width()
                    ==> final(self).spec_cells()[linear_index(
                    old(self).spec_width(),
                    r as nat,
                    c as nat,
                ) as int] == (if coords@.contains((r, c)) {
                    Cell::Alive
                } else {
                    old(self).spec_cells()[linear_index(
                        old(self).spec_width(),
                        r as nat,
                        c as nat,
                    ) as int]
                }),
    {
        let ghost w = self.spec_width();
        let ghost h = self.spec_height();
        let mut j: usize = 0;
        while j < coords.len()
            invariant
                j <= coords@.len(),
                self.size_ok(),
                w == old(self).spec_width(),
                h == old(self).spec_height(),
                self.spec_width() == old(self).spec_width(),
                self.spec_height() == old(self).spec_height(),
                self.spec_scratch() == old(self).spec_scratch(),
                forall|k: int|
                    0 <= k < coords@.len() ==> (#[trigger] coords@[k]).0 < h && coords@[k].1 < w,
                forall|r: u32, c: u32|
                    (r as nat) < h && (c as nat) < w ==> self.spec_cells()[linear_index(
                        w,
                        r as nat,
                        c as nat,
                    ) as int] == (if coords@.subrange(0, j as int).contains((r, c)) {
                        Cell::Alive
                    } else {
                        old(self).spec_cells()[linear_index(w, r as nat, c as nat) as int]
                    }),
            decreases coords@.len() - j,
        {
            let pair: (u32, u32) = coords[j];
            proof {
                assert(pair == coords@[j as int]);
                assert(coords@[j as int].0 < h && coords@[j as int].1 < w);
            }
            let row = pair.0;
            let col = pair.1;
            let idx = self.get_index(row, col);
            self.cells.set(idx, Cell::Alive);
            proof {
                let pre = coords@.subrange(0, j as int);
                let post = coords@.subrange(0, j + 1 as int);
                assert(post =~= pre.push((row, col)));
                assert forall|r: u32, c: u32| (r as nat) < h && (c as nat) < w implies self
                    .spec_cells()[linear_index(w, r as nat, c as nat) as int] == (if post.contains(
                    (r, c),
                ) {
                    Cell::Alive
                } else {
                    old(self).spec_cells()[linear_index(w, r as nat, c as nat) as int]
                }) by {
                    crate::rules::lemma_linear_index_bound(w, h, r as nat, c as nat);
                    if r == row && c == col {
                        assert(post[j as int] == (r, c));
                        assert(post.contains((r, c)));
                    } else {
                        if linear_index(w, r as nat, c as nat) == linear_index(
                            w,
                            row as nat,
                            col as nat,
                        ) {
                            crate::rules::lemma_linear_index_injective(
                                w,
                                r as nat,
                                c as nat,
                                row as nat,
                                col as nat,
                            );
                        }
                        assert(post.contains((r, c)) <==> pre.contains((r, c))) by {
                            if pre.contains((r, c)) {
                                let k = choose|k: int|
                                    0 <= k < pre.len() && pre[k] == (r, c);
                                assert(post[k] == (r, c));
                            }
                            if post.contains((r, c)) {
                                let k = choose|k: int|
                                    0 <= k < post.len() && post[k] == (r, c);
                                assert(k < pre.len() || post[k] == (row, col));
                                if k < pre.len() {
                                    assert(pre[k] == (r, c));
                                }
                            }
                        }
                    }
                }
            }
            j = j + 1;
        }
        proof {
            assert(coords@.subrange(0, coords@.len() as int) =~= coords@);
        }
    }

    /// Set every listed `(row, col)` coordinate to alive; unlisted cells
    /// are unaffected. If any coordinate lies outside the grid, nothing is
    /// changed and the call is rejected. The scratch buffer is re-mirrored
    /// after a successful edit.
    pub fn set_cells(&mut self, cells: &[(u32, u32)]) -> (result: Result<(), GridError>)
        requires
            old(self).wf(),
        ensures
            final(self).wf(),
            final(self).spec_width() == old(self).spec_width(),
            final(self).spec_height() == old(self).spec_height(),
            result is Ok <==> (forall|j: int|
                0 <= j < cells@.len() ==> (#[trigger] cells@[j]).0 < old(self).spec_height()
                    && cells@[j].1 < old(self).spec_width()),
            result is Ok ==> forall|r: u32, c: u32|
                (r as nat) < old(self).spec_height() && (c as nat) < old(self).spec_width()
                    ==> final(self).spec_cells()[linear_index(
                    old(self).spec_width(),
                    r as nat,
                    c as nat,
                ) as int] == (if cells@.contains((r, c)) {
                    Cell::Alive
                } else {
                    old(self).spec_cells()[linear_index(
                        old(self).spec_width(),
                        r as nat,
                        c as nat,
                    ) as int]
                }),
            result is Err ==> *final(self) == *old(self) && result == Err::<(), GridError>(
                GridError::OutOfBounds,
            ),
    {
        let mut j: usize = 0;
        while j < cells.len()
            invariant
                j <= cells@.len(),
                *self == *old(self),
                self.wf(),
                forall|k: int|
                    0 <= k < j ==> (#[trigger] cells@[k]).0 < self.spec_height() && cells@[k].1
                        < self.spec_width(),
            decreases cells@.len() - j,
        {
            let (row, col) = cells[j];
            if row >= self.height || col >= self.width {
                proof {
                    assert(cells@[j as int].0 >= self.spec_height() || cells@[j as int].1
                        >= self.spec_width());
                }
                return Err(GridError::OutOfBounds);
            }
            j = j + 1;
        }
        self.set_alive_list(cells);
        self.cells_temp = copy_cells(&self.cells);
        Ok(())
    }

    /// Stamp the five-cell glider pattern anchored at `(row, col)`, each
    /// offset wrapped by toroidal addition before being set alive. Other
    /// cells are unaffected; the scratch buffer is re-mirrored.
    pub fn set_glider(&mut self, col: u32, row: u32)
        requires
            old(self).wf(),
            old(self).spec_width() > 0,
            old(self).spec_height() > 0,
            col <= u32::MAX - 2,
            row <= u32::MAX - 2,
        ensures
            final(self).wf(),
            final(self).spec_width() == old(self).spec_width(),
            final(self).spec_height() == old(self).spec_height(),
            forall|r: u32, c: u32|
                (r as nat) < old(self).spec_height() && (c as nat) < old(self).spec_width()
                    ==> final(self).spec_cells()[linear_index(
                    old(self).spec_width(),
                    r as nat,
                    c as nat,
                ) as int] == (if glider_covers(
                    old(self).spec_width(),
                    old(self).spec_height(),
                    row as nat,
                    col as nat,
                    r as nat,
                    c as nat,
                ) {
                    Cell::Alive
                } else {
                    old(self).spec_cells()[linear_index(
                        old(self).spec_width(),
                        r as nat,
                        c as nat,
                    ) as int]
                }),
    {
        let w = self.width;
        let h = self.height;
        let e0 = ((row + 0) % h, (col + 1) % w);
        let e1 = ((row + 1) % h, (col + 2) % w);
        let e2 = ((row + 2) % h, (col + 0) % w);
        let e3 = ((row + 2) % h, (col + 1) % w);
        let e4 = ((row + 2) % h, (col + 2) % w);
        let mut coords: Vec<(u32, u32)> = Vec::new();
        coords.push(e0);
        coords.push(e1);
        coords.push(e2);
        coords.push(e3);
        coords.push(e4);
        proof {
            assert(coords@ =~= seq![e0, e1, e2, e3, e4]);
        }
        self.set_alive_list(coords.as_slice());
        self.cells_temp = copy_cells(&self.cells);
        proof {
            let wn = old(self).spec_width();
            let hn = old(self).spec_height();
            assert forall|r: u32, c: u32| (r as nat) < hn && (c as nat) < wn implies (
            coords@.contains((r, c)) <==> glider_covers(
                wn,
                hn,
                row as nat,
                col as nat,
                r as nat,
                c as nat,
            )) by {
                if coords@.contains((r, c)) {
                    let k = choose|k: int| 0 <= k < coords@.len() && coords@[k] == (r, c);
                    assert(k == 0 || k == 1 || k == 2 || k == 3 || k == 4);
                }
                if glider_covers(wn, hn, row as nat, col as nat, r as nat, c as nat) {
                    if r == e0.0 && c == e0.1 {
                        assert(coords@[0] == (r, c));
                    } else if r == e1.0 && c == e1.1 {
                        assert(coords@[1] == (r, c));
                    } else if r == e2.0 && c == e2.1 {
                        assert(coords@[2] == (r, c));
                    } else if r == e3.0 && c == e3.1 {
                        assert(coords@[3] == (r, c));
                    } else {
                        assert(coords@[4] == (r, c));
                    }
                }
            }
        }
    }

    /// Advance the grid one generation: every cell is stepped against its
    /// toroidal neighbor count, the result is written into the scratch
    /// buffer, and the scratch buffer is then committed wholesale as the
    /// new current generation. Dimensions never change.
    #[verifier::rlimit(100)]
    pub fn tick(&mut self)
        requires
            old(self).wf(),
        ensures
            final(self).wf(),
            final(self).spec_width() == old(self).spec_width(),
            final(self).spec_height() == old(self).spec_height(),
            final(self).spec_cells() == next_generation(
                old(self).spec_cells(),
                old(self).spec_width(),
                old(self).spec_height(),
            ),
    {
        let height = self.height;
        let width = self.width;
        let mut row: u32 = 0;
        while row < height
            invariant
                row <= height,
                width as nat == old(self).spec_width(),
                height as nat == old(self).spec_height(),
                self.spec_width() == old(self).spec_width(),
                self.spec_height() == old(self).spec_height(),
                self.spec_cells() == old(self).spec_cells(),
                self.size_ok(),
                self.spec_scratch().len() == self.spec_cells().len(),
                forall|r: nat, c: nat| #![trigger linear_index(width as nat, r, c)]
                    r < row && c < width ==> self.spec_scratch()[linear_index(
                        width as nat,
                        r,
                        c,
                    ) as int] == next_cell(
                        old(self).spec_cells()[linear_index(width as nat, r, c) as int],
                        neighbor_count(
                            old(self).spec_cells(),
                            width as nat,
                            height as nat,
                            r,
                            c,
                        ),
                    ),
            decreases height - row,
        {
            let mut col: u32 = 0;
            while col < width
                invariant
                    row < height,
                    col <= width,
                    width as nat == old(self).spec_width(),
                    height as nat == old(self).spec_height(),
                    self.spec_width() == old(self).spec_width(),
                    self.spec_height() == old(self).spec_height(),
                    self.spec_cells() == old(self).spec_cells(),
                    self.size_ok(),
                    self.spec_scratch().len() == self.spec_cells().len(),
                    forall|r: nat, c: nat| #![trigger linear_index(width as nat, r, c)]
                        (r < row && c < width) || (r == row && c < col)
                            ==> self.spec_scratch()[linear_index(width as nat, r, c) as int]
                            == next_cell(
                            old(self).spec_cells()[linear_index(width as nat, r, c) as int],
                            neighbor_count(
                                old(self).spec_cells(),
                                width as nat,
                                height as nat,
                                r,
                                c,
                            ),
                        ),
                decreases width - col,
            {
                let idx = self.get_index(row, col);
                let cell = self.cells[idx];
                let live_neighbours = self.live_neighbor_count(row, col);

                let next_state = match cell {
                    Cell::Alive => if live_neighbours < 2 {
                        // Underpopulation: fewer than 2 live neighbours
                        Cell::Dead
                    } else if live_neighbours == 2 || live_neighbours == 3 {
                        // Survives: 2 or 3 live neighbours
                        Cell::Alive
                    } else {
                        // Overpopulation: more than 3 live neighbours
                        Cell::Dead
                    },
                    Cell::Dead => if live_neighbours == 3 {
                        // Reproduction: cell becomes live with 3 live neighbours
                        Cell::Alive
                    } else {
                        Cell::Dead
                    },
                };

                self.cells_temp.set(idx, next_state);
                proof {
                    assert forall|r: nat, c: nat| #![trigger linear_index(width as nat, r, c)]
                        (r < row && c < width) || (r == row && c < col + 1) implies self
                        .spec_scratch()[linear_index(width as nat, r, c) as int] == next_cell(
                        old(self).spec_cells()[linear_index(width as nat, r, c) as int],
                        neighbor_count(
                            old(self).spec_cells(),
                            width as nat,
                            height as nat,
                            r,
                            c,
                        ),
                    ) by {
                        crate::rules::lemma_linear_index_bound(
                            width as nat,
                            height as nat,
                            r,
                            c,
                        );
                        if r == row as nat && c == col as nat {
                            assert(self.spec_scratch()[idx as int] == next_state);
                        } else {
                            if linear_index(width as nat, r, c) == linear_index(
                                width as nat,
                                row as nat,
                                col as nat,
                            ) {
                                crate::rules::lemma_linear_index_injective(
                                    width as nat,
                                    r,
                                    c,
                                    row as nat,
                                    col as nat,
                                );
                            }
                        }
                    }
                }
                col = col + 1;
            }
            row = row + 1;
        }
        self.cells = copy_cells(&self.cells_temp);
        proof {
            let w = width as nat;
            let h = height as nat;
            let oc = old(self).spec_cells();
            let ng = next_generation(oc, w, h);
            assert forall|i: int| 0 <= i < ng.len() implies self.spec_cells()[i] == ng[i] by {
                assert(i < w * h);
                if w == 0 {
                    vstd::arithmetic::mul::lemma_mul_basics(h as int);
                    assert(false);
                }
                if h == 0 {
                    vstd::arithmetic::mul::lemma_mul_basics(w as int);
                    assert(false);
                }
                let wi = w as int;
                vstd::arithmetic::mul::lemma_mul_is_commutative(wi, h as int);
                assert(i < (h as int) * wi);
                let r = i / wi;
                let c = i % wi;
                vstd::arithmetic::div_mod::lemma_fundamental_div_mod(i, wi);
                vstd::arithmetic::div_mod::lemma_mod_division_less_than_divisor(i, wi);
                vstd::arithmetic::div_mod::lemma_mod_pos_bound(i, wi);
                vstd::arithmetic::div_mod::lemma_div_pos_is_pos(i, wi);
                vstd::arithmetic::div_mod::lemma_multiply_divide_lt(i, wi, h as int);
                vstd::arithmetic::mul::lemma_mul_is_commutative(wi, r);
                assert(0 <= r < h);
                assert(0 <= c < w);
                assert(linear_index(w, r as nat, c as nat) == i);
                assert(self.spec_cells() == self.spec_scratch());
                assert(self.spec_scratch()[linear_index(w, r as nat, c as nat) as int]
                    == next_cell(oc[i], neighbor_count(oc, w, h, r as nat, c as nat)));
                assert(ng[i] == next_cell(
                    oc[i],
                    neighbor_count(oc, w, h, (i / (w as int)) as nat, (i % (w as int)) as nat),
                ));
            }
            assert(self.spec_cells() =~= ng);
        }
    }

    /// Human-readable snapshot of the grid: one line per row, one glyph per
    /// cell, each row terminated by a newline.
    #[verifier::rlimit(100)]
    pub fn render(&self) -> (text: String)
        requires
            self.wf(),
        ensures
            text@.len() == self.spec_height() * (self.spec_width() + 1),
            forall|r: nat, c: nat| #![trigger text_index(self.spec_width(), r, c)]
                r < self.spec_height() && c < self.spec_width() ==> text@[text_index(
                    self.spec_width(),
                    r,
                    c,
                ) as int] == glyph(
                    self.spec_cells()[linear_index(self.spec_width(), r, c) as int],
                ),
            forall|r: nat|
                r < self.spec_height() ==> text@[text_index(
                    self.spec_width(),
                    r,
                    self.spec_width(),
                ) as int] == '\n',
    {
        let w = self.width;
        let h = self.height;
        let mut text = String::from_str("");
        proof {
            reveal_strlit("");
        }
        let mut row: u32 = 0;
        while row < h
            invariant
                row <= h,
                w as nat == self.spec_width(),
                h as nat == self.spec_height(),
                self.wf(),
                text@.len() == text_index(w as nat, row as nat, 0),
                forall|r: nat, c: nat| #![trigger text_index(w as nat, r, c)]
                    r < row && c < w ==> text@[text_index(w as nat, r, c) as int] == glyph(
                        self.spec_cells()[linear_index(w as nat, r, c) as int],
                    ),
                forall|r: nat|
                    r < row ==> text@[text_index(w as nat, r, w as nat) as int] == '\n',
            decreases h - row,
        {
            let mut col: u32 = 0;
            while col < w
                invariant
                    row < h,
                    col <= w,
                    w as nat == self.spec_width(),
                    h as nat == self.spec_height(),
                    self.wf(),
                    text@.len() == text_index(w as nat, row as nat, col as nat),
                    forall|r: nat, c: nat| #![trigger text_index(w as nat, r, c)]
                        r < row && c < w ==> text@[text_index(w as nat, r, c) as int] == glyph(
                            self.spec_cells()[linear_index(w as nat, r, c) as int],
                        ),
                    forall|r: nat|
                        r < row ==> text@[text_index(w as nat, r, w as nat) as int] == '\n',
                    forall|c: nat|
                        c < col ==> text@[text_index(w as nat, row as nat, c) as int] == glyph(
                            self.spec_cells()[linear_index(w as nat, row as nat, c) as int],
                        ),
                decreases w - col,
            {
                let idx = self.get_index(row, col);
                let cell = self.cells[idx];
                let ghost pre = text@;
                match cell {
                    Cell::Alive => text.append("\u{25fc}"),
                    Cell::Dead => text.append("\u{25fb}"),
                }
                proof {
                    reveal_strlit("\u{25fc}");
                    reveal_strlit("\u{25fb}");
                    assert(text@.len() == text_index(w as nat, row as nat, col as nat) + 1);
                    assert(text@[text_index(w as nat, row as nat, col as nat) as int] == glyph(
                        cell,
                    ));
                    assert forall|r: nat, c: nat| r < row && c < w implies #[trigger] text@[
                    text_index(w as nat, r, c) as int] == glyph(
                        self.spec_cells()[linear_index(w as nat, r, c) as int],
                    ) by {
                        crate::rules::lemma_text_index_mono(w as nat, r, c, row as nat);
                        assert(text@[text_index(w as nat, r, c) as int] == pre[text_index(
                            w as nat,
                            r,
                            c,
                        ) as int]);
                    }
                    assert forall|r: nat| r < row implies #[trigger] text@[text_index(
                        w as nat,
                        r,
                        w as nat,
                    ) as int] == '\n' by {
                        crate::rules::lemma_text_index_mono(w as nat, r, w as nat, row as nat);
                        assert(text@[text_index(w as nat, r, w as nat) as int] == pre[text_index(
                            w as nat,
                            r,
                            w as nat,
                        ) as int]);
                    }
                }
                col = col + 1;
            }
            let ghost pre = text@;
            text.append("\n");
            proof {
                reveal_strlit("\n");
                assert(text@[text_index(w as nat, row as nat, w as nat) as int] == '\n');
                assert(text_index(w as nat, (row + 1) as nat, 0) == text_index(
                    w as nat,
                    row as nat,
                    w as nat,
                ) + 1) by (nonlinear_arith);
                assert(text@.len() == text_index(w as nat, (row + 1) as nat, 0));
                assert forall|r: nat, c: nat| r < row + 1 && c < w implies #[trigger] text@[
                text_index(w as nat, r, c) as int] == glyph(
                    self.spec_cells()[linear_index(w as nat, r, c) as int],
                ) by {
                    crate::rules::lemma_text_index_mono(w as nat, r, c, (row + 1) as nat);
                    if r < row {
                        crate::rules::lemma_text_index_mono(w as nat, r, c, row as nat);
                        assert(pre[text_index(w as nat, r, c) as int] == glyph(
                            self.spec_cells()[linear_index(w as nat, r, c) as int],
                        ));
                    }
                    assert(text@[text_index(w as nat, r, c) as int] == pre[text_index(
                        w as nat,
                        r,
                        c,
                    ) as int]);
                }
                assert forall|r: nat| r < row + 1 implies #[trigger] text@[text_index(
                    w as nat,
                    r,
                    w as nat,
                ) as int] == '\n' by {
                    if r < row {
                        crate::rules::lemma_text_index_mono(w as nat, r, w as nat, row as nat);
                        assert(text@[text_index(w as nat, r, w as nat) as int] == pre[text_index(
                            w as nat,
                            r,
                            w as nat,
                        ) as int]);
                    }
                }
            }
            row = row + 1;
        }
        proof {
            assert(text_index(w as nat, h as nat, 0) == (h as nat) * ((w as nat) + 1))
                by (nonlinear_arith);
        }
        text
    }
}

/// Reads are idempotent: `cells` pins its result to the grid state alone,
/// so any two views it may return for the same state, with no mutation in
/// between, have identical content.
pub proof fn lemma_reads_agree(u: Universe, first: Seq<Cell>, second: Seq<Cell>)
    requires
        first == u.spec_cells(),
        second == u.spec_cells(),
    ensures
        first == second,
{
}

/// The seeded initial generation: cell `i` is alive exactly when
/// `alive[i]` is set.
fn seeded_cells(alive: &Vec<bool>) -> (v: Vec<Cell>)
    ensures
        v@.len() == alive@.len(),
        forall|i: int|
            0 <= i < alive@.len() ==> v@[i] == (if alive@[i] {
                Cell::Alive
            } else {
                Cell::Dead
            }),
{
    let mut v: Vec<Cell> = Vec::new();
    let mut i: usize = 0;
    while i < alive.len()
        invariant
            i <= alive@.len(),
            v@.len() == i,
            forall|j: int|
                0 <= j < i ==> v@[j] == (if alive@[j] {
                    Cell::Alive
                } else {
                    Cell::Dead
                }),
        decreases alive@.len() - i,
    {
        if alive[i] {
            v.push(Cell::Alive);
        } else {
            v.push(Cell::Dead);
        }
        i = i + 1;
    }
    v
}

} // verus!
