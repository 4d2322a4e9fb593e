//! The grid engine: a fixed-size toroidal Game of Life universe with
//! bit-packed storage, single-cell accessors, and whole-generation advance.

use crate::life::{
    alive_at, lemma_index_bounds, lemma_index_recover, lemma_wrap_dec, lemma_wrap_inc,
    live_neighbors, step_cell, tick_spec, wrap_dec, wrap_inc, Cell,
};
use crate::storage::{bit_at, bit_get, bit_set};
use vstd::arithmetic::div_mod::{lemma_fundamental_div_mod, lemma_mod_bound};
use vstd::prelude::*;

verus! {

/// The row-major index a coordinate pair addresses on a grid `w` cells wide.
pub open spec fn coord_index(rc: (usize, usize), w: int) -> int {
    rc.0 as int * w + rc.1 as int
}

/// Whether one of the first `n` coordinate pairs addresses index `i`.
pub open spec fn hits(coords: Seq<(usize, usize)>, n: int, w: int, i: int) -> bool {
    exists|j: int| 0 <= j < n && coord_index(coords[j], w) == i
}

/// A Game of Life grid on a torus. Cells are stored eight to a byte in
/// row-major order; the view is the flat sequence of logical cell states.
pub struct Universe {
    width: usize,
    height: usize,
    cells: Vec<u8>,
}

impl View for Universe {
    type V = Seq<Cell>;

    closed spec fn view(&self) -> Seq<Cell> {
        Seq::new(
            (self.width * self.height) as nat,
            |i: int|
                if bit_at(self.cells@, i) {
                    Cell::Alive
                } else {
                    Cell::Dead
                },
        )
    }
}

impl Universe {
    /// The grid width, as a mathematical integer.
    pub closed spec fn spec_width(&self) -> int {
        self.width as int
    }

    /// The grid height, as a mathematical integer.
    pub closed spec fn spec_height(&self) -> int {
        self.height as int
    }

    /// The packed backing bytes.
    pub closed spec fn storage(&self) -> Seq<u8> {
        self.cells@
    }

    /// Well-formedness: positive dimensions, a cell count the machine can
    /// address, and a backing buffer of exactly enough bytes for one bit
    /// per cell.
    pub closed spec fn wf(&self) -> bool {
        &&& 1 <= self.width
        &&& 1 <= self.height
        &&& self.width * self.height <= usize::MAX - 7
        &&& self.cells@.len() == (self.width * self.height + 7) / 8
        &&& self.width * self.height <= 8 * self.cells@.len()
    }

    /// Whether a coordinate pair lies on the grid.
    pub open spec fn in_bounds(&self, row: int, col: int) -> bool {
        &&& 0 <= row < self.spec_height()
        &&& 0 <= col < self.spec_width()
    }

    /// Dimension/storage consistency: a well-formed grid holds exactly
    /// `width * height` logical cells, however they are packed.
    pub proof fn lemma_view_len(&self)
        requires
            self.wf(),
        ensures
            self@.len() == self.spec_width() * self.spec_height(),
            1 <= self.spec_width(),
            1 <= self.spec_height(),
    {
    }

    /// Builds a `width` by `height` grid with every cell dead. The caller
    /// seeds it afterwards, through `set_cell`, `set_cells` or `init`.
    pub fn new(width: usize, height: usize) -> (u: Universe)
        requires
            1 <= width,
            1 <= height,
            width * height <= usize::MAX - 7,
        ensures
            u.wf(),
            u.spec_width() == width,
            u.spec_height() == height,
            u@.len() == width * height,
            forall|i: int| 0 <= i < u@.len() ==> u@[i] == Cell::Dead,
    {
        let total = width * height;
        let size = (total + 7) / 8;
        let mut cells: Vec<u8> = Vec::new();
        while cells.len() < size
            invariant
                cells@.len() <= size,
                forall|k: int| 0 <= k < cells@.len() ==> cells@[k] == 0u8,
            decreases size - cells@.len(),
        {
            cells.push(0u8);
        }
        proof {
            lemma_fundamental_div_mod(total + 7, 8);
            lemma_mod_bound(total + 7, 8);
        }
        let u = Universe { width, height, cells };
        proof {
            assert forall|i: int| 0 <= i < u@.len() implies u@[i] == Cell::Dead by {
                lemma_mod_bound(i, 8);
                vstd::arithmetic::div_mod::lemma_multiply_divide_lt(i, 8, size as int);
                let b = u.cells@[i / 8];
                let nbit = (i % 8) as u8;
                assert(b == 0u8);
                assert((0u8 >> nbit) & 1 == 0) by (bit_vector);
            }
        }
        u
    }

    /// The row-major index of a coordinate, with the byte/bit split left to
    /// the storage helpers.
    fn get_index(&self, row: usize, column: usize) -> (i: usize)
        requires
            self.wf(),
            self.in_bounds(row as int, column as int),
        ensures
            i == row as int * self.spec_width() + column as int,
            i < self.spec_width() * self.spec_height(),
    {
        proof {
            lemma_index_bounds(self.spec_width(), self.spec_height(), row as int, column as int);
        }
        row * self.width + column
    }

    /// Reads the cell at (row, column). Pure read; out-of-range coordinates
    /// are a caller error and excluded by precondition.
    pub fn cell(&self, row: usize, column: usize) -> (c: Cell)
        requires
            self.wf(),
            self.in_bounds(row as int, column as int),
        ensures
            c == self@[row as int * self.spec_width() + column as int],
            alive_at(self@, self.spec_width(), row as int, column as int) == (if c == Cell::Alive {
                1nat
            } else {
                0nat
            }),
    {
        let i = self.get_index(row, column);
        if bit_get(&self.cells, i) {
            Cell::Alive
        } else {
            Cell::Dead
        }
    }

    /// Overwrites the cell at (row, column) in place; every other cell keeps
    /// its state.
    pub fn set_cell(&mut self, row: usize, column: usize, cell: Cell)
        requires
            old(self).wf(),
            old(self).in_bounds(row as int, column as int),
        ensures
            final(self).wf(),
            final(self).spec_width() == old(self).spec_width(),
            final(self).spec_height() == old(self).spec_height(),
            final(self)@ == old(self)@.update(
                row as int * old(self).spec_width() + column as int,
                cell,
            ),
    {
        let i = self.get_index(row, column);
        let v = match cell {
            Cell::Alive => true,
            Cell::Dead => false,
        };
        bit_set(&mut self.cells, i, v);
        proof {
            assert(self@ =~= old(self)@.update(
                row as int * old(self).spec_width() + column as int,
                cell,
            ));
        }
    }

    /// Writes `cell` at each listed coordinate, in order. Afterwards an index
    /// holds `cell` exactly when some entry addresses it, and is unchanged
    /// otherwise.
    #[verifier::loop_isolation(false)]
    pub fn set_cells(&mut self, coords: &[(usize, usize)], cell: Cell)
        requires
            old(self).wf(),
            forall|j: int|
                0 <= j < coords@.len() ==> old(self).in_bounds(
                    #[trigger] coords@[j].0 as int,
                    coords@[j].1 as int,
                ),
        ensures
            final(self).wf(),
            final(self).spec_width() == old(self).spec_width(),
            final(self).spec_height() == old(self).spec_height(),
            final(self)@.len() == old(self)@.len(),
            forall|i: int|
                0 <= i < final(self)@.len() ==> final(self)@[i] == if hits(
                    coords@,
                    coords@.len() as int,
                    old(self).spec_width(),
                    i,
                ) {
                    cell
                } else {
                    old(self)@[i]
                },
    {
        let ghost w = old(self).spec_width();
        let mut k: usize = 0;
        while k < coords.len()
            invariant
                k <= coords@.len(),
                self.wf(),
                self.spec_width() == old(self).spec_width(),
                self.spec_height() == old(self).spec_height(),
                self@.len() == old(self)@.len(),
                forall|i: int|
                    0 <= i < self@.len() ==> self@[i] == if hits(coords@, k as int, w, i) {
                        cell
                    } else {
                        old(self)@[i]
                    },
            decreases coords@.len() - k,
        {
            let (row, col) = coords[k];
            let ghost prev = self@;
            self.set_cell(row, col, cell);
            proof {
                let target = coord_index(coords@[k as int], w);
                lemma_index_bounds(w, self.spec_height(), row as int, col as int);
                assert(hits(coords@, k + 1, w, target)) by {
                    assert(0 <= k < k + 1 && coord_index(coords@[k as int], w) == target);
                }
                assert forall|i: int| 0 <= i < self@.len() implies self@[i] == if hits(
                    coords@,
                    k + 1,
                    w,
                    i,
                ) {
                    cell
                } else {
                    old(self)@[i]
                } by {
                    if i != target {
                        if hits(coords@, k + 1, w, i) {
                            let j = choose|j: int| 0 <= j < k + 1 && coord_index(coords@[j], w)
                                == i;
                            assert(j < k);
                            assert(hits(coords@, k as int, w, i));
                        }
                        if hits(coords@, k as int, w, i) {
                            let j = choose|j: int| 0 <= j < k && coord_index(coords@[j], w) == i;
                            assert(hits(coords@, k + 1, w, i));
                        }
                        assert(self@[i] == prev[i]);
                    }
                }
            }
            k = k + 1;
        }
    }

    /// Materializes one logical cell value per grid cell, row-major,
    /// regardless of the packed storage layout.
    #[verifier::loop_isolation(false)]
    pub fn cells(&self) -> (v: Vec<Cell>)
        requires
            self.wf(),
        ensures
            v@ == self@,
    {
        let total = self.width * self.height;
        let mut v: Vec<Cell> = Vec::new();
        let mut i: usize = 0;
        while i < total
            invariant
                i <= total,
                v@.len() == i as int,
                forall|k: int| 0 <= k < i as int ==> v@[k] == self@[k],
            decreases total - i,
        {
            if bit_get(&self.cells, i) {
                v.push(Cell::Alive);
            } else {
                v.push(Cell::Dead);
            }
            i = i + 1;
        }
        proof {
            assert(v@ =~= self@);
        }
        v
    }

    /// Seeds the grid from one externally drawn coin flip per cell: cell `i`
    /// becomes alive exactly when `draws[i]` is true. The grid never owns an
    /// entropy source; the host draws and hands the outcomes in.
    #[verifier::loop_isolation(false)]
    pub fn init(&mut self, draws: &[bool])
        requires
            old(self).wf(),
            draws@.len() == old(self).spec_width() * old(self).spec_height(),
        ensures
            final(self).wf(),
            final(self).spec_width() == old(self).spec_width(),
            final(self).spec_height() == old(self).spec_height(),
            final(self)@.len() == old(self)@.len(),
            forall|i: int|
                0 <= i < final(self)@.len() ==> final(self)@[i] == if draws@[i] {
                    Cell::Alive
                } else {
                    Cell::Dead
                },
    {
        let total = self.width * self.height;
        let mut i: usize = 0;
        while i < total
            invariant
                i <= total,
                self.wf(),
                self.spec_width() == old(self).spec_width(),
                self.spec_height() == old(self).spec_height(),
                self@.len() == old(self)@.len(),
                forall|k: int|
                    0 <= k < i as int ==> self@[k] == if draws@[k] {
                        Cell::Alive
                    } else {
                        Cell::Dead
                    },
            decreases total - i,
        {
            let ghost pre = *self;
            bit_set(&mut self.cells, i, draws[i]);
            proof {
                assert forall|k: int| 0 <= k <= i as int implies self@[k] == (if draws@[k] {
                    Cell::Alive
                } else {
                    Cell::Dead
                }) by {
                    if k == i as int {
                        assert(bit_at(self.cells@, k) == draws@[k]);
                    } else {
                        assert(bit_at(self.cells@, k) == bit_at(pre.cells@, k));
                        assert(pre@[k] == if draws@[k] {
                            Cell::Alive
                        } else {
                            Cell::Dead
                        });
                    }
                }
            }
            i = i + 1;
        }
    }

    /// Seeds the fixed demonstration pattern: cell `i` is alive exactly when
    /// `i` is even or divisible by seven.
    #[verifier::loop_isolation(false)]
    pub fn init_pattern(&mut self)
        requires
            old(self).wf(),
        ensures
            final(self).wf(),
            final(self).spec_width() == old(self).spec_width(),
            final(self).spec_height() == old(self).spec_height(),
            final(self)@.len() == old(self)@.len(),
            forall|i: int|
                0 <= i < final(self)@.len() ==> final(self)@[i] == if i % 2 == 0 || i % 7 == 0 {
                    Cell::Alive
                } else {
                    Cell::Dead
                },
    {
        let total = self.width * self.height;
        let mut i: usize = 0;
        while i < total
            invariant
                i <= total,
                self.wf(),
                self.spec_width() == old(self).spec_width(),
                self.spec_height() == old(self).spec_height(),
                self@.len() == old(self)@.len(),
                forall|k: int|
                    0 <= k < i as int ==> self@[k] == if k % 2 == 0 || k % 7 == 0 {
                        Cell::Alive
                    } else {
                        Cell::Dead
                    },
            decreases total - i,
        {
            let ghost pre = *self;
            bit_set(&mut self.cells, i, i % 2 == 0 || i % 7 == 0);
            proof {
                assert forall|k: int| 0 <= k <= i as int implies self@[k] == (if k % 2 == 0 || k % 7
                    == 0 {
                    Cell::Alive
                } else {
                    Cell::Dead
                }) by {
                    if k == i as int {
                        assert(bit_at(self.cells@, k) == (i % 2 == 0 || i % 7 == 0));
                    } else {
                        assert(bit_at(self.cells@, k) == bit_at(pre.cells@, k));
                        assert(pre@[k] == if k % 2 == 0 || k % 7 == 0 {
                            Cell::Alive
                        } else {
                            Cell::Dead
                        });
                    }
                }
            }
            i = i + 1;
        }
    }

    /// Counts the live cells among the eight toroidal neighbors of
    /// (row, column), wrapping past every edge.
    #[verifier::rlimit(100)]
    #[verifier::spinoff_prover]
    fn live_neighbor_count(&self, row: usize, column: usize) -> (n: u8)
        requires
            self.wf(),
            self.in_bounds(row as int, column as int),
        ensures
            n as nat == live_neighbors(
                self@,
                self.spec_width(),
                self.spec_height(),
                row as int,
                column as int,
            ),
    {
        let pr = if row == 0 {
            self.height - 1
        } else {
            row - 1
        };
        let nr = if row + 1 == self.height {
            0
        } else {
            row + 1
        };
        let pc = if column == 0 {
            self.width - 1
        } else {
            column - 1
        };
        let nc = if column + 1 == self.width {
            0
        } else {
            column + 1
        };
        proof {
            lemma_wrap_dec(row as int, self.spec_height());
            lemma_wrap_inc(row as int, self.spec_height());
            lemma_wrap_dec(column as int, self.spec_width());
            lemma_wrap_inc(column as int, self.spec_width());
            assert(pr as int == wrap_dec(row as int, self.spec_height()));
            assert(nr as int == wrap_inc(row as int, self.spec_height()));
            assert(pc as int == wrap_dec(column as int, self.spec_width()));
            assert(nc as int == wrap_inc(column as int, self.spec_width()));
        }
        let ghost g = self@;
        let ghost w = self.spec_width();
        let ghost h = self.spec_height();
        let n1 = self.cell(pr, pc);
        let n2 = self.cell(pr, column);
        let n3 = self.cell(pr, nc);
        let n4 = self.cell(row, pc);
        let n5 = self.cell(row, nc);
        let n6 = self.cell(nr, pc);
        let n7 = self.cell(nr, column);
        let n8 = self.cell(nr, nc);
        let mut count: u8 = 0;
        if let Cell::Alive = n1 {
            count = count + 1;
        }
        if let Cell::Alive = n2 {
            count = count + 1;
        }
        if let Cell::Alive = n3 {
            count = count + 1;
        }
        if let Cell::Alive = n4 {
            count = count + 1;
        }
        if let Cell::Alive = n5 {
            count = count + 1;
        }
        if let Cell::Alive = n6 {
            count = count + 1;
        }
        if let Cell::Alive = n7 {
            count = count + 1;
        }
        if let Cell::Alive = n8 {
            count = count + 1;
        }
        proof {
            assert(count as nat == live_neighbors(g, w, h, row as int, column as int));
        }
        count
    }

    /// Advances the whole grid one generation. Every cell of the result is
    /// computed from the same snapshot of the prior generation: the next
    /// state is built in a fresh buffer and swapped in only when complete.
    #[verifier::loop_isolation(false)]
    pub fn tick(&mut self)
        requires
            old(self).wf(),
        ensures
            final(self).wf(),
            final(self).spec_width() == old(self).spec_width(),
            final(self).spec_height() == old(self).spec_height(),
            final(self)@ == tick_spec(
                old(self)@,
                old(self).spec_width(),
                old(self).spec_height(),
            ),
    {
        let ghost g = self@;
        let ghost w = self.spec_width();
        let ghost h = self.spec_height();
        let len = self.cells.len();
        let mut next: Vec<u8> = Vec::new();
        while next.len() < len
            invariant
                next@.len() <= len,
            decreases len - next@.len(),
        {
            next.push(0u8);
        }
        let mut row: usize = 0;
        while row < self.height
            invariant
                row <= self.spec_height(),
                next@.len() == len,
                forall|i: int|
                    0 <= i < row as int * w ==> bit_at(next@, i) == (tick_spec(g, w, h)[i]
                        == Cell::Alive),
            decreases self.spec_height() - row,
        {
            let mut col: usize = 0;
            while col < self.width
                invariant
                    col <= self.spec_width(),
                    row < self.spec_height(),
                    next@.len() == len,
                    forall|i: int|
                        0 <= i < row as int * w + col as int ==> bit_at(next@, i) == (tick_spec(
                            g,
                            w,
                            h,
                        )[i] == Cell::Alive),
                decreases self.spec_width() - col,
            {
                let s = self.cell(row, col);
                let n = self.live_neighbor_count(row, col);
                let next_cell = match s {
                    Cell::Alive => if n == 2 || n == 3 {
                        Cell::Alive
                    } else {
                        Cell::Dead
                    },
                    Cell::Dead => if n == 3 {
                        Cell::Alive
                    } else {
                        Cell::Dead
                    },
                };
                let idx = self.get_index(row, col);
                let b = match next_cell {
                    Cell::Alive => true,
                    Cell::Dead => false,
                };
                bit_set(&mut next, idx, b);
                proof {
                    lemma_index_recover(w, row as int, col as int);
                    assert(next_cell == step_cell(
                        g[idx as int],
                        live_neighbors(g, w, h, row as int, col as int),
                    ));
                    assert(tick_spec(g, w, h)[idx as int] == next_cell);
                }
                col = col + 1;
            }
            proof {
                assert(row as int * w + self.spec_width() == (row as int + 1) * w) by (nonlinear_arith)
                    requires
                        w == self.spec_width(),
                ;
            }
            row = row + 1;
        }
        proof {
            assert(row as int == h);
            assert(h * w == w * h) by (nonlinear_arith);
        }
        let ghost nb = next@;
        self.cells = next;
        proof {
            assert forall|i: int| 0 <= i < self@.len() implies self@[i] == tick_spec(g, w, h)[i] by {
                assert(0 <= i < row as int * w);
                assert(bit_at(nb, i) == (tick_spec(g, w, h)[i] == Cell::Alive));
                assert(self.cells@ == nb);
            }
            assert(self@ =~= tick_spec(g, w, h));
        }
    }

    /// The grid height.
    pub fn height(&self) -> (h: usize)
        ensures
            h as int == self.spec_height(),
    {
        self.height
    }

    /// The grid width.
    pub fn width(&self) -> (w: usize)
        ensures
            w as int == self.spec_width(),
    {
        self.width
    }

    /// A borrowed, read-oriented view of the packed backing bytes, for a host
    /// to render without copying. Bit `i % 8` of byte `i / 8` is set exactly
    /// when cell `i` is alive. The host must not hold the borrow across a
    /// mutating call.
    pub fn cells_ptr(&self) -> (r: &Vec<u8>)
        requires
            self.wf(),
        ensures
            r@ == self.storage(),
            8 * r@.len() >= self@.len(),
            forall|i: int|
                0 <= i < self@.len() ==> (self@[i] == Cell::Alive <==> bit_at(r@, i)),
    {
        &self.cells
    }

    /// The length in bytes of the packed backing storage.
    pub fn cells_len(&self) -> (n: usize)
        requires
            self.wf(),
        ensures
            n == self.storage().len(),
            n as int == (self.spec_width() * self.spec_height() + 7) / 8,
    {
        self.cells.len()
    }
}

} // verus!
