//! Mathematical model of the Game of Life on a torus: cell states, the
//! row-major coordinate encoding, toroidal neighbor arithmetic, and the
//! B3/S23 transition rule applied simultaneously to a whole generation.

use vstd::arithmetic::div_mod::{
    lemma_fundamental_div_mod_converse, lemma_mod_add_multiples_vanish, lemma_mod_self_0,
    lemma_small_mod,
};
use vstd::prelude::*;

verus! {

/// The state of one cell of the grid.
#[derive(Clone, Copy, Debug, PartialEq, Eq, Structural)]
pub enum Cell {
    Dead,
    Alive,
}

/// 1 if the cell at row `r`, column `c` of a grid with `w` columns is alive,
/// 0 otherwise.
pub open spec fn alive_at(g: Seq<Cell>, w: int, r: int, c: int) -> nat {
    if g[r * w + c] == Cell::Alive {
        1nat
    } else {
        0nat
    }
}

/// The coordinate one step before `x` on a ring of size `m`, written with the
/// addition `(x + m - 1) % m` so that no negative number ever arises.
#[verifier::opaque]
pub open spec fn wrap_dec(x: int, m: int) -> int {
    (x + m - 1) % m
}

/// The coordinate one step after `x` on a ring of size `m`.
#[verifier::opaque]
pub open spec fn wrap_inc(x: int, m: int) -> int {
    (x + 1) % m
}

/// The number of live cells, between 0 and 8, among the eight toroidal
/// neighbors of (r, c) on a `w` by `h` grid.
pub open spec fn live_neighbors(g: Seq<Cell>, w: int, h: int, r: int, c: int) -> nat {
    alive_at(g, w, wrap_dec(r, h), wrap_dec(c, w)) + alive_at(g, w, wrap_dec(r, h), c) + alive_at(
        g,
        w,
        wrap_dec(r, h),
        wrap_inc(c, w),
    ) + alive_at(g, w, r, wrap_dec(c, w)) + alive_at(g, w, r, wrap_inc(c, w)) + alive_at(
        g,
        w,
        wrap_inc(r, h),
        wrap_dec(c, w),
    ) + alive_at(g, w, wrap_inc(r, h), c) + alive_at(g, w, wrap_inc(r, h), wrap_inc(c, w))
}

/// The B3/S23 rule for one cell: a live cell survives with two or three live
/// neighbors and dies otherwise; a dead cell is born with exactly three.
pub open spec fn step_cell(s: Cell, n: nat) -> Cell {
    match s {
        Cell::Alive => if 2 <= n && n <= 3 {
            Cell::Alive
        } else {
            Cell::Dead
        },
        Cell::Dead => if n == 3 {
            Cell::Alive
        } else {
            Cell::Dead
        },
    }
}

/// The whole next generation, each cell computed from the same snapshot `g`.
pub open spec fn tick_spec(g: Seq<Cell>, w: int, h: int) -> Seq<Cell> {
    Seq::new((w * h) as nat, |i: int| step_cell(g[i], live_neighbors(g, w, h, i / w, i % w)))
}

/// Row-major indices of in-range coordinates lie within the grid.
pub proof fn lemma_index_bounds(w: int, h: int, r: int, c: int)
    by (nonlinear_arith)
    requires
        0 <= r < h,
        0 <= c < w,
    ensures
        0 <= r * w + c < w * h,
{
}

/// A row-major index determines its coordinates: dividing by the width
/// recovers the row, the remainder recovers the column.
pub proof fn lemma_index_recover(w: int, r: int, c: int)
    requires
        0 <= r,
        0 <= c < w,
    ensures
        (r * w + c) / w == r,
        (r * w + c) % w == c,
{
    lemma_fundamental_div_mod_converse(r * w + c, w, r, c);
}

/// On a ring of size `m`, stepping backward from `x` reaches `m - 1` from 0
/// and `x - 1` from anywhere else.
pub proof fn lemma_wrap_dec(x: int, m: int)
    requires
        0 <= x < m,
    ensures
        wrap_dec(x, m) == if x == 0 {
            m - 1
        } else {
            x - 1
        },
        0 <= wrap_dec(x, m) < m,
{
    reveal(wrap_dec);
    if x == 0 {
        lemma_small_mod((m - 1) as nat, m as nat);
    } else {
        lemma_mod_add_multiples_vanish(x - 1, m);
        lemma_small_mod((x - 1) as nat, m as nat);
    }
}

/// On a ring of size `m`, stepping forward from `x` reaches 0 from `m - 1`
/// and `x + 1` from anywhere else.
pub proof fn lemma_wrap_inc(x: int, m: int)
    requires
        0 <= x < m,
    ensures
        wrap_inc(x, m) == if x == m - 1 {
            0
        } else {
            x + 1
        },
        0 <= wrap_inc(x, m) < m,
{
    reveal(wrap_inc);
    if x == m - 1 {
        lemma_mod_self_0(m);
    } else {
        lemma_small_mod((x + 1) as nat, m as nat);
    }
}

} // verus!
