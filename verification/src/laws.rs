//! Properties of the grid model, stated and proved over the same spec
//! functions the engine's contracts use.

use crate::life::{
    alive_at, lemma_index_bounds, lemma_index_recover, lemma_wrap_dec, lemma_wrap_inc,
    live_neighbors, tick_spec, wrap_dec, wrap_inc, Cell,
};
use vstd::arithmetic::div_mod::{lemma_div_pos_is_pos, lemma_mod_bound, lemma_multiply_divide_lt};
use vstd::prelude::*;

verus! {

/// The `w` by `h` grid with every cell dead.
pub open spec fn all_dead(w: int, h: int) -> Seq<Cell> {
    Seq::new((w * h) as nat, |i: int| Cell::Dead)
}

/// The grid after `n` generation advances from `g`.
pub open spec fn tick_iter(g: Seq<Cell>, w: int, h: int, n: nat) -> Seq<Cell>
    decreases n,
{
    if n == 0 {
        g
    } else {
        tick_spec(tick_iter(g, w, h, (n - 1) as nat), w, h)
    }
}

/// Writing a value at one coordinate and reading that coordinate back yields
/// the written value, and reading any other coordinate yields what was there
/// before: row-major indexing maps distinct coordinates to distinct indices.
pub proof fn lemma_write_then_read(
    g: Seq<Cell>,
    w: int,
    h: int,
    row: int,
    col: int,
    v: Cell,
    r2: int,
    c2: int,
)
    requires
        g.len() == w * h,
        0 <= row < h,
        0 <= col < w,
        0 <= r2 < h,
        0 <= c2 < w,
    ensures
        g.update(row * w + col, v)[row * w + col] == v,
        (r2, c2) != (row, col) ==> g.update(row * w + col, v)[r2 * w + c2] == g[r2 * w + c2],
{
    lemma_index_bounds(w, h, row, col);
    lemma_index_bounds(w, h, r2, c2);
    if (r2, c2) != (row, col) {
        lemma_index_recover(w, row, col);
        lemma_index_recover(w, r2, c2);
        assert(r2 * w + c2 != row * w + col);
    }
}

/// On an all-dead grid every cell reads dead.
proof fn lemma_alive_at_dead(w: int, h: int, r: int, c: int)
    requires
        0 <= r < h,
        0 <= c < w,
    ensures
        alive_at(all_dead(w, h), w, r, c) == 0,
{
    lemma_index_bounds(w, h, r, c);
}

/// One generation advance of the all-dead grid changes nothing: no cell has
/// the three live neighbors a birth requires.
pub proof fn lemma_dead_tick(w: int, h: int)
    requires
        1 <= w,
        1 <= h,
    ensures
        tick_spec(all_dead(w, h), w, h) == all_dead(w, h),
{
    let g = all_dead(w, h);
    assert forall|i: int| 0 <= i < w * h implies tick_spec(g, w, h)[i] == g[i] by {
        let r = i / w;
        let c = i % w;
        lemma_div_pos_is_pos(i, w);
        lemma_multiply_divide_lt(i, w, h);
        lemma_mod_bound(i, w);
        lemma_wrap_dec(r, h);
        lemma_wrap_inc(r, h);
        lemma_wrap_dec(c, w);
        lemma_wrap_inc(c, w);
        lemma_alive_at_dead(w, h, wrap_dec(r, h), wrap_dec(c, w));
        lemma_alive_at_dead(w, h, wrap_dec(r, h), c);
        lemma_alive_at_dead(w, h, wrap_dec(r, h), wrap_inc(c, w));
        lemma_alive_at_dead(w, h, r, wrap_dec(c, w));
        lemma_alive_at_dead(w, h, r, wrap_inc(c, w));
        lemma_alive_at_dead(w, h, wrap_inc(r, h), wrap_dec(c, w));
        lemma_alive_at_dead(w, h, wrap_inc(r, h), c);
        lemma_alive_at_dead(w, h, wrap_inc(r, h), wrap_inc(c, w));
        assert(live_neighbors(g, w, h, r, c) == 0);
        assert(g[i] == Cell::Dead);
    }
    assert(tick_spec(g, w, h) =~= g);
}

/// Whether (r, c) lies in the two-by-two block whose top-left cell is (r0, c0).
pub open spec fn in_block(r0: int, c0: int, r: int, c: int) -> bool {
    r0 <= r <= r0 + 1 && c0 <= c <= c0 + 1
}

/// The `w` by `h` grid that is dead everywhere except a two-by-two block of
/// live cells with its top-left cell at (r0, c0).
pub open spec fn block_grid(w: int, h: int, r0: int, c0: int) -> Seq<Cell> {
    Seq::new(
        (w * h) as nat,
        |i: int|
            if in_block(r0, c0, i / w, i % w) {
                Cell::Alive
            } else {
                Cell::Dead
            },
    )
}

/// On a block grid a cell reads alive exactly when it lies in the block.
proof fn lemma_alive_at_block(w: int, h: int, r0: int, c0: int, r: int, c: int)
    requires
        0 <= r < h,
        0 <= c < w,
    ensures
        alive_at(block_grid(w, h, r0, c0), w, r, c) == if in_block(r0, c0, r, c) {
            1nat
        } else {
            0nat
        },
{
    lemma_index_bounds(w, h, r, c);
    lemma_index_recover(w, r, c);
}

/// With a one-cell margin between an interval and both ends of the ring,
/// membership of a wrapped step in the interval agrees with the unwrapped
/// arithmetic: wrapping can only land outside the interval.
proof fn lemma_wrap_margin(m: int, x0: int, x: int)
    requires
        1 <= x0,
        x0 + 1 <= m - 2,
        0 <= x < m,
    ensures
        (x0 <= wrap_dec(x, m) <= x0 + 1) == (x0 <= x - 1 <= x0 + 1),
        (x0 <= wrap_inc(x, m) <= x0 + 1) == (x0 <= x + 1 <= x0 + 1),
{
    lemma_wrap_dec(x, m);
    lemma_wrap_inc(x, m);
}

/// A two-by-two block of live cells with a dead margin on every side is a
/// still life: each block cell has exactly three live neighbors and survives,
/// and no dead cell sees the three live neighbors a birth requires, so one
/// generation advance leaves the grid unchanged.
pub proof fn lemma_block_still_life(w: int, h: int, r0: int, c0: int)
    requires
        1 <= r0,
        r0 + 1 <= h - 2,
        1 <= c0,
        c0 + 1 <= w - 2,
    ensures
        tick_spec(block_grid(w, h, r0, c0), w, h) == block_grid(w, h, r0, c0),
{
    let g = block_grid(w, h, r0, c0);
    assert forall|i: int| 0 <= i < w * h implies tick_spec(g, w, h)[i] == g[i] by {
        let r = i / w;
        let c = i % w;
        lemma_div_pos_is_pos(i, w);
        lemma_multiply_divide_lt(i, w, h);
        lemma_mod_bound(i, w);
        lemma_wrap_dec(r, h);
        lemma_wrap_inc(r, h);
        lemma_wrap_dec(c, w);
        lemma_wrap_inc(c, w);
        let pr = wrap_dec(r, h);
        let nr = wrap_inc(r, h);
        let pc = wrap_dec(c, w);
        let nc = wrap_inc(c, w);
        lemma_alive_at_block(w, h, r0, c0, pr, pc);
        lemma_alive_at_block(w, h, r0, c0, pr, c);
        lemma_alive_at_block(w, h, r0, c0, pr, nc);
        lemma_alive_at_block(w, h, r0, c0, r, pc);
        lemma_alive_at_block(w, h, r0, c0, r, nc);
        lemma_alive_at_block(w, h, r0, c0, nr, pc);
        lemma_alive_at_block(w, h, r0, c0, nr, c);
        lemma_alive_at_block(w, h, r0, c0, nr, nc);
        lemma_wrap_margin(h, r0, r);
        lemma_wrap_margin(w, c0, c);
        let n = live_neighbors(g, w, h, r, c);
        if in_block(r0, c0, r, c) {
            assert(n == 3);
            assert(g[i] == Cell::Alive);
        } else {
            assert(n != 3);
            assert(g[i] == Cell::Dead);
        }
    }
    assert(tick_spec(g, w, h) =~= g);
}

/// An all-dead grid stays all dead through any number of generation advances.
pub proof fn lemma_dead_stable(w: int, h: int, n: nat)
    requires
        1 <= w,
        1 <= h,
    ensures
        tick_iter(all_dead(w, h), w, h, n) == all_dead(w, h),
    decreases n,
{
    if n > 0 {
        lemma_dead_stable(w, h, (n - 1) as nat);
        lemma_dead_tick(w, h);
    }
}

} // verus!
