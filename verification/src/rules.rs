//! The mathematical model of the automaton: row-major indexing on a
//! `width * height` grid of booleans (`true` = alive), toroidal neighbor
//! counting, the B3/S23 transition rule, and the textual rendering.

use vstd::arithmetic::div_mod::{
    lemma_fundamental_div_mod, lemma_fundamental_div_mod_converse, lemma_mod_bound,
    lemma_multiply_divide_lt,
};
use vstd::arithmetic::mul::lemma_mul_inequality;
use vstd::prelude::*;

verus! {

/// Numeric weight of a cell state: an alive cell contributes 1 to a
/// neighbor count, a dead one 0.
pub open spec fn b2n(b: bool) -> nat {
    if b {
        1nat
    } else {
        0nat
    }
}

/// The coordinate one step toward 0, wrapping to `n - 1` at the edge.
pub open spec fn wrap_dec(i: nat, n: nat) -> nat
    recommends
        0 < n,
        i < n,
{
    if i == 0 {
        (n - 1) as nat
    } else {
        (i - 1) as nat
    }
}

/// The coordinate one step away from 0, wrapping to 0 at the edge.
pub open spec fn wrap_inc(i: nat, n: nat) -> nat
    recommends
        0 < n,
        i < n,
{
    if i + 1 == n {
        0nat
    } else {
        i + 1
    }
}

/// The cell of a row-major grid of width `w` at row `r`, column `c`.
pub open spec fn at(g: Seq<bool>, w: nat, r: nat, c: nat) -> bool {
    g[(r * w + c) as int]
}

/// The number of alive cells among the 8 toroidal neighbors of `(r, c)`:
/// the 4 orthogonal and 4 diagonal combinations of the wrapped rows and
/// columns, excluding the center.
pub open spec fn live_neighbors(g: Seq<bool>, w: nat, h: nat, r: nat, c: nat) -> nat {
    let no = wrap_dec(r, h);
    let so = wrap_inc(r, h);
    let we = wrap_dec(c, w);
    let ea = wrap_inc(c, w);
    b2n(at(g, w, no, we)) + b2n(at(g, w, no, c)) + b2n(at(g, w, no, ea)) + b2n(at(g, w, r, we))
        + b2n(at(g, w, r, ea)) + b2n(at(g, w, so, we)) + b2n(at(g, w, so, c)) + b2n(
        at(g, w, so, ea),
    )
}

/// The B3/S23 rule for one cell: an alive cell survives with 2 or 3 alive
/// neighbors, a dead cell is born with exactly 3, everything else is dead.
pub open spec fn next_state(alive: bool, live: nat) -> bool {
    if alive {
        live == 2 || live == 3
    } else {
        live == 3
    }
}

/// One generation: every cell of the result is the rule applied to the
/// same cell of `g` and its toroidal neighbor count in `g`.
pub open spec fn step(g: Seq<bool>, w: nat, h: nat) -> Seq<bool> {
    Seq::new(
        g.len(),
        |k: int| next_state(g[k], live_neighbors(g, w, h, (k as nat) / w, (k as nat) % w)),
    )
}

/// `n` generations from `g`.
pub open spec fn step_n(g: Seq<bool>, w: nat, h: nat, n: nat) -> Seq<bool>
    decreases n,
{
    if n == 0 {
        g
    } else {
        step(step_n(g, w, h, (n - 1) as nat), w, h)
    }
}

/// The `h * w` grid whose cell at `(i, j)` is `p(i, j)`.
pub open spec fn grid_of(w: nat, h: nat, p: spec_fn(nat, nat) -> bool) -> Seq<bool> {
    Seq::new(h * w, |k: int| p((k as nat) / w, (k as nat) % w))
}

/// The glyph that renders one cell.
pub open spec fn glyph(alive: bool) -> char {
    if alive {
        '◼'
    } else {
        '◻'
    }
}

/// One rendered row: `w` glyphs followed by a newline.
pub open spec fn render_row(g: Seq<bool>, w: nat, r: nat) -> Seq<char> {
    Seq::new(w, |j: int| glyph(at(g, w, r, j as nat))).push('\n')
}

/// The first `r` rendered rows, top to bottom.
pub open spec fn render_rows(g: Seq<bool>, w: nat, r: nat) -> Seq<char>
    decreases r,
{
    if r == 0 {
        Seq::empty()
    } else {
        render_rows(g, w, (r - 1) as nat) + render_row(g, w, (r - 1) as nat)
    }
}

/// The full rendering of an `h`-row grid.
pub open spec fn render_grid(g: Seq<bool>, w: nat, h: nat) -> Seq<char> {
    render_rows(g, w, h)
}

/// In-range coordinates give a row-major index below the grid area.
pub proof fn lemma_index_bound(w: nat, h: nat, r: nat, c: nat)
    requires
        r < h,
        c < w,
    ensures
        r * w + c < h * w,
{
    lemma_mul_inequality((r + 1) as int, h as int, w as int);
    assert((r + 1) * w == r * w + w) by (nonlinear_arith);
}

/// A row-major index built from in-range coordinates decomposes back
/// into exactly those coordinates.
pub proof fn lemma_coords_of_index(w: nat, h: nat, r: nat, c: nat)
    requires
        r < h,
        c < w,
    ensures
        (r * w + c) / w == r,
        (r * w + c) % w == c,
{
    lemma_fundamental_div_mod_converse((r * w + c) as int, w as int, r as int, c as int);
}

/// Any index below the grid area decomposes into in-range coordinates.
pub proof fn lemma_index_to_coords(w: nat, h: nat, k: nat)
    requires
        0 < w,
        k < h * w,
    ensures
        k / w < h,
        k % w < w,
        (k / w) * w + (k % w) == k,
{
    lemma_mod_bound(k as int, w as int);
    lemma_fundamental_div_mod(k as int, w as int);
    assert(k < w * h) by (nonlinear_arith)
        requires
            k < h * w,
    ;
    lemma_multiply_divide_lt(k as int, w as int, h as int);
    assert((k as int) / (w as int) * (w as int) == (w as int) * ((k as int) / (w as int)))
        by (nonlinear_arith);
}

} // verus!
