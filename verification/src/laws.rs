//! Laws of the transition rule, stated over the grid model and proved
//! once for all grid sizes and positions.

use crate::rules::{
    at, b2n, glyph, grid_of, lemma_coords_of_index, lemma_index_bound, lemma_index_to_coords,
    live_neighbors, next_state, render_grid, render_row, render_rows, step, step_n, wrap_dec,
    wrap_inc,
};
use vstd::prelude::*;

verus! {

/// Determinism: the generation function is a pure function of the grid
/// alone, so equal grids stay equal under any number of steps.
pub proof fn lemma_step_deterministic(g1: Seq<bool>, g2: Seq<bool>, w: nat, h: nat, n: nat)
    requires
        g1 == g2,
    ensures
        step_n(g1, w, h, n) == step_n(g2, w, h, n),
{
}

/// One cell of the next generation is the rule applied to that cell and
/// its toroidal neighbor count in the current generation.
pub proof fn lemma_step_at(g: Seq<bool>, w: nat, h: nat, r: nat, c: nat)
    requires
        g.len() == h * w,
        r < h,
        c < w,
    ensures
        at(step(g, w, h), w, r, c) == next_state(at(g, w, r, c), live_neighbors(g, w, h, r, c)),
{
    lemma_index_bound(w, h, r, c);
    lemma_coords_of_index(w, h, r, c);
}

/// Birth and survival: a dead cell comes alive exactly with 3 alive
/// neighbors (with 2 or 4 it stays dead), and an alive cell survives
/// exactly with 2 or 3.
pub proof fn lemma_birth_and_survival(g: Seq<bool>, w: nat, h: nat, r: nat, c: nat)
    requires
        g.len() == h * w,
        r < h,
        c < w,
    ensures
        !at(g, w, r, c) ==> (at(step(g, w, h), w, r, c) <==> live_neighbors(g, w, h, r, c) == 3),
        at(g, w, r, c) ==> (at(step(g, w, h), w, r, c) <==> (live_neighbors(g, w, h, r, c) == 2
            || live_neighbors(g, w, h, r, c) == 3)),
{
    lemma_step_at(g, w, h, r, c);
}

/// Toroidal wraparound at the corners: the neighbors of `(0, 0)` are
/// exactly the wrapped cells, among them `(h-1, w-1)` diagonally, and the
/// neighbors of `(h-1, w-1)` include `(0, 0)` diagonally.
pub proof fn lemma_corner_wraparound(g: Seq<bool>, w: nat, h: nat)
    requires
        3 <= w,
        3 <= h,
    ensures
        live_neighbors(g, w, h, 0, 0) == b2n(at(g, w, (h - 1) as nat, (w - 1) as nat)) + b2n(
            at(g, w, (h - 1) as nat, 0),
        ) + b2n(at(g, w, (h - 1) as nat, 1)) + b2n(at(g, w, 0, (w - 1) as nat)) + b2n(
            at(g, w, 0, 1),
        ) + b2n(at(g, w, 1, (w - 1) as nat)) + b2n(at(g, w, 1, 0)) + b2n(at(g, w, 1, 1)),
        live_neighbors(g, w, h, (h - 1) as nat, (w - 1) as nat) == b2n(
            at(g, w, (h - 2) as nat, (w - 2) as nat),
        ) + b2n(at(g, w, (h - 2) as nat, (w - 1) as nat)) + b2n(at(g, w, (h - 2) as nat, 0)) + b2n(
            at(g, w, (h - 1) as nat, (w - 2) as nat),
        ) + b2n(at(g, w, (h - 1) as nat, 0)) + b2n(at(g, w, 0, (w - 2) as nat)) + b2n(
            at(g, w, 0, (w - 1) as nat),
        ) + b2n(at(g, w, 0, 0)),
{
}

/// The 8-neighbor count of a coordinate pattern, written over the
/// pattern itself.
pub open spec fn pattern_neighbors(
    w: nat,
    h: nat,
    p: spec_fn(nat, nat) -> bool,
    i: nat,
    j: nat,
) -> nat {
    let no = wrap_dec(i, h);
    let so = wrap_inc(i, h);
    let we = wrap_dec(j, w);
    let ea = wrap_inc(j, w);
    b2n(p(no, we)) + b2n(p(no, j)) + b2n(p(no, ea)) + b2n(p(i, we)) + b2n(p(i, ea)) + b2n(
        p(so, we),
    ) + b2n(p(so, j)) + b2n(p(so, ea))
}

/// A pattern grid holds its pattern's value at every in-range coordinate.
pub proof fn lemma_grid_of_at(w: nat, h: nat, p: spec_fn(nat, nat) -> bool, i: nat, j: nat)
    requires
        i < h,
        j < w,
    ensures
        at(grid_of(w, h, p), w, i, j) == p(i, j),
{
    lemma_index_bound(w, h, i, j);
    lemma_coords_of_index(w, h, i, j);
}

/// On a pattern grid, one cell of the next generation is the rule applied
/// to the pattern and its pattern neighbor count.
pub proof fn lemma_step_grid_of_at(w: nat, h: nat, p: spec_fn(nat, nat) -> bool, i: nat, j: nat)
    requires
        0 < w,
        0 < h,
        i < h,
        j < w,
    ensures
        live_neighbors(grid_of(w, h, p), w, h, i, j) == pattern_neighbors(w, h, p, i, j),
        at(step(grid_of(w, h, p), w, h), w, i, j) == next_state(
            p(i, j),
            pattern_neighbors(w, h, p, i, j),
        ),
{
    let g = grid_of(w, h, p);
    assert(g.len() == h * w);
    lemma_step_at(g, w, h, i, j);
    lemma_grid_of_at(w, h, p, i, j);
    lemma_grid_of_at(w, h, p, wrap_dec(i, h), wrap_dec(j, w));
    lemma_grid_of_at(w, h, p, wrap_dec(i, h), j);
    lemma_grid_of_at(w, h, p, wrap_dec(i, h), wrap_inc(j, w));
    lemma_grid_of_at(w, h, p, i, wrap_dec(j, w));
    lemma_grid_of_at(w, h, p, i, wrap_inc(j, w));
    lemma_grid_of_at(w, h, p, wrap_inc(i, h), wrap_dec(j, w));
    lemma_grid_of_at(w, h, p, wrap_inc(i, h), j);
    lemma_grid_of_at(w, h, p, wrap_inc(i, h), wrap_inc(j, w));
}

/// If applying the rule to pattern `p` gives pattern `q` at every
/// coordinate, one generation takes the grid of `p` to the grid of `q`.
pub proof fn lemma_step_pattern(
    w: nat,
    h: nat,
    p: spec_fn(nat, nat) -> bool,
    q: spec_fn(nat, nat) -> bool,
)
    requires
        0 < w,
        0 < h,
        forall|i: nat, j: nat|
            i < h && j < w ==> #[trigger] q(i, j) == next_state(
                p(i, j),
                pattern_neighbors(w, h, p, i, j),
            ),
    ensures
        step(grid_of(w, h, p), w, h) == grid_of(w, h, q),
{
    let gp = grid_of(w, h, p);
    let gq = grid_of(w, h, q);
    assert forall|k: int| 0 <= k < h * w implies step(gp, w, h)[k] == gq[k] by {
        let ki: nat = k as nat;
        lemma_index_to_coords(w, h, ki);
        let i: nat = ki / w;
        let j: nat = ki % w;
        lemma_step_grid_of_at(w, h, p, i, j);
        lemma_grid_of_at(w, h, q, i, j);
        assert(q(i, j) == next_state(p(i, j), pattern_neighbors(w, h, p, i, j)));
    }
    assert(step(gp, w, h) =~= gq);
}

/// The 2-by-2 block: alive at rows `r, r+1`, columns `c, c+1`.
pub open spec fn block_pattern(r: nat, c: nat) -> spec_fn(nat, nat) -> bool {
    |i: nat, j: nat| r <= i <= r + 1 && c <= j <= c + 1
}

/// A lone alive cell at `(r, c)`.
pub open spec fn lone_pattern(r: nat, c: nat) -> spec_fn(nat, nat) -> bool {
    |i: nat, j: nat| i == r && j == c
}

/// The all-dead pattern.
pub open spec fn dead_pattern() -> spec_fn(nat, nat) -> bool {
    |i: nat, j: nat| false
}

/// Three alive cells in a row: row `r`, columns `c-1, c, c+1`.
pub open spec fn horiz_pattern(r: nat, c: nat) -> spec_fn(nat, nat) -> bool {
    |i: nat, j: nat| i == r && c <= j + 1 && j <= c + 1
}

/// Three alive cells in a column: column `c`, rows `r-1, r, r+1`.
pub open spec fn vert_pattern(r: nat, c: nat) -> spec_fn(nat, nat) -> bool {
    |i: nat, j: nat| j == c && r <= i + 1 && i <= r + 1
}

/// Still life: a 2-by-2 block of alive cells surrounded by dead cells is
/// invariant under one generation, wherever it sits short of straddling
/// the wrapping seam.
pub proof fn lemma_block_still_life(w: nat, h: nat, r: nat, c: nat)
    requires
        4 <= w,
        4 <= h,
        r + 1 < h,
        c + 1 < w,
    ensures
        step(grid_of(w, h, block_pattern(r, c)), w, h) == grid_of(w, h, block_pattern(r, c)),
{
    let p = block_pattern(r, c);
    assert forall|i: nat, j: nat| i < h && j < w implies #[trigger] p(i, j) == next_state(
        p(i, j),
        pattern_neighbors(w, h, p, i, j),
    ) by {
        assert(p(i, j) == (r <= i <= r + 1 && c <= j <= c + 1));
    }
    lemma_step_pattern(w, h, p, p);
}

/// Isolation death: a lone alive cell has no alive neighbor and dies,
/// and no dead cell has 3 alive neighbors, so the whole grid dies.
pub proof fn lemma_isolation_death(w: nat, h: nat, r: nat, c: nat)
    requires
        3 <= w,
        3 <= h,
        r < h,
        c < w,
    ensures
        step(grid_of(w, h, lone_pattern(r, c)), w, h) == grid_of(w, h, dead_pattern()),
{
    let p = lone_pattern(r, c);
    let q = dead_pattern();
    assert forall|i: nat, j: nat| i < h && j < w implies #[trigger] q(i, j) == next_state(
        p(i, j),
        pattern_neighbors(w, h, p, i, j),
    ) by {
        assert(p(i, j) == (i == r && j == c));
    }
    lemma_step_pattern(w, h, p, q);
}

/// The blinker oscillates with period 2: a horizontal line of three
/// becomes a vertical line of three after one generation, back after two.
pub proof fn lemma_blinker_period_two(w: nat, h: nat, r: nat, c: nat)
    requires
        2 <= r,
        r + 2 < h,
        2 <= c,
        c + 2 < w,
    ensures
        step(grid_of(w, h, horiz_pattern(r, c)), w, h) == grid_of(w, h, vert_pattern(r, c)),
        step(grid_of(w, h, vert_pattern(r, c)), w, h) == grid_of(w, h, horiz_pattern(r, c)),
        step_n(grid_of(w, h, horiz_pattern(r, c)), w, h, 2) == grid_of(w, h, horiz_pattern(r, c)),
{
    let p = horiz_pattern(r, c);
    let q = vert_pattern(r, c);
    assert forall|i: nat, j: nat| i < h && j < w implies #[trigger] q(i, j) == next_state(
        p(i, j),
        pattern_neighbors(w, h, p, i, j),
    ) by {
        assert(p(i, j) == (i == r && c <= j + 1 && j <= c + 1));
        assert(q(i, j) == (j == c && r <= i + 1 && i <= r + 1));
    }
    lemma_step_pattern(w, h, p, q);
    assert forall|i: nat, j: nat| i < h && j < w implies #[trigger] p(i, j) == next_state(
        q(i, j),
        pattern_neighbors(w, h, q, i, j),
    ) by {
        assert(p(i, j) == (i == r && c <= j + 1 && j <= c + 1));
        assert(q(i, j) == (j == c && r <= i + 1 && i <= r + 1));
    }
    lemma_step_pattern(w, h, q, p);
    let gp = grid_of(w, h, p);
    assert(step_n(gp, w, h, 0) == gp);
    assert(step_n(gp, w, h, 1) == step(step_n(gp, w, h, 0), w, h));
    assert(step_n(gp, w, h, 2) == step(step_n(gp, w, h, 1), w, h));
}

/// The row-major position of glyph `c` of rendered line `r`: each line
/// holds `w` glyphs and one newline.
pub open spec fn render_index(w: nat, r: nat, c: nat) -> nat {
    r * (w + 1) + c
}

/// Render shape: the rendering of an `h`-row grid of width `w` has
/// exactly `h * (w + 1)` characters; position `c < w` of line `r` is the
/// glyph of cell `(r, c)`, and position `w` of every line is a newline.
pub proof fn lemma_render_shape(g: Seq<bool>, w: nat, h: nat)
    ensures
        render_grid(g, w, h).len() == h * (w + 1),
        forall|r: nat, c: nat|
            r < h && c < w ==> render_grid(g, w, h)[render_index(w, r, c) as int] == glyph(
                at(g, w, r, c),
            ),
        forall|r: nat|
            r < h ==> render_grid(g, w, h)[#[trigger] render_index(w, r, w) as int] == '\n',
    decreases h,
{
    if h > 0 {
        let hp: nat = (h - 1) as nat;
        lemma_render_shape(g, w, hp);
        assert(render_rows(g, w, h) == render_rows(g, w, hp) + render_row(g, w, hp));
        assert(render_row(g, w, hp).len() == w + 1);
        assert(h * (w + 1) == hp * (w + 1) + (w + 1)) by (nonlinear_arith)
            requires
                h == hp + 1,
        ;
        assert forall|r: nat, c: nat|
            r < h && c <= w implies render_grid(g, w, h)[render_index(w, r, c) as int] == (if c < w {
            glyph(at(g, w, r, c))
        } else {
            '\n'
        }) by {
            if r < hp {
                lemma_index_bound(w + 1, hp, r, c);
                assert(render_index(w, r, c) < hp * (w + 1));
                if c < w {
                    assert(render_grid(g, w, hp)[render_index(w, r, c) as int] == glyph(
                        at(g, w, r, c),
                    ));
                } else {
                    assert(render_grid(g, w, hp)[render_index(w, r, w) as int] == '\n');
                }
            } else {
                assert(r == hp);
                assert(render_index(w, r, c) == hp * (w + 1) + c);
                let row = render_row(g, w, hp);
                assert(render_grid(g, w, h)[render_index(w, r, c) as int] == row[c as int]);
                if c < w {
                    assert(row[c as int] == glyph(at(g, w, hp, c)));
                } else {
                    assert(row[c as int] == '\n');
                }
            }
        }
    }
}

} // verus!
