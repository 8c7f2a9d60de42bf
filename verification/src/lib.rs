//! Conway's Game of Life on a fixed-size toroidal grid.
//!
//! The engine keeps two equally sized buffers of cells and a selector bit.
//! A generation step reads the whole current buffer, writes the next
//! generation into the other buffer, and then flips the selector, so a
//! reader never sees a half-computed generation.

mod laws;
mod rules;
mod universe;

pub use laws::block_pattern;
pub use laws::dead_pattern;
pub use laws::horiz_pattern;
pub use laws::lemma_birth_and_survival;
pub use laws::lemma_blinker_period_two;
pub use laws::lemma_block_still_life;
pub use laws::lemma_corner_wraparound;
pub use laws::lemma_grid_of_at;
pub use laws::lemma_isolation_death;
pub use laws::lemma_render_shape;
pub use laws::lemma_step_at;
pub use laws::lemma_step_deterministic;
pub use laws::lemma_step_grid_of_at;
pub use laws::lemma_step_pattern;
pub use laws::lone_pattern;
pub use laws::pattern_neighbors;
pub use laws::render_index;
pub use laws::vert_pattern;
pub use rules::at;
pub use rules::b2n;
pub use rules::glyph;
pub use rules::grid_of;
pub use rules::lemma_coords_of_index;
pub use rules::lemma_index_bound;
pub use rules::lemma_index_to_coords;
pub use rules::live_neighbors;
pub use rules::next_state;
pub use rules::render_grid;
pub use rules::render_row;
pub use rules::render_rows;
pub use rules::step;
pub use rules::step_n;
pub use rules::wrap_dec;
pub use rules::wrap_inc;
pub use universe::cells_to_bools;
pub use universe::listed_upto;
pub use universe::Cell;
pub use universe::Universe;
