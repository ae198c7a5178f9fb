//! Tilt puzzle core: a grid of static terrain, a set of loose rocks, the
//! resolver that rolls every rock until the board is stable, and the
//! evaluator that decides whether a round is won or lost.

pub mod column_iter;
pub mod direction;
pub mod flat_map;
pub mod grid;
pub mod input;
pub mod laws;
pub mod levels;
pub mod map_data;
pub mod offset;
pub mod packing;
pub mod pos;
pub mod round;
pub mod row_iter;
pub mod settings;
pub mod state;
pub mod text;
pub mod tile;
pub mod tilt;
pub mod win_condition;
pub mod winning;
