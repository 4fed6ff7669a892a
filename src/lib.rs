pub mod ai_infra;
pub mod arena;
pub mod bits;
pub mod driver;
pub mod dumm_ai;
pub mod game;
pub mod line_four_7x6;
pub mod line_four_8x8;
pub mod search;
pub mod slice_arena;
pub mod tic_tac_toe;
pub mod uno_basic_game;
