//! Rules engine of a Minesweeper game: the board, the action state machine,
//! the flood reveal and the mapping between rendering space and grid cells.

mod assets;
mod board;
mod coords;
mod flood;
mod game;
mod grid;
mod laws;
mod play;
mod states;
mod tile;

pub use assets::{
    asset_path, asset_path_of, asset_path_tile, decimal, digit_char, final_sprite, play_sprite, EmbeddedAssetsPlugin,
    ASSET_PREFIX,
};
pub use coords::{
    axis_cell, cell_at, lemma_outside_grid, lemma_tile_position_round_trip, round_pitch, tile_center, top_left_of, Point,
    TILE_GAP, TILE_SIZE, TILE_SIZE_WITH_GAP,
};
pub use game::{all_covered, all_safe_revealed, flags_hidden, fresh_board, valid_config, Game};
pub use grid::{
    adjacent, bomb_at, bomb_tiles, bombs_around, covered_tiles, grid_count, grid_of, has_shape, in_grid, listed,
    numbers_ok, row_count, safe_tiles,
};
pub use laws::{lemma_finished_game_is_frozen, lemma_flag_twice, lemma_last_safe_cell_wins};
pub use flood::{
    all_reached, block_rank, flood_done, lists_exactly, newly, newly_clean, only_reveals, opens, reached,
    spread_from_zeros,
};
pub use play::{action_effect, action_result, toggled};
pub use states::GameState;
pub use tile::{Action, GameError, Response, Tile};
