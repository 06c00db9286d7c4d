use minesweeper::{
    final_sprite, play_sprite, Tile, asset_path, asset_path_tile, Game, GameState, Point, Response, TILE_GAP, TILE_SIZE, TILE_SIZE_WITH_GAP,
};

#[test]
fn pitch_constants() {
    assert_eq!(TILE_SIZE + TILE_GAP, TILE_SIZE_WITH_GAP);
    assert_eq!(TILE_SIZE_WITH_GAP, 34);
}

#[test]
fn top_left_is_centred() {
    let game = Game::new(30, 16, 20).unwrap();
    assert_eq!(game.top_left, Point { x: -510, y: 272 });
    assert_eq!(game.tile_position(0, 0), Point { x: -510, y: 272 });
    assert_eq!(game.tile_position(2, 3), Point { x: -442, y: 170 });
}

#[test]
fn coordinate_round_trip() {
    for (w, h) in [(1usize, 1usize), (3, 3), (30, 16), (7, 2)] {
        let game = Game::new(w, h, 0).unwrap();
        for y in 0..h {
            for x in 0..w {
                assert_eq!(game.world_to_tile(game.tile_position(x, y)), Some((x, y)));
            }
        }
    }
}

#[test]
fn points_outside_map_to_none() {
    let game = Game::new(3, 2, 1).unwrap();
    // top_left is (-51, 34); cells span x in (-68, 34) and y in (-17, 51)
    assert_eq!(game.top_left, Point { x: -51, y: 34 });
    assert_eq!(game.world_to_tile(Point { x: -68, y: 34 }), None);
    assert_eq!(game.world_to_tile(Point { x: -67, y: 34 }), Some((0, 0)));
    assert_eq!(game.world_to_tile(Point { x: 34, y: 34 }), None);
    assert_eq!(game.world_to_tile(Point { x: 33, y: 34 }), Some((2, 0)));
    assert_eq!(game.world_to_tile(Point { x: -17, y: 51 }), None);
    assert_eq!(game.world_to_tile(Point { x: -17, y: 50 }), Some((1, 0)));
    assert_eq!(game.world_to_tile(Point { x: -17, y: -17 }), None);
    assert_eq!(game.world_to_tile(Point { x: -17, y: -16 }), Some((1, 1)));
    assert_eq!(game.world_to_tile(Point { x: i128::MAX, y: 0 }), None);
    assert_eq!(game.world_to_tile(Point { x: 0, y: i128::MIN }), None);
}

#[test]
fn rounding_to_nearest_centre() {
    let game = Game::new(30, 16, 20).unwrap();
    assert_eq!(game.world_to_tile(Point { x: -494, y: 272 }), Some((0, 0)));
    assert_eq!(game.world_to_tile(Point { x: -493, y: 272 }), Some((1, 0)));
    assert_eq!(game.world_to_tile(Point { x: -510, y: 255 }), Some((0, 1)));
    assert_eq!(game.world_to_tile(Point { x: -510, y: 256 }), Some((0, 0)));
}

#[test]
fn window_centre_is_world_origin() {
    let game = Game::new(3, 3, 1).unwrap();
    assert_eq!(game.window_to_world(800, 600, 400, 300), Point { x: 0, y: 0 });
    assert_eq!(game.window_to_world(800, 600, 0, 0), Point { x: -400, y: 300 });
    assert_eq!(game.window_to_world(801, 601, 801, 601), Point { x: 401, y: -301 });
}

#[test]
fn asset_paths() {
    assert_eq!(asset_path("closed"), "embedded://minesweeper/assets//closed.png");
    assert_eq!(asset_path(""), "embedded://minesweeper/assets//.png");
    assert_eq!(asset_path_tile(0), "embedded://minesweeper/assets//0.png");
    assert_eq!(asset_path_tile(8), "embedded://minesweeper/assets//8.png");
    assert_eq!(asset_path_tile(42), "embedded://minesweeper/assets//42.png");
    assert_eq!(asset_path_tile(255), "embedded://minesweeper/assets//255.png");
    assert_eq!(asset_path_tile(107), "embedded://minesweeper/assets//107.png");
}

#[test]
fn state_after_outcome() {
    assert_eq!(GameState::after(&Response::GameOver), GameState::GameLost);
    assert_eq!(GameState::after(&Response::GameWon), GameState::GameWon);
    assert_eq!(GameState::after(&Response::Flag), GameState::Playing);
    assert_eq!(GameState::after(&Response::Reveal(vec![(0, 0)])), GameState::Playing);
    assert_eq!(GameState::default(), GameState::Playing);
}

#[test]
fn sprites_follow_tile_state() {
    let mut t = Tile::hidden();
    assert_eq!(play_sprite(&t), "embedded://minesweeper/assets//closed.png");
    t.flagged = true;
    assert_eq!(play_sprite(&t), "embedded://minesweeper/assets//flag.png");
    t.flagged = false;
    t.revealed = true;
    t.number = 3;
    assert_eq!(play_sprite(&t), "embedded://minesweeper/assets//3.png");
    assert_eq!(final_sprite(&t), "embedded://minesweeper/assets//3.png");
    t.bomb = true;
    assert_eq!(final_sprite(&t), "embedded://minesweeper/assets//bomb.png");
}
