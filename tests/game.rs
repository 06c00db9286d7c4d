use minesweeper::{Action, Game, GameError, Response, Tile};

fn bombs_on(game: &Game) -> usize {
    let mut n = 0;
    for row in &game.board {
        for t in row {
            if t.bomb {
                n += 1;
            }
        }
    }
    n
}

fn neighbours_with_bombs(game: &Game, x: usize, y: usize) -> u8 {
    let mut n = 0;
    for dy in -1i64..=1 {
        for dx in -1i64..=1 {
            if dx == 0 && dy == 0 {
                continue;
            }
            let nx = x as i64 + dx;
            let ny = y as i64 + dy;
            if nx >= 0 && ny >= 0 && (nx as usize) < game.width && (ny as usize) < game.height {
                if game.board[ny as usize][nx as usize].bomb {
                    n += 1;
                }
            }
        }
    }
    n
}

fn one_bomb_corner() -> Game {
    Game::with_bombs(3, 3, &vec![(2, 2)]).unwrap()
}

#[test]
fn generated_board_has_bomb_count_and_numbers() {
    for _ in 0..20 {
        let game = Game::new(8, 6, 10).unwrap();
        assert_eq!(game.board.len(), 6);
        assert!(game.board.iter().all(|r| r.len() == 8));
        assert_eq!(bombs_on(&game), 10);
        for y in 0..6 {
            for x in 0..8 {
                let t = game.tile(x, y);
                assert!(!t.revealed && !t.flagged);
                if t.bomb {
                    assert_eq!(t.number, 0);
                } else {
                    assert_eq!(t.number, neighbours_with_bombs(&game, x, y));
                }
            }
        }
    }
}

#[test]
fn generated_board_with_all_but_one_cell_mined() {
    let game = Game::new(4, 3, 11).unwrap();
    assert_eq!(bombs_on(&game), 11);
}

#[test]
fn invalid_configurations_are_refused() {
    assert_eq!(Game::new(0, 5, 1).err(), Some(GameError::InvalidConfiguration));
    assert_eq!(Game::new(5, 0, 1).err(), Some(GameError::InvalidConfiguration));
    assert_eq!(Game::new(3, 3, 9).err(), Some(GameError::InvalidConfiguration));
    assert_eq!(Game::new(usize::MAX, 2, 1).err(), Some(GameError::InvalidConfiguration));
    assert_eq!(Game::with_bombs(3, 3, &vec![(3, 0)]).err(), Some(GameError::InvalidConfiguration));
    let all: Vec<(usize, usize)> = (0..4).map(|i| (i % 2, i / 2)).collect();
    assert_eq!(Game::with_bombs(2, 2, &all).err(), Some(GameError::InvalidConfiguration));
}

#[test]
fn hand_placed_board_numbers() {
    let game = Game::with_bombs(3, 3, &vec![(2, 2), (2, 2), (0, 0)]).unwrap();
    assert_eq!(game.bombs, 2);
    assert_eq!(game.tile_number(1, 1), 2);
    assert_eq!(game.tile_number(1, 0), 1);
    assert_eq!(game.tile_number(2, 0), 0);
    assert_eq!(game.tile_number(2, 2), 0);
    assert_eq!(game.tile_number(3, 0), 0);
    assert_eq!(game.tile_number(0, 7), 0);
}

#[test]
fn flag_twice_round_trips() {
    let mut game = one_bomb_corner();
    let before = game.board.clone();
    assert_eq!(game.perform_action(0, 0, Action::Flag), Ok(Response::Flag));
    assert!(game.tile(0, 0).flagged);
    assert_eq!(game.perform_action(0, 0, Action::Flag), Ok(Response::Unflag));
    assert!(!game.tile(0, 0).flagged);
    assert!(!game.tile(0, 0).revealed);
    assert!(game.board == before);
}

#[test]
fn revealing_a_flagged_tile_fails_without_change() {
    let mut game = one_bomb_corner();
    game.perform_action(1, 1, Action::Flag).unwrap();
    let snapshot = game.board.clone();
    assert_eq!(game.perform_action(1, 1, Action::Reveal), Err(GameError::CannotRevealFlaggedTile));
    assert!(game.board == snapshot);
    assert!(!game.game_over);
}

#[test]
fn flagging_a_revealed_tile_fails() {
    let mut game = one_bomb_corner();
    assert_eq!(game.perform_action(2, 1, Action::Reveal), Ok(Response::Reveal(vec![(2, 1)])));
    let snapshot = game.board.clone();
    assert_eq!(game.perform_action(2, 1, Action::Flag), Err(GameError::CannotModifyVisibleTile));
    assert!(game.board == snapshot);
}

#[test]
fn out_of_range_action_fails() {
    let mut game = one_bomb_corner();
    assert_eq!(game.perform_action(3, 0, Action::Reveal), Err(GameError::OutOfBounds));
    assert_eq!(game.perform_action(0, 3, Action::Flag), Err(GameError::OutOfBounds));
}

#[test]
fn actions_after_loss_are_refused() {
    let mut game = one_bomb_corner();
    assert_eq!(game.perform_action(2, 2, Action::Reveal), Ok(Response::GameOver));
    assert!(game.game_over);
    assert!(!game.game_won);
    let snapshot = game.board.clone();
    assert_eq!(game.perform_action(2, 2, Action::Reveal), Err(GameError::GameAlreadyOver));
    assert_eq!(game.perform_action(0, 0, Action::Reveal), Err(GameError::GameAlreadyOver));
    assert_eq!(game.perform_action(0, 0, Action::Flag), Err(GameError::GameAlreadyOver));
    assert!(game.board == snapshot);
    assert!(game.game_over && !game.game_won);
}

#[test]
fn actions_after_win_are_refused() {
    let mut game = one_bomb_corner();
    assert_eq!(game.perform_action(0, 0, Action::Reveal), Ok(Response::GameWon));
    let snapshot = game.board.clone();
    assert_eq!(game.perform_action(2, 2, Action::Flag), Err(GameError::GameAlreadyOver));
    assert_eq!(game.perform_action(2, 2, Action::Reveal), Err(GameError::GameAlreadyOver));
    assert!(game.board == snapshot);
    assert!(game.game_over && game.game_won);
}

#[test]
fn flood_reveal_clears_three_by_three() {
    let mut game = one_bomb_corner();
    assert_eq!(game.perform_action(0, 0, Action::Reveal), Ok(Response::GameWon));
    for y in 0..3 {
        for x in 0..3 {
            assert_eq!(game.tile(x, y).revealed, !(x == 2 && y == 2));
        }
    }
}

#[test]
fn flood_reveal_lists_uncovered_cells_and_skips_flags() {
    let mut game = Game::with_bombs(4, 4, &vec![(3, 3)]).unwrap();
    game.perform_action(0, 3, Action::Flag).unwrap();
    let r = game.perform_action(0, 0, Action::Reveal).unwrap();
    match r {
        Response::Reveal(mut cells) => {
            cells.sort();
            let mut expected = Vec::new();
            for y in 0..4 {
                for x in 0..4 {
                    if !(x == 3 && y == 3) && !(x == 0 && y == 3) {
                        expected.push((x, y));
                    }
                }
            }
            expected.sort();
            assert_eq!(cells, expected);
        }
        other => panic!("unexpected outcome {:?}", other),
    }
    assert!(game.tile(0, 3).flagged && !game.tile(0, 3).revealed);
    assert!(!game.game_over);
    assert_eq!(game.perform_action(0, 3, Action::Flag), Ok(Response::Unflag));
    assert_eq!(game.perform_action(0, 3, Action::Reveal), Ok(Response::GameWon));
}

#[test]
fn numbered_tile_reveals_alone() {
    let mut game = Game::with_bombs(3, 3, &vec![(0, 0)]).unwrap();
    assert_eq!(game.perform_action(1, 1, Action::Reveal), Ok(Response::Reveal(vec![(1, 1)])));
    assert_eq!(game.perform_action(1, 1, Action::Reveal), Ok(Response::Reveal(vec![])));
}

#[test]
fn last_safe_cell_wins() {
    let mut cells = Vec::new();
    for y in 0..3 {
        for x in 0..4 {
            if !(x == 1 && y == 2) {
                cells.push((x, y));
            }
        }
    }
    let mut game = Game::with_bombs(4, 3, &cells).unwrap();
    assert_eq!(game.bombs, 11);
    assert_eq!(game.tile_number(1, 2), 5);
    assert_eq!(game.perform_action(1, 2, Action::Reveal), Ok(Response::GameWon));
    assert!(game.game_over && game.game_won);
}

#[test]
fn all_tiles_revealed_tracks_safe_tiles() {
    let mut game = Game::with_bombs(2, 1, &vec![(0, 0)]).unwrap();
    assert!(!game.all_tiles_revealed());
    game.perform_action(1, 0, Action::Reveal).unwrap();
    assert!(game.all_tiles_revealed());
}

#[test]
fn reset_starts_a_fresh_board() {
    let mut game = Game::new(5, 4, 6).unwrap();
    let _ = game.perform_action(0, 0, Action::Reveal);
    game.reset();
    assert!(!game.game_over && !game.game_won);
    assert_eq!(bombs_on(&game), 6);
    assert!(game.board.iter().flatten().all(|t: &Tile| !t.revealed && !t.flagged));
}

#[test]
fn finish_game_sets_flags() {
    let mut game = one_bomb_corner();
    game.finish_game(true);
    assert!(game.game_over && game.game_won);
}

#[test]
fn initialize_board_shape() {
    let b = Game::initialize_board(7, 2, 3);
    assert_eq!(b.len(), 2);
    assert_eq!(b.iter().flatten().filter(|t| t.bomb).count(), 3);
}

#[test]
fn hidden_tile_is_blank() {
    let t = Tile::hidden();
    assert!(!t.revealed && !t.bomb && !t.flagged && t.number == 0);
}
