use tetris_tui::board::{Board, Cell, PowerUpType, AREA, HEIGHT, WIDTH};
use tetris_tui::chance::{kind_from_index, power_up_from_index, Draws};
use tetris_tui::game::{Game, LockResult, SPAWN_X};
use tetris_tui::piece::{PieceColor, Tetromino, TetrominoType};

const KINDS: [TetrominoType; 7] = [
    TetrominoType::I,
    TetrominoType::O,
    TetrominoType::T,
    TetrominoType::S,
    TetrominoType::Z,
    TetrominoType::J,
    TetrominoType::L,
];

fn quiet_draws(next: TetrominoType) -> Draws {
    Draws {
        next_kind: next,
        random_effect: PowerUpType::Bomb,
        obstacle: false,
        obstacle_column: 0,
        power_up: false,
        power_up_column: 0,
        power_up_kind: PowerUpType::Bomb,
    }
}

fn filled_count(b: &Board) -> usize {
    b.cells.iter().filter(|c| !matches!(c, Cell::Empty)).count()
}

fn fill_row(g: &mut Game, y: usize, except: &[usize]) {
    for x in 0..WIDTH {
        if !except.contains(&x) {
            g.board.set(y, x, Cell::Filled(PieceColor::Red));
        }
    }
}

#[test]
fn rotate_four_times_is_identity() {
    for k in KINDS {
        let mut p = Tetromino::new(k);
        let start = p.shape.clone();
        for _ in 0..4 {
            p.rotate();
        }
        assert_eq!(p.shape, start);
    }
}

#[test]
fn rotate_t_once() {
    let mut p = Tetromino::new(TetrominoType::T);
    p.rotate();
    assert_eq!(
        p.shape,
        vec![
            vec![false, true, false],
            vec![false, true, true],
            vec![false, true, false],
        ]
    );
    assert_eq!(p.color, PieceColor::Magenta);
}

#[test]
fn rotation_keeps_block_count() {
    for k in KINDS {
        let mut p = Tetromino::new(k);
        let before: usize = p.shape.iter().flatten().filter(|b| **b).count();
        p.rotate();
        let after: usize = p.shape.iter().flatten().filter(|b| **b).count();
        assert_eq!(before, after);
        assert_eq!(p.shape.len(), Tetromino::new(k).shape.len());
    }
}

#[test]
fn can_place_rejects_outside_board() {
    let b = Board::new();
    let p = Tetromino::new(TetrominoType::O);
    assert!(!b.can_place(&p, -1, 0, false));
    assert!(!b.can_place(&p, 9, 0, false));
    assert!(!b.can_place(&p, 0, 19, false));
    assert!(b.can_place(&p, 8, 18, false));
    assert!(b.can_place(&p, 0, -1, false));
}

#[test]
fn can_place_accepts_spawn_on_empty_board() {
    let b = Board::new();
    for k in KINDS {
        let p = Tetromino::new(k);
        assert!(b.can_place(&p, SPAWN_X as i64, 0, false));
    }
}

#[test]
fn can_place_blocked_and_ghost() {
    let mut b = Board::new();
    b.set(1, 4, Cell::Obstacle);
    let p = Tetromino::new(TetrominoType::O);
    assert!(!b.can_place(&p, 3, 0, false));
    assert!(b.can_place(&p, 3, 0, true));
    b.set(1, 4, Cell::PowerUp(PowerUpType::Hammer));
    assert!(b.can_place(&p, 3, 0, false));
}

#[test]
fn o_piece_hard_drop_on_empty_board() {
    let mut g = Game::with_pieces(TetrominoType::O, TetrominoType::T);
    assert!(g.can_move(0, 0));
    let r = g.drop_piece_with(0, &quiet_draws(TetrominoType::I));
    assert_eq!(r, LockResult { cleared_rows: 0, power_ups: 0, game_over: false });
    assert_eq!(g.score, 0);
    for y in 18..20 {
        for x in 3..5 {
            assert_eq!(g.board.get(y, x), Cell::Filled(PieceColor::Yellow));
        }
    }
    assert_eq!(filled_count(&g.board), 4);
    assert_eq!(g.current.typ, TetrominoType::T);
    assert_eq!(g.next.typ, TetrominoType::I);
    assert_eq!((g.current_x, g.current_y), (SPAWN_X, 0));
}

#[test]
fn completing_a_row_clears_it() {
    let mut g = Game::with_pieces(TetrominoType::I, TetrominoType::O);
    fill_row(&mut g, 19, &[0]);
    assert!(g.rotate_piece());
    g.current_x = -2;
    g.current_y = 16;
    let r = g.lock_piece_with(1000, &quiet_draws(TetrominoType::O));
    assert_eq!(r.cleared_rows, 1);
    assert_eq!(g.score, 100);
    assert_eq!(g.combo, 0);
    assert_eq!(g.lines_cleared_total, 1);
    assert_eq!(g.board.cells.len(), AREA);
    assert_eq!(filled_count(&g.board), 3);
    for y in 17..20 {
        assert_eq!(g.board.get(y, 0), Cell::Filled(PieceColor::Cyan));
    }
}

#[test]
fn score_for_simultaneous_rows() {
    let expected = [100u64, 300, 500, 800];
    for rows in 1..=4usize {
        let mut g = Game::with_pieces(TetrominoType::O, TetrominoType::O);
        for y in (HEIGHT - rows)..HEIGHT {
            fill_row(&mut g, y, &[]);
        }
        let k = g.clear_lines(0, &quiet_draws(TetrominoType::O));
        assert_eq!(k, rows);
        assert_eq!(g.score, expected[rows - 1]);
        assert_eq!(g.combo, 0);
        assert_eq!(filled_count(&g.board), 0);
    }
    assert_eq!(Game::line_score(0), 0);
    assert_eq!(Game::line_score(5), 0);
}

#[test]
fn no_full_row_leaves_board_and_score() {
    let mut g = Game::with_pieces(TetrominoType::O, TetrominoType::O);
    fill_row(&mut g, 19, &[3]);
    g.board.set(5, 5, Cell::Obstacle);
    g.score = 40;
    g.combo = 2;
    let before = g.board.cells.clone();
    let k = g.clear_lines(10, &quiet_draws(TetrominoType::O));
    assert_eq!(k, 0);
    assert_eq!(g.board.cells, before);
    assert_eq!(g.score, 40);
    assert_eq!(g.combo, 0);
}

#[test]
fn row_with_obstacle_is_not_full() {
    let mut g = Game::with_pieces(TetrominoType::O, TetrominoType::O);
    fill_row(&mut g, 19, &[2]);
    g.board.set(19, 2, Cell::Obstacle);
    assert!(!g.board.row_is_full(19));
    assert_eq!(g.clear_lines(0, &quiet_draws(TetrominoType::O)), 0);
}

#[test]
fn combo_multiplies_close_clears() {
    let mut g = Game::with_pieces(TetrominoType::O, TetrominoType::O);
    let d = quiet_draws(TetrominoType::O);
    fill_row(&mut g, 19, &[]);
    g.clear_lines(1000, &d);
    assert_eq!(g.score, 100);
    fill_row(&mut g, 19, &[]);
    g.clear_lines(2500, &d);
    assert_eq!(g.combo, 1);
    assert_eq!(g.score, 100 + 200);
    fill_row(&mut g, 19, &[]);
    g.clear_lines(4000, &d);
    assert_eq!(g.combo, 2);
    assert_eq!(g.score, 100 + 200 + 300);
    fill_row(&mut g, 19, &[]);
    g.clear_lines(7000, &d);
    assert_eq!(g.combo, 0);
    assert_eq!(g.score, 100 + 200 + 300 + 100);
}

#[test]
fn gravity_settles_columns() {
    let mut b = Board::new();
    b.set(3, 2, Cell::Filled(PieceColor::Blue));
    b.set(10, 2, Cell::Obstacle);
    b.set(19, 2, Cell::Filled(PieceColor::Red));
    b.set(0, 7, Cell::PowerUp(PowerUpType::Bomb));
    b.apply_gravity();
    assert_eq!(b.get(17, 2), Cell::Filled(PieceColor::Blue));
    assert_eq!(b.get(18, 2), Cell::Obstacle);
    assert_eq!(b.get(19, 2), Cell::Filled(PieceColor::Red));
    assert_eq!(b.get(19, 7), Cell::PowerUp(PowerUpType::Bomb));
    assert_eq!(filled_count(&b), 4);
}

#[test]
fn bomb_clears_filled_cells_around_piece() {
    let mut g = Game::with_pieces(TetrominoType::O, TetrominoType::O);
    g.current_x = 4;
    g.current_y = 10;
    // centre of the O at (10..12, 4..6) is row 10, column 4
    g.board.set(8, 2, Cell::Filled(PieceColor::Red));
    g.board.set(12, 6, Cell::Filled(PieceColor::Red));
    g.board.set(10, 4, Cell::Filled(PieceColor::Red));
    g.board.set(9, 3, Cell::Obstacle);
    g.board.set(13, 4, Cell::Filled(PieceColor::Red));
    g.activate_power_up(PowerUpType::Bomb, 0, PowerUpType::Hammer);
    assert_eq!(g.score, 30);
    assert_eq!(g.board.get(8, 2), Cell::Empty);
    assert_eq!(g.board.get(12, 6), Cell::Empty);
    assert_eq!(g.board.get(10, 4), Cell::Empty);
    assert_eq!(g.board.get(9, 3), Cell::Obstacle);
    assert_eq!(g.board.get(13, 4), Cell::Filled(PieceColor::Red));
}

#[test]
fn random_power_up_uses_drawn_effect() {
    let mut g = Game::with_pieces(TetrominoType::O, TetrominoType::O);
    g.activate_power_up(PowerUpType::Random, 0, PowerUpType::Hammer);
    assert!(g.hammer_mode);
    g.activate_power_up(PowerUpType::Random, 500, PowerUpType::SlowTime);
    assert!(g.slow_time_active);
    assert_eq!(g.slow_time_end, Some(10_500));
}

#[test]
fn slow_time_expires_on_tick() {
    let mut g = Game::with_pieces(TetrominoType::O, TetrominoType::O);
    assert_eq!(g.get_fall_speed(), 500);
    g.activate_power_up(PowerUpType::SlowTime, 1000, PowerUpType::Bomb);
    assert_eq!(g.get_fall_speed(), 1000);
    g.tick(10_999);
    assert!(g.slow_time_active);
    g.activate_power_up(PowerUpType::SlowTime, 5000, PowerUpType::Bomb);
    assert_eq!(g.slow_time_end, Some(15_000));
    g.tick(15_000);
    assert!(!g.slow_time_active);
    assert_eq!(g.slow_time_end, None);
    assert_eq!(g.get_fall_speed(), 500);
}

#[test]
fn ghost_mode_lasts_three_locks() {
    let mut g = Game::with_pieces(TetrominoType::O, TetrominoType::O);
    g.activate_power_up(PowerUpType::GhostMode, 0, PowerUpType::Bomb);
    assert!(g.ghost_mode);
    assert_eq!(g.ghost_remaining, 3);
    let d = quiet_draws(TetrominoType::O);
    g.move_piece(-1, 0);
    g.rotate_piece();
    g.lock_piece_with(0, &d);
    assert!(g.ghost_mode);
    assert_eq!(g.ghost_remaining, 2);
    g.move_piece(1, 0);
    g.lock_piece_with(0, &d);
    assert!(g.ghost_mode);
    assert_eq!(g.ghost_remaining, 1);
    g.lock_piece_with(0, &d);
    assert!(!g.ghost_mode);
    assert_eq!(g.ghost_remaining, 0);
}

#[test]
fn ghost_power_up_collected_on_lock() {
    let mut g = Game::with_pieces(TetrominoType::O, TetrominoType::O);
    g.board.set(19, 4, Cell::PowerUp(PowerUpType::GhostMode));
    let r = g.drop_piece_with(0, &quiet_draws(TetrominoType::O));
    assert_eq!(r.power_ups, 1);
    assert_eq!(g.board.get(19, 4), Cell::Filled(PieceColor::Yellow));
    assert!(g.ghost_mode);
    assert_eq!(g.ghost_remaining, 2);
}

#[test]
fn hammer_removes_row() {
    let mut g = Game::with_pieces(TetrominoType::O, TetrominoType::O);
    assert!(!g.use_hammer(19));
    g.hammer_mode = true;
    g.board.set(19, 0, Cell::Obstacle);
    g.board.set(18, 0, Cell::Filled(PieceColor::Green));
    assert!(!g.use_hammer(HEIGHT));
    assert!(g.hammer_mode);
    assert!(g.use_hammer(19));
    assert!(!g.hammer_mode);
    assert_eq!(g.score, 50);
    assert_eq!(g.board.get(19, 0), Cell::Filled(PieceColor::Green));
    assert_eq!(filled_count(&g.board), 1);
}

#[test]
fn spawn_blocked_ends_game() {
    let mut g = Game::with_pieces(TetrominoType::O, TetrominoType::O);
    g.board.set(0, 4, Cell::Filled(PieceColor::Red));
    g.spawn_new_piece(TetrominoType::I);
    assert!(g.game_over);
    assert!(!g.move_piece(1, 0));
    let r = g.lock_piece_with(0, &quiet_draws(TetrominoType::O));
    assert!(r.game_over);
}

#[test]
fn soft_drop_moves_then_locks() {
    let mut g = Game::with_pieces(TetrominoType::O, TetrominoType::T);
    let d = quiet_draws(TetrominoType::I);
    assert_eq!(g.soft_drop_with(0, &d), None);
    assert_eq!(g.current_y, 1);
    g.current_y = 18;
    let r = g.soft_drop_with(0, &d);
    assert!(r.is_some());
    assert_eq!(g.current.typ, TetrominoType::T);
}

#[test]
fn spawns_after_fifth_line() {
    let mut g = Game::with_pieces(TetrominoType::O, TetrominoType::O);
    g.lines_cleared_total = 4;
    fill_row(&mut g, 19, &[]);
    let d = Draws {
        next_kind: TetrominoType::O,
        random_effect: PowerUpType::Bomb,
        obstacle: true,
        obstacle_column: 3,
        power_up: true,
        power_up_column: 3,
        power_up_kind: PowerUpType::Hammer,
    };
    g.clear_lines(0, &d);
    assert_eq!(g.lines_cleared_total, 5);
    assert_eq!(g.board.get(19, 3), Cell::Obstacle);
    fill_row(&mut g, 18, &[]);
    let d2 = Draws { power_up_column: 6, ..d };
    g.clear_lines(0, &d2);
    assert_eq!(g.board.get(19, 3), Cell::Obstacle);
    assert_eq!(g.board.get(19, 6), Cell::PowerUp(PowerUpType::Hammer));
}

#[test]
fn index_maps_and_draws() {
    for i in 0..7u64 {
        assert_eq!(kind_from_index(i), KINDS[i as usize]);
    }
    assert_eq!(power_up_from_index(2), PowerUpType::GhostMode);
    assert_eq!(power_up_from_index(4), PowerUpType::Random);
    for _ in 0..200 {
        let d = Draws::roll();
        assert!(d.obstacle_column < WIDTH);
        assert!(d.power_up_column < WIDTH);
        assert_ne!(d.random_effect, PowerUpType::Random);
    }
    let g = Game::new();
    assert_eq!(g.score, 0);
    assert!(!g.game_over);
}

#[test]
fn collected_bomb_cell_ends_filled() {
    let mut g = Game::with_pieces(TetrominoType::O, TetrominoType::O);
    g.board.set(19, 3, Cell::PowerUp(PowerUpType::Bomb));
    g.board.set(17, 1, Cell::Filled(PieceColor::Red));
    g.board.set(19, 5, Cell::Filled(PieceColor::Red));
    let r = g.drop_piece_with(0, &quiet_draws(TetrominoType::O));
    assert_eq!(r.power_ups, 1);
    assert_eq!(g.score, 20);
    assert_eq!(g.board.get(17, 1), Cell::Empty);
    assert_eq!(g.board.get(19, 5), Cell::Empty);
    for y in 18..20 {
        for x in 3..5 {
            assert_eq!(g.board.get(y, x), Cell::Filled(PieceColor::Yellow));
        }
    }
    assert_eq!(filled_count(&g.board), 4);
}

#[test]
fn huge_offsets_are_rejected() {
    let mut g = Game::with_pieces(TetrominoType::T, TetrominoType::O);
    assert!(!g.can_move(1 << 30, 0));
    assert!(!g.can_move(-(1 << 30), 1 << 30));
    assert!(!g.can_move(i32::MAX, i32::MAX));
    assert!(!g.move_piece(i32::MIN, 0));
    assert_eq!((g.current_x, g.current_y), (SPAWN_X, 0));
    let b = Board::new();
    assert!(!b.can_place(&g.current, i64::MAX, i64::MIN, true));
}

#[test]
fn new_game_colors_match_kinds() {
    let g = Game::new();
    assert_eq!(g.current.color, Tetromino::new(g.current.typ).color);
    assert_eq!(g.next.color, Tetromino::new(g.next.typ).color);
}
