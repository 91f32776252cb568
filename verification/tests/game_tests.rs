use tetetris::game::grid::Grid;
use tetetris::game::tetronimos::tables::{fill_new_pixels, get_kick_offsets};
use tetetris::game::tetronimos::{Color, Tetronimo, TetronimoBag, Type};
use tetetris::game::{Board, ScoreAction};

fn occupied_cells(board: &Board) -> Vec<(i8, i8)> {
    let mut cells = Vec::new();
    for x in 0..10i8 {
        for y in -4..20i8 {
            if board.check_pixel(x, y).is_some() {
                cells.push((x, y));
            }
        }
    }
    cells
}

#[test]
fn translate_success_and_failure() {
    // A blocked move leaves the cells bit-for-bit unchanged; a legal move
    // shifts every cell and keeps it on the board.
    let grid = Grid::new();
    let mut t = Tetronimo::new(Type::O);
    let before = t.pixels.clone();
    assert!(!t.move_offset((-5, 0), &grid));
    assert_eq!(before, t.pixels);
    assert!(t.move_offset((0, 1), &grid));
    for (i, p) in t.pixels.iter().enumerate() {
        assert_eq!(p.x, before[i].x);
        assert_eq!(p.y, before[i].y + 1);
        assert!(p.x >= 0 && p.x <= 9 && p.y != 20);
    }
}

#[test]
fn translate_blocked_by_settled_cell() {
    let mut grid = Grid::new();
    // O spawns on columns 4..=5, rows -2..=-1.
    grid.insert(4, 0, Color::Red);
    let mut t = Tetronimo::new(Type::O);
    let before = t.pixels.clone();
    assert!(!t.move_offset((0, 1), &grid));
    assert_eq!(before, t.pixels);
}

#[test]
fn translate_rejects_floor_row() {
    let grid = Grid::new();
    let mut t = Tetronimo::new(Type::I);
    for _ in 0..20 {
        assert!(t.move_offset((0, 1), &grid));
    }
    // Every cell now sits on row 19; one more step would reach row 20.
    assert!(!t.move_offset((0, 1), &grid));
}

#[test]
fn rotation_round_trip_restores_cells() {
    let grid = Grid::new();
    let mut t = Tetronimo::new(Type::T);
    let before = t.pixels.clone();
    t.rotate_and_kick(true, &grid);
    assert_ne!(before, t.pixels);
    t.rotate_and_kick(false, &grid);
    assert_eq!(before, t.pixels);

    let mut t2 = Tetronimo::new(Type::J);
    let before2 = t2.pixels.clone();
    t2.rotate_and_kick(false, &grid);
    t2.rotate_and_kick(true, &grid);
    assert_eq!(before2, t2.pixels);
}

#[test]
fn rotation_round_trip_near_obstacle_may_displace() {
    // When the first kick candidate is blocked and a lesser one is taken,
    // turning back can settle on a different kick and leave the piece
    // shifted: here one column to the left.
    let mut grid = Grid::new();
    grid.insert(5, -1, Color::Red);
    let mut t = Tetronimo::new(Type::T);
    t.rotate_and_kick(true, &grid);
    t.rotate_and_kick(false, &grid);
    let spots: Vec<(i8, i8)> = t.pixels.iter().map(|p| (p.x, p.y)).collect();
    assert_eq!(spots, vec![(3, -1), (3, -2), (2, -1), (4, -1)]);
}

#[test]
fn rotation_moves_t_cells_as_expected() {
    let grid = Grid::new();
    let mut t = Tetronimo::new(Type::T);
    t.rotate_and_kick(true, &grid);
    let spots: Vec<(i8, i8)> = t.pixels.iter().map(|p| (p.x, p.y)).collect();
    assert_eq!(spots, vec![(4, -1), (5, -1), (4, -2), (4, 0)]);
}

#[test]
fn bag_yields_each_kind_once_per_cycle() {
    let mut bag = TetronimoBag::new();
    for _ in 0..2 {
        let mut seen: Vec<Type> = Vec::new();
        for _ in 0..7 {
            let t = bag.draw_next();
            assert!(!seen.contains(&t));
            seen.push(t);
        }
        assert_eq!(seen.len(), 7);
        for k in [Type::I, Type::L, Type::T, Type::S, Type::O, Type::J, Type::Z] {
            assert!(seen.contains(&k));
        }
    }
}

#[test]
fn spawn_tables_match_layouts() {
    let ps = fill_new_pixels(Type::I);
    let spots: Vec<(i8, i8)> = ps.iter().map(|p| (p.x, p.y)).collect();
    assert_eq!(spots, vec![(4, -1), (3, -1), (5, -1), (6, -1)]);
    assert!(ps.iter().all(|p| p.c == Color::Cyan));
    let ps = fill_new_pixels(Type::Z);
    let spots: Vec<(i8, i8)> = ps.iter().map(|p| (p.x, p.y)).collect();
    assert_eq!(spots, vec![(4, -1), (3, -2), (4, -2), (5, -1)]);
    assert!(ps.iter().all(|p| p.c == Color::Red));
}

#[test]
fn kick_tables_match_families() {
    assert_eq!(get_kick_offsets(0, 1, Type::O), vec![(0, 1)]);
    assert_eq!(
        get_kick_offsets(0, 1, Type::T),
        vec![(0, 0), (-1, 0), (-1, 1), (0, -2), (-1, -2)]
    );
    assert_eq!(
        get_kick_offsets(0, 1, Type::I),
        vec![(1, 0), (-1, 0), (2, 0), (-1, -1), (2, 2)]
    );
}

#[test]
fn grid_insert_get_remove() {
    let mut g = Grid::new();
    assert_eq!(g.get(3, 5), None);
    g.insert(3, 5, Color::Green);
    assert_eq!(g.get(3, 5), Some(Color::Green));
    assert!(g.occupied(3, 5));
    g.insert(3, 5, Color::Red);
    assert_eq!(g.get(3, 5), Some(Color::Red));
    g.remove(3, 5);
    assert_eq!(g.get(3, 5), None);
    assert!(!g.occupied(3, 5));
}

#[test]
fn can_delete_finds_bottom_most_full_row() {
    let mut board = Board::new();
    assert_eq!(board.can_delete(), None);
    for x in 0..10i8 {
        board.settle(x, 17, Color::Cyan);
        board.settle(x, 19, Color::Red);
    }
    assert_eq!(board.can_delete(), Some(19));
}

#[test]
fn line_clear_delete_and_collapse() {
    // Row 19 fully occupied and no other full row: the scan names it,
    // deleting empties it, and the collapse shifts the rows above down.
    let mut board = Board::new();
    for x in 0..10i8 {
        board.settle(x, 19, Color::Red);
    }
    for x in 0..5i8 {
        board.settle(x, 18, Color::Green);
    }
    board.settle(2, 17, Color::Cyan);
    assert_eq!(board.can_delete(), Some(19));
    board.delete(19);
    for x in 0..10i8 {
        assert_eq!(board.check_pixel(x, 19), None);
    }
    board.collapse(19);
    for x in 0..5i8 {
        assert_eq!(board.check_pixel(x, 19), Some(Color::Green));
    }
    for x in 5..10i8 {
        assert_eq!(board.check_pixel(x, 19), None);
    }
    assert_eq!(board.check_pixel(2, 18), Some(Color::Cyan));
    assert_eq!(board.check_pixel(2, 17), None);
    assert_eq!(board.can_delete(), None);
}

#[test]
fn clear_full_rows_sweeps_and_scores_once() {
    let mut board = Board::new();
    for x in 0..10i8 {
        board.settle(x, 19, Color::Red);
        board.settle(x, 18, Color::Green);
    }
    board.settle(0, 17, Color::Cyan);
    let n = board.clear_full_rows();
    assert_eq!(n, 2);
    assert_eq!(board.score(), 100);
    assert_eq!(board.check_pixel(0, 19), Some(Color::Cyan));
    assert_eq!(board.check_pixel(0, 18), None);
    assert_eq!(board.can_delete(), None);
}

#[test]
fn scoring_table() {
    let mut board = Board::new();
    board.add_score(ScoreAction::RowCleared(0));
    assert_eq!(board.score(), 0);
    board.add_score(ScoreAction::RowCleared(1));
    assert_eq!(board.score(), 40);
    board.add_score(ScoreAction::RowCleared(2));
    assert_eq!(board.score(), 140);
    board.add_score(ScoreAction::RowCleared(3));
    assert_eq!(board.score(), 440);
    board.add_score(ScoreAction::RowCleared(4));
    assert_eq!(board.score(), 1640);
    board.add_score(ScoreAction::RowCleared(5));
    assert_eq!(board.score(), 2840);
    board.add_score(ScoreAction::FallLength(3));
    assert_eq!(board.score(), 2843);
    board.add_score(ScoreAction::HardDrop(4));
    assert_eq!(board.score(), 2851);
}

#[test]
fn lock_above_board_tops_out() {
    // A full board makes the fresh piece lock in the spawn buffer, which
    // tops the game out.
    let mut board = Board::new();
    for x in 0..10i8 {
        for y in 0..20i8 {
            board.settle(x, y, Color::White);
        }
    }
    assert!(!board.tick());  // spawns the falling piece
    assert!(board.tick());  // it cannot move and locks above row 0
    assert!(board.is_game_over());
    // Game over suppresses further ticks.
    let before = occupied_cells(&board);
    assert!(!board.tick());
    assert_eq!(before, occupied_cells(&board));
}

#[test]
fn lock_on_floor_keeps_game_running() {
    let mut board = Board::new();
    assert!(!board.tick());
    let mut stuck = false;
    for _ in 0..40 {
        if board.tick() {
            stuck = true;
            break;
        }
    }
    assert!(stuck);
    assert!(!board.is_game_over());
}

#[test]
fn tick_drives_piece_to_floor_and_promotes_preview() {
    let mut board = Board::new();
    assert!(board.upcoming_pixels().is_none());
    assert!(!board.tick());
    let preview = board.upcoming_pixels().expect("preview drawn on first tick");
    assert_eq!(preview.len(), 4);
    let mut ticks = 0;
    loop {
        ticks += 1;
        assert!(ticks < 40, "piece should reach the floor");
        if board.tick() {
            break;
        }
    }
    // The piece locked: its four cells are settled, none above row 0, and
    // the falling slot is empty until the next tick.
    let cells = occupied_cells(&board);
    assert_eq!(cells.len(), 4);
    assert!(cells.iter().all(|&(_, y)| y >= 0));
    assert!(cells.iter().any(|&(_, y)| y == 19));
    assert_eq!(board.score(), 0);
    assert!(!board.is_game_over());
    // The next tick promotes the preview piece to falling.
    assert!(!board.tick());
    for p in &preview {
        assert_eq!(board.check_pixel(p.x, p.y), Some(p.c));
    }
    assert!(board.upcoming_pixels().is_some());
}

#[test]
fn hard_drop_scores_twice_the_distance() {
    let mut board = Board::new();
    assert!(!board.tick());
    board.hard_drop();
    // Every kind spawns with its lowest cells on row -1, so the drop
    // travels 20 rows on an empty board.
    assert_eq!(board.score(), 40);
    assert_eq!(occupied_cells(&board).len(), 4);
    assert!(!board.is_game_over());
}

#[test]
fn soft_drops_add_fall_length_at_lock() {
    let mut board = Board::new();
    assert!(!board.tick());
    board.move_down();
    board.move_down();
    board.move_down();
    assert_eq!(board.score(), 0);
    board.hard_drop();
    // Three soft drops score 3, and the remaining 17 rows of hard drop 34.
    assert_eq!(board.score(), 37);
}

#[test]
fn moves_respect_walls() {
    let mut board = Board::new();
    assert!(!board.tick());
    for _ in 0..12 {
        board.move_left();
    }
    let hugs_left = (-2..1i8).any(|y| board.check_pixel(0, y).is_some());
    assert!(hugs_left);
    for _ in 0..12 {
        board.move_right();
    }
    let hugs_right = (-2..1i8).any(|y| board.check_pixel(9, y).is_some());
    assert!(hugs_right);
}

#[test]
fn pause_freezes_the_game() {
    let mut board = Board::new();
    assert!(!board.tick());
    board.toggle_pause();
    assert!(board.is_paused());
    let cells = occupied_cells(&board);
    let score = board.score();
    assert!(!board.tick());
    board.move_left();
    board.move_right();
    board.move_down();
    board.rotate(true);
    board.rotate(false);
    board.hard_drop();
    assert_eq!(cells, occupied_cells(&board));
    assert_eq!(score, board.score());
    board.toggle_pause();
    assert!(!board.is_paused());
    assert!(!board.is_game_over());
    // Unpaused, gravity works again.
    assert!(!board.tick());
    assert_ne!(cells, occupied_cells(&board));
}

#[test]
fn piece_check_pixel_and_drop_counter() {
    let t = Tetronimo::new(Type::O);
    assert_eq!(t.check_pixel(4, -1), Some(Color::LightYellow));
    assert_eq!(t.check_pixel(0, 0), None);
    let mut t = t;
    assert_eq!(t.dropped(), 0);
    t.inc_dropped();
    t.inc_dropped();
    assert_eq!(t.dropped(), 2);
}
