use tetris::game_state::{Event, Tetris};
use tetris::piece::Piece;
use tetris::Iteration;

/// Renders a state in the classic debug layout: a header with the
/// piece fields, then one line of occupancy digits per grid row.
fn render(t: &Tetris) -> String {
    let mut s = String::new();
    s += "========TETRIS========\n";
    s += &format!(
        "Piece: {:?}, Rotation: {}, ARow: {}, ACol: {}\n",
        t.piece, t.rotation, t.anchor_row, t.anchor_col
    );
    for row in t.grid() {
        for cell in row {
            s += &cell.to_string();
        }
        s += "\n";
    }
    s
}

/// A state built from explicit parts, with an empty terminal flag.
fn state(grid: Vec<Vec<i32>>, piece: Piece, anchor_row: usize, anchor_col: usize) -> Tetris {
    Tetris {
        grid,
        piece,
        rotation: 0,
        anchor_row,
        anchor_col,
        game_over: false,
    }
}

/// Paints the footprint of a piece at rotation 0 into a grid.
fn paint_rot0(grid: &mut Vec<Vec<i32>>, piece: Piece, anchor_row: usize, anchor_col: usize) {
    let offsets: [(usize, usize); 4] = match piece {
        Piece::O => [(0, 0), (0, 1), (1, 0), (1, 1)],
        Piece::L => [(0, 0), (1, 0), (2, 0), (2, 1)],
        Piece::J => [(2, 0), (2, 1), (0, 1), (1, 1)],
        Piece::T => [(0, 0), (0, 1), (0, 2), (1, 1)],
        Piece::Z => [(0, 0), (0, 1), (1, 1), (1, 2)],
        Piece::S => [(1, 0), (0, 1), (1, 1), (0, 2)],
        Piece::I => [(0, 0), (1, 0), (2, 0), (3, 0)],
    };
    for (dr, dc) in offsets {
        grid[anchor_row + dr][anchor_col + dc] = 1;
    }
}

fn occupancy(t: &Tetris) -> i32 {
    let mut n = 0;
    for row in t.grid() {
        for cell in row {
            n += cell;
        }
    }
    n
}

#[test]
fn test_init_tetris() {
    let t = Tetris::new();
    let repr = render(&t);
    let expected = r#"========TETRIS========
Piece: O, Rotation: 0, ARow: 0, ACol: 4
0000110000
0000110000
0000000000
0000000000
0000000000
0000000000
0000000000
0000000000
0000000000
0000000000
0000000000
0000000000
0000000000
0000000000
0000000000
0000000000
0000000000
0000000000
0000000000
0000000000
"#;
    assert_eq!(repr, expected);
}

#[test]
fn test_tick() {
    let mut t = Tetris::new();
    t.tick();
    let repr = render(&t);
    println!("{}", repr);
    let expected = r#"========TETRIS========
Piece: O, Rotation: 0, ARow: 1, ACol: 4
0000000000
0000110000
0000110000
0000000000
0000000000
0000000000
0000000000
0000000000
0000000000
0000000000
0000000000
0000000000
0000000000
0000000000
0000000000
0000000000
0000000000
0000000000
0000000000
0000000000
"#;
    assert_eq!(repr, expected);
}

#[test]
fn test_tick_until_bottom() {
    let mut t = Tetris::new();
    for _ in 0..19 {
        assert!(t.tick());
    }
    let repr = render(&t);
    let expected = r#"========TETRIS========
Piece: L, Rotation: 0, ARow: 0, ACol: 4
0000100000
0000100000
0000110000
0000000000
0000000000
0000000000
0000000000
0000000000
0000000000
0000000000
0000000000
0000000000
0000000000
0000000000
0000000000
0000000000
0000000000
0000000000
0000110000
0000110000
"#;
    assert_eq!(repr, expected);
}

#[test]
fn test_new_state_fields() {
    let t = Tetris::new();
    assert_eq!(t.piece, Piece::O);
    assert_eq!(t.rotation, 0);
    assert_eq!(t.anchor_row, 0);
    assert_eq!(t.anchor_col, 4);
    assert!(!t.game_over);
    // empty except the first piece's spawn footprint
    for (r, row) in t.grid().iter().enumerate() {
        for (c, cell) in row.iter().enumerate() {
            let in_footprint = (r == 0 || r == 1) && (c == 4 || c == 5);
            assert_eq!(*cell, if in_footprint { 1 } else { 0 });
        }
    }
}

#[test]
fn test_drop_moves_footprint_only() {
    let mut t = Tetris::new();
    let before = t.grid().clone();
    assert!(t.tick());
    let after = t.grid().clone();
    for r in 0..20 {
        for c in 0..10 {
            let old_fp = (r == 0 || r == 1) && (c == 4 || c == 5);
            let new_fp = (r == 1 || r == 2) && (c == 4 || c == 5);
            if new_fp {
                assert_eq!(after[r][c], 1);
            } else if old_fp {
                assert_eq!(after[r][c], 0);
            } else {
                assert_eq!(after[r][c], before[r][c]);
            }
        }
    }
}

#[test]
fn test_landing_clears_full_row() {
    // Row 19 is full except under the falling O piece, which has
    // landed on the floor; a marker sits at (17, 0).
    let mut grid = vec![vec![0; 10]; 20];
    for c in 0..10 {
        if c != 4 && c != 5 {
            grid[19][c] = 1;
        }
    }
    grid[17][0] = 1;
    paint_rot0(&mut grid, Piece::O, 18, 4);
    let mut t = state(grid, Piece::O, 18, 4);
    let before_count = occupancy(&t);
    assert_eq!(before_count, 8 + 1 + 4);
    assert!(t.tick());
    // row 19 completed and was cleared: every row above shifted down
    // by one, row 0 became empty, and the successor piece spawned.
    assert_eq!(t.piece, Piece::L);
    assert_eq!(t.rotation, 0);
    assert_eq!(t.anchor_row, 0);
    assert_eq!(t.anchor_col, 4);
    let g = t.grid();
    // the marker moved from row 17 to row 18
    assert_eq!(g[18][0], 1);
    assert_eq!(g[17][0], 0);
    // the piece's two cells that were above the cleared row moved to row 19
    assert_eq!(g[19][4], 1);
    assert_eq!(g[19][5], 1);
    // the fresh L footprint at the spawn anchor
    assert_eq!(g[0][4], 1);
    assert_eq!(g[1][4], 1);
    assert_eq!(g[2][4], 1);
    assert_eq!(g[2][5], 1);
    // nothing was lost except the cleared row; the new piece adds 4
    assert_eq!(occupancy(&t), before_count - 10 + 4);
}

#[test]
fn test_landing_clears_two_rows() {
    // Rows 18 and 19 are both full except under the falling O piece;
    // a marker sits at (10, 0).
    let mut grid = vec![vec![0; 10]; 20];
    for c in 0..10 {
        if c != 4 && c != 5 {
            grid[18][c] = 1;
            grid[19][c] = 1;
        }
    }
    grid[10][0] = 1;
    paint_rot0(&mut grid, Piece::O, 18, 4);
    let mut t = state(grid, Piece::O, 18, 4);
    assert!(t.tick());
    assert_eq!(t.piece, Piece::L);
    let g = t.grid();
    // both rows cleared: the marker moved down by two
    assert_eq!(g[12][0], 1);
    assert_eq!(g[10][0], 0);
    // the bottom rows are empty again
    for c in 0..10 {
        assert_eq!(g[19][c], 0);
        assert_eq!(g[18][c], 0);
    }
    // only the fresh L footprint and the marker remain
    assert_eq!(occupancy(&t), 1 + 4);
}

#[test]
fn test_piece_cycle_on_landings() {
    // Successive landings without any row clears cycle the active
    // piece through the fixed 7-value order, wrapping after the 7th.
    let mut t = Tetris::new();
    let mut seen = vec![t.piece];
    loop {
        let more = t.tick();
        if *seen.last().unwrap() != t.piece {
            seen.push(t.piece);
        }
        if !more {
            break;
        }
        assert!(seen.len() < 30);
    }
    let expected = [
        Piece::O,
        Piece::L,
        Piece::J,
        Piece::T,
        Piece::Z,
        Piece::S,
        Piece::I,
        Piece::O,
    ];
    assert!(seen.len() >= 8, "expected at least one full cycle, saw {:?}", seen);
    for (i, p) in seen.iter().enumerate() {
        assert_eq!(*p, expected[i % 7], "at landing {}: {:?}", i, seen);
    }
}

#[test]
fn test_game_over_leaves_grid_unchanged() {
    // The O piece has landed on the floor, no row is complete, and a
    // blocker occupies a cell of the successor L's spawn footprint.
    let mut grid = vec![vec![0; 10]; 20];
    grid[1][4] = 1;
    paint_rot0(&mut grid, Piece::O, 18, 4);
    let mut t = state(grid, Piece::O, 18, 4);
    let before = t.clone();
    assert!(!t.tick());
    assert!(t.game_over);
    // the grid is exactly the pre-spawn-attempt state: nothing was
    // painted for the failed spawn, and the piece fields are untouched
    assert_eq!(t.grid(), before.grid());
    assert_eq!(t.piece, before.piece);
    assert_eq!(t.rotation, before.rotation);
    assert_eq!(t.anchor_row, before.anchor_row);
    assert_eq!(t.anchor_col, before.anchor_col);
}

#[test]
fn test_tick_after_game_over_is_noop() {
    let mut grid = vec![vec![0; 10]; 20];
    grid[1][4] = 1;
    paint_rot0(&mut grid, Piece::O, 18, 4);
    let mut t = state(grid, Piece::O, 18, 4);
    assert!(!t.tick());
    let stopped = t.clone();
    // a stopped simulation stays stopped and untouched
    assert!(!t.tick());
    assert!(t == stopped);
    assert!(!t.tick());
    assert!(t == stopped);
}

#[test]
fn test_event_is_noop() {
    let mut t = Tetris::new();
    let before = t.clone();
    t.event(Event::Left);
    t.event(Event::Right);
    t.event(Event::Clock);
    t.event(Event::CounterClock);
    assert!(t == before);
}

#[test]
fn test_iteration_carries_events() {
    let it = Iteration::Event(Event::Left);
    assert!(matches!(it, Iteration::Event(Event::Left)));
    let it = Iteration::Tick;
    assert!(matches!(it, Iteration::Tick));
}
