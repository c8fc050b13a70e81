use gomoku_lib::board::{check_draw, check_win, StoneType};

fn empty_board(rows: usize, cols: usize) -> Vec<Vec<Option<StoneType>>> {
    let mut b = Vec::new();
    for _ in 0..rows {
        let mut row = Vec::new();
        for _ in 0..cols {
            row.push(None);
        }
        b.push(row);
    }
    b
}

#[test]
fn horizontal_run_of_five_wins() {
    let mut b = empty_board(15, 15);
    for c in 3..8 {
        b[7][c] = Some(StoneType::Black);
    }
    assert!(check_win(b, 7, 5, StoneType::Black));
}

#[test]
fn horizontal_run_of_four_does_not_win() {
    let mut b = empty_board(15, 15);
    for c in 3..7 {
        b[7][c] = Some(StoneType::Black);
    }
    assert!(!check_win(b, 7, 5, StoneType::Black));
}

#[test]
fn horizontal_run_of_six_still_wins() {
    let mut b = empty_board(15, 15);
    for c in 3..9 {
        b[7][c] = Some(StoneType::White);
    }
    assert!(check_win(b, 7, 5, StoneType::White));
}

#[test]
fn vertical_run_of_five_wins() {
    let mut b = empty_board(15, 15);
    for r in 2..7 {
        b[r][4] = Some(StoneType::Black);
    }
    assert!(check_win(b, 4, 4, StoneType::Black));
}

#[test]
fn diagonal_down_run_of_five_wins() {
    let mut b = empty_board(15, 15);
    for i in 0..5 {
        b[5 + i][5 + i] = Some(StoneType::White);
    }
    assert!(check_win(b, 7, 7, StoneType::White));
}

#[test]
fn diagonal_up_run_of_five_wins() {
    let mut b = empty_board(15, 15);
    for i in 0..5 {
        b[5 + i][9 - i] = Some(StoneType::Black);
    }
    assert!(check_win(b, 7, 7, StoneType::Black));
}

#[test]
fn opponent_stones_break_the_run() {
    let mut b = empty_board(15, 15);
    for c in 3..8 {
        b[7][c] = Some(StoneType::Black);
    }
    b[7][5] = Some(StoneType::White);
    assert!(!check_win(b, 7, 4, StoneType::Black));
}

#[test]
fn corner_placement_reads_no_out_of_bounds_cells() {
    let mut b = empty_board(5, 5);
    b[0][0] = Some(StoneType::Black);
    assert!(!check_win(b.clone(), 0, 0, StoneType::Black));
    b[4][4] = Some(StoneType::White);
    assert!(!check_win(b, 4, 4, StoneType::White));
}

#[test]
fn corner_run_of_five_wins() {
    let mut b = empty_board(5, 5);
    for c in 0..5 {
        b[0][c] = Some(StoneType::Black);
    }
    assert!(check_win(b, 0, 0, StoneType::Black));
}

#[test]
fn full_board_is_a_draw() {
    let mut b = empty_board(3, 3);
    for r in 0..3 {
        for c in 0..3 {
            b[r][c] = Some(if (r + c) % 2 == 0 { StoneType::Black } else { StoneType::White });
        }
    }
    assert!(check_draw(b));
}

#[test]
fn board_with_an_empty_cell_is_never_a_draw() {
    let mut b = empty_board(3, 3);
    for r in 0..3 {
        for c in 0..3 {
            b[r][c] = Some(StoneType::Black);
        }
    }
    b[1][2] = None;
    assert!(!check_draw(b));
}

#[test]
fn empty_board_with_no_cells_is_a_draw() {
    let b: Vec<Vec<Option<StoneType>>> = Vec::new();
    assert!(check_draw(b));
}
