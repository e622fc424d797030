use bingo::board::{Board, BoardState};

#[test]
fn board_works_open() {
    // [
    //   [15, 30, 31, 48, 75],
    //   [11, 21, 45, 59, 69],
    //   [ 7, 26,  0, 51, 70],
    //   [ 3, 23, 37, 46, 62],
    //   [ 4, 19, 33, 55, 63]
    // ]
    let mut board = Board::new(1, 5).unwrap();
    assert_eq!(board.open(15), BoardState::NONE);
    assert_eq!(board.open(21), BoardState::NONE);
    assert_eq!(
        board.open(63),
        BoardState::REACH(vec![vec![15, 21, 0, 46, 63]])
    );
    assert_eq!(
        board.open(46),
        BoardState::BINGO(vec![vec![15, 21, 0, 46, 63]])
    );
}

#[test]
fn seed_one_gives_the_known_grid() {
    let board = Board::new(1, 5).unwrap();
    assert_eq!(board.id, 1);
    assert_eq!(board.size, 5);
    assert!(board.opened.is_empty());
    assert_eq!(
        board.numbers,
        vec![
            vec![15, 30, 31, 48, 75],
            vec![11, 21, 45, 59, 69],
            vec![7, 26, 0, 51, 70],
            vec![3, 23, 37, 46, 62],
            vec![4, 19, 33, 55, 63]
        ]
    );
}

#[test]
fn same_seed_and_size_give_the_same_grid() {
    for seed in [0u64, 1, 42, u64::MAX] {
        for size in [1usize, 3, 5, 7, 9, 15] {
            let a = Board::new(seed, size).unwrap();
            let b = Board::new(seed, size).unwrap();
            assert_eq!(a.numbers, b.numbers);
        }
    }
}

#[test]
fn open_records_every_call() {
    let mut board = Board::new(1, 5).unwrap();
    board.open(15);
    board.open(999);
    board.open(0);
    board.open(15);
    assert_eq!(board.opened, vec![15, 999, 0, 15]);
}

#[test]
fn complete_line_wins_over_one_away_lines() {
    let mut board = Board::new(1, 3).unwrap();
    board.numbers = vec![vec![15, 18, 45], vec![11, 0, 36], vec![7, 19, 41]];
    board.opened = vec![15, 18, 11];
    // Row 0 completes with 45, while column 0 and the diagonals are one away.
    assert_eq!(board.open(45), BoardState::BINGO(vec![vec![15, 18, 45]]));
}

#[test]
fn several_complete_lines_are_all_reported() {
    let mut board = Board::new(1, 3).unwrap();
    board.numbers = vec![vec![15, 18, 45], vec![11, 0, 36], vec![7, 19, 41]];
    board.opened = vec![15, 18, 7, 41];
    assert_eq!(
        board.open(45),
        BoardState::BINGO(vec![vec![15, 18, 45], vec![15, 0, 41], vec![45, 0, 7]])
    );
}

#[test]
fn snapshot_equals_the_board() {
    let mut board = Board::new(3, 5).unwrap();
    board.open(7);
    assert_eq!(board.snapshot(), board);
}

#[test]
fn new_refuses_even_and_oversized_boards() {
    assert_eq!(Board::new(1, 4), Err("Board size must be odd".to_string()));
    assert_eq!(Board::new(1, 0), Err("Board size must be odd".to_string()));
    assert_eq!(
        Board::new(1, 17),
        Err("Board size must be at most 15".to_string())
    );
}
