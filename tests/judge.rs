use bingo::board::Board;
use bingo::judge::opened_count_in_vec;

#[test]
fn judge_works_opened_count_in_vec() {
    assert_eq!(opened_count_in_vec(&[2, 4], vec![2, 4, 5]), 2);

    let mut board = Board::new(1, 5).unwrap();
    board.open(2);
    board.open(4);
    assert_eq!(board.opened_count_in_vec(vec![2, 4, 5]), 2);
}

#[test]
fn opened_count_counts_the_free_cell() {
    assert_eq!(opened_count_in_vec(&[], vec![0, 3, 0]), 2);
    assert_eq!(opened_count_in_vec(&[3, 3], vec![3, 7]), 1);
}

#[test]
fn judge_works_judge_reach() {
    // [
    //   [15, 18, 45],
    //   [11, 0, 36],
    //   [7, 19, 41],
    // ]
    let mut board = Board::new(1, 3).unwrap();
    board.open(15);
    board.open(45);

    assert_eq!(
        board.judge_reach(),
        Some(vec![vec![15, 18, 45], vec![15, 0, 41], vec![45, 0, 7]])
    );

    board.open(11);

    println!("{:?}", board.opened);
    assert_eq!(
        board.judge_reach(),
        Some(vec![
            vec![15, 18, 45],
            vec![11, 0, 36],
            vec![15, 11, 7],
            vec![15, 0, 41],
            vec![45, 0, 7]
        ])
    )
}

#[test]
fn judge_works_judge_bingo_row() {
    let mut board = Board::new(1, 3).unwrap();
    board.open(15);
    board.open(45);
    board.open(18);
    assert_eq!(board.judge_bingo(), Some(vec![vec![15, 18, 45]]));
}

#[test]
fn judge_works_judge_bingo_col() {
    let mut board = Board::new(1, 3).unwrap();
    board.open(15);
    board.open(11);
    board.open(7);
    assert_eq!(board.judge_bingo(), Some(vec![vec![15, 11, 7]]));
}

#[test]
fn judge_works_judge_bingo_diagnoal_from_upper_left() {
    let mut board = Board::new(1, 3).unwrap();
    board.open(15);
    board.open(41);
    assert_eq!(board.judge_bingo(), Some(vec![vec![15, 0, 41]]));
}

#[test]
fn judge_works_judge_bingo_diagnoal_from_upper_right() {
    let mut board = Board::new(1, 3).unwrap();
    board.open(45);
    board.open(7);
    assert_eq!(board.judge_bingo(), Some(vec![vec![45, 0, 7]]));
}

#[test]
fn judge_on_a_given_grid() {
    let mut board = Board::new(1, 3).unwrap();
    board.numbers = vec![vec![15, 18, 45], vec![11, 0, 36], vec![7, 19, 41]];
    board.opened = vec![15, 18, 45];
    assert_eq!(board.judge_bingo(), Some(vec![vec![15, 18, 45]]));
    board.opened = vec![15, 45];
    assert_eq!(board.judge_bingo(), None);
    assert_eq!(
        board.judge_reach(),
        Some(vec![vec![15, 18, 45], vec![15, 0, 41], vec![45, 0, 7]])
    );
    board.opened = vec![];
    assert_eq!(board.judge_reach(), None);
}

#[test]
fn judge_leaves_the_board_unchanged() {
    let mut board = Board::new(1, 3).unwrap();
    board.open(15);
    let before = board.clone();
    board.judge_bingo();
    board.judge_reach();
    assert_eq!(board, before);
}
