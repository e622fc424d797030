use bingo::generate::{generate_board_numbers, generate_number};
use rand::rngs::StdRng;
use rand::SeedableRng;

#[test]
fn it_can_generate_number() {
    let mut rng = StdRng::seed_from_u64(0);
    assert_eq!(generate_number(&mut rng, 1, 75), 59);
    assert_eq!(generate_number(&mut rng, 1, 75), 17);
}

#[test]
fn it_can_generate_board_numbers() {
    let mut rng = StdRng::seed_from_u64(0);
    assert_eq!(
        generate_board_numbers(&mut rng, 3).unwrap(),
        vec![[12, 19, 34], [1, 0, 42], [9, 27, 45]]
    );
    assert_eq!(
        generate_board_numbers(&mut rng, 5).unwrap(),
        vec![
            [3, 22, 43, 53, 61],
            [2, 29, 34, 59, 62],
            [15, 19, 0, 60, 70],
            [1, 24, 38, 49, 72],
            [7, 18, 40, 56, 68]
        ]
    );
    assert_eq!(
        generate_board_numbers(&mut rng, 7).unwrap(),
        vec![
            [12, 19, 32, 54, 61, 89, 93],
            [14, 30, 33, 55, 74, 84, 98],
            [2, 26, 40, 46, 67, 77, 92],
            [6, 27, 39, 0, 70, 80, 95],
            [3, 20, 34, 47, 73, 81, 103],
            [8, 25, 35, 50, 72, 87, 104],
            [15, 16, 36, 49, 66, 88, 99]
        ]
    );
    assert_eq!(
        generate_board_numbers(&mut rng, 9).unwrap(),
        vec![
            [12, 29, 44, 58, 63, 90, 98, 114, 123],
            [8, 19, 39, 47, 70, 85, 92, 106, 131],
            [2, 24, 37, 50, 74, 77, 97, 116, 129],
            [15, 23, 34, 46, 61, 86, 99, 107, 135],
            [4, 17, 36, 55, 0, 89, 100, 117, 134],
            [11, 28, 40, 49, 66, 78, 93, 108, 127],
            [3, 20, 45, 51, 72, 88, 91, 119, 133],
            [6, 27, 32, 59, 65, 83, 104, 112, 125],
            [5, 25, 31, 56, 69, 84, 96, 118, 122]
        ]
    );
}

#[test]
fn it_err_generate_board_numbers_when_even_number_given() {
    let mut rng = StdRng::seed_from_u64(0);
    assert_eq!(
        generate_board_numbers(&mut rng, 2),
        Err("Board size must be odd".to_string())
    )
}

#[test]
fn every_even_size_is_refused() {
    let mut rng = StdRng::seed_from_u64(7);
    for size in [0usize, 2, 4, 6, 8, 100] {
        assert_eq!(
            generate_board_numbers(&mut rng, size),
            Err("Board size must be odd".to_string())
        );
    }
}

#[test]
fn sizes_beyond_a_column_range_are_refused() {
    let mut rng = StdRng::seed_from_u64(7);
    assert_eq!(
        generate_board_numbers(&mut rng, 17),
        Err("Board size must be at most 15".to_string())
    );
}

#[test]
fn size_one_is_only_the_free_cell() {
    let mut rng = StdRng::seed_from_u64(3);
    assert_eq!(generate_board_numbers(&mut rng, 1).unwrap(), vec![vec![0]]);
}

#[test]
fn generated_grids_keep_columns_in_range_and_distinct() {
    for seed in 0u64..20 {
        let mut rng = StdRng::seed_from_u64(seed);
        for size in [3usize, 5, 7, 15] {
            let g = generate_board_numbers(&mut rng, size).unwrap();
            assert_eq!(g.len(), size);
            let mid = size / 2;
            let mut seen = std::collections::HashSet::new();
            for r in 0..size {
                assert_eq!(g[r].len(), size);
                for c in 0..size {
                    let x = g[r][c];
                    if r == mid && c == mid {
                        assert_eq!(x, 0);
                    } else {
                        assert!(c * 15 + 1 <= x && x <= (c + 1) * 15);
                    }
                    assert!(seen.insert(x));
                }
            }
        }
    }
}

#[test]
fn generate_number_stays_in_range() {
    let mut rng = StdRng::seed_from_u64(11);
    for _ in 0..1000 {
        let x = generate_number(&mut rng, 16, 30);
        assert!((16..=30).contains(&x));
    }
    assert_eq!(generate_number(&mut rng, 9, 9), 9);
}

#[test]
fn add_draw_appends_a_new_number() {
    let mut column = vec![3, 7];
    bingo::generate::add_draw(&mut column, 0, 5, 12);
    assert_eq!(column, vec![3, 7, 12]);
}

#[test]
fn add_draw_skips_a_number_already_drawn() {
    let mut column = vec![3, 7];
    bingo::generate::add_draw(&mut column, 0, 5, 7);
    assert_eq!(column, vec![3, 7]);
}

#[test]
fn add_draw_places_the_free_cell_first() {
    let mut column = vec![31, 40];
    bingo::generate::add_draw(&mut column, 2, 5, 33);
    assert_eq!(column, vec![31, 40, 0, 33]);
}

#[test]
fn add_draw_leaves_a_full_column() {
    let mut column = vec![1, 2, 3];
    bingo::generate::add_draw(&mut column, 0, 3, 9);
    assert_eq!(column, vec![1, 2, 3]);
    let mut middle = vec![];
    bingo::generate::add_draw(&mut middle, 0, 1, 9);
    assert_eq!(middle, vec![0]);
}
