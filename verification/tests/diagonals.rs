use tictactoe::diagonals::calculate_diagonals_coords;
use tictactoe::diagonals::generate_coords;
use tictactoe::diagonals::Direction;

#[test]
fn test_diagonal_2_2() {
    let diagonals = calculate_diagonals_coords(2, 2);
    assert_eq!(diagonals[0].len(), 1);
    assert_eq!(diagonals[1].len(), 1);
    println!("{:?}", diagonals);
}

#[test]
fn test_diagonal_3_3() {
    let diagonals = calculate_diagonals_coords(3, 3);
    assert_eq!(diagonals[0].len(), 1);
    assert_eq!(diagonals[1].len(), 1);
    println!("{:?}", diagonals);
}

#[test]
fn test_diagonal_3_2() {
    let diagonals = calculate_diagonals_coords(3, 2);
    assert_eq!(diagonals[0].len(), 4);
    assert_eq!(diagonals[1].len(), 4);
    println!("{:?}", diagonals);
}

#[test]
fn test_diagonal_10_2() {
    let diagonals = calculate_diagonals_coords(10, 2);
    assert_eq!(diagonals[0].len(), 81);
    assert_eq!(diagonals[1].len(), 81);
    // Prefixes of a diagonal are listed beside the diagonal itself, so the
    // count is above the 45 distinct diagonals of each direction.
    println!("{:?}", diagonals);
}

#[test]
fn index_of_3_2_lists_lines_in_scan_order() {
    let diagonals = calculate_diagonals_coords(3, 2);
    assert_eq!(diagonals.len(), 2);
    assert_eq!(
        diagonals[0],
        vec![
            vec![(0, 0), (1, 1), (2, 2)],
            vec![(0, 0), (1, 1)],
            vec![(1, 0), (2, 1)],
            vec![(0, 1), (1, 2)],
        ]
    );
    assert_eq!(
        diagonals[1],
        vec![
            vec![(0, 2), (1, 1), (2, 0)],
            vec![(0, 2), (1, 1)],
            vec![(1, 2), (2, 1)],
            vec![(0, 1), (1, 0)],
        ]
    );
}

#[test]
fn index_is_empty_when_run_exceeds_size() {
    let diagonals = calculate_diagonals_coords(3, 4);
    assert_eq!(diagonals.len(), 2);
    assert!(diagonals[0].is_empty());
    assert!(diagonals[1].is_empty());
}

#[test]
fn index_of_4_3_holds_every_anti_diagonal() {
    let diagonals = calculate_diagonals_coords(4, 3);
    assert_eq!(diagonals[0].len(), 4);
    assert_eq!(diagonals[1].len(), 4);
    assert!(diagonals[1].contains(&vec![(0, 2), (1, 1), (2, 0)]));
    assert!(diagonals[1].contains(&vec![(1, 3), (2, 2), (3, 1)]));
    assert!(diagonals[0].contains(&vec![(1, 0), (2, 1), (3, 2)]));
    assert!(diagonals[0].contains(&vec![(0, 1), (1, 2), (2, 3)]));
}

#[test]
fn generate_coords_walks_each_direction() {
    assert_eq!(
        generate_coords(1, 0, 3, Direction::Main),
        vec![(1, 0), (2, 1), (3, 2)]
    );
    assert_eq!(
        generate_coords(0, 2, 3, Direction::Anti),
        vec![(0, 2), (1, 1), (2, 0)]
    );
    assert_eq!(
        generate_coords(2, 1, 3, Direction::Across),
        vec![(2, 1), (2, 2), (2, 3)]
    );
    assert_eq!(
        generate_coords(2, 1, 2, Direction::Down),
        vec![(2, 1), (3, 1)]
    );
}

#[test]
fn generate_coords_drops_cells_left_of_the_board() {
    assert_eq!(
        generate_coords(0, 1, 4, Direction::Anti),
        vec![(0, 1), (1, 0)]
    );
    assert_eq!(generate_coords(5, 5, 0, Direction::Main), vec![]);
}

#[test]
fn index_for_a_minimal_length_of_zero_lists_the_empty_prefixes_too() {
    let diagonals = calculate_diagonals_coords(2, 0);
    assert_eq!(
        diagonals[0],
        vec![
            vec![(0, 0), (1, 1)],
            vec![(0, 0)],
            vec![],
            vec![(1, 0)],
            vec![(0, 1)],
            vec![],
            vec![],
        ]
    );
    assert_eq!(diagonals[1].len(), 7);
    assert_eq!(diagonals[1][0], vec![(0, 1), (1, 0)]);
    assert_eq!(diagonals[1][3], vec![(1, 1)]);
    assert_eq!(diagonals[1][4], vec![(0, 0)]);
}

#[test]
fn index_of_an_empty_board_is_empty() {
    let diagonals = calculate_diagonals_coords(0, 0);
    assert_eq!(diagonals.len(), 2);
    assert!(diagonals[0].is_empty());
    assert!(diagonals[1].is_empty());
}

#[test]
fn index_counts_are_squares() {
    for size in 1..8usize {
        for run in 1..=size {
            let diagonals = calculate_diagonals_coords(size, run);
            let side = size - run + 1;
            assert_eq!(diagonals[0].len(), side * side);
            assert_eq!(diagonals[1].len(), side * side);
            for group in diagonals.iter() {
                for line in group.iter() {
                    assert!(line.len() >= run);
                    assert!(line.iter().all(|&(row, col)| row < size && col < size));
                }
            }
        }
    }
}
