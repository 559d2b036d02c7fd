use rand::rngs::StdRng;
use rand::SeedableRng;
use sherlock::count_errors::count_errors;
use sherlock::error::PuzzleError;
use sherlock::hints::create_hints;
use sherlock::hints::HintType;
use sherlock::matrix::Matrix2D;
use sherlock::settings::Settings;
use sherlock::sherlock::build_puzzle;
use sherlock::sherlock::set_selection_gaps;

fn count_empty(matrix: &Matrix2D) -> usize {
    let mut found: usize = 0;
    for r in 0..matrix.rows() {
        for c in 0..matrix.cols() {
            if matrix.get(r, c) == Some(0) {
                found += 1;
            }
        }
    }
    found
}

fn assert_gapped(solved: &Matrix2D, selection: &Matrix2D) {
    assert_eq!(selection.rows(), solved.rows());
    assert_eq!(selection.cols(), solved.cols());
    for r in 0..solved.rows() {
        for c in 0..solved.cols() {
            let value = selection.get(r, c);
            assert!(value == Some(0) || value == solved.get(r, c));
        }
    }
}

fn default_settings() -> Settings {
    Settings {
        theme: "default".to_string(),
        row_tile_count: 8,
        col_tile_count: 8,
        row_hint_count: 3,
        col_hint_count: 3,
        gap_count: 5,
    }
}

#[test]
fn eight_gaps_leave_one_to_eight_empty_cells() {
    for seed in 0..200u64 {
        let mut rng = StdRng::seed_from_u64(seed);
        let mut solved = Matrix2D::new(8, 8);
        solved.shuffle(&mut rng);
        let mut selection = solved.clone();
        set_selection_gaps(&mut selection, 8, &mut rng);
        let empty: usize = count_empty(&selection);
        assert!(1 <= empty && empty <= 8);
        assert_gapped(&solved, &selection);
        assert_eq!(count_errors(&solved, &selection).unwrap().len(), empty);
    }
}

#[test]
fn gaps_may_fall_on_the_same_cell() {
    let mut fewest: usize = 64;
    for seed in 0..50u64 {
        let mut rng = StdRng::seed_from_u64(seed);
        let mut selection = Matrix2D::new(2, 2);
        set_selection_gaps(&mut selection, 8, &mut rng);
        let empty: usize = count_empty(&selection);
        assert!(1 <= empty && empty <= 4);
        fewest = fewest.min(empty);
    }
    assert!(fewest < 4);
}

#[test]
fn a_single_cell_grid_gets_its_gap() {
    let mut rng = StdRng::seed_from_u64(3);
    let mut selection = Matrix2D::new(1, 1);
    set_selection_gaps(&mut selection, 1, &mut rng);
    assert_eq!(selection.get(0, 0), Some(0));
}

#[test]
fn no_gaps_for_a_count_below_one() {
    let mut rng = StdRng::seed_from_u64(3);
    let solved = Matrix2D::new(4, 4);
    let mut selection = solved.clone();
    set_selection_gaps(&mut selection, 0, &mut rng);
    assert!(selection == solved);
    set_selection_gaps(&mut selection, -5, &mut rng);
    assert!(selection == solved);
    let mut empty = Matrix2D::new(0, 0);
    set_selection_gaps(&mut empty, 0, &mut rng);
    assert_eq!(empty.rows(), 0);
}

#[test]
fn gaps_reach_every_cell() {
    let mut rng = StdRng::seed_from_u64(5);
    let mut selection = Matrix2D::new(3, 4);
    set_selection_gaps(&mut selection, 2000, &mut rng);
    assert_eq!(count_empty(&selection), 12);
}

#[test]
fn end_to_end_puzzle() {
    for seed in 0..100u64 {
        let mut rng = StdRng::seed_from_u64(seed);
        let mut solved = Matrix2D::new(8, 8);
        solved.shuffle(&mut rng);
        let hints = create_hints(3, 3, &solved, &mut rng).unwrap();
        let mut selection = solved.clone();
        set_selection_gaps(&mut selection, 5, &mut rng);

        assert_eq!(hints.0.len(), 6);
        for hint in &hints.0 {
            assert_eq!(hint.values.len(), hint.indexes.len());
            for k in 0..hint.indexes.len() {
                let position: usize = hint.indexes[k] as usize;
                let line: usize = hint.index as usize;
                let cell = match hint.hint_type {
                    HintType::Row => solved.get(line, position),
                    HintType::Column => solved.get(position, line),
                };
                assert_eq!(cell, Some(hint.values[k]));
            }
        }
        assert_gapped(&solved, &selection);
        let empty: usize = count_empty(&selection);
        assert!(1 <= empty && empty <= 5);
        let errors = count_errors(&solved, &selection).unwrap();
        assert_eq!(errors.len(), empty);
        for cell in errors {
            assert_eq!(selection.get(cell.row, cell.col), Some(0));
        }
    }
}

#[test]
fn build_puzzle_follows_the_settings() {
    for seed in 0..50u64 {
        let mut rng = StdRng::seed_from_u64(seed);
        let settings = default_settings();
        assert!(settings.is_playable());
        let puzzle = build_puzzle(&settings, &mut rng).unwrap();
        assert_eq!(puzzle.data.rows(), 8);
        assert_eq!(puzzle.data.cols(), 8);
        assert!(puzzle.data.is_complete());
        for r in 0..8 {
            let mut row: Vec<i32> = puzzle.data.get_row(r).clone();
            row.sort();
            assert_eq!(row, vec![1, 2, 3, 4, 5, 6, 7, 8]);
        }
        assert_gapped(&puzzle.data, &puzzle.selected);
        let empty: usize = count_empty(&puzzle.selected);
        assert!(1 <= empty && empty <= 5);
        assert_eq!(puzzle.hints.0.len(), 6);
        for k in 0..6 {
            let axis = if k < 3 { HintType::Row } else { HintType::Column };
            assert_eq!(puzzle.hints.0[k].hint_type, axis);
        }
    }
}

#[test]
fn build_puzzle_is_reproducible_under_a_seed() {
    let settings = default_settings();
    let first = build_puzzle(&settings, &mut StdRng::seed_from_u64(99)).unwrap();
    let second = build_puzzle(&settings, &mut StdRng::seed_from_u64(99)).unwrap();
    assert!(first.data == second.data);
    assert!(first.selected == second.selected);
    assert_eq!(first.hints.0, second.hints.0);
}

#[test]
fn build_puzzle_refuses_more_hints_than_lines() {
    let mut rng = StdRng::seed_from_u64(1);
    let mut settings = default_settings();
    settings.row_hint_count = 9;
    assert!(settings.is_playable());
    assert_eq!(build_puzzle(&settings, &mut rng).err(), Some(PuzzleError::ExhaustedLineSpace));
    settings.row_hint_count = 8;
    settings.col_hint_count = 12;
    assert_eq!(build_puzzle(&settings, &mut rng).err(), Some(PuzzleError::ExhaustedLineSpace));
    settings.row_tile_count = 3;
    settings.col_tile_count = 3;
    settings.row_hint_count = 4;
    settings.col_hint_count = 0;
    assert!(settings.is_playable());
    assert_eq!(build_puzzle(&settings, &mut rng).err(), Some(PuzzleError::ExhaustedLineSpace));
}

#[test]
fn build_puzzle_without_hints_or_gaps() {
    let mut rng = StdRng::seed_from_u64(1);
    let settings = Settings {
        theme: "plain".to_string(),
        row_tile_count: 3,
        col_tile_count: 2,
        row_hint_count: 0,
        col_hint_count: 0,
        gap_count: 0,
    };
    assert!(settings.is_playable());
    let puzzle = build_puzzle(&settings, &mut rng).unwrap();
    assert_eq!(puzzle.data.rows(), 3);
    assert_eq!(puzzle.data.cols(), 2);
    assert!(puzzle.selected == puzzle.data);
    assert_eq!(puzzle.hints.0.len(), 0);
}
