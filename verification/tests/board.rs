use loopover::board::{next_token_at, prev_token_before, Board};
use loopover::error::Error;
use loopover::size::Size;
use loopover::vec2::Vec2;

fn board3() -> Board {
    Board::new(Size::new(3, 3))
}

#[test]
fn new_board_is_solved_identity() {
    let mut b = board3();
    assert_eq!(b.cells, vec![1, 2, 3, 4, 5, 6, 7, 8, 9]);
    assert_eq!(b.selected, Vec2::new(0, 0));
    assert!(b.solved());
    assert!(!b.small);
}

#[test]
fn new_board_small_flag() {
    let b = Board::new(Size::new(2, 5));
    assert!(b.small);
    let b = Board::new(Size::new(3, 3));
    assert!(!b.small);
}

#[test]
fn token_u_rotates_column_and_wraps_cursor() {
    let mut b = board3();
    b.apply_move('U').unwrap();
    assert_eq!(b.cells, vec![4, 2, 3, 7, 5, 6, 1, 8, 9]);
    assert_eq!(b.selected, Vec2::new(0, 2));
}

#[test]
fn token_u_then_d_restores_board() {
    let mut b = board3();
    b.apply_move('U').unwrap();
    b.apply_move('D').unwrap();
    assert_eq!(b.cells, vec![1, 2, 3, 4, 5, 6, 7, 8, 9]);
    assert_eq!(b.selected, Vec2::new(0, 0));
}

#[test]
fn every_token_then_inverse_restores_board() {
    for (t, inv) in [('U', 'D'), ('D', 'U'), ('L', 'R'), ('R', 'L'),
                     ('u', 'd'), ('d', 'u'), ('l', 'r'), ('r', 'l')] {
        let mut b = Board::new(Size::new(4, 3));
        b.select(Vec2::new(2, 1));
        b.apply_move('R').unwrap();
        b.apply_move('D').unwrap();
        let cells = b.cells.clone();
        let sel = b.selected;
        b.apply_move(t).unwrap();
        b.apply_move(inv).unwrap();
        assert_eq!(b.cells, cells, "token {t} then {inv}");
        assert_eq!(b.selected, sel, "token {t} then {inv}");
    }
}

#[test]
fn reverse_move_is_the_inverse_token() {
    // undoing a token acts exactly like applying its inverse token
    let mut a = board3();
    a.apply_rev_move('U').unwrap();
    let mut b = board3();
    b.apply_move('D').unwrap();
    assert_eq!(a.cells, b.cells);
    assert_eq!(a.selected, b.selected);

    let mut a = board3();
    a.apply_rev_move('l').unwrap();
    let mut b = board3();
    b.apply_move('r').unwrap();
    assert_eq!(a.cells, b.cells);
    assert_eq!(a.selected, b.selected);
}

#[test]
fn cursor_wraps_at_every_edge() {
    let mut b = Board::new(Size::new(3, 4));
    b.up();
    assert_eq!(b.selected, Vec2::new(0, 3));
    b.down();
    assert_eq!(b.selected, Vec2::new(0, 0));
    b.left();
    assert_eq!(b.selected, Vec2::new(2, 0));
    b.right();
    assert_eq!(b.selected, Vec2::new(0, 0));
}

#[test]
fn cursor_moves_inside_board() {
    let mut b = board3();
    b.down();
    b.right();
    assert_eq!(b.selected, Vec2::new(1, 1));
    b.up();
    b.left();
    assert_eq!(b.selected, Vec2::new(0, 0));
}

#[test]
fn rotating_a_row_three_times_restores_it() {
    let mut b = board3();
    b.move_left();
    b.move_left();
    b.move_left();
    assert_eq!(b.cells, vec![1, 2, 3, 4, 5, 6, 7, 8, 9]);
}

#[test]
fn rotating_a_column_four_times_restores_it() {
    let mut b = Board::new(Size::new(3, 4));
    b.select(Vec2::new(2, 0));
    for _ in 0..4 {
        b.move_down();
    }
    let sorted: Vec<usize> = (1..=12).collect();
    assert_eq!(b.cells, sorted);
}

#[test]
fn row_rotation_shifts_only_that_row() {
    let mut b = board3();
    b.select(Vec2::new(0, 1));
    b.move_left();
    assert_eq!(b.cells, vec![1, 2, 3, 5, 6, 4, 7, 8, 9]);
    let mut b = board3();
    b.select(Vec2::new(0, 1));
    b.move_right();
    assert_eq!(b.cells, vec![1, 2, 3, 6, 4, 5, 7, 8, 9]);
}

#[test]
fn restart_always_solves() {
    let mut b = board3();
    b.scramble();
    b.select(Vec2::new(1, 2));
    b.restart();
    assert!(b.solved());
    assert_eq!(b.cells, vec![1, 2, 3, 4, 5, 6, 7, 8, 9]);
    // the cursor is untouched
    assert_eq!(b.selected, Vec2::new(1, 2));
}

#[test]
fn scramble_never_returns_solved() {
    for (w, h) in [(2, 2), (2, 3), (3, 3), (4, 2)] {
        for _ in 0..20 {
            let mut b = Board::new(Size::new(w, h));
            b.scramble();
            assert!(!b.solved(), "{w}x{h} came back solved");
        }
    }
}

#[test]
fn scramble_keeps_the_same_tiles() {
    let mut b = Board::new(Size::new(4, 3));
    b.scramble();
    let mut tiles = b.cells.clone();
    tiles.sort();
    let sorted: Vec<usize> = (1..=12).collect();
    assert_eq!(tiles, sorted);
    assert_eq!(b.selected, Vec2::new(0, 0));
}

#[test]
fn invalid_token_is_rejected_and_ignored() {
    let mut b = board3();
    let before = b.cells.clone();
    assert!(matches!(b.apply_move('x'), Err(Error::InvalidToken)));
    assert!(matches!(b.apply_rev_move('?'), Err(Error::InvalidToken)));
    assert_eq!(b.cells, before);
    assert_eq!(b.selected, Vec2::new(0, 0));
}

#[test]
fn whitespace_is_a_separator_not_a_token() {
    let mut b = board3();
    assert!(b.apply_solution(" \t\n\r ", Vec2::new(2, 1)).is_ok());
    assert_eq!(b.cells, vec![1, 2, 3, 4, 5, 6, 7, 8, 9]);
    assert_eq!(b.selected, Vec2::new(2, 1));
}

#[test]
fn apply_solution_rejects_bad_character() {
    let mut b = board3();
    assert!(matches!(
        b.apply_solution("U R q L", Vec2::new(0, 0)),
        Err(Error::InvalidToken)
    ));
}

#[test]
fn solution_replay_round_trip() {
    // The state that apply_solution rebuilds is exactly the one from which
    // the recorded moves lead back to the solved board with the recorded
    // end cursor.
    let moves = "U R R D l U L";
    let end = Vec2::new(1, 2);
    let mut b = board3();
    b.apply_solution(moves, end).unwrap();

    let mut replay = Board {
        cells: b.cells.clone(),
        selected: b.selected,
        size: b.size,
        small: b.small,
    };
    for c in ['U', 'R', 'R', 'D', 'l', 'U', 'L'] {
        replay.apply_move(c).unwrap();
    }
    assert!(replay.solved());
    assert_eq!(replay.cells, vec![1, 2, 3, 4, 5, 6, 7, 8, 9]);
    assert_eq!(replay.selected, end);
}

#[test]
fn apply_solution_of_single_token() {
    // Replaying "U" backwards undoes a U: start solved at the recorded
    // end, apply the inverse of U (a D move).
    let mut b = board3();
    b.apply_solution("U", Vec2::new(0, 2)).unwrap();
    // Applying U from here must give the solved board with cursor (0, 2).
    b.apply_move('U').unwrap();
    assert!(b.solved());
    assert_eq!(b.selected, Vec2::new(0, 2));
}

#[test]
fn cell_color_gradient_corners() {
    let b = board3();
    assert_eq!(b.cell_color(1), (200, 0, 0));
    assert_eq!(b.cell_color(3), (0, 0, 200));
    assert_eq!(b.cell_color(7), (200, 200, 0));
    assert_eq!(b.cell_color(9), (0, 200, 200));
    assert_eq!(b.cell_color(5), (100, 100, 100));
}

#[test]
fn move_log_scanning_skips_separators() {
    assert_eq!(next_token_at("U R d", 0), Some(('U', 0)));
    assert_eq!(next_token_at("U R d", 1), Some(('R', 2)));
    assert_eq!(next_token_at("U R d", 5), None);
    assert_eq!(next_token_at("  \t ", 0), None);
    assert_eq!(prev_token_before("U R d", 5), Some(('d', 4)));
    assert_eq!(prev_token_before("U R d", 4), Some(('R', 2)));
    assert_eq!(prev_token_before("U R d", 0), None);
}

#[test]
fn solved_checks_adjacent_pairs() {
    let mut b = board3();
    b.cells = vec![1, 2, 3, 4, 5, 6, 7, 9, 8];
    assert!(!b.solved());
    b.cells = vec![2, 1, 3, 4, 5, 6, 7, 8, 9];
    assert!(!b.solved());
    b.cells = vec![1, 2, 3, 4, 5, 6, 7, 8, 9];
    assert!(b.solved());
}
