use chess_engine::geometry::{Color, Dir, Pos};
use chess_engine::ui::ChessWidgetState;

fn pos(file: usize, rank: usize) -> Pos {
    Pos::new(file, rank).unwrap()
}

#[test]
fn widget_starts_on_king_pawn() {
    let state = ChessWidgetState::new();
    assert_eq!(state.cursor, pos(5, 2));
    assert_eq!(state.selected, None);
    assert_eq!(state.chess_state.turn, Color::White);
}

#[test]
fn cursor_moves_and_stops_at_edges() {
    let mut state = ChessWidgetState::new();
    state.move_cursor(Dir::Up);
    assert_eq!(state.cursor, pos(5, 3));
    state.move_cursor(Dir::Left);
    assert_eq!(state.cursor, pos(4, 3));
    for _ in 0..10 {
        state.move_cursor(Dir::Down);
    }
    assert_eq!(state.cursor, pos(4, 1));
    for _ in 0..10 {
        state.move_cursor(Dir::Right);
    }
    assert_eq!(state.cursor, pos(8, 1));
}

#[test]
fn toggle_select_selects_and_clears() {
    let mut state = ChessWidgetState::new();
    state.toggle_select();
    assert_eq!(state.selected, Some(pos(5, 2)));
    state.quit_select();
    assert_eq!(state.selected, None);
    state.toggle_select();
    // Toggling on the same square drops the selection without moving.
    state.toggle_select();
    assert_eq!(state.selected, None);
    assert_eq!(state.chess_state.turn, Color::White);
}

#[test]
fn toggle_select_plays_a_move() {
    let mut state = ChessWidgetState::new();
    // Select the e2 pawn, walk the cursor to e4, toggle again.
    state.toggle_select();
    state.move_cursor(Dir::Up);
    state.move_cursor(Dir::Up);
    state.toggle_select();
    assert_eq!(state.selected, None);
    assert_eq!(state.chess_state.turn, Color::Black);
    assert!(state.chess_state.board.fields_get(pos(5, 4)).is_some());
    assert!(state.chess_state.board.fields_get(pos(5, 2)).is_none());
}

#[test]
fn toggle_select_rejected_move_changes_nothing() {
    let mut state = ChessWidgetState::new();
    // Select the e2 pawn and aim somewhere unreachable.
    state.toggle_select();
    for _ in 0..4 {
        state.move_cursor(Dir::Up);
    }
    state.toggle_select();
    assert_eq!(state.selected, None);
    assert_eq!(state.chess_state.turn, Color::White);
    assert!(state.chess_state.board.fields_get(pos(5, 2)).is_some());
    assert!(state.chess_state.board.fields_get(pos(5, 6)).is_none());
}
