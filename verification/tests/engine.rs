use chess_engine::board::{Board, Figure, Move};
use chess_engine::game::ChessState;
use chess_engine::geometry::{Color, Dir, MoveError, Pos};

fn pos(file: usize, rank: usize) -> Pos {
    Pos::new(file, rank).unwrap()
}

fn count_pieces(board: &Board) -> usize {
    let mut n = 0;
    for file in 1..=8 {
        for rank in 1..=8 {
            if board.fields_get(pos(file, rank)).is_some() {
                n += 1;
            }
        }
    }
    n
}

fn boards_equal(a: &Board, b: &Board) -> bool {
    for file in 1..=8 {
        for rank in 1..=8 {
            if a.fields_get(pos(file, rank)) != b.fields_get(pos(file, rank)) {
                return false;
            }
        }
    }
    true
}

#[test]
fn position_out_of_bounds() {
    assert_eq!(Pos::new(9, 1), Err(MoveError::OutOfBounds));
    assert_eq!(Pos::new(1, 9), Err(MoveError::OutOfBounds));
    assert_eq!(Pos::new(0, 5), Err(MoveError::OutOfBounds));
    assert_eq!(Pos::new(5, 0), Err(MoveError::OutOfBounds));
    assert!(Pos::new(1, 1).is_ok());
    assert!(Pos::new(8, 8).is_ok());
}

#[test]
fn position_moves_and_edges() {
    let p = pos(1, 1);
    assert_eq!(p.move_dir(Dir::Left), Err(MoveError::OutOfBounds));
    assert_eq!(p.move_dir(Dir::Down), Err(MoveError::OutOfBounds));
    assert_eq!(p.move_dir(Dir::Right), Ok(pos(2, 1)));
    assert_eq!(p.move_dir(Dir::Up), Ok(pos(1, 2)));
    assert_eq!(p.move_dir(Dir::RightUp), Ok(pos(2, 2)));
    let q = pos(8, 8);
    assert_eq!(q.move_dir(Dir::Right), Err(MoveError::OutOfBounds));
    assert_eq!(q.move_dir(Dir::Up), Err(MoveError::OutOfBounds));
    assert_eq!(q.move_dir(Dir::LeftDown), Ok(pos(7, 7)));
}

#[test]
fn position_advance_by_color() {
    assert_eq!(pos(4, 4).advance(Color::White), Ok(pos(4, 5)));
    assert_eq!(pos(4, 4).advance(Color::Black), Ok(pos(4, 3)));
    assert_eq!(pos(4, 8).advance(Color::White), Err(MoveError::OutOfBounds));
    assert_eq!(pos(4, 1).advance(Color::Black), Err(MoveError::OutOfBounds));
}

#[test]
fn position_array_conversions() {
    assert_eq!(pos(1, 8).to_array(), (0, 0));
    assert_eq!(pos(8, 1).to_array(), (7, 7));
    assert_eq!(pos(5, 2).to_ratatui(), (4, 6));
}

#[test]
fn color_other_flips() {
    assert_eq!(Color::White.other(), Color::Black);
    assert_eq!(Color::Black.other(), Color::White);
}

#[test]
fn diagonals_of_straight_directions() {
    assert_eq!(Dir::Left.get_diagonals(), vec![Dir::LeftUp, Dir::LeftDown]);
    assert_eq!(Dir::Right.get_diagonals(), vec![Dir::RightUp, Dir::RightDown]);
    assert_eq!(Dir::Up.get_diagonals(), vec![Dir::LeftUp, Dir::RightUp]);
    assert_eq!(Dir::Down.get_diagonals(), vec![Dir::LeftDown, Dir::RightDown]);
}

#[test]
fn figure_accessors() {
    let mut f = Figure::Knight(Color::Black, false);
    assert_eq!(f.color(), Color::Black);
    assert!(!f.has_moved());
    f.set_moved_to(true);
    assert_eq!(f, Figure::Knight(Color::Black, true));
    assert!(f.has_moved());
    assert_eq!(Figure::Pawn(Color::White, false).symbol(), "♟︎");
    assert_eq!(Figure::King(Color::Black, true).symbol(), "♚");
    assert_eq!(Figure::Queen(Color::White, false).symbol(), "♛");
}

#[test]
fn move_accessors() {
    let m = Move::Normal(pos(2, 1), pos(3, 3), false);
    assert_eq!(m.from_pos(), pos(2, 1));
    assert_eq!(m.to_pos(), pos(3, 3));
    assert!(!m.has_moved_before());
    let t = Move::Take(pos(1, 1), pos(1, 8), Figure::Rook(Color::Black, false), true);
    assert_eq!(t.from_pos(), pos(1, 1));
    assert_eq!(t.to_pos(), pos(1, 8));
    assert!(t.has_moved_before());
    let c = Move::Castle(pos(5, 1), pos(8, 1), pos(7, 1), pos(6, 1));
    assert_eq!(c.from_pos(), pos(5, 1));
    assert_eq!(c.to_pos(), pos(7, 1));
    assert!(!c.has_moved_before());
    let p = Move::Promote(pos(1, 7), pos(1, 8), Figure::Queen(Color::White, true));
    assert_eq!(p.from_pos(), pos(1, 7));
    assert_eq!(p.to_pos(), pos(1, 8));
    assert!(p.has_moved_before());
}

#[test]
fn initial_board_placement() {
    let b = Board::new();
    for file in 1..=8 {
        assert_eq!(b.fields_get(pos(file, 2)), Some(Figure::Pawn(Color::White, false)));
        assert_eq!(b.fields_get(pos(file, 7)), Some(Figure::Pawn(Color::Black, false)));
        for rank in 3..=6 {
            assert_eq!(b.fields_get(pos(file, rank)), None);
        }
    }
    assert_eq!(b.fields_get(pos(1, 1)), Some(Figure::Rook(Color::White, false)));
    assert_eq!(b.fields_get(pos(2, 1)), Some(Figure::Knight(Color::White, false)));
    assert_eq!(b.fields_get(pos(3, 1)), Some(Figure::Bishop(Color::White, false)));
    assert_eq!(b.fields_get(pos(4, 1)), Some(Figure::Queen(Color::White, false)));
    assert_eq!(b.fields_get(pos(5, 1)), Some(Figure::King(Color::White, false)));
    assert_eq!(b.fields_get(pos(6, 1)), Some(Figure::Bishop(Color::White, false)));
    assert_eq!(b.fields_get(pos(7, 1)), Some(Figure::Knight(Color::White, false)));
    assert_eq!(b.fields_get(pos(8, 1)), Some(Figure::Rook(Color::White, false)));
    assert_eq!(b.fields_get(pos(4, 8)), Some(Figure::Queen(Color::Black, false)));
    assert_eq!(b.fields_get(pos(5, 8)), Some(Figure::King(Color::Black, false)));
    assert_eq!(count_pieces(&b), 32);
}

#[test]
fn board_place_remove() {
    let mut b = Board::empty();
    assert_eq!(count_pieces(&b), 0);
    b.add_figure(pos(4, 4), Figure::Queen(Color::White, true));
    assert_eq!(b.fields_get(pos(4, 4)), Some(Figure::Queen(Color::White, true)));
    assert_eq!(count_pieces(&b), 1);
    let removed = b.remove_figure(pos(4, 4));
    assert_eq!(removed, Some(Figure::Queen(Color::White, true)));
    assert_eq!(b.fields_get(pos(4, 4)), None);
    assert_eq!(b.remove_figure(pos(4, 4)), None);
}

#[test]
fn move_figure_sets_flag() {
    let mut b = Board::empty();
    b.add_figure(pos(2, 2), Figure::Pawn(Color::White, false));
    b.move_figure(pos(2, 2), pos(2, 3), true);
    assert_eq!(b.fields_get(pos(2, 2)), None);
    assert_eq!(b.fields_get(pos(2, 3)), Some(Figure::Pawn(Color::White, true)));
}

#[test]
fn apply_reverse_round_trip_normal_and_take() {
    let mut b = Board::new();
    let reference = Board::new();
    let normal = Move::Normal(pos(2, 1), pos(3, 3), false);
    b.do_move(normal);
    assert_eq!(b.fields_get(pos(2, 1)), None);
    assert_eq!(b.fields_get(pos(3, 3)), Some(Figure::Knight(Color::White, true)));
    b.undo_move(normal);
    assert!(boards_equal(&b, &reference));

    let mut c = Board::empty();
    c.add_figure(pos(1, 1), Figure::Rook(Color::White, false));
    c.add_figure(pos(1, 8), Figure::Rook(Color::Black, true));
    let mut reference2 = Board::empty();
    reference2.add_figure(pos(1, 1), Figure::Rook(Color::White, false));
    reference2.add_figure(pos(1, 8), Figure::Rook(Color::Black, true));
    let take = Move::Take(pos(1, 1), pos(1, 8), Figure::Rook(Color::Black, true), false);
    c.do_move(take);
    assert_eq!(c.fields_get(pos(1, 1)), None);
    assert_eq!(c.fields_get(pos(1, 8)), Some(Figure::Rook(Color::White, true)));
    c.undo_move(take);
    assert!(boards_equal(&c, &reference2));
}

#[test]
fn apply_reverse_round_trip_castle_and_promote() {
    let mut b = Board::empty();
    b.add_figure(pos(5, 1), Figure::King(Color::White, false));
    b.add_figure(pos(8, 1), Figure::Rook(Color::White, false));
    let castle = Move::Castle(pos(5, 1), pos(8, 1), pos(7, 1), pos(6, 1));
    b.do_move(castle);
    assert_eq!(b.fields_get(pos(5, 1)), None);
    assert_eq!(b.fields_get(pos(8, 1)), None);
    assert_eq!(b.fields_get(pos(7, 1)), Some(Figure::King(Color::White, true)));
    assert_eq!(b.fields_get(pos(6, 1)), Some(Figure::Rook(Color::White, true)));
    b.undo_move(castle);
    assert_eq!(b.fields_get(pos(5, 1)), Some(Figure::King(Color::White, false)));
    assert_eq!(b.fields_get(pos(8, 1)), Some(Figure::Rook(Color::White, false)));
    assert_eq!(b.fields_get(pos(7, 1)), None);
    assert_eq!(b.fields_get(pos(6, 1)), None);

    let mut p = Board::empty();
    p.add_figure(pos(1, 7), Figure::Pawn(Color::White, true));
    let promote = Move::Promote(pos(1, 7), pos(1, 8), Figure::Queen(Color::White, true));
    p.do_move(promote);
    assert_eq!(p.fields_get(pos(1, 7)), None);
    assert_eq!(p.fields_get(pos(1, 8)), Some(Figure::Queen(Color::White, true)));
    p.undo_move(promote);
    assert_eq!(p.fields_get(pos(1, 7)), Some(Figure::Pawn(Color::White, true)));
    assert_eq!(p.fields_get(pos(1, 8)), None);
}

#[test]
fn generated_moves_round_trip_on_initial_board() {
    // Every legal move of every White piece, applied and reversed,
    // restores the board exactly.
    let mut game = ChessState::new();
    let reference = Board::new();
    for file in 1..=8 {
        for rank in 1..=2 {
            let p = pos(file, rank);
            let moves = game.possible_moves(p, true);
            for m in moves {
                game.board.do_move(m);
                game.board.undo_move(m);
                assert!(boards_equal(&game.board, &reference));
            }
        }
    }
}

#[test]
fn initial_position_has_twenty_white_moves() {
    let mut game = ChessState::new();
    let mut total = 0;
    for file in 1..=8 {
        for rank in 1..=8 {
            let p = pos(file, rank);
            if let Some(fig) = game.board.fields_get(p) {
                if fig.color() == Color::White {
                    total += game.possible_moves(p, true).len();
                }
            }
        }
    }
    assert_eq!(total, 20);
}

#[test]
fn knight_moves_from_initial_corner() {
    let mut game = ChessState::new();
    let moves = game.possible_moves(pos(2, 1), true);
    let targets: Vec<(usize, usize)> =
        moves.iter().map(|m| (m.to_pos().file, m.to_pos().rank)).collect();
    assert_eq!(moves.len(), 2);
    assert!(targets.contains(&(1, 3)));
    assert!(targets.contains(&(3, 3)));
}

#[test]
fn pawn_double_step_then_single_only() {
    let mut game = ChessState::new();
    // White pawn e2-e4: double step of a pawn that has not moved.
    assert_eq!(game.move_checked(pos(5, 2), pos(5, 4)), Ok(()));
    assert_eq!(game.turn, Color::Black);
    // The very same request again fails: the source square is now empty.
    assert!(game.move_checked(pos(5, 2), pos(5, 4)).is_err());
    // Black replies elsewhere.
    assert_eq!(game.move_checked(pos(1, 7), pos(1, 5)), Ok(()));
    // The moved pawn can no longer double-step...
    assert_eq!(
        game.move_checked(pos(5, 4), pos(5, 6)),
        Err(MoveError::IllegalDestination)
    );
    // ...but the single step is fine.
    assert_eq!(game.move_checked(pos(5, 4), pos(5, 5)), Ok(()));
}

#[test]
fn pawn_captures_only_diagonally() {
    let mut game = ChessState::new();
    game.board = Board::empty();
    game.board.add_figure(pos(4, 4), Figure::Pawn(Color::White, true));
    game.board.add_figure(pos(5, 5), Figure::Pawn(Color::Black, true));
    game.board.add_figure(pos(4, 5), Figure::Rook(Color::Black, true));
    game.turn = Color::White;
    // Straight ahead is blocked by an enemy piece: no straight capture.
    assert_eq!(
        game.move_checked(pos(4, 4), pos(4, 5)),
        Err(MoveError::IllegalDestination)
    );
    // The diagonal capture is legal.
    assert_eq!(game.move_checked(pos(4, 4), pos(5, 5)), Ok(()));
    assert_eq!(
        game.board.fields_get(pos(5, 5)),
        Some(Figure::Pawn(Color::White, true))
    );
}

#[test]
fn wrong_color_rejected() {
    let mut game = ChessState::new();
    // A Black pawn while White is to move.
    assert_eq!(
        game.move_checked(pos(1, 7), pos(1, 5)),
        Err(MoveError::WrongColor)
    );
}

#[test]
fn no_piece_rejected() {
    let mut game = ChessState::new();
    assert_eq!(
        game.move_checked(pos(4, 4), pos(4, 5)),
        Err(MoveError::NoPiece)
    );
}

#[test]
fn failed_attempt_changes_nothing() {
    let mut game = ChessState::new();
    let reference = Board::new();
    assert!(game.move_checked(pos(4, 4), pos(4, 5)).is_err());
    assert!(game.move_checked(pos(1, 7), pos(1, 5)).is_err());
    assert!(game.move_checked(pos(1, 2), pos(1, 6)).is_err());
    assert_eq!(game.turn, Color::White);
    assert!(boards_equal(&game.board, &reference));
}

#[test]
fn successful_move_flips_turn_and_keeps_count() {
    let mut game = ChessState::new();
    assert_eq!(count_pieces(&game.board), 32);
    assert_eq!(game.move_checked(pos(5, 2), pos(5, 4)), Ok(()));
    assert_eq!(game.turn, Color::Black);
    assert_eq!(count_pieces(&game.board), 32);
    assert_eq!(game.move_checked(pos(4, 7), pos(4, 5)), Ok(()));
    assert_eq!(game.turn, Color::White);
    assert_eq!(count_pieces(&game.board), 32);
    // White pawn captures the Black pawn: count drops by exactly one.
    assert_eq!(game.move_checked(pos(5, 4), pos(4, 5)), Ok(()));
    assert_eq!(game.turn, Color::Black);
    assert_eq!(count_pieces(&game.board), 31);
}

#[test]
fn filtered_moves_never_leave_king_in_check() {
    // A pinned rook may not move off the line of attack.
    let mut game = ChessState::new();
    game.board = Board::empty();
    game.board.add_figure(pos(5, 1), Figure::King(Color::White, true));
    game.board.add_figure(pos(5, 4), Figure::Rook(Color::White, true));
    game.board.add_figure(pos(5, 8), Figure::Queen(Color::Black, true));
    game.turn = Color::White;
    let rook_moves = game.possible_moves(pos(5, 4), true);
    for m in &rook_moves {
        // Every surviving rook move stays on the e-file.
        assert_eq!(m.to_pos().file, 5);
    }
    // Sideways rook moves exist pseudo-legally but are filtered out.
    let raw_moves = game.possible_moves(pos(5, 4), false);
    assert!(raw_moves.len() > rook_moves.len());
    assert!(raw_moves.iter().any(|m| m.to_pos().file != 5));
}

#[test]
fn check_detection() {
    let mut game = ChessState::new();
    assert!(!game.player_is_in_check());
    game.board = Board::empty();
    game.board.add_figure(pos(5, 1), Figure::King(Color::White, true));
    game.board.add_figure(pos(5, 8), Figure::Rook(Color::Black, true));
    game.turn = Color::White;
    assert!(game.player_is_in_check());
    // Blocking piece lifts the check.
    game.board.add_figure(pos(5, 5), Figure::Pawn(Color::White, true));
    assert!(!game.player_is_in_check());
}

#[test]
fn back_rank_checkmate() {
    // A back-rank king boxed in by its own pawns and attacked by a rook:
    // no legal moves while in check.
    let mut game = ChessState::new();
    game.board = Board::empty();
    game.board.add_figure(pos(8, 8), Figure::King(Color::Black, true));
    game.board.add_figure(pos(7, 7), Figure::Pawn(Color::Black, true));
    game.board.add_figure(pos(8, 7), Figure::Pawn(Color::Black, true));
    game.board.add_figure(pos(1, 8), Figure::Rook(Color::White, true));
    game.turn = Color::Black;
    assert!(game.player_is_in_check());
    assert!(!game.player_has_moves());
}

#[test]
fn stalemate() {
    // The cornered king is not attacked but has no square to go to.
    let mut game = ChessState::new();
    game.board = Board::empty();
    game.board.add_figure(pos(1, 8), Figure::King(Color::Black, true));
    game.board.add_figure(pos(3, 7), Figure::Queen(Color::White, true));
    game.turn = Color::Black;
    assert!(!game.player_is_in_check());
    assert!(!game.player_has_moves());
}

#[test]
fn ongoing_game_has_moves() {
    let mut game = ChessState::new();
    assert!(game.player_has_moves());
    assert!(!game.player_is_in_check());
}

#[test]
fn pawn_on_last_rank_has_no_moves() {
    // Promotion is not generated: a pawn that reached the last rank
    // simply has no further forward moves.
    let mut game = ChessState::new();
    game.board = Board::empty();
    game.board.add_figure(pos(1, 8), Figure::Pawn(Color::White, true));
    game.board.add_figure(pos(5, 1), Figure::King(Color::White, true));
    game.turn = Color::White;
    assert_eq!(game.possible_moves(pos(1, 8), true).len(), 0);
}

#[test]
fn pawn_double_step_blocked_by_occupied_square() {
    let mut game = ChessState::new();
    game.board = Board::empty();
    game.board.add_figure(pos(4, 2), Figure::Pawn(Color::White, false));
    game.board.add_figure(pos(4, 3), Figure::Rook(Color::Black, true));
    game.turn = Color::White;
    // The square directly ahead is occupied: no forward move at all.
    assert_eq!(game.possible_moves(pos(4, 2), true).len(), 0);
    // With only the two-step square occupied, the single step remains.
    let mut game2 = ChessState::new();
    game2.board = Board::empty();
    game2.board.add_figure(pos(4, 2), Figure::Pawn(Color::White, false));
    game2.board.add_figure(pos(4, 4), Figure::Rook(Color::Black, true));
    game2.turn = Color::White;
    let moves = game2.possible_moves(pos(4, 2), true);
    assert_eq!(moves.len(), 1);
    assert_eq!(moves[0].to_pos(), pos(4, 3));
}

#[test]
fn generation_yields_only_plain_moves_and_captures() {
    let mut game = ChessState::new();
    for file in 1..=8 {
        for rank in 1..=2 {
            let moves = game.possible_moves(pos(file, rank), true);
            for m in moves {
                assert!(matches!(m, Move::Normal(_, _, _) | Move::Take(_, _, _, _)));
            }
        }
    }
}

#[test]
fn sliding_ray_stops_at_blockers() {
    let mut game = ChessState::new();
    game.board = Board::empty();
    game.board.add_figure(pos(1, 1), Figure::Rook(Color::White, true));
    game.board.add_figure(pos(1, 4), Figure::Pawn(Color::White, true));
    game.board.add_figure(pos(4, 1), Figure::Pawn(Color::Black, true));
    game.turn = Color::White;
    let moves = game.possible_moves(pos(1, 1), true);
    let targets: Vec<(usize, usize)> =
        moves.iter().map(|m| (m.to_pos().file, m.to_pos().rank)).collect();
    // Up the file: only the squares before the own pawn.
    assert!(targets.contains(&(1, 2)));
    assert!(targets.contains(&(1, 3)));
    assert!(!targets.contains(&(1, 4)));
    assert!(!targets.contains(&(1, 5)));
    // Along the rank: up to and including the enemy pawn.
    assert!(targets.contains(&(2, 1)));
    assert!(targets.contains(&(3, 1)));
    assert!(targets.contains(&(4, 1)));
    assert!(!targets.contains(&(5, 1)));
    assert_eq!(moves.len(), 5);
    // The capture carries the captured figure.
    let capture = moves.iter().find(|m| m.to_pos() == pos(4, 1)).unwrap();
    assert_eq!(
        *capture,
        Move::Take(pos(1, 1), pos(4, 1), Figure::Pawn(Color::Black, true), true)
    );
}
