use xiangqi::chess::{Board, ChessGame};
use xiangqi::pieces::{Action, Piece, PlayerColor};
use xiangqi::pos::Pos;

#[test]
fn opening_soldier_has_one_forward_move() {
    let game = ChessGame::new();
    let moves = game.playable_moves(Pos(0, 3)).expect("soldier should be queryable");
    assert_eq!(moves.len(), 1);
    assert_eq!(moves[0], Action::Go(Pos(0, 4)));
}

#[test]
fn opening_chariot_slides_to_first_blockers() {
    let game = ChessGame::new();
    let moves = game.playable_moves(Pos(0, 0)).expect("chariot should be queryable");
    assert_eq!(moves.len(), 2);
    assert!(moves.contains(&Action::Go(Pos(0, 1))));
    assert!(moves.contains(&Action::Go(Pos(0, 2))));
    for a in &moves {
        assert!(matches!(a, Action::Go(_)), "first blockers are same-color: no capture");
    }
}

#[test]
fn query_fails_on_empty_or_off_board_source() {
    let game = ChessGame::new();
    assert!(game.playable_moves(Pos(4, 4)).is_none());
    assert!(game.playable_moves(Pos(-1, 0)).is_none());
    assert!(game.playable_moves(Pos(0, 10)).is_none());
}

#[test]
fn commit_flips_mover_and_counts_turns() {
    let mut game = ChessGame::new();
    assert_eq!(game.turn, 0);
    assert!(game.player.is_none());

    game.play(Pos(0, 3), Action::Go(Pos(0, 4)));
    assert_eq!(game.turn, 1);
    assert_eq!(game.player, Some(PlayerColor::Black));
    assert_eq!(game.board.get(Pos(0, 3)), Some(None));
    assert_eq!(game.board.get(Pos(0, 4)), Some(Some((PlayerColor::Red, Piece::Bing))));

    game.play(Pos(0, 6), Action::Go(Pos(0, 5)));
    assert_eq!(game.turn, 2);
    assert_eq!(game.player, Some(PlayerColor::Red));
}

#[test]
fn wrong_turn_query_is_refused() {
    let mut game = ChessGame::new();
    game.play(Pos(0, 3), Action::Go(Pos(0, 4)));
    // Black moves next: a Red piece may not be queried...
    assert!(game.playable_moves(Pos(2, 3)).is_none());
    // ...while a Black piece may
    assert!(game.playable_moves(Pos(2, 6)).is_some());
}

#[test]
fn first_mover_is_fixed_by_whoever_moves_first() {
    let mut game = ChessGame::new();
    // before any move, either color may be queried
    assert!(game.playable_moves(Pos(0, 3)).is_some());
    assert!(game.playable_moves(Pos(0, 6)).is_some());
    // Black moves first: the mover becomes Red
    game.play(Pos(0, 6), Action::Go(Pos(0, 5)));
    assert_eq!(game.player, Some(PlayerColor::Red));
}

#[test]
fn resolve_matches_only_legal_destinations() {
    let game = ChessGame::new();
    assert_eq!(game.playable_move(Pos(0, 3), Pos(0, 4)), Some(Action::Go(Pos(0, 4))));
    assert_eq!(game.playable_move(Pos(0, 3), Pos(1, 3)), None);
    assert_eq!(game.playable_move(Pos(0, 3), Pos(0, 2)), None);
    assert_eq!(game.playable_move(Pos(4, 4), Pos(4, 5)), None);
}

#[test]
fn resolve_distinguishes_capture_from_move() {
    let mut board = Board::new();
    board.set(Pos(0, 0), Some((PlayerColor::Red, Piece::Che)));
    board.set(Pos(0, 5), Some((PlayerColor::Black, Piece::Bing)));
    let game = ChessGame { board, turn: 0, player: None };
    assert_eq!(game.playable_move(Pos(0, 0), Pos(0, 3)), Some(Action::Go(Pos(0, 3))));
    assert_eq!(game.playable_move(Pos(0, 0), Pos(0, 5)), Some(Action::Take(Pos(0, 5))));
    assert_eq!(game.playable_move(Pos(0, 0), Pos(0, 6)), None);
}

#[test]
fn capture_discards_the_victim() {
    let mut board = Board::new();
    board.set(Pos(0, 0), Some((PlayerColor::Red, Piece::Che)));
    board.set(Pos(0, 5), Some((PlayerColor::Black, Piece::Bing)));
    let mut game = ChessGame { board, turn: 0, player: None };
    let action = game.playable_move(Pos(0, 0), Pos(0, 5)).expect("capture should resolve");
    game.play(Pos(0, 0), action);
    assert_eq!(game.board.get(Pos(0, 0)), Some(None));
    assert_eq!(game.board.get(Pos(0, 5)), Some(Some((PlayerColor::Red, Piece::Che))));
    let mut black_pieces = 0;
    for i in 0..90 {
        if let Some((PlayerColor::Black, _)) = game.board.points[i] {
            black_pieces += 1;
        }
    }
    assert_eq!(black_pieces, 0);
}

#[test]
fn restart_restores_the_opening_setup() {
    let mut game = ChessGame::new();
    game.play(Pos(0, 3), Action::Go(Pos(0, 4)));
    game.restart();
    assert_eq!(game.turn, 0);
    assert!(game.player.is_none());
    let fresh = ChessGame::new();
    assert_eq!(game.board.points, fresh.board.points);
}

#[test]
fn filter_save_moves_is_the_identity() {
    let game = ChessGame::new();
    let actions = vec![Action::Go(Pos(1, 1)), Action::Take(Pos(2, 2))];
    let filtered = game.board.filter_save_moves(PlayerColor::Red, Pos(0, 0), actions.clone());
    assert_eq!(filtered, actions);
}

#[test]
fn save_moves_matches_piece_moves() {
    let game = ChessGame::new();
    let direct = Piece::Ma.moves(&game.board, Pos(1, 0), PlayerColor::Red);
    let filtered = game.save_moves(Piece::Ma, Pos(1, 0), PlayerColor::Red);
    assert_eq!(direct, filtered);
}

#[test]
fn board_apply_preserves_other_cells() {
    let game = ChessGame::new();
    let next = game.board.play(Pos(1, 2), Action::Go(Pos(1, 4)));
    assert_eq!(next.get(Pos(1, 2)), Some(None));
    assert_eq!(next.get(Pos(1, 4)), Some(Some((PlayerColor::Red, Piece::Pao))));
    for i in 0..90 {
        let p = game.board.pos(i);
        if p != Pos(1, 2) && p != Pos(1, 4) {
            assert_eq!(next.points[i], game.board.points[i]);
        }
    }
}

#[test]
fn opening_cannon_can_capture_across_the_screen() {
    let game = ChessGame::new();
    let moves = game.playable_moves(Pos(1, 2)).expect("cannon should be queryable");
    assert!(moves.contains(&Action::Take(Pos(1, 9))));
    assert!(!moves.contains(&Action::Take(Pos(1, 7))));
}
