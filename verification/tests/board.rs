use xiangqi::chess::{Board, ChessGame};
use xiangqi::pieces::{Piece, PlayerColor};
use xiangqi::pos::Pos;

#[test]
fn out_of_range_is_distinct_from_empty() {
    let board = Board::new();
    assert_eq!(board.get(Pos(-1, 0)), None);
    assert_eq!(board.get(Pos(9, 0)), None);
    assert_eq!(board.get(Pos(0, -1)), None);
    assert_eq!(board.get(Pos(0, 10)), None);
    assert_eq!(board.get(Pos(100, 100)), None);
    // an on-board empty cell reads as Some(None), not None
    assert_eq!(board.get(Pos(0, 0)), Some(None));
    assert_eq!(board.get(Pos(8, 9)), Some(None));
}

#[test]
fn set_out_of_range_is_a_no_op() {
    let mut board = Board::new();
    board.set(Pos(-1, 5), Some((PlayerColor::Red, Piece::Che)));
    board.set(Pos(4, 10), Some((PlayerColor::Red, Piece::Che)));
    for i in 0..90 {
        assert_eq!(board.points[i], None);
    }
}

#[test]
fn set_and_get_round_trip() {
    let mut board = Board::new();
    board.set(Pos(4, 5), Some((PlayerColor::Black, Piece::Ma)));
    assert_eq!(board.get(Pos(4, 5)), Some(Some((PlayerColor::Black, Piece::Ma))));
    assert_eq!(board.get(Pos(5, 4)), Some(None));
    board.set(Pos(4, 5), None);
    assert_eq!(board.get(Pos(4, 5)), Some(None));
}

#[test]
fn index_and_pos_are_inverse() {
    let board = Board::new();
    assert_eq!(board.i(Pos(0, 0)), 0);
    assert_eq!(board.i(Pos(8, 9)), 89);
    assert_eq!(board.i(Pos(3, 2)), 21);
    for i in 0..90usize {
        let p = board.pos(i);
        assert_eq!(board.i(p), i);
    }
}

#[test]
fn pos_in_bound_and_arithmetic() {
    let p = Pos(4, 5);
    assert!(p.in_bound(Pos(0, 0), Pos(8, 9)));
    assert!(!p.in_bound(Pos(0, 0), Pos(3, 9)));
    assert!(!Pos(-1, 0).in_bound(Pos(0, 0), Pos(8, 9)));
    assert_eq!(p.add(Pos(-1, 2)), Pos(3, 7));
    assert_eq!(Pos(1, -2).mul(3), Pos(3, -6));
}

#[test]
fn initial_board_population() {
    let game = ChessGame::new();
    let mut occupied = 0;
    for i in 0..90 {
        if let Some((_, _)) = game.board.points[i] {
            occupied += 1;
            let rank = i / 9;
            assert!(
                rank == 0 || rank == 2 || rank == 3 || rank == 6 || rank == 7 || rank == 9,
                "occupant outside the standard setup ranks at index {}",
                i
            );
        }
    }
    assert_eq!(occupied, 32);
}

#[test]
fn initial_board_back_rank() {
    let game = ChessGame::new();
    let red = [
        Piece::Che,
        Piece::Ma,
        Piece::Xiang,
        Piece::Shi,
        Piece::Jiang,
        Piece::Shi,
        Piece::Xiang,
        Piece::Ma,
        Piece::Che,
    ];
    for f in 0..9i32 {
        assert_eq!(
            game.board.get(Pos(f, 0)),
            Some(Some((PlayerColor::Red, red[f as usize])))
        );
        assert_eq!(
            game.board.get(Pos(f, 9)),
            Some(Some((PlayerColor::Black, red[f as usize])))
        );
    }
    for f in [1, 7] {
        assert_eq!(game.board.get(Pos(f, 2)), Some(Some((PlayerColor::Red, Piece::Pao))));
        assert_eq!(game.board.get(Pos(f, 7)), Some(Some((PlayerColor::Black, Piece::Pao))));
    }
    for f in [0, 2, 4, 6, 8] {
        assert_eq!(game.board.get(Pos(f, 3)), Some(Some((PlayerColor::Red, Piece::Bing))));
        assert_eq!(game.board.get(Pos(f, 6)), Some(Some((PlayerColor::Black, Piece::Bing))));
    }
}

#[test]
fn piece_names() {
    assert_eq!(Piece::Jiang.name(), "jiang");
    assert_eq!(Piece::Shi.name(), "shi");
    assert_eq!(Piece::Xiang.name(), "xiang");
    assert_eq!(Piece::Ma.name(), "ma");
    assert_eq!(Piece::Che.name(), "che");
    assert_eq!(Piece::Pao.name(), "pao");
    assert_eq!(Piece::Bing.name(), "bing");
}

#[test]
fn player_color_next_swaps() {
    assert_eq!(PlayerColor::Red.next(), PlayerColor::Black);
    assert_eq!(PlayerColor::Black.next(), PlayerColor::Red);
    assert_eq!(PlayerColor::Red.next().next(), PlayerColor::Red);
}
