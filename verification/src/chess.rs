//! The board grid and the turn engine.

use vstd::prelude::*;
use crate::pos::{Pos, on_board};
use crate::pieces::{Action, Piece, PlayerColor, opponent, piece_legal, target};

verus! {

/// What one cell holds: nothing, or a (color, piece) pair.
pub type Grid = Option<(PlayerColor, Piece)>;

/// A dense 9x10 grid of occupants, stored file-major within each rank.
pub struct Board {
    pub points: Vec<Grid>,
}

impl Board {
    /// A board is well formed when it covers exactly the 9x10 legal region.
    pub open spec fn wf(self) -> bool {
        self.points@.len() == 90
    }

    /// The occupant of the cell at file `f`, rank `r` (both assumed on the board).
    pub open spec fn at(self, f: int, r: int) -> Grid
        recommends
            self.wf(),
            0 <= f <= 8 && 0 <= r <= 9,
    {
        self.points@[f + 9 * r]
    }

    /// The occupant of the cell at `p`.
    pub open spec fn occ(self, p: Pos) -> Grid
        recommends
            self.wf(),
            on_board(p),
    {
        self.at(p.0 as int, p.1 as int)
    }

    /// An empty board: 90 cells, none occupied.
    pub fn new() -> (r: Board)
        ensures
            r.wf(),
            forall|i: int| 0 <= i < 90 ==> r.points@[i] is None,
    {
        let mut points: Vec<Grid> = Vec::new();
        let mut i: usize = 0;
        while i < 90
            invariant
                points@.len() == i,
                i <= 90,
                forall|j: int| 0 <= j < i ==> points@[j] is None,
            decreases 90 - i,
        {
            points.push(None);
            i = i + 1;
        }
        Board { points }
    }

    /// The storage index of an on-board coordinate.
    pub fn i(&self, pos: Pos) -> (r: usize)
        requires
            on_board(pos),
        ensures
            r == pos.0 + 9 * pos.1,
    {
        pos.0 as usize + pos.1 as usize * 9
    }

    /// The coordinate stored at index `i`.
    pub fn pos(&self, i: usize) -> (r: Pos)
        requires
            i < 90,
        ensures
            on_board(r),
            i == r.0 + 9 * r.1,
    {
        Pos((i % 9) as i32, (i / 9) as i32)
    }

    fn in_board(&self, pos: Pos) -> (r: bool)
        ensures
            r == on_board(pos),
    {
        pos.0 <= 8 && pos.0 >= 0 && pos.1 >= 0 && pos.1 <= 9
    }

    /// Reads a cell; any coordinate outside the board yields `None`,
    /// distinguishable from `Some(None)`, an on-board empty cell.
    pub fn get(&self, pos: Pos) -> (r: Option<Grid>)
        requires
            self.wf(),
        ensures
            r == if on_board(pos) {
                Some(self.occ(pos))
            } else {
                Option::<Grid>::None
            },
    {
        if !self.in_board(pos) {
            return None;
        }
        Some(self.points[self.i(pos)])
    }

    /// Writes `grid` at `pos` if it is on the board; a defensive no-op otherwise.
    pub fn set(&mut self, pos: Pos, grid: Grid)
        requires
            old(self).wf(),
        ensures
            final(self).wf(),
            on_board(pos) ==> final(self).occ(pos) == grid,
            forall|f: int, r: int|
                0 <= f <= 8 && 0 <= r <= 9 && !(on_board(pos) && f == pos.0 && r == pos.1)
                    ==> final(self).at(f, r) == old(self).at(f, r),
            !on_board(pos) ==> final(self).points@ == old(self).points@,
    {
        if self.in_board(pos) {
            let idx = self.i(pos);
            self.points.set(idx, grid);
        }
    }

    /// The safety filter, deliberately a stub: every candidate action is
    /// accepted unchanged (no self-check detection).
    #[allow(unused_variables)]
    pub fn filter_save_moves(&self, color: PlayerColor, from: Pos, actions: Vec<Action>) -> (r:
        Vec<Action>)
        ensures
            r@ == actions@,
    {
        actions
    }

    /// Applies an action: the occupant of `from` is cleared and placed at the
    /// action's target; for a capture the previous occupant there is
    /// discarded. An empty source leaves the board unchanged.
    pub fn play(&self, from: Pos, action: Action) -> (r: Board)
        requires
            self.wf(),
            on_board(from),
        ensures
            r.wf(),
            self.occ(from) is Some ==> forall|f: int, rk: int|
                0 <= f <= 8 && 0 <= rk <= 9 ==> r.at(f, rk) == applied_at(
                    *self,
                    from,
                    target(action),
                    f,
                    rk,
                ),
            self.occ(from) is None ==> r.points@ == self.points@,
    {
        let mut res = self.clone();
        match self.get(from) {
            Some(grid) => match grid {
                Some((c, p)) => {
                    match action {
                        Action::Go(to) => {
                            res.set(from, None);
                            res.set(to, Some((c, p)));
                        },
                        Action::Take(to) => {
                            res.set(from, None);
                            res.set(to, Some((c, p)));
                        },
                    }
                },
                None => {},
            },
            None => {},
        }
        res
    }
}

impl Clone for Board {
    /// An identical copy of the grid.
    fn clone(&self) -> (r: Self)
        ensures
            r.points@ == self.points@,
    {
        let mut points: Vec<Grid> = Vec::new();
        let mut i: usize = 0;
        while i < self.points.len()
            invariant
                i <= self.points@.len(),
                points@.len() == i,
                forall|j: int| 0 <= j < i ==> points@[j] == self.points@[j],
            decreases self.points@.len() - i,
        {
            points.push(self.points[i]);
            i = i + 1;
        }
        proof {
            assert(points@ =~= self.points@);
        }
        Board { points }
    }
}

/// The grid that results at cell (f, r) after the occupant of `from` is
/// relocated to `to`: the target takes the moving occupant (overwriting any
/// capture victim), the source is cleared, everything else is untouched.
/// An off-board target swallows the moving piece, mirroring the defensive
/// no-op of `Board::set`.
pub open spec fn applied_at(b: Board, from: Pos, to: Pos, f: int, r: int) -> Grid {
    if on_board(to) && f == to.0 && r == to.1 {
        b.occ(from)
    } else if f == from.0 && r == from.1 {
        None
    } else {
        b.at(f, r)
    }
}

/// The piece on the back rank at file `f` in the standard opening setup.
pub open spec fn back_rank_piece(f: int) -> Piece {
    if f == 0 || f == 8 {
        Piece::Che
    } else if f == 1 || f == 7 {
        Piece::Ma
    } else if f == 2 || f == 6 {
        Piece::Xiang
    } else if f == 3 || f == 5 {
        Piece::Shi
    } else {
        Piece::Jiang
    }
}

/// The standard opening occupant of the cell at file `f`, rank `r`:
/// full back ranks at 0 and 9, cannons on files 1 and 7 of ranks 2 and 7,
/// soldiers on the even files of ranks 3 and 6.
pub open spec fn initial_at(f: int, r: int) -> Grid {
    if r == 0 {
        Some((PlayerColor::Red, back_rank_piece(f)))
    } else if r == 9 {
        Some((PlayerColor::Black, back_rank_piece(f)))
    } else if r == 2 && (f == 1 || f == 7) {
        Some((PlayerColor::Red, Piece::Pao))
    } else if r == 7 && (f == 1 || f == 7) {
        Some((PlayerColor::Black, Piece::Pao))
    } else if r == 3 && (f == 0 || f == 2 || f == 4 || f == 6 || f == 8) {
        Some((PlayerColor::Red, Piece::Bing))
    } else if r == 6 && (f == 0 || f == 2 || f == 4 || f == 6 || f == 8) {
        Some((PlayerColor::Black, Piece::Bing))
    } else {
        None
    }
}

/// The cell contents of the standard opening board, in storage order.
pub open spec fn initial_points() -> Seq<Grid> {
    Seq::new(90, |i: int| initial_at(i % 9, i / 9))
}

/// The exec mirror of `initial_at`.
fn initial_cell(f: usize, r: usize) -> (g: Grid)
    requires
        f < 9,
        r < 10,
    ensures
        g == initial_at(f as int, r as int),
{
    if r == 0 || r == 9 {
        let color = if r == 0 {
            PlayerColor::Red
        } else {
            PlayerColor::Black
        };
        let piece = if f == 0 || f == 8 {
            Piece::Che
        } else if f == 1 || f == 7 {
            Piece::Ma
        } else if f == 2 || f == 6 {
            Piece::Xiang
        } else if f == 3 || f == 5 {
            Piece::Shi
        } else {
            Piece::Jiang
        };
        Some((color, piece))
    } else if r == 2 && (f == 1 || f == 7) {
        Some((PlayerColor::Red, Piece::Pao))
    } else if r == 7 && (f == 1 || f == 7) {
        Some((PlayerColor::Black, Piece::Pao))
    } else if r == 3 && f % 2 == 0 {
        Some((PlayerColor::Red, Piece::Bing))
    } else if r == 6 && f % 2 == 0 {
        Some((PlayerColor::Black, Piece::Bing))
    } else {
        None
    }
}

/// The standard opening board: 16 pieces per side in canonical squares.
fn make_board() -> (r: Board)
    ensures
        r.wf(),
        r.points@ == initial_points(),
{
    let mut points: Vec<Grid> = Vec::new();
    let mut i: usize = 0;
    while i < 90
        invariant
            points@.len() == i,
            i <= 90,
            forall|j: int| 0 <= j < i ==> points@[j] == initial_at(j % 9, j / 9),
        decreases 90 - i,
    {
        points.push(initial_cell(i % 9, i / 9));
        i = i + 1;
    }
    proof {
        assert(points@ =~= initial_points());
    }
    Board { points }
}

/// The number of occupied cells among the first `n` entries of a stored grid.
pub open spec fn occupied_upto(s: Seq<Grid>, n: int) -> int
    decreases n,
{
    if n <= 0 {
        0
    } else {
        occupied_upto(s, n - 1) + (if s[n - 1] is Some {
            1int
        } else {
            0int
        })
    }
}

/// The number of occupied cells in a stored grid.
pub open spec fn occupied_count(s: Seq<Grid>) -> int {
    occupied_upto(s, s.len() as int)
}

/// The standard opening board holds exactly 32 occupants — 16 per side —
/// and none outside the two back ranks, the two cannon ranks, and the two
/// soldier ranks.
pub proof fn lemma_initial_population()
    ensures
        occupied_count(initial_points()) == 32,
        forall|f: int, r: int|
            0 <= f <= 8 && 0 <= r <= 9 && initial_at(f, r) is Some ==> r == 0 || r == 2 || r == 3
                || r == 6 || r == 7 || r == 9,
{
    let s: Seq<Grid> = initial_points();
    reveal_with_fuel(occupied_upto, 10);
    assert(occupied_upto(s, 9) == 9);
    assert(occupied_upto(s, 18) == 9);
    assert(occupied_upto(s, 27) == 11);
    assert(occupied_upto(s, 36) == 16);
    assert(occupied_upto(s, 45) == 16);
    assert(occupied_upto(s, 54) == 16);
    assert(occupied_upto(s, 63) == 21);
    assert(occupied_upto(s, 72) == 23);
    assert(occupied_upto(s, 81) == 23);
    assert(occupied_upto(s, 90) == 32);
}

/// The game state owned by the turn engine: the board, the turn counter,
/// and the mover, unset until the first move fixes it.
pub struct ChessGame {
    pub board: Board,
    pub turn: u32,
    pub player: Option<PlayerColor>,
}

impl ChessGame {
    pub open spec fn wf(self) -> bool {
        self.board.wf()
    }

    /// Whether `c` may act now: before the first move either color may;
    /// afterwards only the fixed mover.
    pub open spec fn may_move(self, c: PlayerColor) -> bool {
        self.turn == 0 || self.player == Some(c)
    }

    /// A fresh game on the standard opening board.
    pub fn new() -> (r: ChessGame)
        ensures
            r.wf(),
            r.board.points@ == initial_points(),
            r.turn == 0,
            r.player is None,
    {
        ChessGame { board: make_board(), turn: 0, player: None }
    }

    /// The candidate actions of `piece` at `from`, passed through the
    /// (no-op) safety filter.
    pub fn save_moves(&self, piece: Piece, from: Pos, color: PlayerColor) -> (r: Vec<Action>)
        requires
            self.wf(),
            on_board(from),
        ensures
            forall|a: Action| r@.contains(a) <==> piece_legal(piece, self.board, from, color, a),
            r@.no_duplicates(),
    {
        self.board.filter_save_moves(color, from, piece.moves(&self.board, from, color))
    }

    /// The legal actions from `from`: `None` when the cell is off the board
    /// or empty, or when its occupant is not the current mover.
    pub fn playable_moves(&self, from: Pos) -> (r: Option<Vec<Action>>)
        requires
            self.wf(),
        ensures
            match r {
                Some(v) => {
                    &&& on_board(from)
                    &&& self.board.occ(from) matches Some((c, p)) && self.may_move(c) && (
                    forall|a: Action|
                        v@.contains(a) <==> piece_legal(p, self.board, from, c, a))
                        && v@.no_duplicates()
                },
                None => (self.board.occ(from) matches Some((c, _)) ==> !(on_board(from)
                    && self.may_move(c))),
            },
    {
        match self.board.get(from) {
            Some(grid) => match grid {
                Some((color, piece)) => {
                    let allowed = self.turn == 0 || (match self.player {
                        Some(pc) => pc == color,
                        None => false,
                    });
                    if allowed {
                        Some(self.save_moves(piece, from, color))
                    } else {
                        None
                    }
                },
                None => None,
            },
            None => None,
        }
    }

    /// Resolves a chosen destination into the unique matching action, or
    /// `None` when no legal action from `from` targets `to`.
    pub fn playable_move(&self, from: Pos, to: Pos) -> (r: Option<Action>)
        requires
            self.wf(),
        ensures
            match r {
                Some(a) => {
                    &&& on_board(from)
                    &&& self.board.occ(from) matches Some((c, p)) && self.may_move(c)
                        && piece_legal(p, self.board, from, c, a) && target(a) == to
                },
                None => (self.board.occ(from) matches Some((c, p)) ==> !(on_board(from)
                    && self.may_move(c) && (exists|a: Action|
                    piece_legal(p, self.board, from, c, a) && target(a) == to))),
            },
    {
        match self.playable_moves(from) {
            Some(moves) => {
                let mut i: usize = 0;
                while i < moves.len()
                    invariant
                        self.wf(),
                        on_board(from),
                        i <= moves@.len(),
                        self.board.occ(from) matches Some((c, p)) && self.may_move(c) && (
                        forall|a: Action| #![trigger moves@.contains(a)]
                            moves@.contains(a) <==> piece_legal(p, self.board, from, c, a)),
                        forall|j: int| 0 <= j < i ==> target(moves@[j]) != to,
                    decreases moves@.len() - i,
                {
                    let action = moves[i];
                    proof {
                        assert(moves@.contains(moves@[i as int]));
                    }
                    match action {
                        Action::Go(pos) => {
                            if pos.0 == to.0 && pos.1 == to.1 {
                                return Some(action);
                            }
                        },
                        Action::Take(pos) => {
                            if pos.0 == to.0 && pos.1 == to.1 {
                                return Some(action);
                            }
                        },
                    }
                    i = i + 1;
                }
                proof {
                    match self.board.occ(from) {
                        Some((c, p)) => {
                            if exists|a: Action|
                                piece_legal(p, self.board, from, c, a) && target(a) == to {
                                let a = choose|a: Action|
                                    piece_legal(p, self.board, from, c, a) && target(a) == to;
                                assert(moves@.contains(a));
                                let j = choose|j: int| 0 <= j < moves@.len() && moves@[j] == a;
                                assert(target(moves@[j]) != to);
                                assert(false);
                            }
                        },
                        None => {},
                    }
                }
                None
            },
            None => None,
        }
    }

    /// Commits an action from an occupied source: the mover becomes the
    /// opposite of the moving piece's color, the turn counter advances by
    /// exactly one, and the board is replaced by the applied action —
    /// regardless of the prior mover state.
    pub fn play(&mut self, from: Pos, action: Action)
        requires
            old(self).wf(),
            on_board(from),
            old(self).board.occ(from) is Some,
            old(self).turn < u32::MAX,
        ensures
            final(self).wf(),
            final(self).turn == old(self).turn + 1,
            old(self).board.occ(from) matches Some((c, p)) ==> final(self).player == Some(
                opponent(c),
            ),
            forall|f: int, rk: int|
                0 <= f <= 8 && 0 <= rk <= 9 ==> final(self).board.at(f, rk) == applied_at(
                    old(self).board,
                    from,
                    target(action),
                    f,
                    rk,
                ),
    {
        match self.board.get(from) {
            Some(grid) => match grid {
                Some((c, _)) => {
                    self.player = Some(c.next());
                    self.turn = self.turn + 1;
                    let next_board = self.board.play(from, action);
                    self.board = next_board;
                },
                None => {},
            },
            None => {},
        }
    }

    /// Resets to the standard opening setup: initial board, turn counter 0,
    /// mover unset.
    pub fn restart(&mut self)
        ensures
            final(self).wf(),
            final(self).board.points@ == initial_points(),
            final(self).turn == 0,
            final(self).player is None,
    {
        self.board = make_board();
        self.player = None;
        self.turn = 0;
    }
}

} // verus!
