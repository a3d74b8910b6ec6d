//! Piece kinds, player colors, actions, and the per-piece move generators.
//!
//! Each generator is a pure function of (board, position, color) and its
//! contract pins the returned action list down exactly: an action is in the
//! list if and only if the piece's movement rule allows it on that board.

use vstd::prelude::*;
use crate::pos::{Pos, on_board};
use crate::chess::{Board, Grid};

verus! {

broadcast use vstd::seq_lib::lemma_seq_contains_after_push, vstd::prelude::Seq::lemma_index_contains;

/// The two sides. Red starts on ranks 0..=4, Black on ranks 5..=9.
#[derive(Clone, Copy, PartialEq, Eq, Structural, Debug)]
pub enum PlayerColor {
    Black,
    Red,
}

/// The color that moves after `c` has moved.
pub open spec fn opponent(c: PlayerColor) -> PlayerColor {
    match c {
        PlayerColor::Black => PlayerColor::Red,
        PlayerColor::Red => PlayerColor::Black,
    }
}

impl PlayerColor {
    /// Swap sides: each color's `next` is the other color.
    pub fn next(self) -> (r: Self)
        ensures
            r == opponent(self),
    {
        match self {
            PlayerColor::Black => PlayerColor::Red,
            PlayerColor::Red => PlayerColor::Black,
        }
    }
}

/// A candidate action at a target cell: `Go` moves onto an empty cell,
/// `Take` captures an opposing occupant. The two are never interchangeable.
#[derive(Clone, Copy, PartialEq, Eq, Structural, Debug)]
pub enum Action {
    Go(Pos),
    Take(Pos),
}

/// The target cell of an action.
pub open spec fn target(a: Action) -> Pos {
    match a {
        Action::Go(to) => to,
        Action::Take(to) => to,
    }
}

/// The seven piece kinds, carrying the traditional piece names:
/// Jiang (general), Shi (advisor), Xiang (elephant), Ma (horse),
/// Che (chariot), Pao (cannon), Bing (soldier).
#[derive(Clone, Copy, PartialEq, Eq, Structural, Debug)]
pub enum Piece {
    Jiang,
    Shi,
    Xiang,
    Ma,
    Che,
    Pao,
    Bing,
}

// ------------------------------------------------------------------
// Movement rules, as predicates on a (board, source, color, action).
// ------------------------------------------------------------------

/// An opposing occupant stands in the cell.
pub open spec fn take_ok(g: Grid, c: PlayerColor) -> bool {
    g matches Some((oc, _)) && oc != c
}

/// The tag of an action matches its target cell: `Go` onto an empty cell,
/// `Take` onto an opposing occupant. Cells of the mover's own color admit
/// neither, so no rule ever generates a self-capture.
pub open spec fn action_matches_cell(b: Board, c: PlayerColor, a: Action) -> bool {
    match a {
        Action::Go(to) => b.occ(to) is None,
        Action::Take(to) => take_ok(b.occ(to), c),
    }
}

/// The 3x3 palace on `c`'s own side, confining general and advisor.
pub open spec fn palace(c: PlayerColor, p: Pos) -> bool {
    3 <= p.0 <= 5 && (match c {
        PlayerColor::Red => 0 <= p.1 <= 2,
        PlayerColor::Black => 7 <= p.1 <= 9,
    })
}

/// The half of the board on `c`'s own side of the river.
pub open spec fn own_half(c: PlayerColor, p: Pos) -> bool {
    0 <= p.0 <= 8 && (match c {
        PlayerColor::Red => 0 <= p.1 <= 4,
        PlayerColor::Black => 5 <= p.1 <= 9,
    })
}

/// One step along one of the four orthogonal directions.
pub open spec fn orth_step(from: Pos, to: Pos) -> bool {
    ||| (to.0 == from.0 + 1 && to.1 == from.1)
    ||| (to.0 == from.0 - 1 && to.1 == from.1)
    ||| (to.0 == from.0 && to.1 == from.1 + 1)
    ||| (to.0 == from.0 && to.1 == from.1 - 1)
}

/// One step along one of the four diagonal directions.
pub open spec fn diag_step(from: Pos, to: Pos) -> bool {
    (to.0 == from.0 + 1 || to.0 == from.0 - 1) && (to.1 == from.1 + 1 || to.1 == from.1 - 1)
}

/// The general: one orthogonal step, confined to the palace.
pub open spec fn jiang_legal(b: Board, from: Pos, c: PlayerColor, a: Action) -> bool {
    orth_step(from, target(a)) && palace(c, target(a)) && action_matches_cell(b, c, a)
}

/// The advisor: one diagonal step, confined to the palace.
pub open spec fn shi_legal(b: Board, from: Pos, c: PlayerColor, a: Action) -> bool {
    diag_step(from, target(a)) && palace(c, target(a)) && action_matches_cell(b, c, a)
}

/// Exactly two diagonal steps.
pub open spec fn xiang_jump(from: Pos, to: Pos) -> bool {
    (to.0 == from.0 + 2 || to.0 == from.0 - 2) && (to.1 == from.1 + 2 || to.1 == from.1 - 2)
}

/// The elephant: a two-step diagonal jump that may not cross the river,
/// blocked when the diagonal midpoint (the elephant eye) is occupied.
pub open spec fn xiang_legal(b: Board, from: Pos, c: PlayerColor, a: Action) -> bool {
    &&& xiang_jump(from, target(a))
    &&& own_half(c, target(a))
    &&& b.at((from.0 + target(a).0) / 2, (from.1 + target(a).1) / 2) is None
    &&& action_matches_cell(b, c, a)
}

/// An L-shaped jump: one step on one axis, two on the other.
pub open spec fn ma_jump(from: Pos, to: Pos) -> bool {
    ||| ((to.0 == from.0 + 2 || to.0 == from.0 - 2) && (to.1 == from.1 + 1 || to.1 == from.1 - 1))
    ||| ((to.0 == from.0 + 1 || to.0 == from.0 - 1) && (to.1 == from.1 + 2 || to.1 == from.1 - 2))
}

/// File of the horse's leg: the cell orthogonally adjacent to the start
/// along the long axis of the jump.
pub open spec fn ma_leg_f(from: Pos, to: Pos) -> int {
    if to.0 == from.0 + 2 {
        from.0 + 1
    } else if to.0 == from.0 - 2 {
        from.0 - 1
    } else {
        from.0 as int
    }
}

/// Rank of the horse's leg.
pub open spec fn ma_leg_r(from: Pos, to: Pos) -> int {
    if to.0 == from.0 + 2 || to.0 == from.0 - 2 {
        from.1 as int
    } else if to.1 == from.1 + 2 {
        from.1 + 1
    } else {
        from.1 - 1
    }
}

/// The horse: an on-board L-jump whose leg cell is free; the diagonal
/// cell is irrelevant.
pub open spec fn ma_legal(b: Board, from: Pos, c: PlayerColor, a: Action) -> bool {
    &&& ma_jump(from, target(a))
    &&& on_board(target(a))
    &&& b.at(ma_leg_f(from, target(a)), ma_leg_r(from, target(a))) is None
    &&& action_matches_cell(b, c, a)
}

/// One of the four orthogonal unit directions.
pub open spec fn unit_dir(df: int, dr: int) -> bool {
    ||| (df == 1 && dr == 0)
    ||| (df == -1 && dr == 0)
    ||| (df == 0 && dr == 1)
    ||| (df == 0 && dr == -1)
}

/// `to` lies strictly beyond `from` along the orthogonal direction (df, dr).
pub open spec fn ray_contains(from: Pos, to: Pos, df: int, dr: int) -> bool
    recommends
        unit_dir(df, dr),
{
    if dr == 0 {
        to.1 == from.1 && (if df > 0 {
            to.0 > from.0
        } else {
            to.0 < from.0
        })
    } else {
        to.0 == from.0 && (if dr > 0 {
            to.1 > from.1
        } else {
            to.1 < from.1
        })
    }
}

/// Two distinct positions on one file or one rank.
pub open spec fn same_line(from: Pos, to: Pos) -> bool {
    ||| (from.0 == to.0 && from.1 != to.1)
    ||| (from.1 == to.1 && from.0 != to.0)
}

/// The smaller of two coordinates.
pub open spec fn imin(a: int, b: int) -> int {
    if a <= b {
        a
    } else {
        b
    }
}

/// The larger of two coordinates.
pub open spec fn imax(a: int, b: int) -> int {
    if a <= b {
        b
    } else {
        a
    }
}

/// Every cell strictly between two same-line positions is empty.
pub open spec fn open_between(b: Board, from: Pos, to: Pos) -> bool
    recommends
        same_line(from, to),
{
    if from.0 == to.0 {
        forall|r: int|
            imin(from.1 as int, to.1 as int) < r < imax(from.1 as int, to.1 as int) ==> b.at(
                from.0 as int,
                r,
            ) is None
    } else {
        forall|f: int|
            imin(from.0 as int, to.0 as int) < f < imax(from.0 as int, to.0 as int) ==> b.at(
                f,
                from.1 as int,
            ) is None
    }
}

/// The chariot: an unlimited straight slide that stops at the first occupied
/// cell, which it may enter only as a capture of an opposing piece.
pub open spec fn che_legal(b: Board, from: Pos, c: PlayerColor, a: Action) -> bool {
    &&& on_board(target(a))
    &&& same_line(from, target(a))
    &&& open_between(b, from, target(a))
    &&& action_matches_cell(b, c, a)
}

/// Exactly one occupied cell — the screen — strictly between two same-line
/// positions.
pub open spec fn one_screen_between(b: Board, from: Pos, to: Pos) -> bool
    recommends
        same_line(from, to),
{
    if from.0 == to.0 {
        exists|m: int|
            #![trigger b.at(from.0 as int, m)]
            imin(from.1 as int, to.1 as int) < m < imax(from.1 as int, to.1 as int) && b.at(
                from.0 as int,
                m,
            ) is Some && (forall|r: int|
                imin(from.1 as int, to.1 as int) < r < imax(from.1 as int, to.1 as int) && r != m
                    ==> b.at(from.0 as int, r) is None)
    } else {
        exists|m: int|
            #![trigger b.at(m, from.1 as int)]
            imin(from.0 as int, to.0 as int) < m < imax(from.0 as int, to.0 as int) && b.at(
                m,
                from.1 as int,
            ) is Some && (forall|f: int|
                imin(from.0 as int, to.0 as int) < f < imax(from.0 as int, to.0 as int) && f != m
                    ==> b.at(f, from.1 as int) is None)
    }
}

/// The cannon: slides like the chariot onto empty cells, but captures only
/// by jumping exactly one screen; zero or several intervening pieces allow
/// no capture along that line.
pub open spec fn pao_legal(b: Board, from: Pos, c: PlayerColor, a: Action) -> bool {
    match a {
        Action::Go(to) => {
            &&& on_board(to)
            &&& same_line(from, to)
            &&& open_between(b, from, to)
            &&& b.occ(to) is None
        },
        Action::Take(to) => {
            &&& on_board(to)
            &&& same_line(from, to)
            &&& one_screen_between(b, from, to)
            &&& take_ok(b.occ(to), c)
        },
    }
}

/// Every cell strictly between two same-line positions, other than `m`,
/// is empty.
pub open spec fn clear_between_except(b: Board, from: Pos, to: Pos, m: Pos) -> bool
    recommends
        same_line(from, to),
{
    if from.0 == to.0 {
        forall|r: int|
            imin(from.1 as int, to.1 as int) < r < imax(from.1 as int, to.1 as int) && r != m.1
                as int ==> b.at(from.0 as int, r) is None
    } else {
        forall|f: int|
            imin(from.0 as int, to.0 as int) < f < imax(from.0 as int, to.0 as int) && f != m.0
                as int ==> b.at(f, from.1 as int) is None
    }
}

/// The rank delta of a soldier's forward step: Red marches up, Black down.
pub open spec fn forward(c: PlayerColor) -> int {
    match c {
        PlayerColor::Red => 1,
        PlayerColor::Black => -1,
    }
}

/// The soldier: one step forward only; after crossing the river, one step
/// sideways as well; never backward.
pub open spec fn bing_legal(b: Board, from: Pos, c: PlayerColor, a: Action) -> bool {
    &&& on_board(target(a))
    &&& {
        ||| (target(a).0 == from.0 && target(a).1 == from.1 + forward(c))
        ||| (!own_half(c, from) && target(a).1 == from.1 && (target(a).0 == from.0 + 1
            || target(a).0 == from.0 - 1))
    }
    &&& action_matches_cell(b, c, a)
}

/// The movement rule of each piece kind, dispatched on the kind's tag.
pub open spec fn piece_legal(p: Piece, b: Board, from: Pos, c: PlayerColor, a: Action) -> bool {
    match p {
        Piece::Jiang => jiang_legal(b, from, c, a),
        Piece::Shi => shi_legal(b, from, c, a),
        Piece::Xiang => xiang_legal(b, from, c, a),
        Piece::Ma => ma_legal(b, from, c, a),
        Piece::Che => che_legal(b, from, c, a),
        Piece::Pao => pao_legal(b, from, c, a),
        Piece::Bing => bing_legal(b, from, c, a),
    }
}

/// A soldier of either color never produces an action in the direction away
/// from the opposing side: a Red soldier's target rank never decreases, a
/// Black soldier's never increases.
pub proof fn lemma_bing_never_retreats(b: Board, from: Pos, c: PlayerColor, a: Action)
    requires
        bing_legal(b, from, c, a),
    ensures
        c == PlayerColor::Red ==> target(a).1 >= from.1,
        c == PlayerColor::Black ==> target(a).1 <= from.1,
{
}

impl Piece {
    /// A display name for diagnostics only.
    pub fn name(self) -> (r: &'static str)
        ensures
            self is Jiang ==> r@ == "jiang"@,
            self is Shi ==> r@ == "shi"@,
            self is Xiang ==> r@ == "xiang"@,
            self is Ma ==> r@ == "ma"@,
            self is Che ==> r@ == "che"@,
            self is Pao ==> r@ == "pao"@,
            self is Bing ==> r@ == "bing"@,
    {
        match self {
            Piece::Jiang => "jiang",
            Piece::Shi => "shi",
            Piece::Xiang => "xiang",
            Piece::Ma => "ma",
            Piece::Che => "che",
            Piece::Pao => "pao",
            Piece::Bing => "bing",
        }
    }

    /// Every candidate action of this piece from `from`, exactly the actions
    /// its movement rule allows.
    pub fn moves(self, board: &Board, from: Pos, color: PlayerColor) -> (r: Vec<Action>)
        requires
            board.wf(),
            on_board(from),
        ensures
            forall|a: Action| r@.contains(a) <==> piece_legal(self, *board, from, color, a),
            r@.no_duplicates(),
    {
        match self {
            Piece::Jiang => jiang_moves(board, from, color),
            Piece::Shi => shi_moves(board, from, color),
            Piece::Xiang => xiang_moves(board, from, color),
            Piece::Ma => ma_moves(board, from, color),
            Piece::Che => che_moves(board, from, color),
            Piece::Pao => pao_moves(board, from, color),
            Piece::Bing => bing_moves(board, from, color),
        }
    }
}

// ------------------------------------------------------------------
// Move generators.
// ------------------------------------------------------------------

/// Classifies a reachable on-board target and appends the resulting action:
/// `Go` for an empty cell, `Take` for an opposing occupant, nothing for an
/// occupant of the mover's own color.
fn push_target(board: &Board, actions: &mut Vec<Action>, to: Pos, color: PlayerColor)
    requires
        board.wf(),
        on_board(to),
    ensures
        final(actions)@ == (if board.occ(to) is None {
            old(actions)@.push(Action::Go(to))
        } else if take_ok(board.occ(to), color) {
            old(actions)@.push(Action::Take(to))
        } else {
            old(actions)@
        }),
{
    match board.get(to) {
        Some(grid) => match grid {
            Some((c, _)) => {
                if c != color {
                    actions.push(Action::Take(to));
                }
            },
            None => {
                actions.push(Action::Go(to));
            },
        },
        None => {},
    }
}

/// The general's moves: one orthogonal step within the palace.
pub fn jiang_moves(board: &Board, from: Pos, color: PlayerColor) -> (r: Vec<Action>)
    requires
        board.wf(),
        on_board(from),
    ensures
        forall|a: Action| r@.contains(a) <==> jiang_legal(*board, from, color, a),
        r@.no_duplicates(),
{
    let rlo: i32 = match color {
        PlayerColor::Red => 0,
        PlayerColor::Black => 7,
    };
    let lo = Pos(3, rlo);
    let hi = Pos(5, rlo + 2);
    let mut actions: Vec<Action> = Vec::new();
    let t1 = from.add(Pos(-1, 0));
    if t1.in_bound(lo, hi) {
        push_target(board, &mut actions, t1, color);
    }
    let t2 = from.add(Pos(1, 0));
    if t2.in_bound(lo, hi) {
        push_target(board, &mut actions, t2, color);
    }
    let t3 = from.add(Pos(0, 1));
    if t3.in_bound(lo, hi) {
        push_target(board, &mut actions, t3, color);
    }
    let t4 = from.add(Pos(0, -1));
    if t4.in_bound(lo, hi) {
        push_target(board, &mut actions, t4, color);
    }
    actions
}

/// The advisor's moves: one diagonal step within the palace.
pub fn shi_moves(board: &Board, from: Pos, color: PlayerColor) -> (r: Vec<Action>)
    requires
        board.wf(),
        on_board(from),
    ensures
        forall|a: Action| r@.contains(a) <==> shi_legal(*board, from, color, a),
        r@.no_duplicates(),
{
    let rlo: i32 = match color {
        PlayerColor::Red => 0,
        PlayerColor::Black => 7,
    };
    let lo = Pos(3, rlo);
    let hi = Pos(5, rlo + 2);
    let mut actions: Vec<Action> = Vec::new();
    let t1 = from.add(Pos(-1, -1));
    if t1.in_bound(lo, hi) {
        push_target(board, &mut actions, t1, color);
    }
    let t2 = from.add(Pos(1, 1));
    if t2.in_bound(lo, hi) {
        push_target(board, &mut actions, t2, color);
    }
    let t3 = from.add(Pos(-1, 1));
    if t3.in_bound(lo, hi) {
        push_target(board, &mut actions, t3, color);
    }
    let t4 = from.add(Pos(1, -1));
    if t4.in_bound(lo, hi) {
        push_target(board, &mut actions, t4, color);
    }
    actions
}

/// One elephant candidate: `to` two diagonal steps away, `eye` the midpoint.
fn xiang_try(board: &Board, actions: &mut Vec<Action>, to: Pos, eye: Pos, color: PlayerColor)
    requires
        board.wf(),
        own_half(color, to),
        on_board(eye),
    ensures
        final(actions)@ == (if board.occ(eye) is Some {
            old(actions)@
        } else if board.occ(to) is None {
            old(actions)@.push(Action::Go(to))
        } else if take_ok(board.occ(to), color) {
            old(actions)@.push(Action::Take(to))
        } else {
            old(actions)@
        }),
{
    let blocked = match board.get(eye) {
        Some(g) => g.is_some(),
        None => false,
    };
    if !blocked {
        push_target(board, actions, to, color);
    }
}

/// The elephant's moves: two diagonal steps on its own side of the river,
/// blocked when the elephant eye is occupied.
#[verifier::rlimit(60)]
pub fn xiang_moves(board: &Board, from: Pos, color: PlayerColor) -> (r: Vec<Action>)
    requires
        board.wf(),
        on_board(from),
    ensures
        forall|a: Action| r@.contains(a) <==> xiang_legal(*board, from, color, a),
        r@.no_duplicates(),
{
    let rlo: i32 = match color {
        PlayerColor::Red => 0,
        PlayerColor::Black => 5,
    };
    let lo = Pos(0, rlo);
    let hi = Pos(8, rlo + 4);
    let mut actions: Vec<Action> = Vec::new();
    let t1 = from.add(Pos(-2, -2));
    if t1.in_bound(lo, hi) {
        xiang_try(board, &mut actions, t1, from.add(Pos(-1, -1)), color);
    }
    let t2 = from.add(Pos(2, 2));
    if t2.in_bound(lo, hi) {
        xiang_try(board, &mut actions, t2, from.add(Pos(1, 1)), color);
    }
    let t3 = from.add(Pos(-2, 2));
    if t3.in_bound(lo, hi) {
        xiang_try(board, &mut actions, t3, from.add(Pos(-1, 1)), color);
    }
    let t4 = from.add(Pos(2, -2));
    if t4.in_bound(lo, hi) {
        xiang_try(board, &mut actions, t4, from.add(Pos(1, -1)), color);
    }
    actions
}

/// One horse candidate: pushes the action for `to` when `to` is on the
/// board and the leg cell is free.
fn ma_try(board: &Board, actions: &mut Vec<Action>, from: Pos, to: Pos, color: PlayerColor)
    requires
        board.wf(),
        on_board(from),
        ma_jump(from, to),
    ensures
        forall|a: Action|
            final(actions)@.contains(a) <==> (old(actions)@.contains(a) || (ma_legal(
                *board,
                from,
                color,
                a,
            ) && target(a) == to)),
        (old(actions)@.no_duplicates() && (forall|a: Action|
            old(actions)@.contains(a) ==> target(a) != to)) ==> final(actions)@.no_duplicates(),
{
    match board.get(to) {
        Some(_) => {
            let leg = if to.0 == from.0 + 2 {
                Pos(from.0 + 1, from.1)
            } else if to.0 == from.0 - 2 {
                Pos(from.0 - 1, from.1)
            } else if to.1 == from.1 + 2 {
                Pos(from.0, from.1 + 1)
            } else {
                Pos(from.0, from.1 - 1)
            };
            let blocked = match board.get(leg) {
                Some(g) => g.is_some(),
                None => false,
            };
            if !blocked {
                push_target(board, actions, to, color);
            }
        },
        None => {},
    }
    proof {
        let s_old = old(actions)@;
        let s_new = actions@;
        if s_old.no_duplicates() && (forall|a: Action| s_old.contains(a) ==> target(a) != to) {
            assert forall|i: int, j: int|
                0 <= i < s_new.len() && 0 <= j < s_new.len() && i != j implies s_new[i]
                    != s_new[j] by {
                if i < s_old.len() && j < s_old.len() {
                } else if j == s_old.len() && i < j {
                    assert(s_new[i] == s_old[i]);
                    assert(s_old.contains(s_old[i]));
                    assert(target(s_new[j]) == to);
                } else if i == s_old.len() && j < i {
                    assert(s_new[j] == s_old[j]);
                    assert(s_old.contains(s_old[j]));
                    assert(target(s_new[i]) == to);
                }
            }
            assert(s_new.no_duplicates());
        }
    }
}

/// The horse's moves: the eight L-jumps, each blocked by its own leg cell.
#[verifier::rlimit(60)]
pub fn ma_moves(board: &Board, from: Pos, color: PlayerColor) -> (r: Vec<Action>)
    requires
        board.wf(),
        on_board(from),
    ensures
        forall|a: Action| r@.contains(a) <==> ma_legal(*board, from, color, a),
        r@.no_duplicates(),
{
    let mut actions: Vec<Action> = Vec::new();
    ma_try(board, &mut actions, from, from.add(Pos(-1, -2)), color);
    ma_try(board, &mut actions, from, from.add(Pos(1, -2)), color);
    ma_try(board, &mut actions, from, from.add(Pos(-2, -1)), color);
    ma_try(board, &mut actions, from, from.add(Pos(2, -1)), color);
    ma_try(board, &mut actions, from, from.add(Pos(-1, 2)), color);
    ma_try(board, &mut actions, from, from.add(Pos(1, 2)), color);
    ma_try(board, &mut actions, from, from.add(Pos(-2, 1)), color);
    ma_try(board, &mut actions, from, from.add(Pos(2, 1)), color);
    actions
}

/// The soldier's moves: one step forward; one step sideways as well once
/// the river is crossed; never backward.
pub fn bing_moves(board: &Board, from: Pos, color: PlayerColor) -> (r: Vec<Action>)
    requires
        board.wf(),
        on_board(from),
    ensures
        forall|a: Action| r@.contains(a) <==> bing_legal(*board, from, color, a),
        r@.no_duplicates(),
{
    let dr: i32 = match color {
        PlayerColor::Red => 1,
        PlayerColor::Black => -1,
    };
    let rlo: i32 = match color {
        PlayerColor::Red => 0,
        PlayerColor::Black => 5,
    };
    let mut actions: Vec<Action> = Vec::new();
    let ahead = from.add(Pos(0, dr));
    if ahead.in_bound(Pos(0, 0), Pos(8, 9)) {
        push_target(board, &mut actions, ahead, color);
    }
    let crossed = !from.in_bound(Pos(0, rlo), Pos(8, rlo + 4));
    if crossed {
        let left = from.add(Pos(-1, 0));
        if left.in_bound(Pos(0, 0), Pos(8, 9)) {
            push_target(board, &mut actions, left, color);
        }
        let right = from.add(Pos(1, 0));
        if right.in_bound(Pos(0, 0), Pos(8, 9)) {
            push_target(board, &mut actions, right, color);
        }
    }
    actions
}

/// Appending an element that is not yet present keeps a sequence free of
/// duplicates.
proof fn lemma_push_keeps_no_duplicates(s: Seq<Action>, x: Action)
    requires
        s.no_duplicates(),
        !s.contains(x),
    ensures
        s.push(x).no_duplicates(),
{
    let t = s.push(x);
    assert forall|i: int, j: int|
        0 <= i < t.len() && 0 <= j < t.len() && i != j implies t[i] != t[j] by {
        if i < s.len() && j < s.len() {
        } else if j == s.len() && i < s.len() {
            assert(s.contains(s[i]));
        } else if i == s.len() && j < s.len() {
            assert(s.contains(s[j]));
        }
    }
}

/// A cell occupied strictly between two same-line positions refutes an
/// open path between them.
proof fn lemma_blocked_beyond(b: Board, from: Pos, to: Pos, t: Pos, df: int, dr: int)
    requires
        unit_dir(df, dr),
        ray_contains(from, to, df, dr),
        ray_contains(to, t, df, dr),
        b.at(to.0 as int, to.1 as int) is Some,
    ensures
        !open_between(b, from, t),
{
    if dr == 0 {
        assert(from.0 != t.0);
        if open_between(b, from, t) {
            assert(imin(from.0 as int, t.0 as int) < to.0 as int);
            assert((to.0 as int) < imax(from.0 as int, t.0 as int));
            assert(b.at(to.0 as int, from.1 as int) is None);
            assert(false);
        }
    } else {
        assert(from.1 != t.1);
        if open_between(b, from, t) {
            assert(imin(from.1 as int, t.1 as int) < to.1 as int);
            assert((to.1 as int) < imax(from.1 as int, t.1 as int));
            assert(b.at(from.0 as int, to.1 as int) is None);
            assert(false);
        }
    }
}

/// One chariot slide: walks the ray from `from` along (df, dr), collecting a
/// `Go` for every empty cell up to the first occupied one, which is added as
/// a `Take` exactly when it holds an opposing piece.
fn che_scan(board: &Board, actions: &mut Vec<Action>, from: Pos, df: i32, dr: i32, color: PlayerColor)
    requires
        board.wf(),
        on_board(from),
        unit_dir(df as int, dr as int),
    ensures
        forall|a: Action|
            final(actions)@.contains(a) <==> (old(actions)@.contains(a) || (che_legal(
                *board,
                from,
                color,
                a,
            ) && ray_contains(from, target(a), df as int, dr as int))),
        (old(actions)@.no_duplicates() && (forall|a: Action|
            old(actions)@.contains(a) ==> !ray_contains(from, target(a), df as int, dr as int)))
            ==> final(actions)@.no_duplicates(),
{
    let ghost s0 = actions@;
    let mut to = from.add(Pos(df, dr));
    let mut done = false;
    while !done && 0 <= to.0 && to.0 <= 8 && 0 <= to.1 && to.1 <= 9
        invariant
            board.wf(),
            on_board(from),
            unit_dir(df as int, dr as int),
            forall|a: Action| #![trigger s0.contains(a)] s0.contains(a) ==> actions@.contains(a),
            (s0.no_duplicates() && (forall|a: Action|
                s0.contains(a) ==> !ray_contains(from, target(a), df as int, dr as int)))
                ==> actions@.no_duplicates(),
            !done ==> ray_contains(from, to, df as int, dr as int),
            !done ==> -1 <= to.0 <= 9 && -1 <= to.1 <= 10,
            !done ==> (same_line(from, to) ==> open_between(*board, from, to)),
            !done ==> (forall|a: Action| #![trigger actions@.contains(a)]
                actions@.contains(a) ==> (s0.contains(a) || (che_legal(*board, from, color, a)
                    && ray_contains(from, target(a), df as int, dr as int) && ray_contains(
                    target(a),
                    to,
                    df as int,
                    dr as int,
                )))),
            !done ==> (forall|a: Action| #![trigger che_legal(*board, from, color, a)]
                che_legal(*board, from, color, a) && ray_contains(
                    from,
                    target(a),
                    df as int,
                    dr as int,
                ) && ray_contains(target(a), to, df as int, dr as int)
                    ==> actions@.contains(a)),
            done ==> (forall|a: Action| #![trigger actions@.contains(a)]
                actions@.contains(a) ==> (s0.contains(a) || (che_legal(*board, from, color, a)
                    && ray_contains(from, target(a), df as int, dr as int)))),
            done ==> (forall|a: Action| #![trigger che_legal(*board, from, color, a)]
                che_legal(*board, from, color, a) && ray_contains(
                    from,
                    target(a),
                    df as int,
                    dr as int,
                ) ==> actions@.contains(a)),
        decreases (if done {
            0
        } else if df == 1 {
            9 - to.0
        } else if df == -1 {
            to.0 + 1
        } else if dr == 1 {
            10 - to.1
        } else {
            to.1 + 1
        }),
    {
        let ghost prev = actions@;
        let ghost to_prev = to;
        match board.get(to) {
            Some(grid) => match grid {
                Some((c2, _)) => {
                    if c2 != color {
                        proof {
                            assert(che_legal(*board, from, color, Action::Take(to)));
                            if s0.no_duplicates() && (forall|a: Action|
                                s0.contains(a) ==> !ray_contains(
                                    from,
                                    target(a),
                                    df as int,
                                    dr as int,
                                )) {
                                assert(!ray_contains(to, to, df as int, dr as int));
                                assert(!actions@.contains(Action::Take(to)));
                                lemma_push_keeps_no_duplicates(actions@, Action::Take(to));
                            }
                        }
                        actions.push(Action::Take(to));
                    }
                    done = true;
                    proof {
                        assert forall|a: Action|
                            che_legal(*board, from, color, a) && ray_contains(
                                from,
                                target(a),
                                df as int,
                                dr as int,
                            ) implies actions@.contains(a) by {
                            let t = target(a);
                            if ray_contains(to, t, df as int, dr as int) {
                                lemma_blocked_beyond(*board, from, to, t, df as int, dr as int);
                            } else if ray_contains(t, to, df as int, dr as int) {
                                assert(prev.contains(a));
                            } else {
                                assert(t == to);
                                assert(a == Action::Take(to));
                            }
                        }
                        assert forall|a: Action| actions@.contains(a) implies (s0.contains(a) || (
                        che_legal(*board, from, color, a) && ray_contains(
                            from,
                            target(a),
                            df as int,
                            dr as int,
                        ))) by {
                            if prev.contains(a) {
                            } else {
                                assert(a == Action::Take(to));
                                assert(che_legal(*board, from, color, a));
                            }
                        }
                    }
                },
                None => {
                    proof {
                        assert(che_legal(*board, from, color, Action::Go(to)));
                        if s0.no_duplicates() && (forall|a: Action|
                            s0.contains(a) ==> !ray_contains(
                                from,
                                target(a),
                                df as int,
                                dr as int,
                            )) {
                            assert(!ray_contains(to, to, df as int, dr as int));
                            assert(!actions@.contains(Action::Go(to)));
                            lemma_push_keeps_no_duplicates(actions@, Action::Go(to));
                        }
                    }
                    actions.push(Action::Go(to));
                    to = to.add(Pos(df, dr));
                    proof {
                        assert forall|a: Action|
                            che_legal(*board, from, color, a) && ray_contains(
                                from,
                                target(a),
                                df as int,
                                dr as int,
                            ) && ray_contains(target(a), to, df as int, dr as int)
                            implies actions@.contains(a) by {
                            let t = target(a);
                            if ray_contains(t, to_prev, df as int, dr as int) {
                                assert(prev.contains(a));
                            } else {
                                assert(t == to_prev);
                                assert(a == Action::Go(to_prev));
                            }
                        }
                        assert forall|a: Action| actions@.contains(a) implies (s0.contains(a) || (
                        che_legal(*board, from, color, a) && ray_contains(
                            from,
                            target(a),
                            df as int,
                            dr as int,
                        ) && ray_contains(target(a), to, df as int, dr as int))) by {
                            if prev.contains(a) {
                            } else {
                                assert(a == Action::Go(to_prev));
                            }
                        }
                    }
                },
            },
            None => {
                proof {
                    assert(false);
                }
            },
        }
    }
    proof {
        if !done {
            assert forall|a: Action|
                che_legal(*board, from, color, a) && ray_contains(
                    from,
                    target(a),
                    df as int,
                    dr as int,
                ) implies actions@.contains(a) by {
                assert(on_board(target(a)));
                assert(ray_contains(target(a), to, df as int, dr as int));
            }
        }
        assert forall|a: Action|
            actions@.contains(a) <==> (s0.contains(a) || (che_legal(*board, from, color, a)
                && ray_contains(from, target(a), df as int, dr as int))) by {
            if actions@.contains(a) && !s0.contains(a) {
                assert(che_legal(*board, from, color, a) && ray_contains(
                    from,
                    target(a),
                    df as int,
                    dr as int,
                ));
            }
        }
    }
}

/// A single occupied cell strictly between two same-line positions, with
/// everything else between them empty, is exactly one screen.
proof fn lemma_one_screen(b: Board, from: Pos, m: Pos, t: Pos, df: int, dr: int)
    requires
        unit_dir(df, dr),
        ray_contains(from, m, df, dr),
        ray_contains(m, t, df, dr),
        b.at(m.0 as int, m.1 as int) is Some,
        clear_between_except(b, from, t, m),
    ensures
        one_screen_between(b, from, t),
{
    if dr == 0 {
        assert(imin(from.0 as int, t.0 as int) < m.0 as int);
        assert((m.0 as int) < imax(from.0 as int, t.0 as int));
        assert(b.at(m.0 as int, from.1 as int) is Some);
    } else {
        assert(imin(from.1 as int, t.1 as int) < m.1 as int);
        assert((m.1 as int) < imax(from.1 as int, t.1 as int));
        assert(b.at(from.0 as int, m.1 as int) is Some);
    }
}

/// Two occupied cells strictly between two same-line positions refute the
/// one-screen condition.
proof fn lemma_two_screens(b: Board, from: Pos, m1: Pos, m2: Pos, t: Pos, df: int, dr: int)
    requires
        unit_dir(df, dr),
        ray_contains(from, m1, df, dr),
        ray_contains(m1, m2, df, dr),
        ray_contains(m2, t, df, dr),
        b.at(m1.0 as int, m1.1 as int) is Some,
        b.at(m2.0 as int, m2.1 as int) is Some,
    ensures
        !one_screen_between(b, from, t),
{
    if one_screen_between(b, from, t) {
        if dr == 0 {
            let m = choose|m: int|
                #![trigger b.at(m, from.1 as int)]
                imin(from.0 as int, t.0 as int) < m < imax(from.0 as int, t.0 as int) && b.at(
                    m,
                    from.1 as int,
                ) is Some && (forall|f: int|
                    imin(from.0 as int, t.0 as int) < f < imax(from.0 as int, t.0 as int) && f != m
                        ==> b.at(f, from.1 as int) is None);
            assert(b.at(m1.0 as int, from.1 as int) is Some);
            assert(b.at(m2.0 as int, from.1 as int) is Some);
            assert(m1.0 as int == m || m2.0 as int == m);
            assert(false);
        } else {
            let m = choose|m: int|
                #![trigger b.at(from.0 as int, m)]
                imin(from.1 as int, t.1 as int) < m < imax(from.1 as int, t.1 as int) && b.at(
                    from.0 as int,
                    m,
                ) is Some && (forall|r: int|
                    imin(from.1 as int, t.1 as int) < r < imax(from.1 as int, t.1 as int) && r != m
                        ==> b.at(from.0 as int, r) is None);
            assert(b.at(from.0 as int, m1.1 as int) is Some);
            assert(b.at(from.0 as int, m2.1 as int) is Some);
            assert(m1.1 as int == m || m2.1 as int == m);
            assert(false);
        }
    }
}

/// One cannon slide: collects a `Go` for every empty cell before the first
/// occupied cell (the screen), then skips empty cells and examines only the
/// next occupied cell, which is added as a `Take` exactly when it holds an
/// opposing piece.
fn pao_scan(board: &Board, actions: &mut Vec<Action>, from: Pos, df: i32, dr: i32, color: PlayerColor)
    requires
        board.wf(),
        on_board(from),
        unit_dir(df as int, dr as int),
    ensures
        forall|a: Action|
            final(actions)@.contains(a) <==> (old(actions)@.contains(a) || (pao_legal(
                *board,
                from,
                color,
                a,
            ) && ray_contains(from, target(a), df as int, dr as int))),
        (old(actions)@.no_duplicates() && (forall|a: Action|
            old(actions)@.contains(a) ==> !ray_contains(from, target(a), df as int, dr as int)))
            ==> final(actions)@.no_duplicates(),
{
    let ghost s0 = actions@;
    let mut to = from.add(Pos(df, dr));
    let mut jumped = false;
    let mut done = false;
    let ghost mut screen = from;
    while !done && 0 <= to.0 && to.0 <= 8 && 0 <= to.1 && to.1 <= 9
        invariant
            board.wf(),
            on_board(from),
            unit_dir(df as int, dr as int),
            forall|a: Action| #![trigger s0.contains(a)] s0.contains(a) ==> actions@.contains(a),
            (s0.no_duplicates() && (forall|a: Action|
                s0.contains(a) ==> !ray_contains(from, target(a), df as int, dr as int)))
                ==> actions@.no_duplicates(),
            !done ==> ray_contains(from, to, df as int, dr as int),
            !done ==> -1 <= to.0 <= 9 && -1 <= to.1 <= 10,
            !done && !jumped ==> (same_line(from, to) ==> open_between(*board, from, to)),
            jumped ==> ray_contains(from, screen, df as int, dr as int) && on_board(screen)
                && board.occ(screen) is Some,
            !done && jumped ==> ray_contains(screen, to, df as int, dr as int)
                && clear_between_except(*board, from, to, screen),
            !done ==> (forall|a: Action| #![trigger actions@.contains(a)]
                actions@.contains(a) ==> (s0.contains(a) || (pao_legal(*board, from, color, a)
                    && ray_contains(from, target(a), df as int, dr as int) && ray_contains(
                    target(a),
                    to,
                    df as int,
                    dr as int,
                )))),
            !done ==> (forall|a: Action| #![trigger pao_legal(*board, from, color, a)]
                pao_legal(*board, from, color, a) && ray_contains(
                    from,
                    target(a),
                    df as int,
                    dr as int,
                ) && ray_contains(target(a), to, df as int, dr as int)
                    ==> actions@.contains(a)),
            done ==> (forall|a: Action| #![trigger actions@.contains(a)]
                actions@.contains(a) ==> (s0.contains(a) || (pao_legal(*board, from, color, a)
                    && ray_contains(from, target(a), df as int, dr as int)))),
            done ==> (forall|a: Action| #![trigger pao_legal(*board, from, color, a)]
                pao_legal(*board, from, color, a) && ray_contains(
                    from,
                    target(a),
                    df as int,
                    dr as int,
                ) ==> actions@.contains(a)),
        decreases (if done {
            0
        } else if df == 1 {
            9 - to.0
        } else if df == -1 {
            to.0 + 1
        } else if dr == 1 {
            10 - to.1
        } else {
            to.1 + 1
        }),
    {
        let ghost prev = actions@;
        let ghost to_prev = to;
        match board.get(to) {
            Some(grid) => match grid {
                Some((c2, _)) => {
                    if jumped {
                        if c2 != color {
                            proof {
                                lemma_one_screen(*board, from, screen, to, df as int, dr as int);
                                assert(pao_legal(*board, from, color, Action::Take(to)));
                                if s0.no_duplicates() && (forall|a: Action|
                                    s0.contains(a) ==> !ray_contains(
                                        from,
                                        target(a),
                                        df as int,
                                        dr as int,
                                    )) {
                                    assert(!ray_contains(to, to, df as int, dr as int));
                                    assert(!actions@.contains(Action::Take(to)));
                                    lemma_push_keeps_no_duplicates(actions@, Action::Take(to));
                                }
                            }
                            actions.push(Action::Take(to));
                        }
                        done = true;
                        proof {
                            assert forall|a: Action|
                                pao_legal(*board, from, color, a) && ray_contains(
                                    from,
                                    target(a),
                                    df as int,
                                    dr as int,
                                ) implies actions@.contains(a) by {
                                let t = target(a);
                                if ray_contains(to, t, df as int, dr as int) {
                                    if a is Go {
                                        lemma_blocked_beyond(
                                            *board,
                                            from,
                                            screen,
                                            t,
                                            df as int,
                                            dr as int,
                                        );
                                    } else {
                                        lemma_two_screens(
                                            *board,
                                            from,
                                            screen,
                                            to,
                                            t,
                                            df as int,
                                            dr as int,
                                        );
                                    }
                                } else if ray_contains(t, to, df as int, dr as int) {
                                    assert(prev.contains(a));
                                } else {
                                    assert(t == to);
                                    if a is Go {
                                        assert(false);
                                    } else {
                                        lemma_one_screen(
                                            *board,
                                            from,
                                            screen,
                                            to,
                                            df as int,
                                            dr as int,
                                        );
                                        assert(a == Action::Take(to));
                                    }
                                }
                            }
                            assert forall|a: Action| actions@.contains(a) implies (s0.contains(a)
                                || (pao_legal(*board, from, color, a) && ray_contains(
                                from,
                                target(a),
                                df as int,
                                dr as int,
                            ))) by {
                                if prev.contains(a) {
                                } else {
                                    assert(a == Action::Take(to));
                                    assert(pao_legal(*board, from, color, a));
                                }
                            }
                        }
                    } else {
                        proof {
                            screen = to;
                        }
                        jumped = true;
                        to = to.add(Pos(df, dr));
                        proof {
                            assert(clear_between_except(*board, from, to, screen));
                            assert forall|a: Action|
                                pao_legal(*board, from, color, a) && ray_contains(
                                    from,
                                    target(a),
                                    df as int,
                                    dr as int,
                                ) && ray_contains(target(a), to, df as int, dr as int)
                                implies actions@.contains(a) by {
                                let t = target(a);
                                if ray_contains(t, to_prev, df as int, dr as int) {
                                    assert(prev.contains(a));
                                } else {
                                    assert(t == to_prev);
                                    if a is Take {
                                        assert(!one_screen_between(*board, from, t));
                                        assert(false);
                                    } else {
                                        assert(false);
                                    }
                                }
                            }
                        }
                    }
                },
                None => {
                    if !jumped {
                        proof {
                            assert(pao_legal(*board, from, color, Action::Go(to)));
                            if s0.no_duplicates() && (forall|a: Action|
                                s0.contains(a) ==> !ray_contains(
                                    from,
                                    target(a),
                                    df as int,
                                    dr as int,
                                )) {
                                assert(!ray_contains(to, to, df as int, dr as int));
                                assert(!actions@.contains(Action::Go(to)));
                                lemma_push_keeps_no_duplicates(actions@, Action::Go(to));
                            }
                        }
                        actions.push(Action::Go(to));
                        to = to.add(Pos(df, dr));
                        proof {
                            assert forall|a: Action|
                                pao_legal(*board, from, color, a) && ray_contains(
                                    from,
                                    target(a),
                                    df as int,
                                    dr as int,
                                ) && ray_contains(target(a), to, df as int, dr as int)
                                implies actions@.contains(a) by {
                                let t = target(a);
                                if ray_contains(t, to_prev, df as int, dr as int) {
                                    assert(prev.contains(a));
                                } else {
                                    assert(t == to_prev);
                                    assert(a == Action::Go(to_prev));
                                }
                            }
                            assert forall|a: Action| actions@.contains(a) implies (s0.contains(a)
                                || (pao_legal(*board, from, color, a) && ray_contains(
                                from,
                                target(a),
                                df as int,
                                dr as int,
                            ) && ray_contains(target(a), to, df as int, dr as int))) by {
                                if prev.contains(a) {
                                } else {
                                    assert(a == Action::Go(to_prev));
                                }
                            }
                        }
                    } else {
                        to = to.add(Pos(df, dr));
                        proof {
                            assert(clear_between_except(*board, from, to, screen));
                            assert forall|a: Action|
                                pao_legal(*board, from, color, a) && ray_contains(
                                    from,
                                    target(a),
                                    df as int,
                                    dr as int,
                                ) && ray_contains(target(a), to, df as int, dr as int)
                                implies actions@.contains(a) by {
                                let t = target(a);
                                if ray_contains(t, to_prev, df as int, dr as int) {
                                    assert(prev.contains(a));
                                } else {
                                    assert(t == to_prev);
                                    if a is Go {
                                        lemma_blocked_beyond(
                                            *board,
                                            from,
                                            screen,
                                            t,
                                            df as int,
                                            dr as int,
                                        );
                                        assert(false);
                                    } else {
                                        assert(false);
                                    }
                                }
                            }
                        }
                    }
                },
            },
            None => {
                proof {
                    assert(false);
                }
            },
        }
    }
    proof {
        if !done {
            assert forall|a: Action|
                pao_legal(*board, from, color, a) && ray_contains(
                    from,
                    target(a),
                    df as int,
                    dr as int,
                ) implies actions@.contains(a) by {
                assert(on_board(target(a)));
                assert(ray_contains(target(a), to, df as int, dr as int));
            }
        }
        assert forall|a: Action|
            actions@.contains(a) <==> (s0.contains(a) || (pao_legal(*board, from, color, a)
                && ray_contains(from, target(a), df as int, dr as int))) by {
            if actions@.contains(a) && !s0.contains(a) {
                assert(pao_legal(*board, from, color, a) && ray_contains(
                    from,
                    target(a),
                    df as int,
                    dr as int,
                ));
            }
        }
    }
}

/// The cannon's moves: the four straight slides with screen-jump captures.
pub fn pao_moves(board: &Board, from: Pos, color: PlayerColor) -> (r: Vec<Action>)
    requires
        board.wf(),
        on_board(from),
    ensures
        forall|a: Action| r@.contains(a) <==> pao_legal(*board, from, color, a),
        r@.no_duplicates(),
{
    let mut actions: Vec<Action> = Vec::new();
    pao_scan(board, &mut actions, from, -1, 0, color);
    pao_scan(board, &mut actions, from, 1, 0, color);
    pao_scan(board, &mut actions, from, 0, 1, color);
    pao_scan(board, &mut actions, from, 0, -1, color);
    actions
}

/// The chariot's moves: the four straight slides.
pub fn che_moves(board: &Board, from: Pos, color: PlayerColor) -> (r: Vec<Action>)
    requires
        board.wf(),
        on_board(from),
    ensures
        forall|a: Action| r@.contains(a) <==> che_legal(*board, from, color, a),
        r@.no_duplicates(),
{
    let mut actions: Vec<Action> = Vec::new();
    che_scan(board, &mut actions, from, -1, 0, color);
    che_scan(board, &mut actions, from, 1, 0, color);
    che_scan(board, &mut actions, from, 0, 1, color);
    che_scan(board, &mut actions, from, 0, -1, color);
    actions
}

} // verus!
