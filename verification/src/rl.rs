//! Features for reinforcement learning: a numbering of the moves ("actions"), the legal
//! actions of a position, and observation planes of a game.
//!
//! There are 27 actions per destination square: ten move directions, the same ten with
//! promotion, and a drop of each of the seven kinds that can be held in hand.
use vstd::prelude::*;
use crate::types::{Color, PieceKind, Piece, Square, Move, sq_index, on_board, valid_index, index_file, index_rank, lemma_index_coords, lemma_coords_index};
use crate::position::{PartialPosition, PosView};
use crate::bitboard::Bitboard;
use crate::setting::{GameKind, Setting};
use crate::prelegality::valid_move;

verus! {

/// Number of actions.
pub const ACTION_COUNT: usize = 9 * 9 * 27;

/// Actions per destination square.
pub const ACTIONS_PER_SQUARE: usize = 27;

/// Move directions (eight king directions and two knight jumps).
pub const MOVE_ACTIONS: usize = 10;

/// First action kind of a promoting move.
pub const PROMOTE_ACTION_OFFSET: usize = 10;

/// First action kind of a drop.
pub const DROP_ACTION_OFFSET: usize = 20;

/// `n` steps in the unit direction `d` (one of -1, 0, 1).
pub open spec fn steps(n: int, d: int) -> int {
    if d == 0 {
        0
    } else if d > 0 {
        n
    } else {
        -n
    }
}

/// Whether `d` is a unit step.
pub open spec fn unit(d: int) -> bool {
    -1 <= d <= 1
}

/// The (file, rank) step of each move direction, for Black: forward, forward-right,
/// right, backward-right, backward, backward-left, left, forward-left, and the knight
/// jumps forward-right and forward-left. White uses the same directions turned around.
pub open spec fn move_delta(dir: int) -> (int, int) {
    if dir == 0 {
        (0, -1)
    } else if dir == 1 {
        (-1, -1)
    } else if dir == 2 {
        (-1, 0)
    } else if dir == 3 {
        (-1, 1)
    } else if dir == 4 {
        (0, 1)
    } else if dir == 5 {
        (1, 1)
    } else if dir == 6 {
        (1, 0)
    } else if dir == 7 {
        (1, -1)
    } else if dir == 8 {
        (-1, -2)
    } else {
        (1, -2)
    }
}

/// The direction with the given step, if there is one.
pub open spec fn delta_dir(df: int, dr: int) -> Option<int> {
    if df == 0 && dr == -1 {
        Some(0)
    } else if df == -1 && dr == -1 {
        Some(1)
    } else if df == -1 && dr == 0 {
        Some(2)
    } else if df == -1 && dr == 1 {
        Some(3)
    } else if df == 0 && dr == 1 {
        Some(4)
    } else if df == 1 && dr == 1 {
        Some(5)
    } else if df == 1 && dr == 0 {
        Some(6)
    } else if df == 1 && dr == -1 {
        Some(7)
    } else if df == -1 && dr == -2 {
        Some(8)
    } else if df == 1 && dr == -2 {
        Some(9)
    } else {
        None
    }
}

/// `x` seen from `side`: unchanged for Black, negated for White.
pub open spec fn oriented(side: Color, x: int) -> int {
    match side {
        Color::Black => x,
        Color::White => -x,
    }
}

/// The sign of `x`.
pub open spec fn signum(x: int) -> int {
    if x > 0 {
        1
    } else if x < 0 {
        -1
    } else {
        0
    }
}

/// Absolute value.
pub open spec fn abs(x: int) -> int {
    if x < 0 {
        -x
    } else {
        x
    }
}

/// The direction of a move by `(df, dr)` seen from the mover: a knight jump as it is,
/// any other step along a file, a rank or a diagonal by its sign; nothing otherwise.
pub open spec fn move_direction(df: int, dr: int) -> Option<(int, int)> {
    if dr == -2 && abs(df) == 1 {
        Some((df, dr))
    } else if (df != 0 || dr != 0) && (df == 0 || dr == 0 || abs(df) == abs(dr)) {
        Some((signum(df), signum(dr)))
    } else {
        None
    }
}

/// The first action on the square with index `t`.
pub open spec fn square_base(t: int) -> int {
    (t - 1) * 27
}

/// The action of a move made by `side`, if the move has one: drops by the kind dropped,
/// moves by their direction and promotion. The board is not consulted.
pub open spec fn encode(mv: Move, side: Color) -> Option<int> {
    match mv {
        Move::Drop { piece, to } => if piece.color != side {
            None
        } else {
            match piece.kind.hand_index() {
                Some(k) => Some(square_base(to.index as int) + 20 + k),
                None => None,
            }
        },
        Move::Normal { from, to, promote } => {
            let df = oriented(side, to.spec_file() - from.spec_file());
            let dr = oriented(side, to.spec_rank() - from.spec_rank());
            match move_direction(df, dr) {
                Some(d) => match delta_dir(d.0, d.1) {
                    Some(dir) => Some(square_base(to.index as int) + dir + if promote { 10int } else { 0int }),
                    None => None,
                },
                None => None,
            }
        },
    }
}

/// The square `(f + df, r + dr)`, if it is on the board.
pub open spec fn shifted(f: int, r: int, df: int, dr: int) -> Option<Square> {
    if on_board(f + df, r + dr) {
        Some(Square { index: sq_index(f + df, r + dr) as u8 })
    } else {
        None
    }
}

/// Walking from `(f, r)` by `(df, dr)`, for at most `fuel` steps: the first square with a
/// piece of `side`. Without tsuitate any other piece ends the walk with nothing found; in
/// tsuitate the opponent's pieces are walked over.
pub open spec fn ray_from(pos: PosView, f: int, r: int, df: int, dr: int, side: Color, tsuitate: bool, fuel: nat) -> Option<Square>
    decreases fuel,
{
    if fuel == 0 || !on_board(f + df, r + dr) {
        None
    } else {
        let i = sq_index(f + df, r + dr);
        match pos.at(i) {
            Some(p) => if p.color == side {
                Some(Square { index: i as u8 })
            } else if !tsuitate {
                None
            } else {
                ray_from(pos, f + df, r + dr, df, dr, side, tsuitate, (fuel - 1) as nat)
            },
            None => ray_from(pos, f + df, r + dr, df, dr, side, tsuitate, (fuel - 1) as nat),
        }
    }
}

/// The move of an action for the side to move of `pos`: the destination is the action's
/// square; a drop drops the action's kind; a knight jump starts where the jump comes from;
/// another move starts at the first piece of the side to move found walking back from the
/// destination (see `ray_from`). Nothing when there is no such square or piece.
pub open spec fn decode(pos: PosView, tsuitate: bool, a: int) -> Option<Move> {
    if !(0 <= a < 2187) {
        None
    } else {
        let t = a / 27 + 1;
        let to = Square { index: t as u8 };
        let kind = a % 27;
        let side = pos.side;
        if kind >= 20 {
            Some(Move::Drop { piece: Piece { kind: PieceKind::spec_of_hand_slot(kind - 20), color: side }, to })
        } else {
            let promote = kind >= 10;
            let dir = if promote { kind - 10 } else { kind };
            let d = move_delta(dir);
            let sf = -oriented(side, d.0);
            let sr = -oriented(side, d.1);
            let from = if dir >= 8 {
                shifted(index_file(t), index_rank(t), sf, sr)
            } else {
                ray_from(pos, index_file(t), index_rank(t), sf, sr, side, tsuitate, 9)
            };
            match from {
                Some(s) => Some(Move::Normal { from: s, to, promote }),
                None => None,
            }
        }
    }
}

/// The destination square and the kind (0..27) of an action.
fn action_to_square_and_kind(action_index: usize) -> (r: Option<(Square, usize)>)
    ensures
        r is Some <==> action_index < 2187,
        r matches Some(x) ==> x.0.index == action_index / 27 + 1 && x.0.wf() && x.1 == action_index % 27,
{
    if action_index >= ACTION_COUNT {
        return None;
    }
    let to_array_index = action_index / ACTIONS_PER_SQUARE;
    let action_kind = action_index % ACTIONS_PER_SQUARE;
    let to = Square { index: (to_array_index + 1) as u8 };
    Some((to, action_kind))
}

/// Executable form of `move_delta`.
fn move_delta_of(dir: usize) -> (r: (i8, i8))
    requires
        dir < 10,
    ensures
        r.0 == move_delta(dir as int).0,
        r.1 == move_delta(dir as int).1,
{
    if dir == 0 {
        (0, -1)
    } else if dir == 1 {
        (-1, -1)
    } else if dir == 2 {
        (-1, 0)
    } else if dir == 3 {
        (-1, 1)
    } else if dir == 4 {
        (0, 1)
    } else if dir == 5 {
        (1, 1)
    } else if dir == 6 {
        (1, 0)
    } else if dir == 7 {
        (1, -1)
    } else if dir == 8 {
        (-1, -2)
    } else {
        (1, -2)
    }
}

/// Executable form of `delta_dir`.
fn direction_index(df: i8, dr: i8) -> (r: Option<usize>)
    ensures
        r matches Some(x) ==> delta_dir(df as int, dr as int) == Some(x as int),
        r is None ==> delta_dir(df as int, dr as int) is None,
{
    if df == 0 && dr == -1 {
        Some(0)
    } else if df == -1 && dr == -1 {
        Some(1)
    } else if df == -1 && dr == 0 {
        Some(2)
    } else if df == -1 && dr == 1 {
        Some(3)
    } else if df == 0 && dr == 1 {
        Some(4)
    } else if df == 1 && dr == 1 {
        Some(5)
    } else if df == 1 && dr == 0 {
        Some(6)
    } else if df == 1 && dr == -1 {
        Some(7)
    } else if df == -1 && dr == -2 {
        Some(8)
    } else if df == 1 && dr == -2 {
        Some(9)
    } else {
        None
    }
}

/// Finds where a move to `to` comes from, walking back by `(scan_file_delta,
/// scan_rank_delta)` (see `ray_from`).
fn find_from_on_ray(
    position: &PartialPosition,
    to: Square,
    side: Color,
    is_tsuitate: bool,
    scan_file_delta: i8,
    scan_rank_delta: i8,
) -> (r: Option<Square>)
    requires
        position.wf(),
        to.wf(),
        unit(scan_file_delta as int),
        unit(scan_rank_delta as int),
    ensures
        r == ray_from(position@, to.spec_file(), to.spec_rank(), scan_file_delta as int, scan_rank_delta as int, side, is_tsuitate, 9),
{
    let mut cur = to;
    let mut fuel: u8 = 9;
    while fuel > 0
        invariant
            position.wf(),
            cur.wf(),
            unit(scan_file_delta as int),
            unit(scan_rank_delta as int),
            fuel <= 9,
            ray_from(position@, cur.spec_file(), cur.spec_rank(), scan_file_delta as int, scan_rank_delta as int, side, is_tsuitate, fuel as nat)
                == ray_from(position@, to.spec_file(), to.spec_rank(), scan_file_delta as int, scan_rank_delta as int, side, is_tsuitate, 9),
        decreases fuel,
    {
        let next = match cur.shift(scan_file_delta, scan_rank_delta) {
            Some(s) => s,
            None => return None,
        };
        proof {
            lemma_coords_index(cur.spec_file() + scan_file_delta, cur.spec_rank() + scan_rank_delta);
        }
        match position.piece_at(next) {
            Some(piece) => {
                if piece.color == side {
                    return Some(next);
                }
                if !is_tsuitate {
                    return None;
                }
            },
            None => {},
        }
        cur = next;
        fuel = fuel - 1;
    }
    None
}

/// The move of an action for the side to move (see `decode`). Decoding alone does not
/// check that the move is valid.
pub fn action_index_to_move(position: &PartialPosition, is_tsuitate: bool, action_index: usize) -> (r: Option<Move>)
    requires
        position.wf(),
    ensures
        r == decode(position@, is_tsuitate, action_index as int),
        r matches Some(m) ==> m.wf(),
{
    let side = position.side_to_move();
    let (to, action_kind) = match action_to_square_and_kind(action_index) {
        Some(x) => x,
        None => return None,
    };
    proof {
        lemma_index_coords(to.index as int);
    }
    if action_kind >= DROP_ACTION_OFFSET {
        let piece_kind = PieceKind::of_hand_slot(action_kind - DROP_ACTION_OFFSET);
        return Some(Move::Drop { piece: Piece::new(piece_kind, side), to });
    }
    let promote = action_kind >= PROMOTE_ACTION_OFFSET;
    let dir_idx = if promote { action_kind - PROMOTE_ACTION_OFFSET } else { action_kind };
    let (base_df, base_dr) = move_delta_of(dir_idx);
    let (scan_file_delta, scan_rank_delta) = match side {
        Color::Black => (-base_df, -base_dr),
        Color::White => (base_df, base_dr),
    };
    let from = if dir_idx >= 8 {
        match to.shift(scan_file_delta, scan_rank_delta) {
            Some(s) => s,
            None => return None,
        }
    } else {
        match find_from_on_ray(position, to, side, is_tsuitate, scan_file_delta, scan_rank_delta) {
            Some(s) => s,
            None => return None,
        }
    };
    proof {
        if dir_idx < 8 {
            lemma_ray_from_square(position@, to.spec_file(), to.spec_rank(), scan_file_delta as int, scan_rank_delta as int, side, is_tsuitate, 9);
        }
    }
    Some(Move::Normal { from, to, promote })
}

/// A square found walking from `(f, r)` is some number of steps away.
pub proof fn lemma_ray_from_square(pos: PosView, f: int, r: int, df: int, dr: int, side: Color, tsuitate: bool, fuel: nat)
    requires
        unit(df),
        unit(dr),
    ensures
        ray_from(pos, f, r, df, dr, side, tsuitate, fuel) matches Some(s) ==> exists|n: int|
            1 <= n <= fuel && on_board(f + steps(n, df), r + steps(n, dr)) && #[trigger] sq_index(f + steps(n, df), r + steps(n, dr)) == s.index
                && s.wf(),
    decreases fuel,
{
    if fuel > 0 && on_board(f + df, r + dr) {
        lemma_coords_index(f + df, r + dr);
        lemma_ray_from_square(pos, f + df, r + dr, df, dr, side, tsuitate, (fuel - 1) as nat);
        let i = sq_index(f + df, r + dr);
        match ray_from(pos, f, r, df, dr, side, tsuitate, fuel) {
            Some(s) => {
                let own_here = match pos.at(i) {
                    Some(p) => p.color == side,
                    None => false,
                };
                if own_here {
                    assert(sq_index(f + steps(1, df), r + steps(1, dr)) == s.index);
                } else {
                    let n = choose|n: int|
                        1 <= n <= fuel - 1 && on_board(f + df + steps(n, df), r + dr + steps(n, dr)) && #[trigger] sq_index(
                            f + df + steps(n, df),
                            r + dr + steps(n, dr),
                        ) == s.index && s.wf();
                    assert(f + df + steps(n, df) == f + steps(n + 1, df));
                    assert(r + dr + steps(n, dr) == r + steps(n + 1, dr));
                    assert(sq_index(f + steps(n + 1, df), r + steps(n + 1, dr)) == s.index);
                }
            },
            None => {},
        }
    }
}

} // verus!

verus! {

/// Executable form of `signum` on a small integer.
fn sign_of(x: i8) -> (r: i8)
    ensures
        r == signum(x as int),
{
    if x > 0 {
        1
    } else if x < 0 {
        -1
    } else {
        0
    }
}

/// Executable form of `abs` on a small integer.
fn abs_of(x: i8) -> (r: i8)
    requires
        x > -128,
    ensures
        r == abs(x as int),
{
    if x < 0 {
        -x
    } else {
        x
    }
}

/// The action of a move made by `side` (see `encode`). The move is only checked for its
/// shape, not against a board.
pub fn move_to_action_index(action: Move, side: Color) -> (r: Option<usize>)
    requires
        action.wf(),
    ensures
        r matches Some(x) ==> encode(action, side) == Some(x as int),
        r is None ==> encode(action, side) is None,
{
    match action {
        Move::Drop { piece, to } => {
            if piece.color() != side {
                return None;
            }
            let k = match piece.piece_kind().hand_slot() {
                Some(k) => k,
                None => return None,
            };
            proof {
                lemma_index_coords(to.index as int);
            }
            let file = to.file() as usize;
            let rank = to.rank() as usize;
            Some(((file - 1) * 9 + rank - 1) * ACTIONS_PER_SQUARE + DROP_ACTION_OFFSET + k)
        },
        Move::Normal { from, to, promote } => {
            let df0 = to.file() as i8 - from.file() as i8;
            let dr0 = to.rank() as i8 - from.rank() as i8;
            let (df, dr) = match side {
                Color::Black => (df0, dr0),
                Color::White => (-df0, -dr0),
            };
            let (ddf, ddr) = if dr == -2 && abs_of(df) == 1 {
                (df, dr)
            } else if (df != 0 || dr != 0) && (df == 0 || dr == 0 || abs_of(df) == abs_of(dr)) {
                (sign_of(df), sign_of(dr))
            } else {
                return None;
            };
            let dir = match direction_index(ddf, ddr) {
                Some(d) => d,
                None => return None,
            };
            proof {
                lemma_index_coords(to.index as int);
            }
            let file = to.file() as usize;
            let rank = to.rank() as usize;
            let kind = if promote { dir + PROMOTE_ACTION_OFFSET } else { dir };
            Some(((file - 1) * 9 + rank - 1) * ACTIONS_PER_SQUARE + kind)
        },
    }
}

/// Decoding an action and encoding the move it gives yields the action again.
pub proof fn law_action_round_trip(pos: PosView, tsuitate: bool, a: int)
    requires
        decode(pos, tsuitate, a) is Some,
    ensures
        encode(decode(pos, tsuitate, a)->0, pos.side) == Some(a),
{
    let t = a / 27 + 1;
    let kind = a % 27;
    let side = pos.side;
    lemma_index_coords(t);
    assert(square_base(t) + kind == a);
    if kind < 20 {
        let promote = kind >= 10;
        let dir = if promote { kind - 10 } else { kind };
        let d = move_delta(dir);
        let sf = -oriented(side, d.0);
        let sr = -oriented(side, d.1);
        let tf = index_file(t);
        let tr = index_rank(t);
        let m = decode(pos, tsuitate, a)->0;
        let from = m->Normal_from;
        if dir >= 8 {
            assert(from.index == sq_index(tf + sf, tr + sr));
            lemma_coords_index(tf + sf, tr + sr);
            assert(oriented(side, tf - from.spec_file()) == d.0);
            assert(oriented(side, tr - from.spec_rank()) == d.1);
        } else {
            lemma_ray_from_square(pos, tf, tr, sf, sr, side, tsuitate, 9);
            let n = choose|n: int|
                1 <= n <= 9 && on_board(tf + steps(n, sf), tr + steps(n, sr)) && #[trigger] sq_index(tf + steps(n, sf), tr + steps(n, sr)) == from.index
                    && from.wf();
            lemma_coords_index(tf + steps(n, sf), tr + steps(n, sr));
            assert(from.spec_file() == tf + steps(n, sf));
            assert(from.spec_rank() == tr + steps(n, sr));
            assert(oriented(side, tf - from.spec_file()) == steps(n, d.0));
            assert(oriented(side, tr - from.spec_rank()) == steps(n, d.1));
        }
    }
}

} // verus!

verus! {

/// The square `n` steps from `(f, r)` in the unit direction `(df, dr)`.
pub open spec fn step_square(f: int, r: int, df: int, dr: int, n: int) -> int {
    sq_index(f + steps(n, df), r + steps(n, dr))
}

/// The square `n` steps away is on the board.
pub open spec fn step_on_board(f: int, r: int, df: int, dr: int, n: int) -> bool {
    on_board(f + steps(n, df), r + steps(n, dr))
}

/// A walk back from a destination does not stop on this square.
pub open spec fn passes(x: Option<Piece>, side: Color, tsuitate: bool) -> bool {
    match x {
        None => true,
        Some(p) => tsuitate && p.color != side,
    }
}

/// A slide reaches its square some number of steps away, over unblocked squares.
proof fn lemma_ray_steps(f: int, r: int, df: int, dr: int, occ: spec_fn(int) -> bool, i: int, fuel: nat)
    requires
        unit(df),
        unit(dr),
        crate::normal::ray(f, r, df, dr, occ, i, fuel),
    ensures
        exists|n: int|
            1 <= n <= fuel && step_on_board(f, r, df, dr, n) && i == #[trigger] step_square(f, r, df, dr, n) && forall|k: int|
                1 <= k < n ==> step_on_board(f, r, df, dr, k) && !occ(#[trigger] step_square(f, r, df, dr, k)),
    decreases fuel,
{
    let nf = f + df;
    let nr = r + dr;
    if i == sq_index(nf, nr) {
        assert(step_square(f, r, df, dr, 1) == i);
    } else {
        lemma_ray_steps(nf, nr, df, dr, occ, i, (fuel - 1) as nat);
        let n = choose|n: int|
            1 <= n <= fuel - 1 && step_on_board(nf, nr, df, dr, n) && i == #[trigger] step_square(nf, nr, df, dr, n) && forall|k: int|
                1 <= k < n ==> step_on_board(nf, nr, df, dr, k) && !occ(#[trigger] step_square(nf, nr, df, dr, k));
        assert(step_square(f, r, df, dr, n + 1) == step_square(nf, nr, df, dr, n));
        assert forall|k: int| 1 <= k < n + 1 implies step_on_board(f, r, df, dr, k) && !occ(#[trigger] step_square(f, r, df, dr, k)) by {
            if k > 1 {
                assert(step_square(f, r, df, dr, k) == step_square(nf, nr, df, dr, k - 1));
                assert(step_on_board(nf, nr, df, dr, k - 1));
            }
        }
    }
}

/// Walking back from a destination over squares it passes reaches the first own piece.
proof fn lemma_walk_finds(pos: PosView, tf: int, tr: int, sf: int, sr: int, side: Color, tsuitate: bool, n: int, fuel: nat)
    requires
        unit(sf),
        unit(sr),
        1 <= n <= fuel,
        forall|k: int|
            1 <= k < n ==> step_on_board(tf, tr, sf, sr, k) && passes(pos.at(#[trigger] step_square(tf, tr, sf, sr, k)), side, tsuitate),
        step_on_board(tf, tr, sf, sr, n),
        pos.at(step_square(tf, tr, sf, sr, n)) matches Some(p) && p.color == side,
    ensures
        ray_from(pos, tf, tr, sf, sr, side, tsuitate, fuel) == Some(Square { index: step_square(tf, tr, sf, sr, n) as u8 }),
    decreases n,
{
    assert(step_square(tf, tr, sf, sr, 1) == sq_index(tf + sf, tr + sr));
    if n > 1 {
        assert(step_on_board(tf, tr, sf, sr, 1));
        assert(passes(pos.at(step_square(tf, tr, sf, sr, 1)), side, tsuitate));
        assert forall|k: int| 1 <= k < n - 1 implies step_on_board(tf + sf, tr + sr, sf, sr, k) && passes(
            pos.at(#[trigger] step_square(tf + sf, tr + sr, sf, sr, k)),
            side,
            tsuitate,
        ) by {
            assert(step_square(tf + sf, tr + sr, sf, sr, k) == step_square(tf, tr, sf, sr, k + 1));
            assert(step_on_board(tf, tr, sf, sr, k + 1));
        }
        assert(step_square(tf + sf, tr + sr, sf, sr, n - 1) == step_square(tf, tr, sf, sr, n));
        lemma_walk_finds(pos, tf + sf, tr + sr, sf, sr, side, tsuitate, n - 1, (fuel - 1) as nat);
    }
}

/// Each direction's number gives back its step.
proof fn lemma_delta_dir(df: int, dr: int)
    ensures
        delta_dir(df, dr) matches Some(d) ==> 0 <= d < 10 && move_delta(d) == (df, dr) && (d < 8 <==> dr != -2),
        unit(df) && unit(dr) && (df != 0 || dr != 0) ==> delta_dir(df, dr) is Some,
{
}

/// A move of the side to move along a line of `n` unit steps, over squares the walk back
/// passes, is what its action decodes to.
proof fn lemma_line_codec(pos: PosView, from: Square, to: Square, promote: bool, tsuitate: bool, df: int, dr: int, n: int)
    requires
        from.wf(),
        to.wf(),
        unit(df),
        unit(dr),
        df != 0 || dr != 0,
        1 <= n <= 9,
        to.index == step_square(from.spec_file(), from.spec_rank(), df, dr, n),
        step_on_board(from.spec_file(), from.spec_rank(), df, dr, n),
        forall|k: int|
            1 <= k < n ==> step_on_board(from.spec_file(), from.spec_rank(), df, dr, k) && passes(
                pos.at(#[trigger] step_square(from.spec_file(), from.spec_rank(), df, dr, k)),
                pos.side,
                tsuitate,
            ),
        pos.at(from.index as int) matches Some(p) && p.color == pos.side,
    ensures
        encode(Move::Normal { from, to, promote }, pos.side) matches Some(a) && decode(pos, tsuitate, a) == Some(
            Move::Normal { from, to, promote },
        ),
{
    let side = pos.side;
    let f = from.spec_file();
    let r = from.spec_rank();
    lemma_index_coords(from.index as int);
    lemma_index_coords(to.index as int);
    lemma_coords_index(f + steps(n, df), r + steps(n, dr));
    let tf = to.spec_file();
    let tr = to.spec_rank();
    assert(tf == f + steps(n, df));
    assert(tr == r + steps(n, dr));
    let ef = oriented(side, tf - f);
    let er = oriented(side, tr - r);
    assert(move_direction(ef, er) == Some((oriented(side, df), oriented(side, dr))));
    lemma_delta_dir(oriented(side, df), oriented(side, dr));
    let dir = delta_dir(oriented(side, df), oriented(side, dr))->0;
    let a = square_base(to.index as int) + dir + if promote { 10int } else { 0int };
    assert(a / 27 + 1 == to.index);
    assert(a % 27 == dir + if promote { 10int } else { 0int });
    assert forall|k: int|
        1 <= k < n implies step_on_board(tf, tr, -df, -dr, k) && passes(pos.at(#[trigger] step_square(tf, tr, -df, -dr, k)), side, tsuitate) by {
        assert(step_square(tf, tr, -df, -dr, k) == step_square(f, r, df, dr, n - k));
        assert(step_on_board(f, r, df, dr, n - k));
    }
    assert(step_square(tf, tr, -df, -dr, n) == from.index);
    lemma_walk_finds(pos, tf, tr, -df, -dr, side, tsuitate, n, 9);
}

/// A knight jump of the side to move is what its action decodes to.
proof fn lemma_knight_codec(pos: PosView, from: Square, to: Square, promote: bool, tsuitate: bool, df: int)
    requires
        from.wf(),
        to.wf(),
        df == 1 || df == -1,
        crate::normal::near(from.spec_file(), from.spec_rank(), df, 2 * crate::normal::forward(pos.side), to.index as int),
    ensures
        encode(Move::Normal { from, to, promote }, pos.side) matches Some(a) && decode(pos, tsuitate, a) == Some(
            Move::Normal { from, to, promote },
        ),
{
    let side = pos.side;
    let f = from.spec_file();
    let r = from.spec_rank();
    let fw = 2 * crate::normal::forward(side);
    lemma_index_coords(from.index as int);
    lemma_index_coords(to.index as int);
    lemma_coords_index(f + df, r + fw);
    let ef = oriented(side, df);
    assert(oriented(side, fw) == -2);
    assert(move_direction(ef, -2) == Some((ef, -2)));
    lemma_delta_dir(ef, -2);
    let dir = delta_dir(ef, -2)->0;
    let a = square_base(to.index as int) + dir + if promote { 10int } else { 0int };
    assert(a / 27 + 1 == to.index);
    assert(a % 27 == dir + if promote { 10int } else { 0int });
    assert(shifted(f + df, r + fw, -df, -fw) == Some(from));
}

} // verus!

verus! {

/// A step to a neighbouring square is what its action decodes to.
proof fn lemma_near_codec(pos: PosView, from: Square, to: Square, promote: bool, tsuitate: bool, df: int, dr: int)
    requires
        from.wf(),
        to.wf(),
        unit(df),
        unit(dr),
        df != 0 || dr != 0,
        crate::normal::near(from.spec_file(), from.spec_rank(), df, dr, to.index as int),
        pos.at(from.index as int) matches Some(p) && p.color == pos.side,
    ensures
        encode(Move::Normal { from, to, promote }, pos.side) matches Some(a) && decode(pos, tsuitate, a) == Some(
            Move::Normal { from, to, promote },
        ),
{
    assert(step_square(from.spec_file(), from.spec_rank(), df, dr, 1) == to.index);
    lemma_line_codec(pos, from, to, promote, tsuitate, df, dr, 1);
}

/// A slide over squares that do not block it is what its action decodes to.
proof fn lemma_slide_codec(
    pos: PosView,
    from: Square,
    to: Square,
    promote: bool,
    tsuitate: bool,
    df: int,
    dr: int,
    occ: spec_fn(int) -> bool,
)
    requires
        from.wf(),
        to.wf(),
        unit(df),
        unit(dr),
        df != 0 || dr != 0,
        crate::normal::ray(from.spec_file(), from.spec_rank(), df, dr, occ, to.index as int, 9),
        forall|j: int| #[trigger] occ(j) == crate::normal::blockers(pos, pos.side, tsuitate, j),
        pos.at(from.index as int) matches Some(p) && p.color == pos.side,
    ensures
        encode(Move::Normal { from, to, promote }, pos.side) matches Some(a) && decode(pos, tsuitate, a) == Some(
            Move::Normal { from, to, promote },
        ),
{
    let f = from.spec_file();
    let r = from.spec_rank();
    lemma_index_coords(from.index as int);
    lemma_ray_steps(f, r, df, dr, occ, to.index as int, 9);
    let n = choose|n: int|
        1 <= n <= 9 && step_on_board(f, r, df, dr, n) && to.index as int == #[trigger] step_square(f, r, df, dr, n) && forall|k: int|
            1 <= k < n ==> step_on_board(f, r, df, dr, k) && !occ(#[trigger] step_square(f, r, df, dr, k));
    assert forall|k: int| 1 <= k < n implies step_on_board(f, r, df, dr, k) && passes(
        pos.at(#[trigger] step_square(f, r, df, dr, k)),
        pos.side,
        tsuitate,
    ) by {
        assert(!occ(step_square(f, r, df, dr, k)));
        lemma_coords_index(f + steps(k, df), r + steps(k, dr));
    }
    lemma_line_codec(pos, from, to, promote, tsuitate, df, dr, n);
}

/// A step to any of the eight neighbours is what its action decodes to.
proof fn lemma_king_step_codec(pos: PosView, from: Square, to: Square, promote: bool, tsuitate: bool)
    requires
        from.wf(),
        to.wf(),
        crate::normal::king_attacks(from.spec_file(), from.spec_rank(), to.index as int),
        pos.at(from.index as int) matches Some(p) && p.color == pos.side,
    ensures
        encode(Move::Normal { from, to, promote }, pos.side) matches Some(a) && decode(pos, tsuitate, a) == Some(
            Move::Normal { from, to, promote },
        ),
{
    let f = from.spec_file();
    let r = from.spec_rank();
    let t = to.index as int;
    if crate::normal::near(f, r, -1, -1, t) {
        lemma_near_codec(pos, from, to, promote, tsuitate, -1, -1);
    } else if crate::normal::near(f, r, -1, 0, t) {
        lemma_near_codec(pos, from, to, promote, tsuitate, -1, 0);
    } else if crate::normal::near(f, r, -1, 1, t) {
        lemma_near_codec(pos, from, to, promote, tsuitate, -1, 1);
    } else if crate::normal::near(f, r, 0, -1, t) {
        lemma_near_codec(pos, from, to, promote, tsuitate, 0, -1);
    } else if crate::normal::near(f, r, 0, 1, t) {
        lemma_near_codec(pos, from, to, promote, tsuitate, 0, 1);
    } else if crate::normal::near(f, r, 1, -1, t) {
        lemma_near_codec(pos, from, to, promote, tsuitate, 1, -1);
    } else if crate::normal::near(f, r, 1, 0, t) {
        lemma_near_codec(pos, from, to, promote, tsuitate, 1, 0);
    } else {
        lemma_near_codec(pos, from, to, promote, tsuitate, 1, 1);
    }
}

/// A diagonal slide is what its action decodes to.
proof fn lemma_bishop_codec(pos: PosView, from: Square, to: Square, promote: bool, tsuitate: bool, occ: spec_fn(int) -> bool)
    requires
        from.wf(),
        to.wf(),
        crate::normal::bishop_attacks(from.spec_file(), from.spec_rank(), occ, to.index as int),
        forall|j: int| #[trigger] occ(j) == crate::normal::blockers(pos, pos.side, tsuitate, j),
        pos.at(from.index as int) matches Some(p) && p.color == pos.side,
    ensures
        encode(Move::Normal { from, to, promote }, pos.side) matches Some(a) && decode(pos, tsuitate, a) == Some(
            Move::Normal { from, to, promote },
        ),
{
    let f = from.spec_file();
    let r = from.spec_rank();
    let t = to.index as int;
    if crate::normal::slide(f, r, 1, -1, occ, t) {
        lemma_slide_codec(pos, from, to, promote, tsuitate, 1, -1, occ);
    } else if crate::normal::slide(f, r, 1, 1, occ, t) {
        lemma_slide_codec(pos, from, to, promote, tsuitate, 1, 1, occ);
    } else if crate::normal::slide(f, r, -1, -1, occ, t) {
        lemma_slide_codec(pos, from, to, promote, tsuitate, -1, -1, occ);
    } else {
        lemma_slide_codec(pos, from, to, promote, tsuitate, -1, 1, occ);
    }
}

/// An orthogonal slide is what its action decodes to.
proof fn lemma_rook_codec(pos: PosView, from: Square, to: Square, promote: bool, tsuitate: bool, occ: spec_fn(int) -> bool)
    requires
        from.wf(),
        to.wf(),
        crate::normal::rook_attacks(from.spec_file(), from.spec_rank(), occ, to.index as int),
        forall|j: int| #[trigger] occ(j) == crate::normal::blockers(pos, pos.side, tsuitate, j),
        pos.at(from.index as int) matches Some(p) && p.color == pos.side,
    ensures
        encode(Move::Normal { from, to, promote }, pos.side) matches Some(a) && decode(pos, tsuitate, a) == Some(
            Move::Normal { from, to, promote },
        ),
{
    let f = from.spec_file();
    let r = from.spec_rank();
    let t = to.index as int;
    if crate::normal::slide(f, r, 0, -1, occ, t) {
        lemma_slide_codec(pos, from, to, promote, tsuitate, 0, -1, occ);
    } else if crate::normal::slide(f, r, 0, 1, occ, t) {
        lemma_slide_codec(pos, from, to, promote, tsuitate, 0, 1, occ);
    } else if crate::normal::slide(f, r, 1, 0, occ, t) {
        lemma_slide_codec(pos, from, to, promote, tsuitate, 1, 0, occ);
    } else {
        lemma_slide_codec(pos, from, to, promote, tsuitate, -1, 0, occ);
    }
}

/// A piece of the side to move that attacks a square, by a move that has an action,
/// moves there by what that action decodes to.
proof fn lemma_attack_codec(pos: PosView, from: Square, to: Square, promote: bool, tsuitate: bool, gk: GameKind)
    requires
        from.wf(),
        to.wf(),
        pos.at(from.index as int) matches Some(p) && p.color == pos.side && crate::normal::attacks(
            p.kind,
            p.color,
            from.spec_file(),
            from.spec_rank(),
            gk,
            |j: int| crate::normal::blockers(pos, p.color, tsuitate, j),
            to.index as int,
        ),
        encode(Move::Normal { from, to, promote }, pos.side) is Some,
    ensures
        decode(pos, tsuitate, encode(Move::Normal { from, to, promote }, pos.side)->0) == Some(Move::Normal { from, to, promote }),
{
    let side = pos.side;
    let f = from.spec_file();
    let r = from.spec_rank();
    let t = to.index as int;
    let p = pos.at(from.index as int)->0;
    let occ = |j: int| crate::normal::blockers(pos, p.color, tsuitate, j);
    lemma_index_coords(from.index as int);
    lemma_index_coords(t);
    match p.kind {
        PieceKind::Pawn => {
            if side == Color::Black && r == 1 {
                lemma_coords_index(f - 1, 9);
                assert(t == sq_index(f - 1, 9));
            } else if side == Color::White && r == 9 {
                lemma_coords_index(f + 1, 1);
                assert(t == sq_index(f + 1, 1));
            } else {
                assert(crate::normal::near(f, r, 0, crate::normal::forward(side), t));
                lemma_king_step_codec(pos, from, to, promote, tsuitate);
            }
        },
        PieceKind::Lance => {
            lemma_slide_codec(pos, from, to, promote, tsuitate, 0, crate::normal::forward(side), occ);
        },
        PieceKind::Knight => {
            if crate::normal::near(f, r, -1, 2 * crate::normal::forward(side), t) {
                lemma_knight_codec(pos, from, to, promote, tsuitate, -1);
            } else {
                lemma_knight_codec(pos, from, to, promote, tsuitate, 1);
            }
        },
        PieceKind::Bishop => {
            lemma_bishop_codec(pos, from, to, promote, tsuitate, occ);
        },
        PieceKind::Rook => {
            lemma_rook_codec(pos, from, to, promote, tsuitate, occ);
        },
        PieceKind::ProBishop => {
            if crate::normal::bishop_attacks(f, r, occ, t) {
                lemma_bishop_codec(pos, from, to, promote, tsuitate, occ);
            } else {
                lemma_king_step_codec(pos, from, to, promote, tsuitate);
            }
        },
        PieceKind::ProRook => {
            if crate::normal::rook_attacks(f, r, occ, t) {
                lemma_rook_codec(pos, from, to, promote, tsuitate, occ);
            } else {
                lemma_king_step_codec(pos, from, to, promote, tsuitate);
            }
        },
        _ => {
            lemma_king_step_codec(pos, from, to, promote, tsuitate);
        },
    }
}

/// A valid move that has an action is what that action decodes to.
pub proof fn law_valid_move_decodes(pos: PosView, mv: Move, setting: Setting)
    requires
        mv.wf(),
        valid_move(pos, mv, setting),
        encode(mv, pos.side) is Some,
    ensures
        decode(pos, setting.is_tsuitate, encode(mv, pos.side)->0) == Some(mv),
{
    match mv {
        Move::Drop { piece, to } => {
            let k = piece.kind.hand_index()->0;
            let a = square_base(to.index as int) + 20 + k;
            assert(a / 27 + 1 == to.index);
            assert(a % 27 == 20 + k);
            assert(PieceKind::spec_of_hand_slot(k) == piece.kind);
        },
        Move::Normal { from, to, promote } => {
            lemma_attack_codec(pos, from, to, promote, setting.is_tsuitate, setting.game_kind);
        },
    }
}

} // verus!

verus! {

/// A move tried earlier that the game reported as a foul. All entries of a history belong
/// to the player asked about and to the current, unchanged board.
#[derive(Clone, Copy, Debug)]
pub struct FoulAttempt {
    pub action: Move,
    pub in_check_before: Option<bool>,
}

/// What a player of tsuitate knows from earlier attempts: the fouls just made, and the
/// square where the player's piece was last captured.
#[derive(Clone, Copy, Debug)]
pub struct ActionHistory<'a> {
    pub consecutive_fouls: &'a [FoulAttempt],
    pub last_lost_piece_square: Option<Square>,
}

impl<'a> Default for ActionHistory<'a> {
    fn default() -> (r: ActionHistory<'a>)
        ensures
            r.consecutive_fouls@.len() == 0,
            r.last_lost_piece_square is None,
    {
        let none: &'a [FoulAttempt] = &[];
        ActionHistory { consecutive_fouls: none, last_lost_piece_square: None }
    }
}

/// The fouls of a history (none without one).
pub open spec fn foul_list(history: Option<&ActionHistory<'_>>) -> Seq<FoulAttempt> {
    match history {
        Some(h) => h.consecutive_fouls@,
        None => seq![],
    }
}

/// The square of the last lost piece of a history (none without one).
pub open spec fn lost_square(history: Option<&ActionHistory<'_>>) -> Option<Square> {
    match history {
        Some(h) => h.last_lost_piece_square,
        None => None,
    }
}

/// The squares of a history are squares of the board.
pub open spec fn history_wf(history: Option<&ActionHistory<'_>>) -> bool {
    &&& forall|j: int| 0 <= j < foul_list(history).len() ==> (#[trigger] foul_list(history)[j]).action.wf()
    &&& lost_square(history) matches Some(s) ==> s.wf()
}

/// Whether the square with index `i` lies beyond `(f, r)` in the direction `(df, dr)`,
/// within `fuel` steps.
pub open spec fn beyond(f: int, r: int, df: int, dr: int, i: int, fuel: nat) -> bool
    decreases fuel,
{
    fuel > 0 && on_board(f + df, r + dr) && (i == sq_index(f + df, r + dr) || beyond(f + df, r + dr, df, dr, i, (fuel - 1) as nat))
}

/// A piece of `kind` moving by `(df, dr)` slides: a rook (or dragon) along a file or rank,
/// a bishop (or horse) along a diagonal, a lance along its file.
pub open spec fn slides_on(kind: PieceKind, df: int, dr: int) -> bool {
    match kind {
        PieceKind::Rook | PieceKind::ProRook => df == 0 || dr == 0,
        PieceKind::Bishop | PieceKind::ProBishop => abs(df) == abs(dr),
        PieceKind::Lance => df == 0,
        _ => false,
    }
}

/// A foul attempt rules out the move from the square with index `f` to the square with
/// index `i`: it is still a valid move, it went from `f` to `i` (either promotion), or,
/// made while not in check, it slid from `f` and `i` lies beyond where it went.
pub open spec fn move_ban(pos: PosView, setting: Setting, at: FoulAttempt, f: int, i: int) -> bool {
    &&& valid_move(pos, at.action, setting)
    &&& match at.action {
        Move::Normal { from, to, .. } => {
            let df = to.spec_file() - from.spec_file();
            let dr = to.spec_rank() - from.spec_rank();
            &&& from.index == f
            &&& (to.index == i || (at.in_check_before == Some(false) && slides_on(pos.at(f)->0.kind, df, dr) && beyond(
                to.spec_file(),
                to.spec_rank(),
                signum(df),
                signum(dr),
                i,
                9,
            )))
        },
        Move::Drop { .. } => false,
    }
}

/// A foul attempt rules out dropping the kind in hand slot `k` on the square with index `i`:
/// it is still a valid drop on `i`, of that kind or, in shogi, of any kind but a pawn (a pawn
/// drop may be a foul for the pawn-drop mate alone).
pub open spec fn drop_ban(pos: PosView, setting: Setting, at: FoulAttempt, k: int, i: int) -> bool {
    &&& valid_move(pos, at.action, setting)
    &&& match at.action {
        Move::Drop { piece, to } => to.index == i && (piece.kind.hand_index() == Some(k) || (setting.game_kind
            == GameKind::Shogi && piece.kind != PieceKind::Pawn)),
        Move::Normal { .. } => false,
    }
}

/// In tsuitate, the fouls rule out the move from `f` to `i`.
pub open spec fn banned_move(pos: PosView, setting: Setting, fouls: Seq<FoulAttempt>, f: int, i: int) -> bool {
    setting.is_tsuitate && exists|j: int| 0 <= j < fouls.len() && #[trigger] move_ban(pos, setting, fouls[j], f, i)
}

/// In tsuitate, drops of slot `k` on `i` are ruled out by the fouls, or because a piece
/// was just lost there.
pub open spec fn banned_drop(pos: PosView, setting: Setting, fouls: Seq<FoulAttempt>, lost: Option<Square>, k: int, i: int) -> bool {
    setting.is_tsuitate && ((lost matches Some(s) && s.index == i) || exists|j: int|
        0 <= j < fouls.len() && #[trigger] drop_ban(pos, setting, fouls[j], k, i))
}

/// Adds the squares beyond `to` in the direction `(df, dr)` to `mask`.
fn add_beyond(mask: Bitboard, to: Square, df: i8, dr: i8) -> (r: Bitboard)
    requires
        mask.wf(),
        to.wf(),
    ensures
        r.wf(),
        forall|i: int| r.has(i) <==> (mask.has(i) || beyond(to.spec_file(), to.spec_rank(), df as int, dr as int, i, 9)),
{
    let mut out = mask;
    let mut cur = to;
    let mut fuel: u8 = 9;
    while fuel > 0
        invariant
            mask.wf(),
            out.wf(),
            cur.wf(),
            fuel <= 9,
            forall|i: int| (out.has(i) || beyond(cur.spec_file(), cur.spec_rank(), df as int, dr as int, i, fuel as nat)) <==> (mask.has(i)
                || beyond(to.spec_file(), to.spec_rank(), df as int, dr as int, i, 9)),
        decreases fuel,
    {
        let next = match cur.shift(df, dr) {
            Some(s) => s,
            None => {
                return out;
            },
        };
        proof {
            lemma_coords_index(cur.spec_file() + df, cur.spec_rank() + dr);
        }
        out = out.with(next);
        cur = next;
        fuel = fuel - 1;
    }
    out
}

/// `v` with entry `k` widened to hold square `s` too.
fn add_square(v: &mut Vec<Bitboard>, k: usize, s: Square)
    requires
        k < old(v)@.len(),
        s.wf(),
        old(v)@[k as int].wf(),
    ensures
        final(v)@.len() == old(v)@.len(),
        final(v)@[k as int].wf(),
        forall|i: int| final(v)@[k as int].has(i) <==> (old(v)@[k as int].has(i) || i == s.index),
        forall|j: int| 0 <= j < old(v)@.len() && j != k ==> final(v)@[j] == old(v)@[j],
{
    let b = v[k].with(s);
    v.set(k, b);
}

} // verus!

verus! {

/// What one foul attempt rules out, added to the masks of ruled-out moves (by origin) and
/// drops (by hand slot).
fn ban_attempt(position: &PartialPosition, setting: &Setting, at: FoulAttempt, moves: &mut Vec<Bitboard>, drops: &mut Vec<Bitboard>)
    requires
        position.wf(),
        setting.wf(),
        at.action.wf(),
        old(moves)@.len() == 81,
        old(drops)@.len() == 7,
        forall|j: int| 0 <= j < 81 ==> (#[trigger] old(moves)@[j]).wf(),
        forall|j: int| 0 <= j < 7 ==> (#[trigger] old(drops)@[j]).wf(),
    ensures
        final(moves)@.len() == 81,
        final(drops)@.len() == 7,
        forall|j: int| 0 <= j < 81 ==> (#[trigger] final(moves)@[j]).wf(),
        forall|j: int| 0 <= j < 7 ==> (#[trigger] final(drops)@[j]).wf(),
        forall|f: int, i: int|
            1 <= f <= 81 ==> (#[trigger] final(moves)@[f - 1].has(i) <==> (old(moves)@[f - 1].has(i) || move_ban(position@, *setting, at, f, i))),
        forall|k: int, i: int|
            0 <= k < 7 ==> (#[trigger] final(drops)@[k].has(i) <==> (old(drops)@[k].has(i) || drop_ban(position@, *setting, at, k, i))),
{
    if !crate::prelegality::is_valid(position, at.action, setting) {
        return;
    }
    match at.action {
        Move::Drop { piece, to } => {
            match piece.kind.hand_slot() {
                Some(k) => {
                    add_square(drops, k, to);
                    if setting.game_kind == GameKind::Shogi && !piece.kind.same(PieceKind::Pawn) {
                        let ghost mid = drops@;
                        let mut kk: usize = 0;
                        while kk < 7
                            invariant
                                kk <= 7,
                                to.wf(),
                                drops@.len() == 7,
                                forall|j: int| 0 <= j < 7 ==> (#[trigger] drops@[j]).wf(),
                                forall|j: int, i: int|
                                    0 <= j < 7 ==> (#[trigger] drops@[j].has(i) <==> (mid[j].has(i) || (j < kk && i == to.index))),
                            decreases 7 - kk,
                        {
                            add_square(drops, kk, to);
                            kk = kk + 1;
                        }
                    }
                },
                None => {},
            }
        },
        Move::Normal { from, to, .. } => {
            let fi = (from.index - 1) as usize;
            let mut mask = moves[fi].with(to);
            let not_in_check = match at.in_check_before {
                Some(b) => !b,
                None => false,
            };
            if not_in_check {
                let df = to.file() as i8 - from.file() as i8;
                let dr = to.rank() as i8 - from.rank() as i8;
                let kind = position.piece_at(from).unwrap().kind;
                let sliding = match kind {
                    PieceKind::Rook | PieceKind::ProRook => df == 0 || dr == 0,
                    PieceKind::Bishop | PieceKind::ProBishop => abs_of(df) == abs_of(dr),
                    PieceKind::Lance => df == 0,
                    _ => false,
                };
                if sliding {
                    mask = add_beyond(mask, to, sign_of(df), sign_of(dr));
                }
            }
            moves.set(fi, mask);
        },
    }
}

/// The masks of moves (by origin) and drops (by hand slot) that a history rules out.
fn ban_masks(position: &PartialPosition, setting: &Setting, history: Option<&ActionHistory<'_>>) -> (r: (Vec<Bitboard>, Vec<Bitboard>))
    requires
        position.wf(),
        setting.wf(),
        history_wf(history),
    ensures
        r.0@.len() == 81,
        r.1@.len() == 7,
        forall|j: int| 0 <= j < 81 ==> (#[trigger] r.0@[j]).wf(),
        forall|j: int| 0 <= j < 7 ==> (#[trigger] r.1@[j]).wf(),
        forall|f: int, i: int|
            1 <= f <= 81 ==> (#[trigger] r.0@[f - 1].has(i) <==> banned_move(position@, *setting, foul_list(history), f, i)),
        forall|k: int, i: int|
            0 <= k < 7 ==> (#[trigger] r.1@[k].has(i) <==> banned_drop(position@, *setting, foul_list(history), lost_square(history), k, i)),
{
    let mut moves: Vec<Bitboard> = Vec::new();
    let mut drops: Vec<Bitboard> = Vec::new();
    let mut n: usize = 0;
    while n < 81
        invariant
            n <= 81,
            moves@.len() == n,
            drops@.len() == if n < 7 { n as int } else { 7 },
            forall|j: int| 0 <= j < n ==> (#[trigger] moves@[j]).wf() && forall|i: int| !moves@[j].has(i),
            forall|j: int| 0 <= j < drops@.len() ==> (#[trigger] drops@[j]).wf() && forall|i: int| !drops@[j].has(i),
        decreases 81 - n,
    {
        moves.push(Bitboard::empty());
        if n < 7 {
            drops.push(Bitboard::empty());
        }
        n = n + 1;
    }
    if setting.is_tsuitate {
        match history {
            Some(h) => {
                match h.last_lost_piece_square {
                    Some(to) => {
                        let mut kk: usize = 0;
                        while kk < 7
                            invariant
                                kk <= 7,
                                to.wf(),
                                drops@.len() == 7,
                                forall|j: int| 0 <= j < 7 ==> (#[trigger] drops@[j]).wf(),
                                forall|j: int, i: int| 0 <= j < 7 ==> (#[trigger] drops@[j].has(i) <==> (j < kk && i == to.index)),
                            decreases 7 - kk,
                        {
                            add_square(&mut drops, kk, to);
                            kk = kk + 1;
                        }
                    },
                    None => {},
                }
                let fouls = h.consecutive_fouls;
                let mut j: usize = 0;
                while j < fouls.len()
                    invariant
                        position.wf(),
                        setting.wf(),
                        setting.is_tsuitate,
                        history == Some(h),
                        history_wf(history),
                        fouls@ == foul_list(history),
                        j <= fouls@.len(),
                        moves@.len() == 81,
                        drops@.len() == 7,
                        forall|x: int| 0 <= x < 81 ==> (#[trigger] moves@[x]).wf(),
                        forall|x: int| 0 <= x < 7 ==> (#[trigger] drops@[x]).wf(),
                        forall|f: int, i: int|
                            1 <= f <= 81 ==> (#[trigger] moves@[f - 1].has(i) <==> exists|jj: int|
                                0 <= jj < j && #[trigger] move_ban(position@, *setting, fouls@[jj], f, i)),
                        forall|k: int, i: int|
                            0 <= k < 7 ==> (#[trigger] drops@[k].has(i) <==> ((lost_square(history) matches Some(s) && s.index == i)
                                || exists|jj: int| 0 <= jj < j && #[trigger] drop_ban(position@, *setting, fouls@[jj], k, i))),
                    decreases fouls@.len() - j,
                {
                    let at = fouls[j];
                    assert(at.action.wf()) by {
                        assert(foul_list(history)[j as int] == at);
                    }
                    ban_attempt(position, setting, at, &mut moves, &mut drops);
                    proof {
                        assert forall|f: int, i: int| 1 <= f <= 81 implies (#[trigger] moves@[f - 1].has(i) <==> exists|jj: int|
                            0 <= jj < j + 1 && #[trigger] move_ban(position@, *setting, fouls@[jj], f, i)) by {
                            if move_ban(position@, *setting, fouls@[j as int], f, i) {
                                assert(0 <= j < j + 1);
                            }
                        }
                        assert forall|k: int, i: int| 0 <= k < 7 implies (#[trigger] drops@[k].has(i) <==> ((lost_square(history) matches Some(s) && s.index == i)
                            || exists|jj: int| 0 <= jj < j + 1 && #[trigger] drop_ban(position@, *setting, fouls@[jj], k, i))) by {
                            if drop_ban(position@, *setting, fouls@[j as int], k, i) {
                                assert(0 <= j < j + 1);
                            }
                        }
                    }
                    j = j + 1;
                }
            },
            None => {},
        }
    }
    (moves, drops)
}

} // verus!

verus! {

/// Every valid move of the side to move has an action. This fails only for a pawn on its
/// last rank, whose step wraps to the next file (see `crate::normal::pawn_attacks`).
pub open spec fn moves_encodable(pos: PosView, setting: Setting) -> bool {
    forall|f: int, t: int, p: bool|
        valid_index(f) && valid_index(t) && #[trigger] crate::prelegality::valid_normal(
            pos,
            Square { index: f as u8 },
            Square { index: t as u8 },
            p,
            setting,
        ) ==> encode(crate::prelegality::normal_move(f, t, false), pos.side) is Some
}

/// The action decodes to a valid move.
pub open spec fn legal_action(pos: PosView, setting: Setting, a: int) -> bool {
    decode(pos, setting.is_tsuitate, a) matches Some(m) && valid_move(pos, m, setting)
}

/// The action decodes to a valid move that the history does not rule out.
pub open spec fn selected(pos: PosView, setting: Setting, fouls: Seq<FoulAttempt>, lost: Option<Square>, a: int) -> bool {
    &&& 0 <= a < 2187
    &&& legal_action(pos, setting, a)
    &&& match decode(pos, setting.is_tsuitate, a)->0 {
        Move::Normal { from, to, .. } => !banned_move(pos, setting, fouls, from.index as int, to.index as int),
        Move::Drop { to, .. } => !banned_drop(pos, setting, fouls, lost, a % 27 - 20, to.index as int),
    }
}

/// A selected action moves a piece from a square before `(f, t)` in the order of origin,
/// then destination.
pub open spec fn normal_before(pos: PosView, setting: Setting, fouls: Seq<FoulAttempt>, lost: Option<Square>, a: int, f: int, t: int) -> bool {
    &&& selected(pos, setting, fouls, lost, a)
    &&& decode(pos, setting.is_tsuitate, a)->0 matches Move::Normal { from, to, .. } && (from.index < f || (from.index == f
        && to.index < t))
}

/// A selected action moves a piece from square `f` to square `t`.
pub open spec fn normal_at(pos: PosView, setting: Setting, fouls: Seq<FoulAttempt>, lost: Option<Square>, a: int, f: int, t: int) -> bool {
    &&& selected(pos, setting, fouls, lost, a)
    &&& decode(pos, setting.is_tsuitate, a)->0 matches Move::Normal { from, to, .. } && from.index == f && to.index == t
}

/// A selected action from `from` to `to` is the action of the unpromoted or of the promoted
/// move between them.
proof fn lemma_normal_at(pos: PosView, setting: Setting, fouls: Seq<FoulAttempt>, lost: Option<Square>, from: Square, to: Square, a: int)
    requires
        normal_at(pos, setting, fouls, lost, a, from.index as int, to.index as int),
    ensures
        ({
            let m0 = Move::Normal { from, to, promote: false };
            let m1 = Move::Normal { from, to, promote: true };
            ||| decode(pos, setting.is_tsuitate, a) == Some(m0) && encode(m0, pos.side) == Some(a)
            ||| decode(pos, setting.is_tsuitate, a) == Some(m1) && encode(m1, pos.side) == Some(a)
        }),
{
    law_action_round_trip(pos, setting.is_tsuitate, a);
}

/// Marks the action of the unpromoted move from `from` to `to` when `plain`, and of the
/// promoted one when `promoted`.
#[verifier::spinoff_prover]
fn mark_pair(
    position: &PartialPosition,
    setting: &Setting,
    from: Square,
    to: Square,
    plain: bool,
    promoted: bool,
    flags: &mut Vec<bool>,
    Ghost(fouls): Ghost<Seq<FoulAttempt>>,
    Ghost(lost): Ghost<Option<Square>>,
)
    requires
        position.wf(),
        setting.wf(),
        from.wf(),
        to.wf(),
        moves_encodable(position@, *setting),
        plain == (crate::prelegality::valid_normal(position@, from, to, false, *setting) && !banned_move(
            position@,
            *setting,
            fouls,
            from.index as int,
            to.index as int,
        )),
        promoted == (crate::prelegality::valid_normal(position@, from, to, true, *setting) && !banned_move(
            position@,
            *setting,
            fouls,
            from.index as int,
            to.index as int,
        )),
        old(flags)@.len() == 2187,
    ensures
        final(flags)@.len() == 2187,
        forall|a: int|
            0 <= a < 2187 ==> (#[trigger] final(flags)@[a] <==> (old(flags)@[a] || normal_at(
                position@,
                *setting,
                fouls,
                lost,
                a,
                from.index as int,
                to.index as int,
            ))),
{
    let ghost pos = position@;
    let ghost ts = setting.is_tsuitate;
    let ghost f = from.index as int;
    let ghost t = to.index as int;
    let ghost m0 = Move::Normal { from, to, promote: false };
    let ghost m1 = Move::Normal { from, to, promote: true };
    let ghost before = flags@;
    if !plain && !promoted {
        assert forall|a: int| 0 <= a < 2187 implies (#[trigger] flags@[a] <==> (before[a] || normal_at(pos, *setting, fouls, lost, a, f, t))) by {
            if normal_at(pos, *setting, fouls, lost, a, f, t) {
                lemma_normal_at(pos, *setting, fouls, lost, from, to, a);
            }
        }
        return;
    }
    proof {
        assert(crate::prelegality::normal_move(f, t, false) == m0);
        if plain {
            assert(crate::prelegality::valid_normal(pos, Square { index: f as u8 }, Square { index: t as u8 }, false, *setting));
        } else {
            assert(crate::prelegality::valid_normal(pos, Square { index: f as u8 }, Square { index: t as u8 }, true, *setting));
        }
        assert(encode(m0, pos.side) is Some);
    }
    let e = move_to_action_index(Move::Normal { from, to, promote: false }, position.side_to_move()).unwrap();
    proof {
        lemma_index_coords(t);
        assert(e % 27 < 10);
        assert(encode(m1, pos.side) == Some(e + 10));
    }
    if plain {
        proof {
            law_valid_move_decodes(pos, m0, *setting);
        }
        flags.set(e, true);
    }
    if promoted {
        proof {
            law_valid_move_decodes(pos, m1, *setting);
        }
        flags.set(e + 10, true);
    }
    assert forall|a: int| 0 <= a < 2187 implies (#[trigger] flags@[a] <==> (before[a] || normal_at(pos, *setting, fouls, lost, a, f, t))) by {
        if normal_at(pos, *setting, fouls, lost, a, f, t) {
            lemma_normal_at(pos, *setting, fouls, lost, from, to, a);
        }
    }
}

} // verus!

verus! {

/// Marks the actions of the selected moves of pieces on the board.
#[verifier::spinoff_prover]
fn mark_normal_actions(
    position: &PartialPosition,
    setting: &Setting,
    bans: &Vec<Bitboard>,
    flags: &mut Vec<bool>,
    Ghost(fouls): Ghost<Seq<FoulAttempt>>,
    Ghost(lost): Ghost<Option<Square>>,
)
    requires
        position.wf(),
        setting.wf(),
        moves_encodable(position@, *setting),
        bans@.len() == 81,
        forall|j: int| 0 <= j < 81 ==> (#[trigger] bans@[j]).wf(),
        forall|f: int, i: int| 1 <= f <= 81 ==> (#[trigger] bans@[f - 1].has(i) <==> banned_move(position@, *setting, fouls, f, i)),
        old(flags)@.len() == 2187,
        forall|a: int| 0 <= a < 2187 ==> !old(flags)@[a],
    ensures
        final(flags)@.len() == 2187,
        forall|a: int| 0 <= a < 2187 ==> (#[trigger] final(flags)@[a] <==> normal_before(position@, *setting, fouls, lost, a, 82, 1)),
{
    let ghost pos = position@;
    let ghost ts = setting.is_tsuitate;
    let side = position.side_to_move();
    let own = position.player_bitboard(side).and(setting.board_mask);
    let mut fi: u8 = 1;
    while fi <= 81
        invariant
            position.wf(),
            setting.wf(),
            pos == position@,
            ts == setting.is_tsuitate,
            side == pos.side,
            own.wf(),
            forall|i: int| own.has(i) <==> (pos.owned_by(i, side) && setting.board_mask.has(i)),
            moves_encodable(pos, *setting),
            bans@.len() == 81,
            forall|j: int| 0 <= j < 81 ==> (#[trigger] bans@[j]).wf(),
            forall|f: int, i: int| 1 <= f <= 81 ==> (#[trigger] bans@[f - 1].has(i) <==> banned_move(pos, *setting, fouls, f, i)),
            1 <= fi <= 82,
            flags@.len() == 2187,
            forall|a: int| 0 <= a < 2187 ==> (#[trigger] flags@[a] <==> normal_before(pos, *setting, fouls, lost, a, fi as int, 1)),
        decreases 82 - fi,
    {
        let from = Square { index: fi };
        if own.contains(from) {
            let (plain, promoted) = crate::prelegality::normal_move_candidates(position, from, setting);
            let ban = bans[(fi - 1) as usize];
            let targets = plain.or(promoted).minus(ban);
            let mut ti: u8 = 1;
            while ti <= 81
                invariant
                    position.wf(),
                    setting.wf(),
                    pos == position@,
                    ts == setting.is_tsuitate,
                    moves_encodable(pos, *setting),
                    1 <= fi <= 81,
                    from.index == fi,
                    plain.wf(),
                    promoted.wf(),
                    ban.wf(),
                    targets.wf(),
                    forall|i: int| plain.has(i) <==> (valid_index(i) && crate::prelegality::valid_normal(pos, from, Square { index: i as u8 }, false, *setting)),
                    forall|i: int| promoted.has(i) <==> (valid_index(i) && crate::prelegality::valid_normal(pos, from, Square { index: i as u8 }, true, *setting)),
                    forall|i: int| ban.has(i) <==> banned_move(pos, *setting, fouls, fi as int, i),
                    forall|i: int| targets.has(i) <==> ((plain.has(i) || promoted.has(i)) && !ban.has(i)),
                    1 <= ti <= 82,
                    flags@.len() == 2187,
                    forall|a: int| 0 <= a < 2187 ==> (#[trigger] flags@[a] <==> normal_before(pos, *setting, fouls, lost, a, fi as int, ti as int)),
                decreases 82 - ti,
            {
                let to = Square { index: ti };
                let ghost before = flags@;
                if targets.contains(to) {
                    mark_pair(position, setting, from, to, plain.contains(to), promoted.contains(to), flags, Ghost(fouls), Ghost(lost));
                } else {
                    assert forall|a: int| 0 <= a < 2187 implies !normal_at(pos, *setting, fouls, lost, a, fi as int, ti as int) by {
                        if normal_at(pos, *setting, fouls, lost, a, fi as int, ti as int) {
                            lemma_normal_at(pos, *setting, fouls, lost, from, to, a);
                        }
                    }
                }
                assert forall|a: int| 0 <= a < 2187 implies (#[trigger] flags@[a] <==> normal_before(pos, *setting, fouls, lost, a, fi as int, ti + 1)) by {
                    assert(normal_before(pos, *setting, fouls, lost, a, fi as int, ti + 1) <==> (normal_before(pos, *setting, fouls, lost, a, fi as int, ti as int)
                        || normal_at(pos, *setting, fouls, lost, a, fi as int, ti as int)));
                }
                ti = ti + 1;
            }
            assert forall|a: int| 0 <= a < 2187 implies (#[trigger] flags@[a] <==> normal_before(pos, *setting, fouls, lost, a, fi + 1, 1)) by {
                if selected(pos, *setting, fouls, lost, a) {
                    lemma_index_coords(a / 27 + 1);
                }
            }
        } else {
            assert forall|a: int| 0 <= a < 2187 implies (#[trigger] flags@[a] <==> normal_before(pos, *setting, fouls, lost, a, fi + 1, 1)) by {
                if normal_before(pos, *setting, fouls, lost, a, fi + 1, 1) {
                    let m = decode(pos, ts, a)->0;
                    assert(valid_move(pos, m, *setting));
                }
            }
        }
        fi = fi + 1;
    }
}

} // verus!

verus! {

/// A selected action drops a piece, of a hand slot before `k`, or of slot `k` on a square
/// before `t`.
pub open spec fn drop_before(pos: PosView, setting: Setting, fouls: Seq<FoulAttempt>, lost: Option<Square>, a: int, k: int, t: int) -> bool {
    &&& selected(pos, setting, fouls, lost, a)
    &&& a % 27 >= 20
    &&& (a % 27 - 20 < k || (a % 27 - 20 == k && a / 27 + 1 < t))
}

/// Marks the actions of the selected drops.
#[verifier::spinoff_prover]
fn mark_drop_actions(
    position: &PartialPosition,
    setting: &Setting,
    bans: &Vec<Bitboard>,
    flags: &mut Vec<bool>,
    Ghost(fouls): Ghost<Seq<FoulAttempt>>,
    Ghost(lost): Ghost<Option<Square>>,
)
    requires
        position.wf(),
        setting.wf(),
        bans@.len() == 7,
        forall|j: int| 0 <= j < 7 ==> (#[trigger] bans@[j]).wf(),
        forall|k: int, i: int| 0 <= k < 7 ==> (#[trigger] bans@[k].has(i) <==> banned_drop(position@, *setting, fouls, lost, k, i)),
        old(flags)@.len() == 2187,
        forall|a: int| 0 <= a < 2187 ==> (#[trigger] old(flags)@[a] <==> normal_before(position@, *setting, fouls, lost, a, 82, 1)),
    ensures
        final(flags)@.len() == 2187,
        forall|a: int| 0 <= a < 2187 ==> (#[trigger] final(flags)@[a] <==> selected(position@, *setting, fouls, lost, a)),
{
    let ghost pos = position@;
    let ghost ts = setting.is_tsuitate;
    let side = position.side_to_move();
    let mut k: usize = 0;
    assert forall|a: int| 0 <= a < 2187 implies (#[trigger] flags@[a] <==> (normal_before(pos, *setting, fouls, lost, a, 82, 1)
        || drop_before(pos, *setting, fouls, lost, a, 0, 1))) by {}
    while k < 7
        invariant
            position.wf(),
            setting.wf(),
            pos == position@,
            ts == setting.is_tsuitate,
            side == pos.side,
            bans@.len() == 7,
            forall|j: int| 0 <= j < 7 ==> (#[trigger] bans@[j]).wf(),
            forall|kk: int, i: int| 0 <= kk < 7 ==> (#[trigger] bans@[kk].has(i) <==> banned_drop(pos, *setting, fouls, lost, kk, i)),
            k <= 7,
            flags@.len() == 2187,
            forall|a: int| 0 <= a < 2187 ==> (#[trigger] flags@[a] <==> (normal_before(pos, *setting, fouls, lost, a, 82, 1) || drop_before(
                pos,
                *setting,
                fouls,
                lost,
                a,
                k as int,
                1,
            ))),
        decreases 7 - k,
    {
        let piece = Piece::new(PieceKind::of_hand_slot(k), side);
        let count = match position.hand(piece) {
            Some(c) => c,
            None => 0,
        };
        if count == 0 {
            assert forall|a: int| 0 <= a < 2187 implies (#[trigger] flags@[a] <==> (normal_before(pos, *setting, fouls, lost, a, 82, 1)
                || drop_before(pos, *setting, fouls, lost, a, k + 1, 1))) by {
                if drop_before(pos, *setting, fouls, lost, a, k + 1, 1) && a % 27 - 20 == k {
                    assert(valid_move(pos, decode(pos, ts, a)->0, *setting));
                }
            }
        } else {
            let targets = crate::prelegality::drop_candidates(position, piece, setting).minus(bans[k]);
            let mut ti: u8 = 1;
            while ti <= 81
                invariant
                    position.wf(),
                    setting.wf(),
                    pos == position@,
                    ts == setting.is_tsuitate,
                    side == pos.side,
                    k < 7,
                    piece == (Piece { kind: PieceKind::spec_of_hand_slot(k as int), color: side }),
                    targets.wf(),
                    forall|i: int| targets.has(i) <==> (valid_index(i) && crate::prelegality::valid_drop(pos, piece, Square { index: i as u8 }, *setting)
                        && !banned_drop(pos, *setting, fouls, lost, k as int, i)),
                    1 <= ti <= 82,
                    flags@.len() == 2187,
                    forall|a: int| 0 <= a < 2187 ==> (#[trigger] flags@[a] <==> (normal_before(pos, *setting, fouls, lost, a, 82, 1) || drop_before(
                        pos,
                        *setting,
                        fouls,
                        lost,
                        a,
                        k as int,
                        ti as int,
                    ))),
                decreases 82 - ti,
            {
                let to = Square { index: ti };
                let ghost before = flags@;
                let e: usize = (ti as usize - 1) * ACTIONS_PER_SQUARE + DROP_ACTION_OFFSET + k;
                assert(e / 27 + 1 == ti && e % 27 == 20 + k);
                if targets.contains(to) {
                    flags.set(e, true);
                }
                assert forall|a: int| 0 <= a < 2187 implies (#[trigger] flags@[a] <==> (normal_before(pos, *setting, fouls, lost, a, 82, 1)
                    || drop_before(pos, *setting, fouls, lost, a, k as int, ti + 1))) by {
                    if a == e {
                        assert(decode(pos, ts, a) == Some(Move::Drop { piece, to }));
                    } else if a % 27 == 20 + k && a / 27 + 1 == ti {
                        assert(a == (a / 27) * 27 + a % 27);
                        assert(false);
                    }
                }
                ti = ti + 1;
            }
            assert forall|a: int| 0 <= a < 2187 implies (#[trigger] flags@[a] <==> (normal_before(pos, *setting, fouls, lost, a, 82, 1)
                || drop_before(pos, *setting, fouls, lost, a, k + 1, 1))) by {}
        }
        k = k + 1;
    }
    assert forall|a: int| 0 <= a < 2187 implies (#[trigger] flags@[a] <==> selected(pos, *setting, fouls, lost, a)) by {}
}

} // verus!

verus! {

/// The marked actions, in increasing order.
fn collect_flags(flags: &Vec<bool>) -> (r: Vec<usize>)
    requires
        flags@.len() == 2187,
    ensures
        forall|i: int, j: int| 0 <= i < j < r@.len() ==> r@[i] < r@[j],
        forall|i: int| 0 <= i < r@.len() ==> r@[i] < 2187 && flags@[r@[i] as int],
        forall|a: int| 0 <= a < 2187 && flags@[a] ==> r@.contains(a as usize),
{
    let mut result: Vec<usize> = Vec::new();
    let mut a: usize = 0;
    while a < ACTION_COUNT
        invariant
            flags@.len() == 2187,
            a <= 2187,
            forall|i: int, j: int| 0 <= i < j < result@.len() ==> result@[i] < result@[j],
            forall|i: int| 0 <= i < result@.len() ==> result@[i] < a && flags@[result@[i] as int],
            forall|x: int| 0 <= x < a && flags@[x] ==> result@.contains(x as usize),
        decreases 2187 - a,
    {
        let ghost old_r = result@;
        if flags[a] {
            result.push(a);
            assert(result@[result@.len() - 1] == a);
        }
        assert forall|x: int| 0 <= x < a + 1 && flags@[x] implies result@.contains(x as usize) by {
            if x < a {
                assert(old_r.contains(x as usize));
                let i = choose|i: int| 0 <= i < old_r.len() && old_r[i] == x as usize;
                assert(result@[i] == x as usize);
            } else {
                assert(result@[result@.len() - 1] == a);
            }
        }
        a = a + 1;
    }
    result
}

/// The actions from `a` up to the last action that satisfy `keep`, in increasing order.
pub open spec fn actions_from(keep: spec_fn(int) -> bool, a: int) -> Seq<int>
    decreases 2187 - a,
{
    if a >= 2187 {
        seq![]
    } else if keep(a) {
        seq![a] + actions_from(keep, a + 1)
    } else {
        actions_from(keep, a + 1)
    }
}

/// A strictly increasing list of actions from `a` on that holds exactly those satisfying
/// `keep` is the list `actions_from` gives.
proof fn lemma_sorted_actions(keep: spec_fn(int) -> bool, r: Seq<int>, a: int)
    requires
        0 <= a <= 2187,
        forall|i: int, j: int| 0 <= i < j < r.len() ==> r[i] < r[j],
        forall|i: int| 0 <= i < r.len() ==> a <= #[trigger] r[i] < 2187 && keep(r[i]),
        forall|b: int| a <= b < 2187 && #[trigger] keep(b) ==> r.contains(b),
    ensures
        r == actions_from(keep, a),
    decreases 2187 - a,
{
    if a == 2187 {
        if r.len() > 0 {
            assert(r[0] < 2187);
        }
        assert(r =~= seq![]);
    } else if keep(a) {
        assert(r.contains(a));
        let j = choose|j: int| 0 <= j < r.len() && r[j] == a;
        if j > 0 {
            assert(r[0] < r[j]);
        }
        let rest = r.drop_first();
        assert forall|b: int| a + 1 <= b < 2187 && #[trigger] keep(b) implies rest.contains(b) by {
            assert(r.contains(b));
            let k = choose|k: int| 0 <= k < r.len() && r[k] == b;
            assert(k > 0);
            assert(rest[k - 1] == b);
        }
        assert forall|i: int| 0 <= i < rest.len() implies a + 1 <= #[trigger] rest[i] < 2187 && keep(rest[i]) by {
            assert(rest[i] == r[i + 1]);
            assert(r[0] < r[i + 1]);
        }
        lemma_sorted_actions(keep, rest, a + 1);
        assert(r =~= seq![a] + rest);
    } else {
        assert forall|i: int| 0 <= i < r.len() implies a + 1 <= #[trigger] r[i] < 2187 && keep(r[i]) by {
            assert(r[i] != a);
        }
        lemma_sorted_actions(keep, r, a + 1);
    }
}

/// The actions of the side to move of `position`, in increasing order, that decode to a
/// valid move which, in tsuitate, the history does not rule out (see `selected`). Without
/// a history these are exactly the actions that decode to a valid move.
pub fn legal_action_indices_for_position(position: &PartialPosition, setting: &Setting, history: Option<&ActionHistory<'_>>) -> (r: Vec<usize>)
    requires
        position.wf(),
        setting.wf(),
        history_wf(history),
        moves_encodable(position@, *setting),
    ensures
        forall|i: int, j: int| 0 <= i < j < r@.len() ==> r@[i] < r@[j],
        forall|i: int| 0 <= i < r@.len() ==> selected(position@, *setting, foul_list(history), lost_square(history), r@[i] as int),
        forall|a: int| selected(position@, *setting, foul_list(history), lost_square(history), a) ==> r@.contains(a as usize),
        r@.map_values(|x: usize| x as int) == actions_from(
            |a: int| selected(position@, *setting, foul_list(history), lost_square(history), a),
            0,
        ),
{
    let ghost fouls = foul_list(history);
    let ghost lost = lost_square(history);
    let (banned_moves, banned_drops) = ban_masks(position, setting, history);
    let mut flags: Vec<bool> = Vec::new();
    let mut a: usize = 0;
    while a < ACTION_COUNT
        invariant
            a <= 2187,
            flags@.len() == a,
            forall|x: int| 0 <= x < a ==> !flags@[x],
        decreases 2187 - a,
    {
        flags.push(false);
        a = a + 1;
    }
    mark_normal_actions(position, setting, &banned_moves, &mut flags, Ghost(fouls), Ghost(lost));
    mark_drop_actions(position, setting, &banned_drops, &mut flags, Ghost(fouls), Ghost(lost));
    let r = collect_flags(&flags);
    assert forall|a: int| selected(position@, *setting, fouls, lost, a) implies r@.contains(a as usize) by {
        assert(flags@[a]);
    }
    proof {
        let keep = |a: int| selected(position@, *setting, fouls, lost, a);
        let ri = r@.map_values(|x: usize| x as int);
        assert forall|b: int| 0 <= b < 2187 && #[trigger] keep(b) implies ri.contains(b) by {
            assert(r@.contains(b as usize));
            let k = choose|k: int| 0 <= k < r@.len() && r@[k] == b as usize;
            assert(ri[k] == b);
        }
        lemma_sorted_actions(keep, ri, 0);
    }
    r
}

/// Without a history, the selected actions are those that decode to a valid move.
pub proof fn law_selected_without_history(pos: PosView, setting: Setting, a: int)
    ensures
        selected(pos, setting, seq![], None, a) <==> (0 <= a < 2187 && legal_action(pos, setting, a)),
{
}

/// Without a history, the legal actions are exactly the actions that decode to a valid
/// move, in increasing order.
pub proof fn law_legal_actions_without_history(pos: PosView, setting: Setting)
    ensures
        actions_from(|a: int| selected(pos, setting, seq![], None, a), 0) == actions_from(
            |a: int| 0 <= a < 2187 && legal_action(pos, setting, a),
            0,
        ),
{
    assert((|a: int| selected(pos, setting, seq![], None, a)) =~= (|a: int| 0 <= a < 2187 && legal_action(pos, setting, a)));
}

/// A history only rules actions out: an action selected with a history is selected without
/// one; outside tsuitate the history changes nothing; in tsuitate no drop is selected onto
/// the square where a piece was just lost.
pub proof fn law_history_only_removes(pos: PosView, setting: Setting, fouls: Seq<FoulAttempt>, lost: Option<Square>, a: int)
    ensures
        selected(pos, setting, fouls, lost, a) ==> selected(pos, setting, seq![], None, a),
        !setting.is_tsuitate ==> (selected(pos, setting, fouls, lost, a) <==> selected(pos, setting, seq![], None, a)),
        lost matches Some(s) ==> (decode(pos, true, a) matches Some(Move::Drop { to, .. }) ==> (setting.is_tsuitate
            && to.index == s.index ==> !selected(pos, setting, fouls, lost, a))),
{
}

/// Whether every valid move of the side to move has an action (see `moves_encodable`).
pub fn candidates_encodable(position: &PartialPosition, setting: &Setting) -> (r: bool)
    requires
        position.wf(),
        setting.wf(),
    ensures
        r == moves_encodable(position@, *setting),
{
    let ghost pos = position@;
    let side = position.side_to_move();
    let mut fi: u8 = 1;
    while fi <= 81
        invariant
            position.wf(),
            setting.wf(),
            pos == position@,
            side == pos.side,
            1 <= fi <= 82,
            forall|f: int, t: int, p: bool|
                1 <= f < fi && valid_index(t) && #[trigger] crate::prelegality::valid_normal(
                    pos,
                    Square { index: f as u8 },
                    Square { index: t as u8 },
                    p,
                    *setting,
                ) ==> encode(crate::prelegality::normal_move(f, t, false), side) is Some,
        decreases 82 - fi,
    {
        let from = Square { index: fi };
        let (plain, promoted) = crate::prelegality::normal_move_candidates(position, from, setting);
        let mut ti: u8 = 1;
        while ti <= 81
            invariant
                position.wf(),
                setting.wf(),
                pos == position@,
                side == pos.side,
                1 <= fi <= 81,
                from.index == fi,
                forall|i: int| plain.has(i) <==> (valid_index(i) && crate::prelegality::valid_normal(pos, from, Square { index: i as u8 }, false, *setting)),
                forall|i: int| promoted.has(i) <==> (valid_index(i) && crate::prelegality::valid_normal(pos, from, Square { index: i as u8 }, true, *setting)),
                1 <= ti <= 82,
                forall|f: int, t: int, p: bool|
                    1 <= f < fi && valid_index(t) && #[trigger] crate::prelegality::valid_normal(
                        pos,
                        Square { index: f as u8 },
                        Square { index: t as u8 },
                        p,
                        *setting,
                    ) ==> encode(crate::prelegality::normal_move(f, t, false), side) is Some,
                forall|t: int, p: bool|
                    1 <= t < ti && #[trigger] crate::prelegality::valid_normal(
                        pos,
                        Square { index: fi },
                        Square { index: t as u8 },
                        p,
                        *setting,
                    ) ==> encode(crate::prelegality::normal_move(fi as int, t, false), side) is Some,
            decreases 82 - ti,
        {
            let to = Square { index: ti };
            if plain.contains(to) || promoted.contains(to) {
                let m = Move::Normal { from, to, promote: false };
                if move_to_action_index(m, side).is_none() {
                    proof {
                        if plain.has(ti as int) {
                            assert(crate::prelegality::valid_normal(pos, Square { index: fi }, Square { index: ti }, false, *setting));
                        } else {
                            assert(crate::prelegality::valid_normal(pos, Square { index: fi }, Square { index: ti }, true, *setting));
                        }
                        assert(crate::prelegality::normal_move(fi as int, ti as int, false) == m);
                    }
                    return false;
                }
            }
            assert forall|t: int, p: bool|
                1 <= t < ti + 1 && #[trigger] crate::prelegality::valid_normal(
                    pos,
                    Square { index: fi },
                    Square { index: t as u8 },
                    p,
                    *setting,
                ) implies encode(crate::prelegality::normal_move(fi as int, t, false), side) is Some by {
                if t == ti {
                    assert(Square { index: t as u8 } == to);
                    if p {
                        assert(promoted.has(t));
                    } else {
                        assert(plain.has(t));
                    }
                }
            }
            ti = ti + 1;
        }
        fi = fi + 1;
    }
    true
}

} // verus!

verus! {

/// Who made the last move: the dropping player; for a move on the board, the side to move
/// when the move was a foul (the turn did not pass), else the other player.
pub open spec fn last_move_color(g: crate::game::GameView, mv: Move) -> Color {
    match mv {
        Move::Drop { piece, .. } => piece.color,
        Move::Normal { .. } => match g.last_info {
            Some(crate::game::Info::Foul) | Some(crate::game::Info::FoulUnderCheck) | Some(crate::game::Info::LossByFoul) => g.pos.side,
            _ => g.pos.side.spec_flip(),
        },
    }
}

/// Who made `mv`, taken as the last move of the game (see `last_move_color`).
pub fn infer_last_move_color(game: &crate::game_api::GameApi, mv: &Move) -> (r: Color)
    ensures
        r == last_move_color(game.inner@, *mv),
{
    match mv {
        Move::Drop { piece, .. } => piece.color(),
        Move::Normal { .. } => {
            let side_to_move = game.position().side_to_move();
            match game.last_info() {
                Some(crate::game::Info::Foul) | Some(crate::game::Info::FoulUnderCheck) | Some(crate::game::Info::LossByFoul) => side_to_move,
                _ => side_to_move.flip(),
            }
        },
    }
}

/// The actions that move a piece (not drop one) to the square at `file` and `rank`, in
/// increasing order; none when that is not a square.
pub fn move_action_indices_to_square(file: u8, rank: u8) -> (r: Vec<usize>)
    ensures
        on_board(file as int, rank as int) ==> r@.len() == 20 && forall|k: int|
            0 <= k < 20 ==> r@[k] == square_base(sq_index(file as int, rank as int)) + k,
        !on_board(file as int, rank as int) ==> r@.len() == 0,
{
    let mut r: Vec<usize> = Vec::new();
    if Square::new(file, rank).is_none() {
        return r;
    }
    let base = ((file as usize - 1) * 9 + (rank as usize - 1)) * ACTIONS_PER_SQUARE;
    let mut k: usize = 0;
    while k < DROP_ACTION_OFFSET
        invariant
            on_board(file as int, rank as int),
            base == square_base(sq_index(file as int, rank as int)),
            k <= 20,
            r@.len() == k,
            forall|j: int| 0 <= j < k ==> r@[j] == base + j,
        decreases 20 - k,
    {
        r.push(base + k);
        k = k + 1;
    }
    r
}

} // verus!

verus! {

/// Observation channels per player.
pub const OBSERVATION_CHANNELS_PER_SIDE: usize = 74;

/// Players observed.
pub const OBSERVATION_SIDE_COUNT: usize = 2;

/// Observation channels in all.
pub const OBSERVATION_CHANNEL_COUNT: usize = OBSERVATION_CHANNELS_PER_SIDE * OBSERVATION_SIDE_COUNT;

/// Bytes of the observation planes (16 per bitboard).
pub const OBSERVATION_BYTES: usize = OBSERVATION_CHANNEL_COUNT * 16;

/// First channel of the board: one per kind.
pub const OBS_BOARD_CHANNEL_OFFSET: usize = 0;

/// First channel of the hand: for each kind that can be held, one channel per piece up to
/// the most that can be held (pawns 18, lances, knights, silvers and golds 4, bishops and
/// rooks 2), full for each piece held.
pub const OBS_HAND_CHANNEL_OFFSET: usize = OBS_BOARD_CHANNEL_OFFSET + 14;

/// Channels of the hand.
pub const HAND_OBSERVATION_BINARY_CHANNELS: usize = 18 + 4 + 4 + 4 + 4 + 2 + 2;

/// Where the last move of a piece on the board came from.
pub const OBS_LAST_MOVE_FROM_MOVE_CHANNEL: usize = OBS_HAND_CHANNEL_OFFSET + HAND_OBSERVATION_BINARY_CHANNELS;

/// First channel of the kind dropped by the last move, one per kind.
pub const OBS_LAST_MOVE_FROM_DROP_OFFSET: usize = OBS_LAST_MOVE_FROM_MOVE_CHANNEL + 1;

/// Where the last move went.
pub const OBS_LAST_MOVE_TO_CHANNEL: usize = OBS_LAST_MOVE_FROM_DROP_OFFSET + 7;

/// First channel of the kind captured by the last move, one per kind.
pub const OBS_LAST_CAPTURE_KIND_OFFSET: usize = OBS_LAST_MOVE_TO_CHANNEL + 1;

/// Where the last capture happened.
pub const OBS_LAST_CAPTURE_POSITION_CHANNEL: usize = OBS_LAST_CAPTURE_KIND_OFFSET + 7;

/// First channel of the last info: quiet, foul, foul under check, check.
pub const OBS_LAST_INFO_OFFSET: usize = OBS_LAST_CAPTURE_POSITION_CHANNEL + 1;

/// Whether Black made the last move.
pub const OBS_COLOR_CHANNEL: usize = OBS_LAST_INFO_OFFSET + 4;

/// The kind of board channel `ch` (in the order of `PieceKind`).
pub open spec fn board_kind(ch: int) -> PieceKind {
    if ch == 0 {
        PieceKind::Pawn
    } else if ch == 1 {
        PieceKind::Lance
    } else if ch == 2 {
        PieceKind::Knight
    } else if ch == 3 {
        PieceKind::Silver
    } else if ch == 4 {
        PieceKind::Gold
    } else if ch == 5 {
        PieceKind::Bishop
    } else if ch == 6 {
        PieceKind::Rook
    } else if ch == 7 {
        PieceKind::King
    } else if ch == 8 {
        PieceKind::ProPawn
    } else if ch == 9 {
        PieceKind::ProLance
    } else if ch == 10 {
        PieceKind::ProKnight
    } else if ch == 11 {
        PieceKind::ProSilver
    } else if ch == 12 {
        PieceKind::ProBishop
    } else {
        PieceKind::ProRook
    }
}

/// Hand channel `h` (0..38): the hand slot, the piece it stands for (0-based) and the most
/// pieces of that slot observed.
pub open spec fn hand_channel(h: int) -> (int, int, int) {
    if h < 18 {
        (0, h, 18)
    } else if h < 22 {
        (1, h - 18, 4)
    } else if h < 26 {
        (2, h - 22, 4)
    } else if h < 30 {
        (3, h - 26, 4)
    } else if h < 34 {
        (4, h - 30, 4)
    } else if h < 36 {
        (5, h - 34, 2)
    } else {
        (6, h - 36, 2)
    }
}

/// The player of observation side `s` (0 Black, 1 White).
pub open spec fn side_of_index(s: int) -> Color {
    if s == 0 {
        Color::Black
    } else {
        Color::White
    }
}

/// The last move is shown to `side`: it was its own.
pub open spec fn last_move_shown(g: crate::game::GameView, side: Color) -> bool {
    g.last_move matches Some(mv) && last_move_color(g, mv) == side
}

/// Square `i` is in channel `ch` (0..74) of the observation of `side`.
pub open spec fn observed(g: crate::game::GameView, setting: Setting, side: Color, ch: int, i: int) -> bool {
    let full = setting.board_mask.has(i);
    if ch < 14 {
        valid_index(i) && g.pos.at(i) == Some(Piece { kind: board_kind(ch), color: side })
    } else if ch < 52 {
        let (slot, nth, cap) = hand_channel(ch - 14);
        let count = g.pos.hand_count(side, slot);
        full && nth < count && nth < cap
    } else if ch == 52 {
        last_move_shown(g, side) && (g.last_move->0 matches Move::Normal { from, .. } && i == from.index)
    } else if ch < 60 {
        full && last_move_shown(g, side) && (g.last_move->0 matches Move::Drop { piece, .. } && piece.kind.hand_index()
            == Some(ch - 53))
    } else if ch == 60 {
        last_move_shown(g, side) && i == g.last_move->0.spec_to().index
    } else if ch < 68 {
        full && (g.last_capture matches Some(k) && k.hand_index() == Some(ch - 61))
    } else if ch == 68 {
        g.last_capture is Some && (g.last_move matches Some(mv) && i == mv.spec_to().index)
    } else if ch == 69 {
        full && g.last_info == Some(crate::game::Info::Quiet)
    } else if ch == 70 {
        full && g.last_info == Some(crate::game::Info::Foul)
    } else if ch == 71 {
        full && g.last_info == Some(crate::game::Info::FoulUnderCheck)
    } else if ch == 72 {
        full && g.last_info == Some(crate::game::Info::Check)
    } else {
        full && (g.last_move matches Some(mv) && last_move_color(g, mv) == Color::Black)
    }
}

/// The bitboard of the whole board, or the empty one.
fn full_if(full: Bitboard, on: bool) -> (r: Bitboard)
    requires
        full.wf(),
    ensures
        r.wf(),
        forall|i: int| r.has(i) <==> (on && full.has(i)),
{
    if on {
        full
    } else {
        Bitboard::empty()
    }
}

/// Executable form of `board_kind`.
fn board_kind_of(ch: usize) -> (r: PieceKind)
    requires
        ch < 14,
    ensures
        r == board_kind(ch as int),
{
    if ch == 0 {
        PieceKind::Pawn
    } else if ch == 1 {
        PieceKind::Lance
    } else if ch == 2 {
        PieceKind::Knight
    } else if ch == 3 {
        PieceKind::Silver
    } else if ch == 4 {
        PieceKind::Gold
    } else if ch == 5 {
        PieceKind::Bishop
    } else if ch == 6 {
        PieceKind::Rook
    } else if ch == 7 {
        PieceKind::King
    } else if ch == 8 {
        PieceKind::ProPawn
    } else if ch == 9 {
        PieceKind::ProLance
    } else if ch == 10 {
        PieceKind::ProKnight
    } else if ch == 11 {
        PieceKind::ProSilver
    } else if ch == 12 {
        PieceKind::ProBishop
    } else {
        PieceKind::ProRook
    }
}

/// Executable form of `hand_channel`.
fn hand_channel_of(h: usize) -> (r: (usize, usize, usize))
    requires
        h < 38,
    ensures
        r.0 as int == hand_channel(h as int).0,
        r.1 as int == hand_channel(h as int).1,
        r.2 as int == hand_channel(h as int).2,
        r.0 < 7,
{
    if h < 18 {
        (0, h, 18)
    } else if h < 22 {
        (1, h - 18, 4)
    } else if h < 26 {
        (2, h - 22, 4)
    } else if h < 30 {
        (3, h - 26, 4)
    } else if h < 34 {
        (4, h - 30, 4)
    } else if h < 36 {
        (5, h - 34, 2)
    } else {
        (6, h - 36, 2)
    }
}

/// Channel `ch` of the observation of `side`.
fn observation_channel(game: &crate::game_api::GameApi, side: Color, ch: usize) -> (r: Bitboard)
    requires
        game.wf(),
        ch < 74,
    ensures
        r.wf(),
        forall|i: int| r.has(i) <==> observed(game.inner@, game.setting, side, ch as int, i),
{
    let position = game.position();
    let full = game.setting.board_mask;
    let last_move = game.last_move();
    let shown = match last_move {
        Some(mv) => infer_last_move_color(game, &mv) == side,
        None => false,
    };
    if ch < OBS_HAND_CHANNEL_OFFSET {
        return position.piece_bitboard(Piece::new(board_kind_of(ch), side));
    }
    if ch < OBS_LAST_MOVE_FROM_MOVE_CHANNEL {
        let (slot, nth, cap) = hand_channel_of(ch - OBS_HAND_CHANNEL_OFFSET);
        let count = match position.hand(Piece::new(PieceKind::of_hand_slot(slot), side)) {
            Some(c) => c,
            None => 0,
        };
        let held: usize = if (count as usize) < cap { count as usize } else { cap };
        return full_if(full, nth < held);
    }
    if ch == OBS_LAST_MOVE_FROM_MOVE_CHANNEL {
        if shown {
            match last_move {
                Some(Move::Normal { from, .. }) => return Bitboard::single(from),
                _ => {},
            }
        }
        return Bitboard::empty();
    }
    if ch < OBS_LAST_MOVE_TO_CHANNEL {
        let k = ch - OBS_LAST_MOVE_FROM_DROP_OFFSET;
        let dropped = match last_move {
            Some(Move::Drop { piece, .. }) => match piece.kind.hand_slot() {
                Some(s) => s == k,
                None => false,
            },
            _ => false,
        };
        return full_if(full, shown && dropped);
    }
    if ch == OBS_LAST_MOVE_TO_CHANNEL {
        if shown {
            match last_move {
                Some(mv) => return Bitboard::single(mv.to()),
                None => {},
            }
        }
        return Bitboard::empty();
    }
    if ch < OBS_LAST_CAPTURE_POSITION_CHANNEL {
        let k = ch - OBS_LAST_CAPTURE_KIND_OFFSET;
        let captured = match game.last_capture_piece_kind() {
            Some(kind) => match kind.hand_slot() {
                Some(s) => s == k,
                None => false,
            },
            None => false,
        };
        return full_if(full, captured);
    }
    if ch == OBS_LAST_CAPTURE_POSITION_CHANNEL {
        if game.last_capture_piece_kind().is_some() {
            match last_move {
                Some(mv) => return Bitboard::single(mv.to()),
                None => {},
            }
        }
        return Bitboard::empty();
    }
    let info = game.last_info();
    if ch < OBS_COLOR_CHANNEL {
        let wanted = if ch == OBS_LAST_INFO_OFFSET {
            crate::game::Info::Quiet
        } else if ch == OBS_LAST_INFO_OFFSET + 1 {
            crate::game::Info::Foul
        } else if ch == OBS_LAST_INFO_OFFSET + 2 {
            crate::game::Info::FoulUnderCheck
        } else {
            crate::game::Info::Check
        };
        let on = match info {
            Some(i) => i == wanted,
            None => false,
        };
        return full_if(full, on);
    }
    let black_moved = match last_move {
        Some(mv) => infer_last_move_color(game, &mv) == Color::Black,
        None => false,
    };
    full_if(full, black_moved)
}

/// Fills the observation planes of a game: channel `74 * s + ch` holds channel `ch` of the
/// observation of the player of side `s` (see `observed`).
pub fn fill_observations(game: &crate::game_api::GameApi, observations: &mut [Bitboard])
    requires
        game.wf(),
        old(observations)@.len() == 148,
    ensures
        final(observations)@.len() == 148,
        forall|c: int|
            0 <= c < 148 ==> (#[trigger] final(observations)@[c]).wf() && forall|i: int|
                final(observations)@[c].has(i) <==> observed(game.inner@, game.setting, side_of_index(c / 74), c % 74, i),
{
    let mut c: usize = 0;
    while c < OBSERVATION_CHANNEL_COUNT
        invariant
            game.wf(),
            observations@.len() == 148,
            c <= 148,
            forall|x: int|
                0 <= x < c ==> (#[trigger] observations@[x]).wf() && forall|i: int|
                    observations@[x].has(i) <==> observed(game.inner@, game.setting, side_of_index(x / 74), x % 74, i),
        decreases 148 - c,
    {
        let side = if c < OBSERVATION_CHANNELS_PER_SIDE { Color::Black } else { Color::White };
        let b = observation_channel(game, side, c % OBSERVATION_CHANNELS_PER_SIDE);
        observations[c] = b;
        c = c + 1;
    }
}

/// Marks with 1 the legal actions of the side to move (no history) and with 0 the others.
pub fn fill_legal_actions_mask(game: &crate::game_api::GameApi, legal_actions: &mut [u8])
    requires
        game.wf(),
        moves_encodable(game.pos(), game.setting),
        forall|a: int| selected(game.pos(), game.setting, seq![], None, a) ==> a < old(legal_actions)@.len(),
    ensures
        final(legal_actions)@.len() == old(legal_actions)@.len(),
        forall|a: int|
            0 <= a < final(legal_actions)@.len() ==> final(legal_actions)@[a] == if selected(game.pos(), game.setting, seq![], None, a) {
                1u8
            } else {
                0u8
            },
{
    let n = legal_actions.len();
    let mut i: usize = 0;
    while i < n
        invariant
            n == legal_actions@.len(),
            n == old(legal_actions)@.len(),
            i <= n,
            forall|a: int| 0 <= a < i ==> legal_actions@[a] == 0u8,
        decreases n - i,
    {
        legal_actions[i] = 0;
        i = i + 1;
    }
    let indices = legal_action_indices_for_position(game.position(), game.setting(), None);
    assert(foul_list(None) =~= seq![]);
    let mut k: usize = 0;
    while k < indices.len()
        invariant
            game.wf(),
            n == legal_actions@.len(),
            n == old(legal_actions)@.len(),
            forall|a: int| selected(game.pos(), game.setting, seq![], None, a) ==> a < n,
            forall|x: int, y: int| 0 <= x < y < indices@.len() ==> indices@[x] < indices@[y],
            forall|x: int| 0 <= x < indices@.len() ==> selected(game.pos(), game.setting, seq![], None, indices@[x] as int),
            forall|a: int| selected(game.pos(), game.setting, seq![], None, a) ==> indices@.contains(a as usize),
            k <= indices@.len(),
            forall|a: int|
                0 <= a < n ==> legal_actions@[a] == if exists|x: int| 0 <= x < k && indices@[x] == a {
                    1u8
                } else {
                    0u8
                },
        decreases indices@.len() - k,
    {
        let index = indices[k];
        legal_actions[index] = 1;
        assert forall|a: int| 0 <= a < n implies legal_actions@[a] == if exists|x: int| 0 <= x < k + 1 && indices@[x] == a {
            1u8
        } else {
            0u8
        } by {
            if a == index {
                assert(indices@[k as int] == a);
            }
        }
        k = k + 1;
    }
    assert forall|a: int| 0 <= a < n implies legal_actions@[a] == if selected(game.pos(), game.setting, seq![], None, a) {
        1u8
    } else {
        0u8
    } by {
        if selected(game.pos(), game.setting, seq![], None, a) {
            assert(indices@.contains(a as usize));
            let x = choose|x: int| 0 <= x < indices@.len() && indices@[x] == a as usize;
            assert(0 <= x < k && indices@[x] == a);
        }
    }
}

} // verus!

verus! {

/// A decoded move names squares of the board.
proof fn lemma_decoded_wf(pos: PosView, tsuitate: bool, a: int)
    requires
        decode(pos, tsuitate, a) is Some,
    ensures
        decode(pos, tsuitate, a)->0.wf(),
{
    let t = a / 27 + 1;
    let kind = a % 27;
    if kind < 20 {
        let promote = kind >= 10;
        let dir = if promote { kind - 10 } else { kind };
        let d = move_delta(dir);
        let sf = -oriented(pos.side, d.0);
        let sr = -oriented(pos.side, d.1);
        lemma_index_coords(t);
        if dir >= 8 {
            lemma_coords_index(index_file(t) + sf, index_rank(t) + sr);
        } else {
            lemma_ray_from_square(pos, index_file(t), index_rank(t), sf, sr, pos.side, tsuitate, 9);
        }
    }
}

/// The legal actions are exactly the actions of the valid moves of the side to move.
pub proof fn law_legal_actions_are_valid_moves(pos: PosView, setting: Setting, a: int)
    ensures
        legal_action(pos, setting, a) <==> exists|m: Move|
            m.wf() && valid_move(pos, m, setting) && #[trigger] encode(m, pos.side) == Some(a),
{
    if legal_action(pos, setting, a) {
        let m = decode(pos, setting.is_tsuitate, a)->0;
        lemma_decoded_wf(pos, setting.is_tsuitate, a);
        law_action_round_trip(pos, setting.is_tsuitate, a);
        assert(m.wf() && valid_move(pos, m, setting) && encode(m, pos.side) == Some(a));
    }
    if exists|m: Move| m.wf() && valid_move(pos, m, setting) && #[trigger] encode(m, pos.side) == Some(a) {
        let m = choose|m: Move| m.wf() && valid_move(pos, m, setting) && #[trigger] encode(m, pos.side) == Some(a);
        law_valid_move_decodes(pos, m, setting);
    }
}

} // verus!
