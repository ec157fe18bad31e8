//! Where a piece can move on the board, given the occupied squares.
use vstd::prelude::*;
use crate::types::{Color, PieceKind, Piece, Square, sq_index, on_board, valid_index, lemma_coords_index, lemma_index_coords, index_file, index_rank};
use crate::bitboard::Bitboard;
use crate::setting::{GameKind, Setting};
use crate::position::{PartialPosition, PosView};

verus! {

/// The square `(f + df, r + dr)` is on the board and has index `i`.
pub open spec fn near(f: int, r: int, df: int, dr: int, i: int) -> bool {
    on_board(f + df, r + dr) && i == sq_index(f + df, r + dr)
}

/// The rank step of moving forward for `color`.
pub open spec fn forward(color: Color) -> int {
    match color {
        Color::Black => -1,
        Color::White => 1,
    }
}

/// The eight neighbours.
pub open spec fn king_attacks(f: int, r: int, i: int) -> bool {
    ||| near(f, r, -1, -1, i)
    ||| near(f, r, -1, 0, i)
    ||| near(f, r, -1, 1, i)
    ||| near(f, r, 0, -1, i)
    ||| near(f, r, 0, 1, i)
    ||| near(f, r, 1, -1, i)
    ||| near(f, r, 1, 0, i)
    ||| near(f, r, 1, 1, i)
}

/// Silver: forward and the four diagonals; in dobutsu shogi (elephant) the four diagonals.
pub open spec fn silver_attacks(color: Color, f: int, r: int, gk: GameKind, i: int) -> bool {
    ||| gk == GameKind::Shogi && near(f, r, 0, forward(color), i)
    ||| near(f, r, -1, -1, i)
    ||| near(f, r, -1, 1, i)
    ||| near(f, r, 1, -1, i)
    ||| near(f, r, 1, 1, i)
}

/// Gold: the four orthogonal neighbours and the two forward diagonals; in dobutsu shogi
/// (giraffe) the four orthogonal neighbours.
pub open spec fn gold_attacks(color: Color, f: int, r: int, gk: GameKind, i: int) -> bool {
    ||| near(f, r, 0, -1, i)
    ||| near(f, r, 0, 1, i)
    ||| near(f, r, -1, 0, i)
    ||| near(f, r, 1, 0, i)
    ||| gk == GameKind::Shogi && near(f, r, -1, forward(color), i)
    ||| gk == GameKind::Shogi && near(f, r, 1, forward(color), i)
}

/// Knight: two ranks forward and one file aside, unless fewer than three ranks lie ahead.
pub open spec fn knight_attacks(color: Color, f: int, r: int, i: int) -> bool {
    let ahead = match color {
        Color::Black => r,
        Color::White => 10 - r,
    };
    ahead > 2 && (near(f, r, -1, 2 * forward(color), i) || near(f, r, 1, 2 * forward(color), i))
}

/// Pawn: the square whose index is one less (Black) or one more (White).
/// On the last rank this index belongs to the neighbouring file.
pub open spec fn pawn_attacks(color: Color, from: int, i: int) -> bool {
    match color {
        Color::Black => from > 1 && i == from - 1,
        Color::White => from < 81 && i == from + 1,
    }
}

/// Sliding from `(f, r)` in direction `(df, dr)` for at most `fuel` steps reaches the
/// square `i`: every square before it on the way is vacant in `occ`.
pub open spec fn ray(f: int, r: int, df: int, dr: int, occ: spec_fn(int) -> bool, i: int, fuel: nat) -> bool
    decreases fuel,
{
    if fuel == 0 {
        false
    } else {
        let nf = f + df;
        let nr = r + dr;
        on_board(nf, nr) && (i == sq_index(nf, nr) || (!occ(sq_index(nf, nr)) && ray(
            nf,
            nr,
            df,
            dr,
            occ,
            i,
            (fuel - 1) as nat,
        )))
    }
}

/// A full slide in one direction.
pub open spec fn slide(f: int, r: int, df: int, dr: int, occ: spec_fn(int) -> bool, i: int) -> bool {
    ray(f, r, df, dr, occ, i, 9)
}

pub open spec fn lance_attacks(color: Color, f: int, r: int, occ: spec_fn(int) -> bool, i: int) -> bool {
    slide(f, r, 0, forward(color), occ, i)
}

pub open spec fn bishop_attacks(f: int, r: int, occ: spec_fn(int) -> bool, i: int) -> bool {
    ||| slide(f, r, 1, -1, occ, i)
    ||| slide(f, r, 1, 1, occ, i)
    ||| slide(f, r, -1, -1, occ, i)
    ||| slide(f, r, -1, 1, occ, i)
}

pub open spec fn rook_attacks(f: int, r: int, occ: spec_fn(int) -> bool, i: int) -> bool {
    ||| slide(f, r, 0, -1, occ, i)
    ||| slide(f, r, 0, 1, occ, i)
    ||| slide(f, r, 1, 0, occ, i)
    ||| slide(f, r, -1, 0, occ, i)
}

/// The squares a piece of `kind` and `color` on `(f, r)` attacks when `occ` blocks sliding
/// pieces. Promoted pawns, lances, knights and silvers move like a shogi gold whatever the
/// game kind; promoted bishops and rooks add the king's steps.
pub open spec fn attacks(kind: PieceKind, color: Color, f: int, r: int, gk: GameKind, occ: spec_fn(int) -> bool, i: int) -> bool {
    match kind {
        PieceKind::Pawn => pawn_attacks(color, sq_index(f, r), i),
        PieceKind::Lance => lance_attacks(color, f, r, occ, i),
        PieceKind::Knight => knight_attacks(color, f, r, i),
        PieceKind::Silver => silver_attacks(color, f, r, gk, i),
        PieceKind::Gold => gold_attacks(color, f, r, gk, i),
        PieceKind::Bishop => bishop_attacks(f, r, occ, i),
        PieceKind::Rook => rook_attacks(f, r, occ, i),
        PieceKind::King => king_attacks(f, r, i),
        PieceKind::ProBishop => bishop_attacks(f, r, occ, i) || king_attacks(f, r, i),
        PieceKind::ProRook => rook_attacks(f, r, occ, i) || king_attacks(f, r, i),
        _ => gold_attacks(color, f, r, GameKind::Shogi, i),
    }
}

/// Adds `(f + df, r + dr)` when it is on the board.
fn add_near(bb: Bitboard, f: u8, r: u8, df: i8, dr: i8) -> (out: Bitboard)
    requires
        bb.wf(),
        1 <= f <= 9,
        1 <= r <= 9,
        -2 <= df <= 2,
        -2 <= dr <= 2,
    ensures
        out.wf(),
        forall|i: int| out.has(i) <==> (bb.has(i) || near(f as int, r as int, df as int, dr as int, i)),
{
    let nf = f as i8 + df;
    let nr = r as i8 + dr;
    if 1 <= nf && nf <= 9 && 1 <= nr && nr <= 9 {
        proof {
            lemma_coords_index(nf as int, nr as int);
        }
        bb.with(Square { index: (nf * 9 + nr - 9) as u8 })
    } else {
        bb
    }
}

/// The squares attacked by a pawn standing on `from`.
pub fn pawn(color: Color, from: Square) -> (r: Bitboard)
    requires
        from.wf(),
    ensures
        r.wf(),
        forall|i: int| r.has(i) <==> pawn_attacks(color, from.index as int, i),
{
    let index = from.index;
    match color {
        Color::Black => {
            if index > 1 {
                Bitboard::single(Square { index: index - 1 })
            } else {
                Bitboard::empty()
            }
        },
        Color::White => {
            if index < 81 {
                Bitboard::single(Square { index: index + 1 })
            } else {
                Bitboard::empty()
            }
        },
    }
}

/// The squares attacked by a knight on `(file, rank)`.
pub fn knight(color: Color, file: u8, rank: u8) -> (r: Bitboard)
    requires
        1 <= file <= 9,
        1 <= rank <= 9,
    ensures
        r.wf(),
        forall|i: int| r.has(i) <==> knight_attacks(color, file as int, rank as int, i),
{
    let rrank = match color {
        Color::Black => rank,
        Color::White => 10 - rank,
    };
    if rrank <= 2 {
        return Bitboard::empty();
    }
    let dr: i8 = match color {
        Color::Black => -2,
        Color::White => 2,
    };
    let result = add_near(Bitboard::empty(), file, rank, -1, dr);
    add_near(result, file, rank, 1, dr)
}

fn forward_step(color: Color) -> (r: i8)
    ensures
        r == forward(color),
{
    match color {
        Color::Black => -1,
        Color::White => 1,
    }
}

/// The squares attacked by a silver (elephant in dobutsu shogi).
pub fn silver(color: Color, file: u8, rank: u8, game_kind: GameKind) -> (r: Bitboard)
    requires
        1 <= file <= 9,
        1 <= rank <= 9,
    ensures
        r.wf(),
        forall|i: int| r.has(i) <==> silver_attacks(color, file as int, rank as int, game_kind, i),
{
    let mut result = Bitboard::empty();
    if game_kind == GameKind::Shogi {
        result = add_near(result, file, rank, 0, forward_step(color));
    }
    result = add_near(result, file, rank, -1, -1);
    result = add_near(result, file, rank, -1, 1);
    result = add_near(result, file, rank, 1, -1);
    add_near(result, file, rank, 1, 1)
}

/// The squares attacked by a gold (giraffe in dobutsu shogi).
pub fn gold(color: Color, file: u8, rank: u8, game_kind: GameKind) -> (r: Bitboard)
    requires
        1 <= file <= 9,
        1 <= rank <= 9,
    ensures
        r.wf(),
        forall|i: int| r.has(i) <==> gold_attacks(color, file as int, rank as int, game_kind, i),
{
    let mut result = add_near(Bitboard::empty(), file, rank, 0, -1);
    result = add_near(result, file, rank, 0, 1);
    result = add_near(result, file, rank, -1, 0);
    result = add_near(result, file, rank, 1, 0);
    if game_kind == GameKind::Shogi {
        let fwd = forward_step(color);
        result = add_near(result, file, rank, -1, fwd);
        result = add_near(result, file, rank, 1, fwd);
    }
    result
}

/// The squares attacked by a king on `(file, rank)`.
pub fn king(file: u8, rank: u8) -> (r: Bitboard)
    requires
        1 <= file <= 9,
        1 <= rank <= 9,
    ensures
        r.wf(),
        forall|i: int| r.has(i) <==> king_attacks(file as int, rank as int, i),
{
    let mut result = add_near(Bitboard::empty(), file, rank, -1, -1);
    result = add_near(result, file, rank, -1, 0);
    result = add_near(result, file, rank, -1, 1);
    result = add_near(result, file, rank, 0, -1);
    result = add_near(result, file, rank, 0, 1);
    result = add_near(result, file, rank, 1, -1);
    result = add_near(result, file, rank, 1, 0);
    add_near(result, file, rank, 1, 1)
}

/// Slides from `(file, rank)` in direction `(df, dr)` for at most `fuel` steps, up to and
/// including the first square occupied in `occupied`.
fn long_range(file: u8, rank: u8, occupied: Bitboard, df: i8, dr: i8, fuel: u8) -> (r: Bitboard)
    requires
        occupied.wf(),
        1 <= file <= 9,
        1 <= rank <= 9,
        -1 <= df <= 1,
        -1 <= dr <= 1,
    ensures
        r.wf(),
        forall|i: int| r.has(i) <==> ray(file as int, rank as int, df as int, dr as int, |j: int| occupied.has(j), i, fuel as nat),
    decreases fuel,
{
    if fuel == 0 {
        return Bitboard::empty();
    }
    let nf = file as i8 + df;
    let nr = rank as i8 + dr;
    if !(1 <= nf && nf <= 9 && 1 <= nr && nr <= 9) {
        return Bitboard::empty();
    }
    proof {
        lemma_coords_index(nf as int, nr as int);
    }
    let next = Square { index: (nf * 9 + nr - 9) as u8 };
    if occupied.contains(next) {
        Bitboard::single(next)
    } else {
        let rest = long_range(nf as u8, nr as u8, occupied, df, dr, fuel - 1);
        rest.with(next)
    }
}

/// The squares a lance of `color` on `(file, rank)` attacks.
pub fn lance_range(color: Color, file: u8, rank: u8, occupied: Bitboard) -> (r: Bitboard)
    requires
        occupied.wf(),
        1 <= file <= 9,
        1 <= rank <= 9,
    ensures
        r.wf(),
        forall|i: int| r.has(i) <==> lance_attacks(color, file as int, rank as int, |j: int| occupied.has(j), i),
{
    long_range(file, rank, occupied, 0, forward_step(color), 9)
}

/// The squares a bishop on `(file, rank)` attacks.
pub fn bishop_range(file: u8, rank: u8, occupied: Bitboard) -> (r: Bitboard)
    requires
        occupied.wf(),
        1 <= file <= 9,
        1 <= rank <= 9,
    ensures
        r.wf(),
        forall|i: int| r.has(i) <==> bishop_attacks(file as int, rank as int, |j: int| occupied.has(j), i),
{
    let result = long_range(file, rank, occupied, 1, -1, 9).or(long_range(file, rank, occupied, 1, 1, 9));
    let result = result.or(long_range(file, rank, occupied, -1, -1, 9));
    result.or(long_range(file, rank, occupied, -1, 1, 9))
}

/// The squares a rook on `(file, rank)` attacks.
pub fn rook_range(file: u8, rank: u8, occupied: Bitboard) -> (r: Bitboard)
    requires
        occupied.wf(),
        1 <= file <= 9,
        1 <= rank <= 9,
    ensures
        r.wf(),
        forall|i: int| r.has(i) <==> rook_attacks(file as int, rank as int, |j: int| occupied.has(j), i),
{
    let result = long_range(file, rank, occupied, 0, -1, 9).or(long_range(file, rank, occupied, 0, 1, 9));
    let result = result.or(long_range(file, rank, occupied, 1, 0, 9));
    result.or(long_range(file, rank, occupied, -1, 0, 9))
}

/// The squares a short-range piece attacks.
fn short_range(piece: Piece, file: u8, rank: u8, game_kind: GameKind) -> (r: Bitboard)
    requires
        1 <= file <= 9,
        1 <= rank <= 9,
        !(piece.kind is Lance || piece.kind is Bishop || piece.kind is Rook || piece.kind is ProBishop
            || piece.kind is ProRook),
    ensures
        r.wf(),
        forall|i: int| r.has(i) <==> attacks(piece.kind, piece.color, file as int, rank as int, game_kind, |j: int| false, i),
{
    match piece.kind {
        PieceKind::Pawn => {
            proof {
                lemma_coords_index(file as int, rank as int);
            }
            pawn(piece.color, Square { index: file * 9 + rank - 9 })
        },
        PieceKind::Knight => knight(piece.color, file, rank),
        PieceKind::Silver => silver(piece.color, file, rank, game_kind),
        PieceKind::Gold => gold(piece.color, file, rank, game_kind),
        PieceKind::King => king(file, rank),
        _ => gold(piece.color, file, rank, GameKind::Shogi),
    }
}

/// The squares of a long-range piece's attack do not depend on anything but `occ` for sliding.
proof fn lemma_short_ignores_occ(kind: PieceKind, color: Color, f: int, r: int, gk: GameKind, occ: spec_fn(int) -> bool, i: int)
    requires
        !(kind is Lance || kind is Bishop || kind is Rook || kind is ProBishop || kind is ProRook),
    ensures
        attacks(kind, color, f, r, gk, occ, i) == attacks(kind, color, f, r, gk, |j: int| false, i),
{
}

/// Where `piece` on `(file, rank)` can move, ignoring promotion and king safety:
/// its attacked squares (sliding stops at squares of `occupied`) minus squares holding
/// pieces of its own color.
pub fn from_candidates_without_assertion(
    occupied: Bitboard,
    position: &PartialPosition,
    piece: Piece,
    file: u8,
    rank: u8,
    game_kind: GameKind,
) -> (r: Bitboard)
    requires
        occupied.wf(),
        position.wf(),
        1 <= file <= 9,
        1 <= rank <= 9,
    ensures
        r.wf(),
        forall|i: int| r.has(i) <==> (attacks(piece.kind, piece.color, file as int, rank as int, game_kind, |j: int| occupied.has(j), i)
            && !position@.owned_by(i, piece.color)),
{
    let own = position.player_bitboard(piece.color);
    let range = match piece.kind {
        PieceKind::Lance => lance_range(piece.color, file, rank, occupied),
        PieceKind::Bishop => bishop_range(file, rank, occupied),
        PieceKind::Rook => rook_range(file, rank, occupied),
        PieceKind::ProBishop => bishop_range(file, rank, occupied).or(king(file, rank)),
        PieceKind::ProRook => rook_range(file, rank, occupied).or(king(file, rank)),
        _ => {
            let r = short_range(piece, file, rank, game_kind);
            proof {
                assert forall|i: int| r.has(i) == attacks(piece.kind, piece.color, file as int, rank as int, game_kind, |j: int| occupied.has(j), i) by {
                    lemma_short_ignores_occ(piece.kind, piece.color, file as int, rank as int, game_kind, |j: int| occupied.has(j), i);
                }
            }
            r
        },
    };
    range.minus(own)
}

/// `m` steps of `d`, a step of -1, 0 or 1.
pub open spec fn steps_of(m: int, d: int) -> int {
    if d == 1 {
        m
    } else if d == -1 {
        -m
    } else {
        0
    }
}

/// The index of the square `m` steps from `(f, r)` in direction `(df, dr)`.
pub open spec fn step_sq(f: int, r: int, df: int, dr: int, m: int) -> int {
    sq_index(f + steps_of(m, df), r + steps_of(m, dr))
}

/// The square `m` steps from `(f, r)` in direction `(df, dr)` lies on the board.
pub open spec fn step_on(f: int, r: int, df: int, dr: int, m: int) -> bool {
    on_board(f + steps_of(m, df), r + steps_of(m, dr))
}

/// A step of -1, 0 or 1.
pub open spec fn unit(d: int) -> bool {
    d == -1 || d == 0 || d == 1
}

/// A slide from `(f, r)` in direction `(df, dr)` ends on square `i` after `n` steps: every
/// square passed before lies on the board and is vacant in `occ`.
pub open spec fn ray_end(f: int, r: int, df: int, dr: int, occ: spec_fn(int) -> bool, i: int, n: int) -> bool {
    &&& step_on(f, r, df, dr, n)
    &&& i == step_sq(f, r, df, dr, n)
    &&& forall|m: int| 1 <= m < n ==> step_on(f, r, df, dr, m) && !occ(#[trigger] step_sq(f, r, df, dr, m))
}

/// A slide reaches `i` exactly when it ends there after at most `fuel` steps.
pub proof fn lemma_ray_end(f: int, r: int, df: int, dr: int, occ: spec_fn(int) -> bool, i: int, fuel: nat)
    requires
        unit(df),
        unit(dr),
    ensures
        ray(f, r, df, dr, occ, i, fuel) <==> exists|n: int| 1 <= n <= fuel && #[trigger] ray_end(f, r, df, dr, occ, i, n),
    decreases fuel,
{
    if fuel > 0 {
        let nf = f + df;
        let nr = r + dr;
        lemma_ray_end(nf, nr, df, dr, occ, i, (fuel - 1) as nat);
        assert forall|m: int| #[trigger] step_sq(nf, nr, df, dr, m) == step_sq(f, r, df, dr, m + 1)
            && step_on(nf, nr, df, dr, m) == step_on(f, r, df, dr, m + 1) by {}
        if ray(f, r, df, dr, occ, i, fuel) {
            if i == sq_index(nf, nr) {
                assert(step_sq(f, r, df, dr, 1) == sq_index(nf, nr));
                assert(ray_end(f, r, df, dr, occ, i, 1));
            } else {
                let n = choose|n: int| 1 <= n <= fuel - 1 && #[trigger] ray_end(nf, nr, df, dr, occ, i, n);
                assert(step_sq(f, r, df, dr, n + 1) == step_sq(nf, nr, df, dr, n));
                assert forall|m: int| 1 <= m < n + 1 implies step_on(f, r, df, dr, m) && !occ(#[trigger] step_sq(f, r, df, dr, m)) by {
                    if m == 1 {
                        assert(step_sq(f, r, df, dr, 1) == sq_index(nf, nr));
                    } else {
                        assert(step_sq(f, r, df, dr, m) == step_sq(nf, nr, df, dr, m - 1));
                    }
                }
                assert(ray_end(f, r, df, dr, occ, i, n + 1));
            }
        }
        if exists|n: int| 1 <= n <= fuel && #[trigger] ray_end(f, r, df, dr, occ, i, n) {
            let n = choose|n: int| 1 <= n <= fuel && #[trigger] ray_end(f, r, df, dr, occ, i, n);
            assert(step_sq(f, r, df, dr, 1) == sq_index(nf, nr));
            if n > 1 {
                assert(step_sq(f, r, df, dr, 1) == sq_index(nf, nr));
                assert(!occ(step_sq(f, r, df, dr, 1)));
                assert(step_sq(nf, nr, df, dr, n - 1) == step_sq(f, r, df, dr, n));
                assert forall|m: int| 1 <= m < n - 1 implies step_on(nf, nr, df, dr, m) && !occ(#[trigger] step_sq(nf, nr, df, dr, m)) by {
                    assert(step_sq(f, r, df, dr, m + 1) == step_sq(nf, nr, df, dr, m));
                }
                assert(ray_end(nf, nr, df, dr, occ, i, n - 1));
            }
        }
    }
}

/// A slide that ends on `i` after `n` steps, taken back from `i` the other way, ends where
/// it started after the same number of steps.
pub proof fn lemma_ray_end_reverse(f: int, r: int, df: int, dr: int, occ: spec_fn(int) -> bool, i: int, n: int)
    requires
        unit(df),
        unit(dr),
        on_board(f, r),
        1 <= n,
        ray_end(f, r, df, dr, occ, i, n),
    ensures
        ray_end(index_file(i), index_rank(i), -df, -dr, occ, sq_index(f, r), n),
{
    let fi = f + steps_of(n, df);
    let ri = r + steps_of(n, dr);
    lemma_coords_index(fi, ri);
    assert(index_file(i) == fi && index_rank(i) == ri);
    assert forall|m: int| #[trigger] step_sq(fi, ri, -df, -dr, m) == step_sq(f, r, df, dr, n - m)
        && step_on(fi, ri, -df, -dr, m) == step_on(f, r, df, dr, n - m) by {}
    assert(step_sq(f, r, df, dr, 0) == sq_index(f, r));
    assert forall|m: int| 1 <= m < n implies step_on(fi, ri, -df, -dr, m) && !occ(#[trigger] step_sq(fi, ri, -df, -dr, m)) by {
        assert(step_sq(f, r, df, dr, n - m) == step_sq(fi, ri, -df, -dr, m));
    }
}

/// A slide from `(f, r)` reaches square `i` exactly when a slide the other way from `i`
/// reaches `(f, r)`.
pub proof fn lemma_slide_reverse(f: int, r: int, df: int, dr: int, occ: spec_fn(int) -> bool, i: int)
    requires
        unit(df),
        unit(dr),
        on_board(f, r),
        valid_index(i),
    ensures
        slide(f, r, df, dr, occ, i) <==> slide(index_file(i), index_rank(i), -df, -dr, occ, sq_index(f, r)),
{
    let fi = index_file(i);
    let ri = index_rank(i);
    let k = sq_index(f, r);
    lemma_index_coords(i);
    lemma_coords_index(f, r);
    lemma_ray_end(f, r, df, dr, occ, i, 9);
    lemma_ray_end(fi, ri, -df, -dr, occ, k, 9);
    if slide(f, r, df, dr, occ, i) {
        let n = choose|n: int| 1 <= n <= 9 && #[trigger] ray_end(f, r, df, dr, occ, i, n);
        lemma_ray_end_reverse(f, r, df, dr, occ, i, n);
        assert(ray_end(fi, ri, -df, -dr, occ, k, n));
    }
    if slide(fi, ri, -df, -dr, occ, k) {
        let n = choose|n: int| 1 <= n <= 9 && #[trigger] ray_end(fi, ri, -df, -dr, occ, k, n);
        lemma_ray_end_reverse(fi, ri, -df, -dr, occ, k, n);
        assert(-(-df) == df && -(-dr) == dr);
        assert(ray_end(f, r, df, dr, occ, i, n));
    }
}

/// A step from `(kf, kr)` lands on square `i` exactly when the opposite step from `i` lands
/// on `(kf, kr)`.
pub proof fn lemma_near_swap(kf: int, kr: int, df: int, dr: int, i: int)
    requires
        on_board(kf, kr),
        valid_index(i),
    ensures
        near(kf, kr, df, dr, i) <==> near(index_file(i), index_rank(i), -df, -dr, sq_index(kf, kr)),
{
    let fi = index_file(i);
    let ri = index_rank(i);
    lemma_index_coords(i);
    lemma_coords_index(kf, kr);
    if near(kf, kr, df, dr, i) {
        lemma_coords_index(kf + df, kr + dr);
    }
    if near(fi, ri, -df, -dr, sq_index(kf, kr)) {
        lemma_coords_index(fi - df, ri - dr);
    }
}

/// A piece of the other color standing on `(kf, kr)` attacks square `i` exactly when a piece
/// of the same kind of `color` on `i` attacks `(kf, kr)`: the moves of every kind, turned
/// around, are the moves of that kind for the other side.
pub proof fn lemma_attacks_reverse(
    kind: PieceKind,
    color: Color,
    kf: int,
    kr: int,
    gk: GameKind,
    occ: spec_fn(int) -> bool,
    i: int,
)
    requires
        on_board(kf, kr),
        valid_index(i),
    ensures
        attacks(kind, color.spec_flip(), kf, kr, gk, occ, i) <==> attacks(
            kind,
            color,
            index_file(i),
            index_rank(i),
            gk,
            occ,
            sq_index(kf, kr),
        ),
{
    let fi = index_file(i);
    let ri = index_rank(i);
    lemma_index_coords(i);
    lemma_coords_index(kf, kr);
    lemma_near_swap(kf, kr, -1, -1, i);
    lemma_near_swap(kf, kr, -1, 0, i);
    lemma_near_swap(kf, kr, -1, 1, i);
    lemma_near_swap(kf, kr, 0, -1, i);
    lemma_near_swap(kf, kr, 0, 1, i);
    lemma_near_swap(kf, kr, 1, -1, i);
    lemma_near_swap(kf, kr, 1, 0, i);
    lemma_near_swap(kf, kr, 1, 1, i);
    lemma_near_swap(kf, kr, -1, -2, i);
    lemma_near_swap(kf, kr, 1, -2, i);
    lemma_near_swap(kf, kr, -1, 2, i);
    lemma_near_swap(kf, kr, 1, 2, i);
    lemma_slide_reverse(kf, kr, 0, -1, occ, i);
    lemma_slide_reverse(kf, kr, 0, 1, occ, i);
    lemma_slide_reverse(kf, kr, 1, 0, occ, i);
    lemma_slide_reverse(kf, kr, -1, 0, occ, i);
    lemma_slide_reverse(kf, kr, 1, -1, occ, i);
    lemma_slide_reverse(kf, kr, 1, 1, occ, i);
    lemma_slide_reverse(kf, kr, -1, -1, occ, i);
    lemma_slide_reverse(kf, kr, -1, 1, occ, i);
    assert(sq_index(fi, ri) == i);
}

/// Fewer blockers never shorten a slide.
pub proof fn lemma_ray_fewer_blockers(
    f: int,
    r: int,
    df: int,
    dr: int,
    occ1: spec_fn(int) -> bool,
    occ2: spec_fn(int) -> bool,
    i: int,
    fuel: nat,
)
    requires
        forall|j: int| #[trigger] occ2(j) ==> occ1(j),
    ensures
        ray(f, r, df, dr, occ1, i, fuel) ==> ray(f, r, df, dr, occ2, i, fuel),
    decreases fuel,
{
    if fuel > 0 {
        lemma_ray_fewer_blockers(f + df, r + dr, df, dr, occ1, occ2, i, (fuel - 1) as nat);
    }
}

/// Fewer blockers never take a square out of a piece's reach.
pub proof fn lemma_attacks_fewer_blockers(
    kind: PieceKind,
    color: Color,
    f: int,
    r: int,
    gk: GameKind,
    occ1: spec_fn(int) -> bool,
    occ2: spec_fn(int) -> bool,
    i: int,
)
    requires
        forall|j: int| #[trigger] occ2(j) ==> occ1(j),
    ensures
        attacks(kind, color, f, r, gk, occ1, i) ==> attacks(kind, color, f, r, gk, occ2, i),
{
    lemma_ray_fewer_blockers(f, r, 0, -1, occ1, occ2, i, 9);
    lemma_ray_fewer_blockers(f, r, 0, 1, occ1, occ2, i, 9);
    lemma_ray_fewer_blockers(f, r, 1, 0, occ1, occ2, i, 9);
    lemma_ray_fewer_blockers(f, r, -1, 0, occ1, occ2, i, 9);
    lemma_ray_fewer_blockers(f, r, 1, -1, occ1, occ2, i, 9);
    lemma_ray_fewer_blockers(f, r, 1, 1, occ1, occ2, i, 9);
    lemma_ray_fewer_blockers(f, r, -1, -1, occ1, occ2, i, 9);
    lemma_ray_fewer_blockers(f, r, -1, 1, occ1, occ2, i, 9);
    lemma_ray_fewer_blockers(f, r, 0, forward(color), occ1, occ2, i, 9);
}

/// The blockers used for `piece`'s sliding: only its own pieces in tsuitate (the
/// opponent's are hidden), every piece otherwise.
pub open spec fn blockers(pos: PosView, color: Color, tsuitate: bool, i: int) -> bool {
    if tsuitate {
        pos.owned_by(i, color)
    } else {
        pos.occupied(i)
    }
}

/// The destinations of `piece` standing on `from` in `setting`: squares of the board it
/// attacks (sliding blocked by `blockers`) that do not hold a piece of its own color.
pub open spec fn candidate(pos: PosView, piece: Piece, from: Square, setting: Setting, i: int) -> bool {
    &&& setting.board_mask.has(i)
    &&& !pos.owned_by(i, piece.color)
    &&& attacks(
        piece.kind,
        piece.color,
        from.spec_file(),
        from.spec_rank(),
        setting.game_kind,
        |j: int| blockers(pos, piece.color, setting.is_tsuitate, j),
        i,
    )
}

/// Where `piece`, standing on `from`, can move in `setting` (promotion and king safety aside).
pub fn from_candidates(position: &PartialPosition, piece: Piece, from: Square, setting: &Setting) -> (r: Bitboard)
    requires
        position.wf(),
        from.wf(),
        setting.wf(),
    ensures
        r.wf(),
        forall|i: int| r.has(i) <==> candidate(position@, piece, from, *setting, i),
{
    let file = from.file();
    let rank = from.rank();
    let occupied = if setting.is_tsuitate {
        position.player_bitboard(piece.color)
    } else {
        position.occupied_bitboard()
    };
    let r = from_candidates_without_assertion(occupied, position, piece, file, rank, setting.game_kind).and(
        setting.board_mask,
    );
    proof {
        assert((|j: int| occupied.has(j)) =~= (|j: int| blockers(position@, piece.color, setting.is_tsuitate, j)));
    }
    r
}

/// Whether `piece` on `from` can move to `to` (promotion and king safety aside).
pub fn check(position: &PartialPosition, piece: Piece, from: Square, to: Square, setting: &Setting) -> (r: bool)
    requires
        position.wf(),
        from.wf(),
        to.wf(),
        setting.wf(),
    ensures
        r == candidate(position@, piece, from, *setting, to.index as int),
{
    let attacking = from_candidates(position, piece, from, setting);
    attacking.contains(to)
}

} // verus!
