//! Validity of moves (king safety aside), candidate destinations, checks and mates.
use vstd::prelude::*;
use crate::types::{Color, PieceKind, Piece, Square, Move, sq_index, on_board, valid_index, index_file, index_rank, lemma_index_coords, lemma_coords_index};
use crate::bitboard::Bitboard;
use crate::setting::{GameKind, Setting};
use crate::position::{PartialPosition, PosView};
use crate::normal::{
    attacks, candidate, king_attacks, lance_attacks, knight_attacks, bishop_attacks, rook_attacks,
    from_candidates, from_candidates_without_assertion, check, king, lance_range, knight, bishop_range,
    rook_range,
};

verus! {

/// The rank of square `i` counted from `color`'s side of a board with `ranks` ranks.
pub open spec fn rel_rank(i: int, color: Color, ranks: u8) -> int {
    match color {
        Color::Black => index_rank(i),
        Color::White => ranks - index_rank(i) + 1,
    }
}

/// The depth of the promotion zone for `kind`: a knight's zone is at least two ranks.
pub open spec fn zone_of(kind: PieceKind, promotion_ranks: u8) -> int {
    let z: u8 = if kind == PieceKind::Knight && promotion_ranks < 2 {
        2
    } else {
        promotion_ranks
    };
    (z as i8) as int
}

/// A piece of `kind` may arrive unpromoted on relative rank `to_rel`: in shogi a pawn,
/// lance or knight may not stop on the last rank, nor a knight on the last two.
pub open spec fn plain_allowed(kind: PieceKind, to_rel: int, gk: GameKind) -> bool {
    !(gk == GameKind::Shogi && ((to_rel == 1 && (kind == PieceKind::Pawn || kind == PieceKind::Lance
        || kind == PieceKind::Knight)) || (to_rel == 2 && kind == PieceKind::Knight)))
}

/// A piece of `kind` may promote when it can and it starts or ends inside its zone.
pub open spec fn promotion_allowed(kind: PieceKind, from_rel: int, to_rel: int, zone: int) -> bool {
    kind.spec_promote() is Some && (from_rel <= zone || to_rel <= zone)
}

/// The promotion options `(unpromoted allowed, promoted allowed)` of moving `piece` from
/// `from` to `to`.
pub open spec fn spec_promotion_options(piece: Piece, from: int, to: int, setting: Setting) -> (bool, bool) {
    let rank = rel_rank(to, piece.color, setting.ranks);
    (
        plain_allowed(piece.kind, rank, setting.game_kind),
        promotion_allowed(piece.kind, rel_rank(from, piece.color, setting.ranks), rank, zone_of(piece.kind, setting.promotion_ranks)),
    )
}

/// Relative rank of a square for `color`.
fn relative_rank(square: Square, color: Color, setting: &Setting) -> (r: i8)
    requires
        square.wf(),
        setting.wf(),
    ensures
        r == rel_rank(square.index as int, color, setting.ranks),
{
    let rank = square.rank();
    match color {
        Color::Black => rank as i8,
        Color::White => setting.ranks as i8 - rank as i8 + 1,
    }
}

/// Whether a move of `piece` from `from` to `to` may end unpromoted, and whether it may promote.
fn promotion_options(piece: Piece, from: Square, to: Square, setting: &Setting) -> (r: (bool, bool))
    requires
        from.wf(),
        to.wf(),
        setting.wf(),
    ensures
        r == spec_promotion_options(piece, from.index as int, to.index as int, *setting),
{
    let rank = relative_rank(to, piece.color, setting);
    let kind = piece.kind;
    let stuck = setting.game_kind == GameKind::Shogi && ((rank == 1 && (kind.same(PieceKind::Pawn)
        || kind.same(PieceKind::Lance) || kind.same(PieceKind::Knight))) || (rank == 2 && kind.same(
        PieceKind::Knight,
    )));
    let allow_plain = !stuck;
    let zone = if kind.same(PieceKind::Knight) && setting.promotion_ranks < 2 {
        2u8
    } else {
        setting.promotion_ranks
    } as i8;
    let allow_promoted = kind.promote().is_some() && (relative_rank(from, piece.color, setting) <= zone
        || rank <= zone);
    (allow_plain, allow_promoted)
}

/// A normal move is valid (king safety aside): it starts on the board from a piece of the
/// side to move, does not land on an own piece (nor capture a king outside tsuitate),
/// its promotion choice is allowed, and the piece can reach the destination.
pub open spec fn valid_normal(pos: PosView, from: Square, to: Square, promote: bool, setting: Setting) -> bool {
    &&& setting.board_mask.has(from.index as int)
    &&& match pos.at(from.index as int) {
        Some(p) => {
            &&& p.color == pos.side
            &&& match pos.at(to.index as int) {
                Some(x) => x.color != pos.side && (setting.is_tsuitate || x.kind != PieceKind::King),
                None => true,
            }
            &&& if promote {
                spec_promotion_options(p, from.index as int, to.index as int, setting).1
            } else {
                spec_promotion_options(p, from.index as int, to.index as int, setting).0
            }
            &&& candidate(pos, p, from, setting, to.index as int)
        },
        None => false,
    }
}

/// Checks a normal move as `is_valid` does.
pub fn is_valid_normal(position: &PartialPosition, from: Square, to: Square, promote: bool, setting: &Setting) -> (r: bool)
    requires
        position.wf(),
        from.wf(),
        to.wf(),
        setting.wf(),
    ensures
        r == valid_normal(position@, from, to, promote, *setting),
{
    let side = position.side;
    if !setting.board_mask.contains(from) {
        return false;
    }
    let from_piece = match position.piece_at(from) {
        Some(x) => x,
        None => return false,
    };
    if from_piece.color != side {
        return false;
    }
    match position.piece_at(to) {
        Some(x) => {
            if x.color == side {
                return false;
            }
            if !setting.is_tsuitate && x.kind.same(PieceKind::King) {
                return false;
            }
        },
        None => {},
    }
    let (plain, promoted) = promotion_options(from_piece, from, to, setting);
    if !(if promote { promoted } else { plain }) {
        return false;
    }
    check(position, from_piece, from, to, setting)
}

/// `side` owns a piece of `kind` on square `i`.
pub open spec fn holds(pos: PosView, i: int, kind: PieceKind, side: Color) -> bool {
    valid_index(i) && pos.at(i) == Some(Piece { kind, color: side })
}

/// `side` owns a piece of `k1` or of `k2` on square `i`.
pub open spec fn holds_either(pos: PosView, i: int, k1: PieceKind, k2: PieceKind, side: Color) -> bool {
    holds(pos, i, k1, side) || holds(pos, i, k2, side)
}

/// A piece of `kind` of `side` stands where a piece of that kind of the other color on
/// `(kf, kr)` would attack.
pub open spec fn reverse_hit(pos: PosView, side: Color, gk: GameKind, kind: PieceKind, kf: int, kr: int) -> bool {
    exists|i: int| #[trigger] holds(pos, i, kind, side) && attacks(kind, side.spec_flip(), kf, kr, gk, |j: int| pos.occupied(j), i)
}

/// A piece of `kind` of `side` stands next to `(kf, kr)`.
pub open spec fn adjacent_hit(pos: PosView, side: Color, kind: PieceKind, kf: int, kr: int) -> bool {
    exists|i: int| #[trigger] holds(pos, i, kind, side) && king_attacks(kf, kr, i)
}

/// `side` attacks `(kf, kr)`, tested the way `will_king_be_captured` tests it: from the
/// target square, each kind's moves for the other color are followed back to a piece of
/// that kind (short-range pieces only when some piece of `side` is adjacent).
pub open spec fn attacked(pos: PosView, side: Color, gk: GameKind, kf: int, kr: int) -> bool {
    let occ = |j: int| pos.occupied(j);
    ||| (exists|i: int| king_attacks(kf, kr, i) && #[trigger] pos.owned_by(i, side)) && {
        ||| adjacent_hit(pos, side, PieceKind::King, kf, kr)
        ||| adjacent_hit(pos, side, PieceKind::ProBishop, kf, kr)
        ||| adjacent_hit(pos, side, PieceKind::ProRook, kf, kr)
        ||| reverse_hit(pos, side, gk, PieceKind::Pawn, kf, kr)
        ||| reverse_hit(pos, side, gk, PieceKind::Silver, kf, kr)
        ||| reverse_hit(pos, side, gk, PieceKind::Gold, kf, kr)
        ||| reverse_hit(pos, side, gk, PieceKind::ProPawn, kf, kr)
        ||| reverse_hit(pos, side, gk, PieceKind::ProLance, kf, kr)
        ||| reverse_hit(pos, side, gk, PieceKind::ProKnight, kf, kr)
        ||| reverse_hit(pos, side, gk, PieceKind::ProSilver, kf, kr)
    }
    ||| exists|i: int| #[trigger] holds(pos, i, PieceKind::Lance, side) && lance_attacks(side.spec_flip(), kf, kr, occ, i)
    ||| exists|i: int| #[trigger] holds(pos, i, PieceKind::Knight, side) && knight_attacks(side.spec_flip(), kf, kr, i)
    ||| exists|i: int| #[trigger] holds_either(pos, i, PieceKind::Bishop, PieceKind::ProBishop, side)
        && bishop_attacks(kf, kr, occ, i)
    ||| exists|i: int| #[trigger] holds_either(pos, i, PieceKind::Rook, PieceKind::ProRook, side)
        && rook_attacks(kf, kr, occ, i)
}

/// Whether `side` could capture the other player's king: `None` when no square is
/// recorded for that king.
pub open spec fn king_capturable(pos: PosView, side: Color, gk: GameKind) -> Option<bool> {
    match pos.king(side.spec_flip()) {
        Some(k) => Some(attacked(pos, side, gk, k.spec_file(), k.spec_rank())),
        None => None,
    }
}

/// `side` attacks `(kf, kr)` in the plain sense: some piece of `side` on the board attacks
/// it, sliding pieces blocked by every piece.
pub open spec fn attacked_by_some_piece(pos: PosView, side: Color, gk: GameKind, kf: int, kr: int) -> bool {
    exists|i: int| #[trigger] pos.owned_by(i, side) && attacks(
        pos.at(i)->0.kind,
        side,
        index_file(i),
        index_rank(i),
        gk,
        |j: int| pos.occupied(j),
        sq_index(kf, kr),
    )
}

/// The last rank of `side`: the first for black, the ninth for white.
pub open spec fn last_rank(side: Color) -> int {
    match side {
        Color::Black => 1,
        Color::White => 9,
    }
}

/// No pawn of `side` stands on its last rank.
pub open spec fn no_pawn_on_last_rank(pos: PosView, side: Color) -> bool {
    forall|i: int| #[trigger] holds(pos, i, PieceKind::Pawn, side) ==> index_rank(i) != last_rank(side)
}

/// A witness of the reverse test gives an attacking piece.
proof fn lemma_reverse_witness(pos: PosView, side: Color, gk: GameKind, kf: int, kr: int, kind: PieceKind, i: int)
    requires
        on_board(kf, kr),
        holds(pos, i, kind, side),
        attacks(kind, side.spec_flip(), kf, kr, gk, |j: int| pos.occupied(j), i),
    ensures
        attacked_by_some_piece(pos, side, gk, kf, kr),
{
    crate::normal::lemma_attacks_reverse(kind, side, kf, kr, gk, |j: int| pos.occupied(j), i);
    assert(pos.owned_by(i, side));
}

/// The test of `will_king_be_captured` means what it says: when no pawn of `side` stands on
/// its last rank, `side` attacks a square in that test exactly when some piece of `side`
/// attacks it, every piece blocking sliding pieces.
pub proof fn law_attacked_means_some_piece_attacks(pos: PosView, side: Color, gk: GameKind, kf: int, kr: int)
    requires
        on_board(kf, kr),
        no_pawn_on_last_rank(pos, side),
    ensures
        attacked(pos, side, gk, kf, kr) <==> attacked_by_some_piece(pos, side, gk, kf, kr),
{
    let occ = |j: int| pos.occupied(j);
    let k = sq_index(kf, kr);
    let flip = side.spec_flip();
    lemma_coords_index(kf, kr);
    if attacked(pos, side, gk, kf, kr) {
        if adjacent_hit(pos, side, PieceKind::King, kf, kr) {
            let i = choose|i: int| #[trigger] holds(pos, i, PieceKind::King, side) && king_attacks(kf, kr, i);
            lemma_reverse_witness(pos, side, gk, kf, kr, PieceKind::King, i);
        } else if adjacent_hit(pos, side, PieceKind::ProBishop, kf, kr) {
            let i = choose|i: int| #[trigger] holds(pos, i, PieceKind::ProBishop, side) && king_attacks(kf, kr, i);
            crate::normal::lemma_attacks_reverse(PieceKind::King, side, kf, kr, gk, occ, i);
            assert(pos.owned_by(i, side));
        } else if adjacent_hit(pos, side, PieceKind::ProRook, kf, kr) {
            let i = choose|i: int| #[trigger] holds(pos, i, PieceKind::ProRook, side) && king_attacks(kf, kr, i);
            crate::normal::lemma_attacks_reverse(PieceKind::King, side, kf, kr, gk, occ, i);
            assert(pos.owned_by(i, side));
        } else if reverse_hit(pos, side, gk, PieceKind::Pawn, kf, kr) {
            let i = choose|i: int| #[trigger] holds(pos, i, PieceKind::Pawn, side) && attacks(PieceKind::Pawn, flip, kf, kr, gk, occ, i);
            lemma_reverse_witness(pos, side, gk, kf, kr, PieceKind::Pawn, i);
        } else if reverse_hit(pos, side, gk, PieceKind::Silver, kf, kr) {
            let i = choose|i: int| #[trigger] holds(pos, i, PieceKind::Silver, side) && attacks(PieceKind::Silver, flip, kf, kr, gk, occ, i);
            lemma_reverse_witness(pos, side, gk, kf, kr, PieceKind::Silver, i);
        } else if reverse_hit(pos, side, gk, PieceKind::Gold, kf, kr) {
            let i = choose|i: int| #[trigger] holds(pos, i, PieceKind::Gold, side) && attacks(PieceKind::Gold, flip, kf, kr, gk, occ, i);
            lemma_reverse_witness(pos, side, gk, kf, kr, PieceKind::Gold, i);
        } else if reverse_hit(pos, side, gk, PieceKind::ProPawn, kf, kr) {
            let i = choose|i: int| #[trigger] holds(pos, i, PieceKind::ProPawn, side) && attacks(PieceKind::ProPawn, flip, kf, kr, gk, occ, i);
            lemma_reverse_witness(pos, side, gk, kf, kr, PieceKind::ProPawn, i);
        } else if reverse_hit(pos, side, gk, PieceKind::ProLance, kf, kr) {
            let i = choose|i: int| #[trigger] holds(pos, i, PieceKind::ProLance, side) && attacks(PieceKind::ProLance, flip, kf, kr, gk, occ, i);
            lemma_reverse_witness(pos, side, gk, kf, kr, PieceKind::ProLance, i);
        } else if reverse_hit(pos, side, gk, PieceKind::ProKnight, kf, kr) {
            let i = choose|i: int| #[trigger] holds(pos, i, PieceKind::ProKnight, side) && attacks(PieceKind::ProKnight, flip, kf, kr, gk, occ, i);
            lemma_reverse_witness(pos, side, gk, kf, kr, PieceKind::ProKnight, i);
        } else if reverse_hit(pos, side, gk, PieceKind::ProSilver, kf, kr) {
            let i = choose|i: int| #[trigger] holds(pos, i, PieceKind::ProSilver, side) && attacks(PieceKind::ProSilver, flip, kf, kr, gk, occ, i);
            lemma_reverse_witness(pos, side, gk, kf, kr, PieceKind::ProSilver, i);
        } else if exists|i: int| #[trigger] holds(pos, i, PieceKind::Lance, side) && lance_attacks(flip, kf, kr, occ, i) {
            let i = choose|i: int| #[trigger] holds(pos, i, PieceKind::Lance, side) && lance_attacks(flip, kf, kr, occ, i);
            lemma_reverse_witness(pos, side, gk, kf, kr, PieceKind::Lance, i);
        } else if exists|i: int| #[trigger] holds(pos, i, PieceKind::Knight, side) && knight_attacks(flip, kf, kr, i) {
            let i = choose|i: int| #[trigger] holds(pos, i, PieceKind::Knight, side) && knight_attacks(flip, kf, kr, i);
            lemma_reverse_witness(pos, side, gk, kf, kr, PieceKind::Knight, i);
        } else if exists|i: int| #[trigger] holds_either(pos, i, PieceKind::Bishop, PieceKind::ProBishop, side) && bishop_attacks(kf, kr, occ, i) {
            let i = choose|i: int| #[trigger] holds_either(pos, i, PieceKind::Bishop, PieceKind::ProBishop, side) && bishop_attacks(kf, kr, occ, i);
            crate::normal::lemma_attacks_reverse(PieceKind::Bishop, side, kf, kr, gk, occ, i);
            assert(pos.owned_by(i, side));
        } else {
            let i = choose|i: int| #[trigger] holds_either(pos, i, PieceKind::Rook, PieceKind::ProRook, side) && rook_attacks(kf, kr, occ, i);
            crate::normal::lemma_attacks_reverse(PieceKind::Rook, side, kf, kr, gk, occ, i);
            assert(pos.owned_by(i, side));
        }
    }
    if attacked_by_some_piece(pos, side, gk, kf, kr) {
        let i = choose|i: int| #[trigger] pos.owned_by(i, side) && attacks(
            pos.at(i)->0.kind,
            side,
            index_file(i),
            index_rank(i),
            gk,
            occ,
            k,
        );
        let p = pos.at(i)->0;
        let kind = p.kind;
        assert(p == Piece { kind, color: side });
        assert(holds(pos, i, kind, side));
        crate::normal::lemma_attacks_reverse(kind, side, kf, kr, gk, occ, i);
        lemma_index_coords(i);
        match kind {
            PieceKind::Pawn => {
                assert(index_rank(i) != last_rank(side));
                if kr == 9 && side == Color::Black {
                    lemma_coords_index(kf + 1, 1);
                } else if kr == 1 && side == Color::White {
                    lemma_coords_index(kf - 1, 9);
                }
                assert(king_attacks(kf, kr, i));
                assert(reverse_hit(pos, side, gk, PieceKind::Pawn, kf, kr));
            },
            PieceKind::ProBishop => {
                crate::normal::lemma_attacks_reverse(PieceKind::Bishop, side, kf, kr, gk, occ, i);
                crate::normal::lemma_attacks_reverse(PieceKind::King, side, kf, kr, gk, occ, i);
                assert(holds_either(pos, i, PieceKind::Bishop, PieceKind::ProBishop, side));
            },
            PieceKind::ProRook => {
                crate::normal::lemma_attacks_reverse(PieceKind::Rook, side, kf, kr, gk, occ, i);
                crate::normal::lemma_attacks_reverse(PieceKind::King, side, kf, kr, gk, occ, i);
                assert(holds_either(pos, i, PieceKind::Rook, PieceKind::ProRook, side));
            },
            PieceKind::Bishop => {
                assert(holds_either(pos, i, PieceKind::Bishop, PieceKind::ProBishop, side));
            },
            PieceKind::Rook => {
                assert(holds_either(pos, i, PieceKind::Rook, PieceKind::ProRook, side));
            },
            _ => {},
        }
    }
}

/// `will_king_be_captured` answers whether some piece of `side` attacks the other king
/// (every piece blocking sliding pieces), when no pawn of `side` stands on its last rank;
/// `None` when the other king has no recorded square.
pub proof fn law_king_capture_is_an_attack(pos: PosView, side: Color, gk: GameKind)
    requires
        pos.king(side.spec_flip()) matches Some(k) ==> k.wf(),
        no_pawn_on_last_rank(pos, side),
    ensures
        king_capturable(pos, side, gk) == match pos.king(side.spec_flip()) {
            Some(k) => Some(attacked_by_some_piece(pos, side, gk, k.spec_file(), k.spec_rank())),
            None => None,
        },
{
    if let Some(k) = pos.king(side.spec_flip()) {
        lemma_index_coords(k.index as int);
        law_attacked_means_some_piece_attacks(pos, side, gk, k.spec_file(), k.spec_rank());
    }
}

/// Tests one kind for `will_king_be_captured`: pieces of `kind` of `side` standing where
/// such a piece of the other color on the king's square would attack.
fn reverse_hit_exec(position: &PartialPosition, occupied: Bitboard, side: Color, gk: GameKind, kind: PieceKind, kf: u8, kr: u8) -> (r: bool)
    requires
        position.wf(),
        occupied.wf(),
        forall|j: int| occupied.has(j) <==> position@.occupied(j),
        1 <= kf <= 9,
        1 <= kr <= 9,
    ensures
        r == reverse_hit(position@, side, gk, kind, kf as int, kr as int),
{
    let piece = Piece { kind, color: side.flip() };
    let my_piece = Piece { kind, color: side };
    let piece_bb = position.piece_bitboard(my_piece);
    let attack = from_candidates_without_assertion(occupied, position, piece, kf, kr, gk);
    let r = piece_bb.intersects(attack);
    proof {
        assert((|j: int| occupied.has(j)) =~= (|j: int| position@.occupied(j)));
        if r {
            let i = choose|i: int| piece_bb.has(i) && attack.has(i);
            assert(holds(position@, i, kind, side));
        }
        if reverse_hit(position@, side, gk, kind, kf as int, kr as int) {
            let i = choose|i: int| #[trigger] holds(position@, i, kind, side) && attacks(kind, side.spec_flip(), kf as int, kr as int, gk, |j: int| position@.occupied(j), i);
            assert(piece_bb.has(i) && attack.has(i));
        }
    }
    r
}

fn adjacent_hit_exec(position: &PartialPosition, peripheral: Bitboard, side: Color, kind: PieceKind, kf: u8, kr: u8) -> (r: bool)
    requires
        position.wf(),
        peripheral.wf(),
        forall|i: int| peripheral.has(i) <==> king_attacks(kf as int, kr as int, i),
    ensures
        r == adjacent_hit(position@, side, kind, kf as int, kr as int),
{
    let piece_bb = position.piece_bitboard(Piece { kind, color: side });
    let r = piece_bb.intersects(peripheral);
    proof {
        if r {
            let i = choose|i: int| piece_bb.has(i) && peripheral.has(i);
            assert(holds(position@, i, kind, side));
        }
        if adjacent_hit(position@, side, kind, kf as int, kr as int) {
            let i = choose|i: int| #[trigger] holds(position@, i, kind, side) && king_attacks(kf as int, kr as int, i);
            assert(piece_bb.has(i) && peripheral.has(i));
        }
    }
    r
}

/// Can `side` play a move that captures the opponent's king? `None` if the opponent has no
/// recorded king square.
pub fn will_king_be_captured(position: &PartialPosition, side: Color, game_kind: GameKind) -> (r: Option<bool>)
    requires
        position.wf(),
    ensures
        r == king_capturable(position@, side, game_kind),
{
    let occupied = position.occupied_bitboard();
    let king_sq = match position.king_position(side.flip()) {
        Some(k) => k,
        None => return None,
    };
    let king_file = king_sq.file();
    let king_rank = king_sq.rank();
    let ghost occ = |j: int| position@.occupied(j);
    let ghost kf = king_file as int;
    let ghost kr = king_rank as int;
    let king_peripheral = king(king_file, king_rank);
    let mine = position.player_bitboard(side);
    let near = mine.intersects(king_peripheral);
    proof {
        if near {
            let i = choose|i: int| mine.has(i) && king_peripheral.has(i);
            assert(king_attacks(kf, kr, i) && position@.owned_by(i, side));
        }
        if exists|i: int| king_attacks(kf, kr, i) && #[trigger] position@.owned_by(i, side) {
            let i = choose|i: int| king_attacks(kf, kr, i) && #[trigger] position@.owned_by(i, side);
            assert(mine.has(i) && king_peripheral.has(i));
        }
    }
    if near {
        if adjacent_hit_exec(position, king_peripheral, side, PieceKind::King, king_file, king_rank)
            || adjacent_hit_exec(position, king_peripheral, side, PieceKind::ProBishop, king_file, king_rank)
            || adjacent_hit_exec(position, king_peripheral, side, PieceKind::ProRook, king_file, king_rank) {
            return Some(true);
        }
        if reverse_hit_exec(position, occupied, side, game_kind, PieceKind::Pawn, king_file, king_rank)
            || reverse_hit_exec(position, occupied, side, game_kind, PieceKind::Silver, king_file, king_rank)
            || reverse_hit_exec(position, occupied, side, game_kind, PieceKind::Gold, king_file, king_rank)
            || reverse_hit_exec(position, occupied, side, game_kind, PieceKind::ProPawn, king_file, king_rank)
            || reverse_hit_exec(position, occupied, side, game_kind, PieceKind::ProLance, king_file, king_rank)
            || reverse_hit_exec(position, occupied, side, game_kind, PieceKind::ProKnight, king_file, king_rank)
            || reverse_hit_exec(position, occupied, side, game_kind, PieceKind::ProSilver, king_file, king_rank) {
            return Some(true);
        }
    }
    let lances = position.piece_bitboard(Piece { kind: PieceKind::Lance, color: side });
    let lance_attack = lance_range(side.flip(), king_file, king_rank, occupied);
    let lance_hit = lances.intersects(lance_attack);
    proof {
        assert((|j: int| occupied.has(j)) =~= occ);
        if lance_hit {
            let i = choose|i: int| lances.has(i) && lance_attack.has(i);
            assert(holds(position@, i, PieceKind::Lance, side));
        }
        if exists|i: int| #[trigger] holds(position@, i, PieceKind::Lance, side) && lance_attacks(side.spec_flip(), kf, kr, occ, i) {
            let i = choose|i: int| #[trigger] holds(position@, i, PieceKind::Lance, side) && lance_attacks(side.spec_flip(), kf, kr, occ, i);
            assert(lances.has(i) && lance_attack.has(i));
        }
    }
    if lance_hit {
        return Some(true);
    }
    let knights = position.piece_bitboard(Piece { kind: PieceKind::Knight, color: side });
    let knight_attack = knight(side.flip(), king_file, king_rank);
    let knight_hit = knights.intersects(knight_attack);
    proof {
        if knight_hit {
            let i = choose|i: int| knights.has(i) && knight_attack.has(i);
            assert(holds(position@, i, PieceKind::Knight, side));
        }
        if exists|i: int| #[trigger] holds(position@, i, PieceKind::Knight, side) && knight_attacks(side.spec_flip(), kf, kr, i) {
            let i = choose|i: int| #[trigger] holds(position@, i, PieceKind::Knight, side) && knight_attacks(side.spec_flip(), kf, kr, i);
            assert(knights.has(i) && knight_attack.has(i));
        }
    }
    if knight_hit {
        return Some(true);
    }
    let bishops = position.piece_bitboard(Piece { kind: PieceKind::Bishop, color: side }).or(
        position.piece_bitboard(Piece { kind: PieceKind::ProBishop, color: side }),
    );
    let bishop_attack = bishop_range(king_file, king_rank, occupied);
    let bishop_hit = bishops.intersects(bishop_attack);
    proof {
        if bishop_hit {
            let i = choose|i: int| bishops.has(i) && bishop_attack.has(i);
            assert(holds_either(position@, i, PieceKind::Bishop, PieceKind::ProBishop, side));
        }
        if exists|i: int| #[trigger] holds_either(position@, i, PieceKind::Bishop, PieceKind::ProBishop, side) && bishop_attacks(kf, kr, occ, i) {
            let i = choose|i: int| #[trigger] holds_either(position@, i, PieceKind::Bishop, PieceKind::ProBishop, side) && bishop_attacks(kf, kr, occ, i);
            assert(bishops.has(i) && bishop_attack.has(i));
        }
    }
    if bishop_hit {
        return Some(true);
    }
    let rooks = position.piece_bitboard(Piece { kind: PieceKind::Rook, color: side }).or(
        position.piece_bitboard(Piece { kind: PieceKind::ProRook, color: side }),
    );
    let rook_attack = rook_range(king_file, king_rank, occupied);
    let rook_hit = rooks.intersects(rook_attack);
    proof {
        if rook_hit {
            let i = choose|i: int| rooks.has(i) && rook_attack.has(i);
            assert(holds_either(position@, i, PieceKind::Rook, PieceKind::ProRook, side));
        }
        if exists|i: int| #[trigger] holds_either(position@, i, PieceKind::Rook, PieceKind::ProRook, side) && rook_attacks(kf, kr, occ, i) {
            let i = choose|i: int| #[trigger] holds_either(position@, i, PieceKind::Rook, PieceKind::ProRook, side) && rook_attacks(kf, kr, occ, i);
            assert(rooks.has(i) && rook_attack.has(i));
        }
    }
    if rook_hit {
        return Some(true);
    }
    Some(false)
}

} // verus!

verus! {

/// The position after trying `mv`: unchanged when the move cannot be played.
pub open spec fn play(pos: PosView, mv: Move) -> PosView {
    if pos.can_make_move(mv) {
        pos.after_move(mv)
    } else {
        pos
    }
}

/// The normal move between the squares with indices `f` and `t`.
pub open spec fn normal_move(f: int, t: int, promote: bool) -> Move {
    Move::Normal { from: Square { index: f as u8 }, to: Square { index: t as u8 }, promote }
}

/// After a pawn drop, the side to move is checkmated: its king is attacked and every valid
/// normal move leaves it attacked (a pawn's check cannot be blocked by a drop).
/// `None` when the side to move has no recorded king square.
pub open spec fn spec_mate_after_pawn_drop(pos: PosView, setting: Setting) -> Option<bool> {
    if pos.king(pos.side) is None {
        None
    } else if king_capturable(pos, pos.side.spec_flip(), setting.game_kind) != Some(true) {
        Some(false)
    } else {
        Some(
            forall|f: int, t: int, pr: bool|
                valid_index(f) && valid_index(t) && #[trigger] valid_normal(
                    pos,
                    Square { index: f as u8 },
                    Square { index: t as u8 },
                    pr,
                    setting,
                ) ==> king_capturable(play(pos, normal_move(f, t, pr)), pos.side.spec_flip(), setting.game_kind)
                    == Some(true),
        )
    }
}

/// `pos` has a piece equal to `piece` somewhere on file `file`.
pub open spec fn piece_on_file(pos: PosView, piece: Piece, file: int) -> bool {
    exists|r: int| 1 <= r <= 9 && #[trigger] pos.at(sq_index(file, r)) == Some(piece)
}

/// A drop is valid (king safety aside): on the board, by the side to move, with such a
/// piece in hand, on a vacant square (or, in tsuitate, on an opponent's piece); in shogi
/// not where the piece could never move again, no second own pawn on the file, and
/// outside tsuitate no pawn drop that checkmates.
pub open spec fn valid_drop(pos: PosView, piece: Piece, to: Square, setting: Setting) -> bool {
    let rank = rel_rank(to.index as int, pos.side, setting.ranks);
    let kind = piece.kind;
    &&& setting.board_mask.has(to.index as int)
    &&& piece.color == pos.side
    &&& (kind.hand_index() matches Some(s) && pos.hand_count(piece.color, s) > 0)
    &&& (pos.at(to.index as int) matches Some(x) ==> (setting.is_tsuitate && x.color != pos.side))
    &&& !(setting.game_kind == GameKind::Shogi && rank == 1 && (kind == PieceKind::Pawn || kind
        == PieceKind::Lance || kind == PieceKind::Knight))
    &&& !(setting.game_kind == GameKind::Shogi && rank == 2 && kind == PieceKind::Knight)
    &&& !(kind == PieceKind::Pawn && setting.game_kind == GameKind::Shogi && piece_on_file(
        pos,
        piece,
        index_file(to.index as int),
    ))
    &&& !(!setting.is_tsuitate && kind == PieceKind::Pawn && spec_mate_after_pawn_drop(
        play(pos, Move::Drop { piece, to }),
        setting,
    ) == Some(true))
}

/// A move is valid without considering the safety of the mover's king.
pub open spec fn valid_move(pos: PosView, mv: Move, setting: Setting) -> bool {
    match mv {
        Move::Normal { from, to, promote } => valid_normal(pos, from, to, promote, setting),
        Move::Drop { piece, to } => valid_drop(pos, piece, to, setting),
    }
}

/// Tsuitate rules only relax validity: a move valid in a variant stays valid when the same
/// variant is played as tsuitate, where only own pieces block, drops onto the opponent's
/// pieces and king captures are allowed, and there is no pawn-drop mate rule.
pub proof fn law_tsuitate_relaxes_validity(pos: PosView, mv: Move, setting: Setting)
    requires
        valid_move(pos, mv, setting),
    ensures
        valid_move(pos, mv, Setting { is_tsuitate: true, ..setting }),
{
    let t = Setting { is_tsuitate: true, ..setting };
    match mv {
        Move::Normal { from, to, promote } => {
            let p = pos.at(from.index as int)->0;
            let occ1 = |j: int| crate::normal::blockers(pos, p.color, setting.is_tsuitate, j);
            let occ2 = |j: int| crate::normal::blockers(pos, p.color, true, j);
            assert forall|j: int| #[trigger] occ2(j) implies occ1(j) by {}
            crate::normal::lemma_attacks_fewer_blockers(
                p.kind,
                p.color,
                from.spec_file(),
                from.spec_rank(),
                setting.game_kind,
                occ1,
                occ2,
                to.index as int,
            );
            assert(spec_promotion_options(p, from.index as int, to.index as int, t) == spec_promotion_options(
                p,
                from.index as int,
                to.index as int,
                setting,
            ));
        },
        Move::Drop { piece, to } => {},
    }
}

/// Outside tsuitate, a valid normal move can be played.
pub proof fn lemma_valid_normal_playable(pos: PosView, from: Square, to: Square, promote: bool, setting: Setting)
    requires
        !setting.is_tsuitate,
        valid_normal(pos, from, to, promote, setting),
    ensures
        pos.can_make_move(Move::Normal { from, to, promote }),
{
}

/// Outside tsuitate, a valid drop can be played.
pub proof fn lemma_valid_drop_playable(pos: PosView, piece: Piece, to: Square, setting: Setting)
    requires
        !setting.is_tsuitate,
        valid_drop(pos, piece, to, setting),
    ensures
        pos.can_make_move(Move::Drop { piece, to }),
{
}

/// Playing a move keeps every recorded king square recorded.
pub proof fn lemma_after_move_keeps_kings(pos: PosView, mv: Move, c: Color)
    requires
        pos.king(c) is Some,
    ensures
        pos.after_move(mv).king(c) is Some,
        play(pos, mv).king(c) is Some,
{
}

/// All valid normal moves, by origin, destination, then promotion (unpromoted first).
pub fn all_valid_normal_moves(position: &PartialPosition, setting: &Setting) -> (r: Vec<Move>)
    requires
        position.wf(),
        setting.wf(),
    ensures
        forall|j: int| 0 <= j < r@.len() ==> (#[trigger] r@[j] matches Move::Normal { from, to, promote }
            && from.wf() && to.wf() && valid_normal(position@, from, to, promote, *setting)),
        forall|f: int, t: int, pr: bool| valid_index(f) && valid_index(t) && #[trigger] valid_normal(
            position@,
            Square { index: f as u8 },
            Square { index: t as u8 },
            pr,
            *setting,
        ) ==> r@.contains(normal_move(f, t, pr)),
        listed_in_order(r@),
{
    let mut result: Vec<Move> = Vec::new();
    let mut f: u8 = 1;
    while f <= 81
        invariant
            position.wf(),
            setting.wf(),
            1 <= f <= 82,
            forall|j: int| 0 <= j < result@.len() ==> (#[trigger] result@[j] matches Move::Normal { from, to, promote }
                && from.wf() && to.wf() && valid_normal(position@, from, to, promote, *setting)),
            forall|a: int, t: int, pr: bool| 1 <= a < f && valid_index(t) && #[trigger] valid_normal(
                position@,
                Square { index: a as u8 },
                Square { index: t as u8 },
                pr,
                *setting,
            ) ==> result@.contains(normal_move(a, t, pr)),
            listed_in_order(result@),
            forall|j: int| 0 <= j < result@.len() ==> #[trigger] move_order(result@[j]) < (f - 1) * 162,
        decreases 82 - f,
    {
        let mut t: u8 = 1;
        while t <= 81
            invariant
                position.wf(),
                setting.wf(),
                1 <= f <= 81,
                1 <= t <= 82,
                forall|j: int| 0 <= j < result@.len() ==> (#[trigger] result@[j] matches Move::Normal { from, to, promote }
                    && from.wf() && to.wf() && valid_normal(position@, from, to, promote, *setting)),
                forall|a: int, b: int, pr: bool| valid_index(b) && (1 <= a < f || (a == f && b < t))
                    && #[trigger] valid_normal(
                    position@,
                    Square { index: a as u8 },
                    Square { index: b as u8 },
                    pr,
                    *setting,
                ) ==> result@.contains(normal_move(a, b, pr)),
                listed_in_order(result@),
                forall|j: int| 0 <= j < result@.len() ==> #[trigger] move_order(result@[j]) < (f - 1) * 162 + (t - 1) * 2,
            decreases 82 - t,
        {
            let from = Square { index: f };
            let to = Square { index: t };
            let ghost before = result@;
            if is_valid_normal(position, from, to, false, setting) {
                result.push(Move::Normal { from, to, promote: false });
                assert(result@[result@.len() - 1] == normal_move(f as int, t as int, false));
            }
            let ghost mid = result@;
            if is_valid_normal(position, from, to, true, setting) {
                result.push(Move::Normal { from, to, promote: true });
                assert(result@[result@.len() - 1] == normal_move(f as int, t as int, true));
            }
            assert(forall|k: int| 0 <= k < mid.len() ==> result@[k] == mid[k]);
            assert forall|a: int, b: int, pr: bool| valid_index(b) && (1 <= a < f || (a == f && b < t + 1))
                && #[trigger] valid_normal(
                position@,
                Square { index: a as u8 },
                Square { index: b as u8 },
                pr,
                *setting,
            ) implies result@.contains(normal_move(a, b, pr)) by {
                if a == f && b == t {
                    if pr {
                        assert(result@[result@.len() - 1] == normal_move(a, b, pr));
                    } else {
                        assert(result@[before.len() as int] == normal_move(a, b, pr));
                    }
                } else {
                    assert(before.contains(normal_move(a, b, pr)));
                    let k = choose|k: int| 0 <= k < before.len() && before[k] == normal_move(a, b, pr);
                    assert(result@[k] == normal_move(a, b, pr));
                }
            }
            t = t + 1;
        }
        f = f + 1;
    }
    result
}

} // verus!

verus! {

/// Checks whether a pawn drop (already played in `position`) checkmates the side to move.
fn is_mate_after_pawn_drop(position: &PartialPosition, setting: &Setting) -> (r: Option<bool>)
    requires
        position.wf(),
        setting.wf(),
        !setting.is_tsuitate,
    ensures
        r == spec_mate_after_pawn_drop(position@, *setting),
{
    let side = position.side;
    if position.king_position(side).is_none() {
        return None;
    }
    match will_king_be_captured(position, side.flip(), setting.game_kind) {
        Some(true) => {},
        _ => {
            return Some(false);
        },
    }
    let moves = all_valid_normal_moves(position, setting);
    let mut k: usize = 0;
    while k < moves.len()
        invariant
            position.wf(),
            setting.wf(),
            !setting.is_tsuitate,
            side == position@.side,
            position@.king(side) is Some,
            k <= moves@.len(),
            forall|j: int| 0 <= j < moves@.len() ==> (#[trigger] moves@[j] matches Move::Normal { from, to, promote }
                && from.wf() && to.wf() && valid_normal(position@, from, to, promote, *setting)),
            forall|j: int| 0 <= j < k ==> king_capturable(#[trigger] play(position@, moves@[j]), side.spec_flip(), setting.game_kind)
                == Some(true),
        decreases moves@.len() - k,
    {
        let mv = moves[k];
        let mut next = position.copy();
        proof {
            if let Move::Normal { from, to, promote } = mv {
                lemma_valid_normal_playable(position@, from, to, promote, *setting);
            }
        }
        let _ = next.make_move(mv);
        proof {
            lemma_after_move_keeps_kings(position@, mv, side);
        }
        match will_king_be_captured(&next, next.side, setting.game_kind) {
            Some(true) => {},
            _ => {
                proof {
                    if let Move::Normal { from, to, promote } = mv {
                        assert(mv == normal_move(from.index as int, to.index as int, promote));
                        assert(valid_normal(
                            position@,
                            Square { index: from.index as u8 },
                            Square { index: to.index as u8 },
                            promote,
                            *setting,
                        ));
                    }
                }
                return Some(false);
            },
        }
        k = k + 1;
    }
    proof {
        assert forall|f: int, t: int, pr: bool|
            valid_index(f) && valid_index(t) && #[trigger] valid_normal(
                position@,
                Square { index: f as u8 },
                Square { index: t as u8 },
                pr,
                *setting,
            ) implies king_capturable(play(position@, normal_move(f, t, pr)), side.spec_flip(), setting.game_kind)
                == Some(true) by {
            let j = choose|j: int| 0 <= j < moves@.len() && moves@[j] == normal_move(f, t, pr);
            assert(king_capturable(play(position@, moves@[j]), side.spec_flip(), setting.game_kind) == Some(true));
        }
    }
    Some(true)
}

/// Whether `pos` has `piece` somewhere on `file`.
fn has_piece_on_file(position: &PartialPosition, piece: Piece, file: u8) -> (r: bool)
    requires
        position.wf(),
        1 <= file <= 9,
    ensures
        r == piece_on_file(position@, piece, file as int),
{
    let mut rank: u8 = 1;
    while rank <= 9
        invariant
            position.wf(),
            1 <= file <= 9,
            1 <= rank <= 10,
            forall|r: int| 1 <= r < rank ==> #[trigger] position@.at(sq_index(file as int, r)) != Some(piece),
        decreases 10 - rank,
    {
        match position.piece_at(Square { index: file * 9 + rank - 9 }) {
            Some(p) => {
                if p == piece {
                    assert(position@.at(sq_index(file as int, rank as int)) == Some(piece));
                    return true;
                }
            },
            None => {},
        }
        rank = rank + 1;
    }
    false
}

/// Checks a drop as `is_valid` does.
fn is_valid_drop(position: &PartialPosition, piece: Piece, to: Square, setting: &Setting) -> (r: bool)
    requires
        position.wf(),
        to.wf(),
        setting.wf(),
    ensures
        r == valid_drop(position@, piece, to, *setting),
{
    let side = position.side;
    if !setting.board_mask.contains(to) {
        return false;
    }
    if piece.color != side {
        return false;
    }
    let remaining = match position.hand(piece) {
        Some(x) => x,
        None => return false,
    };
    if remaining == 0 {
        return false;
    }
    match position.piece_at(to) {
        Some(x) => {
            if !setting.is_tsuitate || x.color == side {
                return false;
            }
        },
        None => {},
    }
    let rel_rank = relative_rank(to, side, setting);
    let kind = piece.kind;
    if setting.game_kind == GameKind::Shogi {
        if rel_rank == 1 && (kind.same(PieceKind::Pawn) || kind.same(PieceKind::Lance) || kind.same(
            PieceKind::Knight,
        )) {
            return false;
        }
        if rel_rank == 2 && kind.same(PieceKind::Knight) {
            return false;
        }
    }
    if kind.same(PieceKind::Pawn) && setting.game_kind == GameKind::Shogi {
        if has_piece_on_file(position, piece, to.file()) {
            return false;
        }
    }
    if !setting.is_tsuitate && kind.same(PieceKind::Pawn) {
        let mut next = position.copy();
        let _ = next.make_move(Move::Drop { piece, to });
        match is_mate_after_pawn_drop(&next, setting) {
            Some(true) => {
                return false;
            },
            _ => {},
        }
    }
    true
}

/// Checks if a move is valid without considering king's safety.
pub fn is_valid(position: &PartialPosition, mv: Move, setting: &Setting) -> (r: bool)
    requires
        position.wf(),
        mv.wf(),
        setting.wf(),
    ensures
        r == valid_move(position@, mv, *setting),
{
    match mv {
        Move::Normal { from, to, promote } => is_valid_normal(position, from, to, promote, setting),
        Move::Drop { piece, to } => is_valid_drop(position, piece, to, setting),
    }
}

/// Destinations of a valid unpromoted move (first) and of a valid promoting move (second) of
/// the piece on `from`; both empty when it is off the board or not the mover's. King safety
/// is not checked.
pub fn normal_move_candidates(position: &PartialPosition, from: Square, setting: &Setting) -> (r: (Bitboard, Bitboard))
    requires
        position.wf(),
        from.wf(),
        setting.wf(),
    ensures
        r.0.wf(),
        r.1.wf(),
        forall|i: int| r.0.has(i) <==> (valid_index(i) && valid_normal(position@, from, Square { index: i as u8 }, false, *setting)),
        forall|i: int| r.1.has(i) <==> (valid_index(i) && valid_normal(position@, from, Square { index: i as u8 }, true, *setting)),
{
    let mut plain = Bitboard::empty();
    let mut promoted = Bitboard::empty();
    if !setting.board_mask.contains(from) {
        return (plain, promoted);
    }
    let piece = match position.piece_at(from) {
        Some(p) => p,
        None => return (plain, promoted),
    };
    if piece.color != position.side {
        return (plain, promoted);
    }
    let mut targets = from_candidates(position, piece, from, setting);
    if !setting.is_tsuitate {
        targets = targets.minus(position.piece_bitboard(Piece { kind: PieceKind::King, color: piece.color.flip() }));
    }
    let mut idx: u8 = 1;
    while idx <= 81
        invariant
            position.wf(),
            from.wf(),
            setting.wf(),
            setting.board_mask.has(from.index as int),
            position@.at(from.index as int) == Some(piece),
            piece.color == position@.side,
            targets.wf(),
            forall|i: int| targets.has(i) <==> (candidate(position@, piece, from, *setting, i) && (!setting.is_tsuitate
                ==> position@.at(i) != Some(Piece { kind: PieceKind::King, color: piece.color.spec_flip() }))),
            1 <= idx <= 82,
            plain.wf(),
            promoted.wf(),
            forall|i: int| plain.has(i) <==> (i < idx && valid_index(i) && valid_normal(position@, from, Square { index: i as u8 }, false, *setting)),
            forall|i: int| promoted.has(i) <==> (i < idx && valid_index(i) && valid_normal(position@, from, Square { index: i as u8 }, true, *setting)),
        decreases 82 - idx,
    {
        let to = Square { index: idx };
        if targets.contains(to) {
            let (allow_plain, allow_promoted) = promotion_options(piece, from, to, setting);
            if allow_plain {
                plain = plain.with(to);
            }
            if allow_promoted {
                promoted = promoted.with(to);
            }
        }
        idx = idx + 1;
    }
    (plain, promoted)
}

/// Destinations of valid drops of `piece` (pawn-drop mates excluded outside tsuitate).
pub fn drop_candidates(position: &PartialPosition, piece: Piece, setting: &Setting) -> (r: Bitboard)
    requires
        position.wf(),
        setting.wf(),
    ensures
        r.wf(),
        forall|i: int| r.has(i) <==> (valid_index(i) && valid_drop(position@, piece, Square { index: i as u8 }, *setting)),
{
    let side = position.side;
    let count = match position.hand(piece) {
        Some(x) => x,
        None => 0,
    };
    if piece.color != side || count == 0 {
        let e = Bitboard::empty();
        return e;
    }
    let free = if setting.is_tsuitate {
        position.player_bitboard(piece.color).not()
    } else {
        position.vacant_bitboard()
    };
    let mut targets = setting.board_mask.and(free);
    let kind = piece.kind;
    if setting.game_kind == GameKind::Shogi && (kind.same(PieceKind::Pawn) || kind.same(PieceKind::Lance)
        || kind.same(PieceKind::Knight)) {
        // Squares on ranks where the piece can still move, on files without an own pawn
        // when dropping a pawn.
        let mut allowed = Bitboard::empty();
        let mut file: u8 = 1;
        while file <= 9
            invariant
                position.wf(),
                setting.wf(),
                piece.color == side,
                side == position@.side,
                1 <= file <= 10,
                allowed.wf(),
                forall|i: int| #[trigger] allowed.has(i) <==> (valid_index(i) && index_file(i) < file && drop_rank_ok(kind, rel_rank(i, side, setting.ranks))
                    && !(kind == PieceKind::Pawn && piece_on_file(position@, piece, index_file(i)))),
            decreases 10 - file,
        {
            let pawn_here = kind.same(PieceKind::Pawn) && has_piece_on_file(position, piece, file);
            if !pawn_here {
                let mut rank: u8 = 1;
                while rank <= 9
                    invariant
                        position.wf(),
                        setting.wf(),
                        side == position@.side,
                        1 <= file <= 9,
                        1 <= rank <= 10,
                        !(kind == PieceKind::Pawn && piece_on_file(position@, piece, file as int)),
                        allowed.wf(),
                        forall|i: int| #[trigger] allowed.has(i) <==> (valid_index(i) && (index_file(i) < file || (index_file(i) == file && index_rank(i) < rank))
                            && drop_rank_ok(kind, rel_rank(i, side, setting.ranks))
                            && !(kind == PieceKind::Pawn && piece_on_file(position@, piece, index_file(i)))),
                    decreases 10 - rank,
                {
                    let sq = Square { index: file * 9 + rank - 9 };
                    proof {
                        lemma_coords_index(file as int, rank as int);
                    }
                    let relative = relative_rank(sq, side, setting);
                    let stuck = (relative == 1 && (kind.same(PieceKind::Pawn) || kind.same(PieceKind::Lance)
                        || kind.same(PieceKind::Knight))) || (relative == 2 && kind.same(PieceKind::Knight));
                    if !stuck {
                        allowed = allowed.with(sq);
                    }
                    rank = rank + 1;
                }
            }
            proof {
                assert forall|i: int| #[trigger] allowed.has(i) <==> (valid_index(i) && index_file(i) < file + 1 && drop_rank_ok(kind, rel_rank(i, side, setting.ranks))
                    && !(kind == PieceKind::Pawn && piece_on_file(position@, piece, index_file(i)))) by {
                    if valid_index(i) {
                        lemma_index_coords(i);
                    }
                }
            }
            file = file + 1;
        }
        targets = targets.and(allowed);
    }
    proof {
        assert forall|i: int| targets.has(i) <==> (valid_index(i) && drop_base(position@, piece, Square { index: i as u8 }, *setting)) by {
            if valid_index(i) {
                lemma_index_coords(i);
            }
        }
    }
    if !setting.is_tsuitate && kind.same(PieceKind::Pawn) {
        let unchecked = targets;
        let mut idx: u8 = 1;
        while idx <= 81
            invariant
                position.wf(),
                setting.wf(),
                1 <= idx <= 82,
                targets.wf(),
                unchecked.wf(),
                forall|i: int| unchecked.has(i) <==> (valid_index(i) && drop_base(position@, piece, Square { index: i as u8 }, *setting)),
                forall|i: int| targets.has(i) <==> (valid_index(i) && drop_base(position@, piece, Square { index: i as u8 }, *setting)
                    && (i < idx ==> valid_drop(position@, piece, Square { index: i as u8 }, *setting))),
            decreases 82 - idx,
        {
            let to = Square { index: idx };
            if unchecked.contains(to) {
                if !is_valid_drop(position, piece, to, setting) {
                    targets = targets.minus(Bitboard::single(to));
                }
            }
            idx = idx + 1;
        }
    }
    targets
}

/// A piece of `kind` dropped on relative rank `rank` can still move (shogi).
pub open spec fn drop_rank_ok(kind: PieceKind, rank: int) -> bool {
    !((rank == 1 && (kind == PieceKind::Pawn || kind == PieceKind::Lance || kind == PieceKind::Knight))
        || (rank == 2 && kind == PieceKind::Knight))
}

/// Every condition of a valid drop except the pawn-drop mate.
pub open spec fn drop_base(pos: PosView, piece: Piece, to: Square, setting: Setting) -> bool {
    let rank = rel_rank(to.index as int, pos.side, setting.ranks);
    let kind = piece.kind;
    &&& setting.board_mask.has(to.index as int)
    &&& piece.color == pos.side
    &&& (kind.hand_index() matches Some(s) && pos.hand_count(piece.color, s) > 0)
    &&& (pos.at(to.index as int) matches Some(x) ==> (setting.is_tsuitate && x.color != pos.side))
    &&& !(setting.game_kind == GameKind::Shogi && rank == 1 && (kind == PieceKind::Pawn || kind
        == PieceKind::Lance || kind == PieceKind::Knight))
    &&& !(setting.game_kind == GameKind::Shogi && rank == 2 && kind == PieceKind::Knight)
    &&& !(kind == PieceKind::Pawn && setting.game_kind == GameKind::Shogi && piece_on_file(
        pos,
        piece,
        index_file(to.index as int),
    ))
}

} // verus!

verus! {

/// The drop of `piece` on the square with index `t`.
pub open spec fn drop_move(piece: Piece, t: int) -> Move {
    Move::Drop { piece, to: Square { index: t as u8 } }
}

/// The position of a colour in the order black, white.
pub open spec fn color_number(c: Color) -> int {
    match c {
        Color::Black => 0,
        Color::White => 1,
    }
}

/// The place of a move in the order in which the move lists give them: the normal moves by
/// origin square, then destination square, unpromoted first; then the drops, by piece (kind
/// from pawn to promoted rook, black before white), then destination square.
pub open spec fn move_order(mv: Move) -> int {
    match mv {
        Move::Normal { from, to, promote } => (from.index - 1) * 162 + (to.index - 1) * 2 + if promote {
            1int
        } else {
            0int
        },
        Move::Drop { piece, to } => 13122 + (kind_number(piece.kind) * 2 + color_number(piece.color)) * 81
            + (to.index - 1),
    }
}

/// The moves come in strictly increasing `move_order`: each move once, normal moves first.
pub open spec fn listed_in_order(s: Seq<Move>) -> bool {
    forall|i: int, j: int| 0 <= i < j < s.len() ==> move_order(#[trigger] s[i]) < move_order(#[trigger] s[j])
}

/// All valid moves without considering king's safety: the normal moves, then the drops.
pub fn all_valid_moves(position: &PartialPosition, setting: &Setting) -> (r: Vec<Move>)
    requires
        position.wf(),
        setting.wf(),
    ensures
        forall|j: int| 0 <= j < r@.len() ==> (#[trigger] r@[j]).wf() && valid_move(position@, r@[j], *setting),
        forall|mv: Move| mv.wf() && #[trigger] valid_move(position@, mv, *setting) ==> r@.contains(mv),
        listed_in_order(r@),
        r@.no_duplicates(),
        forall|i: int, j: int| 0 <= i < j < r@.len() && (#[trigger] r@[j]) is Normal ==> (#[trigger] r@[i]) is Normal,
{
    let mut result = all_valid_normal_moves(position, setting);
    proof {
        assert forall|j: int| 0 <= j < result@.len() implies (#[trigger] result@[j]).wf() && valid_move(position@, result@[j], *setting) by {
            assert(result@[j] matches Move::Normal { from, to, promote } && from.wf() && to.wf()
                && valid_normal(position@, from, to, promote, *setting));
        }
    }
    let ghost normals = result@;
    assert forall|j: int| 0 <= j < result@.len() implies #[trigger] move_order(result@[j]) < 13122 by {
        assert(result@[j] matches Move::Normal { from, to, promote } && from.wf() && to.wf());
    }
    let mut k: usize = 0;
    while k < 14
        invariant
            position.wf(),
            setting.wf(),
            k <= 14,
            forall|j: int| 0 <= j < result@.len() ==> (#[trigger] result@[j]).wf() && valid_move(position@, result@[j], *setting),
            forall|j: int| 0 <= j < normals.len() ==> result@[j] == normals[j],
            normals.len() <= result@.len(),
            forall|p: Piece, t: int| valid_index(t) && kind_number(p.kind) < k && #[trigger] valid_drop(position@, p, Square { index: t as u8 }, *setting)
                ==> result@.contains(drop_move(p, t)),
            listed_in_order(result@),
            forall|j: int| 0 <= j < result@.len() ==> #[trigger] move_order(result@[j]) < 13122 + k * 162,
        decreases 14 - k,
    {
        let kind = kind_at(k);
        let mut c: usize = 0;
        while c < 2
            invariant
                position.wf(),
                setting.wf(),
                k < 14,
                c <= 2,
                kind_number(kind) == k,
                forall|j: int| 0 <= j < result@.len() ==> (#[trigger] result@[j]).wf() && valid_move(position@, result@[j], *setting),
                forall|j: int| 0 <= j < normals.len() ==> result@[j] == normals[j],
                normals.len() <= result@.len(),
                forall|p: Piece, t: int| valid_index(t) && (kind_number(p.kind) < k || (p.kind == kind && (c >= 1 && p.color == Color::Black || c >= 2)))
                    && #[trigger] valid_drop(position@, p, Square { index: t as u8 }, *setting) ==> result@.contains(drop_move(p, t)),
                listed_in_order(result@),
                forall|j: int| 0 <= j < result@.len() ==> #[trigger] move_order(result@[j]) < 13122 + (k * 2 + c) * 81,
            decreases 2 - c,
        {
            let color = if c == 0 { Color::Black } else { Color::White };
            let piece = Piece { kind, color };
            let mut t: u8 = 1;
            while t <= 81
                invariant
                    position.wf(),
                    setting.wf(),
                    k < 14,
                    c < 2,
                    kind_number(kind) == k,
                    piece == (Piece { kind, color }),
                    color == (if c == 0 { Color::Black } else { Color::White }),
                    1 <= t <= 82,
                    forall|j: int| 0 <= j < result@.len() ==> (#[trigger] result@[j]).wf() && valid_move(position@, result@[j], *setting),
                    forall|j: int| 0 <= j < normals.len() ==> result@[j] == normals[j],
                    normals.len() <= result@.len(),
                    forall|p: Piece, u: int| valid_index(u) && (kind_number(p.kind) < k || (p.kind == kind && (c >= 1 && p.color == Color::Black))
                        || (p == piece && u < t))
                        && #[trigger] valid_drop(position@, p, Square { index: u as u8 }, *setting) ==> result@.contains(drop_move(p, u)),
                    listed_in_order(result@),
                    forall|j: int| 0 <= j < result@.len() ==> #[trigger] move_order(result@[j]) < 13122 + (k * 2 + c) * 81 + (t - 1),
                decreases 82 - t,
            {
                let to = Square { index: t };
                let ghost before = result@;
                if is_valid_drop(position, piece, to, setting) {
                    result.push(Move::Drop { piece, to });
                    assert(result@[result@.len() - 1] == drop_move(piece, t as int));
                }
                assert(forall|j: int| 0 <= j < before.len() ==> result@[j] == before[j]);
                t = t + 1;
            }
            c = c + 1;
        }
        k = k + 1;
    }
    proof {
        assert forall|i: int, j: int| 0 <= i < j < result@.len() implies result@[i] != result@[j] by {
            assert(move_order(result@[i]) < move_order(result@[j]));
        }
        assert forall|i: int, j: int| 0 <= i < j < result@.len() && (#[trigger] result@[j]) is Normal implies (#[trigger] result@[i]) is Normal by {
            assert(move_order(result@[i]) < move_order(result@[j]));
        }
        assert forall|mv: Move| mv.wf() && #[trigger] valid_move(position@, mv, *setting) implies result@.contains(mv) by {
            match mv {
                Move::Normal { from, to, promote } => {
                    assert(mv == normal_move(from.index as int, to.index as int, promote));
                    assert(valid_normal(position@, Square { index: from.index as u8 }, Square { index: to.index as u8 }, promote, *setting));
                    assert(normals.contains(mv));
                    let j = choose|j: int| 0 <= j < normals.len() && normals[j] == mv;
                    assert(result@[j] == mv);
                },
                Move::Drop { piece, to } => {
                    assert(mv == drop_move(piece, to.index as int));
                    assert(valid_drop(position@, piece, Square { index: to.index as u8 }, *setting));
                    assert(kind_number(piece.kind) < 14);
                },
            }
        }
    }
    result
}

/// The position of a kind in the order pawn .. promoted rook (0..14).
pub open spec fn kind_number(k: PieceKind) -> int {
    match k {
        PieceKind::Pawn => 0,
        PieceKind::Lance => 1,
        PieceKind::Knight => 2,
        PieceKind::Silver => 3,
        PieceKind::Gold => 4,
        PieceKind::Bishop => 5,
        PieceKind::Rook => 6,
        PieceKind::King => 7,
        PieceKind::ProPawn => 8,
        PieceKind::ProLance => 9,
        PieceKind::ProKnight => 10,
        PieceKind::ProSilver => 11,
        PieceKind::ProBishop => 12,
        PieceKind::ProRook => 13,
    }
}

/// The kind numbered `k` in the order pawn .. promoted rook.
fn kind_at(k: usize) -> (r: PieceKind)
    requires
        k < 14,
    ensures
        kind_number(r) == k,
{
    if k == 0 {
        PieceKind::Pawn
    } else if k == 1 {
        PieceKind::Lance
    } else if k == 2 {
        PieceKind::Knight
    } else if k == 3 {
        PieceKind::Silver
    } else if k == 4 {
        PieceKind::Gold
    } else if k == 5 {
        PieceKind::Bishop
    } else if k == 6 {
        PieceKind::Rook
    } else if k == 7 {
        PieceKind::King
    } else if k == 8 {
        PieceKind::ProPawn
    } else if k == 9 {
        PieceKind::ProLance
    } else if k == 10 {
        PieceKind::ProKnight
    } else if k == 11 {
        PieceKind::ProSilver
    } else if k == 12 {
        PieceKind::ProBishop
    } else {
        PieceKind::ProRook
    }
}

/// The setting used to answer a check: the same variant with full information.
pub open spec fn response_setting(setting: Setting) -> Setting {
    Setting { is_tsuitate: false, ..setting }
}

/// The side to move cannot escape: with full information, every valid move (normal or drop)
/// leaves its king capturable. The king need not be in check now. `None` when the side to
/// move has no recorded king square.
pub open spec fn spec_is_mate(pos: PosView, setting: Setting) -> Option<bool> {
    if pos.king(pos.side) is None {
        None
    } else {
        Some(
            forall|mv: Move| mv.wf() && #[trigger] valid_move(pos, mv, response_setting(setting))
                ==> king_capturable(play(pos, mv), pos.side.spec_flip(), setting.game_kind) == Some(true),
        )
    }
}

/// Checks if the side to move's king cannot escape being captured, whether or not it is in
/// check now: `None` if it has no king.
pub fn is_mate(position: &PartialPosition, setting: &Setting) -> (r: Option<bool>)
    requires
        position.wf(),
        setting.wf(),
    ensures
        r == spec_is_mate(position@, *setting),
{
    let side = position.side;
    if position.king_position(side).is_none() {
        return None;
    }
    let response = Setting { is_tsuitate: false, ..*setting };
    let all = all_valid_moves(position, &response);
    let mut k: usize = 0;
    while k < all.len()
        invariant
            position.wf(),
            response.wf(),
            response == response_setting(*setting),
            side == position@.side,
            position@.king(side) is Some,
            k <= all@.len(),
            forall|j: int| 0 <= j < all@.len() ==> (#[trigger] all@[j]).wf() && valid_move(position@, all@[j], response),
            forall|j: int| 0 <= j < k ==> king_capturable(#[trigger] play(position@, all@[j]), side.spec_flip(), setting.game_kind)
                == Some(true),
        decreases all@.len() - k,
    {
        let mv = all[k];
        let mut next = position.copy();
        proof {
            match mv {
                Move::Normal { from, to, promote } => {
                    lemma_valid_normal_playable(position@, from, to, promote, response);
                },
                Move::Drop { piece, to } => {
                    lemma_valid_drop_playable(position@, piece, to, response);
                },
            }
        }
        let _ = next.make_move(mv);
        proof {
            lemma_after_move_keeps_kings(position@, mv, side);
        }
        match will_king_be_captured(&next, next.side, setting.game_kind) {
            Some(true) => {},
            _ => {
                return Some(false);
            },
        }
        k = k + 1;
    }
    proof {
        assert forall|mv: Move| mv.wf() && #[trigger] valid_move(position@, mv, response_setting(*setting))
            implies king_capturable(play(position@, mv), side.spec_flip(), setting.game_kind) == Some(true) by {
            let j = choose|j: int| 0 <= j < all@.len() && all@[j] == mv;
            assert(king_capturable(play(position@, all@[j]), side.spec_flip(), setting.game_kind) == Some(true));
        }
    }
    Some(true)
}

} // verus!
