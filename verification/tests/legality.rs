use tsuitate::bitboard::Bitboard;
use tsuitate::normal::{from_candidates, gold, pawn, silver};
use tsuitate::position::PartialPosition;
use tsuitate::prelegality::{drop_candidates, is_mate, is_valid, normal_move_candidates};
use tsuitate::setting::{GameKind, Setting};
use tsuitate::types::{Color, Move, Piece, PieceKind, Square};

fn sq(file: u8, rank: u8) -> Square {
    Square::new(file, rank).unwrap()
}

fn single(file: u8, rank: u8) -> Bitboard {
    Bitboard::single(sq(file, rank))
}

fn all_squares() -> Vec<Square> {
    (1..=81).map(|i| Square::from_u8(i).unwrap()).collect()
}

fn count(bb: Bitboard) -> usize {
    all_squares().into_iter().filter(|s| bb.contains(*s)).count()
}

fn flip_square(s: Square) -> Square {
    Square::from_u8(82 - s.index()).unwrap()
}

fn flip(bb: Bitboard) -> Bitboard {
    let mut r = Bitboard::empty();
    for s in all_squares() {
        if bb.contains(s) {
            r = r.with(flip_square(s));
        }
    }
    r
}

fn startpos() -> PartialPosition {
    PartialPosition::from_sfen("startpos").unwrap()
}

fn normal(from: Square, to: Square) -> Move {
    Move::Normal { from, to, promote: false }
}

#[test]
fn pawn_moves_are_correct() {
    let setting = Setting::new(9, 9, 3, GameKind::Shogi, false);
    let position = startpos();
    let pawn_piece = Piece::new(PieceKind::Pawn, Color::Black);
    let attacking = from_candidates(&position, pawn_piece, sq(7, 7), &setting);
    assert_eq!(attacking, single(7, 6));

    for color in [Color::Black, Color::White] {
        for square in all_squares() {
            let relative_rank = match color {
                Color::Black => square.rank(),
                Color::White => 10 - square.rank(),
            };
            if relative_rank == 1 {
                let _ = pawn(color, square);
                continue;
            }
            let result = pawn(color, square);
            assert_eq!(count(result), 1);
        }
    }
    for square in all_squares() {
        let result_black = pawn(Color::Black, square);
        let result_white = pawn(Color::White, flip_square(square));
        assert_eq!(flip(result_white), result_black);
    }
}

#[test]
fn knight_moves_are_correct() {
    let setting = Setting::new(9, 9, 3, GameKind::Shogi, false);
    let mut position = startpos();
    for mv in [normal(sq(7, 7), sq(7, 6)), normal(sq(3, 3), sq(3, 4))] {
        position.make_move(mv).unwrap();
    }
    let knight = Piece::new(PieceKind::Knight, Color::Black);
    let attacking = from_candidates(&position, knight, sq(8, 9), &setting);
    assert_eq!(attacking, single(7, 7));
}

#[test]
fn silver_moves_are_correct() {
    let setting = Setting::new(9, 9, 3, GameKind::Shogi, false);
    let position = startpos();
    let silver_piece = Piece::new(PieceKind::Silver, Color::Black);
    let attacking = from_candidates(&position, silver_piece, sq(3, 9), &setting);
    assert_eq!(attacking, single(3, 8).or(single(4, 8)));

    let expected = single(7, 2).or(single(9, 2));
    assert_eq!(silver(Color::Black, 8, 1, GameKind::Shogi), expected);
    let expected = single(7, 2).or(single(8, 2)).or(single(9, 2));
    assert_eq!(silver(Color::White, 8, 1, GameKind::Shogi), expected);

    for color in [Color::Black, Color::White] {
        for square in all_squares() {
            let result = silver(color, square.file(), square.rank(), GameKind::Shogi);
            assert!(count(result) <= 5);
        }
    }
    for square in all_squares() {
        let result_black = silver(Color::Black, square.file(), square.rank(), GameKind::Shogi);
        let f = flip_square(square);
        let result_white = silver(Color::White, f.file(), f.rank(), GameKind::Shogi);
        assert_eq!(flip(result_white), result_black);
    }
}

#[test]
fn gold_moves_are_correct() {
    let setting = Setting::new(9, 9, 3, GameKind::Shogi, false);
    let position = startpos();
    let gold_piece = Piece::new(PieceKind::Gold, Color::Black);
    let attacking = from_candidates(&position, gold_piece, sq(4, 9), &setting);
    assert_eq!(attacking, single(3, 8).or(single(4, 8)).or(single(5, 8)));

    let expected = single(7, 1).or(single(8, 2)).or(single(9, 1));
    assert_eq!(gold(Color::Black, 8, 1, GameKind::Shogi), expected);
    let expected = single(7, 1).or(single(7, 2)).or(single(8, 2)).or(single(9, 1)).or(single(9, 2));
    assert_eq!(gold(Color::White, 8, 1, GameKind::Shogi), expected);

    for color in [Color::Black, Color::White] {
        for square in all_squares() {
            let result = gold(color, square.file(), square.rank(), GameKind::Shogi);
            assert!(count(result) <= 6);
        }
    }
    for square in all_squares() {
        let result_black = gold(Color::Black, square.file(), square.rank(), GameKind::Shogi);
        let f = flip_square(square);
        let result_white = gold(Color::White, f.file(), f.rank(), GameKind::Shogi);
        assert_eq!(flip(result_white), result_black);
    }
}

#[test]
fn king_moves_are_correct() {
    let setting = Setting::new(9, 9, 3, GameKind::Shogi, false);
    let position = startpos();
    let king = Piece::new(PieceKind::King, Color::Black);
    let attacking = from_candidates(&position, king, sq(5, 9), &setting);
    assert_eq!(attacking, single(4, 8).or(single(5, 8)).or(single(6, 8)));
}

#[test]
fn bishop_moves_are_correct() {
    let setting = Setting::new(9, 9, 3, GameKind::Shogi, false);
    let mut position = startpos();
    for mv in [normal(sq(7, 7), sq(7, 6)), normal(sq(3, 3), sq(3, 4))] {
        position.make_move(mv).unwrap();
    }
    let bishop = Piece::new(PieceKind::Bishop, Color::Black);
    let attacking = from_candidates(&position, bishop, sq(8, 8), &setting);
    let expected = single(2, 2).or(single(3, 3)).or(single(4, 4)).or(single(5, 5)).or(single(6, 6)).or(single(7, 7));
    assert_eq!(attacking, expected);
}

#[test]
fn rook_moves_are_correct() {
    let setting = Setting::new(9, 9, 3, GameKind::Shogi, false);
    let position = startpos();
    let rook = Piece::new(PieceKind::Rook, Color::Black);
    let attacking = from_candidates(&position, rook, sq(2, 8), &setting);
    let expected = single(1, 8).or(single(3, 8)).or(single(4, 8)).or(single(5, 8)).or(single(6, 8)).or(single(7, 8));
    assert_eq!(attacking, expected);
}

fn all_pieces() -> Vec<Piece> {
    let kinds = [
        PieceKind::Pawn, PieceKind::Lance, PieceKind::Knight, PieceKind::Silver, PieceKind::Gold,
        PieceKind::Bishop, PieceKind::Rook, PieceKind::King, PieceKind::ProPawn, PieceKind::ProLance,
        PieceKind::ProKnight, PieceKind::ProSilver, PieceKind::ProBishop, PieceKind::ProRook,
    ];
    let mut r = Vec::new();
    for k in kinds {
        for c in [Color::Black, Color::White] {
            r.push(Piece::new(k, c));
        }
    }
    r
}

#[test]
fn bulk_candidates_match_single_move_validation() {
    for (files, ranks, zone, kind) in [
        (9, 9, 3, GameKind::Shogi),
        (5, 5, 1, GameKind::Shogi),
        (3, 4, 1, GameKind::Dobutsu),
        (5, 5, 0, GameKind::Shogi),
    ] {
        for tsuitate in [false, true] {
            for side in [Color::Black, Color::White] {
                let mut position = PartialPosition::from_sfen(
                    "sfen 4rbsgk/4+n+l+ppp/4+B+R+S+L+N/4PLNSG/4KGSBR/9/9/9/9 b RBGSNLP 1",
                )
                .unwrap();
                position.side_to_move_set(side);
                let black_hand = position.hand_of_a_player(Color::Black);
                position.hand_of_a_player_set(side, &black_hand);
                let setting = Setting::new(files, ranks, zone, kind, tsuitate);
                for from in all_squares() {
                    let (plain, promoted) = normal_move_candidates(&position, from, &setting);
                    for to in all_squares() {
                        for (promote, candidates) in [(false, plain), (true, promoted)] {
                            assert_eq!(
                                candidates.contains(to),
                                is_valid(&position, Move::Normal { from, to, promote }, &setting),
                                "{setting:?} {side:?} {from:?} {to:?} {promote}"
                            );
                        }
                    }
                }
                for piece in all_pieces() {
                    let candidates = drop_candidates(&position, piece, &setting);
                    for to in all_squares() {
                        assert_eq!(
                            candidates.contains(to),
                            is_valid(&position, Move::Drop { piece, to }, &setting),
                            "{setting:?} {piece:?} {to:?}"
                        );
                    }
                }
            }
        }
    }
}

#[test]
fn drop_pawn_0() {
    let setting = Setting::new(9, 9, 3, GameKind::Shogi, false);
    let position = PartialPosition::from_sfen("sfen 7l1/7pk/7n1/8R/7N1/9/9/9/9 w r2b4g4s2n3l17p 1").unwrap();
    let mv = Move::Drop { piece: Piece::new(PieceKind::Pawn, Color::White), to: sq(1, 3) };
    assert!(is_valid(&position, mv, &setting));
}

#[test]
fn drop_pawn_mate_is_invalid() {
    let setting = Setting::new(9, 9, 3, GameKind::Shogi, false);
    let position = PartialPosition::from_sfen("sfen 8k/7R1/7G1/9/9/9/9/9/K8 b P 1").unwrap();
    let mv = Move::Drop { piece: Piece::new(PieceKind::Pawn, Color::Black), to: sq(1, 2) };
    assert!(!is_valid(&position, mv, &setting));
}

#[test]
fn mate_after_3957_pro_bishop_does_not_recurse_through_pawn_drops() {
    let setting = Setting::new(9, 9, 3, GameKind::Shogi, true);
    let mut position = PartialPosition::from_sfen(
        "sfen 6knl/4G4/3pgppSp/3+b1n+S2/+SN5P1/l1PKN2G1/1P1PP3P/3g3+sL/2+r1r1b2 w L5P2p 112",
    )
    .unwrap();
    position.make_move(normal(sq(3, 9), sq(5, 7))).unwrap();
    assert_eq!(is_mate(&position, &setting), Some(true));
}

#[test]
fn mate_responses_use_non_tsuitate_legality() {
    let setting = Setting::new(1, 2, 1, GameKind::Shogi, true);
    let position = PartialPosition::from_sfen("sfen 8k/8K/9/9/9/9/9/9/9 b - 1").unwrap();
    assert_eq!(is_mate(&position, &setting), Some(true));
}
