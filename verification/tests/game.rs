use tsuitate::convert::{
    csa_color_to_color, csa_coord_digit, csa_to_move, csa_to_piece_kind, move_to_csa, nth_ascii,
    piece_kind_to_csa, piece_kind_to_sfen, piece_to_sfen, CsaParseError,
};
use tsuitate::game::{Game, Info};
use tsuitate::position::PartialPosition;
use tsuitate::prelegality::is_mate;
use tsuitate::setting::{GameKind, Setting};
use tsuitate::types::{Color, Move, Piece, PieceKind, Square};

fn sq(file: u8, rank: u8) -> Square {
    Square::new(file, rank).unwrap()
}

fn startpos() -> PartialPosition {
    PartialPosition::from_sfen("startpos").unwrap()
}

fn position(sfen: &str) -> PartialPosition {
    PartialPosition::from_sfen(sfen).unwrap()
}

#[test]
fn csa_to_move_reports_invalid_input() {
    let position = startpos();

    assert_eq!(csa_to_move("+7776", &position), Err(CsaParseError::TooShort));
    assert_eq!(csa_to_move("*7776FU", &position), Err(CsaParseError::InvalidColor));
    assert_eq!(
        csa_to_move("+7a76FU", &position),
        Err(CsaParseError::InvalidDigit { index: 2 })
    );
    assert_eq!(
        csa_to_move("+0076XX", &position),
        Err(CsaParseError::UnknownPieceCode("XX".to_owned()))
    );
}

#[test]
fn csa_color_to_color_requires_one_sign() {
    assert_eq!(csa_color_to_color("+"), Some(Color::Black));
    assert_eq!(csa_color_to_color("-"), Some(Color::White));
    assert_eq!(csa_color_to_color(""), None);
    assert_eq!(csa_color_to_color("++"), None);
}

#[test]
fn csa_to_move_reports_missing_from_piece() {
    let position = startpos();
    let square = sq(5, 5);

    assert_eq!(
        csa_to_move("+5554FU", &position),
        Err(CsaParseError::MissingPiece { square })
    );
}

#[test]
fn csa_to_move_reports_color_mismatch() {
    let position = startpos();

    assert_eq!(
        csa_to_move("-7776FU", &position),
        Err(CsaParseError::ColorMismatch {
            expected: Color::Black,
            actual: Color::White,
        })
    );
}

#[test]
fn move_to_csa_accepts_position_after_move() {
    let mut position = startpos();
    let mv = Move::Normal {
        from: sq(7, 7),
        to: sq(7, 6),
        promote: false,
    };
    position.make_move(mv).unwrap();

    assert_eq!(move_to_csa(mv, &position).as_deref(), Some("+7776FU"));
}

#[test]
fn test_foul_move() {
    let mut game = Game::new(
        position("sfen lnsgkgsnl/1r5b1/ppppppppp/9/9/9/PPPPPPPPP/1B5R1/LNSGKGSNL b - 1"),
        [9, 9],
        150,
        None,
    );
    let setting = Setting::new(9, 9, 3, GameKind::Shogi, true);
    let mv = csa_to_move("+7776FU", &game.inner).unwrap();
    game.make_move(mv, &setting);
    let mv = csa_to_move("-3334FU", &game.inner).unwrap();
    game.make_move(mv, &setting);
    let mv = csa_to_move("+5968OU", &game.inner).unwrap();
    game.make_move(mv, &setting);
    let mv = csa_to_move("-5142OU", &game.inner).unwrap();
    game.make_move(mv, &setting);
    let mv = csa_to_move("+6877OU", &game.inner).unwrap();
    game.make_move(mv, &setting);

    assert_eq!(game.last_info, Some(Info::Foul));
    assert_eq!(game.fouls, [8, 9]);
}

#[test]
fn test_drop_foul_move() {
    let mut game = Game::new(position("sfen 6gks/7p1/7P1/6SKG/9/9/9/9/9 b - 1"), [9, 9], 150, None);
    let setting = Setting::new(3, 4, 1, GameKind::Dobutsu, false);
    let mv = csa_to_move("+2322FU", &game.inner).unwrap();
    game.make_move(mv, &setting);
    let mv = csa_to_move("-1122GI", &game.inner).unwrap();
    game.make_move(mv, &setting);
    let mv = csa_to_move("+0022FU", &game.inner).unwrap();
    let result = game.make_move(mv, &setting);
    assert_eq!(result, None);
    let setting = Setting::new(3, 4, 1, GameKind::Dobutsu, true);
    let mv = csa_to_move("+0022FU", &game.inner).unwrap();
    let result = game.make_move(mv, &setting);
    assert_eq!(result, Some(()));
    assert_eq!(game.last_info, Some(Info::Foul));
}

#[test]
fn test_smaller_board() {
    let game = Game::new(position("sfen 7gg/7K1/9/9/9/9/9/9/9 b - 1"), [9, 9], 150, None);
    let setting = Setting::new(9, 9, 3, GameKind::Shogi, true);
    assert_eq!(is_mate(&game.inner, &setting), Some(false));
    // it is mate when board size is 2 x 2
    let setting = Setting::new(2, 2, 1, GameKind::Shogi, true);
    assert_eq!(is_mate(&game.inner, &setting), Some(true));
}

#[test]
fn test_dobutsu() {
    let mut game = Game::new(position("sfen 6gks/7p1/7P1/6SKG/9/9/9/9/9 b - 1"), [9, 9], 150, None);
    let setting = Setting::new(3, 4, 1, GameKind::Dobutsu, true);
    let mv = csa_to_move("+3433GI", &game.inner).unwrap();
    let result = game.make_move(mv, &setting);
    // in dobutsu, GI represents Elephant, which only moves diagonally
    assert_eq!(result, None);
    let setting = Setting::new(3, 4, 1, GameKind::Shogi, true);
    let mv = csa_to_move("+3433GI", &game.inner).unwrap();
    let result = game.make_move(mv, &setting);
    assert_eq!(result, Some(()));
}

#[test]
fn csa_helpers_read_digits_and_bytes() {
    assert_eq!(nth_ascii("+7776FU", 0), Some('+'));
    assert_eq!(nth_ascii("+7", 2), None);
    assert_eq!(csa_coord_digit("77", 1), Some(7));
    assert_eq!(csa_coord_digit("7a", 1), None);
    assert_eq!(csa_coord_digit("7", 1), None);
}

#[test]
fn piece_names_round_trip() {
    for kind in [
        PieceKind::Pawn,
        PieceKind::Lance,
        PieceKind::Knight,
        PieceKind::Silver,
        PieceKind::Gold,
        PieceKind::Bishop,
        PieceKind::Rook,
        PieceKind::King,
        PieceKind::ProPawn,
        PieceKind::ProLance,
        PieceKind::ProKnight,
        PieceKind::ProSilver,
        PieceKind::ProBishop,
        PieceKind::ProRook,
    ] {
        let name = piece_kind_to_csa(kind);
        assert_eq!(csa_to_piece_kind(&name), Ok(kind));
    }
    assert_eq!(piece_kind_to_csa(PieceKind::ProRook), "RY");
    assert_eq!(piece_kind_to_sfen(PieceKind::ProPawn), "+P");
    assert_eq!(piece_to_sfen(Piece::new(PieceKind::Rook, Color::White)), "r");
    assert_eq!(
        csa_to_piece_kind("ZZZ"),
        Err(CsaParseError::UnknownPieceCode("ZZZ".to_owned()))
    );
}

#[test]
fn csa_to_move_reads_drops_promotions_and_bad_squares() {
    let mut pos = position("sfen 4k4/9/9/9/9/9/9/9/4K4 b P 1");
    assert_eq!(
        csa_to_move("+0055FU", &pos),
        Ok(Move::Drop {
            piece: Piece::new(PieceKind::Pawn, Color::Black),
            to: sq(5, 5),
        })
    );
    assert_eq!(
        csa_to_move("+0005FU", &pos),
        Err(CsaParseError::InvalidSquare { file: 0, rank: 5 })
    );
    pos.piece_set(sq(2, 4), Some(Piece::new(PieceKind::Silver, Color::Black)));
    assert_eq!(
        csa_to_move("+2423NG", &pos),
        Ok(Move::Normal {
            from: sq(2, 4),
            to: sq(2, 3),
            promote: true,
        })
    );
}

#[test]
fn refused_moves_leave_the_game_unchanged() {
    let mut game = Game::new(startpos(), [1, 1], 150, None);
    let setting = Setting::new(9, 9, 3, GameKind::Shogi, false);
    let before = game.to_sfen_owned();
    let result = game.make_move(
        Move::Normal {
            from: sq(7, 7),
            to: sq(7, 5),
            promote: false,
        },
        &setting,
    );
    assert_eq!(result, None);
    assert_eq!(game.to_sfen_owned(), before);
    assert_eq!(game.fouls, [1, 1]);
    assert_eq!(game.last_move, None);
}

#[test]
fn losing_by_fouls_ends_the_game() {
    let mut game = Game::new(
        position("sfen lnsgkgsnl/1r5b1/ppppppppp/9/9/9/PPPPPPPPP/1B5R1/LNSGKGSNL b - 1"),
        [0, 0],
        150,
        None,
    );
    let setting = Setting::new(9, 9, 3, GameKind::Shogi, true);
    let mv = csa_to_move("+7776FU", &game.inner).unwrap();
    assert_eq!(game.make_move(mv, &setting), Some(()));
    let mv = csa_to_move("-3334FU", &game.inner).unwrap();
    assert_eq!(game.make_move(mv, &setting), Some(()));
    let mv = csa_to_move("+5968OU", &game.inner).unwrap();
    assert_eq!(game.make_move(mv, &setting), Some(()));
    let mv = csa_to_move("-5142OU", &game.inner).unwrap();
    assert_eq!(game.make_move(mv, &setting), Some(()));
    // the bishop's diagonal is open: stepping onto it is a foul, and with no allowance left
    // the game is lost
    let mv = csa_to_move("+6877OU", &game.inner).unwrap();
    assert_eq!(game.make_move(mv, &setting), Some(()));
    assert_eq!(game.last_info, Some(Info::LossByFoul));
    assert_eq!(game.fouls, [-1, 0]);
    let mv = csa_to_move("-4232OU", &game.inner).unwrap();
    assert_eq!(game.make_move(mv, &setting), None);
}

#[test]
fn info_numbers_round_trip() {
    for n in 0..=6u8 {
        assert_eq!(Info::from_u8(n).unwrap().to_u8(), n);
    }
    assert_eq!(Info::from_u8(7), None);
    assert_eq!(Info::Check.to_u8(), 3);
    assert_eq!(GameKind::from_u8(GameKind::Dobutsu.to_u8()), Some(GameKind::Dobutsu));
    assert_eq!(GameKind::from_u8(0), None);
}

#[test]
fn csa_text_reads_back_as_the_same_move() {
    let mut pos = position("sfen 4k4/9/9/9/9/4S4/9/9/4K4 b G 1");
    let moves = [
        Move::Normal { from: sq(5, 6), to: sq(5, 5), promote: false },
        Move::Normal { from: sq(5, 6), to: sq(4, 5), promote: false },
        Move::Drop { piece: Piece::new(PieceKind::Gold, Color::Black), to: sq(1, 1) },
        Move::Drop { piece: Piece::new(PieceKind::Rook, Color::White), to: sq(9, 9) },
    ];
    for mv in moves {
        let text = move_to_csa(mv, &pos).unwrap();
        assert_eq!(csa_to_move(&text, &pos), Ok(mv));
    }
    pos.piece_set(sq(5, 4), Some(Piece::new(PieceKind::Silver, Color::Black)));
    let promoting = Move::Normal { from: sq(5, 4), to: sq(5, 3), promote: true };
    let text = move_to_csa(promoting, &pos).unwrap();
    assert_eq!(text, "+5453NG");
    assert_eq!(csa_to_move(&text, &pos), Ok(promoting));
}
