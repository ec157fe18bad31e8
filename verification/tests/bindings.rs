use tsuitate::game::Info;
use tsuitate::game_api::{GameApi, GameApiError};
use tsuitate::setting::GameKind;
use tsuitate::sfen_util::{denormalize_sfen_from_9x9, normalize_sfen_to_9x9, SfenNormalizeError};
use tsuitate::types::{Color, Move, PieceKind, Square};
use tsuitate::wasm_game::WasmGame;

const START: &str = "sfen lnsgkgsnl/1r5b1/ppppppppp/9/9/9/PPPPPPPPP/1B5R1/LNSGKGSNL b - 1";

fn new_standard_game() -> GameApi {
    GameApi::new(START, GameKind::Shogi.to_u8(), false, 3, 9, 9, 150, None).unwrap()
}

fn new_wasm_game() -> WasmGame {
    WasmGame::new(START, GameKind::Shogi.to_u8(), false, 3, 9, 9, 150, None).unwrap()
}

#[test]
fn sfen_hides_opponent_board_and_hand_for_viewpoint() {
    let game = GameApi::new(
        "sfen lnsgkgsnl/1r5b1/ppppppppp/9/9/9/PPPPPPPPP/1B5R1/LNSGKGSNL b Pp 1",
        GameKind::Shogi.to_u8(),
        false,
        3,
        9,
        9,
        150,
        None,
    )
    .unwrap();

    assert_eq!(
        game.sfen(Some(Color::Black), false),
        "9/9/9/9/9/9/PPPPPPPPP/1B5R1/LNSGKGSNL b P 1"
    );
    assert_eq!(
        game.sfen(Some(Color::White), false),
        "lnsgkgsnl/1r5b1/ppppppppp/9/9/9/9/9/9 b p 1"
    );
}

#[test]
fn dark_shogi_sfen_marks_unseen_squares_and_reveals_attacks() {
    let game = GameApi::new(
        "sfen 9/9/9/9/9/4p4/9/4R4/4K4 b Pp 1",
        GameKind::Shogi.to_u8(),
        false,
        3,
        9,
        9,
        150,
        None,
    )
    .unwrap();

    assert_eq!(
        game.sfen(Some(Color::Black), true),
        "?????????/?????????/?????????/?????????/?????????/????p????/????1????/4R4/???1K1??? b P 1"
    );
}

#[test]
fn new_treats_dark_shogi_unknown_squares_as_empty() {
    let game = GameApi::new(
        "sfen ?????????/?????????/?????????/?????????/?????????/????p????/????1????/4R4/???1K1??? b P 1",
        GameKind::Shogi.to_u8(),
        false,
        3,
        9,
        9,
        150,
        None,
    )
    .unwrap();

    assert_eq!(game.sfen(None, false), "9/9/9/9/9/4p4/9/4R4/4K4 b P 1");
}

#[test]
fn last_move_csa_hides_opponent_move_without_capture() {
    let mut game = new_standard_game();
    assert!(game.make_move("+7776FU"));

    assert_eq!(game.last_move_csa(Some(Color::Black)).as_deref(), Some("+7776FU"));
    assert_eq!(game.last_move_csa(Some(Color::White)).as_deref(), Some("+0000ZZ"));
}

#[test]
fn last_move_csa_reveals_only_destination_for_opponent_capture() {
    let mut game = GameApi::new(
        "sfen 9/9/9/9/9/9/9/9/9 w - 2",
        GameKind::Shogi.to_u8(),
        false,
        3,
        9,
        9,
        150,
        None,
    )
    .unwrap();
    game.inner.last_move = Some(Move::Normal {
        from: Square::new(5, 9).unwrap(),
        to: Square::new(5, 7).unwrap(),
        promote: false,
    });
    game.inner.last_capture = Some(PieceKind::Pawn);

    assert_eq!(game.last_move_csa(Some(Color::White)).as_deref(), Some("+0057ZZ"));
}

#[test]
fn game_api_new_sets_initial_last_info() {
    let game = GameApi::new(
        START,
        GameKind::Shogi.to_u8(),
        false,
        3,
        9,
        9,
        150,
        Some(Info::Check.to_u8()),
    )
    .unwrap();

    assert_eq!(game.last_info(), Some(Info::Check));
}

#[test]
fn new_rejects_invalid_last_info() {
    let result = GameApi::new(START, GameKind::Shogi.to_u8(), false, 3, 9, 9, 150, Some(7));

    assert!(matches!(result, Err(GameApiError::InvalidLastInfo)));
}

#[test]
fn wasm_game_test_make_a_move() {
    let mut game = new_wasm_game();
    assert_eq!(game.last_move(), None);
    let result = game.make_move("+7776FU");

    assert!(result, "make_move should return true for +7776FU");
    assert_eq!(game.last_move().as_deref(), Some("+7776FU"));
    assert_eq!(
        game.sfen(),
        "lnsgkgsnl/1r5b1/ppppppppp/9/9/2P6/PP1PPPPPP/1B5R1/LNSGKGSNL w - 2"
    )
}

#[test]
fn viewpoint_helpers_hide_opponent_state() {
    let mut game = new_wasm_game();

    assert_eq!(
        game.sfen_for(Some('+'), None).unwrap(),
        "9/9/9/9/9/9/PPPPPPPPP/1B5R1/LNSGKGSNL b - 1"
    );
    assert!(game.make_move("+7776FU"));
    assert_eq!(game.last_move_for(Some('+')).unwrap().as_deref(), Some("+7776FU"));
    assert_eq!(game.last_move_for(Some('-')).unwrap().as_deref(), Some("+0000ZZ"));
    assert!(game.sfen_for(Some('*'), None).is_err());
    assert!(game.sfen_for(Some('+'), Some(true)).unwrap().contains('?'));
}

#[test]
fn wasm_game_test_make_moves() {
    let mut game = new_wasm_game();
    game.make_move("+7776FU");
    let result = game.make_move("-3334FU");

    assert!(result, "make_move should return true");
    assert_eq!(
        game.sfen(),
        "lnsgkgsnl/1r5b1/pppppp1pp/6p2/9/2P6/PP1PPPPPP/1B5R1/LNSGKGSNL b - 3"
    )
}

#[test]
fn make_move_ignore_turn_restores_turn_after_failure() {
    let mut game = new_wasm_game();

    assert!(!game.make_move_ignore_turn("+7775FU"));
    assert_eq!(
        game.sfen(),
        "lnsgkgsnl/1r5b1/ppppppppp/9/9/9/PPPPPPPPP/1B5R1/LNSGKGSNL b - 1"
    );
}

#[test]
fn from_candidates_returns_empty_for_invalid_input() {
    let game = new_wasm_game();

    assert!(game.from_candidates('*', "77", "FU", false, false).is_empty());
    assert!(game.from_candidates('+', "7", "FU", false, false).is_empty());
    assert!(game.from_candidates('+', "7a", "FU", false, false).is_empty());
    assert!(game.from_candidates('+', "00", "XX", false, false).is_empty());
    assert!(game.from_candidates('+', "99", "FU", false, false).is_empty());
}

#[test]
fn wasm_game_new_sets_initial_last_info() {
    let game = WasmGame::new(
        START,
        GameKind::Shogi.to_u8(),
        false,
        3,
        9,
        9,
        150,
        Some(Info::Check.to_u8()),
    )
    .unwrap();

    assert_eq!(game.last_info(), Some(Info::Check.to_u8()));
}

#[test]
fn new_returns_error_for_invalid_sfen() {
    assert!(WasmGame::new("invalid", GameKind::Shogi.to_u8(), false, 3, 9, 9, 150, None).is_err());
    assert!(WasmGame::new(START, 0, false, 3, 9, 9, 150, None).is_err());
    assert!(WasmGame::new(START, GameKind::Shogi.to_u8(), false, 3, 9, 9, 150, Some(7)).is_err());
}

#[test]
fn wasm_game_test_setup_from_rectangular_sfen() {
    let game = WasmGame::new(
        "sfen gks/1p1/1P1/SKG b - 1",
        GameKind::Dobutsu.to_u8(),
        true,
        1,
        9,
        9,
        150,
        None,
    )
    .unwrap();
    assert_eq!(game.sfen(), "gks/1p1/1P1/SKG b - 1");
}

#[test]
fn setup_errors_come_in_order_with_messages() {
    let err = |r: Result<GameApi, GameApiError>| match r {
        Err(e) => e,
        Ok(_) => panic!("expected an error"),
    };
    let e = err(GameApi::new("invalid", 3, false, 3, 9, 9, 150, Some(9)));
    assert_eq!(e, GameApiError::UnknownGameKind);
    assert_eq!(e.message(), "unknown game kind");
    let e = err(GameApi::new("invalid", 1, false, 3, 9, 9, 150, Some(9)));
    assert_eq!(e, GameApiError::InvalidSfen(SfenNormalizeError::InvalidFormat));
    assert_eq!(e.message(), "invalid sfen: InvalidFormat");
    let e = err(GameApi::new("sfen gks/1p1/1P1/SKG b - 1", 2, true, 5, 9, 9, 150, None));
    assert_eq!(e, GameApiError::PromotionRanksTooLarge);
    assert_eq!(e.message(), "promotion_rank must be less than or equal to ranks");
    let e = err(GameApi::new("sfen gks/1p1/1P1/SKX b - 1", 2, true, 1, 9, 9, 150, None));
    assert_eq!(e, GameApiError::InvalidNormalizedSfen);
    assert_eq!(e.message(), "invalid normalized sfen");
    let e = err(GameApi::new(START, 1, false, 3, 9, 9, 150, Some(7)));
    assert_eq!(e.message(), "invalid last_info");
}

#[test]
fn normalize_places_board_in_lower_right_and_back() {
    let (sfen, files, ranks) = normalize_sfen_to_9x9("gks/1p1/1P1/SKG b - 1").unwrap();
    assert_eq!(sfen, "sfen 6gks/7p1/7P1/6SKG/9/9/9/9/9 b - 1");
    assert_eq!((files, ranks), (3, 4));
    assert_eq!(
        denormalize_sfen_from_9x9(&sfen, files, ranks).unwrap(),
        "sfen gks/1p1/1P1/SKG b - 1"
    );
    assert_eq!(
        denormalize_sfen_from_9x9("6gks/7p1/7P1/6SKG/9/9/9/9/9 b - 1", 3, 4).unwrap(),
        "gks/1p1/1P1/SKG b - 1"
    );
    let (sfen, _, _) = normalize_sfen_to_9x9("sfen +Pk/2 w 2p 7").unwrap();
    assert_eq!(sfen, "sfen 7+Pk/9/9/9/9/9/9/9/9 w 2p 7");
}

#[test]
fn normalize_reports_each_error() {
    assert_eq!(normalize_sfen_to_9x9("a b c"), Err(SfenNormalizeError::InvalidFormat));
    assert_eq!(normalize_sfen_to_9x9("k+ b - 1"), Err(SfenNormalizeError::InvalidPromotion));
    assert_eq!(
        normalize_sfen_to_9x9("1/1/1/1/1/1/1/1/1/1 b - 1"),
        Err(SfenNormalizeError::InvalidRanks)
    );
    assert_eq!(normalize_sfen_to_9x9("55 b - 1"), Err(SfenNormalizeError::InvalidFiles));
    assert_eq!(normalize_sfen_to_9x9("/k b - 1"), Err(SfenNormalizeError::InvalidFiles));
    assert_eq!(
        normalize_sfen_to_9x9("k/2 b - 1"),
        Err(SfenNormalizeError::NonRectangularBoard)
    );
    assert_eq!(
        denormalize_sfen_from_9x9("9/9 b - 1", 1, 1),
        Err(SfenNormalizeError::Expected9x9Sfen)
    );
    assert_eq!(
        denormalize_sfen_from_9x9("9/9/9/9/9/9/9/9/9 b - 1", 0, 1),
        Err(SfenNormalizeError::InvalidBoardSize)
    );
    assert_eq!(
        denormalize_sfen_from_9x9("8/9/9/9/9/9/9/9/9 b - 1", 2, 2),
        Err(SfenNormalizeError::Invalid9x9Row)
    );
}

#[test]
fn ignoring_turn_plays_for_the_other_player() {
    let mut game = new_standard_game();
    assert!(!game.is_valid("-3334FU", false));
    assert!(game.is_valid_ignore_turn("-3334FU", false));
    assert!(game.make_move_ignore_turn("-3334FU"));
    assert_eq!(
        game.sfen(None, false),
        "lnsgkgsnl/1r5b1/pppppp1pp/6p2/9/9/PPPPPPPPP/1B5R1/LNSGKGSNL b - 2"
    );
}

#[test]
fn from_candidates_lists_destinations() {
    let game = new_standard_game();
    assert_eq!(game.from_candidates('+', "77", "FU", false, false), vec!["76".to_owned()]);
    assert_eq!(
        game.from_candidates('+', "28", "HI", false, false),
        vec![
            "18".to_owned(),
            "38".to_owned(),
            "48".to_owned(),
            "58".to_owned(),
            "68".to_owned(),
            "78".to_owned()
        ]
    );
    assert!(game.from_candidates('+', "00", "FU", false, false).is_empty());
    assert_eq!(game.king_position(Color::White), Some((5, 1)));
    assert_eq!(game.fouls(), vec![9, 9]);
}

#[test]
fn captured_kind_is_reported_in_upper_case() {
    let mut game = GameApi::new("sfen 4k4/9/9/9/4p4/4P4/9/9/4K4 b - 1", 1, false, 3, 9, 9, 150, None).unwrap();
    assert_eq!(game.last_capture(), None);
    assert!(game.make_move("+5655FU"));
    assert_eq!(game.last_capture().as_deref(), Some("P"));
    assert_eq!(game.last_capture_piece_kind(), Some(PieceKind::Pawn));
    assert_eq!(game.last_move_csa(Some(Color::White)).as_deref(), Some("+0055ZZ"));
}

#[test]
fn from_candidates_lists_king_capture_only_in_tsuitate() {
    let game = GameApi::new("sfen 4k4/4R4/9/9/9/9/9/9/4K4 b - 1", GameKind::Shogi.to_u8(), false, 3, 9, 9, 150, None)
        .unwrap();
    let plain = game.from_candidates('+', "52", "HI", false, false);
    assert!(!plain.contains(&"51".to_string()));
    assert!(plain.contains(&"53".to_string()));
    let hidden = game.from_candidates('+', "52", "HI", true, false);
    assert!(hidden.contains(&"51".to_string()));
}

#[test]
fn from_candidates_writes_knight_moves_promoted() {
    let game = GameApi::new("sfen 4k4/9/9/9/9/9/4N4/9/4K4 b - 1", GameKind::Shogi.to_u8(), false, 3, 9, 9, 150, None)
        .unwrap();
    assert_eq!(game.from_candidates('+', "57", "KE", false, false), vec!["45".to_string(), "65".to_string()]);
}
