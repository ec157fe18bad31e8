use tsuitate::bitboard::Bitboard;
use tsuitate::convert::csa_to_move;
use tsuitate::game_api::GameApi;
use tsuitate::position::PartialPosition;
use tsuitate::prelegality::is_valid;
use tsuitate::rl::{
    action_index_to_move, candidates_encodable, fill_legal_actions_mask, fill_observations,
    legal_action_indices_for_position, move_action_indices_to_square, move_to_action_index,
    ActionHistory, FoulAttempt, ACTIONS_PER_SQUARE, ACTION_COUNT, DROP_ACTION_OFFSET,
    HAND_OBSERVATION_BINARY_CHANNELS, OBSERVATION_BYTES, OBSERVATION_CHANNELS_PER_SIDE,
    OBSERVATION_CHANNEL_COUNT, OBS_BOARD_CHANNEL_OFFSET, OBS_COLOR_CHANNEL,
    OBS_HAND_CHANNEL_OFFSET, OBS_LAST_CAPTURE_KIND_OFFSET, OBS_LAST_CAPTURE_POSITION_CHANNEL,
    OBS_LAST_INFO_OFFSET, OBS_LAST_MOVE_FROM_DROP_OFFSET, OBS_LAST_MOVE_FROM_MOVE_CHANNEL,
    OBS_LAST_MOVE_TO_CHANNEL,
};
use tsuitate::setting::{GameKind, Setting};
use tsuitate::types::{Color, Move, Piece, PieceKind, Square};

const START: &str = "sfen lnsgkgsnl/1r5b1/ppppppppp/9/9/9/PPPPPPPPP/1B5R1/LNSGKGSNL b - 1";

const DROP_PIECE_KINDS: [PieceKind; 7] = [
    PieceKind::Pawn,
    PieceKind::Lance,
    PieceKind::Knight,
    PieceKind::Silver,
    PieceKind::Gold,
    PieceKind::Bishop,
    PieceKind::Rook,
];

fn new_standard_game() -> GameApi {
    GameApi::new(START, GameKind::Shogi.to_u8(), false, 3, 9, 9, 150, None).unwrap()
}

fn channel_index(side_index: usize, channel_index: usize) -> usize {
    side_index * OBSERVATION_CHANNELS_PER_SIDE + channel_index
}

fn observation_at(observations: &[Bitboard], side_index: usize, channel: usize, square: Square) -> u8 {
    u8::from(observations[channel_index(side_index, channel)].contains(square))
}

fn assert_channel_all(
    observations: &[Bitboard],
    expected_full: Bitboard,
    side_index: usize,
    channel: usize,
    expected: u8,
) {
    let bitboard = observations[channel_index(side_index, channel)];
    if expected == 0 {
        assert!(bitboard.is_empty());
    } else {
        assert_eq!(bitboard, expected_full);
    }
}

fn sq(file: u8, rank: u8) -> Square {
    Square::new(file, rank).unwrap()
}

/// A square in USI notation, such as `1e`.
fn usi_square(text: &[u8]) -> Square {
    sq(text[0] - b'0', text[1] - b'a' + 1)
}

/// A move in USI notation, such as `1e1c`, `1e1a+` or `S*3c`, for `side`.
fn mv(text: &str, side: Color) -> Move {
    let b = text.as_bytes();
    if b[1] == b'*' {
        let kind = match b[0] {
            b'P' => PieceKind::Pawn,
            b'L' => PieceKind::Lance,
            b'N' => PieceKind::Knight,
            b'S' => PieceKind::Silver,
            b'G' => PieceKind::Gold,
            b'B' => PieceKind::Bishop,
            _ => PieceKind::Rook,
        };
        Move::Drop {
            piece: Piece::new(kind, side),
            to: usi_square(&b[2..4]),
        }
    } else {
        Move::Normal {
            from: usi_square(&b[0..2]),
            to: usi_square(&b[2..4]),
            promote: b.len() == 5,
        }
    }
}

fn add_to_hand(pos: &mut PartialPosition, side: Color, kind: PieceKind) {
    let mut hand = pos.hand_of_a_player(side);
    hand[kind.hand_slot().unwrap()] += 1;
    pos.hand_of_a_player_set(side, &hand);
}

fn mini() -> (PartialPosition, Setting) {
    (
        PartialPosition::from_sfen("sfen 4rbsgk/8p/9/4P4/4KGSBR/9/9/9/9 b - 1").unwrap(),
        Setting::new(5, 5, 1, GameKind::Shogi, true),
    )
}

fn moves(pos: &PartialPosition, setting: &Setting, history: &ActionHistory) -> Vec<Move> {
    legal_action_indices_for_position(pos, setting, Some(history))
        .into_iter()
        .map(|i| action_index_to_move(pos, setting.is_tsuitate, i).unwrap())
        .collect()
}

#[test]
fn observation_count_is_spec_size() {
    assert_eq!(OBSERVATION_CHANNEL_COUNT * 81, 11988);
    assert_eq!(OBSERVATION_BYTES, 2368);
    assert_eq!(OBS_COLOR_CHANNEL + 1, OBSERVATION_CHANNELS_PER_SIDE);
}

#[test]
fn observations_hand_channels_use_binary_stacking() {
    let game = GameApi::new("sfen 9/9/9/9/9/9/9/9/9 b 7P 1", GameKind::Shogi.to_u8(), false, 3, 9, 9, 150, None)
        .unwrap();
    let mut observations = [Bitboard::empty(); OBSERVATION_CHANNEL_COUNT];
    fill_observations(&game, &mut observations);
    let full = game.setting().board_mask;

    for ch in 0..18 {
        let expected = if ch < 7 { 1 } else { 0 };
        assert_channel_all(&observations, full, 0, OBS_HAND_CHANNEL_OFFSET + ch, expected);
        assert_channel_all(&observations, full, 1, OBS_HAND_CHANNEL_OFFSET + ch, 0);
    }

    for ch in 18..HAND_OBSERVATION_BINARY_CHANNELS {
        assert_channel_all(&observations, full, 0, OBS_HAND_CHANNEL_OFFSET + ch, 0);
        assert_channel_all(&observations, full, 1, OBS_HAND_CHANNEL_OFFSET + ch, 0);
    }
}

#[test]
fn observations_initial_state_respects_visibility() {
    let game = new_standard_game();
    let mut observations = [Bitboard::empty(); OBSERVATION_CHANNEL_COUNT];
    fill_observations(&game, &mut observations);
    let full = game.setting().board_mask;

    let black_pawn = sq(7, 7);
    let white_pawn = sq(3, 3);

    assert_eq!(observation_at(&observations, 0, OBS_BOARD_CHANNEL_OFFSET, black_pawn), 1);
    assert_eq!(observation_at(&observations, 1, OBS_BOARD_CHANNEL_OFFSET, black_pawn), 0);
    assert_eq!(observation_at(&observations, 0, OBS_BOARD_CHANNEL_OFFSET, white_pawn), 0);
    assert_eq!(observation_at(&observations, 1, OBS_BOARD_CHANNEL_OFFSET, white_pawn), 1);

    assert_channel_all(&observations, full, 0, OBS_LAST_MOVE_FROM_MOVE_CHANNEL, 0);
    assert_channel_all(&observations, full, 1, OBS_LAST_MOVE_FROM_MOVE_CHANNEL, 0);
    assert_channel_all(&observations, full, 0, OBS_LAST_MOVE_TO_CHANNEL, 0);
    assert_channel_all(&observations, full, 1, OBS_LAST_MOVE_TO_CHANNEL, 0);
    assert_channel_all(&observations, full, 0, OBS_COLOR_CHANNEL, 0);
    assert_channel_all(&observations, full, 1, OBS_COLOR_CHANNEL, 0);
}

#[test]
fn observations_after_black_move_show_only_black_last_move() {
    let mut game = new_standard_game();
    assert!(game.make_move("+7776FU"));

    let mut observations = [Bitboard::empty(); OBSERVATION_CHANNEL_COUNT];
    fill_observations(&game, &mut observations);
    let full = game.setting().board_mask;

    let from = sq(7, 7);
    let to = sq(7, 6);

    assert_eq!(observation_at(&observations, 0, OBS_LAST_MOVE_FROM_MOVE_CHANNEL, from), 1);
    assert_eq!(observation_at(&observations, 1, OBS_LAST_MOVE_FROM_MOVE_CHANNEL, from), 0);
    assert_eq!(observation_at(&observations, 0, OBS_LAST_MOVE_TO_CHANNEL, to), 1);
    assert_eq!(observation_at(&observations, 1, OBS_LAST_MOVE_TO_CHANNEL, to), 0);

    assert_channel_all(&observations, full, 0, OBS_LAST_INFO_OFFSET, 1);
    assert_channel_all(&observations, full, 1, OBS_LAST_INFO_OFFSET, 1);
    assert_channel_all(&observations, full, 0, OBS_COLOR_CHANNEL, 1);
    assert_channel_all(&observations, full, 1, OBS_COLOR_CHANNEL, 1);
}

#[test]
fn observations_full_channels_follow_board_mask() {
    let game = GameApi::new("sfen 4k/5/5/5/K4 b P 1", GameKind::Shogi.to_u8(), false, 3, 9, 9, 150, None).unwrap();

    let mut observations = [Bitboard::empty(); OBSERVATION_CHANNEL_COUNT];
    fill_observations(&game, &mut observations);
    let full = game.setting().board_mask;

    assert_channel_all(&observations, full, 0, OBS_HAND_CHANNEL_OFFSET, 1);
    assert_channel_all(&observations, full, 1, OBS_HAND_CHANNEL_OFFSET, 0);
}

#[test]
fn action_index_to_move_decodes_black_pawn_push() {
    let game = new_standard_game();
    let idx = ((7 - 1) * 9 + (6 - 1)) * 27;
    let m = action_index_to_move(game.position(), false, idx).expect("move should decode");
    assert_eq!(m, csa_to_move("+7776FU", game.position()).unwrap());
}

#[test]
fn action_index_to_move_decodes_white_pawn_push() {
    let mut game = new_standard_game();
    assert!(game.make_move("+7776FU"));
    let idx = ((3 - 1) * 9 + (4 - 1)) * 27;
    let m = action_index_to_move(game.position(), false, idx).expect("move should decode");
    assert_eq!(m, csa_to_move("-3334FU", game.position()).unwrap());
}

#[test]
fn legal_actions_mask_contains_start_position_pawn_push() {
    let game = new_standard_game();
    let mut legal_actions = [0u8; ACTION_COUNT];
    fill_legal_actions_mask(&game, &mut legal_actions);

    let pawn_push = ((7 - 1) * 9 + (6 - 1)) * 27;
    let invalid_drop_to_occupied = ((7 - 1) * 9 + (7 - 1)) * 27 + DROP_ACTION_OFFSET;
    assert_eq!(legal_actions[pawn_push], 1);
    assert_eq!(legal_actions[invalid_drop_to_occupied], 0);
}

#[test]
fn move_action_indices_to_square_returns_non_drop_actions_only() {
    let base = ((7 - 1) * 9 + (6 - 1)) * 27;
    let expected: Vec<usize> = (0..DROP_ACTION_OFFSET).map(|kind| base + kind).collect();

    assert_eq!(move_action_indices_to_square(7, 6), expected);
    assert!(move_action_indices_to_square(0, 6).is_empty());
    assert!(move_action_indices_to_square(7, 10).is_empty());
}

#[test]
fn action_index_to_move_decodes_white_knight_move() {
    // White knight: 8b -> 7d
    let game = GameApi::new("4k4/1n7/9/9/9/9/9/9/4K4 w - 1", GameKind::Shogi.to_u8(), false, 3, 9, 9, 150, None)
        .unwrap();

    // Action for a knight jumping forward-left from White's perspective to 7d.
    let idx = ((7 - 1) * 9 + (4 - 1)) * ACTIONS_PER_SQUARE + 9;

    let m = action_index_to_move(game.position(), false, idx).expect("move should decode");

    assert_eq!(m, csa_to_move("-8274KE", game.position()).unwrap());
}

#[test]
fn generated_indices_match_full_scan_and_roundtrip() {
    let (mini, setting) = mini();
    let standard = PartialPosition::from_sfen("startpos").unwrap();
    for (initial, setting) in [(mini, setting), (standard, Setting::new(9, 9, 3, GameKind::Shogi, true))] {
        for tsuitate in [false, true] {
            for side in [Color::Black, Color::White] {
                let mut pos = initial.copy();
                pos.side_to_move_set(side);
                for kind in DROP_PIECE_KINDS {
                    add_to_hand(&mut pos, side, kind);
                }
                let setting = Setting { is_tsuitate: tsuitate, ..setting };
                for step in 0..12 {
                    let expected: Vec<_> = (0..ACTION_COUNT)
                        .filter(|&i| {
                            action_index_to_move(&pos, setting.is_tsuitate, i).is_some_and(|m| is_valid(&pos, m, &setting))
                        })
                        .collect();
                    assert!(candidates_encodable(&pos, &setting));
                    let generated = legal_action_indices_for_position(&pos, &setting, None);
                    assert_eq!(generated, expected);
                    for &index in &generated {
                        let m = action_index_to_move(&pos, setting.is_tsuitate, index).unwrap();
                        assert_eq!(move_to_action_index(m, pos.side_to_move()), Some(index));
                    }
                    if generated.is_empty() {
                        break;
                    }
                    // Pick a move to make in a fixed way.
                    let index = generated[(step * 37 + 5) % generated.len()];
                    let m = action_index_to_move(&pos, setting.is_tsuitate, index).unwrap();
                    if pos.make_move(m).is_none() {
                        break;
                    }
                }
            }
        }
    }
}

#[test]
fn repeated_move_ignores_promotion_and_no_check_extends_only_same_ray() {
    let (mut pos, setting) = mini();
    pos.piece_set(sq(1, 1), None);
    pos.piece_set(sq(1, 2), None);
    pos.piece_set(sq(1, 4), Some(Piece::new(PieceKind::Pawn, Color::White)));
    let b = Color::Black;
    for check in [Some(false), Some(true), None] {
        let attempts = [FoulAttempt {
            action: mv("1e1c", b),
            in_check_before: check,
        }];
        let filtered = moves(
            &pos,
            &setting,
            &ActionHistory {
                consecutive_fouls: &attempts,
                ..Default::default()
            },
        );
        assert!(!filtered.contains(&mv("1e1c", b)));
        // a nearer capture can still work
        assert!(filtered.contains(&mv("1e1d", b)));
        assert_eq!(filtered.contains(&mv("1e1a", b)), check != Some(false));
        assert_eq!(filtered.contains(&mv("1e1a+", b)), check != Some(false));
    }
    let attempts = [FoulAttempt {
        action: mv("1e1a+", b),
        in_check_before: None,
    }];
    let filtered = moves(
        &pos,
        &setting,
        &ActionHistory {
            consecutive_fouls: &attempts,
            ..Default::default()
        },
    );
    assert!(!filtered.contains(&mv("1e1a", b)));
    assert!(!filtered.contains(&mv("1e1a+", b)));
}

#[test]
fn drop_inference_excludes_pawn_failure_and_capture_is_not_retained() {
    let (mut pos, setting) = mini();
    let b = Color::Black;
    for kind in [PieceKind::Pawn, PieceKind::Silver, PieceKind::Gold] {
        add_to_hand(&mut pos, b, kind);
    }
    for (failed, ban_others) in [("S*3c", true), ("P*3c", false)] {
        let attempts = [FoulAttempt {
            action: mv(failed, b),
            in_check_before: None,
        }];
        let filtered = moves(
            &pos,
            &setting,
            &ActionHistory {
                consecutive_fouls: &attempts,
                ..Default::default()
            },
        );
        assert!(!filtered.contains(&mv(failed, b)));
        assert_eq!(filtered.contains(&mv("G*3c", b)), !ban_others);
    }
    let history = ActionHistory {
        last_lost_piece_square: Square::new(3, 3),
        ..Default::default()
    };
    assert!(!moves(&pos, &setting, &history).contains(&mv("G*3c", b)));
    assert!(moves(&pos, &setting, &ActionHistory::default()).contains(&mv("G*3c", b)));
}

#[test]
fn sliding_pruning_covers_bishops_lances_and_both_colors() {
    let (_, setting) = mini();
    for side in [Color::Black, Color::White] {
        for (kind, from, failed, farther, nearer) in [
            (PieceKind::Rook, (3, 5), (3, 3), (3, 2), (3, 4)),
            (PieceKind::Lance, (3, 5), (3, 3), (3, 2), (3, 4)),
            (PieceKind::Bishop, (5, 4), (3, 2), (2, 1), (4, 3)),
        ] {
            let at = |(file, rank): (u8, u8)| {
                Square::new(
                    if side == Color::Black { file } else { 6 - file },
                    if side == Color::Black { rank } else { 6 - rank },
                )
                .unwrap()
            };
            let mut pos = PartialPosition::empty();
            pos.side_to_move_set(side);
            pos.piece_set(at((1, 5)), Some(Piece::new(PieceKind::King, side)));
            pos.piece_set(at((1, 1)), Some(Piece::new(PieceKind::King, side.flip())));
            pos.piece_set(at(from), Some(Piece::new(kind, side)));
            pos.piece_set(at(nearer), Some(Piece::new(PieceKind::Pawn, side.flip())));
            let action = |to| Move::Normal {
                from: at(from),
                to: at(to),
                promote: false,
            };
            let history = [FoulAttempt {
                action: action(failed),
                in_check_before: Some(false),
            }];
            let filtered = moves(
                &pos,
                &setting,
                &ActionHistory {
                    consecutive_fouls: &history,
                    ..Default::default()
                },
            );
            assert!(filtered.contains(&action(nearer)));
            assert!(!filtered.contains(&action(farther)));
            assert!(moves(&pos, &setting, &ActionHistory::default()).contains(&action(farther)));
        }
    }
}

#[test]
fn every_decodable_action_round_trips() {
    let (mut pos, _) = mini();
    add_to_hand(&mut pos, Color::Black, PieceKind::Gold);
    for tsuitate in [false, true] {
        for side in [Color::Black, Color::White] {
            pos.side_to_move_set(side);
            for index in 0..ACTION_COUNT {
                if let Some(m) = action_index_to_move(&pos, tsuitate, index) {
                    assert_eq!(move_to_action_index(m, side), Some(index));
                }
            }
        }
    }
    assert_eq!(action_index_to_move(&pos, false, ACTION_COUNT), None);
}

#[test]
fn encoding_rejects_shapeless_moves_and_other_sides_drops() {
    let b = Color::Black;
    assert_eq!(move_to_action_index(mv("5e3d", b), b), None);
    assert_eq!(move_to_action_index(mv("S*3c", Color::White), b), None);
    // a knight jump, seen from each side
    assert_eq!(move_to_action_index(mv("2i1g", b), b), Some(((1 - 1) * 9 + (7 - 1)) * 27 + 8));
    assert_eq!(
        move_to_action_index(mv("1a2c", Color::White), Color::White),
        Some(((2 - 1) * 9 + (3 - 1)) * 27 + 8)
    );
    // a rook slide of several squares, promoting
    assert_eq!(move_to_action_index(mv("5e5a+", b), b), Some(((5 - 1) * 9 + (1 - 1)) * 27 + 10));
}

#[test]
fn a_pawn_on_its_last_rank_has_no_action_for_its_wrapped_step() {
    let mut pos = PartialPosition::from_sfen("sfen 4k2P1/9/9/9/9/9/9/9/4K4 b - 1").unwrap();
    pos.side_to_move_set(Color::Black);
    let setting = Setting::new(9, 9, 3, GameKind::Shogi, false);
    assert!(!candidates_encodable(&pos, &setting));
    let pos = PartialPosition::from_sfen("startpos").unwrap();
    assert!(candidates_encodable(&pos, &setting));
}

#[test]
fn move_action_indices_to_keeps_valid_moves_only() {
    let game = new_standard_game();
    let base = ((7 - 1) * 9 + (6 - 1)) * 27;
    assert_eq!(game.move_action_indices_to(7, 6), vec![base]);
    assert!(game.move_action_indices_to(5, 5).is_empty());
    assert_eq!(game.action_index_to_csa_move(base).as_deref(), Some("+7776FU"));
    assert_eq!(game.legal_action_indices(Color::Black, None).len(), 30);
    assert_eq!(game.legal_action_indices(Color::White, None).len(), 30);
}

#[test]
fn capture_and_drop_channels_are_filled() {
    let mut game = GameApi::new("sfen 4k4/9/9/9/4p4/4P4/9/9/4K4 b - 1", 1, false, 3, 9, 9, 150, None).unwrap();
    assert!(game.make_move("+5655FU"));
    let mut observations = [Bitboard::empty(); OBSERVATION_CHANNEL_COUNT];
    fill_observations(&game, &mut observations);
    let full = game.setting().board_mask;
    for side_index in 0..2 {
        assert_channel_all(&observations, full, side_index, OBS_LAST_CAPTURE_KIND_OFFSET, 1);
        assert_channel_all(&observations, full, side_index, OBS_LAST_CAPTURE_KIND_OFFSET + 1, 0);
        assert_eq!(observation_at(&observations, side_index, OBS_LAST_CAPTURE_POSITION_CHANNEL, sq(5, 5)), 1);
    }
    assert!(game.make_move("-0054FU") == false);
    assert!(game.make_move("-5152OU"));
    assert!(game.make_move("+0012FU"));
    fill_observations(&game, &mut observations);
    assert_channel_all(&observations, full, 0, OBS_LAST_MOVE_FROM_DROP_OFFSET, 1);
    assert_channel_all(&observations, full, 1, OBS_LAST_MOVE_FROM_DROP_OFFSET, 0);
}

#[test]
fn legal_actions_are_the_actions_of_the_valid_moves() {
    let (mut pos, setting) = mini();
    add_to_hand(&mut pos, Color::Black, PieceKind::Pawn);
    for tsuitate in [false, true] {
        let setting = Setting { is_tsuitate: tsuitate, ..setting };
        let valid = tsuitate::prelegality::all_valid_moves(&pos, &setting);
        let mut from_moves: Vec<usize> = valid
            .iter()
            .filter_map(|m| move_to_action_index(*m, pos.side_to_move()))
            .collect();
        from_moves.sort();
        from_moves.dedup();
        assert_eq!(legal_action_indices_for_position(&pos, &setting, None), from_moves);
    }
}
