use tsuitate::normal::from_candidates;
use tsuitate::position::PartialPosition;
use tsuitate::prelegality::{all_valid_moves, is_mate, is_valid, will_king_be_captured};
use tsuitate::rl::{legal_action_indices_for_position, ActionHistory};
use tsuitate::setting::{GameKind, Setting};
use tsuitate::sfen_util::normalize_sfen_to_9x9;
use tsuitate::text::compress_cells;
use tsuitate::types::{Color, Move, Square};

fn sq(file: u8, rank: u8) -> Square {
    Square::new(file, rank).unwrap()
}

fn normal(from: Square, to: Square) -> Move {
    Move::Normal { from, to, promote: false }
}

#[test]
fn is_mate_does_not_need_check() {
    // Black's king on 1c is not in check; its only move, to 1b, stands next to White's king.
    let position = PartialPosition::from_sfen("sfen 8k/9/8K/9/9/9/9/9/9 b - 1").unwrap();
    let setting = Setting::new(1, 3, 1, GameKind::Shogi, false);
    assert_eq!(will_king_be_captured(&position, Color::White, GameKind::Shogi), Some(false));
    assert_eq!(is_mate(&position, &setting), Some(true));
}

#[test]
fn is_mate_is_false_when_a_move_escapes() {
    let position = PartialPosition::from_sfen("startpos").unwrap();
    let setting = Setting::new(9, 9, 3, GameKind::Shogi, false);
    assert_eq!(is_mate(&position, &setting), Some(false));
}

#[test]
fn is_mate_is_none_without_a_king() {
    let position = PartialPosition::from_sfen("sfen 8k/9/9/9/9/9/9/9/9 b - 1").unwrap();
    let setting = Setting::new(9, 9, 3, GameKind::Shogi, false);
    assert_eq!(is_mate(&position, &setting), None);
}

#[test]
fn all_valid_moves_lists_each_move_once_normal_moves_first() {
    let position = PartialPosition::from_sfen("sfen 4k4/9/9/9/9/9/9/9/4K4 b GP 1").unwrap();
    let setting = Setting::new(9, 9, 3, GameKind::Shogi, false);
    let moves = all_valid_moves(&position, &setting);
    for (i, a) in moves.iter().enumerate() {
        for b in &moves[i + 1..] {
            assert_ne!(a, b);
        }
    }
    let first_drop = moves.iter().position(|m| matches!(m, Move::Drop { .. })).unwrap();
    assert_eq!(first_drop, 5);
    assert!(moves[first_drop..].iter().all(|m| matches!(m, Move::Drop { .. })));
    // 79 vacant squares for the gold; the pawn not on the eight vacant squares of the first rank.
    assert_eq!(moves.len(), 5 + 79 + 71);
    for m in &moves {
        assert!(is_valid(&position, *m, &setting));
    }
}

#[test]
fn compressed_row_example() {
    let cells: Vec<Vec<char>> = vec![vec![], vec![], vec!['p'], vec![]];
    assert_eq!(compress_cells(&cells), vec!['2', 'p', '1']);
    let cells: Vec<Vec<char>> = vec![vec!['+', 'P'], vec![], vec!['k']];
    assert_eq!(compress_cells(&cells), vec!['+', 'P', '1', 'k']);
}

#[test]
fn normalizing_twice_changes_nothing() {
    let (once, files, ranks) = normalize_sfen_to_9x9("k2/3/?1K b - 1").unwrap();
    assert_eq!((files, ranks), (3, 3));
    let (twice, files, ranks) = normalize_sfen_to_9x9(&once).unwrap();
    assert_eq!(twice, once);
    assert_eq!((files, ranks), (9, 9));
}

#[test]
fn tsuitate_only_relaxes_validity() {
    let position = PartialPosition::from_sfen("sfen 4k4/9/4p4/9/9/9/9/9/4RK3 b - 1").unwrap();
    let plain = Setting::new(9, 9, 3, GameKind::Shogi, false);
    let hidden = Setting::new(9, 9, 3, GameKind::Shogi, true);
    let past_the_pawn = normal(sq(5, 9), sq(5, 2));
    assert!(!is_valid(&position, past_the_pawn, &plain));
    assert!(is_valid(&position, past_the_pawn, &hidden));
    for m in all_valid_moves(&position, &plain) {
        assert!(is_valid(&position, m, &hidden));
    }
}

#[test]
fn history_only_removes_actions() {
    let position = PartialPosition::from_sfen("sfen 4rbsgk/8p/9/4P4/4KGSBR/9/9/9/9 b G 1").unwrap();
    let history = ActionHistory { last_lost_piece_square: Square::new(3, 3), ..Default::default() };
    for tsuitate in [false, true] {
        let setting = Setting::new(5, 5, 1, GameKind::Shogi, tsuitate);
        let without = legal_action_indices_for_position(&position, &setting, None);
        let with = legal_action_indices_for_position(&position, &setting, Some(&history));
        assert!(with.iter().all(|a| without.contains(a)));
        if tsuitate {
            assert!(with.len() < without.len());
        } else {
            assert_eq!(with, without);
        }
    }
}

fn attacked_by_some_piece(position: &PartialPosition, side: Color, target: Square) -> bool {
    let setting = Setting::new(9, 9, 3, GameKind::Shogi, false);
    (1..=81u8).map(|i| Square::new((i - 1) / 9 + 1, (i - 1) % 9 + 1).unwrap()).any(|s| match position.piece_at(s) {
        Some(p) if p.color == side => from_candidates(position, p, s, &setting).contains(target),
        _ => false,
    })
}

#[test]
fn king_capture_is_an_attack_by_some_piece() {
    for sfen in [
        "sfen 4k4/9/9/9/9/9/9/9/4R3K w - 1",
        "sfen 4k4/4p4/9/9/9/9/9/9/4R3K w - 1",
        "sfen 4k4/9/2N6/9/9/9/9/9/8K w - 1",
        "sfen 4k4/9/3N5/9/9/9/9/9/8K w - 1",
        "sfen 4k4/3G5/9/9/9/9/9/9/8K w - 1",
        "sfen 4k4/5S3/9/9/9/9/9/9/8K w - 1",
        "sfen 4k4/9/9/9/8B/9/9/9/8K w - 1",
    ] {
        let position = PartialPosition::from_sfen(sfen).unwrap();
        let king = position.king_position(Color::White).unwrap();
        assert_eq!(
            will_king_be_captured(&position, Color::Black, GameKind::Shogi),
            Some(attacked_by_some_piece(&position, Color::Black, king)),
            "{}",
            sfen
        );
    }
}
