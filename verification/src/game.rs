//! A game: a position, foul counters, a draw limit and what the last move brought.
use vstd::prelude::*;
use crate::types::{Color, PieceKind, Move};
use crate::setting::Setting;
use crate::position::{PartialPosition, PosView, captured_kind};
use crate::prelegality::{
    valid_move, king_capturable, play, spec_is_mate, is_valid, is_mate, will_king_be_captured,
    lemma_after_move_keeps_kings,
};

verus! {

/// What the last move brought about.
#[derive(Clone, Copy, Debug, PartialEq, Eq, Structural)]
pub enum Info {
    Quiet,
    Foul,
    FoulUnderCheck,
    Check,
    Checkmate,
    LossByFoul,
    Draw,
}

impl Info {
    pub open spec fn spec_to_u8(self) -> u8 {
        match self {
            Info::Quiet => 0,
            Info::Foul => 1,
            Info::FoulUnderCheck => 2,
            Info::Check => 3,
            Info::Checkmate => 4,
            Info::LossByFoul => 5,
            Info::Draw => 6,
        }
    }

    /// The number of the info (0 for none .. 6 for a draw).
    pub fn to_u8(self) -> (r: u8)
        ensures
            r == self.spec_to_u8(),
    {
        match self {
            Info::Quiet => 0,
            Info::Foul => 1,
            Info::FoulUnderCheck => 2,
            Info::Check => 3,
            Info::Checkmate => 4,
            Info::LossByFoul => 5,
            Info::Draw => 6,
        }
    }

    /// The info with number `value`, if any.
    pub fn from_u8(value: u8) -> (r: Option<Info>)
        ensures
            r matches Some(i) ==> i.spec_to_u8() == value,
            r is None <==> value > 6,
    {
        match value {
            0 => Some(Info::Quiet),
            1 => Some(Info::Foul),
            2 => Some(Info::FoulUnderCheck),
            3 => Some(Info::Check),
            4 => Some(Info::Checkmate),
            5 => Some(Info::LossByFoul),
            6 => Some(Info::Draw),
            _ => None,
        }
    }
}

/// Numbering an info and reading the number back gives the info.
pub proof fn law_info_round_trip(i: Info)
    ensures
        i.spec_to_u8() <= 6,
        forall|j: Info| j.spec_to_u8() == i.spec_to_u8() ==> j == i,
{
}

/// The mathematical content of a game.
pub struct GameView {
    pub pos: PosView,
    pub fouls: Seq<i8>,
    pub draw_move_count: u16,
    pub last_move: Option<Move>,
    pub last_info: Option<Info>,
    pub last_capture: Option<PieceKind>,
}

/// The foul counter index of a player.
pub open spec fn foul_index(c: Color) -> int {
    c.index()
}

impl GameView {
    /// The game after a foul by the side to move: its counter drops by one, the position
    /// stays, and the game is lost when a counter falls below zero.
    pub open spec fn after_foul(self, mv: Move, info: Info) -> GameView {
        let fouls = self.fouls.update(foul_index(self.pos.side), (self.fouls[foul_index(self.pos.side)] - 1) as i8);
        GameView {
            fouls,
            last_move: Some(mv),
            last_info: Some(if fouls[0] < 0 || fouls[1] < 0 {
                Info::LossByFoul
            } else {
                info
            }),
            last_capture: None,
            ..self
        }
    }

    /// The game no longer accepts moves: a counter is negative, the move limit is passed,
    /// or the last move mated.
    pub open spec fn is_over(self) -> bool {
        self.fouls[0] < 0 || self.fouls[1] < 0 || self.pos.ply > self.draw_move_count || self.last_info
            == Some(Info::Checkmate)
    }

    /// The result of `Game::make_move`: `None` when the move is refused (the game does not
    /// change), else the new game.
    pub open spec fn step(self, mv: Move, setting: Setting) -> Option<GameView> {
        let gk = setting.game_kind;
        let pos = self.pos;
        if self.is_over() || !valid_move(pos, mv, setting) {
            None
        } else if setting.is_tsuitate && !valid_move(pos, mv, Setting { is_tsuitate: false, ..setting }) {
            Some(
                self.after_foul(
                    mv,
                    if self.last_info == Some(Info::Check) || self.last_info == Some(Info::FoulUnderCheck) {
                        Info::FoulUnderCheck
                    } else {
                        Info::Foul
                    },
                ),
            )
        } else if !pos.can_make_move(mv) {
            None
        } else {
            let next = pos.after_move(mv);
            if king_capturable(next, next.side, gk) == Some(true) {
                if !setting.is_tsuitate {
                    None
                } else {
                    let info = match self.last_info {
                        Some(Info::Check) | Some(Info::FoulUnderCheck) => Info::FoulUnderCheck,
                        None => if king_capturable(pos, pos.side.spec_flip(), gk) == Some(true) {
                            Info::FoulUnderCheck
                        } else {
                            Info::Foul
                        },
                        _ => Info::Foul,
                    };
                    Some(self.after_foul(mv, info))
                }
            } else {
                let capture = match mv {
                    Move::Normal { to, .. } => match pos.at(to.index as int) {
                        Some(p) => Some(captured_kind(p.kind)),
                        None => None,
                    },
                    _ => None,
                };
                let info = match king_capturable(next, next.side.spec_flip(), gk) {
                    None => Info::Quiet,
                    Some(check) => {
                        let info = if check {
                            if spec_is_mate(next, setting) == Some(true) {
                                Info::Checkmate
                            } else {
                                Info::Check
                            }
                        } else {
                            Info::Quiet
                        };
                        if info != Info::Checkmate && next.ply > self.draw_move_count {
                            Info::Draw
                        } else {
                            info
                        }
                    },
                };
                Some(
                    GameView {
                        pos: next,
                        last_move: Some(mv),
                        last_capture: capture,
                        last_info: Some(info),
                        ..self
                    },
                )
            }
        }
    }
}

/// A game of a variant.
pub struct Game {
    pub inner: PartialPosition,
    pub fouls: [i8; 2],
    pub draw_move_count: u16,
    pub last_move: Option<Move>,
    pub last_info: Option<Info>,
    pub last_capture: Option<PieceKind>,
}

impl View for Game {
    type V = GameView;

    open spec fn view(&self) -> GameView {
        GameView {
            pos: self.inner@,
            fouls: self.fouls@,
            draw_move_count: self.draw_move_count,
            last_move: self.last_move,
            last_info: self.last_info,
            last_capture: self.last_capture,
        }
    }
}

impl Game {
    pub open spec fn wf(&self) -> bool {
        self.inner.wf()
    }

    /// A game starting from `initial`, with the given foul allowances, move limit and
    /// info of the move that led to `initial`.
    pub fn new(initial: PartialPosition, fouls: [i8; 2], draw_move_count: u16, last_info: Option<Info>) -> (r: Game)
        ensures
            r@ == (GameView {
                pos: initial@,
                fouls: fouls@,
                draw_move_count,
                last_move: None,
                last_info,
                last_capture: None,
            }),
    {
        Game { inner: initial, fouls, draw_move_count, last_move: None, last_info, last_capture: None }
    }

    /// An exact copy.
    pub fn copy(&self) -> (r: Game)
        requires
            self.wf(),
        ensures
            r.wf(),
            r@ == self@,
    {
        Game {
            inner: self.inner.copy(),
            fouls: self.fouls,
            draw_move_count: self.draw_move_count,
            last_move: self.last_move,
            last_info: self.last_info,
            last_capture: self.last_capture,
        }
    }

    fn foul(&mut self, mv: Move, info: Info)
        requires
            old(self).wf(),
            old(self)@.fouls[0] >= 0,
            old(self)@.fouls[1] >= 0,
        ensures
            final(self).wf(),
            final(self)@ == old(self)@.after_foul(mv, info),
    {
        let mut info = info;
        match self.inner.side {
            Color::Black => {
                let f = self.fouls[0] - 1;
                self.fouls[0] = f;
            },
            Color::White => {
                let f = self.fouls[1] - 1;
                self.fouls[1] = f;
            },
        }
        if self.fouls[0] < 0 || self.fouls[1] < 0 {
            info = Info::LossByFoul;
        }
        self.last_move = Some(mv);
        self.last_info = Some(info);
        self.last_capture = None;
        assert(self@.fouls =~= old(self)@.after_foul(mv, info).fouls);
    }

    /// Plays `mv`. A move that is invalid, or that leaves the mover's king capturable outside
    /// tsuitate, is refused with `None`. In tsuitate, a move that is valid with hidden
    /// pieces but not with full information, or that leaves the king capturable, is a foul:
    /// the position stays and the mover's counter drops. Otherwise the move is played and
    /// the info tells check, mate or a draw by the move limit.
    pub fn make_move(&mut self, mv: Move, setting: &Setting) -> (r: Option<()>)
        requires
            old(self).wf(),
            mv.wf(),
            setting.wf(),
        ensures
            final(self).wf(),
            r is Some <==> old(self)@.step(mv, *setting) is Some,
            r is Some ==> final(self)@ == old(self)@.step(mv, *setting).unwrap(),
            r is None ==> final(self)@ == old(self)@,
    {
        if self.fouls[0] < 0 || self.fouls[1] < 0 || self.inner.ply > self.draw_move_count || self.last_info
            == Some(Info::Checkmate) {
            return None;
        }
        if !is_valid(&self.inner, mv, setting) {
            return None;
        }
        if setting.is_tsuitate && !is_valid(&self.inner, mv, &Setting { is_tsuitate: false, ..*setting }) {
            let info = match self.last_info {
                Some(Info::Check) | Some(Info::FoulUnderCheck) => Info::FoulUnderCheck,
                _ => Info::Foul,
            };
            self.foul(mv, info);
            return Some(());
        }
        let mut partial_pos = self.inner.copy();
        if partial_pos.make_move(mv).is_none() {
            return None;
        }
        let is_my_king_in_check = match will_king_be_captured(&partial_pos, partial_pos.side, setting.game_kind) {
            Some(value) => value,
            None => false,
        };
        if is_my_king_in_check {
            if !setting.is_tsuitate {
                return None;
            }
            let info = match self.last_info {
                Some(Info::Check) | Some(Info::FoulUnderCheck) => Info::FoulUnderCheck,
                None => match will_king_be_captured(&self.inner, self.inner.side.flip(), setting.game_kind) {
                    Some(true) => Info::FoulUnderCheck,
                    _ => Info::Foul,
                },
                _ => Info::Foul,
            };
            self.foul(mv, info);
            Some(())
        } else {
            let last_capture = match mv {
                Move::Normal { to, .. } => match self.inner.piece_at(to) {
                    Some(piece) => Some(
                        match piece.kind.unpromote() {
                            Some(k) => k,
                            None => piece.kind,
                        },
                    ),
                    None => None,
                },
                _ => None,
            };
            self.inner = partial_pos;
            self.last_move = Some(mv);
            self.last_capture = last_capture;
            let is_opponent_king_in_check = match will_king_be_captured(
                &self.inner,
                self.inner.side.flip(),
                setting.game_kind,
            ) {
                Some(value) => value,
                None => {
                    self.last_info = Some(Info::Quiet);
                    return Some(());
                },
            };
            let mut info = if is_opponent_king_in_check {
                let mate = match is_mate(&self.inner, setting) {
                    Some(m) => m,
                    None => {
                        proof {
                            assert(false);
                        }
                        return None;
                    },
                };
                if mate {
                    Info::Checkmate
                } else {
                    Info::Check
                }
            } else {
                Info::Quiet
            };
            if info != Info::Checkmate && self.inner.ply > self.draw_move_count {
                info = Info::Draw;
            }
            self.last_info = Some(info);
            Some(())
        }
    }

    /// The SFEN of the current position.
    pub fn to_sfen_owned(&self) -> (r: String)
        requires
            self.wf(),
        ensures
            r@ == crate::usi::position_sfen(self@.pos),
    {
        self.inner.to_sfen_owned()
    }
}

} // verus!

verus! {

/// A game that is over accepts no move.
pub proof fn law_finished_game_refuses_moves(g: GameView, mv: Move, setting: Setting)
    requires
        g.is_over(),
    ensures
        g.step(mv, setting) is None,
{
}

/// A move that leaves the opponent without escape mates: when an accepted move is played
/// (not a foul), the king of the side now to move can be captured, and every move valid for
/// that side with full information still leaves its king capturable, the info is
/// `Checkmate`, and the game refuses every further move.
pub proof fn law_mating_move_is_checkmate(g: GameView, mv: Move, setting: Setting, next_mv: Move)
    requires
        g.step(mv, setting) is Some,
        g.step(mv, setting)->0.pos == g.pos.after_move(mv),
        king_capturable(g.pos.after_move(mv), g.pos.side, setting.game_kind) == Some(true),
        forall|m: Move| m.wf() && #[trigger] valid_move(g.pos.after_move(mv), m, Setting { is_tsuitate: false, ..setting })
            ==> king_capturable(play(g.pos.after_move(mv), m), g.pos.side, setting.game_kind) == Some(true),
    ensures
        g.step(mv, setting)->0.last_info == Some(Info::Checkmate),
        g.step(mv, setting)->0.step(next_mv, setting) is None,
{
    let next = g.pos.after_move(mv);
    assert(next.side == g.pos.side.spec_flip());
    assert(next.side.spec_flip() == g.pos.side);
    assert(next != g.pos);
    assert(spec_is_mate(next, setting) == Some(true));
}

/// The info after a played move (not a foul) within the move limit: `Check` when the king
/// of the side now to move can be captured but some move valid for that side with full
/// information escapes, `Quiet` when that king cannot be captured.
pub proof fn law_played_move_info(g: GameView, mv: Move, setting: Setting)
    requires
        g.step(mv, setting) is Some,
        g.step(mv, setting)->0.pos == g.pos.after_move(mv),
        g.pos.after_move(mv).ply <= g.draw_move_count,
    ensures
        ({
            let next = g.pos.after_move(mv);
            let info = g.step(mv, setting)->0.last_info;
            &&& king_capturable(next, g.pos.side, setting.game_kind) != Some(true) ==> info == Some(Info::Quiet)
            &&& (king_capturable(next, g.pos.side, setting.game_kind) == Some(true) && exists|m: Move|
                m.wf() && #[trigger] valid_move(next, m, Setting { is_tsuitate: false, ..setting }) && king_capturable(
                    play(next, m),
                    g.pos.side,
                    setting.game_kind,
                ) != Some(true)) ==> info == Some(Info::Check)
        }),
{
    let next = g.pos.after_move(mv);
    assert(next.side == g.pos.side.spec_flip());
    assert(next.side.spec_flip() == g.pos.side);
    assert(next != g.pos);
    if king_capturable(next, g.pos.side, setting.game_kind) == Some(true) && exists|m: Move|
        m.wf() && #[trigger] valid_move(next, m, Setting { is_tsuitate: false, ..setting }) && king_capturable(
            play(next, m),
            g.pos.side,
            setting.game_kind,
        ) != Some(true) {
        let m = choose|m: Move|
            m.wf() && #[trigger] valid_move(next, m, Setting { is_tsuitate: false, ..setting }) && king_capturable(
                play(next, m),
                g.pos.side,
                setting.game_kind,
            ) != Some(true);
        assert(spec_is_mate(next, setting) == Some(false));
    }
}

/// Only moves valid for the side to move are accepted.
pub proof fn law_accepted_moves_are_valid(g: GameView, mv: Move, setting: Setting)
    requires
        g.step(mv, setting) is Some,
    ensures
        valid_move(g.pos, mv, setting),
{
}

/// An accepted move is either played (the position moves on, the turn passes, the foul
/// counters stay) or a foul (the position stays, the mover's counter drops by one and the
/// info tells the foul). Either way it becomes the last move.
pub proof fn law_accepted_move_is_played_or_foul(g: GameView, mv: Move, setting: Setting)
    requires
        g.step(mv, setting) is Some,
    ensures
        ({
            let n = g.step(mv, setting)->0;
            let i = foul_index(g.pos.side);
            &&& n.last_move == Some(mv)
            &&& n.draw_move_count == g.draw_move_count
            &&& {
                ||| n.pos == g.pos.after_move(mv) && n.pos.side == g.pos.side.spec_flip() && n.fouls == g.fouls && n.last_info
                    != Some(Info::Foul) && n.last_info != Some(Info::FoulUnderCheck) && n.last_info != Some(Info::LossByFoul)
                ||| n.pos == g.pos && n.fouls == g.fouls.update(i, (g.fouls[i] - 1) as i8) && n.last_capture is None && (n.last_info
                    == Some(Info::Foul) || n.last_info == Some(Info::FoulUnderCheck) || n.last_info == Some(Info::LossByFoul))
            }
        }),
{
    let pos = g.pos;
    if !(setting.is_tsuitate && !valid_move(pos, mv, Setting { is_tsuitate: false, ..setting })) {
        let next = pos.after_move(mv);
        assert(next.side == pos.side.spec_flip());
    }
}

/// Outside tsuitate there are no fouls: an accepted move is played.
pub proof fn law_no_fouls_outside_tsuitate(g: GameView, mv: Move, setting: Setting)
    requires
        !setting.is_tsuitate,
        g.step(mv, setting) is Some,
    ensures
        g.step(mv, setting)->0.pos == g.pos.after_move(mv),
        g.step(mv, setting)->0.fouls == g.fouls,
{
    assert(Setting { is_tsuitate: false, ..setting } == setting);
}

} // verus!
