//! The game as offered to a web front end: errors are messages, players are CSA signs.
use vstd::prelude::*;
use vstd::string::StringSliceAdditionalSpecFns;
use crate::types::Color;
use crate::game::GameView;
use crate::game_api::{GameApi, GameApiError, setup, error_message};

verus! {

/// The info of the last move, numbered as the front end expects.
#[derive(Clone, Copy, Debug, PartialEq, Eq, Structural)]
pub enum WasmInfo {
    Quiet,
    Foul,
    FoulUnderCheck,
    Check,
    Checkmate,
    LossByFoul,
    Draw,
}

/// The player of an optional CSA sign: `+` Black, `-` White; another sign is an error.
pub open spec fn optional_color(csa_color: Option<char>) -> Result<Option<Color>, ()> {
    match csa_color {
        Some(c) => match crate::convert::color_of_sign(c) {
            Some(color) => Ok(Some(color)),
            None => Err(()),
        },
        None => Ok(None),
    }
}

/// Reads an optional CSA sign (see `optional_color`).
fn parse_optional_csa_color(csa_color: Option<char>) -> (r: Result<Option<Color>, String>)
    ensures
        match optional_color(csa_color) {
            Ok(c) => r == Ok::<Option<Color>, String>(c),
            Err(_) => r matches Err(m) && m@ == "invalid color"@,
        },
{
    match csa_color {
        Some(c) => match crate::convert::csa_sign_to_color(c) {
            Some(color) => Ok(Some(color)),
            None => Err("invalid color".to_owned()),
        },
        None => Ok(None),
    }
}

/// A game for a web front end.
pub struct WasmGame {
    pub inner: GameApi,
}

impl WasmGame {
    /// Sets up a game (see `GameApi::new`); an error is given by its message.
    pub fn new(
        sfen: &str,
        game_kind: u8,
        is_tsuitate: bool,
        promotion_rank: u8,
        foul0: i8,
        foul1: i8,
        draw_move_count: u16,
        last_info: Option<u8>,
    ) -> (r: Result<WasmGame, String>)
        ensures
            match setup(sfen@, game_kind, promotion_rank, last_info) {
                Ok(s) => r matches Ok(g) && g.inner.wf() && g.inner.setting.game_kind == s.0 && g.inner.setting.files == s.1
                    && g.inner.setting.ranks == s.2 && g.inner.setting.promotion_ranks == promotion_rank
                    && g.inner.setting.is_tsuitate == is_tsuitate && g.inner.inner@ == (GameView {
                    pos: s.3,
                    fouls: seq![foul0, foul1],
                    draw_move_count,
                    last_move: None,
                    last_info: s.4,
                    last_capture: None,
                }),
                Err(e) => r matches Err(m) && m@ == error_message(e),
            },
    {
        match GameApi::new(sfen, game_kind, is_tsuitate, promotion_rank, foul0, foul1, draw_move_count, last_info) {
            Ok(inner) => Ok(WasmGame { inner }),
            Err(err) => Err(err.message()),
        }
    }

    /// Plays a move written in CSA notation (see `GameApi::make_move`).
    pub fn make_move(&mut self, csa_move: &str) -> (r: bool)
        requires
            old(self).inner.wf(),
        ensures
            final(self).inner.wf(),
            final(self).inner.setting == old(self).inner.setting,
            match crate::game_api::parsed(csa_move.spec_bytes(), old(self).inner.pos()) {
                Some(mv) => (r == old(self).inner.inner@.step(mv, old(self).inner.setting) is Some) && (r ==> final(self).inner.inner@ == old(self).inner.inner@.step(mv, old(self).inner.setting)->0) && (!r
                    ==> final(self).inner.inner@ == old(self).inner.inner@),
                None => !r && final(self).inner.inner@ == old(self).inner.inner@,
            },
    {
        self.inner.make_move(csa_move)
    }

    /// Plays a move written in CSA notation for either player (see
    /// `GameApi::make_move_ignore_turn`).
    pub fn make_move_ignore_turn(&mut self, csa_move: &str) -> (r: bool)
        requires
            old(self).inner.wf(),
        ensures
            final(self).inner.wf(),
            final(self).inner.setting == old(self).inner.setting,
            match crate::game_api::parsed(csa_move.spec_bytes(), old(self).inner.pos()) {
                Some(mv) => (r == crate::game_api::step_ignoring_turn(old(self).inner.inner@, mv, old(self).inner.setting) is Some)
                    && (r ==> final(self).inner.inner@ == crate::game_api::step_ignoring_turn(
                    old(self).inner.inner@,
                    mv,
                    old(self).inner.setting,
                )->0) && (!r ==> final(self).inner.inner@ == old(self).inner.inner@),
                None => !r && final(self).inner.inner@ == old(self).inner.inner@,
            },
    {
        self.inner.make_move_ignore_turn(csa_move)
    }

    /// The SFEN text of the full position, on the board of the setting.
    pub fn sfen(&self) -> (r: String)
        requires
            self.inner.wf(),
        ensures
            r@ == crate::game_api::shown_sfen(self.inner.inner@, self.inner.setting, None, false),
    {
        self.inner.sfen(None, false)
    }

    /// The SFEN text for the player with the given sign (see `GameApi::sfen`); an unknown
    /// sign is an error.
    pub fn sfen_for(&self, csa_color: Option<char>, is_dark_shogi: Option<bool>) -> (r: Result<String, String>)
        requires
            self.inner.wf(),
        ensures
            match optional_color(csa_color) {
                Ok(v) => r matches Ok(s) && s@ == crate::game_api::shown_sfen(
                    self.inner.inner@,
                    self.inner.setting,
                    v,
                    match is_dark_shogi {
                        Some(b) => b,
                        None => false,
                    },
                ),
                Err(_) => r matches Err(m) && m@ == "invalid color"@,
            },
    {
        let viewpoint = parse_optional_csa_color(csa_color)?;
        let dark = match is_dark_shogi {
            Some(b) => b,
            None => false,
        };
        Ok(self.inner.sfen(viewpoint, dark))
    }

    /// The foul allowances left to Black and White.
    pub fn fouls(&self) -> (r: Vec<i8>)
        ensures
            r@ == self.inner.inner.fouls@,
    {
        self.inner.fouls()
    }

    /// Sets the foul allowances left to Black and White.
    pub fn set_fouls(&mut self, foul0: i8, foul1: i8)
        ensures
            final(self).inner.inner@ == (GameView { fouls: seq![foul0, foul1], ..old(self).inner.inner@ }),
            final(self).inner.inner.inner == old(self).inner.inner.inner,
            final(self).inner.inner.last_move == old(self).inner.inner.last_move,
            final(self).inner.setting == old(self).inner.setting,
    {
        self.inner.set_fouls(foul0, foul1)
    }

    /// The number of the info of the last move.
    pub fn last_info(&self) -> (r: Option<u8>)
        ensures
            match self.inner.inner.last_info {
                Some(i) => r == Some(i.spec_to_u8()),
                None => r is None,
            },
    {
        match self.inner.last_info() {
            Some(i) => Some(i.to_u8()),
            None => None,
        }
    }

    /// The last move in CSA notation.
    pub fn last_move(&self) -> (r: Option<String>)
        requires
            self.inner.wf(),
        ensures
            match crate::game_api::last_move_text(self.inner.inner@, None) {
                Some(t) => r matches Some(s) && s@ == t,
                None => r is None,
            },
    {
        self.inner.last_move_csa(None)
    }

    /// The last move in CSA notation as seen by the player with the given sign (see
    /// `GameApi::last_move_csa`); an unknown sign is an error.
    pub fn last_move_for(&self, csa_color: Option<char>) -> (r: Result<Option<String>, String>)
        requires
            self.inner.wf(),
        ensures
            match optional_color(csa_color) {
                Ok(v) => r matches Ok(o) && match crate::game_api::last_move_text(self.inner.inner@, v) {
                    Some(t) => o matches Some(s) && s@ == t,
                    None => o is None,
                },
                Err(_) => r matches Err(m) && m@ == "invalid color"@,
            },
    {
        let viewpoint = parse_optional_csa_color(csa_color)?;
        Ok(self.inner.last_move_csa(viewpoint))
    }

    /// The USI letter of the kind captured by the last move, if any.
    pub fn last_capture(&self) -> (r: Option<String>)
        ensures
            match self.inner.inner.last_capture {
                Some(k) => r matches Some(s) && s@ == crate::usi::kind_usi(k, Color::Black),
                None => r is None,
            },
    {
        self.inner.last_capture()
    }

    /// Whether a move written in CSA notation is valid (see `GameApi::is_valid`).
    pub fn is_valid(&self, csa_move: &str, is_tsuitate: bool) -> (r: bool)
        requires
            self.inner.wf(),
        ensures
            r == (crate::game_api::parsed(csa_move.spec_bytes(), self.inner.pos()) matches Some(mv)
                && crate::prelegality::valid_move(self.inner.pos(), mv, crate::game_api::with_tsuitate(self.inner.setting, is_tsuitate))),
    {
        self.inner.is_valid(csa_move, is_tsuitate)
    }

    /// Whether a move written in CSA notation is valid for either player (see
    /// `GameApi::is_valid_ignore_turn`).
    pub fn is_valid_ignore_turn(&self, csa_move: &str, is_tsuitate: bool) -> (r: bool)
        requires
            self.inner.wf(),
        ensures
            r == (crate::game_api::parsed(csa_move.spec_bytes(), self.inner.pos()) matches Some(mv) && (
            crate::prelegality::valid_move(self.inner.pos(), mv, crate::game_api::with_tsuitate(self.inner.setting, is_tsuitate))
                || crate::prelegality::valid_move(
                crate::game_api::with_side(self.inner.pos(), self.inner.pos().side.spec_flip()),
                mv,
                crate::game_api::with_tsuitate(self.inner.setting, is_tsuitate),
            ))),
    {
        self.inner.is_valid_ignore_turn(csa_move, is_tsuitate)
    }

    /// Where the named piece can be moved (see `GameApi::from_candidates`).
    pub fn from_candidates(&self, csa_color: char, csa_from: &str, csa_piece: &str, is_tsuitate: bool, ignore_turn: bool) -> (r: Vec<
        String,
    >)
        requires
            self.inner.wf(),
        ensures
            r@.map_values(|s: String| s@) == crate::game_api::candidate_destinations(
                self.inner.inner@,
                self.inner.setting,
                csa_color,
                csa_from@,
                csa_piece@,
                is_tsuitate,
                ignore_turn,
            ),
    {
        self.inner.from_candidates(csa_color, csa_from, csa_piece, is_tsuitate, ignore_turn)
    }
}

} // verus!
