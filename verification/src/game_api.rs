//! A game with its variant setting, as offered to front ends: setup from SFEN text of
//! boards up to 9x9, moves in CSA notation, and views of the game for one player.
use vstd::prelude::*;
use vstd::string::StringSliceAdditionalSpecFns;
use crate::types::{Color, PieceKind, Piece, Square, Move, on_board, valid_index};
use crate::bitboard::Bitboard;
use crate::position::{PartialPosition, PosView};
use crate::setting::{GameKind, Setting};
use crate::game::{Game, GameView, Info};
use crate::sfen_util::{SfenNormalizeError, normalized, normalize_sfen_to_9x9};
use crate::usi::{usi_position_codes, decode_position};

verus! {

/// Why a game could not be set up.
#[derive(Clone, Copy, Debug, PartialEq, Eq, Structural)]
pub enum GameApiError {
    UnknownGameKind,
    InvalidSfen(SfenNormalizeError),
    PromotionRanksTooLarge,
    InvalidNormalizedSfen,
    InvalidLastInfo,
}

/// The name of an SFEN error.
pub open spec fn sfen_error_name(e: SfenNormalizeError) -> Seq<char> {
    match e {
        SfenNormalizeError::InvalidFormat => "InvalidFormat"@,
        SfenNormalizeError::InvalidPromotion => "InvalidPromotion"@,
        SfenNormalizeError::InvalidRanks => "InvalidRanks"@,
        SfenNormalizeError::InvalidFiles => "InvalidFiles"@,
        SfenNormalizeError::NonRectangularBoard => "NonRectangularBoard"@,
        SfenNormalizeError::Expected9x9Sfen => "Expected9x9Sfen"@,
        SfenNormalizeError::InvalidBoardSize => "InvalidBoardSize"@,
        SfenNormalizeError::Invalid9x9Row => "Invalid9x9Row"@,
    }
}

/// The message of a setup error.
pub open spec fn error_message(e: GameApiError) -> Seq<char> {
    match e {
        GameApiError::UnknownGameKind => "unknown game kind"@,
        GameApiError::InvalidSfen(s) => "invalid sfen: "@ + sfen_error_name(s),
        GameApiError::PromotionRanksTooLarge => "promotion_rank must be less than or equal to ranks"@,
        GameApiError::InvalidNormalizedSfen => "invalid normalized sfen"@,
        GameApiError::InvalidLastInfo => "invalid last_info"@,
    }
}

impl GameApiError {
    /// The message of the error, for a front end.
    pub fn message(&self) -> (r: String)
        ensures
            r@ == error_message(*self),
    {
        match self {
            GameApiError::UnknownGameKind => "unknown game kind".to_owned(),
            GameApiError::InvalidSfen(e) => {
                let mut s = "invalid sfen: ".to_owned();
                let name = match e {
                    SfenNormalizeError::InvalidFormat => "InvalidFormat",
                    SfenNormalizeError::InvalidPromotion => "InvalidPromotion",
                    SfenNormalizeError::InvalidRanks => "InvalidRanks",
                    SfenNormalizeError::InvalidFiles => "InvalidFiles",
                    SfenNormalizeError::NonRectangularBoard => "NonRectangularBoard",
                    SfenNormalizeError::Expected9x9Sfen => "Expected9x9Sfen",
                    SfenNormalizeError::InvalidBoardSize => "InvalidBoardSize",
                    SfenNormalizeError::Invalid9x9Row => "Invalid9x9Row",
                };
                s.append(name);
                s
            },
            GameApiError::PromotionRanksTooLarge => "promotion_rank must be less than or equal to ranks".to_owned(),
            GameApiError::InvalidNormalizedSfen => "invalid normalized sfen".to_owned(),
            GameApiError::InvalidLastInfo => "invalid last_info".to_owned(),
        }
    }
}

/// The info numbered `v` (0 ..= 6).
pub open spec fn info_of(v: u8) -> Option<Info> {
    if v == 0 {
        Some(Info::Quiet)
    } else if v == 1 {
        Some(Info::Foul)
    } else if v == 2 {
        Some(Info::FoulUnderCheck)
    } else if v == 3 {
        Some(Info::Check)
    } else if v == 4 {
        Some(Info::Checkmate)
    } else if v == 5 {
        Some(Info::LossByFoul)
    } else if v == 6 {
        Some(Info::Draw)
    } else {
        None
    }
}

/// The game kind numbered `v` (1 shogi, 2 dobutsu shogi).
pub open spec fn game_kind_of(v: u8) -> Option<GameKind> {
    if v == 1 {
        Some(GameKind::Shogi)
    } else if v == 2 {
        Some(GameKind::Dobutsu)
    } else {
        None
    }
}

/// What setting up a game gives, short of the setting's mask: the kind, files and ranks,
/// the starting position and the initial info; or the first error met (game kind, SFEN,
/// promotion ranks, position, info, in that order).
pub open spec fn setup(sfen: Seq<char>, game_kind: u8, promotion_rank: u8, last_info: Option<u8>) -> Result<(GameKind, u8, u8, PosView, Option<Info>), GameApiError> {
    match game_kind_of(game_kind) {
        None => Err(GameApiError::UnknownGameKind),
        Some(gk) => match normalized(sfen) {
            Err(e) => Err(GameApiError::InvalidSfen(e)),
            Ok(n) => if promotion_rank > n.2 {
                Err(GameApiError::PromotionRanksTooLarge)
            } else {
                match usi_position_codes(n.0) {
                    Some(c) if decode_position(c) is Some => match last_info {
                        Some(v) if info_of(v) is None => Err(GameApiError::InvalidLastInfo),
                        _ => Ok((gk, n.1, n.2, decode_position(c)->0, match last_info {
                            Some(v) => info_of(v),
                            None => None,
                        })),
                    },
                    _ => Err(GameApiError::InvalidNormalizedSfen),
                }
            },
        },
    }
}

/// A game and the setting it is played in.
pub struct GameApi {
    pub inner: Game,
    pub setting: Setting,
}

impl GameApi {
    /// The parts are well formed and the last move names squares of the board.
    pub open spec fn wf(&self) -> bool {
        &&& self.inner.wf()
        &&& self.setting.wf()
        &&& self.inner.last_move matches Some(m) ==> m.wf()
    }

    /// The position of the game.
    pub open spec fn pos(&self) -> PosView {
        self.inner.inner@
    }

    /// A game of a setting.
    pub fn from_game(inner: Game, setting: Setting) -> (r: GameApi)
        ensures
            r.inner == inner,
            r.setting == setting,
    {
        GameApi { inner, setting }
    }

    /// Sets up a game from SFEN text of a board of at most 9x9 squares (see `setup`), with
    /// the game kind number, tsuitate or not, the depth of the promotion zone, the foul
    /// allowances, the move limit and the number of the initial info.
    pub fn new(
        sfen: &str,
        game_kind: u8,
        is_tsuitate: bool,
        promotion_rank: u8,
        foul0: i8,
        foul1: i8,
        draw_move_count: u16,
        last_info: Option<u8>,
    ) -> (r: Result<GameApi, GameApiError>)
        ensures
            match setup(sfen@, game_kind, promotion_rank, last_info) {
                Ok(s) => r matches Ok(g) && g.wf() && g.setting.game_kind == s.0 && g.setting.files == s.1 && g.setting.ranks
                    == s.2 && g.setting.promotion_ranks == promotion_rank && g.setting.is_tsuitate == is_tsuitate
                    && g.inner@ == (GameView {
                    pos: s.3,
                    fouls: seq![foul0, foul1],
                    draw_move_count,
                    last_move: None,
                    last_info: s.4,
                    last_capture: None,
                }),
                Err(e) => r == Err::<GameApi, GameApiError>(e),
            },
    {
        let kind = match GameKind::from_u8(game_kind) {
            Some(k) => k,
            None => return Err(GameApiError::UnknownGameKind),
        };
        let (text, files, ranks) = match normalize_sfen_to_9x9(sfen) {
            Ok(x) => x,
            Err(e) => return Err(GameApiError::InvalidSfen(e)),
        };
        if promotion_rank > ranks {
            return Err(GameApiError::PromotionRanksTooLarge);
        }
        let setting = Setting::new(files, ranks, promotion_rank, kind, is_tsuitate);
        let initial = match PartialPosition::from_sfen(text.as_str()) {
            Some(p) => p,
            None => return Err(GameApiError::InvalidNormalizedSfen),
        };
        let info = match last_info {
            Some(value) => match Info::from_u8(value) {
                Some(i) => Some(i),
                None => return Err(GameApiError::InvalidLastInfo),
            },
            None => None,
        };
        proof {
            if let Some(v) = last_info {
                crate::game::law_info_round_trip(info->0);
            }
        }
        let fouls = [foul0, foul1];
        assert(fouls@ =~= seq![foul0, foul1]);
        Ok(GameApi { inner: Game::new(initial, fouls, draw_move_count, info), setting })
    }

    /// The position of the game.
    pub fn position(&self) -> (r: &PartialPosition)
        ensures
            *r == self.inner.inner,
    {
        &self.inner.inner
    }

    /// The setting of the game.
    pub fn setting(&self) -> (r: &Setting)
        ensures
            *r == self.setting,
    {
        &self.setting
    }

    /// The last move played or tried.
    pub fn last_move(&self) -> (r: Option<Move>)
        ensures
            r == self.inner.last_move,
    {
        self.inner.last_move
    }

    /// The kind captured by the last move, if any.
    pub fn last_capture_piece_kind(&self) -> (r: Option<PieceKind>)
        ensures
            r == self.inner.last_capture,
    {
        self.inner.last_capture
    }

    /// File and rank of the recorded king square of `color`.
    pub fn king_position(&self, color: Color) -> (r: Option<(u8, u8)>)
        requires
            self.wf(),
        ensures
            match self.pos().king(color) {
                Some(s) => r == Some((s.spec_file() as u8, s.spec_rank() as u8)),
                None => r is None,
            },
    {
        match self.inner.inner.king_position(color) {
            Some(square) => Some((square.file(), square.rank())),
            None => None,
        }
    }

    /// The foul allowances left to Black and White.
    pub fn fouls(&self) -> (r: Vec<i8>)
        ensures
            r@ == self.inner.fouls@,
    {
        let mut r: Vec<i8> = Vec::new();
        r.push(self.inner.fouls[0]);
        r.push(self.inner.fouls[1]);
        assert(r@ =~= self.inner.fouls@);
        r
    }

    /// Sets the foul allowances left to Black and White.
    pub fn set_fouls(&mut self, foul0: i8, foul1: i8)
        ensures
            final(self).inner.fouls@ == seq![foul0, foul1],
            final(self).inner@ == (GameView { fouls: seq![foul0, foul1], ..old(self).inner@ }),
            final(self).inner.inner == old(self).inner.inner,
            final(self).inner.last_move == old(self).inner.last_move,
            final(self).setting == old(self).setting,
    {
        self.inner.fouls = [foul0, foul1];
        assert(self.inner.fouls@ =~= seq![foul0, foul1]);
    }

    /// The info of the last move.
    pub fn last_info(&self) -> (r: Option<Info>)
        ensures
            r == self.inner.last_info,
    {
        self.inner.last_info
    }

    /// The USI letter (upper case) of the kind captured by the last move, if any.
    pub fn last_capture(&self) -> (r: Option<String>)
        ensures
            match self.inner.last_capture {
                Some(k) => r matches Some(s) && s@ == crate::usi::kind_usi(k, Color::Black),
                None => r is None,
            },
    {
        match self.inner.last_capture {
            Some(k) => Some(crate::convert::piece_kind_to_sfen(k)),
            None => None,
        }
    }
}

} // verus!

verus! {

/// The move a CSA text names in `pos`, if it names one.
pub open spec fn parsed(csa: Seq<u8>, pos: PosView) -> Option<Move> {
    match crate::convert::spec_csa_to_move(csa, pos) {
        Some(Ok(mv)) => Some(mv),
        _ => None,
    }
}

/// The CSA text that hides a move of the player with sign `sign`: only the destination of a
/// capture is shown.
pub open spec fn hidden_move_csa(sign: char, mv: Move, captured: bool) -> Seq<char> {
    match mv {
        Move::Normal { to, .. } if captured => seq![
            sign,
            '0',
            '0',
            crate::text::digit_char(to.spec_file()),
            crate::text::digit_char(to.spec_rank()),
            'Z',
            'Z',
        ],
        _ => seq![sign, '0', '0', '0', '0', 'Z', 'Z'],
    }
}

/// The last move in CSA notation as seen from `viewpoint`: hidden when made by the other
/// player (see `hidden_move_csa`), in full otherwise.
pub open spec fn last_move_text(g: GameView, viewpoint: Option<Color>) -> Option<Seq<char>> {
    match g.last_move {
        None => None,
        Some(mv) => {
            let c = crate::rl::last_move_color(g, mv);
            if viewpoint matches Some(v) && v != c {
                Some(hidden_move_csa(crate::convert::sign_of(c), mv, g.last_capture is Some))
            } else {
                crate::convert::spec_move_to_csa(mv, g.pos)
            }
        },
    }
}

/// `pos` with `side` to move.
pub open spec fn with_side(pos: PosView, side: Color) -> PosView {
    PosView { side, ..pos }
}

/// `setting` with tsuitate switched on or off.
pub open spec fn with_tsuitate(setting: Setting, is_tsuitate: bool) -> Setting {
    Setting { is_tsuitate, ..setting }
}

/// The game after `make_move_ignore_turn` of `mv`: played for the side to move if it can be,
/// else for the other player, else unchanged (`None`).
pub open spec fn step_ignoring_turn(g: GameView, mv: Move, setting: Setting) -> Option<GameView> {
    match g.step(mv, setting) {
        Some(n) => Some(n),
        None => (GameView { pos: with_side(g.pos, g.pos.side.spec_flip()), ..g }).step(mv, setting),
    }
}

/// The action moves a piece to its square with a valid move.
pub open spec fn valid_move_action(pos: PosView, setting: Setting, a: int) -> bool {
    crate::rl::decode(pos, setting.is_tsuitate, a) matches Some(m) && m is Normal && crate::prelegality::valid_move(pos, m, setting)
}

impl GameApi {
    /// The last move in CSA notation, hidden from the other player when `viewpoint` is that
    /// player (see `last_move_text`).
    pub fn last_move_csa(&self, viewpoint: Option<Color>) -> (r: Option<String>)
        requires
            self.wf(),
        ensures
            match last_move_text(self.inner@, viewpoint) {
                Some(t) => r matches Some(s) && s@ == t,
                None => r is None,
            },
    {
        let mv = match self.last_move() {
            Some(m) => m,
            None => return None,
        };
        let color = crate::rl::infer_last_move_color(self, &mv);
        let sign = crate::convert::color_to_csa_sign(color);
        let hide = match viewpoint {
            Some(v) => v != color,
            None => false,
        };
        if hide {
            let mut v: Vec<char> = Vec::new();
            v.push(sign);
            v.push('0');
            v.push('0');
            match (mv, self.inner.last_capture) {
                (Move::Normal { to, .. }, Some(_)) => {
                    v.push(((to.file() + 48) as char));
                    v.push(((to.rank() + 48) as char));
                },
                _ => {
                    v.push('0');
                    v.push('0');
                },
            }
            v.push('Z');
            v.push('Z');
            assert(v@ =~= hidden_move_csa(sign, mv, self.inner.last_capture is Some));
            return Some(crate::text::chars_to_string(&v));
        }
        crate::convert::move_to_csa(mv, self.position())
    }

    /// The legal actions of `color` in the current position (see
    /// `crate::rl::legal_action_indices_for_position`).
    pub fn legal_action_indices(&self, color: Color, history: Option<&crate::rl::ActionHistory<'_>>) -> (r: Vec<usize>)
        requires
            self.wf(),
            crate::rl::history_wf(history),
            crate::rl::moves_encodable(with_side(self.pos(), color), self.setting),
        ensures
            forall|i: int, j: int| 0 <= i < j < r@.len() ==> r@[i] < r@[j],
            forall|i: int|
                0 <= i < r@.len() ==> crate::rl::selected(
                    with_side(self.pos(), color),
                    self.setting,
                    crate::rl::foul_list(history),
                    crate::rl::lost_square(history),
                    r@[i] as int,
                ),
            forall|a: int|
                crate::rl::selected(
                    with_side(self.pos(), color),
                    self.setting,
                    crate::rl::foul_list(history),
                    crate::rl::lost_square(history),
                    a,
                ) ==> r@.contains(a as usize),
    {
        if self.position().side_to_move() == color {
            assert(with_side(self.pos(), color) == self.pos());
            return crate::rl::legal_action_indices_for_position(self.position(), &self.setting, history);
        }
        let mut position = self.position().copy();
        position.side_to_move_set(color);
        crate::rl::legal_action_indices_for_position(&position, &self.setting, history)
    }

    /// The move of an action for the side to move; decoding does not check the move.
    pub fn action_index_to_move(&self, action_index: usize) -> (r: Option<Move>)
        requires
            self.wf(),
        ensures
            r == crate::rl::decode(self.pos(), self.setting.is_tsuitate, action_index as int),
            r matches Some(m) ==> m.wf(),
    {
        crate::rl::action_index_to_move(self.position(), self.setting.is_tsuitate, action_index)
    }

    /// The move of an action in CSA notation.
    pub fn action_index_to_csa_move(&self, action_index: usize) -> (r: Option<String>)
        requires
            self.wf(),
        ensures
            match crate::rl::decode(self.pos(), self.setting.is_tsuitate, action_index as int) {
                Some(m) => match crate::convert::spec_move_to_csa(m, self.pos()) {
                    Some(t) => r matches Some(s) && s@ == t,
                    None => r is None,
                },
                None => r is None,
            },
    {
        let mv = match self.action_index_to_move(action_index) {
            Some(m) => m,
            None => return None,
        };
        crate::convert::move_to_csa(mv, self.position())
    }

    /// The actions that move a piece to the square at `file` and `rank` with a valid move, in
    /// increasing order.
    pub fn move_action_indices_to(&self, file: u8, rank: u8) -> (r: Vec<usize>)
        requires
            self.wf(),
        ensures
            forall|i: int, j: int| 0 <= i < j < r@.len() ==> r@[i] < r@[j],
            forall|i: int|
                0 <= i < r@.len() ==> on_square(file, rank, r@[i] as int) && valid_move_action(self.pos(), self.setting, r@[i] as int),
            forall|a: int| on_square(file, rank, a) && valid_move_action(self.pos(), self.setting, a) ==> r@.contains(a as usize),
    {
        let all = crate::rl::move_action_indices_to_square(file, rank);
        let mut r: Vec<usize> = Vec::new();
        let mut k: usize = 0;
        while k < all.len()
            invariant
                self.wf(),
                on_board(file as int, rank as int) ==> all@.len() == 20 && forall|j: int|
                    0 <= j < 20 ==> all@[j] == crate::rl::square_base(crate::types::sq_index(file as int, rank as int)) + j,
                !on_board(file as int, rank as int) ==> all@.len() == 0,
                k <= all@.len(),
                forall|i: int, j: int| 0 <= i < j < r@.len() ==> r@[i] < r@[j],
                forall|i: int| 0 <= i < r@.len() ==> r@[i] < all@[k as int - 1] + 1 && k > 0,
                forall|i: int|
                    0 <= i < r@.len() ==> on_square(file, rank, r@[i] as int) && valid_move_action(self.pos(), self.setting, r@[i] as int),
                forall|j: int|
                    0 <= j < k && valid_move_action(self.pos(), self.setting, all@[j] as int) ==> r@.contains(all@[j]),
            decreases all@.len() - k,
        {
            let a = all[k];
            let keep = match self.action_index_to_move(a) {
                Some(mv) => match mv {
                    Move::Normal { .. } => crate::prelegality::is_valid(self.position(), mv, &self.setting),
                    Move::Drop { .. } => false,
                },
                None => false,
            };
            let ghost before = r@;
            if keep {
                r.push(a);
                assert(r@[r@.len() - 1] == a);
            }
            assert forall|j: int| 0 <= j < k + 1 && valid_move_action(self.pos(), self.setting, all@[j] as int) implies r@.contains(all@[j]) by {
                if j < k {
                    let t = choose|t: int| 0 <= t < before.len() && before[t] == all@[j];
                    assert(r@[t] == all@[j]);
                } else {
                    assert(r@[r@.len() - 1] == a);
                }
            }
            k = k + 1;
        }
        assert forall|x: int| on_square(file, rank, x) && valid_move_action(self.pos(), self.setting, x) implies r@.contains(x as usize) by {
            let base = crate::rl::square_base(crate::types::sq_index(file as int, rank as int));
            assert(all@[x - base] == x);
        }
        r
    }

    /// Plays `mv` (see `Game::make_move`); whether it was accepted.
    pub fn make_move_raw(&mut self, mv: Move) -> (r: bool)
        requires
            old(self).wf(),
            mv.wf(),
        ensures
            final(self).wf(),
            final(self).setting == old(self).setting,
            r == old(self).inner@.step(mv, old(self).setting) is Some,
            r ==> final(self).inner@ == old(self).inner@.step(mv, old(self).setting)->0,
            !r ==> final(self).inner@ == old(self).inner@,
    {
        let setting = self.setting;
        let res = self.inner.make_move(mv, &setting);
        proof {
            if res is Some {
                assert(self.inner.last_move == Some(mv));
            }
        }
        res.is_some()
    }

    /// Plays the move written in CSA notation; whether it was read and accepted.
    pub fn make_move(&mut self, csa_move: &str) -> (r: bool)
        requires
            old(self).wf(),
        ensures
            final(self).wf(),
            final(self).setting == old(self).setting,
            match parsed(csa_move.spec_bytes(), old(self).pos()) {
                Some(mv) => (r == old(self).inner@.step(mv, old(self).setting) is Some) && (r ==> final(self).inner@
                    == old(self).inner@.step(mv, old(self).setting)->0) && (!r ==> final(self).inner@ == old(self).inner@),
                None => !r && final(self).inner@ == old(self).inner@,
            },
    {
        let mv = match crate::convert::csa_to_move(csa_move, self.position()) {
            Ok(mv) => mv,
            Err(_) => return false,
        };
        self.make_move_raw(mv)
    }

    /// Plays the move written in CSA notation for whichever player can make it, the side to
    /// move first (see `step_ignoring_turn`); whether it was accepted.
    pub fn make_move_ignore_turn(&mut self, csa_move: &str) -> (r: bool)
        requires
            old(self).wf(),
        ensures
            final(self).wf(),
            final(self).setting == old(self).setting,
            match parsed(csa_move.spec_bytes(), old(self).pos()) {
                Some(mv) => (r == step_ignoring_turn(old(self).inner@, mv, old(self).setting) is Some) && (r ==> final(self).inner@ == step_ignoring_turn(old(self).inner@, mv, old(self).setting)->0) && (!r ==> final(self).inner@
                    == old(self).inner@),
                None => !r && final(self).inner@ == old(self).inner@,
            },
    {
        let mv = match crate::convert::csa_to_move(csa_move, self.position()) {
            Ok(mv) => mv,
            Err(_) => return false,
        };
        if self.make_move_raw(mv) {
            return true;
        }
        let side_before = self.inner.inner.side_to_move();
        self.inner.inner.side_to_move_set(side_before.flip());
        assert(self.inner@ == (GameView { pos: with_side(old(self).pos(), old(self).pos().side.spec_flip()), ..old(self).inner@ }));
        let success = self.make_move_raw(mv);
        if !success {
            self.inner.inner.side_to_move_set(side_before);
            assert(self.inner@ == old(self).inner@);
        }
        success
    }

    /// Whether the move written in CSA notation is valid for the side to move, with or
    /// without tsuitate (king safety aside).
    pub fn is_valid(&self, csa_move: &str, is_tsuitate: bool) -> (r: bool)
        requires
            self.wf(),
        ensures
            r == (parsed(csa_move.spec_bytes(), self.pos()) matches Some(mv) && crate::prelegality::valid_move(
                self.pos(),
                mv,
                with_tsuitate(self.setting, is_tsuitate),
            )),
    {
        let mv = match crate::convert::csa_to_move(csa_move, self.position()) {
            Ok(mv) => mv,
            Err(_) => return false,
        };
        let setting = Setting { is_tsuitate, ..self.setting };
        crate::prelegality::is_valid(self.position(), mv, &setting)
    }

    /// Whether the move written in CSA notation is valid for the side to move or for the
    /// other player.
    pub fn is_valid_ignore_turn(&self, csa_move: &str, is_tsuitate: bool) -> (r: bool)
        requires
            self.wf(),
        ensures
            r == (parsed(csa_move.spec_bytes(), self.pos()) matches Some(mv) && (crate::prelegality::valid_move(
                self.pos(),
                mv,
                with_tsuitate(self.setting, is_tsuitate),
            ) || crate::prelegality::valid_move(
                with_side(self.pos(), self.pos().side.spec_flip()),
                mv,
                with_tsuitate(self.setting, is_tsuitate),
            ))),
    {
        let mv = match crate::convert::csa_to_move(csa_move, self.position()) {
            Ok(mv) => mv,
            Err(_) => return false,
        };
        let setting = Setting { is_tsuitate, ..self.setting };
        if crate::prelegality::is_valid(self.position(), mv, &setting) {
            true
        } else {
            let mut temp_position = self.position().copy();
            let flipped = temp_position.side_to_move().flip();
            temp_position.side_to_move_set(flipped);
            crate::prelegality::is_valid(&temp_position, mv, &setting)
        }
    }
}

/// The action lies on the square at `file` and `rank` and moves a piece there.
pub open spec fn on_square(file: u8, rank: u8, a: int) -> bool {
    &&& on_board(file as int, rank as int)
    &&& crate::rl::square_base(crate::types::sq_index(file as int, rank as int)) <= a < crate::rl::square_base(
        crate::types::sq_index(file as int, rank as int),
    ) + 20
}

} // verus!

verus! {

/// In dark shogi, `viewpoint` sees a square of the board that holds one of its pieces or
/// that one of its pieces on the board could move to with full information.
pub open spec fn sees(pos: PosView, setting: Setting, viewpoint: Color, i: int) -> bool {
    &&& setting.board_mask.has(i)
    &&& (pos.owned_by(i, viewpoint) || exists|j: int|
        #[trigger] pos.owned_by(j, viewpoint) && setting.board_mask.has(j) && crate::normal::candidate(
            with_side(pos, viewpoint),
            pos.at(j)->0,
            Square { index: j as u8 },
            with_tsuitate(setting, false),
            i,
        ))
}

/// The text of a square of a board seen in dark shogi: `?` when unseen.
pub open spec fn seen_cell(pos: PosView, visible: spec_fn(int) -> bool, i: int) -> Seq<char> {
    if !visible(i) {
        seq!['?']
    } else {
        crate::usi::cell_usi(pos.at(i))
    }
}

/// The cells of a rank as seen, from file 9 down to file 1.
pub open spec fn seen_row(pos: PosView, visible: spec_fn(int) -> bool, rank: int) -> Seq<Seq<char>> {
    Seq::new(9, |j: int| seen_cell(pos, visible, crate::types::sq_index(9 - j, rank)))
}

/// Ranks 1..=n as seen, separated by `/`.
pub open spec fn seen_board(pos: PosView, visible: spec_fn(int) -> bool, n: int) -> Seq<char>
    decreases n,
{
    if n <= 1 {
        crate::text::compress(seen_row(pos, visible, 1), 0)
    } else {
        seen_board(pos, visible, n - 1) + seq!['/'] + crate::text::compress(seen_row(pos, visible, n), 0)
    }
}

impl GameApi {
    /// The squares `viewpoint` sees in dark shogi (see `sees`).
    pub fn dark_shogi_visible_squares(&self, viewpoint: Color) -> (r: Bitboard)
        requires
            self.wf(),
        ensures
            r.wf(),
            forall|i: int| r.has(i) <==> sees(self.pos(), self.setting, viewpoint, i),
    {
        let ghost pos = self.pos();
        let mut position = self.position().copy();
        position.side_to_move_set(viewpoint);
        let visibility_setting = Setting { is_tsuitate: false, ..self.setting };
        let own = position.player_bitboard(viewpoint).and(self.setting.board_mask);
        let mut visible = own;
        let mut idx: u8 = 1;
        while idx <= 81
            invariant
                self.wf(),
                pos == self.pos(),
                position.wf(),
                position@ == with_side(pos, viewpoint),
                visibility_setting == with_tsuitate(self.setting, false),
                visibility_setting.wf(),
                own.wf(),
                forall|i: int| own.has(i) <==> (pos.owned_by(i, viewpoint) && self.setting.board_mask.has(i)),
                visible.wf(),
                1 <= idx <= 82,
                forall|i: int| visible.has(i) <==> (own.has(i) || exists|j: int|
                    1 <= j < idx && #[trigger] pos.owned_by(j, viewpoint) && self.setting.board_mask.has(j) && crate::normal::candidate(
                        with_side(pos, viewpoint),
                        pos.at(j)->0,
                        Square { index: j as u8 },
                        with_tsuitate(self.setting, false),
                        i,
                    )),
            decreases 82 - idx,
        {
            let square = Square { index: idx };
            let ghost before = visible;
            if own.contains(square) {
                match position.piece_at(square) {
                    Some(piece) => {
                        let reach = crate::normal::from_candidates(&position, piece, square, &visibility_setting);
                        visible = visible.or(reach);
                    },
                    None => {},
                }
            }
            assert forall|i: int| visible.has(i) <==> (own.has(i) || exists|j: int|
                1 <= j < idx + 1 && #[trigger] pos.owned_by(j, viewpoint) && self.setting.board_mask.has(j) && crate::normal::candidate(
                    with_side(pos, viewpoint),
                    pos.at(j)->0,
                    Square { index: j as u8 },
                    with_tsuitate(self.setting, false),
                    i,
                )) by {
                if pos.owned_by(idx as int, viewpoint) && self.setting.board_mask.has(idx as int) && crate::normal::candidate(
                    with_side(pos, viewpoint),
                    pos.at(idx as int)->0,
                    Square { index: idx },
                    with_tsuitate(self.setting, false),
                    i,
                ) {
                    assert(own.has(idx as int));
                }
            }
            idx = idx + 1;
        }
        let r = visible.and(self.setting.board_mask);
        assert forall|i: int| r.has(i) <==> sees(pos, self.setting, viewpoint, i) by {
            if sees(pos, self.setting, viewpoint, i) && !pos.owned_by(i, viewpoint) {
                let j = choose|j: int|
                    #[trigger] pos.owned_by(j, viewpoint) && self.setting.board_mask.has(j) && crate::normal::candidate(
                        with_side(pos, viewpoint),
                        pos.at(j)->0,
                        Square { index: j as u8 },
                        with_tsuitate(self.setting, false),
                        i,
                    );
                assert(1 <= j < 82);
            }
        }
        r
    }

    /// The board part of SFEN text of the position as seen through `visible`: `?` for each
    /// square not in it.
    pub fn visible_board_sfen(&self, visible: Bitboard) -> (r: String)
        requires
            self.wf(),
        ensures
            r@ == seen_board(self.pos(), |i: int| visible.has(i), 9),
    {
        let ghost pos = self.pos();
        let ghost vis = |i: int| visible.has(i);
        let mut board: Vec<char> = Vec::new();
        let mut rank: u8 = 1;
        while rank <= 9
            invariant
                self.wf(),
                pos == self.pos(),
                vis == (|i: int| visible.has(i)),
                1 <= rank <= 10,
                rank == 1 ==> board@.len() == 0,
                rank > 1 ==> board@ == seen_board(pos, vis, rank - 1),
            decreases 10 - rank,
        {
            let mut cells: Vec<Vec<char>> = Vec::new();
            let mut file: u8 = 9;
            while file >= 1
                invariant
                    self.wf(),
                    pos == self.pos(),
                    vis == (|i: int| visible.has(i)),
                    1 <= rank <= 9,
                    file <= 9,
                    cells@.len() == 9 - file,
                    crate::text::cells_view(cells@) == seen_row(pos, vis, rank as int).take(9 - file),
                decreases file,
            {
                let square = Square { index: file * 9 + rank - 9 };
                proof {
                    crate::types::lemma_coords_index(file as int, rank as int);
                }
                let cell: Vec<char> = if !visible.contains(square) {
                    let mut c: Vec<char> = Vec::new();
                    c.push('?');
                    c
                } else {
                    match self.inner.inner.piece_at(square) {
                        Some(piece) => crate::usi::kind_usi_chars(piece.kind, piece.color),
                        None => Vec::new(),
                    }
                };
                assert(cell@ =~= seen_cell(pos, vis, square.index as int));
                let ghost prev = cells@;
                proof {
                    crate::text::lemma_cells_view_push(prev, cell);
                }
                cells.push(cell);
                assert(crate::text::cells_view(cells@) =~= seen_row(pos, vis, rank as int).take(10 - file));
                file = file - 1;
            }
            assert(seen_row(pos, vis, rank as int).take(9) =~= seen_row(pos, vis, rank as int));
            if rank > 1 {
                board.push('/');
            }
            let row = crate::text::compress_cells(&cells);
            crate::text::append_chars(&mut board, &row);
            rank = rank + 1;
        }
        crate::text::chars_to_string(&board)
    }
}

} // verus!

verus! {

/// `pos` with the hand of `c` emptied.
pub open spec fn hand_cleared(pos: PosView, c: Color) -> PosView {
    PosView {
        hands: Seq::new(14, |i: int| if 7 * c.index() <= i < 7 * c.index() + 7 { 0u8 } else { pos.hands[i] }),
        ..pos
    }
}

/// `pos` with the pieces of the other player than `v` taken off the board.
pub open spec fn own_pieces_only(pos: PosView, v: Color) -> PosView {
    PosView {
        board: Seq::new(81, |i: int| match pos.board[i] {
            Some(p) => if p.color != v { None } else { Some(p) },
            None => None,
        }),
        ..pos
    }
}

/// What follows the first space of `s` (nothing when it has none).
pub open spec fn after_first_space(s: Seq<char>) -> Seq<char>
    decreases s.len(),
{
    if s.len() == 0 {
        seq![]
    } else if s[0] == ' ' {
        s.drop_first()
    } else {
        after_first_space(s.drop_first())
    }
}

/// The 9x9 SFEN text of the game for `viewpoint`: the full position without one; with one,
/// the other player's hand is emptied and, in dark shogi, the squares not seen are `?`,
/// otherwise the other player's pieces are taken off the board.
pub open spec fn viewed_sfen(g: GameView, setting: Setting, viewpoint: Option<Color>, is_dark_shogi: bool) -> Seq<char> {
    match viewpoint {
        None => crate::usi::position_sfen(g.pos),
        Some(v) => if is_dark_shogi {
            seen_board(g.pos, |i: int| sees(g.pos, setting, v, i), 9) + seq![' '] + after_first_space(
                crate::usi::position_sfen(hand_cleared(g.pos, v.spec_flip())),
            )
        } else {
            crate::usi::position_sfen(hand_cleared(own_pieces_only(g.pos, v), v.spec_flip()))
        },
    }
}

/// The SFEN text of the game for `viewpoint` (see `viewed_sfen`), cut down to the board of
/// the setting; the 9x9 text when it cannot be cut down.
pub open spec fn shown_sfen(g: GameView, setting: Setting, viewpoint: Option<Color>, is_dark_shogi: bool) -> Seq<char> {
    match crate::sfen_util::denormalized(viewed_sfen(g, setting, viewpoint, is_dark_shogi), setting.files, setting.ranks) {
        Ok(t) => t,
        Err(_) => viewed_sfen(g, setting, viewpoint, is_dark_shogi),
    }
}

/// The text after the first space of `s`.
fn suffix_after_space(s: &Vec<char>) -> (r: Vec<char>)
    ensures
        r@ == after_first_space(s@),
{
    let mut i: usize = 0;
    assert(s@.skip(0) =~= s@);
    while i < s.len()
        invariant
            i <= s@.len(),
            after_first_space(s@.skip(i as int)) == after_first_space(s@),
        decreases s@.len() - i,
    {
        assert(s@.skip(i as int).drop_first() =~= s@.skip(i + 1));
        if s[i] == ' ' {
            let mut out: Vec<char> = Vec::new();
            let mut j: usize = i + 1;
            while j < s.len()
                invariant
                    i < j <= s@.len(),
                    out@ == s@.subrange(i + 1, j as int),
                decreases s@.len() - j,
            {
                out.push(s[j]);
                j = j + 1;
                assert(out@ =~= s@.subrange(i + 1, j as int));
            }
            assert(out@ =~= s@.skip(i as int).drop_first());
            return out;
        }
        i = i + 1;
    }
    assert(s@.skip(i as int) =~= seq![]);
    Vec::new()
}

impl GameApi {
    /// SFEN text of the game for `viewpoint` (see `viewed_sfen`), cut down to the board of the
    /// setting; the 9x9 text when it cannot be cut down.
    pub fn sfen(&self, viewpoint: Option<Color>, is_dark_shogi: bool) -> (r: String)
        requires
            self.wf(),
        ensures
            r@ == shown_sfen(self.inner@, self.setting, viewpoint, is_dark_shogi),
    {
        let ghost pos = self.pos();
        let chars: Vec<char> = match viewpoint {
            Some(v) => {
                let mut position = self.position().copy();
                let empty_hand: Vec<u8> = vec![0, 0, 0, 0, 0, 0, 0];
                if is_dark_shogi {
                    let visible = self.dark_shogi_visible_squares(v);
                    let board = self.visible_board_sfen(visible);
                    position.hand_of_a_player_set(v.flip(), &empty_hand);
                    assert(position@.hands =~= hand_cleared(pos, v.spec_flip()).hands);
                    assert(position@ == hand_cleared(pos, v.spec_flip()));
                    let suffix_source = position.to_sfen_chars();
                    let suffix = suffix_after_space(&suffix_source);
                    let mut out = crate::text::str_chars(board.as_str());
                    out.push(' ');
                    crate::text::append_chars(&mut out, &suffix);
                    assert((|i: int| visible.has(i)) =~= (|i: int| sees(pos, self.setting, v, i)));
                    assert(out@ =~= viewed_sfen(self.inner@, self.setting, viewpoint, is_dark_shogi));
                    out
                } else {
                    let mut idx: u8 = 1;
                    while idx <= 81
                        invariant
                            self.wf(),
                            pos == self.pos(),
                            position.wf(),
                            1 <= idx <= 82,
                            position@ == (PosView { board: position@.board, ..pos }),
                            position@.board.len() == 81,
                            forall|i: int| 0 <= i < 81 ==> position@.board[i] == if i < idx - 1 {
                                own_pieces_only(pos, v).board[i]
                            } else {
                                pos.board[i]
                            },
                        decreases 82 - idx,
                    {
                        let square = Square { index: idx };
                        let remove = match position.piece_at(square) {
                            Some(piece) => piece.color != v,
                            None => false,
                        };
                        if remove {
                            position.piece_set(square, None);
                        }
                        idx = idx + 1;
                    }
                    assert(position@.board =~= own_pieces_only(pos, v).board);
                    position.hand_of_a_player_set(v.flip(), &empty_hand);
                    assert(position@.hands =~= hand_cleared(own_pieces_only(pos, v), v.spec_flip()).hands);
                    assert(position@ == hand_cleared(own_pieces_only(pos, v), v.spec_flip()));
                    position.to_sfen_chars()
                }
            },
            None => self.inner.inner.to_sfen_chars(),
        };
        assert(chars@ == viewed_sfen(self.inner@, self.setting, viewpoint, is_dark_shogi));
        let sfen = crate::text::chars_to_string(&chars);
        match crate::sfen_util::denormalize_sfen_from_9x9(sfen.as_str(), self.setting.files, self.setting.ranks) {
            Ok(t) => t,
            Err(_) => sfen,
        }
    }
}

} // verus!

verus! {

/// The setting used to list where a piece named `piece` can go: a knight or lance is
/// treated as promoting only on the last rank, and tsuitate is as asked.
pub open spec fn candidates_setting(setting: Setting, piece: Seq<u8>, is_tsuitate: bool) -> Setting {
    if piece == crate::convert::name2('K', 'E') || piece == crate::convert::name2('K', 'Y') {
        Setting { promotion_ranks: setting.ranks, is_tsuitate, ..setting }
    } else {
        Setting { is_tsuitate, ..setting }
    }
}

/// The piece name written in the moves tried: a knight or lance moving on the board is
/// written promoted (`NK`, `NY`).
pub open spec fn written_piece(piece: Seq<char>, from: Seq<char>) -> Seq<char> {
    let pb = vstd::utf8::encode_utf8(piece);
    let fb = vstd::utf8::encode_utf8(from);
    if pb == crate::convert::name2('K', 'E') && fb != crate::convert::name2('0', '0') {
        seq!['N', 'K']
    } else if pb == crate::convert::name2('K', 'Y') && fb != crate::convert::name2('0', '0') {
        seq!['N', 'Y']
    } else {
        piece
    }
}

/// File and rank of the square with index `i`, as two digits.
pub open spec fn square_text(i: int) -> Seq<char> {
    seq![crate::text::digit_char(crate::types::index_file(i)), crate::text::digit_char(crate::types::index_rank(i))]
}

/// The origin named by file `f` and rank `r` can be asked about: `00` (a drop), or a square
/// holding the named piece of `color`.
pub open spec fn origin_ok(pos: PosView, color: Color, f: u8, r: u8, piece: Seq<u8>) -> bool {
    ||| f == 0 && r == 0
    ||| on_board(f as int, r as int) && (crate::convert::csa_kind(piece) matches Some(k) && pos.at(
        crate::types::sq_index(f as int, r as int),
    ) == Some(Piece { kind: k, color }))
}

/// The squares tried as destinations: for a drop, every square of the board without a piece
/// of `color`; for a move, where the piece can go in `s` (promotion and king safety aside).
pub open spec fn tried(pos: PosView, s: Setting, color: Color, f: u8, r: u8, piece: Seq<u8>, i: int) -> bool {
    if f == 0 && r == 0 {
        valid_index(i) && !pos.owned_by(i, color) && s.board_mask.has(i)
    } else {
        crate::normal::candidate(
            pos,
            Piece { kind: crate::convert::csa_kind(piece)->0, color },
            Square { index: crate::types::sq_index(f as int, r as int) as u8 },
            s,
            i,
        )
    }
}

/// The move written `text` can be played in `g` (by either player when `ignore_turn`).
pub open spec fn playable(g: GameView, s: Setting, text: Seq<char>, ignore_turn: bool) -> bool {
    match parsed(vstd::utf8::encode_utf8(text), g.pos) {
        Some(mv) => if ignore_turn {
            step_ignoring_turn(g, mv, s) is Some
        } else {
            g.step(mv, s) is Some
        },
        None => false,
    }
}

/// The destinations, among squares 1..=n, of the moves written with the given sign, origin
/// and piece name that can be played.
pub open spec fn playable_targets(
    g: GameView,
    s: Setting,
    color: Color,
    f: u8,
    r: u8,
    csa_color: char,
    from: Seq<char>,
    piece: Seq<char>,
    ignore_turn: bool,
    n: int,
) -> Seq<Seq<char>>
    decreases n,
{
    if n <= 0 {
        seq![]
    } else {
        playable_targets(g, s, color, f, r, csa_color, from, piece, ignore_turn, n - 1) + if tried(
            g.pos,
            s,
            color,
            f,
            r,
            vstd::utf8::encode_utf8(piece),
            n,
        ) && playable(g, s, seq![csa_color] + from + square_text(n) + written_piece(piece, from), ignore_turn) {
            seq![square_text(n)]
        } else {
            seq![]
        }
    }
}

/// The destinations (as file and rank digits, in square order) to which the piece named
/// `piece` of the player with sign `csa_color` can be moved from the origin `from` (`00` for a
/// drop) in a way the game accepts; nothing when sign or origin cannot be read. A destination
/// is listed only when the move written for it is accepted by the game: so a square holding
/// the opponent's king is listed only in tsuitate, where capturing it is a valid move. A knight
/// or lance moving on the board is tried written promoted (`NK`, `NY`), with promotion allowed
/// on every rank (see `candidates_setting`), not with a promotion zone of nine ranks fixed
/// whatever the board's size.
pub open spec fn candidate_destinations(
    g: GameView,
    setting: Setting,
    csa_color: char,
    from: Seq<char>,
    piece: Seq<char>,
    is_tsuitate: bool,
    ignore_turn: bool,
) -> Seq<Seq<char>> {
    let fb = vstd::utf8::encode_utf8(from);
    let pb = vstd::utf8::encode_utf8(piece);
    let s = candidates_setting(setting, pb, is_tsuitate);
    match (crate::convert::digit_at(fb, 0), crate::convert::digit_at(fb, 1), crate::convert::color_of_sign(csa_color)) {
        (Some(f), Some(r), Some(color)) => if origin_ok(g.pos, color, f, r, pb) {
            playable_targets(g, s, color, f, r, csa_color, from, piece, ignore_turn, 81)
        } else {
            seq![]
        },
        _ => seq![],
    }
}

/// Whether the bytes of `s` are the two bytes `a`, `b`.
fn bytes_are(s: &str, a: u8, b: u8) -> (r: bool)
    ensures
        r == (s.spec_bytes() == seq![a, b]),
{
    let bytes = s.as_bytes();
    let r = bytes.len() == 2 && bytes[0] == a && bytes[1] == b;
    proof {
        if r {
            assert(bytes@ =~= seq![a, b]);
        }
        if s.spec_bytes() == seq![a, b] {
            assert(bytes@[0] == a && bytes@[1] == b);
        }
    }
    r
}

impl GameApi {
    /// Whether the move written `text` can be played (see `playable`).
    fn can_play(&self, text: &Vec<char>, setting: &Setting, ignore_turn: bool) -> (r: bool)
        requires
            self.wf(),
            setting.wf(),
        ensures
            r == playable(self.inner@, *setting, text@, ignore_turn),
    {
        let s = crate::text::chars_to_string(text);
        let mv = match crate::convert::csa_to_move(s.as_str(), self.position()) {
            Ok(mv) => mv,
            Err(_) => return false,
        };
        let mut game = self.inner.copy();
        if game.make_move(mv, setting).is_some() {
            return true;
        }
        if !ignore_turn {
            return false;
        }
        let flipped = game.inner.side_to_move().flip();
        game.inner.side_to_move_set(flipped);
        assert(game@ == (GameView { pos: with_side(self.pos(), self.pos().side.spec_flip()), ..self.inner@ }));
        game.make_move(mv, setting).is_some()
    }

    /// The destinations to which the named piece can be moved from `csa_from` (see
    /// `candidate_destinations`), as file and rank digits.
    pub fn from_candidates(
        &self,
        csa_color: char,
        csa_from: &str,
        csa_piece: &str,
        is_tsuitate: bool,
        ignore_turn: bool,
    ) -> (r: Vec<String>)
        requires
            self.wf(),
        ensures
            r@.map_values(|s: String| s@) == candidate_destinations(
                self.inner@,
                self.setting,
                csa_color,
                csa_from@,
                csa_piece@,
                is_tsuitate,
                ignore_turn,
            ),
    {
        let ghost g = self.inner@;
        let ghost pos = self.pos();
        let mut ret: Vec<String> = Vec::new();
        let file_from = match crate::convert::csa_coord_digit(csa_from, 0) {
            Some(value) => value,
            None => return ret,
        };
        let rank_from = match crate::convert::csa_coord_digit(csa_from, 1) {
            Some(value) => value,
            None => return ret,
        };
        let color = match crate::convert::csa_sign_to_color(csa_color) {
            Some(c) => c,
            None => return ret,
        };
        let is_knight = bytes_are(csa_piece, 75, 69);
        let is_lance = bytes_are(csa_piece, 75, 89);
        let setting = if is_knight || is_lance {
            Setting { promotion_ranks: self.setting.ranks, is_tsuitate, ..self.setting }
        } else {
            Setting { is_tsuitate, ..self.setting }
        };
        assert(setting == candidates_setting(self.setting, csa_piece.spec_bytes(), is_tsuitate));
        let ghost pb = csa_piece.spec_bytes();
        let bitboard = if file_from == 0 && rank_from == 0 {
            self.position().player_bitboard(color).not()
        } else {
            let square_from = match Square::new(file_from, rank_from) {
                Some(square) => square,
                None => return ret,
            };
            let piece_kind = match crate::convert::csa_to_piece_kind(csa_piece) {
                Ok(k) => k,
                Err(_) => return ret,
            };
            let piece = Piece::new(piece_kind, color);
            let here = self.position().piece_at(square_from);
            let same = match here {
                Some(p) => p.kind == piece_kind && p.color == color,
                None => false,
            };
            if !same {
                return ret;
            }
            crate::normal::from_candidates(self.position(), piece, square_from, &setting)
        };
        let targets = bitboard.and(setting.board_mask);
        assert(origin_ok(pos, color, file_from, rank_from, pb));
        let from_is_drop = bytes_are(csa_from, 48, 48);
        let mut written: Vec<char> = Vec::new();
        if is_knight && !from_is_drop {
            written.push('N');
            written.push('K');
        } else if is_lance && !from_is_drop {
            written.push('N');
            written.push('Y');
        } else {
            written = crate::text::str_chars(csa_piece);
        }
        assert(written@ =~= written_piece(csa_piece@, csa_from@));
        let from_chars = crate::text::str_chars(csa_from);
        let mut idx: u8 = 1;
        assert(ret@.map_values(|s: String| s@) =~= seq![]);
        while idx <= 81
            invariant
                self.wf(),
                g == self.inner@,
                pos == self.pos(),
                setting.wf(),
                setting == candidates_setting(self.setting, pb, is_tsuitate),
                pb == csa_piece.spec_bytes(),
                from_chars@ == csa_from@,
                written@ == written_piece(csa_piece@, csa_from@),
                targets.wf(),
                forall|i: int| targets.has(i) <==> tried(pos, setting, color, file_from, rank_from, pb, i),
                1 <= idx <= 82,
                ret@.map_values(|s: String| s@) == playable_targets(
                    g,
                    setting,
                    color,
                    file_from,
                    rank_from,
                    csa_color,
                    csa_from@,
                    csa_piece@,
                    ignore_turn,
                    idx - 1,
                ),
            decreases 82 - idx,
        {
            let to = Square { index: idx };
            let ghost before = ret@;
            if targets.contains(to) {
                let mut coords: Vec<char> = Vec::new();
                coords.push(((to.file() + 48) as char));
                coords.push(((to.rank() + 48) as char));
                assert(coords@ =~= square_text(idx as int));
                let mut text: Vec<char> = Vec::new();
                text.push(csa_color);
                crate::text::append_chars(&mut text, &from_chars);
                crate::text::append_chars(&mut text, &coords);
                crate::text::append_chars(&mut text, &written);
                assert(text@ =~= seq![csa_color] + csa_from@ + square_text(idx as int) + written_piece(csa_piece@, csa_from@));
                if self.can_play(&text, &setting, ignore_turn) {
                    ret.push(crate::text::chars_to_string(&coords));
                }
            }
            assert(ret@.map_values(|s: String| s@) =~= playable_targets(
                g,
                setting,
                color,
                file_from,
                rank_from,
                csa_color,
                csa_from@,
                csa_piece@,
                ignore_turn,
                idx as int,
            ));
            idx = idx + 1;
        }
        ret
    }
}

} // verus!
