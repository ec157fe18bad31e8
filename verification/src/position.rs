//! A position: the board, the pieces in hand, the side to move and the move count.
use vstd::prelude::*;
use crate::types::{Color, PieceKind, Piece, Square, Move, valid_index};
use crate::bitboard::Bitboard;

verus! {

/// The mathematical content of a position.
pub struct PosView {
    pub side: Color,
    pub ply: u16,
    /// Entry `i - 1` is what stands on the square with index `i`.
    pub board: Seq<Option<Piece>>,
    /// Entry `7 * c + k` counts the pieces of kind slot `k` in the hand of the player with index `c`.
    pub hands: Seq<u8>,
    pub last_move: Option<Move>,
    /// The square where a king of each color was last placed.
    pub king_black: Option<Square>,
    pub king_white: Option<Square>,
}

/// Slot of a hand count in `PosView::hands`.
pub open spec fn hand_pos(color: Color, slot: int) -> int {
    7 * color.index() + slot
}

/// The kind that a captured piece turns into in the capturer's hand.
pub open spec fn captured_kind(k: PieceKind) -> PieceKind {
    match k.spec_unpromote() {
        Some(u) => u,
        None => k,
    }
}

impl PosView {
    pub open spec fn at(self, i: int) -> Option<Piece> {
        self.board[i - 1]
    }

    /// The square with index `i` holds a piece of `color`.
    pub open spec fn owned_by(self, i: int, color: Color) -> bool {
        valid_index(i) && (self.at(i) matches Some(p) && p.color == color)
    }

    pub open spec fn occupied(self, i: int) -> bool {
        valid_index(i) && self.at(i) is Some
    }

    pub open spec fn hand_count(self, color: Color, slot: int) -> u8 {
        self.hands[hand_pos(color, slot)]
    }

    pub open spec fn king(self, color: Color) -> Option<Square> {
        match color {
            Color::Black => self.king_black,
            Color::White => self.king_white,
        }
    }

    /// Placing `piece` (or nothing) on the square: kings remember where they were put.
    pub open spec fn put(self, sq: Square, piece: Option<Piece>) -> PosView {
        PosView {
            board: self.board.update(sq.index - 1, piece),
            king_black: if piece == Some(Piece { kind: PieceKind::King, color: Color::Black }) {
                Some(sq)
            } else {
                self.king_black
            },
            king_white: if piece == Some(Piece { kind: PieceKind::King, color: Color::White }) {
                Some(sq)
            } else {
                self.king_white
            },
            ..self
        }
    }

    /// Whether `mv` can be played: the moving piece belongs to the side to move,
    /// a promotion is possible, the destination does not hold an own piece and what is
    /// captured can go to hand; a drop needs a piece of that kind in hand and a vacant square.
    pub open spec fn can_make_move(self, mv: Move) -> bool {
        match mv {
            Move::Normal { from, to, promote } => match self.at(from.index as int) {
                Some(p) => {
                    &&& p.color == self.side
                    &&& promote ==> p.kind.spec_promote() is Some
                    &&& match self.at(to.index as int) {
                        Some(e) => e.color != p.color && captured_kind(e.kind).hand_index() is Some,
                        None => true,
                    }
                },
                None => false,
            },
            Move::Drop { piece, to } => {
                &&& piece.color == self.side
                &&& piece.kind.spec_unpromote() is None
                &&& self.at(to.index as int) is None
                &&& piece.kind.hand_index() matches Some(s) && self.hand_count(piece.color, s) > 0
            },
        }
    }

    /// The position after playing `mv` (meaningful when `can_make_move(mv)`).
    pub open spec fn after_move(self, mv: Move) -> PosView {
        let moved = match mv {
            Move::Normal { from, to, promote } => {
                let p = self.at(from.index as int).unwrap();
                let target = if promote { p.spec_promote().unwrap() } else { p };
                let hands = match self.at(to.index as int) {
                    Some(e) => {
                        let slot = hand_pos(p.color, captured_kind(e.kind).hand_index().unwrap());
                        self.hands.update(slot, ((self.hands[slot] + 1) % 256) as u8)
                    },
                    None => self.hands,
                };
                PosView { hands, ..self }.put(from, None).put(to, Some(target))
            },
            Move::Drop { piece, to } => {
                let slot = hand_pos(piece.color, piece.kind.hand_index().unwrap());
                PosView { hands: self.hands.update(slot, (self.hands[slot] - 1) as u8), ..self }.put(
                    to,
                    Some(piece),
                )
            },
        };
        PosView {
            last_move: Some(mv),
            side: self.side.spec_flip(),
            ply: ((self.ply + 1) % 65536) as u16,
            ..moved
        }
    }
}

/// A position of a game.
pub struct PartialPosition {
    pub side: Color,
    pub ply: u16,
    pub hands: Vec<u8>,
    pub board: Vec<Option<Piece>>,
    pub last_move: Option<Move>,
    pub king_black: Option<Square>,
    pub king_white: Option<Square>,
}

impl View for PartialPosition {
    type V = PosView;

    open spec fn view(&self) -> PosView {
        PosView {
            side: self.side,
            ply: self.ply,
            board: self.board@,
            hands: self.hands@,
            last_move: self.last_move,
            king_black: self.king_black,
            king_white: self.king_white,
        }
    }
}

impl PartialPosition {
    pub open spec fn wf(&self) -> bool {
        &&& self.board@.len() == 81
        &&& self.hands@.len() == 14
        &&& self.king_black matches Some(s) ==> s.wf()
        &&& self.king_white matches Some(s) ==> s.wf()
    }

    /// The position with no pieces at all, Black to move, at move 1.
    pub fn empty() -> (r: PartialPosition)
        ensures
            r.wf(),
            r@.side == Color::Black,
            r@.ply == 1,
            forall|i: int| 0 <= i < 81 ==> r@.board[i] is None,
            forall|i: int| 0 <= i < 14 ==> r@.hands[i] == 0,
            r@.last_move is None,
            r@.king_black is None,
            r@.king_white is None,
    {
        let mut board: Vec<Option<Piece>> = Vec::new();
        let mut i: usize = 0;
        while i < 81
            invariant
                i <= 81,
                board@.len() == i,
                forall|j: int| 0 <= j < i ==> board@[j] is None,
            decreases 81 - i,
        {
            board.push(None);
            i = i + 1;
        }
        let mut hands: Vec<u8> = Vec::new();
        let mut i: usize = 0;
        while i < 14
            invariant
                i <= 14,
                hands@.len() == i,
                forall|j: int| 0 <= j < i ==> hands@[j] == 0,
            decreases 14 - i,
        {
            hands.push(0);
            i = i + 1;
        }
        PartialPosition {
            side: Color::Black,
            ply: 1,
            hands,
            board,
            last_move: None,
            king_black: None,
            king_white: None,
        }
    }

    /// An exact copy.
    pub fn copy(&self) -> (r: PartialPosition)
        requires
            self.wf(),
        ensures
            r.wf(),
            r@ == self@,
    {
        let mut board: Vec<Option<Piece>> = Vec::new();
        let mut i: usize = 0;
        while i < 81
            invariant
                self.wf(),
                i <= 81,
                board@ == self.board@.subrange(0, i as int),
            decreases 81 - i,
        {
            board.push(self.board[i]);
            i = i + 1;
        }
        let mut hands: Vec<u8> = Vec::new();
        let mut i: usize = 0;
        while i < 14
            invariant
                self.wf(),
                i <= 14,
                hands@ == self.hands@.subrange(0, i as int),
            decreases 14 - i,
        {
            hands.push(self.hands[i]);
            i = i + 1;
        }
        assert(board@ == self.board@);
        assert(hands@ == self.hands@);
        PartialPosition {
            side: self.side,
            ply: self.ply,
            hands,
            board,
            last_move: self.last_move,
            king_black: self.king_black,
            king_white: self.king_white,
        }
    }

    pub fn side_to_move(&self) -> (r: Color)
        ensures
            r == self@.side,
    {
        self.side
    }

    pub fn side_to_move_set(&mut self, side: Color)
        ensures
            final(self)@ == (PosView { side, ..old(self)@ }),
    {
        self.side = side;
    }

    pub fn ply(&self) -> (r: u16)
        ensures
            r == self@.ply,
    {
        self.ply
    }

    pub fn piece_at(&self, square: Square) -> (r: Option<Piece>)
        requires
            self.wf(),
            square.wf(),
        ensures
            r == self@.at(square.index as int),
    {
        self.board[(square.index - 1) as usize]
    }

    pub fn king_position(&self, color: Color) -> (r: Option<Square>)
        ensures
            r == self@.king(color),
    {
        match color {
            Color::Black => self.king_black,
            Color::White => self.king_white,
        }
    }

    /// How many pieces like `piece` its owner holds in hand; `None` for kinds that
    /// cannot be held.
    pub fn hand(&self, piece: Piece) -> (r: Option<u8>)
        requires
            self.wf(),
        ensures
            r == (match piece.kind.hand_index() {
                Some(s) => Some(self@.hand_count(piece.color, s)),
                None => None,
            }),
    {
        match piece.kind.hand_slot() {
            Some(s) => Some(self.hands[Self::slot(piece.color, s)]),
            None => None,
        }
    }

    fn slot(color: Color, s: usize) -> (r: usize)
        requires
            s < 7,
        ensures
            r == hand_pos(color, s as int),
            r < 14,
    {
        match color {
            Color::Black => s,
            Color::White => 7 + s,
        }
    }

    /// The seven counts (pawn .. rook) held by `color`.
    pub fn hand_of_a_player(&self, color: Color) -> (r: Vec<u8>)
        requires
            self.wf(),
        ensures
            r@.len() == 7,
            forall|s: int| 0 <= s < 7 ==> r@[s] == self@.hand_count(color, s),
    {
        let mut r: Vec<u8> = Vec::new();
        let mut s: usize = 0;
        while s < 7
            invariant
                self.wf(),
                s <= 7,
                r@.len() == s,
                forall|t: int| 0 <= t < s ==> r@[t] == self@.hand_count(color, t),
            decreases 7 - s,
        {
            r.push(self.hands[Self::slot(color, s)]);
            s = s + 1;
        }
        r
    }

    /// Replaces the seven counts held by `color`.
    pub fn hand_of_a_player_set(&mut self, color: Color, counts: &Vec<u8>)
        requires
            old(self).wf(),
            counts@.len() == 7,
        ensures
            final(self).wf(),
            final(self)@ == (PosView {
                hands: Seq::new(14, |i: int| if 7 * color.index() <= i < 7 * color.index() + 7 {
                    counts@[i - 7 * color.index()]
                } else {
                    old(self)@.hands[i]
                }),
                ..old(self)@
            }),
    {
        let mut s: usize = 0;
        while s < 7
            invariant
                self.wf(),
                s <= 7,
                counts@.len() == 7,
                self@ == (PosView { hands: self@.hands, ..old(self)@ }),
                forall|i: int| 0 <= i < 14 ==> self@.hands[i] == if 7 * color.index() <= i < 7
                    * color.index() + s {
                    counts@[i - 7 * color.index()]
                } else {
                    old(self)@.hands[i]
                },
            decreases 7 - s,
        {
            let k = Self::slot(color, s);
            self.hands.set(k, counts[s]);
            s = s + 1;
        }
        assert(self@.hands =~= Seq::new(14, |i: int| if 7 * color.index() <= i < 7 * color.index() + 7 {
            counts@[i - 7 * color.index()]
        } else {
            old(self)@.hands[i]
        }));
    }

    /// Puts `piece` (or nothing) on `square`.
    pub fn piece_set(&mut self, square: Square, piece: Option<Piece>)
        requires
            old(self).wf(),
            square.wf(),
        ensures
            final(self).wf(),
            final(self)@ == old(self)@.put(square, piece),
    {
        self.board.set((square.index - 1) as usize, piece);
        match piece {
            Some(p) => {
                if p.kind.same(PieceKind::King) {
                    match p.color {
                        Color::Black => {
                            self.king_black = Some(square);
                        },
                        Color::White => {
                            self.king_white = Some(square);
                        },
                    }
                }
            },
            None => {},
        }
    }

    /// The squares holding a piece of `color`.
    pub fn player_bitboard(&self, color: Color) -> (r: Bitboard)
        requires
            self.wf(),
        ensures
            r.wf(),
            forall|i: int| r.has(i) <==> self@.owned_by(i, color),
    {
        let mut r = Bitboard::empty();
        let mut idx: u8 = 1;
        while idx <= 81
            invariant
                self.wf(),
                1 <= idx <= 82,
                r.wf(),
                forall|i: int| r.has(i) <==> (i < idx && self@.owned_by(i, color)),
            decreases 82 - idx,
        {
            match self.board[(idx - 1) as usize] {
                Some(p) => {
                    if p.color == color {
                        r = r.with(Square { index: idx });
                    }
                },
                None => {},
            }
            idx = idx + 1;
        }
        r
    }

    /// The squares holding exactly `piece`.
    pub fn piece_bitboard(&self, piece: Piece) -> (r: Bitboard)
        requires
            self.wf(),
        ensures
            r.wf(),
            forall|i: int| r.has(i) <==> (valid_index(i) && self@.at(i) == Some(piece)),
    {
        let mut r = Bitboard::empty();
        let mut idx: u8 = 1;
        while idx <= 81
            invariant
                self.wf(),
                1 <= idx <= 82,
                r.wf(),
                forall|i: int| r.has(i) <==> (i < idx && valid_index(i) && self@.at(i) == Some(
                    piece,
                )),
            decreases 82 - idx,
        {
            match self.board[(idx - 1) as usize] {
                Some(p) => {
                    if p == piece {
                        r = r.with(Square { index: idx });
                    }
                },
                None => {},
            }
            idx = idx + 1;
        }
        r
    }

    /// The squares holding any piece.
    pub fn occupied_bitboard(&self) -> (r: Bitboard)
        requires
            self.wf(),
        ensures
            r.wf(),
            forall|i: int| r.has(i) <==> self@.occupied(i),
    {
        self.player_bitboard(Color::Black).or(self.player_bitboard(Color::White))
    }

    /// The squares holding no piece.
    pub fn vacant_bitboard(&self) -> (r: Bitboard)
        requires
            self.wf(),
        ensures
            r.wf(),
            forall|i: int| r.has(i) <==> (valid_index(i) && !self@.occupied(i)),
    {
        self.occupied_bitboard().not()
    }

    /// Plays `mv` if `can_make_move` allows it; otherwise leaves the position unchanged
    /// and returns `None`.
    pub fn make_move(&mut self, mv: Move) -> (r: Option<()>)
        requires
            old(self).wf(),
            mv.wf(),
        ensures
            final(self).wf(),
            r is Some <==> old(self)@.can_make_move(mv),
            r is Some ==> final(self)@ == old(self)@.after_move(mv),
            r is None ==> final(self)@ == old(self)@,
    {
        let color = self.side;
        match mv {
            Move::Normal { from, to, promote } => {
                let piece = match self.piece_at(from) {
                    Some(p) => p,
                    None => return None,
                };
                if piece.color != color {
                    return None;
                }
                let target = if promote {
                    match piece.promote() {
                        Some(t) => t,
                        None => return None,
                    }
                } else {
                    piece
                };
                let ghost mid = self@;
                match self.piece_at(to) {
                    Some(enemy) => {
                        if piece.color == enemy.color {
                            return None;
                        }
                        let obtaining = enemy.kind;
                        let unpromoted = match obtaining.unpromote() {
                            Some(k) => k,
                            None => obtaining,
                        };
                        let s = match unpromoted.hand_slot() {
                            Some(s) => s,
                            None => return None,
                        };
                        let k = Self::slot(piece.color, s);
                        let c = self.hands[k];
                        self.hands.set(k, if c == 255 { 0 } else { c + 1 });
                    },
                    None => {},
                }
                self.piece_set(from, None);
                self.piece_set(to, Some(target));
            },
            Move::Drop { piece, to } => {
                if piece.color != color {
                    return None;
                }
                if piece.kind.unpromote().is_some() {
                    return None;
                }
                if self.piece_at(to).is_some() {
                    return None;
                }
                let s = match piece.kind.hand_slot() {
                    Some(s) => s,
                    None => return None,
                };
                let k = Self::slot(piece.color, s);
                let c = self.hands[k];
                if c == 0 {
                    return None;
                }
                self.hands.set(k, c - 1);
                self.piece_set(to, Some(piece));
            },
        }
        self.last_move = Some(mv);
        self.side = self.side.flip();
        self.ply = if self.ply == 65535 { 0 } else { self.ply + 1 };
        Some(())
    }
}

} // verus!
