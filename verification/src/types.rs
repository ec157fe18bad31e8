//! Colors, piece kinds, pieces, squares and moves.
use vstd::prelude::*;

verus! {

/// The two players. Black moves first.
#[derive(Clone, Copy, Debug, PartialEq, Eq, Structural)]
pub enum Color {
    Black,
    White,
}

impl Color {
    pub open spec fn spec_flip(self) -> Color {
        match self {
            Color::Black => Color::White,
            Color::White => Color::Black,
        }
    }

    /// The other player.
    #[verifier::when_used_as_spec(spec_flip)]
    pub fn flip(self) -> (r: Color)
        ensures
            r == self.spec_flip(),
    {
        match self {
            Color::Black => Color::White,
            Color::White => Color::Black,
        }
    }

    /// 0 for Black, 1 for White.
    pub open spec fn index(self) -> int {
        match self {
            Color::Black => 0,
            Color::White => 1,
        }
    }
}

/// The fourteen kinds of pieces.
#[derive(Clone, Copy, Debug, PartialEq, Eq, Structural)]
pub enum PieceKind {
    Pawn,
    Lance,
    Knight,
    Silver,
    Gold,
    Bishop,
    Rook,
    King,
    ProPawn,
    ProLance,
    ProKnight,
    ProSilver,
    ProBishop,
    ProRook,
}

impl PieceKind {
    pub open spec fn spec_promote(self) -> Option<PieceKind> {
        match self {
            PieceKind::Pawn => Some(PieceKind::ProPawn),
            PieceKind::Lance => Some(PieceKind::ProLance),
            PieceKind::Knight => Some(PieceKind::ProKnight),
            PieceKind::Silver => Some(PieceKind::ProSilver),
            PieceKind::Bishop => Some(PieceKind::ProBishop),
            PieceKind::Rook => Some(PieceKind::ProRook),
            _ => None,
        }
    }

    pub open spec fn spec_unpromote(self) -> Option<PieceKind> {
        match self {
            PieceKind::ProPawn => Some(PieceKind::Pawn),
            PieceKind::ProLance => Some(PieceKind::Lance),
            PieceKind::ProKnight => Some(PieceKind::Knight),
            PieceKind::ProSilver => Some(PieceKind::Silver),
            PieceKind::ProBishop => Some(PieceKind::Bishop),
            PieceKind::ProRook => Some(PieceKind::Rook),
            _ => None,
        }
    }

    /// The promoted kind, if this kind can promote.
    #[verifier::when_used_as_spec(spec_promote)]
    pub fn promote(self) -> (r: Option<PieceKind>)
        ensures
            r == self.spec_promote(),
    {
        match self {
            PieceKind::Pawn => Some(PieceKind::ProPawn),
            PieceKind::Lance => Some(PieceKind::ProLance),
            PieceKind::Knight => Some(PieceKind::ProKnight),
            PieceKind::Silver => Some(PieceKind::ProSilver),
            PieceKind::Bishop => Some(PieceKind::ProBishop),
            PieceKind::Rook => Some(PieceKind::ProRook),
            _ => None,
        }
    }

    /// The unpromoted kind, if this kind is a promoted one.
    #[verifier::when_used_as_spec(spec_unpromote)]
    pub fn unpromote(self) -> (r: Option<PieceKind>)
        ensures
            r == self.spec_unpromote(),
    {
        match self {
            PieceKind::ProPawn => Some(PieceKind::Pawn),
            PieceKind::ProLance => Some(PieceKind::Lance),
            PieceKind::ProKnight => Some(PieceKind::Knight),
            PieceKind::ProSilver => Some(PieceKind::Silver),
            PieceKind::ProBishop => Some(PieceKind::Bishop),
            PieceKind::ProRook => Some(PieceKind::Rook),
            _ => None,
        }
    }

    /// Position of a kind that can be held in hand (pawn .. rook), in that order.
    pub open spec fn hand_index(self) -> Option<int> {
        match self {
            PieceKind::Pawn => Some(0),
            PieceKind::Lance => Some(1),
            PieceKind::Knight => Some(2),
            PieceKind::Silver => Some(3),
            PieceKind::Gold => Some(4),
            PieceKind::Bishop => Some(5),
            PieceKind::Rook => Some(6),
            _ => None,
        }
    }

    /// Executable form of `hand_index`.
    pub fn hand_slot(self) -> (r: Option<usize>)
        ensures
            r matches Some(i) ==> self.hand_index() == Some(i as int),
            r is None ==> self.hand_index() is None,
    {
        match self {
            PieceKind::Pawn => Some(0),
            PieceKind::Lance => Some(1),
            PieceKind::Knight => Some(2),
            PieceKind::Silver => Some(3),
            PieceKind::Gold => Some(4),
            PieceKind::Bishop => Some(5),
            PieceKind::Rook => Some(6),
            _ => None,
        }
    }

    /// The kind held in hand at a slot (0..7).
    pub open spec fn spec_of_hand_slot(i: int) -> PieceKind {
        if i == 0 {
            PieceKind::Pawn
        } else if i == 1 {
            PieceKind::Lance
        } else if i == 2 {
            PieceKind::Knight
        } else if i == 3 {
            PieceKind::Silver
        } else if i == 4 {
            PieceKind::Gold
        } else if i == 5 {
            PieceKind::Bishop
        } else {
            PieceKind::Rook
        }
    }

    /// Executable form of `spec_of_hand_slot`.
    pub fn of_hand_slot(i: usize) -> (r: PieceKind)
        requires
            i < 7,
        ensures
            r == Self::spec_of_hand_slot(i as int),
            r.hand_index() == Some(i as int),
    {
        if i == 0 {
            PieceKind::Pawn
        } else if i == 1 {
            PieceKind::Lance
        } else if i == 2 {
            PieceKind::Knight
        } else if i == 3 {
            PieceKind::Silver
        } else if i == 4 {
            PieceKind::Gold
        } else if i == 5 {
            PieceKind::Bishop
        } else {
            PieceKind::Rook
        }
    }

    /// Equality of kinds, usable in executable code.
    pub fn same(self, other: PieceKind) -> (r: bool)
        ensures
            r == (self == other),
    {
        self == other
    }
}

/// A piece: a kind and the player who owns it.
#[derive(Clone, Copy, Debug, PartialEq, Eq, Structural)]
pub struct Piece {
    pub kind: PieceKind,
    pub color: Color,
}

impl Piece {
    /// Builds a piece.
    pub fn new(kind: PieceKind, color: Color) -> (r: Piece)
        ensures
            r == (Piece { kind, color }),
    {
        Piece { kind, color }
    }

    pub fn piece_kind(self) -> (r: PieceKind)
        ensures
            r == self.kind,
    {
        self.kind
    }

    pub fn color(self) -> (r: Color)
        ensures
            r == self.color,
    {
        self.color
    }

    pub open spec fn spec_promote(self) -> Option<Piece> {
        match self.kind.spec_promote() {
            Some(k) => Some(Piece { kind: k, color: self.color }),
            None => None,
        }
    }

    /// The promoted piece, if it can promote.
    #[verifier::when_used_as_spec(spec_promote)]
    pub fn promote(self) -> (r: Option<Piece>)
        ensures
            r == self.spec_promote(),
    {
        match self.kind.promote() {
            Some(k) => Some(Piece { kind: k, color: self.color }),
            None => None,
        }
    }
}

/// A square of the 9x9 board, by its index `9 * (file - 1) + rank` (1..=81).
#[derive(Clone, Copy, Debug, PartialEq, Eq, Structural)]
pub struct Square {
    pub index: u8,
}

/// Index of the square at (file, rank).
pub open spec fn sq_index(file: int, rank: int) -> int {
    9 * file + rank - 9
}

/// Whether (file, rank) lies on the 9x9 board.
pub open spec fn on_board(file: int, rank: int) -> bool {
    1 <= file <= 9 && 1 <= rank <= 9
}

/// Whether an integer is the index of a square.
pub open spec fn valid_index(i: int) -> bool {
    1 <= i <= 81
}

/// File of a square index.
pub open spec fn index_file(i: int) -> int {
    (i - 1) / 9 + 1
}

/// Rank of a square index.
pub open spec fn index_rank(i: int) -> int {
    (i - 1) % 9 + 1
}

/// File and rank determine the index, and the index determines file and rank.
pub proof fn lemma_index_coords(i: int)
    requires
        valid_index(i),
    ensures
        on_board(index_file(i), index_rank(i)),
        sq_index(index_file(i), index_rank(i)) == i,
{
}

/// The index of an on-board coordinate pair gives back its file and rank.
pub proof fn lemma_coords_index(file: int, rank: int)
    requires
        on_board(file, rank),
    ensures
        valid_index(sq_index(file, rank)),
        index_file(sq_index(file, rank)) == file,
        index_rank(sq_index(file, rank)) == rank,
{
}

impl Square {
    pub open spec fn wf(self) -> bool {
        valid_index(self.index as int)
    }

    pub open spec fn spec_file(self) -> int {
        index_file(self.index as int)
    }

    pub open spec fn spec_rank(self) -> int {
        index_rank(self.index as int)
    }

    /// The square at (file, rank), if both lie in 1..=9.
    pub fn new(file: u8, rank: u8) -> (r: Option<Square>)
        ensures
            r is Some <==> on_board(file as int, rank as int),
            r matches Some(s) ==> s.wf() && s.index == sq_index(file as int, rank as int)
                && s.spec_file() == file && s.spec_rank() == rank,
    {
        if 1 <= file && file <= 9 && 1 <= rank && rank <= 9 {
            proof {
                lemma_coords_index(file as int, rank as int);
            }
            Some(Square { index: file * 9 + rank - 9 })
        } else {
            None
        }
    }

    /// The square with this index, if it lies in 1..=81.
    pub fn from_u8(index: u8) -> (r: Option<Square>)
        ensures
            r is Some <==> valid_index(index as int),
            r matches Some(s) ==> s.index == index,
    {
        if 1 <= index && index <= 81 {
            Some(Square { index })
        } else {
            None
        }
    }

    pub fn index(self) -> (r: u8)
        ensures
            r == self.index,
    {
        self.index
    }

    pub fn file(self) -> (r: u8)
        requires
            self.wf(),
        ensures
            r == self.spec_file(),
            1 <= r <= 9,
    {
        (self.index - 1) / 9 + 1
    }

    pub fn rank(self) -> (r: u8)
        requires
            self.wf(),
        ensures
            r == self.spec_rank(),
            1 <= r <= 9,
    {
        (self.index - 1) % 9 + 1
    }

    /// The square moved by (file_delta, rank_delta), if it stays on the board.
    pub fn shift(self, file_delta: i8, rank_delta: i8) -> (r: Option<Square>)
        requires
            self.wf(),
        ensures
            r is Some <==> on_board(self.spec_file() + file_delta, self.spec_rank() + rank_delta),
            r matches Some(s) ==> s.wf() && s.index == sq_index(
                self.spec_file() + file_delta,
                self.spec_rank() + rank_delta,
            ),
    {
        let f = self.file() as i16 + file_delta as i16;
        let r = self.rank() as i16 + rank_delta as i16;
        if 1 <= f && f <= 9 && 1 <= r && r <= 9 {
            proof {
                lemma_coords_index(f as int, r as int);
            }
            Some(Square { index: (f * 9 + r - 9) as u8 })
        } else {
            None
        }
    }
}

/// A move: a piece moving on the board, or a piece dropped from hand.
#[derive(Clone, Copy, Debug, PartialEq, Eq, Structural)]
pub enum Move {
    Normal { from: Square, to: Square, promote: bool },
    Drop { piece: Piece, to: Square },
}

impl Move {
    pub open spec fn wf(self) -> bool {
        match self {
            Move::Normal { from, to, .. } => from.wf() && to.wf(),
            Move::Drop { to, .. } => to.wf(),
        }
    }

    pub open spec fn spec_to(self) -> Square {
        match self {
            Move::Normal { to, .. } => to,
            Move::Drop { to, .. } => to,
        }
    }

    /// The destination square.
    #[verifier::when_used_as_spec(spec_to)]
    pub fn to(self) -> (r: Square)
        ensures
            r == self.spec_to(),
    {
        match self {
            Move::Normal { to, .. } => to,
            Move::Drop { to, .. } => to,
        }
    }
}

} // verus!
