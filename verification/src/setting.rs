//! Game variants and board settings.
use vstd::prelude::*;
use crate::types::{valid_index, index_file, index_rank, sq_index, Square};
use crate::bitboard::Bitboard;

verus! {

/// The rules family: regular shogi pieces, or dobutsu shogi pieces (where the silver
/// moves like an elephant and the gold like a giraffe).
#[derive(Clone, Copy, Debug, PartialEq, Eq, Structural)]
pub enum GameKind {
    Shogi,
    Dobutsu,
}

impl GameKind {
    /// The kind with number `value`: 1 for shogi, 2 for dobutsu shogi.
    pub fn from_u8(value: u8) -> (r: Option<GameKind>)
        ensures
            value == 1 ==> r == Some(GameKind::Shogi),
            value == 2 ==> r == Some(GameKind::Dobutsu),
            value != 1 && value != 2 ==> r is None,
    {
        match value {
            1 => Some(GameKind::Shogi),
            2 => Some(GameKind::Dobutsu),
            _ => None,
        }
    }

    pub open spec fn spec_to_u8(self) -> u8 {
        match self {
            GameKind::Shogi => 1,
            GameKind::Dobutsu => 2,
        }
    }

    /// The number of the kind: 1 for shogi, 2 for dobutsu shogi.
    pub fn to_u8(self) -> (r: u8)
        ensures
            r == self.spec_to_u8(),
    {
        match self {
            GameKind::Shogi => 1,
            GameKind::Dobutsu => 2,
        }
    }
}

/// Converting a kind to its number and back gives the kind.
pub proof fn law_game_kind_round_trip(k: GameKind)
    ensures
        k.spec_to_u8() == 1 || k.spec_to_u8() == 2,
        k.spec_to_u8() == 1 <==> k == GameKind::Shogi,
{
}

/// The variant being played: board size (files 1..=`files`, ranks 1..=`ranks` of the 9x9
/// board), the depth of the promotion zone, the piece family and whether the
/// opponent's pieces are hidden (tsuitate).
#[derive(Clone, Copy, Debug)]
pub struct Setting {
    pub game_kind: GameKind,
    pub is_tsuitate: bool,
    pub files: u8,
    pub ranks: u8,
    pub promotion_ranks: u8,
    pub board_mask: Bitboard,
}

/// The square with index `i` lies on a board of `files` x `ranks`.
pub open spec fn in_board(files: int, ranks: int, i: int) -> bool {
    valid_index(i) && index_file(i) <= files && index_rank(i) <= ranks
}

impl Setting {
    pub open spec fn wf(self) -> bool {
        &&& self.files <= 9
        &&& self.ranks <= 9
        &&& self.board_mask.wf()
        &&& forall|i: int| self.board_mask.has(i) <==> in_board(self.files as int, self.ranks as int, i)
    }

    /// The setting of a variant on `files` x `ranks` squares.
    pub fn new(files: u8, ranks: u8, promotion_ranks: u8, game_kind: GameKind, is_tsuitate: bool) -> (r: Setting)
        requires
            files <= 9,
            ranks <= 9,
        ensures
            r.wf(),
            r.files == files,
            r.ranks == ranks,
            r.promotion_ranks == promotion_ranks,
            r.game_kind == game_kind,
            r.is_tsuitate == is_tsuitate,
    {
        let mut board_mask = Bitboard::empty();
        let mut file: u8 = 1;
        while file <= files
            invariant
                files <= 9,
                ranks <= 9,
                1 <= file <= files + 1,
                board_mask.wf(),
                forall|i: int| board_mask.has(i) <==> (in_board(file - 1, ranks as int, i)),
            decreases files + 1 - file,
        {
            let mut rank: u8 = 1;
            while rank <= ranks
                invariant
                    files <= 9,
                    ranks <= 9,
                    1 <= file <= files,
                    1 <= rank <= ranks + 1,
                    board_mask.wf(),
                    forall|i: int| board_mask.has(i) <==> (in_board(file - 1, ranks as int, i) || (
                    valid_index(i) && index_file(i) == file && index_rank(i) < rank)),
                decreases ranks + 1 - rank,
            {
                let sq = Square { index: file * 9 + rank - 9 };
                proof {
                    crate::types::lemma_coords_index(file as int, rank as int);
                }
                board_mask = board_mask.with(sq);
                rank = rank + 1;
            }
            file = file + 1;
        }
        Setting { files, ranks, promotion_ranks, game_kind, is_tsuitate, board_mask }
    }
}

} // verus!
