//! USI/SFEN text for pieces and positions.
use vstd::prelude::*;
use crate::types::{Color, PieceKind, Piece, Square, sq_index};
use crate::position::{PartialPosition, PosView};
use shogi_usi_parser::FromUsi;
use crate::text::{digits, compress, cells_view, decimal, append_chars, compress_cells, chars_to_string};

verus! {

/// The letter of an unpromoted kind (or the base letter of a promoted one), in the case of `color`.
pub open spec fn kind_letter(k: PieceKind, color: Color) -> char {
    let upper = match k {
        PieceKind::Pawn | PieceKind::ProPawn => 'P',
        PieceKind::Lance | PieceKind::ProLance => 'L',
        PieceKind::Knight | PieceKind::ProKnight => 'N',
        PieceKind::Silver | PieceKind::ProSilver => 'S',
        PieceKind::Gold => 'G',
        PieceKind::Bishop | PieceKind::ProBishop => 'B',
        PieceKind::Rook | PieceKind::ProRook => 'R',
        PieceKind::King => 'K',
    };
    match color {
        Color::Black => upper,
        Color::White => ((upper as u8) + 32) as char,
    }
}

/// Whether a kind is a promoted one.
pub open spec fn is_promoted(k: PieceKind) -> bool {
    k.spec_unpromote() is Some
}

/// USI text of a piece kind written for `color`: `+` before promoted kinds, lower case for White.
pub open spec fn kind_usi(k: PieceKind, color: Color) -> Seq<char> {
    if is_promoted(k) {
        seq!['+', kind_letter(k, color)]
    } else {
        seq![kind_letter(k, color)]
    }
}

/// USI text of a piece.
pub open spec fn piece_usi(p: Piece) -> Seq<char> {
    kind_usi(p.kind, p.color)
}

/// Executable form of `kind_letter`.
fn letter(k: PieceKind, color: Color) -> (r: char)
    ensures
        r == kind_letter(k, color),
{
    let upper = match k {
        PieceKind::Pawn | PieceKind::ProPawn => 'P',
        PieceKind::Lance | PieceKind::ProLance => 'L',
        PieceKind::Knight | PieceKind::ProKnight => 'N',
        PieceKind::Silver | PieceKind::ProSilver => 'S',
        PieceKind::Gold => 'G',
        PieceKind::Bishop | PieceKind::ProBishop => 'B',
        PieceKind::Rook | PieceKind::ProRook => 'R',
        PieceKind::King => 'K',
    };
    match color {
        Color::Black => upper,
        Color::White => ((upper as u8) + 32) as char,
    }
}

/// USI characters of a kind written for `color`.
pub fn kind_usi_chars(k: PieceKind, color: Color) -> (r: Vec<char>)
    ensures
        r@ == kind_usi(k, color),
{
    let mut v: Vec<char> = Vec::new();
    if k.unpromote().is_some() {
        v.push('+');
    }
    v.push(letter(k, color));
    assert(v@ =~= kind_usi(k, color));
    v
}

/// The text of one square in a board row: the piece's text, or nothing when vacant.
pub open spec fn cell_usi(p: Option<Piece>) -> Seq<char> {
    match p {
        Some(p) => piece_usi(p),
        None => seq![],
    }
}

/// The cells of a rank of the board, from file 9 down to file 1.
pub open spec fn row_cells(board: Seq<Option<Piece>>, rank: int) -> Seq<Seq<char>> {
    Seq::new(9, |j: int| cell_usi(board[sq_index(9 - j, rank) - 1]))
}

/// Ranks 1..=n of the board, separated by `/`.
pub open spec fn board_usi(board: Seq<Option<Piece>>, n: int) -> Seq<char>
    decreases n,
{
    if n <= 1 {
        compress(row_cells(board, 1), 0)
    } else {
        board_usi(board, n - 1) + seq!['/'] + compress(row_cells(board, n), 0)
    }
}

/// Entry of the hand text for slot `j` of `color`: the count (if at least two), then the letter.
pub open spec fn hand_entry(hands: Seq<u8>, color: Color, j: int) -> Seq<char> {
    let n = hands[7 * color.index() + j];
    if n == 0 {
        seq![]
    } else if n >= 2 {
        digits(n as nat).push(kind_letter(PieceKind::spec_of_hand_slot(j), color))
    } else {
        seq![kind_letter(PieceKind::spec_of_hand_slot(j), color)]
    }
}

/// Hand entries of `color` for slots n-1 down to 0 (rook first, pawn last).
pub open spec fn hand_part(hands: Seq<u8>, color: Color, n: int) -> Seq<char>
    decreases n,
{
    if n <= 0 {
        seq![]
    } else {
        hand_entry(hands, color, n - 1) + hand_part(hands, color, n - 1)
    }
}

/// USI text of both hands: `-` when both are empty.
pub open spec fn hands_usi(hands: Seq<u8>) -> Seq<char> {
    if forall|i: int| 0 <= i < 14 ==> hands[i] == 0 {
        seq!['-']
    } else {
        hand_part(hands, Color::Black, 7) + hand_part(hands, Color::White, 7)
    }
}

/// How many pieces written with the letter `c` a hand text holds, read the way SFEN is read:
/// a run of digits is a count, and the letter after it stands for that many pieces (for one
/// when no count comes before it). `acc` is the count read so far.
pub open spec fn hand_count_read(s: Seq<char>, c: char, acc: nat) -> nat
    decreases s.len(),
{
    if s.len() == 0 {
        0
    } else if '0' <= s[0] <= '9' {
        hand_count_read(s.drop_first(), c, acc * 10 + (s[0] as int - 48) as nat)
    } else {
        (if s[0] == c {
            if acc == 0 {
                1nat
            } else {
                acc
            }
        } else {
            0nat
        }) + hand_count_read(s.drop_first(), c, 0)
    }
}

/// The letters of the pieces in hand are no digits, no `-`, and differ for each kind and
/// color.
proof fn lemma_hand_letters(j1: int, c1: Color, j2: int, c2: Color)
    requires
        0 <= j1 < 7,
        0 <= j2 < 7,
    ensures
        !('0' <= kind_letter(PieceKind::spec_of_hand_slot(j1), c1) <= '9'),
        kind_letter(PieceKind::spec_of_hand_slot(j1), c1) != '-',
        kind_letter(PieceKind::spec_of_hand_slot(j1), c1) == kind_letter(PieceKind::spec_of_hand_slot(j2), c2)
            ==> j1 == j2 && c1 == c2,
{
    assert('P' as u8 == 80 && 'L' as u8 == 76 && 'N' as u8 == 78 && 'S' as u8 == 83 && 'G' as u8 == 71 && 'B' as u8
        == 66 && 'R' as u8 == 82);
    assert((80u8 + 32) as char == 'p' && (76u8 + 32) as char == 'l' && (78u8 + 32) as char == 'n' && (83u8 + 32) as char
        == 's' && (71u8 + 32) as char == 'g' && (66u8 + 32) as char == 'b' && (82u8 + 32) as char == 'r');
}

/// Reading a written count gives the count.
proof fn lemma_read_digits(n: nat, t: Seq<char>, c: char)
    ensures
        hand_count_read(digits(n) + t, c, 0) == hand_count_read(t, c, n),
    decreases n,
{
    let d = crate::text::digit_char((n % 10) as int);
    assert(d as int == 48 + n % 10);
    if n < 10 {
        let s = digits(n) + t;
        assert(s[0] == d);
        assert(s.drop_first() =~= t);
    } else {
        vstd::arithmetic::div_mod::lemma_fundamental_div_mod(n as int, 10);
        assert(digits(n) + t =~= digits(n / 10) + (seq![d] + t));
        lemma_read_digits(n / 10, seq![d] + t, c);
        assert((seq![d] + t)[0] == d);
        assert((seq![d] + t).drop_first() =~= t);
    }
}

/// A text that ends in a letter is read on its own, and what follows starts afresh.
proof fn lemma_read_append(a: Seq<char>, b: Seq<char>, c: char, acc: nat)
    requires
        a.len() > 0,
        !('0' <= a.last() <= '9'),
    ensures
        hand_count_read(a + b, c, acc) == hand_count_read(a, c, acc) + hand_count_read(b, c, 0),
    decreases a.len(),
{
    let s = a + b;
    assert(s[0] == a[0]);
    assert(s.drop_first() =~= a.drop_first() + b);
    if a.len() == 1 {
        assert(a.drop_first() =~= Seq::<char>::empty());
        assert(a.drop_first() + b =~= b);
    } else {
        assert(a.drop_first().last() == a.last());
        if '0' <= a[0] <= '9' {
            lemma_read_append(a.drop_first(), b, c, acc * 10 + (a[0] as int - 48) as nat);
        } else {
            lemma_read_append(a.drop_first(), b, c, 0);
        }
    }
}

/// The entry of one slot, read on its own, gives the slot's count for its letter and
/// nothing for the others; it is empty or ends in a letter.
proof fn lemma_read_entry(hands: Seq<u8>, color: Color, j: int, tc: Color, tj: int)
    requires
        hands.len() == 14,
        0 <= j < 7,
        0 <= tj < 7,
    ensures
        hand_entry(hands, color, j).len() == 0 || !('0' <= hand_entry(hands, color, j).last() <= '9'),
        hand_count_read(hand_entry(hands, color, j), kind_letter(PieceKind::spec_of_hand_slot(tj), tc), 0) == if color
            == tc && j == tj {
            hands[7 * color.index() + j] as nat
        } else {
            0nat
        },
{
    let n = hands[7 * color.index() + j];
    let l = kind_letter(PieceKind::spec_of_hand_slot(j), color);
    let c = kind_letter(PieceKind::spec_of_hand_slot(tj), tc);
    lemma_hand_letters(j, color, tj, tc);
    let e = hand_entry(hands, color, j);
    let one = seq![l];
    assert(one[0] == l);
    assert(one.drop_first() =~= Seq::<char>::empty());
    assert(hand_count_read(one.drop_first(), c, 0) == 0);
    if n >= 2 {
        assert(e =~= digits(n as nat) + one);
        lemma_read_digits(n as nat, one, c);
        assert(hand_count_read(one, c, n as nat) == if l == c {
            n as nat
        } else {
            0nat
        });
    } else if n == 1 {
        assert(e =~= one);
        assert(hand_count_read(one, c, 0) == if l == c {
            1nat
        } else {
            0nat
        });
    } else {
        assert(e =~= Seq::<char>::empty());
    }
}

/// The entries of slots `n - 1` down to 0 give each slot's count for its letter.
proof fn lemma_read_part(hands: Seq<u8>, color: Color, n: int, tc: Color, tj: int)
    requires
        hands.len() == 14,
        0 <= n <= 7,
        0 <= tj < 7,
    ensures
        hand_part(hands, color, n).len() == 0 || !('0' <= hand_part(hands, color, n).last() <= '9'),
        hand_count_read(hand_part(hands, color, n), kind_letter(PieceKind::spec_of_hand_slot(tj), tc), 0) == if color
            == tc && tj < n {
            hands[7 * color.index() + tj] as nat
        } else {
            0nat
        },
    decreases n,
{
    if n > 0 {
        let c = kind_letter(PieceKind::spec_of_hand_slot(tj), tc);
        let e = hand_entry(hands, color, n - 1);
        let rest = hand_part(hands, color, n - 1);
        lemma_read_entry(hands, color, n - 1, tc, tj);
        lemma_read_part(hands, color, n - 1, tc, tj);
        if e.len() == 0 {
            assert(e + rest =~= rest);
        } else {
            lemma_read_append(e, rest, c, 0);
            if rest.len() > 0 {
                assert((e + rest).last() == rest.last());
            } else {
                assert(e + rest =~= e);
            }
        }
    }
}

/// The hands written in SFEN read back as they are: reading the hand text the way SFEN is
/// read gives, for each kind a player can hold and each player, the number of such pieces
/// in that player's hand; and the text is never empty (`-` stands for empty hands).
pub proof fn law_hand_text_reads_back(hands: Seq<u8>, color: Color, j: int)
    requires
        hands.len() == 14,
        0 <= j < 7,
    ensures
        hand_count_read(hands_usi(hands), kind_letter(PieceKind::spec_of_hand_slot(j), color), 0) == hands[7
            * color.index() + j],
        hands_usi(hands).len() > 0,
{
    lemma_hands_read(hands, color, j);
    if !(forall|i: int| 0 <= i < 14 ==> hands[i] == 0) {
        let i = choose|i: int| 0 <= i < 14 && hands[i] != 0;
        let c2 = if i < 7 {
            Color::Black
        } else {
            Color::White
        };
        lemma_hands_read(hands, c2, i - 7 * c2.index());
        assert(hand_count_read(Seq::<char>::empty(), kind_letter(PieceKind::spec_of_hand_slot(i - 7 * c2.index()), c2), 0) == 0);
    }
}

/// Reading the hand text gives each count.
proof fn lemma_hands_read(hands: Seq<u8>, color: Color, j: int)
    requires
        hands.len() == 14,
        0 <= j < 7,
    ensures
        hand_count_read(hands_usi(hands), kind_letter(PieceKind::spec_of_hand_slot(j), color), 0) == hands[7
            * color.index() + j],
{
    let c = kind_letter(PieceKind::spec_of_hand_slot(j), color);
    lemma_hand_letters(j, color, j, color);
    if forall|i: int| 0 <= i < 14 ==> hands[i] == 0 {
        let dash = seq!['-'];
        assert(dash[0] == '-');
        assert(dash.drop_first() =~= Seq::<char>::empty());
        assert(hand_count_read(dash.drop_first(), c, 0) == 0);
        assert(hand_count_read(dash, c, 0) == 0);
        assert(hands[7 * color.index() + j] == 0);
    } else {
        let b = hand_part(hands, Color::Black, 7);
        let w = hand_part(hands, Color::White, 7);
        lemma_read_part(hands, Color::Black, 7, color, j);
        lemma_read_part(hands, Color::White, 7, color, j);
        if b.len() == 0 {
            assert(b + w =~= w);
        } else {
            lemma_read_append(b, w, c, 0);
        }
    }
}

/// Joining texts without white space gives a text without white space.
proof fn lemma_no_ws_concat(a: Seq<char>, b: Seq<char>)
    requires
        crate::text::no_ws(a),
        crate::text::no_ws(b),
    ensures
        crate::text::no_ws(a + b),
{
    assert forall|j: int| 0 <= j < (a + b).len() implies !crate::text::is_ws(#[trigger] (a + b)[j]) by {
        if j < a.len() {
            assert((a + b)[j] == a[j]);
        } else {
            assert((a + b)[j] == b[j - a.len()]);
        }
    }
}

/// Piece letters are neither white space nor `/`.
proof fn lemma_letter_plain(k: PieceKind, c: Color)
    ensures
        !crate::text::is_ws(kind_letter(k, c)) && kind_letter(k, c) != '/',
        !('0' <= kind_letter(k, c) <= '9'),
{
    assert('P' as u8 == 80 && 'L' as u8 == 76 && 'N' as u8 == 78 && 'S' as u8 == 83 && 'G' as u8 == 71 && 'B' as u8
        == 66 && 'R' as u8 == 82 && 'K' as u8 == 75);
    assert((80u8 + 32) as char == 'p' && (76u8 + 32) as char == 'l' && (78u8 + 32) as char == 'n' && (83u8 + 32) as char
        == 's' && (71u8 + 32) as char == 'g' && (66u8 + 32) as char == 'b' && (82u8 + 32) as char == 'r' && (75u8
        + 32) as char == 'k');
}

/// A written count is made of digits and is not empty.
proof fn lemma_digits_plain(n: nat)
    ensures
        crate::text::plain_chars(digits(n)),
        digits(n).len() > 0,
{
    crate::text::lemma_digits_are_digits(n);
    assert forall|j: int| 0 <= j < digits(n).len() implies !crate::text::is_ws(#[trigger] digits(n)[j]) && digits(n)[j] != '/' by {
        assert('0' <= digits(n)[j] <= '9');
    }
}

/// Writing cells compresses to a text that is not empty when there is a cell or a count.
proof fn lemma_compress_nonempty(cells: Seq<Seq<char>>, k: nat)
    requires
        cells.len() + k > 0,
    ensures
        compress(cells, k).len() > 0,
    decreases cells.len(),
{
    if cells.len() == 0 {
        lemma_digits_plain(k);
    } else if cells[0].len() == 0 {
        lemma_compress_nonempty(cells.drop_first(), k + 1);
    }
}

/// A row of the board is written without white space and is not empty.
proof fn lemma_row_plain(board: Seq<Option<Piece>>, rank: int)
    ensures
        crate::text::plain_chars(compress(row_cells(board, rank), 0)),
        compress(row_cells(board, rank), 0).len() > 0,
{
    let cells = row_cells(board, rank);
    assert forall|i: int| 0 <= i < cells.len() implies crate::text::plain_chars(#[trigger] cells[i]) by {
        match board[sq_index(9 - i, rank) - 1] {
            Some(p) => {
                lemma_letter_plain(p.kind, p.color);
                let u = piece_usi(p);
                assert forall|t: int| 0 <= t < u.len() implies !crate::text::is_ws(#[trigger] u[t]) && u[t] != '/' by {}
            },
            None => {},
        }
    }
    crate::sfen_util::lemma_compress_plain(cells, 0);
    lemma_compress_nonempty(cells, 0);
}

/// The board text has no white space and is not empty.
proof fn lemma_board_plain(board: Seq<Option<Piece>>, n: int)
    requires
        n >= 1,
    ensures
        crate::text::no_ws(board_usi(board, n)),
        board_usi(board, n).len() > 0,
    decreases n,
{
    lemma_row_plain(board, n);
    if n > 1 {
        lemma_board_plain(board, n - 1);
        let slash = seq!['/'];
        assert(crate::text::no_ws(slash)) by {
            assert forall|t: int| 0 <= t < slash.len() implies !crate::text::is_ws(#[trigger] slash[t]) by {
                assert(slash[t] == '/');
            }
        }
        lemma_no_ws_concat(board_usi(board, n - 1), slash);
        lemma_no_ws_concat(board_usi(board, n - 1) + slash, compress(row_cells(board, n), 0));
    }
}

/// The hand entries have no white space.
proof fn lemma_hand_part_plain(hands: Seq<u8>, color: Color, n: int)
    requires
        hands.len() == 14,
        0 <= n <= 7,
    ensures
        crate::text::no_ws(hand_part(hands, color, n)),
    decreases n,
{
    if n > 0 {
        lemma_hand_part_plain(hands, color, n - 1);
        let e = hand_entry(hands, color, n - 1);
        let l = kind_letter(PieceKind::spec_of_hand_slot(n - 1), color);
        lemma_letter_plain(PieceKind::spec_of_hand_slot(n - 1), color);
        let c = hands[7 * color.index() + n - 1];
        lemma_digits_plain(c as nat);
        assert(crate::text::no_ws(e)) by {
            assert forall|t: int| 0 <= t < e.len() implies !crate::text::is_ws(#[trigger] e[t]) by {
                if c >= 2 && t < digits(c as nat).len() {
                    assert(e[t] == digits(c as nat)[t]);
                }
            }
        }
        lemma_no_ws_concat(e, hand_part(hands, color, n - 1));
    }
}

/// The hands of a position, read back from its SFEN text: the SFEN of a position, given after
/// the word `sfen`, splits into the board, the side to move, the hands and the move number,
/// and reading its hand field the way SFEN is read gives every count of every player's hand.
pub proof fn law_sfen_hands_read_back(p: PosView, color: Color, j: int)
    requires
        p.hands.len() == 14,
        0 <= j < 7,
    ensures
        ({
            let w = crate::text::words(seq!['s', 'f', 'e', 'n', ' '] + position_sfen(p));
            &&& w.len() == 5
            &&& w[1] == board_usi(p.board, 9)
            &&& w[2] == seq![side_usi(p.side)]
            &&& hand_count_read(w[3], kind_letter(PieceKind::spec_of_hand_slot(j), color), 0) == p.hands[7
                * color.index() + j]
            &&& w[4] == digits(p.ply as nat)
        }),
{
    let b = board_usi(p.board, 9);
    let t = seq![side_usi(p.side)];
    let h = hands_usi(p.hands);
    let m = digits(p.ply as nat);
    lemma_board_plain(p.board, 9);
    assert(crate::text::no_ws(t)) by {
        assert forall|q: int| 0 <= q < t.len() implies !crate::text::is_ws(#[trigger] t[q]) by {
            assert(t[q] == 'b' || t[q] == 'w');
        }
    }
    law_hand_text_reads_back(p.hands, color, j);
    if forall|i: int| 0 <= i < 14 ==> p.hands[i] == 0 {
        assert(h == seq!['-']);
        assert(crate::text::no_ws(h)) by {
            assert forall|q: int| 0 <= q < h.len() implies !crate::text::is_ws(#[trigger] h[q]) by {
                assert(h[q] == '-');
            }
        }
    } else {
        lemma_hand_part_plain(p.hands, Color::Black, 7);
        lemma_hand_part_plain(p.hands, Color::White, 7);
        lemma_no_ws_concat(hand_part(p.hands, Color::Black, 7), hand_part(p.hands, Color::White, 7));
    }
    lemma_digits_plain(p.ply as nat);
    assert(crate::text::no_ws(m));
    crate::text::lemma_words_of_fields(b, t, h, m);
    assert(seq!['s', 'f', 'e', 'n', ' '] + position_sfen(p) =~= seq!['s', 'f', 'e', 'n', ' '] + b + seq![' '] + t
        + seq![' '] + h + seq![' '] + m);
}

/// USI text of the side to move.
pub open spec fn side_usi(c: Color) -> char {
    match c {
        Color::Black => 'b',
        Color::White => 'w',
    }
}

/// The SFEN of a position (without the leading `sfen` token).
pub open spec fn position_sfen(p: PosView) -> Seq<char> {
    board_usi(p.board, 9) + seq![' ', side_usi(p.side), ' '] + hands_usi(p.hands) + seq![' ']
        + digits(p.ply as nat)
}

/// The cells of a rank, as character vectors.
fn row_of(pos: &PartialPosition, rank: u8) -> (r: Vec<Vec<char>>)
    requires
        pos.wf(),
        1 <= rank <= 9,
    ensures
        cells_view(r@) == row_cells(pos@.board, rank as int),
        r@.len() == 9,
{
    let mut cells: Vec<Vec<char>> = Vec::new();
    let mut j: u8 = 0;
    while j < 9
        invariant
            pos.wf(),
            1 <= rank <= 9,
            j <= 9,
            cells@.len() == j,
            forall|t: int| 0 <= t < j ==> #[trigger] cells@[t]@ == cell_usi(
                pos@.board[sq_index(9 - t, rank as int) - 1],
            ),
        decreases 9 - j,
    {
        let sq = Square { index: (9 - j) * 9 + rank - 9 };
        let cell = match pos.piece_at(sq) {
            Some(p) => kind_usi_chars(p.kind, p.color),
            None => Vec::new(),
        };
        cells.push(cell);
        j = j + 1;
    }
    assert(cells_view(cells@) =~= row_cells(pos@.board, rank as int));
    cells
}

/// Appends the hand entries of `color`, rook first.
fn push_hand(out: &mut Vec<char>, pos: &PartialPosition, color: Color)
    requires
        pos.wf(),
    ensures
        final(out)@ == old(out)@ + hand_part(pos@.hands, color, 7),
{
    let mut j: usize = 7;
    while j > 0
        invariant
            pos.wf(),
            j <= 7,
            out@ + hand_part(pos@.hands, color, j as int) == old(out)@ + hand_part(
                pos@.hands,
                color,
                7,
            ),
        decreases j,
    {
        let n = pos.hands[if color == Color::Black { j - 1 } else { 7 + j - 1 }];
        let ghost before = out@;
        if n > 0 {
            if n >= 2 {
                let d = decimal(n as u64);
                append_chars(out, &d);
            }
            out.push(letter(PieceKind::of_hand_slot(j - 1), color));
        }
        assert(out@ == before + hand_entry(pos@.hands, color, j - 1));
        j = j - 1;
    }
}

impl PartialPosition {
    /// The SFEN of the position, as characters.
    pub fn to_sfen_chars(&self) -> (r: Vec<char>)
        requires
            self.wf(),
        ensures
            r@ == position_sfen(self@),
    {
        let mut out: Vec<char> = Vec::new();
        let mut rank: u8 = 1;
        while rank <= 9
            invariant
                self.wf(),
                1 <= rank <= 10,
                rank == 1 ==> out@.len() == 0,
                rank > 1 ==> out@ == board_usi(self@.board, rank - 1),
            decreases 10 - rank,
        {
            if rank > 1 {
                out.push('/');
            }
            let cells = self.row_of_rank(rank);
            let row = compress_cells(&cells);
            append_chars(&mut out, &row);
            rank = rank + 1;
        }
        out.push(' ');
        out.push(match self.side {
            Color::Black => 'b',
            Color::White => 'w',
        });
        out.push(' ');
        let ghost before_hands = out@;
        let mut all_empty = true;
        let mut i: usize = 0;
        while i < 14
            invariant
                self.wf(),
                i <= 14,
                all_empty <==> forall|t: int| 0 <= t < i ==> self@.hands[t] == 0,
            decreases 14 - i,
        {
            if self.hands[i] != 0 {
                all_empty = false;
            }
            assert(self@.hands[i as int] == self.hands@[i as int]);
            i = i + 1;
        }
        if all_empty {
            out.push('-');
        } else {
            push_hand(&mut out, self, Color::Black);
            push_hand(&mut out, self, Color::White);
        }
        assert(out@ == before_hands + hands_usi(self@.hands));
        out.push(' ');
        let d = decimal(self.ply as u64);
        append_chars(&mut out, &d);
        assert(out@ =~= position_sfen(self@));
        out
    }

    fn row_of_rank(&self, rank: u8) -> (r: Vec<Vec<char>>)
        requires
            self.wf(),
            1 <= rank <= 9,
        ensures
            cells_view(r@) == row_cells(self@.board, rank as int),
            r@.len() == 9,
    {
        row_of(self, rank)
    }

    /// The SFEN of the position (without the leading `sfen` token).
    pub fn to_sfen_owned(&self) -> (r: String)
        requires
            self.wf(),
        ensures
            r@ == position_sfen(self@),
    {
        let v = self.to_sfen_chars();
        chars_to_string(&v)
    }
}

} // verus!

verus! {

/// What `shogi_usi_parser` reads from an SFEN text (or `startpos`), as plain values:
/// the side to move (1 Black, 2 White), the move count, the 81 squares by index
/// (0 vacant, 1..=14 a Black piece, 17..=30 a White piece, kinds numbered pawn = 1 .. promoted
/// rook = 14) and the 14 hand counts (Black pawn .. rook, then White).
pub uninterp spec fn usi_position_codes(s: Seq<char>) -> Option<(u8, u16, Seq<u8>, Seq<u8>)>;

/// Parses a position with `shogi_usi_parser`'s `FromUsi::from_usi` for
/// `shogi_core::PartialPosition` and reads it out square by square: the result is exactly
/// `usi_position_codes` of the text.
#[verifier::external_body]
fn parse_usi_position(s: &str) -> (r: Option<(u8, u16, Vec<u8>, Vec<u8>)>)
    ensures
        r matches Some(t) ==> usi_position_codes(s@) == Some((t.0, t.1, t.2@, t.3@)),
        r is None ==> usi_position_codes(s@) is None,
{
    let p = <shogi_core::PartialPosition as FromUsi>::from_usi(s).ok()?;
    let board = shogi_core::Square::all().map(|q| p.piece_at(q).map_or(0, |x| x.as_u8())).collect();
    let hands = shogi_core::Color::all().into_iter().flat_map(|c| {
        let h = p.hand_of_a_player(c);
        shogi_core::Hand::all_hand_pieces().map(move |k| h.count(k).unwrap_or(0))
    }).collect();
    Some((p.side_to_move() as u8, p.ply(), board, hands))
}

/// The kind numbered `code` (pawn = 1 .. promoted rook = 14).
pub open spec fn kind_of_code(code: int) -> Option<PieceKind> {
    if code == 1 {
        Some(PieceKind::Pawn)
    } else if code == 2 {
        Some(PieceKind::Lance)
    } else if code == 3 {
        Some(PieceKind::Knight)
    } else if code == 4 {
        Some(PieceKind::Silver)
    } else if code == 5 {
        Some(PieceKind::Gold)
    } else if code == 6 {
        Some(PieceKind::Bishop)
    } else if code == 7 {
        Some(PieceKind::Rook)
    } else if code == 8 {
        Some(PieceKind::King)
    } else if code == 9 {
        Some(PieceKind::ProPawn)
    } else if code == 10 {
        Some(PieceKind::ProLance)
    } else if code == 11 {
        Some(PieceKind::ProKnight)
    } else if code == 12 {
        Some(PieceKind::ProSilver)
    } else if code == 13 {
        Some(PieceKind::ProBishop)
    } else if code == 14 {
        Some(PieceKind::ProRook)
    } else {
        None
    }
}

/// The content of a square with code `code`: `None` for a code that names no piece.
pub open spec fn square_of_code(code: u8) -> Option<Option<Piece>> {
    if code == 0 {
        Some(None)
    } else if code < 16 {
        match kind_of_code(code as int) {
            Some(k) => Some(Some(Piece { kind: k, color: Color::Black })),
            None => None,
        }
    } else {
        match kind_of_code(code - 16) {
            Some(k) => Some(Some(Piece { kind: k, color: Color::White })),
            None => None,
        }
    }
}

/// The index of the `n`-th square in reading order of an SFEN board (rank 1 first, file 9 first).
pub open spec fn reading_order(n: int) -> int {
    sq_index(9 - n % 9, n / 9 + 1)
}

/// The king of `color` placed last when the first `n` squares are set in reading order.
pub open spec fn last_king(board: Seq<Option<Piece>>, color: Color, n: int) -> Option<Square>
    decreases n,
{
    if n <= 0 {
        None
    } else {
        let i = reading_order(n - 1);
        if board[i - 1] == Some(Piece { kind: PieceKind::King, color }) {
            Some(Square { index: i as u8 })
        } else {
            last_king(board, color, n - 1)
        }
    }
}

/// The position described by the codes, when every code names something.
pub open spec fn decode_position(codes: (u8, u16, Seq<u8>, Seq<u8>)) -> Option<PosView> {
    let (side, ply, board, hands) = codes;
    if board.len() == 81 && hands.len() == 14 && (side == 1 || side == 2) && forall|i: int|
        0 <= i < 81 ==> square_of_code(#[trigger] board[i]) is Some {
        let squares = Seq::new(81, |i: int| square_of_code(board[i]).unwrap());
        Some(
            PosView {
                side: if side == 1 {
                    Color::Black
                } else {
                    Color::White
                },
                ply,
                board: squares,
                hands,
                last_move: None,
                king_black: last_king(squares, Color::Black, 81),
                king_white: last_king(squares, Color::White, 81),
            },
        )
    } else {
        None
    }
}

fn kind_from_code(code: u8) -> (r: Option<PieceKind>)
    ensures
        r == kind_of_code(code as int),
{
    if code == 1 {
        Some(PieceKind::Pawn)
    } else if code == 2 {
        Some(PieceKind::Lance)
    } else if code == 3 {
        Some(PieceKind::Knight)
    } else if code == 4 {
        Some(PieceKind::Silver)
    } else if code == 5 {
        Some(PieceKind::Gold)
    } else if code == 6 {
        Some(PieceKind::Bishop)
    } else if code == 7 {
        Some(PieceKind::Rook)
    } else if code == 8 {
        Some(PieceKind::King)
    } else if code == 9 {
        Some(PieceKind::ProPawn)
    } else if code == 10 {
        Some(PieceKind::ProLance)
    } else if code == 11 {
        Some(PieceKind::ProKnight)
    } else if code == 12 {
        Some(PieceKind::ProSilver)
    } else if code == 13 {
        Some(PieceKind::ProBishop)
    } else if code == 14 {
        Some(PieceKind::ProRook)
    } else {
        None
    }
}

fn square_from_code(code: u8) -> (r: Option<Option<Piece>>)
    ensures
        r == square_of_code(code),
{
    if code == 0 {
        Some(None)
    } else if code < 16 {
        match kind_from_code(code) {
            Some(k) => Some(Some(Piece { kind: k, color: Color::Black })),
            None => None,
        }
    } else {
        match kind_from_code(code - 16) {
            Some(k) => Some(Some(Piece { kind: k, color: Color::White })),
            None => None,
        }
    }
}

/// Builds a position from its codes; `None` when a code names nothing.
pub fn position_from_codes(side: u8, ply: u16, board: &Vec<u8>, hands: Vec<u8>) -> (r: Option<
    PartialPosition,
>)
    ensures
        r matches Some(p) ==> p.wf() && decode_position((side, ply, board@, hands@)) == Some(p@),
        r is None ==> decode_position((side, ply, board@, hands@)) is None,
{
    if board.len() != 81 || hands.len() != 14 || !(side == 1 || side == 2) {
        return None;
    }
    let mut squares: Vec<Option<Piece>> = Vec::new();
    let mut i: usize = 0;
    while i < 81
        invariant
            board@.len() == 81,
            i <= 81,
            squares@.len() == i,
            forall|t: int| 0 <= t < i ==> square_of_code(#[trigger] board@[t]) == Some(squares@[t]),
        decreases 81 - i,
    {
        match square_from_code(board[i]) {
            Some(sq) => squares.push(sq),
            None => {
                return None;
            },
        }
        i = i + 1;
    }
    let ghost decoded = Seq::new(81, |t: int| square_of_code(board@[t]).unwrap());
    assert(squares@ =~= decoded);
    let mut king_black: Option<Square> = None;
    let mut king_white: Option<Square> = None;
    let mut n: u8 = 0;
    while n < 81
        invariant
            squares@ == decoded,
            squares@.len() == 81,
            n <= 81,
            king_black == last_king(decoded, Color::Black, n as int),
            king_white == last_king(decoded, Color::White, n as int),
            king_black matches Some(s) ==> s.wf(),
            king_white matches Some(s) ==> s.wf(),
        decreases 81 - n,
    {
        let idx = (9 - n % 9) * 9 + (n / 9 + 1) - 9;
        assert(idx == reading_order(n as int));
        match squares[(idx - 1) as usize] {
            Some(p) => {
                if p.kind.same(PieceKind::King) {
                    match p.color {
                        Color::Black => {
                            king_black = Some(Square { index: idx });
                        },
                        Color::White => {
                            king_white = Some(Square { index: idx });
                        },
                    }
                }
            },
            None => {},
        }
        n = n + 1;
    }
    Some(
        PartialPosition {
            side: if side == 1 {
                Color::Black
            } else {
                Color::White
            },
            ply,
            hands,
            board: squares,
            last_move: None,
            king_black,
            king_white,
        },
    )
}

impl PartialPosition {
    /// Reads a position from USI text (`sfen ...` or `startpos`).
    pub fn from_sfen(s: &str) -> (r: Option<PartialPosition>)
        ensures
            r matches Some(p) ==> p.wf() && (usi_position_codes(s@) matches Some(c)
                && decode_position(c) == Some(p@)),
            r is None ==> (usi_position_codes(s@) matches Some(c) ==> decode_position(c) is None),
    {
        match parse_usi_position(s) {
            Some((side, ply, board, hands)) => position_from_codes(side, ply, &board, hands),
            None => None,
        }
    }
}

} // verus!
