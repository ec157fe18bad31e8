//! CSA move notation and piece names.
use vstd::prelude::*;
use vstd::string::StringSliceAdditionalSpecFns;
use crate::types::{Color, PieceKind, Piece, Square, Move, sq_index, on_board};
use crate::position::{PartialPosition, PosView};
use crate::usi::{kind_usi, piece_usi, kind_usi_chars};
use crate::text::{chars_to_string, digit_char};

verus! {

/// Why a CSA move could not be read.
#[derive(Clone, Debug, PartialEq, Eq)]
pub enum CsaParseError {
    TooShort,
    InvalidColor,
    InvalidDigit { index: usize },
    InvalidSquare { file: u8, rank: u8 },
    MissingPiece { square: Square },
    ColorMismatch { expected: Color, actual: Color },
    UnknownPieceCode(String),
}

/// The byte at position `n` of `s`, read as a character.
pub fn nth_ascii(s: &str, n: usize) -> (r: Option<char>)
    ensures
        n < s.spec_bytes().len() ==> r == Some(s.spec_bytes()[n as int] as char),
        n >= s.spec_bytes().len() ==> r is None,
{
    let b = s.as_bytes();
    if n < b.len() {
        Some(b[n] as char)
    } else {
        None
    }
}

/// The value of a decimal digit character.
pub open spec fn digit_of(c: char) -> Option<u8> {
    if '0' <= c && c <= '9' {
        Some((c as u8 - 48) as u8)
    } else {
        None
    }
}

/// The decimal digit at byte position `index` of `csa`.
pub fn csa_coord_digit(csa: &str, index: usize) -> (r: Option<u8>)
    ensures
        index < csa.spec_bytes().len() ==> r == digit_of(csa.spec_bytes()[index as int] as char),
        index >= csa.spec_bytes().len() ==> r is None,
{
    match nth_ascii(csa, index) {
        Some(ch) => {
            if '0' <= ch && ch <= '9' {
                Some(ch as u8 - 48)
            } else {
                None
            }
        },
        None => None,
    }
}

fn csa_digit(csa: &str, index: usize) -> (r: Result<u8, CsaParseError>)
    ensures
        r == match (if index < csa.spec_bytes().len() {
            digit_of(csa.spec_bytes()[index as int] as char)
        } else {
            None
        }) {
            Some(d) => Ok(d),
            None => Err(CsaParseError::InvalidDigit { index }),
        },
{
    match csa_coord_digit(csa, index) {
        Some(d) => Ok(d),
        None => Err(CsaParseError::InvalidDigit { index }),
    }
}

/// The square at (file, rank) as a result.
pub open spec fn square_at(file: u8, rank: u8) -> Result<Square, CsaParseError> {
    if on_board(file as int, rank as int) {
        Ok(Square { index: sq_index(file as int, rank as int) as u8 })
    } else {
        Err(CsaParseError::InvalidSquare { file, rank })
    }
}

fn csa_square(file: u8, rank: u8) -> (r: Result<Square, CsaParseError>)
    ensures
        r == square_at(file, rank),
        r matches Ok(s) ==> s.wf(),
{
    match Square::new(file, rank) {
        Some(s) => Ok(s),
        None => Err(CsaParseError::InvalidSquare { file, rank }),
    }
}

pub open spec fn sign_of(color: Color) -> char {
    match color {
        Color::Black => '+',
        Color::White => '-',
    }
}

/// `+` for Black, `-` for White.
pub fn color_to_csa_sign(color: Color) -> (r: char)
    ensures
        r == sign_of(color),
{
    match color {
        Color::Black => '+',
        Color::White => '-',
    }
}

pub open spec fn color_of_sign(sign: char) -> Option<Color> {
    if sign == '+' {
        Some(Color::Black)
    } else if sign == '-' {
        Some(Color::White)
    } else {
        None
    }
}

/// The color written `+` (Black) or `-` (White).
pub fn csa_sign_to_color(sign: char) -> (r: Option<Color>)
    ensures
        r == color_of_sign(sign),
{
    if sign == '+' {
        Some(Color::Black)
    } else if sign == '-' {
        Some(Color::White)
    } else {
        None
    }
}

/// The color of a one-byte text `+` or `-`.
pub fn csa_color_to_color(csa_color: &str) -> (r: Option<Color>)
    ensures
        r == (if csa_color.spec_bytes().len() == 1 {
            color_of_sign(csa_color.spec_bytes()[0] as char)
        } else {
            None
        }),
{
    if csa_color.as_bytes().len() != 1 {
        return None;
    }
    let c = nth_ascii(csa_color, 0);
    match c {
        Some(c) => csa_sign_to_color(c),
        None => None,
    }
}

/// The two-letter CSA name of a kind.
pub open spec fn kind_csa(k: PieceKind) -> Seq<char> {
    match k {
        PieceKind::Pawn => seq!['F', 'U'],
        PieceKind::Lance => seq!['K', 'Y'],
        PieceKind::Knight => seq!['K', 'E'],
        PieceKind::Silver => seq!['G', 'I'],
        PieceKind::Gold => seq!['K', 'I'],
        PieceKind::Bishop => seq!['K', 'A'],
        PieceKind::Rook => seq!['H', 'I'],
        PieceKind::King => seq!['O', 'U'],
        PieceKind::ProPawn => seq!['T', 'O'],
        PieceKind::ProLance => seq!['N', 'Y'],
        PieceKind::ProKnight => seq!['N', 'K'],
        PieceKind::ProSilver => seq!['N', 'G'],
        PieceKind::ProBishop => seq!['U', 'M'],
        PieceKind::ProRook => seq!['R', 'Y'],
    }
}

fn kind_csa_chars(k: PieceKind) -> (r: (char, char))
    ensures
        seq![r.0, r.1] == kind_csa(k),
{
    match k {
        PieceKind::Pawn => ('F', 'U'),
        PieceKind::Lance => ('K', 'Y'),
        PieceKind::Knight => ('K', 'E'),
        PieceKind::Silver => ('G', 'I'),
        PieceKind::Gold => ('K', 'I'),
        PieceKind::Bishop => ('K', 'A'),
        PieceKind::Rook => ('H', 'I'),
        PieceKind::King => ('O', 'U'),
        PieceKind::ProPawn => ('T', 'O'),
        PieceKind::ProLance => ('N', 'Y'),
        PieceKind::ProKnight => ('N', 'K'),
        PieceKind::ProSilver => ('N', 'G'),
        PieceKind::ProBishop => ('U', 'M'),
        PieceKind::ProRook => ('R', 'Y'),
    }
}

/// The CSA name of a kind (`FU`, `KY`, ..., `RY`).
pub fn piece_kind_to_csa(piece_kind: PieceKind) -> (r: String)
    ensures
        r@ == kind_csa(piece_kind),
{
    let (a, b) = kind_csa_chars(piece_kind);
    let mut v: Vec<char> = Vec::new();
    v.push(a);
    v.push(b);
    assert(v@ =~= kind_csa(piece_kind));
    chars_to_string(&v)
}

/// The bytes of a two-letter name.
pub open spec fn name2(a: char, b: char) -> Seq<u8> {
    seq![a as u8, b as u8]
}

/// The kind whose CSA name has bytes `s`, if any.
pub open spec fn csa_kind(s: Seq<u8>) -> Option<PieceKind> {
    if s == name2('F', 'U') {
        Some(PieceKind::Pawn)
    } else if s == name2('K', 'Y') {
        Some(PieceKind::Lance)
    } else if s == name2('K', 'E') {
        Some(PieceKind::Knight)
    } else if s == name2('G', 'I') {
        Some(PieceKind::Silver)
    } else if s == name2('K', 'I') {
        Some(PieceKind::Gold)
    } else if s == name2('K', 'A') {
        Some(PieceKind::Bishop)
    } else if s == name2('H', 'I') {
        Some(PieceKind::Rook)
    } else if s == name2('O', 'U') {
        Some(PieceKind::King)
    } else if s == name2('T', 'O') {
        Some(PieceKind::ProPawn)
    } else if s == name2('N', 'Y') {
        Some(PieceKind::ProLance)
    } else if s == name2('N', 'K') {
        Some(PieceKind::ProKnight)
    } else if s == name2('N', 'G') {
        Some(PieceKind::ProSilver)
    } else if s == name2('U', 'M') {
        Some(PieceKind::ProBishop)
    } else if s == name2('R', 'Y') {
        Some(PieceKind::ProRook)
    } else {
        None
    }
}

fn kind_of_bytes(a: u8, b: u8) -> (r: Option<PieceKind>)
    ensures
        r == csa_kind(seq![a, b]),
{
    let ghost s = seq![a, b];
    proof {
        assert forall|x: char, y: char| s == name2(x, y) <==> (a == x as u8 && b == y as u8) by {
            if s == name2(x, y) {
                assert(s[0] == name2(x, y)[0] && s[1] == name2(x, y)[1]);
            }
            if a == x as u8 && b == y as u8 {
                assert(s =~= name2(x, y));
            }
        }
    }
    if a == 70 && b == 85 {
        Some(PieceKind::Pawn)
    } else if a == 75 && b == 89 {
        Some(PieceKind::Lance)
    } else if a == 75 && b == 69 {
        Some(PieceKind::Knight)
    } else if a == 71 && b == 73 {
        Some(PieceKind::Silver)
    } else if a == 75 && b == 73 {
        Some(PieceKind::Gold)
    } else if a == 75 && b == 65 {
        Some(PieceKind::Bishop)
    } else if a == 72 && b == 73 {
        Some(PieceKind::Rook)
    } else if a == 79 && b == 85 {
        Some(PieceKind::King)
    } else if a == 84 && b == 79 {
        Some(PieceKind::ProPawn)
    } else if a == 78 && b == 89 {
        Some(PieceKind::ProLance)
    } else if a == 78 && b == 75 {
        Some(PieceKind::ProKnight)
    } else if a == 78 && b == 71 {
        Some(PieceKind::ProSilver)
    } else if a == 85 && b == 77 {
        Some(PieceKind::ProBishop)
    } else if a == 82 && b == 89 {
        Some(PieceKind::ProRook)
    } else {
        None
    }
}

/// The kind with CSA name `piece_str`; an unknown name is returned in the error.
pub fn csa_to_piece_kind(piece_str: &str) -> (r: Result<PieceKind, CsaParseError>)
    ensures
        r matches Ok(k) ==> csa_kind(piece_str.spec_bytes()) == Some(k),
        r is Err ==> csa_kind(piece_str.spec_bytes()) is None && (r matches Err(CsaParseError::UnknownPieceCode(s)) && s@ == piece_str@),
{
    let b = piece_str.as_bytes();
    let found = if b.len() == 2 {
        assert(seq![b@[0], b@[1]] =~= piece_str.spec_bytes());
        kind_of_bytes(b[0], b[1])
    } else {
        assert(csa_kind(piece_str.spec_bytes()) is None) by {
            if csa_kind(piece_str.spec_bytes()) is Some {
                assert(piece_str.spec_bytes().len() == 2);
            }
        }
        None
    };
    match found {
        Some(k) => Ok(k),
        None => Err(CsaParseError::UnknownPieceCode(piece_str.to_owned())),
    }
}

/// The decimal digit at byte position `i`, if there is one.
pub open spec fn digit_at(b: Seq<u8>, i: int) -> Option<u8> {
    if i < b.len() {
        digit_of(b[i] as char)
    } else {
        None
    }
}

/// Reading a CSA move such as `+7776FU` (sign, origin file and rank, destination file and
/// rank, CSA name of the piece after the move; origin `00` for a drop) in `pos`.
/// `None` stands for an unknown piece name (the error then carries the name).
pub open spec fn spec_csa_to_move(b: Seq<u8>, pos: PosView) -> Option<Result<Move, CsaParseError>> {
    if b.len() < 7 {
        Some(Err(CsaParseError::TooShort))
    } else if color_of_sign(b[0] as char) is None {
        Some(Err(CsaParseError::InvalidColor))
    } else if digit_at(b, 1) is None {
        Some(Err(CsaParseError::InvalidDigit { index: 1 }))
    } else if digit_at(b, 2) is None {
        Some(Err(CsaParseError::InvalidDigit { index: 2 }))
    } else if digit_at(b, 3) is None {
        Some(Err(CsaParseError::InvalidDigit { index: 3 }))
    } else if digit_at(b, 4) is None {
        Some(Err(CsaParseError::InvalidDigit { index: 4 }))
    } else if !vstd::utf8::is_char_boundary(b, 5) {
        Some(Err(CsaParseError::TooShort))
    } else {
        let color = color_of_sign(b[0] as char).unwrap();
        let (f1, r1, f2, r2) = (digit_at(b, 1).unwrap(), digit_at(b, 2).unwrap(), digit_at(b, 3).unwrap(), digit_at(b, 4).unwrap());
        match csa_kind(b.subrange(5, b.len() as int)) {
            None => None,
            Some(kind) => if f1 == 0 && r1 == 0 {
                Some(
                    match square_at(f2, r2) {
                        Ok(to) => Ok(Move::Drop { piece: Piece { kind, color }, to }),
                        Err(e) => Err(e),
                    },
                )
            } else {
                match square_at(f1, r1) {
                    Err(e) => Some(Err(e)),
                    Ok(from) => match pos.at(from.index as int) {
                        None => Some(Err(CsaParseError::MissingPiece { square: from })),
                        Some(p) => if p.color != color {
                            Some(Err(CsaParseError::ColorMismatch { expected: p.color, actual: color }))
                        } else {
                            match square_at(f2, r2) {
                                Err(e) => Some(Err(e)),
                                Ok(to) => Some(Ok(Move::Normal { from, to, promote: kind != p.kind })),
                            }
                        },
                    },
                }
            },
        }
    }
}

/// Reads a CSA move in `position`. A move from a square promotes when the named piece
/// differs from the piece on that square.
pub fn csa_to_move(csa: &str, position: &PartialPosition) -> (r: Result<Move, CsaParseError>)
    requires
        position.wf(),
    ensures
        r matches Ok(mv) ==> mv.wf(),
        match spec_csa_to_move(csa.spec_bytes(), position@) {
            Some(res) => r == res,
            None => r matches Err(CsaParseError::UnknownPieceCode(s)) && vstd::utf8::encode_utf8(s@)
                == csa.spec_bytes().subrange(5, csa.spec_bytes().len() as int),
        },
{
    let bytes = csa.as_bytes();
    if bytes.len() < 7 {
        return Err(CsaParseError::TooShort);
    }
    let color = match nth_ascii(csa, 0) {
        Some(c) => match csa_sign_to_color(c) {
            Some(color) => color,
            None => return Err(CsaParseError::InvalidColor),
        },
        None => return Err(CsaParseError::InvalidColor),
    };
    let file_from = csa_digit(csa, 1)?;
    let rank_from = csa_digit(csa, 2)?;
    let file_to = csa_digit(csa, 3)?;
    let rank_to = csa_digit(csa, 4)?;
    if !csa.is_char_boundary(5) {
        return Err(CsaParseError::TooShort);
    }
    let (_, piece_str) = csa.split_at(5);
    let piece_kind = csa_to_piece_kind(piece_str)?;
    if file_from == 0 && rank_from == 0 {
        Ok(Move::Drop { piece: Piece { kind: piece_kind, color }, to: csa_square(file_to, rank_to)? })
    } else {
        let square_from = csa_square(file_from, rank_from)?;
        let from_piece = match position.piece_at(square_from) {
            Some(p) => p,
            None => return Err(CsaParseError::MissingPiece { square: square_from }),
        };
        if from_piece.color != color {
            return Err(CsaParseError::ColorMismatch { expected: from_piece.color, actual: color });
        }
        Ok(Move::Normal {
            from: square_from,
            to: csa_square(file_to, rank_to)?,
            promote: !piece_kind.same(from_piece.kind),
        })
    }
}

/// The CSA text of a move, read in the position just before it or just after it:
/// `None` when neither origin nor destination holds the piece, or a promotion is impossible.
pub open spec fn spec_move_to_csa(mv: Move, pos: PosView) -> Option<Seq<char>> {
    match mv {
        Move::Drop { piece, to } => Some(
            seq![sign_of(piece.color), '0', '0', digit_char(to.spec_file()), digit_char(to.spec_rank())] + kind_csa(piece.kind),
        ),
        Move::Normal { from, to, promote } => {
            let found = match pos.at(from.index as int) {
                Some(p) => if promote {
                    match p.kind.spec_promote() {
                        Some(k) => Some((p, k)),
                        None => None,
                    }
                } else {
                    Some((p, p.kind))
                },
                None => match pos.at(to.index as int) {
                    Some(p) => Some((p, p.kind)),
                    None => None,
                },
            };
            match found {
                Some((p, k)) => Some(
                    seq![sign_of(p.color), digit_char(from.spec_file()), digit_char(from.spec_rank()), digit_char(to.spec_file()), digit_char(to.spec_rank())] + kind_csa(k),
                ),
                None => None,
            }
        },
    }
}

fn digit(d: u8) -> (r: char)
    requires
        d <= 9,
    ensures
        r == digit_char(d as int),
{
    (48u8 + d) as char
}

/// Writes a move in CSA notation using the position immediately before or after it.
pub fn move_to_csa(mv: Move, position: &PartialPosition) -> (r: Option<String>)
    requires
        position.wf(),
        mv.wf(),
    ensures
        match spec_move_to_csa(mv, position@) {
            Some(s) => r matches Some(t) && t@ == s,
            None => r is None,
        },
{
    let (sign, f1, r1, f2, r2, kind) = match mv {
        Move::Drop { piece, to } => (color_to_csa_sign(piece.color), 0u8, 0u8, to.file(), to.rank(), piece.kind),
        Move::Normal { from, to, promote } => {
            let (piece, kind) = match position.piece_at(from) {
                Some(p) => {
                    let k = if promote {
                        match p.kind.promote() {
                            Some(k) => k,
                            None => return None,
                        }
                    } else {
                        p.kind
                    };
                    (p, k)
                },
                None => match position.piece_at(to) {
                    Some(p) => (p, p.kind),
                    None => return None,
                },
            };
            (color_to_csa_sign(piece.color), from.file(), from.rank(), to.file(), to.rank(), kind)
        },
    };
    let (a, b) = kind_csa_chars(kind);
    let mut v: Vec<char> = Vec::new();
    v.push(sign);
    v.push(digit(f1));
    v.push(digit(r1));
    v.push(digit(f2));
    v.push(digit(r2));
    v.push(a);
    v.push(b);
    proof {
        if let Move::Drop { .. } = mv {
            assert(digit_char(0) == '0');
        }
    }
    assert(v@ =~= spec_move_to_csa(mv, position@).unwrap());
    Some(chars_to_string(&v))
}

/// The USI text of a piece (`P`, `+p`, ...).
pub fn piece_to_sfen(piece: Piece) -> (r: String)
    ensures
        r@ == piece_usi(piece),
{
    let v = kind_usi_chars(piece.kind, piece.color);
    chars_to_string(&v)
}

/// The USI text of a kind, in upper case (`P`, `+R`, ...).
pub fn piece_kind_to_sfen(piece_kind: PieceKind) -> (r: String)
    ensures
        r@ == kind_usi(piece_kind, Color::Black),
{
    let v = kind_usi_chars(piece_kind, Color::Black);
    chars_to_string(&v)
}

} // verus!

verus! {

/// The bytes of the CSA text of a move, read as characters, are the text's characters.
proof fn lemma_csa_text_bytes(t: Seq<char>)
    requires
        t.len() == 7,
        vstd::utf8::is_ascii_chars(t),
    ensures
        vstd::utf8::encode_utf8(t).len() == 7,
        forall|i: int| 0 <= i < 7 ==> (vstd::utf8::encode_utf8(t)[i] as char) == t[i],
        vstd::utf8::is_char_boundary(vstd::utf8::encode_utf8(t), 5),
{
    let b = vstd::utf8::encode_utf8(t);
    vstd::utf8::is_ascii_chars_encode_utf8(t);
    vstd::utf8::encode_utf8_valid_utf8(t);
    assert forall|i: int| 0 <= i < 7 implies (b[i] as char) == t[i] by {
        assert(t[i] as u8 == b[i]);
        assert('\0' <= t[i] <= '\u{7f}');
    }
    vstd::utf8::is_char_boundary_iff_is_leading_byte(b, 5);
    assert(t[5] as u8 == b[5]);
    assert('\0' <= t[5] <= '\u{7f}');
}

/// Writing a move in CSA notation and reading the text back in the same position gives the
/// move again: any drop, and a move from a square holding a piece that can make the
/// promotion asked for.
pub proof fn law_csa_round_trip(mv: Move, pos: PosView)
    requires
        mv.wf(),
        mv matches Move::Normal { from, promote, .. } ==> (pos.at(from.index as int) matches Some(p) && (promote
            ==> p.kind.spec_promote() is Some)),
    ensures
        spec_move_to_csa(mv, pos) matches Some(t) && spec_csa_to_move(vstd::utf8::encode_utf8(t), pos) == Some(
            Ok::<Move, CsaParseError>(mv),
        ),
{
    let t = spec_move_to_csa(mv, pos)->0;
    let (from_digits, to, k, color) = match mv {
        Move::Drop { piece, to } => ((0int, 0int), to, piece.kind, piece.color),
        Move::Normal { from, to, promote } => {
            let p = pos.at(from.index as int)->0;
            (
                (from.spec_file(), from.spec_rank()),
                to,
                if promote {
                    p.kind.spec_promote()->0
                } else {
                    p.kind
                },
                p.color,
            )
        },
    };
    lemma_index_coords_of(to);
    if let Move::Normal { from, .. } = mv {
        lemma_index_coords_of(from);
    }
    let head = seq![
        sign_of(color),
        digit_char(from_digits.0),
        digit_char(from_digits.1),
        digit_char(to.spec_file()),
        digit_char(to.spec_rank()),
    ];
    assert(t == head + kind_csa(k));
    assert(t[5] == kind_csa(k)[0] && t[6] == kind_csa(k)[1]);
    assert(t.len() == 7);
    assert(vstd::utf8::is_ascii_chars(t)) by {
        assert forall|i: int| 0 <= i < t.len() implies '\0' <= #[trigger] t[i] <= '\u{7f}' by {
            assert(i < 5 || t[i] == kind_csa(k)[i - 5]);
        }
    }
    lemma_csa_text_bytes(t);
    let b = vstd::utf8::encode_utf8(t);
    assert(b.subrange(5, 7) =~= name2(kind_csa(k)[0], kind_csa(k)[1])) by {
        assert(b[5] as char == kind_csa(k)[0]);
        assert(b[6] as char == kind_csa(k)[1]);
    }
    assert(csa_kind(name2(kind_csa(k)[0], kind_csa(k)[1])) == Some(k));
    lemma_digit_of_char(from_digits.0);
    lemma_digit_of_char(from_digits.1);
    lemma_digit_of_char(to.spec_file());
    lemma_digit_of_char(to.spec_rank());
    assert(b[1] as char == t[1]);
    assert(t[1] == digit_char(from_digits.0));
    assert(digit_of(b[1] as char) == Some(from_digits.0 as u8));
    assert(digit_at(b, 1) == Some(from_digits.0 as u8));
    assert(b[2] as char == t[2] && t[2] == digit_char(from_digits.1));
    assert(digit_at(b, 2) == Some(from_digits.1 as u8));
    assert(b[3] as char == t[3] && t[3] == digit_char(to.spec_file()));
    assert(digit_at(b, 3) == Some(to.spec_file() as u8));
    assert(b[4] as char == t[4] && t[4] == digit_char(to.spec_rank()));
    assert(digit_at(b, 4) == Some(to.spec_rank() as u8));
    assert(b[0] as char == t[0]);
    assert(color_of_sign(b[0] as char) == Some(color));
}

/// What is written for a move once it is played reads back as that move: for a move that can
/// be played (`can_make_move`) and, when it is a move on the board, goes from one square to
/// another, its CSA text written in the position after the move, read in the position before
/// it, gives the move again, promotion included.
pub proof fn law_csa_after_move_round_trip(mv: Move, pos: PosView)
    requires
        mv.wf(),
        pos.board.len() == 81,
        pos.can_make_move(mv),
        mv matches Move::Normal { from, to, .. } ==> from != to,
    ensures
        spec_move_to_csa(mv, pos.after_move(mv)) matches Some(t) && spec_csa_to_move(vstd::utf8::encode_utf8(t), pos)
            == Some(Ok::<Move, CsaParseError>(mv)),
{
    let after = pos.after_move(mv);
    if let Move::Normal { from, to, promote } = mv {
        assert(from.index != to.index);
        assert(after.at(from.index as int) is None);
        assert(after.at(to.index as int) == Some(
            if promote {
                pos.at(from.index as int)->0.spec_promote()->0
            } else {
                pos.at(from.index as int)->0
            },
        ));
    }
    assert(spec_move_to_csa(mv, after) == spec_move_to_csa(mv, pos));
    law_csa_round_trip(mv, pos);
}

/// Reading back a written digit.
proof fn lemma_digit_of_char(d: int)
    requires
        0 <= d <= 9,
    ensures
        digit_of(digit_char(d)) == Some(d as u8),
{
    let c = digit_char(d);
    assert(c as int == 48 + d);
    assert(c as u8 == 48 + d);
}

/// The file and rank of a square give its index back.
proof fn lemma_index_coords_of(s: Square)
    requires
        s.wf(),
    ensures
        on_board(s.spec_file(), s.spec_rank()),
        sq_index(s.spec_file(), s.spec_rank()) == s.index,
{
    crate::types::lemma_index_coords(s.index as int);
}

} // verus!
