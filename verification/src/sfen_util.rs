//! Embedding rectangular boards of up to 9x9 squares in 9x9 SFEN text and back.
use vstd::prelude::*;
use crate::text::{
    compress, compress_cells, cells_view, words, split_words, split_from, split_at_char, join,
    join_with, str_chars, chars_to_string, append_chars, lemma_cells_view_push, plain_chars, is_ws, digits,
    no_ws, count_str,
};

verus! {

/// Why an SFEN text could not be converted.
#[derive(Clone, Copy, Debug, PartialEq, Eq, Structural)]
pub enum SfenNormalizeError {
    InvalidFormat,
    InvalidPromotion,
    InvalidRanks,
    InvalidFiles,
    NonRectangularBoard,
    Expected9x9Sfen,
    InvalidBoardSize,
    Invalid9x9Row,
}

/// The fields of an SFEN text: board, side, hands, move number, and whether the text
/// started with the word `sfen`.
pub open spec fn sfen_parts(s: Seq<char>) -> Result<(Seq<char>, Seq<char>, Seq<char>, Seq<char>, bool), SfenNormalizeError> {
    let w = words(s);
    if w.len() >= 5 && w[0] == seq!['s', 'f', 'e', 'n'] {
        Ok((w[1], w[2], w[3], w[4], true))
    } else if w.len() >= 4 {
        Ok((w[0], w[1], w[2], w[3], false))
    } else {
        Err(SfenNormalizeError::InvalidFormat)
    }
}

fn is_sfen_word(w: &Vec<char>) -> (r: bool)
    ensures
        r == (w@ == seq!['s', 'f', 'e', 'n']),
{
    let r = w.len() == 4 && w[0] == 's' && w[1] == 'f' && w[2] == 'e' && w[3] == 'n';
    proof {
        if w@ == seq!['s', 'f', 'e', 'n'] {
            assert(w@[0] == 's' && w@[1] == 'f' && w@[2] == 'e' && w@[3] == 'n');
        }
        if r {
            assert(w@ =~= seq!['s', 'f', 'e', 'n']);
        }
    }
    r
}

fn split_sfen_parts(sfen: &Vec<char>) -> (r: Result<(Vec<char>, Vec<char>, Vec<char>, Vec<char>, bool), SfenNormalizeError>)
    ensures
        match sfen_parts(sfen@) {
            Ok(p) => r matches Ok(q) && q.0@ == p.0 && q.1@ == p.1 && q.2@ == p.2 && q.3@ == p.3 && q.4 == p.4,
            Err(e) => r == Err::<(Vec<char>, Vec<char>, Vec<char>, Vec<char>, bool), SfenNormalizeError>(e),
        },
{
    let parts = split_words(sfen);
    let ghost w = words(sfen@);
    assert(cells_view(parts@).len() == parts@.len());
    if parts.len() >= 5 && is_sfen_word(&parts[0]) {
        assert(w[1] == parts@[1]@ && w[2] == parts@[2]@ && w[3] == parts@[3]@ && w[4] == parts@[4]@);
        Ok((parts[1].clone(), parts[2].clone(), parts[3].clone(), parts[4].clone(), true))
    } else if parts.len() >= 4 {
        assert(w[0] == parts@[0]@ && w[1] == parts@[1]@ && w[2] == parts@[2]@ && w[3] == parts@[3]@);
        Ok((parts[0].clone(), parts[1].clone(), parts[2].clone(), parts[3].clone(), false))
    } else {
        Err(SfenNormalizeError::InvalidFormat)
    }
}

/// `n` empty cells.
pub open spec fn empties(n: int) -> Seq<Seq<char>> {
    Seq::new(n as nat, |i: int| Seq::<char>::empty())
}

/// Whether `c` is a decimal digit.
pub open spec fn is_digit(c: char) -> bool {
    '0' <= c && c <= '9'
}

/// The cells of a row of SFEN: a digit stands for that many empty cells, `+` joins the next
/// character into one cell, `?` is an empty cell when `unknown_as_empty`, anything else is
/// a cell of its own. A `+` at the end is an error.
pub open spec fn expand(row: Seq<char>, unknown_as_empty: bool) -> Result<Seq<Seq<char>>, SfenNormalizeError>
    decreases row.len(),
{
    if row.len() == 0 {
        Ok(seq![])
    } else {
        let c = row[0];
        if c == '+' {
            if row.len() < 2 {
                Err(SfenNormalizeError::InvalidPromotion)
            } else {
                match expand(row.subrange(2, row.len() as int), unknown_as_empty) {
                    Ok(rest) => Ok(seq![seq!['+', row[1]]] + rest),
                    Err(e) => Err(e),
                }
            }
        } else {
            match expand(row.drop_first(), unknown_as_empty) {
                Ok(rest) => Ok(
                    if is_digit(c) {
                        empties(c as int - 48) + rest
                    } else if c == '?' && unknown_as_empty {
                        seq![Seq::<char>::empty()] + rest
                    } else {
                        seq![seq![c]] + rest
                    },
                ),
                Err(e) => Err(e),
            }
        }
    }
}

/// `cells` followed by the expansion of `rest`.
pub open spec fn then_expand(cells: Seq<Seq<char>>, rest: Result<Seq<Seq<char>>, SfenNormalizeError>) -> Result<Seq<Seq<char>>, SfenNormalizeError> {
    match rest {
        Ok(r) => Ok(cells + r),
        Err(e) => Err(e),
    }
}

fn expand_row(row: &Vec<char>, unknown_as_empty: bool) -> (r: Result<Vec<Vec<char>>, SfenNormalizeError>)
    ensures
        match expand(row@, unknown_as_empty) {
            Ok(cells) => r matches Ok(v) && cells_view(v@) == cells,
            Err(e) => r == Err::<Vec<Vec<char>>, SfenNormalizeError>(e),
        },
{
    let mut cells: Vec<Vec<char>> = Vec::new();
    let mut i: usize = 0;
    assert(row@.skip(0) =~= row@);
    assert(then_expand(cells_view(cells@), expand(row@, unknown_as_empty)) =~= expand(row@, unknown_as_empty)) by {
        assert(cells_view(cells@) =~= seq![]);
        match expand(row@, unknown_as_empty) {
            Ok(x) => {
                assert(seq![] + x =~= x);
            },
            Err(_) => {},
        }
    }
    while i < row.len()
        invariant
            i <= row@.len(),
            then_expand(cells_view(cells@), expand(row@.skip(i as int), unknown_as_empty)) == expand(row@, unknown_as_empty),
        decreases row@.len() - i,
    {
        let c = row[i];
        let ghost rest = row@.skip(i as int);
        let ghost before = cells_view(cells@);
        assert(rest[0] == c);
        if '0' <= c && c <= '9' {
            let count = (c as u32 - 48) as usize;
            let mut k: usize = 0;
            while k < count
                invariant
                    k <= count,
                    cells_view(cells@) == before + empties(k as int),
                decreases count - k,
            {
                let ghost prev = cells@;
                let e: Vec<char> = Vec::new();
                assert(e@ =~= Seq::<char>::empty());
                cells.push(e);
                assert(cells@ == prev.push(e));
                proof {
                    lemma_cells_view_push(prev, e);
                }
                assert(cells_view(cells@) =~= before + empties(k + 1));
                k = k + 1;
            }
            assert(rest.drop_first() =~= row@.skip(i + 1));
            proof {
                match expand(rest.drop_first(), unknown_as_empty) {
                    Ok(x) => {
                        assert(before + empties(count as int) + x =~= before + (empties(count as int) + x));
                    },
                    Err(_) => {},
                }
            }
            i = i + 1;
            continue;
        }
        if c == '+' {
            if i + 1 >= row.len() {
                return Err(SfenNormalizeError::InvalidPromotion);
            }
            let mut cell: Vec<char> = Vec::new();
            cell.push(c);
            cell.push(row[i + 1]);
            assert(rest.subrange(2, rest.len() as int) =~= row@.skip(i + 2));
            assert(cell@ =~= seq!['+', rest[1]]);
            cells.push(cell);
            assert(cells_view(cells@) =~= before + seq![seq!['+', rest[1]]]);
            proof {
                match expand(rest.subrange(2, rest.len() as int), unknown_as_empty) {
                    Ok(x) => {
                        assert(before + seq![seq!['+', rest[1]]] + x =~= before + (seq![seq!['+', rest[1]]] + x));
                    },
                    Err(_) => {},
                }
            }
            i = i + 2;
            continue;
        }
        assert(rest.drop_first() =~= row@.skip(i + 1));
        if c == '?' && unknown_as_empty {
            cells.push(Vec::new());
            assert(cells_view(cells@) =~= before + seq![Seq::<char>::empty()]);
            proof {
                match expand(rest.drop_first(), unknown_as_empty) {
                    Ok(x) => {
                        assert(before + seq![Seq::<char>::empty()] + x =~= before + (seq![Seq::<char>::empty()] + x));
                    },
                    Err(_) => {},
                }
            }
        } else {
            let mut cell: Vec<char> = Vec::new();
            cell.push(c);
            cells.push(cell);
            assert(cells_view(cells@) =~= before + seq![seq![c]]);
            proof {
                match expand(rest.drop_first(), unknown_as_empty) {
                    Ok(x) => {
                        assert(before + seq![seq![c]] + x =~= before + (seq![seq![c]] + x));
                    },
                    Err(_) => {},
                }
            }
        }
        i = i + 1;
    }
    assert(row@.skip(i as int) =~= seq![]);
    assert(cells_view(cells@) + seq![] =~= cells_view(cells@));
    Ok(cells)
}

} // verus!

verus! {

/// `rest` with `cells` put in front, errors passed through.
pub open spec fn then_rows<T>(first: Seq<Seq<char>>, rest: Result<(Seq<Seq<char>>, T), SfenNormalizeError>) -> Result<(Seq<Seq<char>>, T), SfenNormalizeError> {
    match rest {
        Ok(r) => Ok((first + r.0, r.1)),
        Err(e) => Err(e),
    }
}

/// A row of a rectangular board written as a row of nine files: empty cells are added on
/// the left (the high files), then the row is compressed.
pub open spec fn padded_row(cells: Seq<Seq<char>>) -> Seq<char> {
    compress(empties(9 - cells.len()) + cells, 0)
}

/// The rows of a rectangular board, each widened to nine files, and the board's width.
/// `files` is the width of the rows already seen. A row fails when it cannot be expanded,
/// when it has no cell or more than nine, or when it is not as wide as the rows before it.
pub open spec fn widen_rows(rows: Seq<Seq<char>>, files: Option<nat>) -> Result<(Seq<Seq<char>>, nat), SfenNormalizeError>
    decreases rows.len(),
{
    if rows.len() == 0 {
        Ok((seq![], match files { Some(f) => f, None => 0 }))
    } else {
        match expand(rows[0], true) {
            Err(e) => Err(e),
            Ok(cells) => if !(1 <= cells.len() <= 9) {
                Err(SfenNormalizeError::InvalidFiles)
            } else if files is Some && files->0 != cells.len() {
                Err(SfenNormalizeError::NonRectangularBoard)
            } else {
                then_rows(seq![padded_row(cells)], widen_rows(rows.drop_first(), Some(cells.len())))
            },
        }
    }
}

/// The SFEN text made of a board, side, hands and move number, with or without the
/// leading word `sfen`.
pub open spec fn sfen_text(prefix: bool, board: Seq<char>, turn: Seq<char>, hands: Seq<char>, mv: Seq<char>) -> Seq<char> {
    (if prefix { seq!['s', 'f', 'e', 'n', ' '] } else { seq![] }) + board + seq![' '] + turn + seq![' '] + hands + seq![' '] + mv
}

/// `n` rows with nine empty squares each.
pub open spec fn empty_rows(n: int) -> Seq<Seq<char>> {
    Seq::new(n as nat, |i: int| seq!['9'])
}

/// What normalizing an SFEN text of a board of at most 9x9 squares gives: the text of
/// the board placed in the lower right corner of a 9x9 board, then its files and ranks.
pub open spec fn normalized(s: Seq<char>) -> Result<(Seq<char>, u8, u8), SfenNormalizeError> {
    match sfen_parts(s) {
        Err(e) => Err(e),
        Ok(p) => {
            let rows = split_from(p.0, '/', seq![]);
            if !(1 <= rows.len() <= 9) {
                Err(SfenNormalizeError::InvalidRanks)
            } else {
                match widen_rows(rows, None) {
                    Err(e) => Err(e),
                    Ok(w) => Ok((
                        sfen_text(true, join(w.0 + empty_rows(9 - rows.len()), '/'), p.1, p.2, p.3),
                        w.1 as u8,
                        rows.len() as u8,
                    )),
                }
            }
        }
    }
}

/// Writes a row of nine files for the given cells.
fn padded_cells(cells: Vec<Vec<char>>) -> (r: Vec<char>)
    requires
        cells@.len() <= 9,
    ensures
        r@ == padded_row(cells_view(cells@)),
{
    let n = cells.len();
    let mut padded: Vec<Vec<char>> = Vec::new();
    let mut k: usize = 0;
    while k < 9 - n
        invariant
            n == cells@.len() <= 9,
            k <= 9 - n,
            cells_view(padded@) == empties(k as int),
        decreases 9 - n - k,
    {
        let ghost prev = padded@;
        let e: Vec<char> = Vec::new();
        assert(e@ =~= Seq::<char>::empty());
        padded.push(e);
        proof {
            lemma_cells_view_push(prev, e);
        }
        assert(cells_view(padded@) =~= empties(k + 1));
        k = k + 1;
    }
    let mut i: usize = 0;
    while i < n
        invariant
            n == cells@.len() <= 9,
            i <= n,
            cells_view(padded@) == empties(9 - n) + cells_view(cells@).take(i as int),
        decreases n - i,
    {
        let ghost prev = padded@;
        let c = cells[i].clone();
        padded.push(c);
        proof {
            lemma_cells_view_push(prev, c);
        }
        assert(c@ == cells@[i as int]@);
        assert(cells_view(padded@) =~= empties(9 - n) + cells_view(cells@).take(i + 1));
        i = i + 1;
    }
    assert(cells_view(cells@).take(n as int) =~= cells_view(cells@));
    compress_cells(&padded)
}

} // verus!

verus! {

/// The width of the rows seen so far, as a spec value.
pub open spec fn seen_width(files: Option<usize>) -> Option<nat> {
    match files {
        Some(f) => Some(f as nat),
        None => None,
    }
}

/// Widens every row of a board to nine files.
fn widen_all(rows: &Vec<Vec<char>>) -> (r: Result<(Vec<Vec<char>>, usize), SfenNormalizeError>)
    ensures
        match widen_rows(cells_view(rows@), None) {
            Ok(w) => r matches Ok(v) && cells_view(v.0@) == w.0 && v.1 == w.1,
            Err(e) => r == Err::<(Vec<Vec<char>>, usize), SfenNormalizeError>(e),
        },
        rows@.len() > 0 ==> (r matches Ok(v) ==> 1 <= v.1 <= 9),
{
    let ghost all = cells_view(rows@);
    let mut out: Vec<Vec<char>> = Vec::new();
    let mut files: Option<usize> = None;
    let mut i: usize = 0;
    assert(all.skip(0) =~= all);
    proof {
        match widen_rows(all, None) {
            Ok(w) => {
                assert(cells_view(out@) + w.0 =~= w.0);
            },
            Err(_) => {},
        }
    }
    while i < rows.len()
        invariant
            i <= rows@.len(),
            all == cells_view(rows@),
            files matches Some(f) ==> 1 <= f <= 9,
            i > 0 ==> files is Some,
            then_rows(cells_view(out@), widen_rows(all.skip(i as int), seen_width(files))) == widen_rows(all, None),
        decreases rows@.len() - i,
    {
        let ghost rest = all.skip(i as int);
        assert(rest[0] == rows@[i as int]@);
        assert(rest.drop_first() =~= all.skip(i + 1));
        let cells = expand_row(&rows[i], true)?;
        let count = cells.len();
        if count < 1 || count > 9 {
            return Err(SfenNormalizeError::InvalidFiles);
        }
        match files {
            Some(prev) => {
                if prev != count {
                    return Err(SfenNormalizeError::NonRectangularBoard);
                }
            },
            None => {},
        }
        files = Some(count);
        let ghost before = cells_view(out@);
        let ghost cv = cells_view(cells@);
        let row = padded_cells(cells);
        proof {
            lemma_cells_view_push(out@, row);
        }
        out.push(row);
        proof {
            match widen_rows(rest.drop_first(), Some(cv.len())) {
                Ok(x) => {
                    assert(before.push(padded_row(cv)) + x.0 =~= before + (seq![padded_row(cv)] + x.0));
                },
                Err(_) => {},
            }
        }
        i = i + 1;
    }
    assert(all.skip(i as int) =~= seq![]);
    assert(cells_view(out@) + seq![] =~= cells_view(out@));
    let width = match files {
        Some(f) => f,
        None => 0,
    };
    Ok((out, width))
}

/// Appends the text of an SFEN made of the given fields.
fn sfen_from_fields(prefix: bool, board: &Vec<char>, turn: &Vec<char>, hands: &Vec<char>, mv: &Vec<char>) -> (r: Vec<char>)
    ensures
        r@ == sfen_text(prefix, board@, turn@, hands@, mv@),
{
    let mut out: Vec<char> = Vec::new();
    if prefix {
        out.push('s');
        out.push('f');
        out.push('e');
        out.push('n');
        out.push(' ');
    }
    let ghost head = out@;
    assert(head =~= (if prefix { seq!['s', 'f', 'e', 'n', ' '] } else { seq![] }));
    append_chars(&mut out, board);
    out.push(' ');
    append_chars(&mut out, turn);
    out.push(' ');
    append_chars(&mut out, hands);
    out.push(' ');
    append_chars(&mut out, mv);
    assert(out@ =~= sfen_text(prefix, board@, turn@, hands@, mv@));
    out
}

/// Places a board of at most 9x9 squares, given as SFEN text, in the lower right corner of
/// a 9x9 board, and gives the 9x9 SFEN text (with the leading word `sfen`) together with
/// the board's files and ranks.
pub fn normalize_sfen_to_9x9(sfen: &str) -> (r: Result<(String, u8, u8), SfenNormalizeError>)
    ensures
        match normalized(sfen@) {
            Ok(x) => r matches Ok(y) && y.0@ == x.0 && y.1 == x.1 && y.2 == x.2,
            Err(e) => r == Err::<(String, u8, u8), SfenNormalizeError>(e),
        },
        r matches Ok(y) ==> 1 <= y.1 <= 9 && 1 <= y.2 <= 9,
{
    let chars = str_chars(sfen);
    let (board, turn, hands, mv, _) = split_sfen_parts(&chars)?;
    let rows = split_at_char(&board, '/');
    let ranks = rows.len();
    assert(cells_view(rows@).len() == rows@.len());
    if ranks < 1 || ranks > 9 {
        return Err(SfenNormalizeError::InvalidRanks);
    }
    let (mut widened, files) = widen_all(&rows)?;
    let ghost w = cells_view(widened@);
    let mut k: usize = 0;
    while k < 9 - ranks
        invariant
            1 <= ranks <= 9,
            k <= 9 - ranks,
            cells_view(widened@) == w + empty_rows(k as int),
        decreases 9 - ranks - k,
    {
        let ghost prev = widened@;
        let mut nine: Vec<char> = Vec::new();
        nine.push('9');
        proof {
            lemma_cells_view_push(prev, nine);
        }
        widened.push(nine);
        assert(nine@ =~= seq!['9']);
        assert(cells_view(widened@) =~= w + empty_rows(k + 1));
        k = k + 1;
    }
    let joined = join_with(&widened, '/');
    let text = sfen_from_fields(true, &joined, &turn, &hands, &mv);
    Ok((chars_to_string(&text), files as u8, ranks as u8))
}

} // verus!

verus! {

/// The rows of a 9x9 board narrowed to the `files` files on the right, for the first
/// `ranks` rows. A row fails when it cannot be expanded or does not have nine cells.
pub open spec fn narrow_rows(rows: Seq<Seq<char>>, files: nat) -> Result<Seq<Seq<char>>, SfenNormalizeError>
    decreases rows.len(),
{
    if rows.len() == 0 {
        Ok(seq![])
    } else {
        match expand(rows[0], false) {
            Err(e) => Err(e),
            Ok(cells) => if cells.len() != 9 {
                Err(SfenNormalizeError::Invalid9x9Row)
            } else {
                match narrow_rows(rows.drop_first(), files) {
                    Ok(rest) => Ok(seq![compress(cells.skip(9 - files), 0)] + rest),
                    Err(e) => Err(e),
                }
            },
        }
    }
}

/// What denormalizing a 9x9 SFEN text to a board of `files` x `ranks` squares gives: the
/// lower right `files` x `ranks` corner is kept (the upper `ranks` rows, the right `files`
/// files), with the leading word `sfen` kept when the input had it.
pub open spec fn denormalized(s: Seq<char>, files: u8, ranks: u8) -> Result<Seq<char>, SfenNormalizeError> {
    match sfen_parts(s) {
        Err(e) => Err(e),
        Ok(p) => {
            let rows = split_from(p.0, '/', seq![]);
            if rows.len() != 9 {
                Err(SfenNormalizeError::Expected9x9Sfen)
            } else if !(1 <= files <= 9) || !(1 <= ranks <= 9) {
                Err(SfenNormalizeError::InvalidBoardSize)
            } else {
                match narrow_rows(rows.take(ranks as int), files as nat) {
                    Err(e) => Err(e),
                    Ok(kept) => Ok(sfen_text(p.4, join(kept, '/'), p.1, p.2, p.3)),
                }
            }
        }
    }
}

/// The last `files` cells of a row of nine, compressed.
fn right_cells(cells: &Vec<Vec<char>>, files: usize) -> (r: Vec<char>)
    requires
        cells@.len() == 9,
        1 <= files <= 9,
    ensures
        r@ == compress(cells_view(cells@).skip(9 - files), 0),
{
    let mut tail: Vec<Vec<char>> = Vec::new();
    let mut i: usize = 9 - files;
    let ghost all = cells_view(cells@);
    assert(cells_view(tail@) =~= all.subrange(9 - files, 9 - files));
    while i < 9
        invariant
            cells@.len() == 9,
            1 <= files <= 9,
            9 - files <= i <= 9,
            all == cells_view(cells@),
            cells_view(tail@) == all.subrange(9 - files, i as int),
        decreases 9 - i,
    {
        let ghost prev = tail@;
        let c = cells[i].clone();
        proof {
            lemma_cells_view_push(prev, c);
        }
        tail.push(c);
        assert(c@ == all[i as int]);
        assert(cells_view(tail@) =~= all.subrange(9 - files, i + 1));
        i = i + 1;
    }
    assert(all.subrange(9 - files, 9) =~= all.skip(9 - files));
    compress_cells(&tail)
}

/// Narrows the first `ranks` rows of a 9x9 board to their right `files` files.
fn narrow_all(rows: &Vec<Vec<char>>, files: usize, ranks: usize) -> (r: Result<Vec<Vec<char>>, SfenNormalizeError>)
    requires
        1 <= files <= 9,
        ranks <= rows@.len(),
    ensures
        match narrow_rows(cells_view(rows@).take(ranks as int), files as nat) {
            Ok(w) => r matches Ok(v) && cells_view(v@) == w,
            Err(e) => r == Err::<Vec<Vec<char>>, SfenNormalizeError>(e),
        },
{
    let ghost all = cells_view(rows@).take(ranks as int);
    let mut out: Vec<Vec<char>> = Vec::new();
    let mut i: usize = 0;
    assert(all.skip(0) =~= all);
    proof {
        match narrow_rows(all, files as nat) {
            Ok(w) => {
                assert(cells_view(out@) + w =~= w);
            },
            Err(_) => {},
        }
    }
    while i < ranks
        invariant
            1 <= files <= 9,
            i <= ranks <= rows@.len(),
            all == cells_view(rows@).take(ranks as int),
            then_expand(cells_view(out@), narrow_rows(all.skip(i as int), files as nat)) == narrow_rows(all, files as nat),
        decreases ranks - i,
    {
        let ghost rest = all.skip(i as int);
        assert(rest[0] == rows@[i as int]@);
        assert(rest.drop_first() =~= all.skip(i + 1));
        let cells = expand_row(&rows[i], false)?;
        if cells.len() != 9 {
            return Err(SfenNormalizeError::Invalid9x9Row);
        }
        let ghost before = cells_view(out@);
        let row = right_cells(&cells, files);
        proof {
            lemma_cells_view_push(out@, row);
        }
        out.push(row);
        proof {
            match narrow_rows(rest.drop_first(), files as nat) {
                Ok(x) => {
                    assert(before.push(row@) + x =~= before + (seq![row@] + x));
                },
                Err(_) => {},
            }
        }
        i = i + 1;
    }
    assert(all.skip(i as int) =~= seq![]);
    assert(cells_view(out@) + seq![] =~= cells_view(out@));
    Ok(out)
}

/// Takes the lower right `files` x `ranks` corner of a 9x9 board given as SFEN text, and
/// gives it as SFEN text of a board of that size.
pub fn denormalize_sfen_from_9x9(sfen: &str, files: u8, ranks: u8) -> (r: Result<String, SfenNormalizeError>)
    ensures
        match denormalized(sfen@, files, ranks) {
            Ok(x) => r matches Ok(y) && y@ == x,
            Err(e) => r == Err::<String, SfenNormalizeError>(e),
        },
{
    let chars = str_chars(sfen);
    let (board, turn, hands, mv, has_prefix) = split_sfen_parts(&chars)?;
    let rows = split_at_char(&board, '/');
    assert(cells_view(rows@).len() == rows@.len());
    if rows.len() != 9 {
        return Err(SfenNormalizeError::Expected9x9Sfen);
    }
    if files < 1 || files > 9 || ranks < 1 || ranks > 9 {
        return Err(SfenNormalizeError::InvalidBoardSize);
    }
    let kept = narrow_all(&rows, files as usize, ranks as usize)?;
    let joined = join_with(&kept, '/');
    let text = sfen_from_fields(has_prefix, &joined, &turn, &hands, &mv);
    Ok(chars_to_string(&text))
}

} // verus!

verus! {

/// A cell as it comes out of a row: vacant, one character that is neither a digit nor `+`,
/// or `+` followed by one character.
pub open spec fn token(c: Seq<char>) -> bool {
    ||| c.len() == 0
    ||| c.len() == 1 && !is_digit(c[0]) && c[0] != '+'
    ||| c.len() == 2 && c[0] == '+'
}

/// A cell as `expand` gives it: a token, and not a lone `?` when `?` is read as a vacant
/// square.
pub open spec fn read_token(c: Seq<char>, unknown_as_empty: bool) -> bool {
    token(c) && (unknown_as_empty ==> c != seq!['?'])
}

/// A row of nine cells written canonically: read with `?` as a vacant square it gives nine
/// cells, and writing those cells gives the row again.
pub open spec fn canonical9(row: Seq<char>) -> bool {
    expand(row, true) matches Ok(c) && c.len() == 9 && compress(c, 0) == row
}

/// A row written again from its cells (`?` read as a vacant square).
pub open spec fn canonical_row(row: Seq<char>) -> Seq<char> {
    compress(expand(row, true)->Ok_0, 0)
}

/// The cells of a row are tokens made of the row's characters.
proof fn lemma_expand_tokens(row: Seq<char>, u: bool)
    requires
        plain_chars(row),
    ensures
        expand(row, u) matches Ok(cells) ==> forall|i: int| 0 <= i < cells.len() ==> read_token(#[trigger] cells[i], u) && plain_chars(cells[i]),
    decreases row.len(),
{
    if row.len() > 0 {
        let c = row[0];
        assert(!is_ws(row[0]) && row[0] != '/');
        if c == '+' {
            if row.len() >= 2 {
                let rest = row.subrange(2, row.len() as int);
                assert(plain_chars(rest)) by {
                    assert forall|j: int| 0 <= j < rest.len() implies !is_ws(#[trigger] rest[j]) && rest[j] != '/' by {
                        assert(rest[j] == row[j + 2]);
                    }
                }
                lemma_expand_tokens(rest, u);
                assert(!is_ws(row[1]) && row[1] != '/');
                if let Ok(r) = expand(rest, u) {
                    let first = seq![seq!['+', row[1]]];
                    assert forall|i: int| 0 <= i < (first + r).len() implies read_token(#[trigger] (first + r)[i], u) && plain_chars((first + r)[i]) by {
                        if i == 0 {
                            assert((first + r)[i].len() == 2);
                        } else {
                            assert((first + r)[i] == r[i - 1]);
                        }
                    }
                }
            }
        } else {
            let rest = row.drop_first();
            assert(plain_chars(rest)) by {
                assert forall|j: int| 0 <= j < rest.len() implies !is_ws(#[trigger] rest[j]) && rest[j] != '/' by {
                    assert(rest[j] == row[j + 1]);
                }
            }
            lemma_expand_tokens(rest, u);
            if let Ok(r) = expand(rest, u) {
                let first: Seq<Seq<char>> = if is_digit(c) {
                    empties(c as int - 48)
                } else if c == '?' && u {
                    seq![Seq::<char>::empty()]
                } else {
                    seq![seq![c]]
                };
                assert(expand(row, u) == Ok::<Seq<Seq<char>>, SfenNormalizeError>(first + r));
                assert forall|i: int| 0 <= i < (first + r).len() implies read_token(#[trigger] (first + r)[i], u) && plain_chars((first + r)[i]) by {
                    if i >= first.len() {
                        assert((first + r)[i] == r[i - first.len()]);
                    } else {
                        assert((first + r)[i] == first[i]);
                        if !is_digit(c) && !(c == '?' && u) {
                            assert(first[i] == seq![c]);
                            assert(seq![c][0] == c);
                        }
                    }
                }
            }
        }
    }
}

/// Expanding a digit `k` (1..9) followed by more text.
proof fn lemma_expand_digit(k: int, y: Seq<char>, u: bool)
    requires
        1 <= k <= 9,
    ensures
        expand(seq![crate::text::digit_char(k)] + y, u) == then_expand(empties(k), expand(y, u)),
{
    let s = seq![crate::text::digit_char(k)] + y;
    assert(s[0] == crate::text::digit_char(k));
    assert(s.drop_first() =~= y);
    assert(crate::text::digit_char(k) as int - 48 == k);
}

/// Expanding a non-vacant token followed by more text.
proof fn lemma_expand_token(c: Seq<char>, y: Seq<char>, u: bool)
    requires
        read_token(c, u),
        c.len() > 0,
    ensures
        expand(c + y, u) == then_expand(seq![c], expand(y, u)),
{
    let s = c + y;
    assert(s[0] == c[0]);
    if c.len() == 1 {
        assert(s.drop_first() =~= y);
        assert(seq![c[0]] =~= c);
    } else {
        assert(s[1] == c[1]);
        assert(s.subrange(2, s.len() as int) =~= y);
        assert(seq!['+', c[1]] =~= c);
    }
}

/// Reading a compressed row of tokens gives the cells back, when no run of vacant squares
/// is longer than nine.
proof fn lemma_expand_compress(cells: Seq<Seq<char>>, k: nat, u: bool)
    requires
        forall|i: int| 0 <= i < cells.len() ==> read_token(#[trigger] cells[i], u),
        k + cells.len() <= 9,
    ensures
        expand(compress(cells, k), u) == Ok::<Seq<Seq<char>>, SfenNormalizeError>(empties(k as int) + cells),
    decreases cells.len(),
{
    let e = Seq::<char>::empty();
    if cells.len() == 0 {
        if k == 0 {
            assert(empties(0) + cells =~= seq![]);
        } else {
            assert(count_str(k) == seq![crate::text::digit_char(k as int)]);
            lemma_expand_digit(k as int, e, u);
            assert(seq![crate::text::digit_char(k as int)] + e =~= seq![crate::text::digit_char(k as int)]);
            assert(empties(k as int) + seq![] =~= empties(k as int));
            assert(empties(k as int) + cells =~= empties(k as int));
        }
    } else if cells[0].len() == 0 {
        let rest = cells.drop_first();
        assert forall|i: int| 0 <= i < rest.len() implies read_token(#[trigger] rest[i], u) by {
            assert(rest[i] == cells[i + 1]);
        }
        lemma_expand_compress(rest, k + 1, u);
        assert(cells[0] =~= Seq::<char>::empty());
        assert(empties((k + 1) as int) + rest =~= empties(k as int) + cells);
    } else {
        let rest = cells.drop_first();
        assert forall|i: int| 0 <= i < rest.len() implies read_token(#[trigger] rest[i], u) by {
            assert(rest[i] == cells[i + 1]);
        }
        lemma_expand_compress(rest, 0, u);
        let x = compress(rest, 0);
        assert(empties(0) + rest =~= rest);
        assert(read_token(cells[0], u));
        lemma_expand_token(cells[0], x, u);
        assert(expand(cells[0] + x, u) == Ok::<Seq<Seq<char>>, SfenNormalizeError>(seq![cells[0]] + rest));
        assert(seq![cells[0]] + rest =~= cells);
        if k == 0 {
            assert(count_str(k) + cells[0] + x =~= cells[0] + x);
            assert(empties(0) + cells =~= cells);
        } else {
            assert(count_str(k) == seq![crate::text::digit_char(k as int)]);
            assert(count_str(k) + cells[0] + x =~= seq![crate::text::digit_char(k as int)] + (cells[0] + x));
            lemma_expand_digit(k as int, cells[0] + x, u);
        }
    }
}

/// A compressed row of characters without white space or `/` has none either.
pub proof fn lemma_compress_plain(cells: Seq<Seq<char>>, k: nat)
    requires
        forall|i: int| 0 <= i < cells.len() ==> plain_chars(#[trigger] cells[i]),
    ensures
        plain_chars(compress(cells, k)),
    decreases cells.len(),
{
    crate::text::lemma_digits_are_digits(k);
    assert(plain_chars(count_str(k))) by {
        assert forall|j: int| 0 <= j < count_str(k).len() implies !is_ws(#[trigger] count_str(k)[j]) && count_str(k)[j] != '/' by {
            assert('0' <= digits(k)[j] <= '9');
        }
    }
    if cells.len() > 0 {
        let rest = cells.drop_first();
        assert forall|i: int| 0 <= i < rest.len() implies plain_chars(#[trigger] rest[i]) by {
            assert(rest[i] == cells[i + 1]);
        }
        if cells[0].len() == 0 {
            lemma_compress_plain(rest, k + 1);
        } else {
            lemma_compress_plain(rest, 0);
            let a = count_str(k);
            let b = cells[0];
            let c = compress(rest, 0);
            assert(plain_chars(b));
            assert forall|j: int| 0 <= j < (a + b + c).len() implies !is_ws(#[trigger] (a + b + c)[j]) && (a + b + c)[j] != '/' by {
                if j < a.len() {
                    assert((a + b + c)[j] == a[j]);
                } else if j < a.len() + b.len() {
                    assert((a + b + c)[j] == b[j - a.len()]);
                } else {
                    assert((a + b + c)[j] == c[j - a.len() - b.len()]);
                }
            }
        }
    }
}

} // verus!

verus! {

/// Widening rows and narrowing them back to their width gives each row in canonical form.
proof fn lemma_widen_narrow(rows: Seq<Seq<char>>, files: Option<nat>)
    requires
        forall|i: int| 0 <= i < rows.len() ==> plain_chars(#[trigger] rows[i]),
        files matches Some(f) ==> 1 <= f <= 9,
    ensures
        widen_rows(rows, files) matches Ok(w) ==> {
            &&& w.0.len() == rows.len()
            &&& forall|i: int| 0 <= i < w.0.len() ==> plain_chars(#[trigger] w.0[i]) && canonical9(w.0[i])
            &&& (rows.len() > 0 ==> 1 <= w.1 <= 9)
            &&& (files matches Some(f) ==> w.1 == f)
            &&& narrow_rows(w.0, w.1) == Ok::<Seq<Seq<char>>, SfenNormalizeError>(
                Seq::new(rows.len(), |i: int| canonical_row(rows[i])),
            )
        },
    decreases rows.len(),
{
    if rows.len() == 0 {
        if let Ok(w) = widen_rows(rows, files) {
            assert(Seq::new(rows.len(), |i: int| canonical_row(rows[i])) =~= seq![]);
        }
    } else if let Ok(cells) = expand(rows[0], true) {
        let n = cells.len();
        if 1 <= n <= 9 && !(files is Some && files->0 != n) {
            let rest = rows.drop_first();
            assert forall|i: int| 0 <= i < rest.len() implies plain_chars(#[trigger] rest[i]) by {
                assert(rest[i] == rows[i + 1]);
            }
            lemma_widen_narrow(rest, Some(n));
            if let Ok(w2) = widen_rows(rest, Some(n)) {
                lemma_expand_tokens(rows[0], true);
                let padded = empties(9 - n) + cells;
                assert forall|i: int| 0 <= i < padded.len() implies read_token(#[trigger] padded[i], true) && plain_chars(padded[i]) by {
                    if i >= 9 - n {
                        assert(padded[i] == cells[i - (9 - n)]);
                    } else {
                        assert(padded[i] == Seq::<char>::empty());
                    }
                }
                assert forall|i: int| 0 <= i < padded.len() implies read_token(#[trigger] padded[i], false) by {
                    assert(read_token(padded[i], true));
                }
                lemma_expand_compress(padded, 0, false);
                lemma_expand_compress(padded, 0, true);
                assert(empties(0) + padded =~= padded);
                lemma_compress_plain(padded, 0);
                let p = padded_row(cells);
                let w0 = seq![p] + w2.0;
                assert(widen_rows(rows, files) == Ok::<(Seq<Seq<char>>, nat), SfenNormalizeError>((w0, w2.1)));
                assert(w0[0] == p);
                assert(w0.drop_first() =~= w2.0);
                assert(padded.skip(9 - n) =~= cells);
                assert(p == compress(padded, 0));
                assert forall|i: int| 0 <= i < w0.len() implies plain_chars(#[trigger] w0[i]) && canonical9(w0[i]) by {
                    if i > 0 {
                        assert(w0[i] == w2.0[i - 1]);
                    }
                }
                assert(narrow_rows(w0, n) == Ok::<Seq<Seq<char>>, SfenNormalizeError>(
                    seq![compress(cells, 0)] + Seq::new(rest.len(), |i: int| canonical_row(rest[i])),
                ));
                assert(seq![compress(cells, 0)] + Seq::new(rest.len(), |i: int| canonical_row(rest[i])) =~= Seq::new(
                    rows.len(),
                    |i: int| canonical_row(rows[i]),
                ));
            }
        }
    }
}

/// Writing `n` vacant squares after `k` already counted writes the count `k + n`.
proof fn lemma_compress_empties(n: nat, k: nat)
    ensures
        compress(empties(n as int), k) == count_str(k + n),
    decreases n,
{
    if n > 0 {
        assert(empties(n as int).drop_first() =~= empties(n - 1));
        lemma_compress_empties((n - 1) as nat, k + 1);
    }
}

/// A row of nine vacant squares is written canonically.
proof fn lemma_nine_canonical()
    ensures
        canonical9(seq!['9']),
{
    let r = seq!['9'];
    assert(r.drop_first() =~= Seq::<char>::empty());
    assert(r[0] == '9');
    assert(is_digit(r[0]));
    assert(r[0] as int - 48 == 9);
    assert(expand(r.drop_first(), true) == Ok::<Seq<Seq<char>>, SfenNormalizeError>(seq![]));
    assert(empties(9) + seq![] =~= empties(9));
    assert(expand(r, true) == Ok::<Seq<Seq<char>>, SfenNormalizeError>(empties(9)));
    lemma_compress_empties(9, 0);
    assert(digits(9) == seq![crate::text::digit_char(9)]);
    assert(crate::text::digit_char(9) == '9');
    assert(count_str(9) =~= r);
}

/// Widening rows that are each nine cells written canonically leaves them as they are.
proof fn lemma_widen_canonical(rows: Seq<Seq<char>>, files: Option<nat>)
    requires
        forall|i: int| 0 <= i < rows.len() ==> canonical9(#[trigger] rows[i]),
        files is None || files == Some(9nat),
        rows.len() > 0 || files == Some(9nat),
    ensures
        widen_rows(rows, files) == Ok::<(Seq<Seq<char>>, nat), SfenNormalizeError>((rows, 9nat)),
    decreases rows.len(),
{
    if rows.len() > 0 {
        assert(canonical9(rows[0]));
        let c = expand(rows[0], true)->Ok_0;
        assert(empties(0) + c =~= c);
        assert(padded_row(c) == rows[0]);
        let rest = rows.drop_first();
        assert forall|i: int| 0 <= i < rest.len() implies canonical9(#[trigger] rest[i]) by {
            assert(rest[i] == rows[i + 1]);
        }
        lemma_widen_canonical(rest, Some(9nat));
        assert(seq![rows[0]] + rest =~= rows);
    } else {
        assert(rows =~= seq![]);
    }
}

/// The text that normalizing gives: its fields, and its rows read back from it.
proof fn lemma_normalized_text(s: Seq<char>) -> (rows9: Seq<Seq<char>>)
    requires
        normalized(s) is Ok,
    ensures
        ({
            let p = sfen_parts(s)->Ok_0;
            let rows = split_from(p.0, '/', seq![]);
            let w = widen_rows(rows, None)->Ok_0;
            let n = normalized(s)->Ok_0;
            &&& widen_rows(rows, None) is Ok
            &&& 1 <= rows.len() <= 9
            &&& forall|i: int| 0 <= i < rows.len() ==> plain_chars(#[trigger] rows[i])
            &&& w.0.len() == rows.len()
            &&& rows9 == w.0 + empty_rows(9 - rows.len())
            &&& rows9.len() == 9
            &&& n.0 == sfen_text(true, join(rows9, '/'), p.1, p.2, p.3)
            &&& n.1 == w.1 as u8 && n.2 == rows.len() as u8
            &&& sfen_parts(n.0) == Ok::<(Seq<char>, Seq<char>, Seq<char>, Seq<char>, bool), SfenNormalizeError>(
                (join(rows9, '/'), p.1, p.2, p.3, true),
            )
            &&& split_from(join(rows9, '/'), '/', seq![]) == rows9
        }),
{
    let e = Seq::<char>::empty();
    let p = sfen_parts(s)->Ok_0;
    let ws = words(s);
    crate::text::lemma_words_are_words(s, e);
    assert(no_ws(e));
    if ws.len() >= 5 && ws[0] == seq!['s', 'f', 'e', 'n'] {
        assert(p == (ws[1], ws[2], ws[3], ws[4], true));
    } else {
        assert(p == (ws[0], ws[1], ws[2], ws[3], false));
    }
    let rows = split_from(p.0, '/', e);
    assert(plain_chars(e));
    crate::text::lemma_split_plain(p.0, e);
    lemma_widen_narrow(rows, None);
    let w = widen_rows(rows, None)->Ok_0;
    let r = rows.len();
    let rows9 = w.0 + empty_rows(9 - r);
    assert forall|i: int| 0 <= i < rows9.len() implies plain_chars(#[trigger] rows9[i]) by {
        if i < r {
            assert(rows9[i] == w.0[i]);
        } else {
            assert(rows9[i] == seq!['9']);
            assert(plain_chars(seq!['9'])) by {
                assert forall|j: int| 0 <= j < seq!['9'].len() implies !is_ws(#[trigger] seq!['9'][j]) && seq!['9'][j] != '/' by {
                    assert(seq!['9'][j] == '9');
                }
            }
        }
    }
    let b = join(rows9, '/');
    crate::text::lemma_join_no_ws(rows9);
    crate::text::lemma_join_front(rows9, '/');
    assert(b.len() > 0);
    crate::text::lemma_words_of_fields(b, p.1, p.2, p.3);
    let n = normalized(s)->Ok_0;
    assert(n.0 == sfen_text(true, b, p.1, p.2, p.3));
    assert(n.0 =~= seq!['s', 'f', 'e', 'n', ' '] + b + seq![' '] + p.1 + seq![' '] + p.2 + seq![' '] + p.3);
    assert(sfen_parts(n.0) == Ok::<(Seq<char>, Seq<char>, Seq<char>, Seq<char>, bool), SfenNormalizeError>((b, p.1, p.2, p.3, true)));
    assert forall|i: int, j: int| 0 <= i < rows9.len() && 0 <= j < rows9[i].len() implies #[trigger] rows9[i][j] != '/' by {
        assert(plain_chars(rows9[i]));
    }
    crate::text::lemma_split_join(rows9, '/');
    rows9
}

/// Reading a row written from its cells gives the cells back: for a row of at most nine
/// cells, each vacant, one character that is neither a digit nor `+`, or `+` and one
/// character, writing each run of vacant squares as its length and reading the text again
/// (`?` taken as it is) gives the same cells.
pub proof fn law_expand_undoes_compress(cells: Seq<Seq<char>>)
    requires
        cells.len() <= 9,
        forall|i: int| 0 <= i < cells.len() ==> token(#[trigger] cells[i]),
    ensures
        expand(compress(cells, 0), false) == Ok::<Seq<Seq<char>>, SfenNormalizeError>(cells),
{
    assert forall|i: int| 0 <= i < cells.len() implies read_token(#[trigger] cells[i], false) by {}
    lemma_expand_compress(cells, 0, false);
    assert(empties(0) + cells =~= cells);
}

/// Normalizing is idempotent: normalizing the text that normalizing gave gives that text
/// again, as a board of 9x9 squares.
pub proof fn law_normalize_idempotent(s: Seq<char>)
    requires
        normalized(s) is Ok,
    ensures
        normalized(normalized(s)->Ok_0.0) == Ok::<(Seq<char>, u8, u8), SfenNormalizeError>(
            (normalized(s)->Ok_0.0, 9u8, 9u8),
        ),
{
    let rows9 = lemma_normalized_text(s);
    let p = sfen_parts(s)->Ok_0;
    let rows = split_from(p.0, '/', seq![]);
    lemma_widen_narrow(rows, None);
    let w = widen_rows(rows, None)->Ok_0;
    let r = rows.len();
    lemma_nine_canonical();
    assert forall|i: int| 0 <= i < rows9.len() implies canonical9(#[trigger] rows9[i]) by {
        if i < r {
            assert(rows9[i] == w.0[i]);
        } else {
            assert(rows9[i] == seq!['9']);
        }
    }
    lemma_widen_canonical(rows9, None);
    assert(rows9 + empty_rows(0) =~= rows9);
}

/// Cutting a normalized SFEN text back to the size of its board gives the text it came from,
/// with the word `sfen` in front and each row written canonically (`?` read as a vacant
/// square, every run of vacant squares counted).
pub proof fn law_denormalize_undoes_normalize(s: Seq<char>)
    requires
        normalized(s) is Ok,
    ensures
        ({
            let p = sfen_parts(s)->Ok_0;
            let rows = split_from(p.0, '/', seq![]);
            let n = normalized(s)->Ok_0;
            denormalized(n.0, n.1, n.2) == Ok::<Seq<char>, SfenNormalizeError>(
                sfen_text(true, join(Seq::new(rows.len(), |i: int| canonical_row(rows[i])), '/'), p.1, p.2, p.3),
            )
        }),
{
    let rows9 = lemma_normalized_text(s);
    let p = sfen_parts(s)->Ok_0;
    let rows = split_from(p.0, '/', seq![]);
    lemma_widen_narrow(rows, None);
    let w = widen_rows(rows, None)->Ok_0;
    assert(rows9.take(rows.len() as int) =~= w.0);
}

} // verus!
