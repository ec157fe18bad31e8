//! Character-level helpers: decimal numbers, run-length compressed rows, and
//! conversion between `String`/`str` and character vectors.
use vstd::prelude::*;

verus! {

/// The character of a decimal digit.
pub open spec fn digit_char(d: int) -> char {
    (48 + d) as char
}

/// Decimal representation of a natural number, without leading zeros.
pub open spec fn digits(n: nat) -> Seq<char>
    decreases n,
{
    if n < 10 {
        seq![digit_char(n as int)]
    } else {
        digits(n / 10).push(digit_char((n % 10) as int))
    }
}

/// The decimal representation of `n`.
pub fn decimal(n: u64) -> (r: Vec<char>)
    ensures
        r@ == digits(n as nat),
    decreases n,
{
    let d = (n % 10) as u8;
    let c = (48u8 + d) as char;
    if n < 10 {
        let mut v = Vec::new();
        v.push(c);
        v
    } else {
        let mut v = decimal(n / 10);
        v.push(c);
        v
    }
}

/// Appends `b` to `a`.
pub fn append_chars(a: &mut Vec<char>, b: &Vec<char>)
    ensures
        final(a)@ == old(a)@ + b@,
{
    let mut i: usize = 0;
    let ghost start = a@;
    while i < b.len()
        invariant
            i <= b@.len(),
            a@ == start + b@.subrange(0, i as int),
        decreases b@.len() - i,
    {
        a.push(b[i]);
        i = i + 1;
        assert(a@ =~= start + b@.subrange(0, i as int));
    }
    assert(b@.subrange(0, b@.len() as int) =~= b@);
}

/// A count of empty cells as written in a row: nothing for zero, else its decimal form.
pub open spec fn count_str(n: nat) -> Seq<char> {
    if n == 0 {
        seq![]
    } else {
        digits(n)
    }
}

/// Run-length compression of a row: each maximal run of empty cells becomes its length,
/// other cells are written as they are. `empty` counts the empty cells already seen.
pub open spec fn compress(cells: Seq<Seq<char>>, empty: nat) -> Seq<char>
    decreases cells.len(),
{
    if cells.len() == 0 {
        count_str(empty)
    } else if cells[0].len() == 0 {
        compress(cells.drop_first(), empty + 1)
    } else {
        count_str(empty) + cells[0] + compress(cells.drop_first(), 0)
    }
}

/// The contents of a vector of character vectors.
pub open spec fn cells_view(cells: Seq<Vec<char>>) -> Seq<Seq<char>> {
    cells.map_values(|c: Vec<char>| c@)
}

/// Pushing a vector pushes its contents.
pub proof fn lemma_cells_view_push(cells: Seq<Vec<char>>, c: Vec<char>)
    ensures
        cells_view(cells.push(c)) == cells_view(cells).push(c@),
{
    assert(cells_view(cells.push(c)) =~= cells_view(cells).push(c@));
}

/// Writes a row, compressing each run of empty cells into its length.
pub fn compress_cells(cells: &Vec<Vec<char>>) -> (r: Vec<char>)
    ensures
        r@ == compress(cells_view(cells@), 0),
{
    let ghost all = cells_view(cells@);
    let mut out: Vec<char> = Vec::new();
    let mut empty: u64 = 0;
    let mut i: usize = 0;
    assert(all.skip(0) =~= all);
    assert(out@ + compress(all, 0) =~= compress(all, 0));
    while i < cells.len()
        invariant
            i <= cells@.len(),
            empty <= i,
            all == cells_view(cells@),
            out@ + compress(all.skip(i as int), empty as nat) == compress(all, 0),
        decreases cells@.len() - i,
    {
        let ghost rest = all.skip(i as int);
        assert(rest.drop_first() =~= all.skip(i + 1));
        assert(rest[0] == cells@[i as int]@);
        if cells[i].len() == 0 {
            empty = empty + 1;
        } else {
            if empty > 0 {
                let d = decimal(empty);
                append_chars(&mut out, &d);
            }
            let ghost before = out@;
            append_chars(&mut out, &cells[i]);
            assert(out@ + compress(all.skip(i + 1), 0) == before + cells@[i as int]@ + compress(
                rest.drop_first(),
                0,
            ));
            empty = 0;
        }
        i = i + 1;
    }
    assert(all.skip(i as int).len() == 0);
    if empty > 0 {
        let d = decimal(empty);
        append_chars(&mut out, &d);
    }
    assert(out@ == compress(all, 0));
    out
}

/// The characters of a `str`.
pub fn str_chars(s: &str) -> (r: Vec<char>)
    ensures
        r@ == s@,
{
    let mut r: Vec<char> = Vec::new();
    let n = s.unicode_len();
    let mut i: usize = 0;
    while i < n
        invariant
            n == s@.len(),
            i <= n,
            r@ == s@.subrange(0, i as int),
        decreases n - i,
    {
        r.push(s.get_char(i));
        i = i + 1;
        assert(r@ =~= s@.subrange(0, i as int));
    }
    assert(s@.subrange(0, n as int) =~= s@);
    r
}

/// A `String` holding the given characters: calls std's `FromIterator<char>` for `String`.
#[verifier::external_body]
pub fn chars_to_string(v: &Vec<char>) -> (r: String)
    ensures
        r@ == v@,
{
    v.iter().collect()
}

} // verus!

verus! {

/// Unicode white space (what `char::is_whitespace` accepts).
pub open spec fn is_ws(c: char) -> bool {
    c == ' ' || ('\t' <= c && c <= '\r') || c == '\u{85}' || c == '\u{a0}' || c == '\u{1680}' || (
    '\u{2000}' <= c && c <= '\u{200a}') || c == '\u{2028}' || c == '\u{2029}' || c == '\u{202f}' || c
        == '\u{205f}' || c == '\u{3000}'
}

/// Executable form of `is_ws`.
pub fn is_whitespace(c: char) -> (r: bool)
    ensures
        r == is_ws(c),
{
    c == ' ' || ('\t' <= c && c <= '\r') || c == '\u{85}' || c == '\u{a0}' || c == '\u{1680}' || (
    '\u{2000}' <= c && c <= '\u{200a}') || c == '\u{2028}' || c == '\u{2029}' || c == '\u{202f}' || c
        == '\u{205f}' || c == '\u{3000}'
}

/// A finished word, if it is not empty.
pub open spec fn flush(cur: Seq<char>) -> Seq<Seq<char>> {
    if cur.len() == 0 {
        seq![]
    } else {
        seq![cur]
    }
}

/// The maximal runs of non-white-space characters of `s`, the first one starting with `cur`.
pub open spec fn words_from(s: Seq<char>, cur: Seq<char>) -> Seq<Seq<char>>
    decreases s.len(),
{
    if s.len() == 0 {
        flush(cur)
    } else if is_ws(s[0]) {
        flush(cur) + words_from(s.drop_first(), seq![])
    } else {
        words_from(s.drop_first(), cur.push(s[0]))
    }
}

/// The words of `s` (what `str::split_whitespace` yields).
pub open spec fn words(s: Seq<char>) -> Seq<Seq<char>> {
    words_from(s, seq![])
}

/// Splits `s` into its words.
pub fn split_words(s: &Vec<char>) -> (r: Vec<Vec<char>>)
    ensures
        cells_view(r@) == words(s@),
{
    let mut out: Vec<Vec<char>> = Vec::new();
    let mut cur: Vec<char> = Vec::new();
    let mut i: usize = 0;
    assert(s@.skip(0) =~= s@);
    assert(cells_view(out@) =~= seq![]);
    while i < s.len()
        invariant
            i <= s@.len(),
            cells_view(out@) + words_from(s@.skip(i as int), cur@) == words(s@),
        decreases s@.len() - i,
    {
        let c = s[i];
        let ghost rest = s@.skip(i as int);
        assert(rest.drop_first() =~= s@.skip(i + 1));
        assert(rest[0] == c);
        if is_whitespace(c) {
            if cur.len() > 0 {
                let ghost before = cells_view(out@);
                out.push(cur);
                assert(cells_view(out@) =~= before + flush(cur@));
            } else {
                assert(flush(cur@) =~= seq![]);
                assert(cells_view(out@) + flush(cur@) =~= cells_view(out@));
            }
            cur = Vec::new();
            assert(cur@ =~= seq![]);
        } else {
            cur.push(c);
        }
        i = i + 1;
    }
    assert(s@.skip(i as int) =~= seq![]);
    if cur.len() > 0 {
        let ghost before = cells_view(out@);
        out.push(cur);
        assert(cells_view(out@) =~= before + flush(cur@));
    } else {
        assert(cells_view(out@) + flush(cur@) =~= cells_view(out@));
    }
    out
}

/// The pieces of `s` between occurrences of `sep`, the first one starting with `cur`
/// (what `str::split` yields: there is always at least one, possibly empty).
pub open spec fn split_from(s: Seq<char>, sep: char, cur: Seq<char>) -> Seq<Seq<char>>
    decreases s.len(),
{
    if s.len() == 0 {
        seq![cur]
    } else if s[0] == sep {
        seq![cur] + split_from(s.drop_first(), sep, seq![])
    } else {
        split_from(s.drop_first(), sep, cur.push(s[0]))
    }
}

/// Splits `s` at every `sep`.
pub fn split_at_char(s: &Vec<char>, sep: char) -> (r: Vec<Vec<char>>)
    ensures
        cells_view(r@) == split_from(s@, sep, seq![]),
{
    let mut out: Vec<Vec<char>> = Vec::new();
    let mut cur: Vec<char> = Vec::new();
    let mut i: usize = 0;
    assert(s@.skip(0) =~= s@);
    assert(cells_view(out@) + split_from(s@, sep, cur@) =~= split_from(s@, sep, seq![]));
    while i < s.len()
        invariant
            i <= s@.len(),
            cells_view(out@) + split_from(s@.skip(i as int), sep, cur@) == split_from(s@, sep, seq![]),
        decreases s@.len() - i,
    {
        let c = s[i];
        let ghost rest = s@.skip(i as int);
        assert(rest.drop_first() =~= s@.skip(i + 1));
        assert(rest[0] == c);
        if c == sep {
            let ghost before = cells_view(out@);
            out.push(cur);
            assert(cells_view(out@) =~= before + seq![cur@]);
            cur = Vec::new();
            assert(cur@ =~= seq![]);
        } else {
            cur.push(c);
        }
        i = i + 1;
    }
    assert(s@.skip(i as int) =~= seq![]);
    let ghost before = cells_view(out@);
    out.push(cur);
    assert(cells_view(out@) =~= before + seq![cur@]);
    out
}

/// The pieces joined with `sep` between them.
pub open spec fn join(parts: Seq<Seq<char>>, sep: char) -> Seq<char>
    decreases parts.len(),
{
    if parts.len() == 0 {
        seq![]
    } else if parts.len() == 1 {
        parts[0]
    } else {
        join(parts.drop_last(), sep) + seq![sep] + parts.last()
    }
}

/// Joins the pieces with `sep` between them.
pub fn join_with(parts: &Vec<Vec<char>>, sep: char) -> (r: Vec<char>)
    ensures
        r@ == join(cells_view(parts@), sep),
{
    let ghost all = cells_view(parts@);
    let mut out: Vec<char> = Vec::new();
    let mut i: usize = 0;
    while i < parts.len()
        invariant
            i <= parts@.len(),
            all == cells_view(parts@),
            out@ == join(all.take(i as int), sep),
        decreases parts@.len() - i,
    {
        if i > 0 {
            out.push(sep);
        }
        append_chars(&mut out, &parts[i]);
        assert(all.take(i + 1).drop_last() =~= all.take(i as int));
        assert(all.take(i + 1).last() == parts@[i as int]@);
        i = i + 1;
    }
    assert(all.take(i as int) =~= all);
    out
}

} // verus!

verus! {

/// No white space and no `/` in `s`.
pub open spec fn plain_chars(s: Seq<char>) -> bool {
    forall|j: int| 0 <= j < s.len() ==> !is_ws(#[trigger] s[j]) && s[j] != '/'
}

/// No white space in `s`.
pub open spec fn no_ws(s: Seq<char>) -> bool {
    forall|j: int| 0 <= j < s.len() ==> !is_ws(#[trigger] s[j])
}

/// A run of characters without white space continues the current word.
pub proof fn lemma_words_over_word(w: Seq<char>, rest: Seq<char>, cur: Seq<char>)
    requires
        no_ws(w),
    ensures
        words_from(w + rest, cur) == words_from(rest, cur + w),
    decreases w.len(),
{
    if w.len() == 0 {
        assert(w + rest =~= rest);
        assert(cur + w =~= cur);
    } else {
        assert((w + rest)[0] == w[0]);
        assert((w + rest).drop_first() =~= w.drop_first() + rest);
        lemma_words_over_word(w.drop_first(), rest, cur.push(w[0]));
        assert(cur.push(w[0]) + w.drop_first() =~= cur + w);
    }
}

/// A space ends the current word.
pub proof fn lemma_words_at_space(rest: Seq<char>, cur: Seq<char>)
    ensures
        words_from(seq![' '] + rest, cur) == flush(cur) + words_from(rest, seq![]),
{
    assert((seq![' '] + rest)[0] == ' ');
    assert((seq![' '] + rest).drop_first() =~= rest);
}

/// The words of a text made of four words after `sfen`, separated by single spaces.
pub proof fn lemma_words_of_fields(b: Seq<char>, t: Seq<char>, h: Seq<char>, m: Seq<char>)
    requires
        b.len() > 0 && t.len() > 0 && h.len() > 0 && m.len() > 0,
        no_ws(b) && no_ws(t) && no_ws(h) && no_ws(m),
    ensures
        words(seq!['s', 'f', 'e', 'n', ' '] + b + seq![' '] + t + seq![' '] + h + seq![' '] + m) == seq![
            seq!['s', 'f', 'e', 'n'],
            b,
            t,
            h,
            m,
        ],
{
    let sf = seq!['s', 'f', 'e', 'n'];
    let sp = seq![' '];
    let e = Seq::<char>::empty();
    let s5 = m;
    let s4 = sp + s5;
    let s3 = h + s4;
    let s2 = sp + s3;
    let s1 = t + s2;
    let s0 = sp + s1;
    let r = b + s0;
    let q = sp + r;
    assert(seq!['s', 'f', 'e', 'n', ' '] + b + sp + t + sp + h + sp + m =~= sf + q);
    assert(no_ws(sf));
    lemma_words_over_word(sf, q, e);
    assert(e + sf =~= sf);
    lemma_words_at_space(r, sf);
    lemma_words_over_word(b, s0, e);
    assert(e + b =~= b);
    lemma_words_at_space(s1, b);
    lemma_words_over_word(t, s2, e);
    assert(e + t =~= t);
    lemma_words_at_space(s3, t);
    lemma_words_over_word(h, s4, e);
    assert(e + h =~= h);
    lemma_words_at_space(s5, h);
    lemma_words_over_word(m, e, e);
    assert(m + e =~= m);
    assert(e + m =~= m);
    assert(words_from(e, m) == seq![m]);
    assert(flush(sf) + (flush(b) + (flush(t) + (flush(h) + seq![m]))) =~= seq![sf, b, t, h, m]);
}

/// Every word is a non-empty run without white space.
pub proof fn lemma_words_are_words(s: Seq<char>, cur: Seq<char>)
    requires
        no_ws(cur),
    ensures
        forall|i: int| 0 <= i < words_from(s, cur).len() ==> #[trigger] words_from(s, cur)[i].len() > 0 && no_ws(words_from(s, cur)[i]),
    decreases s.len(),
{
    if s.len() == 0 {
        assert(words_from(s, cur) == flush(cur));
        if cur.len() > 0 {
            assert(flush(cur)[0] == cur);
        }
    } else {
        if is_ws(s[0]) {
            lemma_words_are_words(s.drop_first(), seq![]);
            let f = flush(cur);
            let w = words_from(s.drop_first(), seq![]);
            assert(words_from(s, cur) == f + w);
            assert forall|i: int| 0 <= i < (f + w).len() implies #[trigger] (f + w)[i].len() > 0 && no_ws((f + w)[i]) by {
                if i < f.len() {
                    assert((f + w)[i] == cur);
                } else {
                    assert((f + w)[i] == w[i - f.len()]);
                }
            }
        } else {
            assert(no_ws(cur.push(s[0]))) by {
                assert forall|j: int| 0 <= j < cur.push(s[0]).len() implies !is_ws(#[trigger] cur.push(s[0])[j]) by {
                    if j < cur.len() {
                        assert(cur.push(s[0])[j] == cur[j]);
                    }
                }
            }
            lemma_words_are_words(s.drop_first(), cur.push(s[0]));
            assert(words_from(s, cur) == words_from(s.drop_first(), cur.push(s[0])));
        }
    }
}

/// A run without `sep` continues the current piece.
pub proof fn lemma_split_over(a: Seq<char>, rest: Seq<char>, sep: char, cur: Seq<char>)
    requires
        forall|j: int| 0 <= j < a.len() ==> a[j] != sep,
    ensures
        split_from(a + rest, sep, cur) == split_from(rest, sep, cur + a),
    decreases a.len(),
{
    if a.len() == 0 {
        assert(a + rest =~= rest);
        assert(cur + a =~= cur);
    } else {
        assert((a + rest)[0] == a[0]);
        assert((a + rest).drop_first() =~= a.drop_first() + rest);
        lemma_split_over(a.drop_first(), rest, sep, cur.push(a[0]));
        assert(cur.push(a[0]) + a.drop_first() =~= cur + a);
    }
}

/// Joining at least two pieces: the first, the separator, then the others joined.
pub proof fn lemma_join_front(parts: Seq<Seq<char>>, sep: char)
    requires
        parts.len() >= 2,
    ensures
        join(parts, sep) == parts[0] + seq![sep] + join(parts.drop_first(), sep),
    decreases parts.len(),
{
    let dl = parts.drop_last();
    let df = parts.drop_first();
    if parts.len() == 2 {
        assert(join(dl, sep) == parts[0]);
        assert(join(df, sep) == parts[1]);
    } else {
        lemma_join_front(dl, sep);
        assert(dl.drop_first() =~= df.drop_last());
        assert(df.last() == parts.last());
        assert(join(df, sep) == join(df.drop_last(), sep) + seq![sep] + df.last());
        let a = parts[0];
        let m = join(dl.drop_first(), sep);
        assert(a + seq![sep] + m + seq![sep] + parts.last() =~= a + seq![sep] + (m + seq![sep] + parts.last()));
    }
}

/// Splitting joined pieces that do not hold the separator gives the pieces back.
pub proof fn lemma_split_join(parts: Seq<Seq<char>>, sep: char)
    requires
        parts.len() >= 1,
        forall|i: int, j: int| 0 <= i < parts.len() && 0 <= j < parts[i].len() ==> #[trigger] parts[i][j] != sep,
    ensures
        split_from(join(parts, sep), sep, seq![]) == parts,
    decreases parts.len(),
{
    let e = Seq::<char>::empty();
    if parts.len() == 1 {
        lemma_split_over(parts[0], e, sep, e);
        assert(parts[0] + e =~= parts[0]);
        assert(e + parts[0] =~= parts[0]);
        assert(seq![parts[0]] =~= parts);
    } else {
        lemma_join_front(parts, sep);
        let rest = join(parts.drop_first(), sep);
        assert(parts[0] + seq![sep] + rest =~= parts[0] + (seq![sep] + rest));
        lemma_split_over(parts[0], seq![sep] + rest, sep, e);
        assert(e + parts[0] =~= parts[0]);
        assert((seq![sep] + rest)[0] == sep);
        assert((seq![sep] + rest).drop_first() =~= rest);
        lemma_split_join(parts.drop_first(), sep);
        assert(seq![parts[0]] + parts.drop_first() =~= parts);
    }
}

/// The decimal digits of a number are digits.
pub proof fn lemma_digits_are_digits(n: nat)
    ensures
        forall|j: int| 0 <= j < digits(n).len() ==> '0' <= #[trigger] digits(n)[j] <= '9',
        digits(n).len() > 0,
    decreases n,
{
    if n >= 10 {
        lemma_digits_are_digits(n / 10);
    }
}

} // verus!

verus! {

/// The pieces of a text without white space, split at `/`, have neither.
pub proof fn lemma_split_plain(s: Seq<char>, cur: Seq<char>)
    requires
        no_ws(s),
        plain_chars(cur),
    ensures
        forall|i: int| 0 <= i < split_from(s, '/', cur).len() ==> plain_chars(#[trigger] split_from(s, '/', cur)[i]),
    decreases s.len(),
{
    if s.len() == 0 {
        assert(split_from(s, '/', cur) == seq![cur]);
    } else {
        let rest = s.drop_first();
        assert(no_ws(rest)) by {
            assert forall|j: int| 0 <= j < rest.len() implies !is_ws(#[trigger] rest[j]) by {
                assert(rest[j] == s[j + 1]);
            }
        }
        assert(!is_ws(s[0]));
        if s[0] == '/' {
            lemma_split_plain(rest, seq![]);
            let w = split_from(rest, '/', seq![]);
            assert(split_from(s, '/', cur) == seq![cur] + w);
            assert forall|i: int| 0 <= i < (seq![cur] + w).len() implies plain_chars(#[trigger] (seq![cur] + w)[i]) by {
                if i > 0 {
                    assert((seq![cur] + w)[i] == w[i - 1]);
                }
            }
        } else {
            let c2 = cur.push(s[0]);
            assert(plain_chars(c2)) by {
                assert forall|j: int| 0 <= j < c2.len() implies !is_ws(#[trigger] c2[j]) && c2[j] != '/' by {
                    if j < cur.len() {
                        assert(c2[j] == cur[j]);
                    }
                }
            }
            lemma_split_plain(rest, c2);
            assert(split_from(s, '/', cur) == split_from(rest, '/', c2));
        }
    }
}

/// Joining pieces without white space or `/` with `/` gives a text without white space.
pub proof fn lemma_join_no_ws(parts: Seq<Seq<char>>)
    requires
        forall|i: int| 0 <= i < parts.len() ==> plain_chars(#[trigger] parts[i]),
    ensures
        no_ws(join(parts, '/')),
    decreases parts.len(),
{
    if parts.len() > 1 {
        let dl = parts.drop_last();
        assert forall|i: int| 0 <= i < dl.len() implies plain_chars(#[trigger] dl[i]) by {
            assert(dl[i] == parts[i]);
        }
        lemma_join_no_ws(dl);
        let a = join(dl, '/');
        let b = seq!['/'];
        let c = parts.last();
        assert(plain_chars(parts[parts.len() - 1]));
        assert forall|j: int| 0 <= j < (a + b + c).len() implies !is_ws(#[trigger] (a + b + c)[j]) by {
            if j < a.len() {
                assert((a + b + c)[j] == a[j]);
            } else if j < a.len() + 1 {
                assert((a + b + c)[j] == '/');
            } else {
                assert((a + b + c)[j] == c[j - a.len() - 1]);
            }
        }
    } else if parts.len() == 1 {
        assert(plain_chars(parts[0]));
    }
}

} // verus!
