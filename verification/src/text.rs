//! Text processing for the engine: cutting source text into lines,
//! right-padding lines into a rectangular grid, and trimming input lines.
//!
//! Lines are separated by `'\n'`; a line ending in `'\r'` has that carriage
//! return removed, and a trailing separator does not open a final empty
//! line.  These specification functions are the vocabulary all grid
//! contracts are written in.

use vstd::prelude::*;
use vstd::string::StrSliceExecFns;

verus! {

/// Index of the first `'\n'` in `s`, or `s.len()` if there is none.
pub open spec fn first_newline(s: Seq<char>) -> nat
    decreases s.len(),
{
    if s.len() == 0 {
        0
    } else if s[0] == '\n' {
        0
    } else {
        (first_newline(s.drop_first()) + 1) as nat
    }
}

/// A line with a trailing carriage return removed.
pub open spec fn strip_cr(l: Seq<char>) -> Seq<char> {
    if l.len() > 0 && l.last() == '\r' {
        l.drop_last()
    } else {
        l
    }
}

/// The lines of `s`: segments separated by `'\n'`, each stripped of a
/// trailing `'\r'`.  A trailing separator yields no final empty line, so
/// the empty text has no lines at all.
pub open spec fn split_lines(s: Seq<char>) -> Seq<Seq<char>>
    decreases s.len(),
{
    if s.len() == 0 {
        Seq::empty()
    } else {
        let k = first_newline(s);
        if k >= s.len() {
            seq![strip_cr(s)]
        } else {
            seq![strip_cr(s.take(k as int))] + split_lines(s.skip(k as int + 1))
        }
    }
}

/// The length of the longest row, or 0 when there are no rows.
pub open spec fn max_line_len(rows: Seq<Seq<char>>) -> int
    decreases rows.len(),
{
    if rows.len() == 0 {
        0
    } else {
        let m = max_line_len(rows.drop_last());
        if rows.last().len() > m {
            rows.last().len() as int
        } else {
            m
        }
    }
}

/// `l` right-padded with spaces to width `w` (and truncated if `w` is
/// shorter, which the grid construction never asks for).
pub open spec fn pad_line(l: Seq<char>, w: int) -> Seq<char> {
    Seq::new(w as nat, |i: int| if i < l.len() { l[i] } else { ' ' })
}

/// The width of the grid built from source text `s`.
pub open spec fn source_width(s: Seq<char>) -> int {
    max_line_len(split_lines(s))
}

/// Every row padded to width `w`.
pub open spec fn pad_rows_spec(rows: Seq<Seq<char>>, w: int) -> Seq<Seq<char>> {
    rows.map_values(|l: Seq<char>| pad_line(l, w))
}

/// The rectangular grid built from source text `s`: its lines, each
/// right-padded with spaces to the longest line's length.
pub open spec fn grid_of(s: Seq<char>) -> Seq<Seq<char>> {
    pad_rows_spec(split_lines(s), source_width(s))
}

/// The views of a vector of rows.
pub open spec fn rows_view(rows: Seq<Vec<char>>) -> Seq<Seq<char>> {
    rows.map_values(|r: Vec<char>| r@)
}

/// What a vector of rows looks like, element by element.
pub proof fn lemma_rows_view(rows: Seq<Vec<char>>)
    ensures
        rows_view(rows).len() == rows.len(),
        forall|i: int| 0 <= i < rows.len() ==> #[trigger] rows_view(rows)[i] == rows[i]@,
{
}

pub proof fn lemma_first_newline_at(t: Seq<char>, k: int)
    requires
        0 <= k <= t.len(),
        forall|j: int| 0 <= j < k ==> t[j] != '\n',
        k < t.len() ==> t[k] == '\n',
    ensures
        first_newline(t) == k,
    decreases k,
{
    if k == 0 {
    } else {
        assert(t[0] != '\n');
        assert forall|j: int| 0 <= j < k - 1 implies t.drop_first()[j] != '\n' by {
            assert(t.drop_first()[j] == t[j + 1]);
        }
        if k - 1 < t.drop_first().len() {
            assert(t.drop_first()[k - 1] == t[k]);
        }
        lemma_first_newline_at(t.drop_first(), k - 1);
    }
}

/// A source text has no more lines than characters, and no line longer
/// than the whole text.
pub proof fn lemma_split_lines_bounds(s: Seq<char>)
    ensures
        split_lines(s).len() <= s.len(),
        forall|i: int| 0 <= i < split_lines(s).len() ==> #[trigger] split_lines(s)[i].len()
            <= s.len(),
    decreases s.len(),
{
    if s.len() == 0 {
    } else {
        let k = first_newline(s);
        if k >= s.len() {
        } else {
            let tail = s.skip(k as int + 1);
            lemma_split_lines_bounds(tail);
            assert forall|i: int| 0 <= i < split_lines(s).len() implies #[trigger] split_lines(
                s,
            )[i].len() <= s.len() by {
                if i == 0 {
                    assert(split_lines(s)[0] == strip_cr(s.take(k as int)));
                } else {
                    assert(split_lines(s)[i] == split_lines(tail)[i - 1]);
                }
            }
        }
    }
}

pub proof fn lemma_max_line_len_props(rows: Seq<Seq<char>>)
    ensures
        0 <= max_line_len(rows),
        forall|i: int| 0 <= i < rows.len() ==> #[trigger] rows[i].len() <= max_line_len(rows),
    decreases rows.len(),
{
    if rows.len() == 0 {
    } else {
        lemma_max_line_len_props(rows.drop_last());
        assert forall|i: int| 0 <= i < rows.len() implies #[trigger] rows[i].len() <= max_line_len(
            rows,
        ) by {
            if i < rows.len() - 1 {
                assert(rows.drop_last()[i] == rows[i]);
            } else {
                assert(rows[i] == rows.last());
            }
        }
    }
}

pub proof fn lemma_max_line_len_le(rows: Seq<Seq<char>>, b: int)
    requires
        0 <= b,
        forall|i: int| 0 <= i < rows.len() ==> #[trigger] rows[i].len() <= b,
    ensures
        max_line_len(rows) <= b,
    decreases rows.len(),
{
    if rows.len() == 0 {
    } else {
        assert forall|i: int| 0 <= i < rows.drop_last().len() implies #[trigger] rows.drop_last()[i].len()
            <= b by {
            assert(rows.drop_last()[i] == rows[i]);
        }
        lemma_max_line_len_le(rows.drop_last(), b);
        assert(rows.last() == rows[rows.len() - 1]);
    }
}

/// Dimensions of the grid built from `s`: both fit in the source length,
/// and a positive width forces a positive height.
pub proof fn lemma_source_dims(s: Seq<char>)
    ensures
        0 <= source_width(s) <= s.len(),
        split_lines(s).len() <= s.len(),
        source_width(s) > 0 ==> split_lines(s).len() > 0,
{
    lemma_split_lines_bounds(s);
    lemma_max_line_len_props(split_lines(s));
    lemma_max_line_len_le(split_lines(s), s.len() as int);
}

/// Grid padding law: for any source text, every row of the constructed
/// grid has the same length, the length of the longest source line; each
/// row starts with its source line and is right-padded with spaces.
pub proof fn lemma_grid_padding(s: Seq<char>)
    ensures
        grid_of(s).len() == split_lines(s).len(),
        forall|i: int| 0 <= i < grid_of(s).len() ==> #[trigger] grid_of(s)[i].len() == source_width(
            s,
        ),
        forall|i: int, j: int|
            0 <= i < grid_of(s).len() && 0 <= j < split_lines(s)[i].len() ==> #[trigger] grid_of(
                s,
            )[i][j] == split_lines(s)[i][j],
        forall|i: int, j: int|
            0 <= i < grid_of(s).len() && split_lines(s)[i].len() <= j < source_width(s)
                ==> #[trigger] grid_of(s)[i][j] == ' ',
{
    lemma_max_line_len_props(split_lines(s));
    assert forall|i: int| 0 <= i < grid_of(s).len() implies #[trigger] grid_of(s)[i].len()
        == source_width(s) by {
        assert(grid_of(s)[i] == pad_line(split_lines(s)[i], source_width(s)));
    }
    assert forall|i: int, j: int|
        0 <= i < grid_of(s).len() && 0 <= j < split_lines(s)[i].len() implies #[trigger] grid_of(
        s,
    )[i][j] == split_lines(s)[i][j] by {
        assert(grid_of(s)[i] == pad_line(split_lines(s)[i], source_width(s)));
    }
    assert forall|i: int, j: int|
        0 <= i < grid_of(s).len() && split_lines(s)[i].len() <= j < source_width(s)
        implies #[trigger] grid_of(s)[i][j] == ' ' by {
        assert(grid_of(s)[i] == pad_line(split_lines(s)[i], source_width(s)));
    }
}

/// The characters of `s`, in order.
pub fn chars_of(s: &str) -> (v: Vec<char>)
    ensures
        v@ == s@,
{
    let n = s.unicode_len();
    let mut v: Vec<char> = Vec::new();
    let mut i: usize = 0;
    while i < n
        invariant
            i <= n,
            n == s@.len(),
            v@ == s@.take(i as int),
        decreases n - i,
    {
        v.push(s.get_char(i));
        proof {
            assert(v@ =~= s@.take(i as int + 1));
        }
        i += 1;
    }
    proof {
        assert(v@ =~= s@);
    }
    v
}

fn strip_trailing_cr(l: Vec<char>) -> (r: Vec<char>)
    ensures
        r@ == strip_cr(l@),
{
    let mut r = l;
    if r.len() > 0 && r[r.len() - 1] == '\r' {
        r.pop();
    }
    r
}

proof fn lemma_rows_view_push(rows: Seq<Vec<char>>, r: Vec<char>)
    ensures
        rows_view(rows.push(r)) =~= rows_view(rows).push(r@),
{
}

/// Cut a source text into its lines.
pub fn split_source(chars: &Vec<char>) -> (rows: Vec<Vec<char>>)
    ensures
        rows_view(rows@) == split_lines(chars@),
{
    let ghost s = chars@;
    let mut rows: Vec<Vec<char>> = Vec::new();
    let mut cur: Vec<char> = Vec::new();
    let mut start: usize = 0;
    let mut i: usize = 0;
    proof {
        assert(s.skip(0) =~= s);
    }
    while i < chars.len()
        invariant
            0 <= start as int <= i as int <= chars.len(),
            s == chars@,
            cur@ == s.subrange(start as int, i as int),
            forall|k: int| start <= k < i ==> s[k] != '\n',
            start == 0 || s[start as int - 1] == '\n',
            split_lines(s) == rows_view(rows@) + split_lines(s.skip(start as int)),
        decreases chars.len() - i,
    {
        let c = chars[i];
        if c == '\n' {
            proof {
                let t = s.skip(start as int);
                assert forall|j: int| 0 <= j < i - start implies t[j] != '\n' by {
                    assert(t[j] == s[start + j]);
                }
                assert(t[i - start] == s[i as int]);
                lemma_first_newline_at(t, i - start);
                assert(t.take(i - start) =~= s.subrange(start as int, i as int));
                assert(t.skip(i - start + 1) =~= s.skip(i as int + 1));
                assert(split_lines(t) == seq![strip_cr(cur@)] + split_lines(s.skip(i as int + 1)));
            }
            let ghost rows_before = rows@;
            let finished = strip_trailing_cr(cur);
            rows.push(finished);
            cur = Vec::new();
            proof {
                lemma_rows_view_push(rows_before, finished);
                assert(rows_view(rows@) + split_lines(s.skip(i as int + 1)) =~= rows_view(
                    rows_before,
                ) + (seq![strip_cr(s.subrange(start as int, i as int))] + split_lines(
                    s.skip(i as int + 1),
                )));
                assert(split_lines(s) == rows_view(rows@) + split_lines(s.skip(i as int + 1)));
            }
            start = i + 1;
            proof {
                assert(cur@ =~= s.subrange(start as int, i as int + 1));
            }
        } else {
            cur.push(c);
            proof {
                assert(cur@ =~= s.subrange(start as int, i as int + 1));
            }
        }
        i += 1;
    }
    if start < chars.len() {
        proof {
            let t = s.skip(start as int);
            assert forall|j: int| 0 <= j < t.len() implies t[j] != '\n' by {
                assert(t[j] == s[start + j]);
            }
            lemma_first_newline_at(t, t.len() as int);
            assert(t =~= s.subrange(start as int, s.len() as int));
            assert(split_lines(t) == seq![strip_cr(cur@)]);
        }
        let ghost rows_before = rows@;
        let finished = strip_trailing_cr(cur);
        rows.push(finished);
        proof {
            lemma_rows_view_push(rows_before, finished);
            assert(rows_view(rows@) =~= rows_view(rows_before) + seq![strip_cr(
                s.subrange(start as int, s.len() as int),
            )]);
            assert(rows_view(rows@) =~= split_lines(s));
        }
    } else {
        proof {
            assert(s.skip(start as int) =~= Seq::<char>::empty());
            assert(rows_view(rows@) + split_lines(s.skip(start as int)) =~= rows_view(rows@));
        }
    }
    rows
}

/// The length of the longest row.
pub fn max_width(rows: &Vec<Vec<char>>) -> (w: usize)
    ensures
        w as int == max_line_len(rows_view(rows@)),
{
    let ghost rv = rows_view(rows@);
    let mut w: usize = 0;
    let mut i: usize = 0;
    while i < rows.len()
        invariant
            i <= rows.len(),
            rv == rows_view(rows@),
            w as int == max_line_len(rv.take(i as int)),
        decreases rows.len() - i,
    {
        let l = rows[i].len();
        if l > w {
            w = l;
        }
        proof {
            assert(rv.take(i as int + 1).drop_last() =~= rv.take(i as int));
            assert(rv.take(i as int + 1).last() == rows@[i as int]@);
        }
        i += 1;
    }
    proof {
        assert(rv.take(rows.len() as int) =~= rv);
    }
    w
}

/// Every row right-padded with spaces to width `w`.
pub fn pad_rows(rows: &Vec<Vec<char>>, w: usize) -> (padded: Vec<Vec<char>>)
    requires
        forall|i: int| 0 <= i < rows@.len() ==> #[trigger] rows@[i]@.len() <= w,
    ensures
        rows_view(padded@) == pad_rows_spec(rows_view(rows@), w as int),
{
    let mut padded: Vec<Vec<char>> = Vec::new();
    let mut i: usize = 0;
    while i < rows.len()
        invariant
            i <= rows.len(),
            forall|k: int| 0 <= k < rows@.len() ==> #[trigger] rows@[k]@.len() <= w,
            padded@.len() == i,
            forall|k: int|
                0 <= k < i ==> #[trigger] padded@[k]@ == pad_line(rows@[k]@, w as int),
        decreases rows.len() - i,
    {
        let row = &rows[i];
        let ghost l = row@;
        let mut nr: Vec<char> = Vec::new();
        let mut j: usize = 0;
        while j < row.len()
            invariant
                j <= row.len(),
                l == row@,
                nr@ == l.take(j as int),
            decreases row.len() - j,
        {
            nr.push(row[j]);
            proof {
                assert(nr@ =~= l.take(j as int + 1));
            }
            j += 1;
        }
        proof {
            assert(nr@ =~= l);
            assert(nr@ =~= pad_line(l, nr@.len() as int));
        }
        while nr.len() < w
            invariant
                l.len() <= nr@.len() <= w,
                nr@ == pad_line(l, nr@.len() as int),
            decreases w - nr.len(),
        {
            nr.push(' ');
            proof {
                assert(nr@ =~= pad_line(l, nr@.len() as int));
            }
        }
        padded.push(nr);
        i += 1;
    }
    proof {
        assert(rows_view(padded@) =~= pad_rows_spec(rows_view(rows@), w as int));
    }
    padded
}

/// Unicode white space, the set `str::trim` removes at both ends.
pub open spec fn is_space_char(c: char) -> bool {
    let u = c as u32;
    (9 <= u && u <= 13) || u == 32 || u == 0x85 || u == 0xa0 || u == 0x1680 || (0x2000 <= u && u
        <= 0x200a) || u == 0x2028 || u == 0x2029 || u == 0x202f || u == 0x205f || u == 0x3000
}

fn is_space(c: char) -> (r: bool)
    ensures
        r == is_space_char(c),
{
    let u = c as u32;
    (9 <= u && u <= 13) || u == 32 || u == 0x85 || u == 0xa0 || u == 0x1680 || (0x2000 <= u && u
        <= 0x200a) || u == 0x2028 || u == 0x2029 || u == 0x202f || u == 0x205f || u == 0x3000
}

/// `s` with leading white space removed.
pub open spec fn trim_front(s: Seq<char>) -> Seq<char>
    decreases s.len(),
{
    if s.len() > 0 && is_space_char(s[0]) {
        trim_front(s.drop_first())
    } else {
        s
    }
}

/// `s` with trailing white space removed.
pub open spec fn trim_back(s: Seq<char>) -> Seq<char>
    decreases s.len(),
{
    if s.len() > 0 && is_space_char(s.last()) {
        trim_back(s.drop_last())
    } else {
        s
    }
}

/// `s` with white space removed at both ends, as `str::trim` leaves it.
pub open spec fn trim_spec(s: Seq<char>) -> Seq<char> {
    trim_back(trim_front(s))
}

/// White space trimmed from both ends of a line.
pub fn trim_chars(v: &Vec<char>) -> (r: Vec<char>)
    ensures
        r@ == trim_spec(v@),
{
    let ghost s = v@;
    let mut lo: usize = 0;
    proof {
        assert(s.skip(0) =~= s);
    }
    while lo < v.len() && is_space(v[lo])
        invariant
            0 <= lo as int <= v.len(),
            s == v@,
            trim_front(s) == trim_front(s.skip(lo as int)),
        decreases v.len() - lo,
    {
        proof {
            let t = s.skip(lo as int);
            assert(t[0] == s[lo as int]);
            assert(t.drop_first() =~= s.skip(lo as int + 1));
        }
        lo += 1;
    }
    proof {
        let t = s.skip(lo as int);
        if t.len() > 0 {
            assert(t[0] == s[lo as int]);
        }
        assert(trim_front(s) == t);
    }
    let mut hi: usize = v.len();
    while hi > lo && is_space(v[hi - 1])
        invariant
            lo as int <= hi as int <= v.len(),
            s == v@,
            trim_front(s) == s.skip(lo as int),
            trim_back(s.skip(lo as int)) == trim_back(s.subrange(lo as int, hi as int)),
        decreases hi,
    {
        proof {
            let t = s.subrange(lo as int, hi as int);
            assert(t.last() == s[hi as int - 1]);
            assert(t.drop_last() =~= s.subrange(lo as int, hi as int - 1));
        }
        hi -= 1;
    }
    proof {
        let t = s.subrange(lo as int, hi as int);
        if t.len() > 0 {
            assert(t.last() == s[hi as int - 1]);
        }
        assert(trim_back(s.skip(lo as int)) == t);
    }
    let mut r: Vec<char> = Vec::new();
    let mut k: usize = lo;
    while k < hi
        invariant
            lo as int <= k as int <= hi as int <= v.len(),
            s == v@,
            r@ == s.subrange(lo as int, k as int),
        decreases hi - k,
    {
        r.push(v[k]);
        proof {
            assert(r@ =~= s.subrange(lo as int, k as int + 1));
        }
        k += 1;
    }
    proof {
        assert(r@ =~= s.subrange(lo as int, hi as int));
    }
    r
}

} // verus!
