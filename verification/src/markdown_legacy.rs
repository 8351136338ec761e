//! Compatibility transforms for Markdown written by earlier editors: legacy
//! `@cols=N:` table headings become regular Markdown table rows.
use vstd::prelude::*;

use crate::text::{
    chars_of, find_in_range, first_index_of, is_white_space, join, lacks, occurs_at, occurs_in, push_char,
    push_range, range_contains, range_pieces, range_starts_with, ranges_within, split_on, split_ranges,
    starts_with, trim, trim_colons, trim_end_by, trim_range, trim_start_by, trimmed_char,
};

verus! {

/// The line ending used when lines are joined again: `\r\n` when the text holds one.
pub open spec fn ending_of(md: Seq<char>) -> Seq<char> {
    if occurs_in(md, seq!['\r', '\n']) {
        seq!['\r', '\n']
    } else {
        seq!['\n']
    }
}

/// A line without one trailing carriage return.
pub open spec fn strip_cr(line: Seq<char>) -> Seq<char> {
    if line.len() > 0 && line.last() == '\r' {
        line.drop_last()
    } else {
        line
    }
}

/// `str::split_terminator('\n')`: the pieces between line feeds, without a final empty piece.
pub open spec fn split_terminator_lines(md: Seq<char>) -> Seq<Seq<char>> {
    let p = split_on(md, '\n');
    if p.last().len() == 0 {
        p.drop_last()
    } else {
        p
    }
}

/// The lines of a Markdown text, each without a trailing carriage return.
pub open spec fn markdown_lines(md: Seq<char>) -> Seq<Seq<char>> {
    split_terminator_lines(md).map_values(|l: Seq<char>| strip_cr(l))
}

/// The trimmed text between a leading and a trailing `|`, when both are present.
pub open spec fn strip_pipes(s: Seq<char>) -> Option<Seq<char>> {
    let t = trim(s);
    if t.len() >= 2 && t[0] == '|' && t.last() == '|' {
        Some(t.subrange(1, t.len() - 1))
    } else {
        None
    }
}

pub open spec fn is_digit(c: char) -> bool {
    '0' <= c && c <= '9'
}

/// The decimal value of a sequence of digits.
pub open spec fn digits_value(s: Seq<char>) -> nat
    decreases s.len(),
{
    if s.len() == 0 {
        0
    } else {
        digits_value(s.drop_last()) * 10 + ((s.last() as u32 - '0' as u32) as nat)
    }
}

/// `usize::from_str`: an optional `+` followed by at least one decimal digit,
/// within the range of `usize`.
pub open spec fn sign_stripped(s: Seq<char>) -> Seq<char> {
    if s.len() > 0 && s[0] == '+' {
        s.drop_first()
    } else {
        s
    }
}

pub open spec fn parse_usize(s: Seq<char>) -> Option<nat> {
    let d = sign_stripped(s);
    if d.len() == 0 || exists|j: int| 0 <= j < d.len() && !is_digit(#[trigger] d[j]) {
        None
    } else if digits_value(d) <= usize::MAX {
        Some(digits_value(d))
    } else {
        None
    }
}

pub open spec fn cols_marker() -> Seq<char> {
    seq!['@', 'c', 'o', 'l', 's', '=']
}

/// The declared column count and title of a legacy `| @cols=N:title |` heading.
pub open spec fn legacy_heading(line: Seq<char>) -> Option<(nat, Seq<char>)> {
    match strip_pipes(line) {
        None => None,
        Some(inner) => {
            let row = trim(inner);
            if row.contains('|') || !starts_with(row, cols_marker()) {
                None
            } else {
                let rest = row.skip(6);
                match first_index_of(rest, ':') {
                    None => None,
                    Some(k) => match parse_usize(rest.take(k)) {
                        Some(n) => if n > 1 && trim(rest.skip(k + 1)).len() > 0 {
                            Some((n, trim(rest.skip(k + 1))))
                        } else {
                            None
                        },
                        None => None,
                    },
                }
            }
        },
    }
}

/// A divider cell: after trimming white space and then colons, three or more dashes only.
pub open spec fn divider_cell(cell: Seq<char>) -> bool {
    let d = trim_colons(trim(cell));
    d.len() >= 3 && forall|j: int| 0 <= j < d.len() ==> d[j] == '-'
}

/// The number of columns of a Markdown table divider row, when every cell is valid.
pub open spec fn divider_columns(line: Seq<char>) -> Option<nat> {
    match strip_pipes(line) {
        None => None,
        Some(row) => {
            let cells = split_on(row, '|');
            if forall|i: int| 0 <= i < cells.len() ==> divider_cell(#[trigger] cells[i]) {
                Some(cells.len())
            } else {
                None
            }
        },
    }
}

/// `t` repeated `n` times.
pub open spec fn repeat(t: Seq<char>, n: nat) -> Seq<char>
    decreases n,
{
    if n == 0 {
        Seq::<char>::empty()
    } else {
        repeat(t, (n - 1) as nat) + t
    }
}

/// `| heading |` followed by `n - 1` empty cells ` |`.
pub open spec fn regular_heading(heading: Seq<char>, n: nat) -> Seq<char> {
    seq!['|', ' '] + heading + seq![' ', '|'] + repeat(seq![' ', '|'], (n - 1) as nat)
}

/// The replacement of line `i`: a legacy heading whose next line is a divider of the declared width.
pub open spec fn line_replacement(lines: Seq<Seq<char>>, i: int) -> Option<Seq<char>> {
    match legacy_heading(lines[i]) {
        Some((n, h)) => if i + 1 < lines.len() && divider_columns(lines[i + 1]) == Some(n) {
            Some(regular_heading(h, n))
        } else {
            None
        },
        None => None,
    }
}

pub open spec fn normalized_lines(lines: Seq<Seq<char>>) -> Seq<Seq<char>> {
    Seq::new(
        lines.len(),
        |i: int|
            match line_replacement(lines, i) {
                Some(r) => r,
                None => lines[i],
            },
    )
}

pub open spec fn any_replaced(lines: Seq<Seq<char>>) -> bool {
    exists|i: int| 0 <= i < lines.len() && #[trigger] line_replacement(lines, i) is Some
}

/// The normalized text: the input itself when no line is replaced, otherwise the
/// lines joined again with the text's own line ending, keeping a final line ending.
pub open spec fn normalize_legacy(md: Seq<char>) -> Seq<char> {
    let lines = markdown_lines(md);
    if any_replaced(lines) {
        join(normalized_lines(lines), ending_of(md)) + if md.len() > 0 && md.last() == '\n' {
            ending_of(md)
        } else {
            Seq::<char>::empty()
        }
    } else {
        md
    }
}

proof fn lemma_digits_value_monotone(s: Seq<char>, k: int)
    requires
        0 <= k <= s.len(),
    ensures
        digits_value(s.take(k)) <= digits_value(s),
    decreases s.len() - k,
{
    if k < s.len() {
        lemma_digits_value_monotone(s, k + 1);
        assert(s.take(k + 1).drop_last() =~= s.take(k));
    } else {
        assert(s.take(k) =~= s);
    }
}

/// Parses `v[lo..hi]` as `usize::from_str` does.
pub fn parse_usize_range(v: &Vec<char>, lo: usize, hi: usize) -> (r: Option<usize>)
    requires
        lo <= hi <= v@.len(),
    ensures
        match r {
            Some(n) => parse_usize(v@.subrange(lo as int, hi as int)) == Some(n as nat),
            None => parse_usize(v@.subrange(lo as int, hi as int)) is None,
        },
{
    let ghost s = v@.subrange(lo as int, hi as int);
    let mut start = lo;
    if lo < hi && v[lo] == '+' {
        start = lo + 1;
    }
    let ghost d = v@.subrange(start as int, hi as int);
    proof {
        if lo < hi {
            assert(s[0] == v@[lo as int]);
        }
        if lo < hi && v@[lo as int] == '+' {
            assert(s.drop_first() =~= d);
        } else {
            assert(s =~= d);
        }
    }
    if start == hi {
        return None;
    }
    let mut acc: usize = 0;
    let mut i = start;
    while i < hi
        invariant
            lo <= start <= i <= hi <= v@.len(),
            d == v@.subrange(start as int, hi as int),
            s == v@.subrange(lo as int, hi as int),
            d == sign_stripped(s),
            forall|j: int| start <= j < i ==> is_digit(v@[j]),
            acc == digits_value(v@.subrange(start as int, i as int)),
        decreases hi - i,
    {
        let c = v[i];
        if !('0' <= c && c <= '9') {
            proof {
                assert(d[i - start] == v@[i as int]);
                assert(!is_digit(d[i - start]));
                assert(exists|j: int| 0 <= j < d.len() && !is_digit(#[trigger] d[j]));
                assert(parse_usize(s) is None);
            }
            return None;
        }
        proof {
            assert(v@.subrange(start as int, i + 1).drop_last() =~= v@.subrange(start as int, i as int));
        }
        let digit = (c as u32 - '0' as u32) as usize;
        if acc > (usize::MAX - digit) / 10 {
            proof {
                assert(acc * 10 + digit > usize::MAX) by (nonlinear_arith)
                    requires
                        acc > (usize::MAX - digit) / 10,
                        digit <= 9,
                ;
                assert(d.take(i + 1 - start) =~= v@.subrange(start as int, i + 1));
                lemma_digits_value_monotone(d, i + 1 - start);
            }
            return None;
        }
        proof {
            assert(acc * 10 + digit <= usize::MAX) by (nonlinear_arith)
                requires
                    acc <= (usize::MAX - digit) / 10,
                    digit <= 9,
            ;
        }
        acc = acc * 10 + digit;
        i = i + 1;
    }
    proof {
        assert(v@.subrange(start as int, hi as int) =~= d);
        assert forall|j: int| 0 <= j < d.len() implies is_digit(#[trigger] d[j]) by {
            assert(d[j] == v@[start + j]);
        }
    }
    Some(acc)
}


/// The range between the outer pipes of a trimmed row.
fn strip_pipes_range(v: &Vec<char>, lo: usize, hi: usize) -> (r: Option<(usize, usize)>)
    requires
        lo <= hi <= v@.len(),
    ensures
        match r {
            Some((a, b)) => lo <= a <= b <= hi && strip_pipes(v@.subrange(lo as int, hi as int))
                == Some(v@.subrange(a as int, b as int)),
            None => strip_pipes(v@.subrange(lo as int, hi as int)) is None,
        },
{
    let (a, b) = trim_range(v, lo, hi, false);
    let ghost t = v@.subrange(a as int, b as int);
    if b - a >= 2 && v[a] == '|' && v[b - 1] == '|' {
        proof {
            assert(t[0] == v@[a as int]);
            assert(t.last() == v@[b - 1]);
            assert(t.subrange(1, t.len() - 1) =~= v@.subrange(a + 1, b - 1));
        }
        Some((a + 1, b - 1))
    } else {
        proof {
            if b - a >= 2 {
                assert(t[0] == v@[a as int]);
                assert(t.last() == v@[b - 1]);
            }
        }
        None
    }
}

/// The legacy heading of `v[lo..hi]`: its column count and the range of its title.
fn legacy_heading_range(v: &Vec<char>, lo: usize, hi: usize) -> (r: Option<(usize, usize, usize)>)
    requires
        lo <= hi <= v@.len(),
    ensures
        match r {
            Some((n, a, b)) => lo <= a <= b <= hi && legacy_heading(
                v@.subrange(lo as int, hi as int),
            ) == Some((n as nat, v@.subrange(a as int, b as int))),
            None => legacy_heading(v@.subrange(lo as int, hi as int)) is None,
        },
{
    let p = strip_pipes_range(v, lo, hi);
    let (p0, p1) = match p {
        Some(range) => range,
        None => {
            return None;
        },
    };
    let (a, b) = trim_range(v, p0, p1, false);
    let ghost row = v@.subrange(a as int, b as int);
    if range_contains(v, a, b, '|') {
        return None;
    }
    let marker: Vec<char> = vec!['@', 'c', 'o', 'l', 's', '='];
    proof {
        assert(marker@ =~= cols_marker());
    }
    if !range_starts_with(v, a, b, &marker) {
        return None;
    }
    let start = a + 6;
    proof {
        assert(row.skip(6) =~= v@.subrange(start as int, b as int));
    }
    let k = match find_in_range(v, start, b, ':') {
        Some(k) => k,
        None => {
            return None;
        },
    };
    proof {
        let rest = row.skip(6);
        assert(rest.take(k - start) =~= v@.subrange(start as int, k as int));
        assert(rest.skip(k - start + 1) =~= v@.subrange(k + 1, b as int));
    }
    let n = match parse_usize_range(v, start, k) {
        Some(n) => n,
        None => {
            return None;
        },
    };
    let (hl, hh) = trim_range(v, k + 1, b, false);
    if n > 1 && hh > hl {
        Some((n, hl, hh))
    } else {
        None
    }
}

/// Whether `v[lo..hi]` is a divider cell.
#[verifier::loop_isolation(false)]
fn divider_cell_range(v: &Vec<char>, lo: usize, hi: usize) -> (b: bool)
    requires
        lo <= hi <= v@.len(),
    ensures
        b == divider_cell(v@.subrange(lo as int, hi as int)),
{
    let (a, b) = trim_range(v, lo, hi, false);
    let (c, d) = trim_range(v, a, b, true);
    if d - c < 3 {
        return false;
    }
    let mut i = c;
    while i < d
        invariant
            c <= i <= d <= v@.len(),
            forall|j: int| c <= j < i ==> v@[j] == '-',
        decreases d - i,
    {
        if v[i] != '-' {
            proof {
                assert(v@.subrange(c as int, d as int)[i - c] != '-');
            }
            return false;
        }
        i = i + 1;
    }
    proof {
        let dd = v@.subrange(c as int, d as int);
        assert forall|j: int| 0 <= j < dd.len() implies dd[j] == '-' by {
            assert(dd[j] == v@[c + j]);
        }
    }
    true
}

/// The number of columns of the divider row `v[lo..hi]`.
#[verifier::loop_isolation(false)]
fn divider_columns_range(v: &Vec<char>, lo: usize, hi: usize) -> (r: Option<usize>)
    requires
        lo <= hi <= v@.len(),
    ensures
        match r {
            Some(n) => divider_columns(v@.subrange(lo as int, hi as int)) == Some(n as nat),
            None => divider_columns(v@.subrange(lo as int, hi as int)) is None,
        },
{
    let (p0, p1) = match strip_pipes_range(v, lo, hi) {
        Some(range) => range,
        None => {
            return None;
        },
    };
    let cells = split_ranges(v, p0, p1, '|');
    let ghost pieces = range_pieces(v@, cells@);
    let mut i: usize = 0;
    while i < cells.len()
        invariant
            0 <= i <= cells@.len(),
            ranges_within(cells@, p0 as int, p1 as int),
            p1 <= v@.len(),
            pieces == range_pieces(v@, cells@),
            forall|j: int| 0 <= j < i ==> divider_cell(#[trigger] pieces[j]),
        decreases cells.len() - i,
    {
        let (c0, c1) = cells[i];
        if !divider_cell_range(v, c0, c1) {
            proof {
                assert(!divider_cell(pieces[i as int]));
            }
            return None;
        }
        i = i + 1;
    }
    Some(cells.len())
}

/// Extracts the declared column count and title of a legacy table heading.
pub fn legacy_table_heading(line: &str) -> (r: Option<(usize, &str)>)
    ensures
        match r {
            Some((n, h)) => legacy_heading(line@) == Some((n as nat, h@)),
            None => legacy_heading(line@) is None,
        },
{
    let v = chars_of(line);
    proof {
        assert(v@.subrange(0, v@.len() as int) =~= line@);
    }
    match legacy_heading_range(&v, 0, v.len()) {
        Some((n, a, b)) => Some((n, line.substring_char(a, b))),
        None => None,
    }
}

/// Counts the columns of a Markdown table divider when every cell is valid.
pub fn table_divider_columns(line: Option<&str>) -> (r: Option<usize>)
    ensures
        match line {
            Some(l) => match r {
                Some(n) => divider_columns(l@) == Some(n as nat),
                None => divider_columns(l@) is None,
            },
            None => r is None,
        },
{
    match line {
        Some(l) => {
            let v = chars_of(l);
            proof {
                assert(v@.subrange(0, v@.len() as int) =~= l@);
            }
            divider_columns_range(&v, 0, v.len())
        },
        None => None,
    }
}

/// Whether one cell is a valid Markdown table divider segment.
pub fn is_table_divider_cell(cell: &str) -> (b: bool)
    ensures
        b == divider_cell(cell@),
{
    let v = chars_of(cell);
    proof {
        assert(v@.subrange(0, v@.len() as int) =~= cell@);
    }
    divider_cell_range(&v, 0, v.len())
}

/// Appends `| heading |` and `columns - 1` empty cells.
fn push_regular_heading(out: &mut String, v: &Vec<char>, lo: usize, hi: usize, columns: usize)
    requires
        lo <= hi <= v@.len(),
        columns >= 1,
    ensures
        final(out)@ == old(out)@ + regular_heading(v@.subrange(lo as int, hi as int), columns as nat),
{
    let ghost start = out@;
    push_char(out, '|');
    push_char(out, ' ');
    push_range(out, v, lo, hi);
    push_char(out, ' ');
    push_char(out, '|');
    let ghost head = out@;
    proof {
        assert(head =~= start + (seq!['|', ' '] + v@.subrange(lo as int, hi as int) + seq![' ', '|']));
    }
    let mut k: usize = 1;
    while k < columns
        invariant
            1 <= k <= columns,
            out@ == head + repeat(seq![' ', '|'], (k - 1) as nat),
        decreases columns - k,
    {
        push_char(out, ' ');
        push_char(out, '|');
        proof {
            assert(repeat(seq![' ', '|'], k as nat) == repeat(seq![' ', '|'], (k - 1) as nat) + seq![' ', '|']);
            assert(out@ =~= head + repeat(seq![' ', '|'], k as nat));
        }
        k = k + 1;
    }
    proof {
        assert(out@ =~= start + regular_heading(v@.subrange(lo as int, hi as int), columns as nat));
    }
}

/// Builds a regular table row whose first cell holds the legacy title.
pub fn regular_table_heading(heading: &str, columns: usize) -> (r: String)
    requires
        columns >= 1,
    ensures
        r@ == regular_heading(heading@, columns as nat),
{
    let v = chars_of(heading);
    let mut out = String::new();
    push_regular_heading(&mut out, &v, 0, v.len(), columns);
    proof {
        assert(v@.subrange(0, v@.len() as int) =~= heading@);
        assert(out@ =~= regular_heading(heading@, columns as nat));
    }
    out
}


/// Whether the text holds a carriage return directly followed by a line feed.
fn contains_crlf(v: &Vec<char>) -> (b: bool)
    ensures
        b == occurs_in(v@, seq!['\r', '\n']),
{
    let mut i: usize = 0;
    while i < v.len() && i + 1 < v.len()
        invariant
            i <= v@.len(),
            forall|j: int| 0 <= j < i && j + 1 < v@.len() ==> !(#[trigger] v@[j] == '\r' && v@[j + 1] == '\n'),
        decreases v.len() - i,
    {
        if v[i] == '\r' && v[i + 1] == '\n' {
            proof {
                assert(v@.subrange(i as int, i + 2) =~= seq!['\r', '\n']);
                assert(occurs_at(v@, seq!['\r', '\n'], i as int));
            }
            return true;
        }
        i = i + 1;
    }
    proof {
        assert forall|j: int| !occurs_at(v@, seq!['\r', '\n'], j) by {
            if occurs_at(v@, seq!['\r', '\n'], j) {
                let t = v@.subrange(j, j + 2);
                assert(t[0] == v@[j] && t[1] == v@[j + 1]);
            }
        }
    }
    false
}

/// The ranges of the lines of `v`, as `markdown_lines` describes them.
fn line_ranges(v: &Vec<char>) -> (r: Vec<(usize, usize)>)
    ensures
        ranges_within(r@, 0, v@.len() as int),
        range_pieces(v@, r@) == markdown_lines(v@),
{
    let parts = split_ranges(v, 0, v.len(), '\n');
    proof {
        assert(v@.subrange(0, v@.len() as int) =~= v@);
    }
    let ghost p = split_on(v@, '\n');
    let mut n = parts.len();
    let last = parts[n - 1];
    if last.0 == last.1 {
        n = n - 1;
    }
    let ghost st = split_terminator_lines(v@);
    proof {
        assert(p.last() == v@.subrange(last.0 as int, last.1 as int));
        assert(st =~= range_pieces(v@, parts@.take(n as int)));
    }
    let mut r: Vec<(usize, usize)> = Vec::new();
    let mut i: usize = 0;
    while i < n
        invariant
            0 <= i <= n <= parts@.len(),
            ranges_within(parts@, 0, v@.len() as int),
            st == range_pieces(v@, parts@.take(n as int)),
            r@.len() == i,
            ranges_within(r@, 0, v@.len() as int),
            forall|j: int| 0 <= j < i ==> v@.subrange(#[trigger] r@[j].0 as int, r@[j].1 as int) == strip_cr(st[j]),
        decreases n - i,
    {
        let (a, b) = parts[i];
        proof {
            assert(st[i as int] == v@.subrange(a as int, b as int));
        }
        if b > a && v[b - 1] == '\r' {
            proof {
                assert(v@.subrange(a as int, b as int).drop_last() =~= v@.subrange(a as int, b - 1));
            }
            r.push((a, b - 1));
        } else {
            r.push((a, b));
        }
        proof {
            assert(r@[i as int] == r@.last());
        }
        i = i + 1;
    }
    proof {
        assert(range_pieces(v@, r@) =~= st.map_values(|l: Seq<char>| strip_cr(l)));
    }
    r
}

/// Whether `rep` is what `line_replacement` gives for line `j`.
spec fn replacement_matches(
    rep: Option<(usize, usize, usize)>,
    v: Seq<char>,
    lines: Seq<Seq<char>>,
    j: int,
) -> bool {
    match rep {
        Some((n, a, b)) => n >= 1 && a <= b <= v.len() && line_replacement(lines, j) == Some(
            regular_heading(v.subrange(a as int, b as int), n as nat),
        ),
        None => line_replacement(lines, j) is None,
    }
}

/// Rewrites legacy `@cols=N:` table headings into regular Markdown table rows.
///
/// A legacy heading is only converted when the line right after it is a divider
/// with exactly `N` columns; text without such a heading is returned unchanged.
pub fn normalize_legacy_table_headers(markdown: &str) -> (r: String)
    ensures
        r@ == normalize_legacy(markdown@),
{
    let v = chars_of(markdown);
    let crlf = contains_crlf(&v);
    let trailing = v.len() > 0 && v[v.len() - 1] == '\n';
    let lines = line_ranges(&v);
    let ghost ls = markdown_lines(v@);
    let mut reps: Vec<Option<(usize, usize, usize)>> = Vec::new();
    let mut changed = false;
    let mut i: usize = 0;
    while i < lines.len()
        invariant
            0 <= i <= lines@.len(),
            ranges_within(lines@, 0, v@.len() as int),
            ls == range_pieces(v@, lines@),
            reps@.len() == i,
            changed <==> exists|j: int| 0 <= j < i && #[trigger] line_replacement(ls, j) is Some,
            forall|j: int| 0 <= j < i ==> replacement_matches(#[trigger] reps@[j], v@, ls, j),
        decreases lines.len() - i,
    {
        let (a, b) = lines[i];
        let mut rep: Option<(usize, usize, usize)> = None;
        proof {
            assert(ls[i as int] == v@.subrange(a as int, b as int));
        }
        match legacy_heading_range(&v, a, b) {
            Some((n, hl, hh)) => {
                if i + 1 < lines.len() {
                    let (c, d) = lines[i + 1];
                    proof {
                        assert(ls[i + 1] == v@.subrange(c as int, d as int));
                    }
                    match divider_columns_range(&v, c, d) {
                        Some(m) => {
                            if m == n {
                                rep = Some((n, hl, hh));
                            }
                        },
                        None => {},
                    }
                }
            },
            None => {},
        }
        proof {
            assert(replacement_matches(rep, v@, ls, i as int));
        }
        if rep.is_some() {
            changed = true;
        }
        reps.push(rep);
        proof {
            assert(reps@[i as int] == rep);
        }
        i = i + 1;
    }
    if !changed {
        proof {
            assert(markdown@ == v@);
            assert(!any_replaced(ls));
        }
        return markdown.to_owned();
    }
    let ghost ending = ending_of(v@);
    let ghost np = normalized_lines(ls);
    let mut out = String::new();
    let mut k: usize = 0;
    while k < lines.len()
        invariant
            0 <= k <= lines@.len(),
            ranges_within(lines@, 0, v@.len() as int),
            ls == range_pieces(v@, lines@),
            np == normalized_lines(ls),
            ending == ending_of(v@),
            crlf == occurs_in(v@, seq!['\r', '\n']),
            reps@.len() == lines@.len(),
            forall|j: int| 0 <= j < lines@.len() ==> replacement_matches(#[trigger] reps@[j], v@, ls, j),
            out@ == join(np.take(k as int), ending),
        decreases lines.len() - k,
    {
        let ghost before = out@;
        if k > 0 {
            if crlf {
                push_char(&mut out, '\r');
            }
            push_char(&mut out, '\n');
        }
        let ghost sep_added = out@;
        proof {
            if k > 0 {
                assert(sep_added =~= before + ending);
            } else {
                assert(sep_added == before);
            }
        }
        match reps[k] {
            Some((n, hl, hh)) => {
                push_regular_heading(&mut out, &v, hl, hh, n);
                proof {
                    assert(replacement_matches(reps@[k as int], v@, ls, k as int));
                }
            },
            None => {
                let (a, b) = lines[k];
                push_range(&mut out, &v, a, b);
                proof {
                    assert(replacement_matches(reps@[k as int], v@, ls, k as int));
                    assert(ls[k as int] == v@.subrange(a as int, b as int));
                }
            },
        }
        proof {
            assert(out@ == sep_added + np[k as int]);
            assert(np.take(k + 1).drop_last() =~= np.take(k as int));
            if k == 0 {
                assert(np.take(1) =~= seq![np[0]]);
                assert(join(np.take(1), ending) == np[0]);
            } else {
                assert(join(np.take(k + 1), ending) == join(np.take(k as int), ending) + ending + np[k as int]);
            }
        }
        k = k + 1;
    }
    let ghost body = out@;
    if trailing {
        if crlf {
            push_char(&mut out, '\r');
        }
        push_char(&mut out, '\n');
    }
    proof {
        assert(np.take(lines@.len() as int) =~= np);
        assert(any_replaced(ls));
        assert(markdown@ == v@);
        if trailing {
            assert(out@ =~= body + ending);
        } else {
            assert(out@ =~= body + Seq::<char>::empty());
        }
    }
    out
}

proof fn lemma_split_without_separator(s: Seq<char>, sep: char)
    requires
        !s.contains(sep),
    ensures
        split_on(s, sep) == seq![s],
    decreases s.len(),
{
    if s.len() > 0 {
        assert(!s.drop_last().contains(sep)) by {
            if s.drop_last().contains(sep) {
                let j = choose|j: int| 0 <= j < s.drop_last().len() && s.drop_last()[j] == sep;
                assert(s[j] == sep);
            }
        }
        lemma_split_without_separator(s.drop_last(), sep);
        assert(s.last() != sep) by {
            assert(s[s.len() - 1] == s.last());
        }
        assert(s.drop_last().push(s.last()) =~= s);
        let pre = split_on(s.drop_last(), sep);
        assert(pre.update(pre.len() - 1, pre.last().push(s.last())) =~= seq![s]);
    } else {
        assert(s =~= Seq::<char>::empty());
    }
}

proof fn lemma_trim_end_keeps_first(t: Seq<char>, colon: bool)
    requires
        t.len() > 0,
        !trimmed_char(t[0], colon),
    ensures
        trim_end_by(t, colon).len() > 0,
        trim_end_by(t, colon)[0] == t[0],
    decreases t.len(),
{
    if t.len() > 1 && trimmed_char(t.last(), colon) {
        assert(t.drop_last()[0] == t[0]);
        lemma_trim_end_keeps_first(t.drop_last(), colon);
    }
}

/// A table divider is never taken for a legacy heading, so dividers pass
/// through the normalization unchanged.
pub proof fn lemma_divider_is_no_legacy_heading(line: Seq<char>)
    requires
        divider_columns(line) is Some,
    ensures
        legacy_heading(line) is None,
{
    let inner = strip_pipes(line).unwrap();
    let row = trim(inner);
    if !row.contains('|') && starts_with(row, cols_marker()) {
        assert(!inner.contains('|')) by {
            if inner.contains('|') {
                lemma_trim_keeps_pipe(inner);
            }
        }
        lemma_split_without_separator(inner, '|');
        let cells = split_on(inner, '|');
        assert(cells[0] == inner);
        assert(divider_cell(inner));
        assert(row.take(6)[0] == row[0]);
        assert(row[0] == '@');
        assert(trim_start_by(row, true) == row);
        lemma_trim_end_keeps_first(row, true);
        let d = trim_colons(row);
        assert(d[0] == '@');
    }
}

proof fn lemma_trim_start_keeps_pipe(s: Seq<char>)
    requires
        s.contains('|'),
    ensures
        trim_start_by(s, false).contains('|'),
    decreases s.len(),
{
    if s.len() > 0 && trimmed_char(s[0], false) {
        let j = choose|j: int| 0 <= j < s.len() && s[j] == '|';
        assert(j > 0);
        assert(s.drop_first()[j - 1] == '|');
        lemma_trim_start_keeps_pipe(s.drop_first());
    }
}

proof fn lemma_trim_end_keeps_pipe(s: Seq<char>)
    requires
        s.contains('|'),
    ensures
        trim_end_by(s, false).contains('|'),
    decreases s.len(),
{
    if s.len() > 0 && trimmed_char(s.last(), false) {
        let j = choose|j: int| 0 <= j < s.len() && s[j] == '|';
        assert(j < s.len() - 1);
        assert(s.drop_last()[j] == '|');
        lemma_trim_end_keeps_pipe(s.drop_last());
    }
}

proof fn lemma_trim_keeps_pipe(s: Seq<char>)
    requires
        s.contains('|'),
    ensures
        trim(s).contains('|'),
{
    lemma_trim_start_keeps_pipe(s);
    lemma_trim_end_keeps_pipe(trim_start_by(s, false));
}

/// A text in which no line is a legacy heading comes back unchanged, line
/// endings included.
pub proof fn lemma_no_legacy_heading_unchanged(md: Seq<char>)
    requires
        forall|i: int|
            0 <= i < markdown_lines(md).len() ==> legacy_heading(#[trigger] markdown_lines(md)[i]) is None,
    ensures
        normalize_legacy(md) == md,
{
    let lines = markdown_lines(md);
    assert(!any_replaced(lines)) by {
        if any_replaced(lines) {
            let i = choose|i: int| 0 <= i < lines.len() && #[trigger] line_replacement(lines, i) is Some;
            assert(legacy_heading(lines[i]) is None);
        }
    }
}

/// The pieces that splitting lines joined with `pre` and a line feed gives
/// back: each line but the last keeps `pre`.
spec fn rejoined(lines: Seq<Seq<char>>, pre: Seq<char>) -> Seq<Seq<char>> {
    Seq::new(
        lines.len(),
        |k: int|
            if k + 1 < lines.len() {
                lines[k] + pre
            } else {
                lines[k]
            },
    )
}

proof fn lemma_split_join(lines: Seq<Seq<char>>, pre: Seq<char>)
    requires
        lines.len() >= 1,
        lacks(pre, '\n'),
        forall|k: int| 0 <= k < lines.len() ==> lacks(#[trigger] lines[k], '\n'),
    ensures
        split_on(join(lines, pre.push('\n')), '\n') == rejoined(lines, pre),
    decreases lines.len(),
{
    let e = pre.push('\n');
    if lines.len() == 1 {
        crate::text::lemma_split_append_plain(Seq::<char>::empty(), lines[0], '\n');
        assert(Seq::<char>::empty() + lines[0] =~= lines[0]);
        assert(split_on(lines[0], '\n') =~= rejoined(lines, pre));
    } else {
        let init = lines.drop_last();
        lemma_split_join(init, pre);
        let j = join(init, e);
        crate::text::lemma_split_append_plain(j, pre, '\n');
        crate::text::lemma_split_push_sep(j + pre, '\n');
        assert((j + pre).push('\n') =~= j + e);
        crate::text::lemma_split_append_plain(j + e, lines.last(), '\n');
        assert(join(lines, e) == j + e + lines.last());
        assert(Seq::<char>::empty() + lines.last() =~= lines.last());
        assert(split_on(join(lines, e), '\n') =~= rejoined(lines, pre));
    }
}

/// The lines of a text hold no line feed.
proof fn lemma_lines_lack_newline(md: Seq<char>)
    ensures
        forall|k: int| 0 <= k < markdown_lines(md).len() ==> lacks(#[trigger] markdown_lines(md)[k], '\n'),
{
    crate::text::lemma_split_pieces(md, '\n');
    let p = split_on(md, '\n');
    let st = split_terminator_lines(md);
    assert forall|k: int| 0 <= k < markdown_lines(md).len() implies lacks(
        #[trigger] markdown_lines(md)[k],
        '\n',
    ) by {
        assert(st[k] == p[k]);
        assert(lacks(p[k], '\n'));
        let l = markdown_lines(md)[k];
        assert(l == strip_cr(st[k]));
        assert forall|i: int| 0 <= i < l.len() implies l[i] != '\n' by {
            assert(l[i] == st[k][i]);
        }
    }
}

proof fn lemma_skip_lacks(s: Seq<char>, j: int, c: char)
    requires
        lacks(s, c),
        0 <= j <= s.len(),
    ensures
        lacks(s.skip(j), c),
        lacks(s.take(j), c),
{
    assert forall|i: int| 0 <= i < s.skip(j).len() implies s.skip(j)[i] != c by {
        assert(s.skip(j)[i] == s[j + i]);
    }
    assert forall|i: int| 0 <= i < s.take(j).len() implies s.take(j)[i] != c by {
        assert(s.take(j)[i] == s[i]);
    }
}

/// The title of a legacy heading comes from its line, so it holds no line feed
/// when the line holds none.
proof fn lemma_heading_lacks_newline(line: Seq<char>)
    requires
        lacks(line, '\n'),
        legacy_heading(line) is Some,
    ensures
        lacks(legacy_heading(line).unwrap().1, '\n'),
{
    let t = trim(line);
    crate::text::lemma_trim_lacks(line, '\n');
    let inner = t.subrange(1, t.len() - 1);
    assert(lacks(inner, '\n')) by {
        assert forall|i: int| 0 <= i < inner.len() implies inner[i] != '\n' by {
            assert(inner[i] == t[i + 1]);
        }
    }
    let row = trim(inner);
    crate::text::lemma_trim_lacks(inner, '\n');
    let rest = row.skip(6);
    lemma_skip_lacks(row, 6, '\n');
    let k = first_index_of(rest, ':').unwrap();
    crate::text::lemma_first_index_of(rest, ':');
    lemma_skip_lacks(rest, k + 1, '\n');
    crate::text::lemma_trim_lacks(rest.skip(k + 1), '\n');
}

proof fn lemma_repeat_cell(n: nat)
    ensures
        repeat(seq![' ', '|'], n).len() == 2 * n,
        lacks(repeat(seq![' ', '|'], n), '\n'),
        n >= 1 ==> repeat(seq![' ', '|'], n).last() == '|',
        n >= 1 ==> repeat(seq![' ', '|'], n) == repeat(seq![' ', '|'], (n - 1) as nat) + seq![' ', '|'],
    decreases n,
{
    if n > 0 {
        lemma_repeat_cell((n - 1) as nat);
        let r = repeat(seq![' ', '|'], (n - 1) as nat);
        let t = r + seq![' ', '|'];
        assert forall|i: int| 0 <= i < t.len() implies t[i] != '\n' by {
            if i < r.len() {
                assert(t[i] == r[i]);
            }
        }
    }
}

/// A regular heading row holds no line feed when its title holds none.
proof fn lemma_regular_heading_lacks_newline(h: Seq<char>, n: nat)
    requires
        lacks(h, '\n'),
    ensures
        lacks(regular_heading(h, n), '\n'),
{
    lemma_repeat_cell((n - 1) as nat);
    let a = seq!['|', ' '] + h + seq![' ', '|'];
    let r = repeat(seq![' ', '|'], (n - 1) as nat);
    let full = a + r;
    assert forall|i: int| 0 <= i < full.len() implies full[i] != '\n' by {
        if i < a.len() {
            if 2 <= i < 2 + h.len() {
                assert(a[i] == h[i - 2]);
            }
        } else {
            assert(full[i] == r[i - a.len()]);
        }
    }
}

/// A regular heading row with two or more columns is neither a legacy heading
/// nor a divider, so normalizing never touches it or uses it as a divider.
proof fn lemma_regular_heading_inert(h: Seq<char>, n: nat)
    requires
        n >= 2,
    ensures
        legacy_heading(regular_heading(h, n)) is None,
        divider_columns(regular_heading(h, n)) is None,
{
    lemma_repeat_cell((n - 1) as nat);
    lemma_repeat_cell((n - 2) as nat);
    let cell = seq![' ', '|'];
    let a = seq!['|', ' '] + h + seq![' ', '|'];
    let r = repeat(cell, (n - 1) as nat);
    let big = regular_heading(h, n);
    assert(big == a + r);
    let len = big.len();
    assert(big[0] == '|');
    assert(big.last() == r.last());
    assert(big.last() == '|');
    crate::text::lemma_trim_unpadded(big);
    assert(strip_pipes(big) == Some(big.subrange(1, len - 1)));
    let inner = big.subrange(1, len - 1);
    // The `|` closing the title cell lies inside.
    assert(big[h.len() + 3int] == '|');
    assert(inner[h.len() + 2int] == '|');
    assert(inner.contains('|'));
    lemma_trim_keeps_pipe(inner);
    // The last cell, after the final inner `|`, is a single space.
    let r0 = repeat(cell, (n - 2) as nat);
    assert(r == r0 + cell);
    let head = a + r0;
    assert(head.last() == '|') by {
        if n - 2 >= 1 {
            assert(head.last() == r0.last());
        } else {
            assert(r0.len() == 0);
            assert(head =~= a);
        }
    }
    assert(big =~= head + cell);
    assert(inner =~= head.drop_first() + seq![' ']);
    let x = head.drop_first().drop_last();
    assert(head.drop_first() =~= x.push('|'));
    crate::text::lemma_split_push_sep(x, '|');
    assert(lacks(seq![' '], '|'));
    crate::text::lemma_split_append_plain(x.push('|'), seq![' '], '|');
    let cells = split_on(inner, '|');
    assert(inner =~= x.push('|') + seq![' ']);
    assert(cells.last() =~= Seq::<char>::empty() + seq![' ']);
    assert(!divider_cell(cells.last())) by {
        let c = cells.last();
        assert(c =~= seq![' ']);
        assert(is_white_space(' '));
        assert(trim_start_by(c, false) == trim_start_by(c.drop_first(), false));
        assert(c.drop_first() =~= Seq::<char>::empty());
        assert(trim(c).len() == 0);
    }
    assert(!divider_cell(cells[cells.len() - 1]));
}

/// Trimming ignores a trailing carriage return, added or removed.
proof fn lemma_trim_ignores_cr(x: Seq<char>, pre: Seq<char>)
    requires
        pre == Seq::<char>::empty() || pre == seq!['\r'],
    ensures
        trim(strip_cr(x + pre)) == trim(x),
{
    assert(is_white_space('\r'));
    if pre == seq!['\r'] {
        assert(x + pre =~= x.push('\r'));
        assert((x + pre).drop_last() =~= x);
    } else {
        assert(x + pre =~= x);
        if x.len() > 0 && x.last() == '\r' {
            assert(x =~= x.drop_last().push('\r'));
            crate::text::lemma_trim_push_white(x.drop_last(), '\r');
        }
    }
}

/// Normalizing is idempotent: a normalized text is left as it is.
pub proof fn lemma_normalize_idempotent(md: Seq<char>)
    ensures
        normalize_legacy(normalize_legacy(md)) == normalize_legacy(md),
{
    let lines = markdown_lines(md);
    if !any_replaced(lines) {
        return;
    }
    let n = lines.len();
    let nl = normalized_lines(lines);
    let e = ending_of(md);
    let pre = e.drop_last();
    assert(e == pre.push('\n'));
    assert(lacks(pre, '\n'));
    assert(pre == Seq::<char>::empty() || pre == seq!['\r']);
    let trailing = md.len() > 0 && md.last() == '\n';
    let out = normalize_legacy(md);
    lemma_lines_lack_newline(md);
    assert forall|k: int| 0 <= k < nl.len() implies lacks(#[trigger] nl[k], '\n') by {
        match line_replacement(lines, k) {
            Some(rep) => {
                lemma_heading_lacks_newline(lines[k]);
                let (c, h) = legacy_heading(lines[k]).unwrap();
                lemma_regular_heading_lacks_newline(h, c);
            },
            None => {},
        }
    }
    // The pieces of the normalized text, before the final empty one is dropped.
    let pieces = if trailing {
        nl.push(Seq::<char>::empty())
    } else {
        nl
    };
    assert(join(pieces, e) == out) by {
        if trailing {
            assert(pieces.drop_last() =~= nl);
        }
    }
    assert forall|k: int| 0 <= k < pieces.len() implies lacks(#[trigger] pieces[k], '\n') by {
        if k < nl.len() {
            assert(pieces[k] == nl[k]);
        }
    }
    lemma_split_join(pieces, pre);
    let lines2 = markdown_lines(out);
    assert(lines2.len() <= n);
    assert forall|k: int| 0 <= k < lines2.len() implies trim(#[trigger] lines2[k]) == trim(nl[k]) by {
        let piece = rejoined(pieces, pre)[k];
        assert(lines2[k] == strip_cr(piece));
        if k + 1 < pieces.len() {
            lemma_trim_ignores_cr(nl[k], pre);
        } else {
            lemma_trim_ignores_cr(nl[k], Seq::<char>::empty());
            assert(nl[k] + Seq::<char>::empty() =~= nl[k]);
        }
    }
    assert(!any_replaced(lines2)) by {
        if any_replaced(lines2) {
            let i = choose|i: int| 0 <= i < lines2.len() && #[trigger] line_replacement(lines2, i) is Some;
            let (c, h) = legacy_heading(lines2[i]).unwrap();
            assert(strip_pipes(lines2[i]) == strip_pipes(nl[i]));
            assert(strip_pipes(lines2[i + 1]) == strip_pipes(nl[i + 1]));
            assert(legacy_heading(nl[i]) == Some((c, h)));
            assert(divider_columns(nl[i + 1]) == Some(c));
            match line_replacement(lines, i) {
                Some(rep) => {
                    let (c0, h0) = legacy_heading(lines[i]).unwrap();
                    lemma_regular_heading_inert(h0, c0);
                },
                None => {
                    assert(nl[i] == lines[i]);
                    match line_replacement(lines, i + 1) {
                        Some(rep) => {
                            let (c1, h1) = legacy_heading(lines[i + 1]).unwrap();
                            lemma_regular_heading_inert(h1, c1);
                        },
                        None => {
                            assert(nl[i + 1] == lines[i + 1]);
                        },
                    }
                },
            }
        }
    }
}

} // verus!
