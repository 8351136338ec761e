//! Character-level text helpers shared by the components: whitespace trimming,
//! splitting, joining, and building `String`s from character sequences.
use vstd::prelude::*;

verus! {

/// Appends one character to a `String` (std `String::push`).
#[verifier::external_body]
pub(crate) fn push_char(s: &mut String, c: char)
    ensures
        final(s)@ == old(s)@.push(c),
{
    s.push(c);
}

/// Appends the characters of `t` to `s`.
pub fn push_text(s: &mut String, t: &str)
    ensures
        final(s)@ == old(s)@ + t@,
{
    let ghost start = s@;
    for c in it: t.chars()
        invariant
            it.seq() == t@,
            s@ == start + it.seq().take(it.index() as int),
    {
        proof {
            assert(it.seq().take(it.index() + 1) =~= it.seq().take(it.index() as int).push(c));
        }
        push_char(s, c);
    }
    proof {
        assert(t@.take(t@.len() as int) =~= t@);
    }
}

/// Collects the characters of a string slice.
pub fn chars_of(s: &str) -> (v: Vec<char>)
    ensures
        v@ == s@,
{
    let mut v: Vec<char> = Vec::new();
    for c in it: s.chars()
        invariant
            it.seq() == s@,
            v@ == it.seq().take(it.index() as int),
    {
        proof {
            assert(it.seq().take(it.index() + 1) =~= it.seq().take(it.index() as int).push(c));
        }
        v.push(c);
    }
    proof {
        assert(s@.take(s@.len() as int) =~= s@);
    }
    v
}

/// Appends the characters `v[lo..hi]` to `s`.
pub fn push_range(s: &mut String, v: &Vec<char>, lo: usize, hi: usize)
    requires
        lo <= hi <= v@.len(),
    ensures
        final(s)@ == old(s)@ + v@.subrange(lo as int, hi as int),
{
    let ghost start = s@;
    let mut i = lo;
    while i < hi
        invariant
            lo <= i <= hi <= v@.len(),
            s@ == start + v@.subrange(lo as int, i as int),
        decreases hi - i,
    {
        proof {
            assert(v@.subrange(lo as int, i + 1) =~= v@.subrange(lo as int, i as int).push(v@[i as int]));
        }
        push_char(s, v[i]);
        i = i + 1;
    }
}

/// Builds a `String` from the characters `v[lo..hi]`.
pub fn string_of_range(v: &Vec<char>, lo: usize, hi: usize) -> (s: String)
    requires
        lo <= hi <= v@.len(),
    ensures
        s@ == v@.subrange(lo as int, hi as int),
{
    let mut s = String::new();
    push_range(&mut s, v, lo, hi);
    s
}

/// Unicode `White_Space`, the property behind `char::is_whitespace` and `str::trim`.
pub open spec fn is_white_space(c: char) -> bool {
    let u = c as u32;
    (0x9 <= u && u <= 0xd) || u == 0x20 || u == 0x85 || u == 0xa0 || u == 0x1680 || (0x2000 <= u
        && u <= 0x200a) || u == 0x2028 || u == 0x2029 || u == 0x202f || u == 0x205f || u == 0x3000
}

pub fn white_space(c: char) -> (b: bool)
    ensures
        b == is_white_space(c),
{
    let u = c as u32;
    (0x9 <= u && u <= 0xd) || u == 0x20 || u == 0x85 || u == 0xa0 || u == 0x1680 || (0x2000 <= u
        && u <= 0x200a) || u == 0x2028 || u == 0x2029 || u == 0x202f || u == 0x205f || u == 0x3000
}

/// The characters removed by a trim: white space, or `:` when `colon` holds.
pub open spec fn trimmed_char(c: char, colon: bool) -> bool {
    if colon {
        c == ':'
    } else {
        is_white_space(c)
    }
}

pub fn trimmed(c: char, colon: bool) -> (b: bool)
    ensures
        b == trimmed_char(c, colon),
{
    if colon {
        c == ':'
    } else {
        white_space(c)
    }
}

/// `s` without its leading trimmed characters.
pub open spec fn trim_start_by(s: Seq<char>, colon: bool) -> Seq<char>
    decreases s.len(),
{
    if s.len() > 0 && trimmed_char(s[0], colon) {
        trim_start_by(s.drop_first(), colon)
    } else {
        s
    }
}

/// `s` without its trailing trimmed characters.
pub open spec fn trim_end_by(s: Seq<char>, colon: bool) -> Seq<char>
    decreases s.len(),
{
    if s.len() > 0 && trimmed_char(s.last(), colon) {
        trim_end_by(s.drop_last(), colon)
    } else {
        s
    }
}

/// `str::trim`.
pub open spec fn trim(s: Seq<char>) -> Seq<char> {
    trim_end_by(trim_start_by(s, false), false)
}

/// `str::trim_matches(':')`.
pub open spec fn trim_colons(s: Seq<char>) -> Seq<char> {
    trim_end_by(trim_start_by(s, true), true)
}

/// Narrows `v[lo..hi]` to the range that remains after trimming both ends.
pub fn trim_range(v: &Vec<char>, lo: usize, hi: usize, colon: bool) -> (r: (usize, usize))
    requires
        lo <= hi <= v@.len(),
    ensures
        lo <= r.0 <= r.1 <= hi,
        v@.subrange(r.0 as int, r.1 as int) == trim_end_by(
            trim_start_by(v@.subrange(lo as int, hi as int), colon),
            colon,
        ),
{
    let mut a = lo;
    while a < hi && trimmed(v[a], colon)
        invariant
            lo <= a <= hi <= v@.len(),
            trim_start_by(v@.subrange(lo as int, hi as int), colon) == trim_start_by(
                v@.subrange(a as int, hi as int),
                colon,
            ),
        decreases hi - a,
    {
        proof {
            assert(v@.subrange(a as int, hi as int).drop_first() =~= v@.subrange(a + 1, hi as int));
        }
        a = a + 1;
    }
    let mut b = hi;
    while b > a && trimmed(v[b - 1], colon)
        invariant
            lo <= a <= b <= hi <= v@.len(),
            trim_start_by(v@.subrange(lo as int, hi as int), colon) == trim_start_by(
                v@.subrange(a as int, hi as int),
                colon,
            ),
            !(a < hi && trimmed_char(v@[a as int], colon)),
            trim_end_by(v@.subrange(a as int, hi as int), colon) == trim_end_by(
                v@.subrange(a as int, b as int),
                colon,
            ),
        decreases b - a,
    {
        proof {
            assert(v@.subrange(a as int, b as int).drop_last() =~= v@.subrange(a as int, b - 1));
        }
        b = b - 1;
    }
    proof {
        if a < hi {
            assert(v@.subrange(a as int, hi as int)[0] == v@[a as int]);
        }
    }
    (a, b)
}

/// Pieces of `s` between the occurrences of `sep` (`str::split`).
pub open spec fn split_on(s: Seq<char>, sep: char) -> Seq<Seq<char>>
    decreases s.len(),
{
    if s.len() == 0 {
        seq![Seq::<char>::empty()]
    } else {
        let pre = split_on(s.drop_last(), sep);
        if s.last() == sep {
            pre.push(Seq::<char>::empty())
        } else {
            pre.update(pre.len() - 1, pre.last().push(s.last()))
        }
    }
}

/// The pieces named by the ranges `r` in `v`.
pub open spec fn range_pieces(v: Seq<char>, r: Seq<(usize, usize)>) -> Seq<Seq<char>> {
    Seq::new(r.len(), |j: int| v.subrange(r[j].0 as int, r[j].1 as int))
}

pub open spec fn ranges_within(r: Seq<(usize, usize)>, lo: int, hi: int) -> bool {
    forall|j: int| 0 <= j < r.len() ==> lo <= #[trigger] r[j].0 <= r[j].1 <= hi
}

/// Splits `v[lo..hi]` at every `sep`, returning the ranges of the pieces.
pub fn split_ranges(v: &Vec<char>, lo: usize, hi: usize, sep: char) -> (r: Vec<(usize, usize)>)
    requires
        lo <= hi <= v@.len(),
    ensures
        ranges_within(r@, lo as int, hi as int),
        range_pieces(v@, r@) == split_on(v@.subrange(lo as int, hi as int), sep),
        r@.len() >= 1,
{
    let mut r: Vec<(usize, usize)> = Vec::new();
    let mut cur = lo;
    let mut i = lo;
    proof {
        assert(v@.subrange(lo as int, lo as int) =~= Seq::<char>::empty());
        assert(range_pieces(v@, r@) =~= Seq::<Seq<char>>::empty());
    }
    while i < hi
        invariant
            lo <= cur <= i <= hi <= v@.len(),
            ranges_within(r@, lo as int, hi as int),
            split_on(v@.subrange(lo as int, i as int), sep) == range_pieces(v@, r@).push(
                v@.subrange(cur as int, i as int),
            ),
        decreases hi - i,
    {
        let ghost old_r = r@;
        let ghost sub = v@.subrange(lo as int, i + 1);
        proof {
            assert(sub.drop_last() =~= v@.subrange(lo as int, i as int));
            assert(sub.last() == v@[i as int]);
        }
        if v[i] == sep {
            r.push((cur, i));
            cur = i + 1;
            proof {
                assert(range_pieces(v@, r@) =~= range_pieces(v@, old_r).push(
                    v@.subrange(r@.last().0 as int, i as int),
                ));
                assert(v@.subrange(i + 1, i + 1) =~= Seq::<char>::empty());
            }
        } else {
            proof {
                assert(v@.subrange(cur as int, i + 1) =~= v@.subrange(cur as int, i as int).push(
                    v@[i as int],
                ));
                let pre = split_on(v@.subrange(lo as int, i as int), sep);
                assert(pre.last() == v@.subrange(cur as int, i as int));
                assert(pre.update(pre.len() - 1, pre.last().push(v@[i as int])) =~= range_pieces(
                    v@,
                    r@,
                ).push(v@.subrange(cur as int, i + 1)));
            }
        }
        i = i + 1;
    }
    let ghost before = r@;
    r.push((cur, hi));
    proof {
        assert(range_pieces(v@, r@) =~= range_pieces(v@, before).push(
            v@.subrange(cur as int, hi as int),
        ));
    }
    r
}

/// Joins `pieces` with `sep` between neighbours.
pub open spec fn join(pieces: Seq<Seq<char>>, sep: Seq<char>) -> Seq<char>
    decreases pieces.len(),
{
    if pieces.len() == 0 {
        Seq::<char>::empty()
    } else if pieces.len() == 1 {
        pieces[0]
    } else {
        join(pieces.drop_last(), sep) + sep + pieces.last()
    }
}

/// Whether the characters `t` occur in `s` starting at `i`.
pub open spec fn occurs_at(s: Seq<char>, t: Seq<char>, i: int) -> bool {
    0 <= i && i + t.len() <= s.len() && s.subrange(i, i + t.len()) == t
}

/// Whether `t` occurs anywhere in `s`.
pub open spec fn occurs_in(s: Seq<char>, t: Seq<char>) -> bool {
    exists|i: int| occurs_at(s, t, i)
}

/// Whether `s` starts with `t`.
pub open spec fn starts_with(s: Seq<char>, t: Seq<char>) -> bool {
    t.len() <= s.len() && s.take(t.len() as int) == t
}

/// Whether `v[lo..hi]` starts with the characters of `t`.
pub fn range_starts_with(v: &Vec<char>, lo: usize, hi: usize, t: &Vec<char>) -> (b: bool)
    requires
        lo <= hi <= v@.len(),
    ensures
        b == starts_with(v@.subrange(lo as int, hi as int), t@),
{
    if t.len() > hi - lo {
        return false;
    }
    let mut k: usize = 0;
    while k < t.len()
        invariant
            lo <= hi <= v@.len(),
            t@.len() <= hi - lo,
            0 <= k <= t@.len(),
            forall|j: int| 0 <= j < k ==> v@[lo + j] == t@[j],
        decreases t.len() - k,
    {
        if v[lo + k] != t[k] {
            proof {
                assert(v@.subrange(lo as int, hi as int).take(t@.len() as int)[k as int] != t@[k as int]);
            }
            return false;
        }
        k = k + 1;
    }
    proof {
        assert(v@.subrange(lo as int, hi as int).take(t@.len() as int) =~= t@);
    }
    true
}

/// Whether `c` occurs in `v[lo..hi]`.
pub fn range_contains(v: &Vec<char>, lo: usize, hi: usize, c: char) -> (b: bool)
    requires
        lo <= hi <= v@.len(),
    ensures
        b == v@.subrange(lo as int, hi as int).contains(c),
{
    let mut i = lo;
    while i < hi
        invariant
            lo <= i <= hi <= v@.len(),
            forall|j: int| lo <= j < i ==> v@[j] != c,
        decreases hi - i,
    {
        if v[i] == c {
            proof {
                assert(v@.subrange(lo as int, hi as int)[i - lo] == c);
            }
            return true;
        }
        i = i + 1;
    }
    proof {
        assert forall|j: int| 0 <= j < hi - lo implies v@.subrange(lo as int, hi as int)[j] != c by {
            assert(v@.subrange(lo as int, hi as int)[j] == v@[lo + j]);
        }
    }
    false
}

/// The index of the first `c` in `s`, when there is one.
pub open spec fn first_index_of(s: Seq<char>, c: char) -> Option<int>
    decreases s.len(),
{
    if s.len() == 0 {
        None
    } else if s[0] == c {
        Some(0)
    } else {
        match first_index_of(s.drop_first(), c) {
            Some(i) => Some(i + 1),
            None => None,
        }
    }
}

pub proof fn lemma_first_index_of(s: Seq<char>, c: char)
    ensures
        match first_index_of(s, c) {
            Some(i) => 0 <= i < s.len() && s[i] == c && forall|j: int| 0 <= j < i ==> s[j] != c,
            None => forall|j: int| 0 <= j < s.len() ==> s[j] != c,
        },
    decreases s.len(),
{
    if s.len() > 0 {
        lemma_first_index_of(s.drop_first(), c);
        if s[0] != c {
            assert forall|j: int| 0 < j < s.len() implies s[j] == s.drop_first()[j - 1] by {}
        }
    }
}

pub proof fn lemma_first_index_of_at(s: Seq<char>, c: char, k: int)
    requires
        0 <= k < s.len(),
        s[k] == c,
        forall|j: int| 0 <= j < k ==> s[j] != c,
    ensures
        first_index_of(s, c) == Some(k),
    decreases s.len(),
{
    if k > 0 {
        assert forall|j: int| 0 <= j < k - 1 implies s.drop_first()[j] != c by {
            assert(s.drop_first()[j] == s[j + 1]);
        }
        lemma_first_index_of_at(s.drop_first(), c, k - 1);
    }
}

/// Finds the first `c` in `v[lo..hi]`, as an absolute index.
pub fn find_in_range(v: &Vec<char>, lo: usize, hi: usize, c: char) -> (r: Option<usize>)
    requires
        lo <= hi <= v@.len(),
    ensures
        match r {
            Some(i) => lo <= i < hi && first_index_of(v@.subrange(lo as int, hi as int), c) == Some(
                i - lo,
            ),
            None => first_index_of(v@.subrange(lo as int, hi as int), c) is None,
        },
{
    proof {
        lemma_first_index_of(v@.subrange(lo as int, hi as int), c);
    }
    let mut i = lo;
    while i < hi
        invariant
            lo <= i <= hi <= v@.len(),
            forall|j: int| lo <= j < i ==> v@[j] != c,
        decreases hi - i,
    {
        if v[i] == c {
            proof {
                let s = v@.subrange(lo as int, hi as int);
                assert(s[i - lo] == c);
                assert forall|j: int| 0 <= j < i - lo implies s[j] != c by {
                    assert(s[j] == v@[lo + j]);
                }
                lemma_first_index_of_at(s, c, i - lo);
            }
            return Some(i);
        }
        i = i + 1;
    }
    proof {
        let s = v@.subrange(lo as int, hi as int);
        assert(forall|j: int| 0 <= j < s.len() ==> s[j] == v@[lo + j]);
    }
    None
}

/// Whether two character vectors are equal.
pub fn chars_eq(a: &Vec<char>, b: &Vec<char>) -> (r: bool)
    ensures
        r == (a@ == b@),
{
    if a.len() != b.len() {
        return false;
    }
    let mut i: usize = 0;
    while i < a.len()
        invariant
            a@.len() == b@.len(),
            0 <= i <= a@.len(),
            forall|j: int| 0 <= j < i ==> a@[j] == b@[j],
        decreases a.len() - i,
    {
        if a[i] != b[i] {
            return false;
        }
        i = i + 1;
    }
    proof {
        assert(a@ =~= b@);
    }
    true
}

/// Whether two string slices hold the same characters.
pub fn text_eq(a: &str, b: &str) -> (r: bool)
    ensures
        r == (a@ == b@),
{
    let va = chars_of(a);
    let vb = chars_of(b);
    chars_eq(&va, &vb)
}

/// Appends `" " + t` to `s` when `on` holds.
pub fn push_class_if(s: &mut String, on: bool, t: &str)
    ensures
        final(s)@ == old(s)@ + if on {
            seq![' '] + t@
        } else {
            Seq::<char>::empty()
        },
{
    let ghost start = s@;
    if on {
        push_char(s, ' ');
        push_text(s, t);
        proof {
            assert(s@ =~= start + (seq![' '] + t@));
        }
    } else {
        proof {
            assert(s@ =~= start + Seq::<char>::empty());
        }
    }
}

/// `seq![' '] + t@` when a class is given, nothing otherwise.
pub open spec fn extra_class(class: Option<&str>) -> Seq<char> {
    match class {
        Some(c) => seq![' '] + c@,
        None => Seq::<char>::empty(),
    }
}

/// Appends `" " + class` to `s` when a class is given.
pub fn push_extra_class(s: &mut String, class: Option<&str>)
    ensures
        final(s)@ == old(s)@ + extra_class(class),
{
    match class {
        Some(c) => push_class_if(s, true, c),
        None => push_class_if(s, false, ""),
    }
}

/// Builds a `String` holding the characters of `t`.
pub fn string_from(t: &str) -> (s: String)
    ensures
        s@ == t@,
{
    let mut s = String::new();
    push_text(&mut s, t);
    proof {
        assert(s@ =~= t@);
    }
    s
}

/// What `str::to_lowercase` gives for a text (full Unicode lower-casing).
pub uninterp spec fn lowercase(s: Seq<char>) -> Seq<char>;

/// Lower-cases a text with std's `str::to_lowercase`. The contract names the
/// result, a function of the text alone, and states that the empty text stays
/// empty; nothing else is said of the case mapping.
#[verifier::external_body]
pub(crate) fn to_lowercase(s: &str) -> (r: String)
    ensures
        r@ == lowercase(s@),
        s@.len() == 0 ==> r@.len() == 0,
{
    s.to_lowercase()
}

/// Whether `needle` occurs in `hay`.
pub fn chars_occur(hay: &Vec<char>, needle: &Vec<char>) -> (b: bool)
    ensures
        b == occurs_in(hay@, needle@),
{
    if needle.len() > hay.len() {
        proof {
            assert forall|i: int| !occurs_at(hay@, needle@, i) by {}
        }
        return false;
    }
    if needle.len() == 0 {
        proof {
            assert(hay@.subrange(0, 0) =~= needle@);
            assert(occurs_at(hay@, needle@, 0));
        }
        return true;
    }
    let hlen = hay.len();
    let last = hlen - needle.len();
    let mut i: usize = 0;
    while i <= last
        invariant
            hlen == hay@.len(),
            last == hay@.len() - needle@.len(),
            needle@.len() > 0,
            needle@.len() <= hay@.len(),
            0 <= i <= last + 1,
            forall|j: int| 0 <= j < i ==> !occurs_at(hay@, needle@, j),
        decreases last + 1 - i,
    {
        let mut k: usize = 0;
        let mut same = true;
        while k < needle.len()
            invariant
                hlen == hay@.len(),
                i <= last,
                needle@.len() > 0,
                i + needle@.len() <= hay@.len(),
                forall|j: int| 0 <= j < i ==> !occurs_at(hay@, needle@, j),
                needle@.len() <= hay@.len(),
                last == hay@.len() - needle@.len(),
                0 <= k <= needle@.len(),
                same == forall|j: int| 0 <= j < k ==> hay@[i + j] == needle@[j],
            decreases needle.len() - k,
        {
            if hay[i + k] != needle[k] {
                same = false;
            }
            k = k + 1;
        }
        if same {
            proof {
                assert(hay@.subrange(i as int, i + needle@.len()) =~= needle@);
                assert(occurs_at(hay@, needle@, i as int));
            }
            return true;
        }
        proof {
            if occurs_at(hay@, needle@, i as int) {
                let w = choose|j: int| 0 <= j < needle@.len() && hay@[i + j] != needle@[j];
                assert(hay@.subrange(i as int, i + needle@.len())[w] == hay@[i + w]);
            }
        }
        i = i + 1;
    }
    proof {
        assert forall|j: int| !occurs_at(hay@, needle@, j) by {
            if 0 <= j && j + needle@.len() <= hay@.len() {
                assert(j <= last);
            }
        }
    }
    false
}

/// The decimal digit character for `d < 10`.
pub open spec fn digit_char(d: nat) -> char {
    if d == 0 {
        '0'
    } else if d == 1 {
        '1'
    } else if d == 2 {
        '2'
    } else if d == 3 {
        '3'
    } else if d == 4 {
        '4'
    } else if d == 5 {
        '5'
    } else if d == 6 {
        '6'
    } else if d == 7 {
        '7'
    } else if d == 8 {
        '8'
    } else {
        '9'
    }
}

/// The decimal digits of `n`, as `format!("{n}")` writes them.
pub open spec fn decimal(n: nat) -> Seq<char>
    decreases n,
{
    if n < 10 {
        seq![digit_char(n)]
    } else {
        decimal(n / 10).push(digit_char(n % 10))
    }
}

fn digit(d: u64) -> (c: char)
    requires
        d < 10,
    ensures
        c == digit_char(d as nat),
{
    if d == 0 {
        '0'
    } else if d == 1 {
        '1'
    } else if d == 2 {
        '2'
    } else if d == 3 {
        '3'
    } else if d == 4 {
        '4'
    } else if d == 5 {
        '5'
    } else if d == 6 {
        '6'
    } else if d == 7 {
        '7'
    } else if d == 8 {
        '8'
    } else {
        '9'
    }
}

/// Appends the decimal digits of `n` to `s`.
pub fn push_decimal(s: &mut String, n: u64)
    ensures
        final(s)@ == old(s)@ + decimal(n as nat),
    decreases n,
{
    let ghost start = s@;
    if n >= 10 {
        push_decimal(s, n / 10);
    }
    push_char(s, digit(n % 10));
    proof {
        if n < 10 {
            assert(s@ =~= start + decimal(n as nat));
        } else {
            assert(s@ =~= start + decimal(n as nat));
        }
    }
}

/// Appends the decimal digits of `n` to a character vector.
pub fn push_decimal_chars(out: &mut Vec<char>, n: u64)
    ensures
        final(out)@ == old(out)@ + decimal(n as nat),
    decreases n,
{
    let ghost start = out@;
    if n >= 10 {
        push_decimal_chars(out, n / 10);
    }
    out.push(digit(n % 10));
    proof {
        assert(out@ =~= start + decimal(n as nat));
    }
}

/// Appends the characters `v[lo..hi]` to a character vector.
pub fn push_chars_range(out: &mut Vec<char>, v: &Vec<char>, lo: usize, hi: usize)
    requires
        lo <= hi <= v@.len(),
    ensures
        final(out)@ == old(out)@ + v@.subrange(lo as int, hi as int),
{
    let ghost start = out@;
    let mut i = lo;
    while i < hi
        invariant
            lo <= i <= hi <= v@.len(),
            out@ == start + v@.subrange(lo as int, i as int),
        decreases hi - i,
    {
        proof {
            assert(v@.subrange(lo as int, i + 1) =~= v@.subrange(lo as int, i as int).push(v@[i as int]));
        }
        out.push(v[i]);
        i = i + 1;
    }
}

/// Joining the first `k + 1` pieces adds the separator and piece `k` to the
/// join of the first `k`.
pub proof fn lemma_join_take(pieces: Seq<Seq<char>>, sep: Seq<char>, k: int)
    requires
        0 <= k < pieces.len(),
    ensures
        join(pieces.take(k + 1), sep) == if k == 0 {
            pieces[0]
        } else {
            join(pieces.take(k), sep) + sep + pieces[k]
        },
{
    assert(pieces.take(k + 1).drop_last() =~= pieces.take(k));
}

/// Decimal digits are the characters `0` to `9`.
pub proof fn lemma_decimal_digits(n: nat)
    ensures
        decimal(n).len() >= 1,
        forall|i: int| 0 <= i < decimal(n).len() ==> '0' <= #[trigger] decimal(n)[i] <= '9',
    decreases n,
{
    if n >= 10 {
        lemma_decimal_digits(n / 10);
    }
}

/// Whether `s` holds no `c`.
pub open spec fn lacks(s: Seq<char>, c: char) -> bool {
    forall|i: int| 0 <= i < s.len() ==> s[i] != c
}

/// Splitting always gives at least one piece, and no piece holds the separator.
pub proof fn lemma_split_pieces(s: Seq<char>, sep: char)
    ensures
        split_on(s, sep).len() >= 1,
        forall|k: int| 0 <= k < split_on(s, sep).len() ==> lacks(#[trigger] split_on(s, sep)[k], sep),
    decreases s.len(),
{
    if s.len() > 0 {
        lemma_split_pieces(s.drop_last(), sep);
        let pre = split_on(s.drop_last(), sep);
        if s.last() != sep {
            let l = pre.last().push(s.last());
            assert(lacks(l, sep)) by {
                assert forall|i: int| 0 <= i < l.len() implies l[i] != sep by {
                    if i < l.len() - 1 {
                        assert(l[i] == pre.last()[i]);
                        assert(lacks(pre[pre.len() - 1], sep));
                    }
                }
            }
            assert forall|k: int| 0 <= k < split_on(s, sep).len() implies lacks(
                #[trigger] split_on(s, sep)[k],
                sep,
            ) by {
                if k < pre.len() - 1 {
                    assert(split_on(s, sep)[k] == pre[k]);
                }
            }
        } else {
            assert forall|k: int| 0 <= k < split_on(s, sep).len() implies lacks(
                #[trigger] split_on(s, sep)[k],
                sep,
            ) by {
                if k < pre.len() {
                    assert(split_on(s, sep)[k] == pre[k]);
                }
            }
        }
    }
}

/// Appending text without the separator extends the last piece.
pub proof fn lemma_split_append_plain(s: Seq<char>, t: Seq<char>, sep: char)
    requires
        lacks(t, sep),
    ensures
        split_on(s + t, sep) == split_on(s, sep).update(
            split_on(s, sep).len() - 1,
            split_on(s, sep).last() + t,
        ),
    decreases t.len(),
{
    lemma_split_pieces(s, sep);
    if t.len() == 0 {
        assert(s + t =~= s);
        assert(split_on(s, sep).last() + t =~= split_on(s, sep).last());
        assert(split_on(s, sep).update(split_on(s, sep).len() - 1, split_on(s, sep).last())
            =~= split_on(s, sep));
    } else {
        let t0 = t.drop_last();
        assert(lacks(t0, sep)) by {
            assert forall|i: int| 0 <= i < t0.len() implies t0[i] != sep by {
                assert(t0[i] == t[i]);
            }
        }
        lemma_split_append_plain(s, t0, sep);
        assert((s + t).drop_last() =~= s + t0);
        assert((s + t).last() == t.last());
        assert(t.last() != sep);
        let p = split_on(s, sep);
        let pre = split_on(s + t0, sep);
        assert(split_on(s + t, sep) == pre.update(pre.len() - 1, pre.last().push(t.last())));
        assert(pre.last() == p.last() + t0);
        assert(p.last() + t0 + seq![t.last()] =~= p.last() + t);
        assert(pre.last().push(t.last()) =~= p.last() + t);
        assert(split_on(s + t, sep) =~= p.update(p.len() - 1, p.last() + t));
    }
}

/// A separator at the end opens a new, empty piece.
pub proof fn lemma_split_push_sep(s: Seq<char>, sep: char)
    ensures
        split_on(s.push(sep), sep) == split_on(s, sep).push(Seq::<char>::empty()),
{
    assert(s.push(sep).drop_last() =~= s);
}

/// Trimming the start keeps a suffix: `trim_start_by(s)` is `s` without some first characters.
pub proof fn lemma_trim_start_suffix(s: Seq<char>, colon: bool)
    ensures
        trim_start_by(s, colon).len() <= s.len(),
        trim_start_by(s, colon) == s.skip(s.len() - trim_start_by(s, colon).len()),
    decreases s.len(),
{
    if s.len() > 0 && trimmed_char(s[0], colon) {
        lemma_trim_start_suffix(s.drop_first(), colon);
        let k = trim_start_by(s, colon).len();
        assert(s.drop_first().skip(s.len() - 1 - k) =~= s.skip(s.len() - k));
    } else {
        assert(s.skip(0) =~= s);
    }
}

/// Trimming the end keeps a prefix.
pub proof fn lemma_trim_end_prefix(s: Seq<char>, colon: bool)
    ensures
        trim_end_by(s, colon).len() <= s.len(),
        trim_end_by(s, colon) == s.take(trim_end_by(s, colon).len() as int),
    decreases s.len(),
{
    if s.len() > 0 && trimmed_char(s.last(), colon) {
        lemma_trim_end_prefix(s.drop_last(), colon);
        let k = trim_end_by(s, colon).len();
        assert(s.drop_last().take(k as int) =~= s.take(k as int));
    } else {
        assert(s.take(s.len() as int) =~= s);
    }
}

/// Trimming never brings in a character that the text lacks.
pub proof fn lemma_trim_lacks(s: Seq<char>, c: char)
    requires
        lacks(s, c),
    ensures
        lacks(trim(s), c),
{
    lemma_trim_start_suffix(s, false);
    let a = trim_start_by(s, false);
    assert(lacks(a, c)) by {
        assert forall|i: int| 0 <= i < a.len() implies a[i] != c by {
            assert(a[i] == s[s.len() - a.len() + i]);
        }
    }
    lemma_trim_end_prefix(a, false);
    let b = trim_end_by(a, false);
    assert forall|i: int| 0 <= i < b.len() implies b[i] != c by {
        assert(b[i] == a[i]);
    }
}

/// A trailing white-space character does not change the trimmed text.
pub proof fn lemma_trim_push_white(s: Seq<char>, c: char)
    requires
        is_white_space(c),
    ensures
        trim(s.push(c)) == trim(s),
{
    lemma_trim_start_push(s, c);
    let a = trim_start_by(s, false);
    if a.len() > 0 {
        assert(a.push(c).drop_last() =~= a);
    } else {
        assert(trim_start_by(s.push(c), false) =~= Seq::<char>::empty());
    }
}

proof fn lemma_trim_start_push(s: Seq<char>, c: char)
    requires
        is_white_space(c),
    ensures
        trim_start_by(s, false).len() > 0 ==> trim_start_by(s.push(c), false) == trim_start_by(s, false).push(c),
        trim_start_by(s, false).len() == 0 ==> trim_start_by(s.push(c), false).len() == 0,
    decreases s.len(),
{
    if s.len() == 0 {
        assert(s.push(c) =~= seq![c]);
        assert(seq![c].drop_first() =~= Seq::<char>::empty());
        assert(trim_start_by(Seq::<char>::empty(), false) == Seq::<char>::empty());
        assert(trim_start_by(seq![c], false) == trim_start_by(Seq::<char>::empty(), false));
    } else {
        assert(s.push(c)[0] == s[0]);
        if trimmed_char(s[0], false) {
            assert(s.push(c).drop_first() =~= s.drop_first().push(c));
            lemma_trim_start_push(s.drop_first(), c);
        }
    }
}

/// A text that starts and ends with characters that are not white space is its own trim.
pub proof fn lemma_trim_unpadded(s: Seq<char>)
    requires
        s.len() > 0,
        !is_white_space(s[0]),
        !is_white_space(s.last()),
    ensures
        trim(s) == s,
{
}

/// Splitting lines joined with a separator that none of them holds gives the
/// lines back.
pub proof fn lemma_split_join_lines(lines: Seq<Seq<char>>, sep: char)
    requires
        lines.len() >= 1,
        forall|k: int| 0 <= k < lines.len() ==> lacks(#[trigger] lines[k], sep),
    ensures
        split_on(join(lines, seq![sep]), sep) == lines,
    decreases lines.len(),
{
    if lines.len() == 1 {
        lemma_split_append_plain(Seq::<char>::empty(), lines[0], sep);
        assert(Seq::<char>::empty() + lines[0] =~= lines[0]);
        assert(split_on(Seq::<char>::empty(), sep) == seq![Seq::<char>::empty()]);
        assert(split_on(lines[0], sep) =~= lines);
    } else {
        let init = lines.drop_last();
        assert forall|k: int| 0 <= k < init.len() implies lacks(#[trigger] init[k], sep) by {
            assert(init[k] == lines[k]);
        }
        lemma_split_join_lines(init, sep);
        let j = join(init, seq![sep]);
        assert(join(lines, seq![sep]) == j + seq![sep] + lines.last());
        assert(j + seq![sep] =~= j.push(sep));
        lemma_split_push_sep(j, sep);
        assert(lacks(lines.last(), sep));
        lemma_split_append_plain(j.push(sep), lines.last(), sep);
        assert(Seq::<char>::empty() + lines.last() =~= lines.last());
        assert(split_on(join(lines, seq![sep]), sep) =~= lines);
    }
}

} // verus!
