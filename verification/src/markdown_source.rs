//! Edits of the Markdown editor's source view. Offsets and selections count
//! characters of the source text.
use vstd::prelude::*;

use crate::text::{
    chars_of, decimal, join, lacks, lemma_join_take, push_chars_range, push_decimal_chars, push_range,
    range_pieces, split_on, split_ranges, string_of_range, text_eq, trim, trim_range,
};

verus! {

/// The source text after an edit, with the selection to restore.
pub struct SourceEdit {
    pub value: String,
    pub selection_start: usize,
    pub selection_end: usize,
}

/// `v` with `v[lo..hi]` replaced by `replacement`.
pub open spec fn spliced(v: Seq<char>, lo: int, hi: int, replacement: Seq<char>) -> Seq<char> {
    v.subrange(0, lo) + replacement + v.subrange(hi, v.len() as int)
}

/// The text and selection of an edit.
pub open spec fn edit_view(e: SourceEdit) -> (Seq<char>, int, int) {
    (e.value@, e.selection_start as int, e.selection_end as int)
}

/// Wrapping `value[start..end]` in `prefix` and `suffix`.
pub open spec fn wrapped(
    value: Seq<char>,
    start: int,
    end: int,
    prefix: Seq<char>,
    suffix: Seq<char>,
    placeholder: Seq<char>,
) -> (Seq<char>, int, int) {
    let selected = value.subrange(start, end);
    let inner = wrap_inner(selected, placeholder);
    (
        spliced(value, start, end, prefix + inner + suffix),
        if selected.len() == 0 {
            start + prefix.len()
        } else {
            start
        },
        start + prefix.len() + inner.len() + if selected.len() == 0 {
            0
        } else {
            suffix.len() as int
        },
    )
}

/// Replacing `value[start..end]` by `text`, with the cursor `cursor_offset`
/// after `start`.
pub open spec fn inserted(value: Seq<char>, start: int, end: int, text: Seq<char>, cursor_offset: int) -> (
    Seq<char>,
    int,
    int,
) {
    (spliced(value, start, end, text), start + cursor_offset, start + cursor_offset)
}

/// What a wrap puts between prefix and suffix: the selection, or the
/// placeholder when nothing is selected.
pub open spec fn wrap_inner(selected: Seq<char>, placeholder: Seq<char>) -> Seq<char> {
    if selected.len() == 0 {
        placeholder
    } else {
        selected
    }
}

/// Builds `v[..lo] + replacement + v[hi..]`.
fn splice(v: &Vec<char>, lo: usize, hi: usize, replacement: &Vec<char>) -> (r: String)
    requires
        lo <= hi <= v@.len(),
    ensures
        r@ == spliced(v@, lo as int, hi as int, replacement@),
{
    let mut r = String::new();
    push_range(&mut r, v, 0, lo);
    push_range(&mut r, replacement, 0, replacement.len());
    push_range(&mut r, v, hi, v.len());
    proof {
        assert(replacement@.subrange(0, replacement@.len() as int) =~= replacement@);
        assert(r@ =~= spliced(v@, lo as int, hi as int, replacement@));
    }
    r
}

/// Appends the characters of `v` to `out`.
fn push_all(out: &mut Vec<char>, v: &Vec<char>)
    ensures
        final(out)@ == old(out)@ + v@,
{
    let ghost start = out@;
    let mut i: usize = 0;
    while i < v.len()
        invariant
            0 <= i <= v@.len(),
            out@ == start + v@.take(i as int),
        decreases v.len() - i,
    {
        proof {
            assert(v@.take(i + 1) =~= v@.take(i as int).push(v@[i as int]));
        }
        out.push(v[i]);
        i = i + 1;
    }
    proof {
        assert(v@.take(v@.len() as int) =~= v@);
    }
}

/// Wraps the selection `value[start..end]` in `prefix` and `suffix`; with an
/// empty selection the placeholder is wrapped and left selected, otherwise the
/// whole wrapped text is selected.
pub fn wrap_selection(
    value: &str,
    start: usize,
    end: usize,
    prefix: &str,
    suffix: &str,
    placeholder: &str,
) -> (r: SourceEdit)
    requires
        start <= end <= value@.len(),
        value@.len() + prefix@.len() + suffix@.len() + placeholder@.len() <= usize::MAX,
    ensures
        edit_view(r) == wrapped(value@, start as int, end as int, prefix@, suffix@, placeholder@),
{
    let v = chars_of(value);
    let p = chars_of(prefix);
    let s = chars_of(suffix);
    let mut replacement: Vec<char> = Vec::new();
    push_all(&mut replacement, &p);
    let inner_len: usize;
    if start == end {
        let ph = chars_of(placeholder);
        push_all(&mut replacement, &ph);
        inner_len = ph.len();
    } else {
        let mut i = start;
        while i < end
            invariant
                start <= i <= end <= v@.len(),
                replacement@ == p@ + v@.subrange(start as int, i as int),
            decreases end - i,
        {
            proof {
                assert(v@.subrange(start as int, i + 1) =~= v@.subrange(start as int, i as int).push(
                    v@[i as int],
                ));
            }
            replacement.push(v[i]);
            i = i + 1;
        }
        inner_len = end - start;
    }
    push_all(&mut replacement, &s);
    let out = splice(&v, start, end, &replacement);
    proof {
        let selected = value@.subrange(start as int, end as int);
        assert(replacement@ =~= p@ + wrap_inner(selected, placeholder@) + s@);
    }
    if start == end {
        SourceEdit { value: out, selection_start: start + p.len(), selection_end: start + p.len() + inner_len }
    } else {
        SourceEdit {
            value: out,
            selection_start: start,
            selection_end: start + p.len() + inner_len + s.len(),
        }
    }
}

/// Replaces `value[start..end]` with `text` and puts the cursor `cursor_offset`
/// characters after `start`.
pub fn insert_text(value: &str, start: usize, end: usize, text: &str, cursor_offset: usize) -> (r:
    SourceEdit)
    requires
        start <= end <= value@.len(),
        start + cursor_offset <= usize::MAX,
    ensures
        edit_view(r) == inserted(value@, start as int, end as int, text@, cursor_offset as int),
{
    let v = chars_of(value);
    let t = chars_of(text);
    let out = splice(&v, start, end, &t);
    SourceEdit { value: out, selection_start: start + cursor_offset, selection_end: start + cursor_offset }
}

/// Start of the line holding position `i`: just after the last `\n` before `i`.
pub open spec fn line_start(v: Seq<char>, i: int) -> int
    decreases i,
{
    if i <= 0 {
        0
    } else if v[i - 1] == '\n' {
        i
    } else {
        line_start(v, i - 1)
    }
}

/// End of the line holding position `i`: the first `\n` at or after `i`, or
/// the end of the text.
pub open spec fn line_end(v: Seq<char>, i: int) -> int
    decreases v.len() - i,
{
    if i >= v.len() {
        v.len() as int
    } else if v[i] == '\n' {
        i
    } else {
        line_end(v, i + 1)
    }
}

fn find_line_start(v: &Vec<char>, i: usize) -> (r: usize)
    requires
        i <= v@.len(),
    ensures
        r == line_start(v@, i as int),
        r <= i,
{
    let mut k = i;
    while k > 0 && v[k - 1] != '\n'
        invariant
            k <= i <= v@.len(),
            line_start(v@, k as int) == line_start(v@, i as int),
        decreases k,
    {
        k = k - 1;
    }
    k
}

fn find_line_end(v: &Vec<char>, i: usize) -> (r: usize)
    requires
        i <= v@.len(),
    ensures
        r == line_end(v@, i as int),
        i <= r <= v@.len(),
{
    let mut k = i;
    while k < v.len() && v[k] != '\n'
        invariant
            i <= k <= v@.len(),
            line_end(v@, k as int) == line_end(v@, i as int),
        decreases v@.len() - k,
    {
        k = k + 1;
    }
    k
}

/// What goes in front of each selected line.
pub enum LinePrefix {
    /// A heading mark: `level` times `#`, then a space.
    Heading(usize),
    /// A bullet, `- `.
    Bullet,
    /// `1. `, `2. `, ... counting the selected lines.
    Numbered,
}

/// `n` times `#`.
pub open spec fn hashes(n: nat) -> Seq<char> {
    Seq::new(n, |i: int| '#')
}

/// The prefix of the selected line with index `i` (from 0).
pub open spec fn line_prefix(prefix: LinePrefix, i: nat) -> Seq<char> {
    match prefix {
        LinePrefix::Heading(level) => hashes(level as nat).push(' '),
        LinePrefix::Bullet => seq!['-', ' '],
        LinePrefix::Numbered => decimal(i + 1) + seq!['.', ' '],
    }
}

/// `s` without its leading `#` characters.
pub open spec fn drop_hashes(s: Seq<char>) -> Seq<char>
    decreases s.len(),
{
    if s.len() > 0 && s[0] == '#' {
        drop_hashes(s.drop_first())
    } else {
        s
    }
}

/// A line without its heading marks: leading `#`s removed, then one space.
pub open spec fn unheaded(line: Seq<char>) -> Seq<char> {
    let t = drop_hashes(line);
    if t.len() > 0 && t[0] == ' ' {
        t.drop_first()
    } else {
        t
    }
}

enum LineEdit {
    Prefix(LinePrefix),
    Unheading,
}

spec fn edited_line(edit: LineEdit, i: nat, line: Seq<char>) -> Seq<char> {
    match edit {
        LineEdit::Prefix(p) => line_prefix(p, i) + line,
        LineEdit::Unheading => unheaded(line),
    }
}

spec fn edited_lines(edit: LineEdit, lines: Seq<Seq<char>>) -> Seq<Seq<char>> {
    Seq::new(lines.len(), |i: int| edited_line(edit, i as nat, lines[i]))
}

spec fn edited_block(value: Seq<char>, start: int, end: int, edit: LineEdit) -> (Seq<char>, int, int) {
    let ls = line_start(value, start);
    let le = line_end(value, end);
    let block = join(edited_lines(edit, split_on(value.subrange(ls, le), '\n')), seq!['\n']);
    (spliced(value, ls, le, block), ls, ls + block.len())
}

/// Every line touched by `value[start..end]` behind its prefix; the rewritten
/// lines end up selected.
pub open spec fn prefixed_block(value: Seq<char>, start: int, end: int, prefix: LinePrefix) -> (
    Seq<char>,
    int,
    int,
) {
    let ls = line_start(value, start);
    let le = line_end(value, end);
    let lines = split_on(value.subrange(ls, le), '\n');
    let block = join(
        Seq::new(lines.len(), |i: int| line_prefix(prefix, i as nat) + lines[i]),
        seq!['\n'],
    );
    (spliced(value, ls, le, block), ls, ls + block.len())
}

/// Every line touched by `value[start..end]` without its heading marks; the
/// rewritten lines end up selected.
pub open spec fn unheaded_block(value: Seq<char>, start: int, end: int) -> (Seq<char>, int, int) {
    let ls = line_start(value, start);
    let le = line_end(value, end);
    let lines = split_on(value.subrange(ls, le), '\n');
    let block = join(Seq::new(lines.len(), |i: int| unheaded(lines[i])), seq!['\n']);
    (spliced(value, ls, le, block), ls, ls + block.len())
}

/// The start of `v[lo..hi]` after its leading `#`s and one following space.
fn unheaded_start(v: &Vec<char>, lo: usize, hi: usize) -> (a: usize)
    requires
        lo <= hi <= v@.len(),
    ensures
        lo <= a <= hi,
        v@.subrange(a as int, hi as int) == unheaded(v@.subrange(lo as int, hi as int)),
{
    let mut a = lo;
    while a < hi && v[a] == '#'
        invariant
            lo <= a <= hi <= v@.len(),
            drop_hashes(v@.subrange(lo as int, hi as int)) == drop_hashes(
                v@.subrange(a as int, hi as int),
            ),
        decreases hi - a,
    {
        proof {
            assert(v@.subrange(a as int, hi as int).drop_first() =~= v@.subrange(a + 1, hi as int));
        }
        a = a + 1;
    }
    proof {
        let t = v@.subrange(a as int, hi as int);
        if a < hi {
            assert(t[0] == v@[a as int]);
            assert(t.drop_first() =~= v@.subrange(a + 1, hi as int));
        }
    }
    if a < hi && v[a] == ' ' {
        a + 1
    } else {
        a
    }
}

fn push_edited_line(
    out: &mut Vec<char>,
    v: &Vec<char>,
    lo: usize,
    hi: usize,
    edit: &LineEdit,
    i: usize,
)
    requires
        lo <= hi <= v@.len(),
        i < usize::MAX,
    ensures
        final(out)@ == old(out)@ + edited_line(*edit, i as nat, v@.subrange(lo as int, hi as int)),
{
    let ghost start = out@;
    match edit {
        LineEdit::Prefix(LinePrefix::Heading(level)) => {
            let level = *level;
            let mut k: usize = 0;
            while k < level
                invariant
                    0 <= k <= level,
                    out@ == start + hashes(k as nat),
                decreases level - k,
            {
                proof {
                    assert(hashes((k + 1) as nat) =~= hashes(k as nat).push('#'));
                }
                out.push('#');
                k = k + 1;
            }
            out.push(' ');
            push_chars_range(out, v, lo, hi);
        },
        LineEdit::Prefix(LinePrefix::Bullet) => {
            out.push('-');
            out.push(' ');
            push_chars_range(out, v, lo, hi);
        },
        LineEdit::Prefix(LinePrefix::Numbered) => {
            push_decimal_chars(out, (i + 1) as u64);
            out.push('.');
            out.push(' ');
            push_chars_range(out, v, lo, hi);
        },
        LineEdit::Unheading => {
            let a = unheaded_start(v, lo, hi);
            push_chars_range(out, v, a, hi);
        },
    }
    proof {
        assert(out@ =~= start + edited_line(*edit, i as nat, v@.subrange(lo as int, hi as int)));
    }
}

/// Rewrites every line touched by the selection `value[start..end]`.
fn edit_lines(value: &str, start: usize, end: usize, edit: &LineEdit) -> (r: SourceEdit)
    requires
        start <= end <= value@.len(),
    ensures
        edit_view(r) == edited_block(value@, start as int, end as int, *edit),
{
    let v = chars_of(value);
    let ls = find_line_start(&v, start);
    let le = find_line_end(&v, end);
    let ranges = split_ranges(&v, ls, le, '\n');
    let ghost lines = edited_lines(*edit, range_pieces(v@, ranges@));
    let mut out: Vec<char> = Vec::new();
    push_chars_range(&mut out, &v, 0, ls);
    let mut k: usize = 0;
    while k < ranges.len()
        invariant
            0 <= k <= ranges@.len(),
            ls <= le <= v@.len(),
            lines == edited_lines(*edit, range_pieces(v@, ranges@)),
            lines.len() == ranges@.len(),
            forall|j: int| 0 <= j < ranges@.len() ==> ls <= #[trigger] ranges@[j].0 <= ranges@[j].1 <= le,
            out@ == v@.subrange(0, ls as int) + join(lines.take(k as int), seq!['\n']),
        decreases ranges.len() - k,
    {
        let (lo, hi) = ranges[k];
        proof {
            lemma_join_take(lines, seq!['\n'], k as int);
            assert(lines[k as int] == edited_line(*edit, k as nat, v@.subrange(lo as int, hi as int)));
        }
        if k > 0 {
            out.push('\n');
        }
        push_edited_line(&mut out, &v, lo, hi, edit, k);
        proof {
            if k == 0 {
                assert(lines.take(0) =~= Seq::<Seq<char>>::empty());
            }
            assert(out@ =~= v@.subrange(0, ls as int) + join(lines.take(k + 1), seq!['\n']));
        }
        k = k + 1;
    }
    proof {
        assert(lines.take(ranges@.len() as int) =~= lines);
    }
    let selection_end = out.len();
    push_chars_range(&mut out, &v, le, v.len());
    proof {
        assert(out@ =~= spliced(v@, ls as int, le as int, join(lines, seq!['\n'])));
    }
    SourceEdit { value: string_of_range(&out, 0, out.len()), selection_start: ls, selection_end }
}

/// Puts `prefix` in front of every line touched by the selection and selects
/// the rewritten lines.
pub fn prefix_lines(value: &str, start: usize, end: usize, prefix: LinePrefix) -> (r: SourceEdit)
    requires
        start <= end <= value@.len(),
    ensures
        edit_view(r) == prefixed_block(value@, start as int, end as int, prefix),
{
    let ghost p = prefix;
    let edit = LineEdit::Prefix(prefix);
    let r = edit_lines(value, start, end, &edit);
    proof {
        let ls = line_start(value@, start as int);
        let le = line_end(value@, end as int);
        let lines = split_on(value@.subrange(ls, le), '\n');
        assert(edited_lines(edit, lines) =~= Seq::new(
            lines.len(),
            |i: int| line_prefix(p, i as nat) + lines[i],
        ));
    }
    r
}

/// Removes the heading marks from every line touched by the selection and
/// selects the rewritten lines.
pub fn unheading_lines(value: &str, start: usize, end: usize) -> (r: SourceEdit)
    requires
        start <= end <= value@.len(),
    ensures
        edit_view(r) == unheaded_block(value@, start as int, end as int),
{
    let r = edit_lines(value, start, end, &LineEdit::Unheading);
    proof {
        let ls = line_start(value@, start as int);
        let le = line_end(value@, end as int);
        let lines = split_on(value@.subrange(ls, le), '\n');
        assert(edited_lines(LineEdit::Unheading, lines) =~= Seq::new(
            lines.len(),
            |i: int| unheaded(lines[i]),
        ));
    }
    r
}

/// The text of an inserted link: the selection, or the address when the
/// selection is blank.
pub open spec fn link_text(selected: Seq<char>, href: Seq<char>) -> Seq<char> {
    if trim(selected).len() == 0 {
        href
    } else {
        selected
    }
}

/// The Markdown link `[text](href)`.
pub open spec fn markdown_link(text: Seq<char>, href: Seq<char>) -> Seq<char> {
    seq!['['] + text + seq![']', '('] + href + seq![')']
}

/// Replaces the selection with a Markdown link to the trimmed `link_url` and
/// selects the link; nothing happens (`None`) when the address is blank.
pub fn source_link(value: &str, start: usize, end: usize, link_url: &str) -> (r: Option<SourceEdit>)
    requires
        start <= end <= value@.len(),
    ensures
        r is None <==> trim(link_url@).len() == 0,
        r matches Some(e) ==> {
            let href = trim(link_url@);
            let link = markdown_link(link_text(value@.subrange(start as int, end as int), href), href);
            &&& e.value@ == spliced(value@, start as int, end as int, link)
            &&& e.selection_start == start
            &&& e.selection_end == start + link.len()
        },
{
    let u = chars_of(link_url);
    let (ha, hb) = trim_range(&u, 0, u.len(), false);
    proof {
        assert(u@.subrange(0, u@.len() as int) =~= link_url@);
    }
    if ha == hb {
        return None;
    }
    let v = chars_of(value);
    let (sa, sb) = trim_range(&v, start, end, false);
    let ghost href = trim(link_url@);
    let ghost selected = value@.subrange(start as int, end as int);
    let mut out: Vec<char> = Vec::new();
    push_chars_range(&mut out, &v, 0, start);
    out.push('[');
    if sa == sb {
        push_chars_range(&mut out, &u, ha, hb);
    } else {
        push_chars_range(&mut out, &v, start, end);
    }
    out.push(']');
    out.push('(');
    push_chars_range(&mut out, &u, ha, hb);
    out.push(')');
    let selection_end = out.len();
    push_chars_range(&mut out, &v, end, v.len());
    proof {
        let link = markdown_link(link_text(selected, href), href);
        assert(out@.subrange(0, selection_end as int) =~= v@.subrange(0, start as int) + link);
        assert(out@ =~= spliced(v@, start as int, end as int, link));
    }
    Some(SourceEdit { value: string_of_range(&out, 0, out.len()), selection_start: start, selection_end })
}

/// The Markdown table the source view inserts.
pub open spec fn source_table_template() -> Seq<char> {
    "| Column 1 | Column 2 |\n| --- | --- |\n| Value 1 | Value 2 |"@
}

/// What a toolbar action does to the Markdown source view: the edited text and
/// the selection after it; `None` for actions that leave the source alone
/// there (they toggle the view, open a popup or belong to the caller).
pub open spec fn source_action(action: Seq<char>, value: Seq<char>, start: int, end: int) -> Option<
    (Seq<char>, int, int),
> {
    if action == "bold"@ {
        Some(wrapped(value, start, end, "**"@, "**"@, "bold"@))
    } else if action == "italic"@ {
        Some(wrapped(value, start, end, "*"@, "*"@, "italic"@))
    } else if action == "heading-1"@ {
        Some(prefixed_block(value, start, end, LinePrefix::Heading(1)))
    } else if action == "heading-2"@ {
        Some(prefixed_block(value, start, end, LinePrefix::Heading(2)))
    } else if action == "heading-3"@ {
        Some(prefixed_block(value, start, end, LinePrefix::Heading(3)))
    } else if action == "heading-4"@ {
        Some(prefixed_block(value, start, end, LinePrefix::Heading(4)))
    } else if action == "heading-paragraph"@ {
        Some(unheaded_block(value, start, end))
    } else if action == "unordered-list"@ {
        Some(prefixed_block(value, start, end, LinePrefix::Bullet))
    } else if action == "ordered-list"@ {
        Some(prefixed_block(value, start, end, LinePrefix::Numbered))
    } else if action == "table"@ {
        Some(inserted(value, start, end, source_table_template(), 0))
    } else if action == "insert-divider"@ {
        Some(inserted(value, start, end, "\n---\n"@, 5))
    } else {
        None
    }
}

/// Applies a toolbar action to the Markdown source view with the selection
/// `value[start..end]`.
pub fn source_action_edit(action: &str, value: &str, start: usize, end: usize) -> (r: Option<
    SourceEdit,
>)
    requires
        start <= end <= value@.len(),
        value@.len() + 16 <= usize::MAX,
    ensures
        match r {
            Some(e) => source_action(action@, value@, start as int, end as int) == Some(edit_view(e)),
            None => source_action(action@, value@, start as int, end as int) is None,
        },
{
    proof {
        reveal_strlit("**");
        reveal_strlit("*");
        reveal_strlit("bold");
        reveal_strlit("italic");
    }
    if text_eq(action, "bold") {
        Some(wrap_selection(value, start, end, "**", "**", "bold"))
    } else if text_eq(action, "italic") {
        Some(wrap_selection(value, start, end, "*", "*", "italic"))
    } else if text_eq(action, "heading-1") {
        Some(prefix_lines(value, start, end, LinePrefix::Heading(1)))
    } else if text_eq(action, "heading-2") {
        Some(prefix_lines(value, start, end, LinePrefix::Heading(2)))
    } else if text_eq(action, "heading-3") {
        Some(prefix_lines(value, start, end, LinePrefix::Heading(3)))
    } else if text_eq(action, "heading-4") {
        Some(prefix_lines(value, start, end, LinePrefix::Heading(4)))
    } else if text_eq(action, "heading-paragraph") {
        Some(unheading_lines(value, start, end))
    } else if text_eq(action, "unordered-list") {
        Some(prefix_lines(value, start, end, LinePrefix::Bullet))
    } else if text_eq(action, "ordered-list") {
        Some(prefix_lines(value, start, end, LinePrefix::Numbered))
    } else if text_eq(action, "table") {
        Some(
            insert_text(
                value,
                start,
                end,
                "| Column 1 | Column 2 |\n| --- | --- |\n| Value 1 | Value 2 |",
                0,
            ),
        )
    } else if text_eq(action, "insert-divider") {
        Some(insert_text(value, start, end, "\n---\n", 5))
    } else {
        None
    }
}

/// The browser editing command (and its value) a toolbar action runs in the
/// rich editor, when it runs one.
pub fn rich_document_command(action: &str) -> (r: Option<(&'static str, Option<&'static str>)>)
    ensures
        match r {
            Some((command, value)) => {
                let v = match value {
                    Some(t) => Some(t@),
                    None => None,
                };
                ||| action@ == "bold"@ && command@ == "bold"@ && v is None
                ||| action@ == "italic"@ && command@ == "italic"@ && v is None
                ||| action@ == "heading-1"@ && command@ == "formatBlock"@ && v == Some("h1"@)
                ||| action@ == "heading-2"@ && command@ == "formatBlock"@ && v == Some("h2"@)
                ||| action@ == "heading-3"@ && command@ == "formatBlock"@ && v == Some("h3"@)
                ||| action@ == "heading-4"@ && command@ == "formatBlock"@ && v == Some("h4"@)
                ||| action@ == "heading-paragraph"@ && command@ == "formatBlock"@ && v == Some("p"@)
                ||| action@ == "unordered-list"@ && command@ == "insertUnorderedList"@ && v is None
                ||| action@ == "ordered-list"@ && command@ == "insertOrderedList"@ && v is None
            },
            None => !(action@ == "bold"@ || action@ == "italic"@ || action@ == "heading-1"@
                || action@ == "heading-2"@ || action@ == "heading-3"@ || action@ == "heading-4"@
                || action@ == "heading-paragraph"@ || action@ == "unordered-list"@ || action@
                == "ordered-list"@),
        },
{
    if text_eq(action, "bold") {
        Some(("bold", None))
    } else if text_eq(action, "italic") {
        Some(("italic", None))
    } else if text_eq(action, "heading-1") {
        Some(("formatBlock", Some("h1")))
    } else if text_eq(action, "heading-2") {
        Some(("formatBlock", Some("h2")))
    } else if text_eq(action, "heading-3") {
        Some(("formatBlock", Some("h3")))
    } else if text_eq(action, "heading-4") {
        Some(("formatBlock", Some("h4")))
    } else if text_eq(action, "heading-paragraph") {
        Some(("formatBlock", Some("p")))
    } else if text_eq(action, "unordered-list") {
        Some(("insertUnorderedList", None))
    } else if text_eq(action, "ordered-list") {
        Some(("insertOrderedList", None))
    } else {
        None
    }
}

/// After wrapping, the selection covers the placeholder when nothing was
/// selected, and the whole wrapped text otherwise.
pub proof fn lemma_wrap_selects(
    value: Seq<char>,
    start: int,
    end: int,
    prefix: Seq<char>,
    suffix: Seq<char>,
    placeholder: Seq<char>,
)
    requires
        0 <= start <= end <= value.len(),
    ensures
        ({
            let (text, from, to) = wrapped(value, start, end, prefix, suffix, placeholder);
            let selected = value.subrange(start, end);
            &&& 0 <= from <= to <= text.len()
            &&& text.subrange(from, to) == if selected.len() == 0 {
                placeholder
            } else {
                prefix + selected + suffix
            }
        }),
{
    let selected = value.subrange(start, end);
    let inner = wrap_inner(selected, placeholder);
    let text = spliced(value, start, end, prefix + inner + suffix);
    if selected.len() == 0 {
        assert(text.subrange(start + prefix.len(), start + prefix.len() + inner.len()) =~= placeholder);
    } else {
        assert(text.subrange(start, start + prefix.len() + inner.len() + suffix.len()) =~= prefix
            + selected + suffix);
    }
}

/// After inserting a link, the selection covers exactly the new link.
pub proof fn lemma_link_selects(value: Seq<char>, start: int, end: int, link: Seq<char>)
    requires
        0 <= start <= end <= value.len(),
    ensures
        spliced(value, start, end, link).subrange(start, start + link.len()) == link,
{
    assert(spliced(value, start, end, link).subrange(start, start + link.len()) =~= link);
}

proof fn lemma_line_start_facts(v: Seq<char>, i: int)
    requires
        0 <= i <= v.len(),
    ensures
        0 <= line_start(v, i) <= i,
        line_start(v, i) == 0 || v[line_start(v, i) - 1] == '\n',
        forall|j: int| line_start(v, i) <= j < i ==> v[j] != '\n',
    decreases i,
{
    if i > 0 && v[i - 1] != '\n' {
        lemma_line_start_facts(v, i - 1);
    }
}

proof fn lemma_line_end_facts(v: Seq<char>, i: int)
    requires
        0 <= i <= v.len(),
    ensures
        i <= line_end(v, i) <= v.len(),
        line_end(v, i) == v.len() || v[line_end(v, i)] == '\n',
        forall|j: int| i <= j < line_end(v, i) ==> v[j] != '\n',
    decreases v.len() - i,
{
    if i < v.len() && v[i] != '\n' {
        lemma_line_end_facts(v, i + 1);
    }
}

/// The mark that a line action puts in front of the `k`-th touched line
/// (from 0): `k + 1` and `. ` for a numbered list, `- ` for a bullet list,
/// and `n` times `#` and a space for a heading of level `n`.
pub open spec fn list_or_heading_mark(action: Seq<char>, k: nat) -> Seq<char> {
    if action == "ordered-list"@ {
        decimal(k + 1) + seq!['.', ' ']
    } else if action == "unordered-list"@ {
        seq!['-', ' ']
    } else if action == "heading-1"@ {
        seq!['#', ' ']
    } else if action == "heading-2"@ {
        seq!['#', '#', ' ']
    } else if action == "heading-3"@ {
        seq!['#', '#', '#', ' ']
    } else {
        seq!['#', '#', '#', '#', ' ']
    }
}

/// The list and heading actions rewrite whole lines: the edit selects the
/// rewritten lines, which start where the line holding `start` starts and
/// replace every line up to the end of the line holding `end`; the text around
/// them is kept; and the `k`-th rewritten line is the `k`-th touched line behind
/// its mark (`k + 1` and `. ` for a numbered list, `- ` for a bullet list,
/// `#`s and a space for a heading).
pub proof fn lemma_line_actions_mark_lines(action: Seq<char>, value: Seq<char>, start: int, end: int)
    requires
        0 <= start <= end <= value.len(),
        action == "ordered-list"@ || action == "unordered-list"@ || action == "heading-1"@ || action
            == "heading-2"@ || action == "heading-3"@ || action == "heading-4"@,
    ensures
        source_action(action, value, start, end) matches Some((v2, a, b)) && ({
            let le = line_end(value, end);
            let touched = split_on(value.subrange(a, le), '\n');
            let rewritten = split_on(v2.subrange(a, b), '\n');
            &&& 0 <= a <= start
            &&& a == 0 || value[a - 1] == '\n'
            &&& forall|j: int| a <= j < start ==> value[j] != '\n'
            &&& end <= le <= value.len()
            &&& le == value.len() || value[le] == '\n'
            &&& forall|j: int| end <= j < le ==> value[j] != '\n'
            &&& a <= b <= v2.len()
            &&& v2.subrange(0, a) == value.subrange(0, a)
            &&& v2.subrange(b, v2.len() as int) == value.subrange(le, value.len() as int)
            &&& rewritten.len() == touched.len()
            &&& forall|k: int|
                0 <= k < touched.len() ==> #[trigger] rewritten[k] == list_or_heading_mark(action, k as nat)
                    + touched[k]
        }),
{
    reveal_strlit("bold");
    reveal_strlit("italic");
    reveal_strlit("heading-1");
    reveal_strlit("heading-2");
    reveal_strlit("heading-3");
    reveal_strlit("heading-4");
    reveal_strlit("heading-paragraph");
    reveal_strlit("unordered-list");
    reveal_strlit("ordered-list");
    let prefix = if action == "ordered-list"@ {
        LinePrefix::Numbered
    } else if action == "unordered-list"@ {
        LinePrefix::Bullet
    } else if action == "heading-1"@ {
        LinePrefix::Heading(1)
    } else if action == "heading-2"@ {
        LinePrefix::Heading(2)
    } else if action == "heading-3"@ {
        LinePrefix::Heading(3)
    } else {
        LinePrefix::Heading(4)
    };
    assert("heading-1"@[8] == '1' && "heading-2"@[8] == '2' && "heading-3"@[8] == '3' && "heading-4"@[8]
        == '4');
    assert("heading-1"@ != "heading-2"@ && "heading-1"@ != "heading-3"@ && "heading-1"@ != "heading-4"@);
    assert("heading-2"@ != "heading-3"@ && "heading-2"@ != "heading-4"@ && "heading-3"@ != "heading-4"@);
    assert("bold"@.len() == 4 && "italic"@.len() == 6 && "heading-paragraph"@.len() == 17);
    assert("ordered-list"@.len() == 12 && "unordered-list"@.len() == 14 && "heading-1"@.len() == 9);
    assert("heading-2"@.len() == 9 && "heading-3"@.len() == 9 && "heading-4"@.len() == 9);
    if action == "ordered-list"@ {
        assert(action != "unordered-list"@ && action != "heading-1"@ && action != "heading-2"@);
        assert(action != "heading-3"@ && action != "heading-4"@);
    }
    if action == "unordered-list"@ {
        assert(action != "heading-1"@ && action != "heading-2"@);
        assert(action != "heading-3"@ && action != "heading-4"@);
    }
    assert(source_action(action, value, start, end) == Some(prefixed_block(value, start, end, prefix)));
    lemma_line_start_facts(value, start);
    lemma_line_end_facts(value, end);
    let ls = line_start(value, start);
    let le = line_end(value, end);
    let lines = split_on(value.subrange(ls, le), '\n');
    crate::text::lemma_split_pieces(value.subrange(ls, le), '\n');
    let marked = Seq::new(lines.len(), |i: int| line_prefix(prefix, i as nat) + lines[i]);
    let block = join(marked, seq!['\n']);
    assert forall|k: int| 0 <= k < marked.len() implies lacks(#[trigger] marked[k], '\n') by {
        let p = line_prefix(prefix, k as nat);
        assert(p == list_or_heading_mark(action, k as nat)) by {
            if action == "heading-1"@ || action == "heading-2"@ || action == "heading-3"@ || action
                == "heading-4"@ {
                assert(hashes(1).push(' ') =~= seq!['#', ' ']);
                assert(hashes(2).push(' ') =~= seq!['#', '#', ' ']);
                assert(hashes(3).push(' ') =~= seq!['#', '#', '#', ' ']);
                assert(hashes(4).push(' ') =~= seq!['#', '#', '#', '#', ' ']);
            }
        }
        crate::text::lemma_decimal_digits((k + 1) as nat);
        assert(lacks(p, '\n'));
        assert(lacks(lines[k], '\n'));
        let m = marked[k];
        assert forall|i: int| 0 <= i < m.len() implies m[i] != '\n' by {
            if i < p.len() {
                assert(m[i] == p[i]);
            } else {
                assert(m[i] == lines[k][i - p.len()]);
            }
        }
    }
    crate::text::lemma_split_join_lines(marked, '\n');
    let v2 = spliced(value, ls, le, block);
    assert(v2.subrange(ls, ls + block.len()) =~= block);
    assert(v2.subrange(0, ls) =~= value.subrange(0, ls));
    assert(v2.subrange(ls + block.len(), v2.len() as int) =~= value.subrange(le, value.len() as int));
    assert forall|k: int| 0 <= k < lines.len() implies #[trigger] marked[k] == list_or_heading_mark(
        action,
        k as nat,
    ) + lines[k] by {
        if action == "heading-1"@ || action == "heading-2"@ || action == "heading-3"@ || action
            == "heading-4"@ {
            assert(hashes(1).push(' ') =~= seq!['#', ' ']);
            assert(hashes(2).push(' ') =~= seq!['#', '#', ' ']);
            assert(hashes(3).push(' ') =~= seq!['#', '#', '#', ' ']);
            assert(hashes(4).push(' ') =~= seq!['#', '#', '#', '#', ' ']);
        }
    }
}

/// Bold and italic wrap the selection in `**` or `*`: the text before and
/// after the selection is kept, the selection (or, when nothing is selected,
/// the word `bold` or `italic`) sits between the marks, and the edit selects
/// the placeholder when nothing was selected, the whole wrapped text otherwise.
/// A table action puts the two-column table template in place of the
/// selection, a divider action `\n---\n`, with the caret after the template's
/// start and after the divider line respectively. Other names than the
/// toolbar's own leave the source alone.
pub proof fn lemma_wrap_and_insert_actions(action: Seq<char>, value: Seq<char>, start: int, end: int)
    requires
        0 <= start <= end <= value.len(),
    ensures
        ({
            let sel = value.subrange(start, end);
            let before = value.subrange(0, start);
            let after = value.subrange(end, value.len() as int);
            &&& action == "bold"@ ==> source_action(action, value, start, end) == Some(
                if sel.len() == 0 {
                    (before + "**bold**"@ + after, start + 2, start + 6)
                } else {
                    (before + "**"@ + sel + "**"@ + after, start, start + sel.len() + 4)
                },
            )
            &&& action == "italic"@ ==> source_action(action, value, start, end) == Some(
                if sel.len() == 0 {
                    (before + "*italic*"@ + after, start + 1, start + 7)
                } else {
                    (before + "*"@ + sel + "*"@ + after, start, start + sel.len() + 2)
                },
            )
            &&& action == "table"@ ==> source_action(action, value, start, end) == Some(
                (
                    before + "| Column 1 | Column 2 |\n| --- | --- |\n| Value 1 | Value 2 |"@ + after,
                    start,
                    start,
                ),
            )
            &&& action == "insert-divider"@ ==> source_action(action, value, start, end) == Some(
                (before + "\n---\n"@ + after, start + 5, start + 5),
            )
            &&& !(action == "bold"@ || action == "italic"@ || action == "heading-1"@ || action == "heading-2"@
                || action == "heading-3"@ || action == "heading-4"@ || action == "heading-paragraph"@ || action
                == "unordered-list"@ || action == "ordered-list"@ || action == "table"@ || action
                == "insert-divider"@) ==> source_action(action, value, start, end) is None
        }),
{
    reveal_strlit("bold");
    reveal_strlit("italic");
    reveal_strlit("**");
    reveal_strlit("*");
    reveal_strlit("**bold**");
    reveal_strlit("*italic*");
    reveal_strlit("table");
    reveal_strlit("insert-divider");
    reveal_strlit("heading-1");
    reveal_strlit("heading-2");
    reveal_strlit("heading-3");
    reveal_strlit("heading-4");
    reveal_strlit("heading-paragraph");
    reveal_strlit("unordered-list");
    reveal_strlit("ordered-list");
    reveal_strlit("\n---\n");
    assert("bold"@.len() == 4 && "italic"@.len() == 6 && "table"@.len() == 5 && "insert-divider"@.len() == 14);
    assert("heading-paragraph"@.len() == 17 && "ordered-list"@.len() == 12 && "unordered-list"@.len() == 14);
    assert("heading-1"@.len() == 9 && "heading-2"@.len() == 9 && "heading-3"@.len() == 9 && "heading-4"@.len()
        == 9);
    assert("unordered-list"@[0] == 'u' && "insert-divider"@[0] == 'i');
    assert("unordered-list"@ != "insert-divider"@);
    let sel = value.subrange(start, end);
    let before = value.subrange(0, start);
    let after = value.subrange(end, value.len() as int);
    assert("**"@ + "bold"@ + "**"@ =~= "**bold**"@);
    assert("*"@ + "italic"@ + "*"@ =~= "*italic*"@);
    assert(before + ("**"@ + "bold"@ + "**"@) + after =~= before + "**bold**"@ + after);
    assert(before + ("*"@ + "italic"@ + "*"@) + after =~= before + "*italic*"@ + after);
    assert(before + ("**"@ + sel + "**"@) + after =~= before + "**"@ + sel + "**"@ + after);
    assert(before + ("*"@ + sel + "*"@) + after =~= before + "*"@ + sel + "*"@ + after);
}

proof fn lemma_drop_hashes(s: Seq<char>)
    ensures
        exists|n: nat| n <= s.len() && s == hashes(n) + drop_hashes(s),
        drop_hashes(s).len() == 0 || drop_hashes(s)[0] != '#',
        drop_hashes(s) == s.skip(s.len() - drop_hashes(s).len()),
        drop_hashes(s).len() <= s.len(),
    decreases s.len(),
{
    if s.len() > 0 && s[0] == '#' {
        lemma_drop_hashes(s.drop_first());
        let n = choose|n: nat| n <= s.drop_first().len() && s.drop_first() == hashes(n) + drop_hashes(s.drop_first());
        assert(hashes(n + 1) =~= seq!['#'] + hashes(n));
        assert(s =~= seq![s[0]] + s.drop_first());
        assert(s =~= hashes(n + 1) + drop_hashes(s));
        let k = drop_hashes(s).len();
        assert(s.drop_first().skip(s.len() - 1 - k) =~= s.skip(s.len() - k));
    } else {
        assert(s =~= hashes(0) + s);
        assert(s.skip(0) =~= s);
    }
}

/// Whether `out` is `line` without its heading marks: `line` is some `#`s
/// followed by a rest that does not start with `#`, and `out` is that rest
/// without one leading space.
pub open spec fn unmarks(line: Seq<char>, out: Seq<char>) -> bool {
    exists|n: nat, rest: Seq<char>|
        #![trigger hashes(n), rest.len()]
        line == hashes(n) + rest && (rest.len() == 0 || rest[0] != '#') && out == (if rest.len() > 0 && rest[0]
            == ' ' {
            rest.drop_first()
        } else {
            rest
        })
}

/// Turning lines back into paragraphs strips their heading marks: every line
/// touched by the selection loses its leading `#`s and then one space, the
/// text around those lines is kept, and the edit selects the rewritten lines.
pub proof fn lemma_heading_paragraph_unmarks_lines(value: Seq<char>, start: int, end: int)
    requires
        0 <= start <= end <= value.len(),
    ensures
        source_action("heading-paragraph"@, value, start, end) matches Some((v2, a, b)) && ({
            let le = line_end(value, end);
            let touched = split_on(value.subrange(a, le), '\n');
            let rewritten = split_on(v2.subrange(a, b), '\n');
            &&& 0 <= a <= start
            &&& a == 0 || value[a - 1] == '\n'
            &&& forall|j: int| a <= j < start ==> value[j] != '\n'
            &&& end <= le <= value.len()
            &&& le == value.len() || value[le] == '\n'
            &&& forall|j: int| end <= j < le ==> value[j] != '\n'
            &&& a <= b <= v2.len()
            &&& v2.subrange(0, a) == value.subrange(0, a)
            &&& v2.subrange(b, v2.len() as int) == value.subrange(le, value.len() as int)
            &&& rewritten.len() == touched.len()
            &&& forall|k: int| 0 <= k < touched.len() ==> unmarks(touched[k], #[trigger] rewritten[k])
        }),
{
    reveal_strlit("bold");
    reveal_strlit("italic");
    reveal_strlit("heading-1");
    reveal_strlit("heading-2");
    reveal_strlit("heading-3");
    reveal_strlit("heading-4");
    reveal_strlit("heading-paragraph");
    assert("bold"@.len() == 4 && "italic"@.len() == 6 && "heading-paragraph"@.len() == 17);
    assert("heading-1"@.len() == 9 && "heading-2"@.len() == 9 && "heading-3"@.len() == 9 && "heading-4"@.len()
        == 9);
    let action = "heading-paragraph"@;
    assert(source_action(action, value, start, end) == Some(unheaded_block(value, start, end)));
    lemma_line_start_facts(value, start);
    lemma_line_end_facts(value, end);
    let ls = line_start(value, start);
    let le = line_end(value, end);
    let lines = split_on(value.subrange(ls, le), '\n');
    crate::text::lemma_split_pieces(value.subrange(ls, le), '\n');
    let out = Seq::new(lines.len(), |i: int| unheaded(lines[i]));
    let block = join(out, seq!['\n']);
    assert forall|k: int| 0 <= k < out.len() implies lacks(#[trigger] out[k], '\n') by {
        let l = lines[k];
        lemma_drop_hashes(l);
        let t = drop_hashes(l);
        assert(lacks(l, '\n'));
        let o = out[k];
        assert forall|i: int| 0 <= i < o.len() implies o[i] != '\n' by {
            if t.len() > 0 && t[0] == ' ' {
                assert(o[i] == t[i + 1]);
                assert(t[i + 1] == l[l.len() - t.len() + i + 1]);
            } else {
                assert(o[i] == t[i]);
                assert(t[i] == l[l.len() - t.len() + i]);
            }
        }
    }
    crate::text::lemma_split_join_lines(out, '\n');
    let v2 = spliced(value, ls, le, block);
    assert(v2.subrange(ls, ls + block.len()) =~= block);
    assert(v2.subrange(0, ls) =~= value.subrange(0, ls));
    assert(v2.subrange(ls + block.len(), v2.len() as int) =~= value.subrange(le, value.len() as int));
    let touched = split_on(value.subrange(ls, le), '\n');
    let rewritten = split_on(v2.subrange(ls, ls + block.len()), '\n');
    assert(rewritten == out);
    assert forall|k: int| 0 <= k < touched.len() implies unmarks(touched[k], #[trigger] rewritten[k]) by {
        lemma_drop_hashes(lines[k]);
        let rest = drop_hashes(lines[k]);
        let n = choose|n: nat| n <= lines[k].len() && lines[k] == hashes(n) + drop_hashes(lines[k]);
        assert(touched[k] == hashes(n) + rest);
        assert(rewritten[k] == out[k]);
        assert(rewritten[k] == (if rest.len() > 0 && rest[0] == ' ' {
            rest.drop_first()
        } else {
            rest
        }));
    }
}

} // verus!
