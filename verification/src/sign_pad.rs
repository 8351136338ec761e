//! The signature pad's SVG documents: composing an export, reading the body of
//! an imported document, and choosing the ink colour; and what the pad holds:
//! imported markup and strokes, and how loading, clearing and drawing change it.
use vstd::prelude::*;

use crate::text::{
    chars_of, decimal, extra_class, find_in_range, push_class_if, push_extra_class, first_index_of, is_white_space, lemma_decimal_digits,
    lemma_first_index_of_at, push_decimal, push_text, string_from, string_of_range, trim,
    trim_end_by, trim_range, trim_start_by,
};

verus! {

/// The character code after ASCII lower-casing (`char::to_ascii_lowercase`).
pub open spec fn ascii_lower_code(c: char) -> u32 {
    let u = c as u32;
    if 65 <= u && u <= 90 {
        (u + 32) as u32
    } else {
        u
    }
}

/// Whether the lower-cased pattern `pat` occurs in `t` at `i`, ignoring ASCII case in `t`.
pub open spec fn matches_at(t: Seq<char>, pat: Seq<char>, i: int) -> bool {
    0 <= i && i + pat.len() <= t.len() && forall|j: int|
        0 <= j < pat.len() ==> ascii_lower_code(#[trigger] t[i + j]) == pat[j] as u32
}

/// The last position `i <= k` at which `pat` matches in `t`.
pub open spec fn last_match(t: Seq<char>, pat: Seq<char>, k: int) -> Option<int>
    decreases k + 1,
{
    if k < 0 {
        None
    } else if matches_at(t, pat, k) {
        Some(k)
    } else {
        last_match(t, pat, k - 1)
    }
}

/// The markup between the root `<svg ...>` tag and the last `</svg>` of a
/// document, trimmed; or the message saying why there is none.
pub open spec fn svg_body(svg: Seq<char>) -> Result<Seq<char>, Seq<char>> {
    let t = trim(svg);
    if !matches_at(t, "<svg"@, 0) {
        Err("Expected an <svg> root element."@)
    } else {
        match first_index_of(t, '>') {
            None => Err("Malformed SVG root element."@),
            Some(open_end) => match last_match(t, "</svg>"@, t.len() - 6) {
                None => Err("Missing closing </svg> tag."@),
                Some(close_start) => if close_start <= open_end {
                    Err("SVG document does not contain any valid body markup."@)
                } else {
                    Ok(trim(t.subrange(open_end + 1, close_start)))
                },
            },
        }
    }
}

fn lower_code(c: char) -> (u: u32)
    ensures
        u == ascii_lower_code(c),
{
    let u = c as u32;
    if 65 <= u && u <= 90 {
        u + 32
    } else {
        u
    }
}

/// Whether the lower-case pattern `pat` matches `v` at `i`, ignoring ASCII case in `v`.
fn match_at(v: &Vec<char>, pat: &Vec<char>, i: usize) -> (b: bool)
    requires
        i + pat@.len() <= v@.len(),
    ensures
        b == matches_at(v@, pat@, i as int),
{
    let vlen = v.len();
    let mut j: usize = 0;
    while j < pat.len()
        invariant
            vlen == v@.len(),
            i + pat@.len() <= v@.len(),
            0 <= j <= pat@.len(),
            forall|k: int| 0 <= k < j ==> ascii_lower_code(#[trigger] v@[i + k]) == pat@[k] as u32,
        decreases pat.len() - j,
    {
        if lower_code(v[i + j]) != pat[j] as u32 {
            return false;
        }
        j = j + 1;
    }
    true
}

/// Reads the body of an imported SVG document: the trimmed markup between the
/// root element's opening tag and the last closing `</svg>` tag.
pub fn extract_svg_inner_markup(svg: &str) -> (r: Result<String, String>)
    ensures
        match r {
            Ok(body) => svg_body(svg@) == Ok::<Seq<char>, Seq<char>>(body@),
            Err(message) => svg_body(svg@) == Err::<Seq<char>, Seq<char>>(message@),
        },
{
    let v = chars_of(svg);
    let (a, b) = trim_range(&v, 0, v.len(), false);
    let t: Vec<char> = chars_of(string_of_range(&v, a, b).as_str());
    proof {
        assert(v@.subrange(0, v@.len() as int) =~= svg@);
        reveal_strlit("<svg");
        reveal_strlit("</svg>");
    }
    let open_pat = chars_of("<svg");
    let close_pat = chars_of("</svg>");
    if t.len() < 4 || !match_at(&t, &open_pat, 0) {
        return Err(string_from("Expected an <svg> root element."));
    }
    let open_end = match find_in_range(&t, 0, t.len(), '>') {
        Some(i) => i,
        None => {
            proof {
                assert(t@.subrange(0, t@.len() as int) =~= t@);
            }
            return Err(string_from("Malformed SVG root element."));
        },
    };
    proof {
        assert(t@.subrange(0, t@.len() as int) =~= t@);
    }
    if t.len() < 6 {
        return Err(string_from("Missing closing </svg> tag."));
    }
    let mut k: usize = t.len() - 6;
    let mut found = false;
    loop
        invariant_except_break
            k + 6 <= t@.len(),
            close_pat@ == "</svg>"@,
            close_pat@.len() == 6,
            !found,
            last_match(t@, "</svg>"@, t@.len() - 6) == last_match(t@, "</svg>"@, k as int),
        ensures
            k + 6 <= t@.len(),
            found ==> last_match(t@, "</svg>"@, t@.len() - 6) == Some(k as int),
            !found ==> last_match(t@, "</svg>"@, t@.len() - 6) is None,
        decreases k,
    {
        if match_at(&t, &close_pat, k) {
            found = true;
            break;
        }
        if k == 0 {
            proof {
                assert(last_match(t@, "</svg>"@, -1) is None);
            }
            break;
        }
        k = k - 1;
    }
    if !found {
        return Err(string_from("Missing closing </svg> tag."));
    }
    if k <= open_end {
        return Err(string_from("SVG document does not contain any valid body markup."));
    }
    let (ba, bb) = trim_range(&t, open_end + 1, k, false);
    Ok(string_of_range(&t, ba, bb))
}

/// Imported markup kept in an export: present and not blank.
pub open spec fn kept_markup(imported_markup: Option<Seq<char>>) -> Seq<char> {
    match imported_markup {
        Some(m) => if trim(m).len() == 0 {
            Seq::<char>::empty()
        } else {
            m
        },
        None => Seq::<char>::empty(),
    }
}

/// The opening tag of an exported document.
pub open spec fn svg_open_tag(width: nat, height: nat) -> Seq<char> {
    "<svg xmlns=\"http://www.w3.org/2000/svg\" width=\""@ + decimal(width) + "\" height=\""@
        + decimal(height) + "\" viewBox=\"0 0 "@ + decimal(width) + " "@ + decimal(height)
        + "\" fill=\"none\">"@
}

/// The exported SVG document of a `width` by `height` pad.
pub open spec fn svg_document(
    width: nat,
    height: nat,
    imported_markup: Option<Seq<char>>,
    stroke_markup: Seq<char>,
) -> Seq<char> {
    svg_open_tag(width, height) + kept_markup(imported_markup) + stroke_markup + "</svg>"@
}

/// Composes the exported SVG document from the imported markup (left out when
/// blank) and the markup of the drawn strokes.
pub fn compose_svg_document(
    width: u16,
    height: u16,
    imported_markup: Option<&str>,
    stroke_markup: &str,
) -> (r: String)
    ensures
        r@ == svg_document(
            width as nat,
            height as nat,
            match imported_markup {
                Some(m) => Some(m@),
                None => None,
            },
            stroke_markup@,
        ),
{
    let mut svg = String::new();
    push_text(&mut svg, "<svg xmlns=\"http://www.w3.org/2000/svg\" width=\"");
    push_decimal(&mut svg, width as u64);
    push_text(&mut svg, "\" height=\"");
    push_decimal(&mut svg, height as u64);
    push_text(&mut svg, "\" viewBox=\"0 0 ");
    push_decimal(&mut svg, width as u64);
    push_text(&mut svg, " ");
    push_decimal(&mut svg, height as u64);
    push_text(&mut svg, "\" fill=\"none\">");
    let ghost before = svg@;
    if let Some(markup) = imported_markup {
        let m = chars_of(markup);
        let (a, b) = trim_range(&m, 0, m.len(), false);
        proof {
            assert(m@.subrange(0, m@.len() as int) =~= markup@);
        }
        if a < b {
            push_text(&mut svg, markup);
        }
    }
    proof {
        let kept = kept_markup(
            match imported_markup {
                Some(m) => Some(m@),
                None => None,
            },
        );
        assert(svg@ =~= before + kept);
    }
    push_text(&mut svg, stroke_markup);
    push_text(&mut svg, "</svg>");
    svg
}

/// The first of the two colours that is present and not blank, trimmed.
pub open spec fn ink_color(theme_color: Option<Seq<char>>, color: Option<Seq<char>>) -> Seq<char> {
    let theme = match theme_color {
        Some(t) => trim(t),
        None => Seq::<char>::empty(),
    };
    let plain = match color {
        Some(c) => trim(c),
        None => Seq::<char>::empty(),
    };
    if theme.len() > 0 {
        theme
    } else if plain.len() > 0 {
        plain
    } else {
        "#1f2a2b"@
    }
}

fn trimmed_or_empty(s: Option<&str>) -> (r: Vec<char>)
    ensures
        r@ == match s {
            Some(t) => trim(t@),
            None => Seq::<char>::empty(),
        },
{
    match s {
        Some(t) => {
            let v = chars_of(t);
            let (a, b) = trim_range(&v, 0, v.len(), false);
            proof {
                assert(v@.subrange(0, v@.len() as int) =~= t@);
            }
            chars_of(string_of_range(&v, a, b).as_str())
        },
        None => Vec::new(),
    }
}

/// The ink colour of an export: the pad's ink theme colour, else its text
/// colour, else a dark default. `None` stands for a colour that could not be read.
pub fn export_color(theme_color: Option<&str>, color: Option<&str>) -> (r: String)
    ensures
        r@ == ink_color(
            match theme_color {
                Some(t) => Some(t@),
                None => None,
            },
            match color {
                Some(c) => Some(c@),
                None => None,
            },
        ),
{
    let theme = trimmed_or_empty(theme_color);
    if theme.len() > 0 {
        return string_of_range(&theme, 0, theme.len());
    }
    let plain = trimmed_or_empty(color);
    if plain.len() > 0 {
        return string_of_range(&plain, 0, plain.len());
    }
    string_from("#1f2a2b")
}

proof fn lemma_no_angle(a: Seq<char>, d: Seq<char>)
    requires
        forall|i: int| 0 <= i < a.len() ==> a[i] != '>',
        forall|i: int| 0 <= i < d.len() ==> '0' <= #[trigger] d[i] <= '9',
    ensures
        forall|i: int| 0 <= i < (a + d).len() ==> (a + d)[i] != '>',
{
    assert forall|i: int| 0 <= i < (a + d).len() implies (a + d)[i] != '>' by {
        if i >= a.len() {
            assert((a + d)[i] == d[i - a.len()]);
        }
    }
}

proof fn lemma_no_angle_lit(a: Seq<char>, l: Seq<char>)
    requires
        forall|i: int| 0 <= i < a.len() ==> a[i] != '>',
        forall|i: int| 0 <= i < l.len() ==> l[i] != '>',
    ensures
        forall|i: int| 0 <= i < (a + l).len() ==> (a + l)[i] != '>',
{
    assert forall|i: int| 0 <= i < (a + l).len() implies (a + l)[i] != '>' by {
        if i >= a.len() {
            assert((a + l)[i] == l[i - a.len()]);
        }
    }
}

/// The opening tag of an export starts with `<svg` and holds its only `>` at
/// its end.
proof fn lemma_open_tag(width: nat, height: nat)
    ensures
        ({
            let p = svg_open_tag(width, height);
            &&& p.len() >= 5
            &&& p.take(4) == "<svg"@
            &&& p[p.len() - 1] == '>'
            &&& forall|i: int| 0 <= i < p.len() - 1 ==> p[i] != '>'
        }),
{
    reveal_strlit("<svg xmlns=\"http://www.w3.org/2000/svg\" width=\"");
    reveal_strlit("\" height=\"");
    reveal_strlit("\" viewBox=\"0 0 ");
    reveal_strlit(" ");
    reveal_strlit("\" fill=\"none\">");
    reveal_strlit("<svg");
    lemma_decimal_digits(width);
    lemma_decimal_digits(height);
    let l1 = "<svg xmlns=\"http://www.w3.org/2000/svg\" width=\""@;
    let l2 = "\" height=\""@;
    let l3 = "\" viewBox=\"0 0 "@;
    let l4 = " "@;
    let l5 = "\" fill=\"none\""@;
    reveal_strlit("\" fill=\"none\"");
    let dw = decimal(width);
    let dh = decimal(height);
    let body = l1 + dw + l2 + dh + l3 + dw + l4 + dh + l5;
    assert(forall|i: int| 0 <= i < l1.len() ==> l1[i] != '>');
    lemma_no_angle(l1, dw);
    lemma_no_angle_lit(l1 + dw, l2);
    lemma_no_angle(l1 + dw + l2, dh);
    lemma_no_angle_lit(l1 + dw + l2 + dh, l3);
    lemma_no_angle(l1 + dw + l2 + dh + l3, dw);
    lemma_no_angle_lit(l1 + dw + l2 + dh + l3 + dw, l4);
    lemma_no_angle(l1 + dw + l2 + dh + l3 + dw + l4, dh);
    lemma_no_angle_lit(l1 + dw + l2 + dh + l3 + dw + l4 + dh, l5);
    assert("\" fill=\"none\">"@ =~= l5.push('>'));
    let p = svg_open_tag(width, height);
    assert(p =~= body.push('>'));
    assert(p.take(4) =~= "<svg"@);
}

/// Loading an exported document gives back its content: the kept imported
/// markup followed by the stroke markup, trimmed.
pub proof fn lemma_export_then_load(
    width: nat,
    height: nat,
    imported_markup: Option<Seq<char>>,
    stroke_markup: Seq<char>,
)
    ensures
        svg_body(svg_document(width, height, imported_markup, stroke_markup)) == Ok::<
            Seq<char>,
            Seq<char>,
        >(trim(kept_markup(imported_markup) + stroke_markup)),
{
    let p = svg_open_tag(width, height);
    let content = kept_markup(imported_markup) + stroke_markup;
    let close = "</svg>"@;
    reveal_strlit("</svg>");
    reveal_strlit("<svg");
    lemma_open_tag(width, height);
    let doc = svg_document(width, height, imported_markup, stroke_markup);
    assert(doc =~= p + content + close);
    let n = doc.len() as int;
    assert(p.take(4)[0] == p[0]);
    assert(doc[0] == p[0]);
    assert(doc[0] == '<');
    assert(doc[n - 1] == '>');
    assert(trim_start_by(doc, false) == doc);
    assert(trim_end_by(doc, false) == doc);
    assert(trim(doc) == doc);
    assert forall|j: int| 0 <= j < 4 implies ascii_lower_code(#[trigger] doc[0 + j]) == "<svg"@[j] as u32 by {
        assert(doc[j] == p[j]);
        assert(p.take(4)[j] == p[j]);
    }
    assert(matches_at(doc, "<svg"@, 0));
    let k = p.len() - 1;
    assert forall|j: int| 0 <= j < k implies doc[j] != '>' by {
        assert(doc[j] == p[j]);
    }
    assert(doc[k] == p[k]);
    lemma_first_index_of_at(doc, '>', k);
    assert forall|j: int| 0 <= j < 6 implies ascii_lower_code(#[trigger] doc[(n - 6) + j]) == close[j] as u32 by {
        assert(doc[(n - 6) + j] == close[j]);
    }
    assert(matches_at(doc, close, n - 6));
    assert(last_match(doc, close, n - 6) == Some(n - 6));
    assert(doc.subrange(k + 1, n - 6) =~= content);
}

/// Whether a text is blank: empty once trimmed.
fn is_blank(s: &str) -> (b: bool)
    ensures
        b == (trim(s@).len() == 0),
{
    let v = chars_of(s);
    let (a, b) = trim_range(&v, 0, v.len(), false);
    proof {
        assert(v@.subrange(0, v@.len() as int) =~= s@);
    }
    a == b
}

/// An optional text, as characters.
pub open spec fn opt_chars(s: Option<String>) -> Option<Seq<char>> {
    match s {
        Some(t) => Some(t@),
        None => None,
    }
}

/// What the pad holds: the imported markup, the number of finished strokes,
/// the number of points of the stroke being drawn (none when no stroke is
/// drawn) and the pointer drawing it, and the last document handed in by the
/// caller. The points themselves, in pixels, stay with the caller.
pub struct SignPadContent {
    pub imported: Option<String>,
    pub strokes: usize,
    pub active_points: Option<usize>,
    pub active_pointer: Option<i32>,
    pub last_external: Option<String>,
}

/// Whether the pad shows nothing: no imported markup (or empty markup), no
/// finished stroke, and no point in the stroke being drawn.
pub open spec fn content_empty(c: SignPadContent) -> bool {
    &&& match c.imported {
        Some(m) => m@.len() == 0,
        None => true,
    }
    &&& c.strokes == 0
    &&& match c.active_points {
        Some(n) => n == 0,
        None => true,
    }
}

/// The content with nothing drawn or imported; the last external document stays.
pub open spec fn cleared(c: SignPadContent) -> SignPadContent {
    SignPadContent { imported: None, strokes: 0, active_points: None, active_pointer: None, ..c }
}

impl SignPadContent {
    /// An empty pad.
    pub fn new() -> (r: Self)
        ensures
            r == (SignPadContent {
                imported: None,
                strokes: 0,
                active_points: None,
                active_pointer: None,
                last_external: None,
            }),
    {
        SignPadContent { imported: None, strokes: 0, active_points: None, active_pointer: None, last_external: None }
    }

    /// Removes all imported and drawn content.
    pub fn clear(&mut self)
        ensures
            *final(self) == cleared(*old(self)),
    {
        self.imported = None;
        self.strokes = 0;
        self.active_points = None;
        self.active_pointer = None;
    }

    /// Whether the pad shows nothing; an export is made exactly when it does not.
    pub fn is_empty(&self) -> (r: bool)
        ensures
            r == content_empty(*self),
    {
        let no_import = match &self.imported {
            Some(m) => m.as_str().unicode_len() == 0,
            None => true,
        };
        let no_active = match self.active_points {
            Some(n) => n == 0,
            None => true,
        };
        no_import && self.strokes == 0 && no_active
    }

    /// Replaces the content with a standalone SVG document: a blank text clears
    /// the pad; a document whose body cannot be read leaves the pad as it is and
    /// gives the error; otherwise the body becomes the only content.
    pub fn load_svg(&mut self, svg: &str) -> (r: Result<(), String>)
        ensures
            trim(svg@).len() == 0 ==> r is Ok && *final(self) == cleared(*old(self)),
            trim(svg@).len() > 0 ==> match svg_body(svg@) {
                Ok(body) => r is Ok && opt_chars(final(self).imported) == Some(body) && final(self).strokes == 0
                    && final(self).active_points is None && final(self).active_pointer is None
                    && final(self).last_external == old(self).last_external,
                Err(m) => (r matches Err(e) && e@ == m) && *final(self) == *old(self),
            },
    {
        if is_blank(svg) {
            self.clear();
            return Ok(());
        }
        match extract_svg_inner_markup(svg) {
            Ok(body) => {
                self.clear();
                self.imported = Some(body);
                Ok(())
            },
            Err(e) => Err(e),
        }
    }

    /// Takes the document handed in by the caller when it differs from the last
    /// one: a readable, non-blank document replaces the content, an unreadable
    /// one is ignored, and none or a blank one clears the pad.
    pub fn external_value(&mut self, next: Option<String>)
        ensures
            opt_chars(next) == opt_chars(old(self).last_external) ==> *final(self) == *old(self),
            opt_chars(next) != opt_chars(old(self).last_external) ==> opt_chars(final(self).last_external)
                == opt_chars(next) && match next {
                Some(svg) => if trim(svg@).len() > 0 {
                    match svg_body(svg@) {
                        Ok(body) => opt_chars(final(self).imported) == Some(body) && final(self).strokes == 0
                            && final(self).active_points is None && final(self).active_pointer is None,
                        Err(m) => final(self).imported == old(self).imported && final(self).strokes
                            == old(self).strokes && final(self).active_points == old(self).active_points
                            && final(self).active_pointer == old(self).active_pointer,
                    }
                } else {
                    final(self).imported is None && final(self).strokes == 0 && final(self).active_points is None
                        && final(self).active_pointer is None
                },
                None => final(self).imported is None && final(self).strokes == 0
                    && final(self).active_points is None && final(self).active_pointer is None,
            },
    {
        let same = match (&next, &self.last_external) {
            (Some(a), Some(b)) => crate::text::text_eq(a.as_str(), b.as_str()),
            (None, None) => true,
            _ => false,
        };
        if same {
            return;
        }
        self.last_external = match &next {
            Some(svg) => Some(string_from(svg.as_str())),
            None => None,
        };
        match next {
            Some(svg) => {
                if !is_blank(svg.as_str()) {
                    match extract_svg_inner_markup(svg.as_str()) {
                        Ok(body) => {
                            self.clear();
                            self.imported = Some(body);
                        },
                        Err(_) => {},
                    }
                } else {
                    self.clear();
                }
            },
            None => self.clear(),
        }
    }

    /// The class list of the pad's root.
    pub fn class_name(&self, disabled: bool, readonly: bool, class: Option<&str>) -> (r: String)
        ensures
            r@ == "birei-sign-pad"@ + (if disabled {
                " birei-sign-pad--disabled"@
            } else {
                Seq::<char>::empty()
            }) + (if readonly {
                " birei-sign-pad--readonly"@
            } else {
                Seq::<char>::empty()
            }) + (if content_empty(*self) {
                " birei-sign-pad--empty"@
            } else {
                Seq::<char>::empty()
            }) + extra_class(class),
    {
        proof {
            reveal_strlit(" birei-sign-pad--disabled");
            reveal_strlit("birei-sign-pad--disabled");
            reveal_strlit(" birei-sign-pad--readonly");
            reveal_strlit("birei-sign-pad--readonly");
            reveal_strlit(" birei-sign-pad--empty");
            reveal_strlit("birei-sign-pad--empty");
        }
        let empty = self.is_empty();
        let mut s = string_from("birei-sign-pad");
        push_class_if(&mut s, disabled, "birei-sign-pad--disabled");
        push_class_if(&mut s, readonly, "birei-sign-pad--readonly");
        push_class_if(&mut s, empty, "birei-sign-pad--empty");
        push_extra_class(&mut s, class);
        s
    }

    /// Whether the clear button shows: on an interactive pad with content.
    pub fn shows_clear_button(&self, interactive: bool) -> (r: bool)
        ensures
            r == (interactive && !content_empty(*self)),
    {
        interactive && !self.is_empty()
    }

    /// A pointer press: on an interactive pad with no stroke in progress, and
    /// when the pointer could be sampled, a stroke of one point begins.
    pub fn begin_stroke(&mut self, interactive: bool, pointer_id: i32, sampled: bool) -> (r: bool)
        ensures
            r == (interactive && old(self).active_pointer is None && sampled),
            r ==> *final(self) == (SignPadContent {
                active_pointer: Some(pointer_id),
                active_points: Some(1),
                ..*old(self)
            }),
            !r ==> *final(self) == *old(self),
    {
        if !interactive || self.active_pointer.is_some() || !sampled {
            return false;
        }
        self.active_pointer = Some(pointer_id);
        self.active_points = Some(1);
        true
    }

    /// Whether a pointer move draws: on an interactive pad, by the pointer
    /// drawing the current stroke.
    pub fn move_draws(&self, interactive: bool, pointer_id: i32) -> (r: bool)
        ensures
            r == (interactive && self.active_pointer == Some(pointer_id)),
    {
        interactive && match self.active_pointer {
            Some(p) => p == pointer_id,
            None => false,
        }
    }

    /// A point was added to the stroke being drawn.
    pub fn push_point(&mut self)
        requires
            old(self).active_points matches Some(n) ==> n < usize::MAX,
        ensures
            *final(self) == (SignPadContent {
                active_points: match old(self).active_points {
                    Some(n) => Some((n + 1) as usize),
                    None => None,
                },
                ..*old(self)
            }),
    {
        self.active_points = match self.active_points {
            Some(n) => Some(n + 1),
            None => None,
        };
    }

    /// The pointer drawing the stroke is released or cancelled: a stroke with
    /// points becomes a finished stroke. Another pointer changes nothing.
    pub fn finish_stroke(&mut self, pointer_id: i32)
        requires
            old(self).strokes < usize::MAX,
        ensures
            old(self).active_pointer != Some(pointer_id) ==> *final(self) == *old(self),
            old(self).active_pointer == Some(pointer_id) ==> *final(self) == (SignPadContent {
                active_pointer: None,
                active_points: None,
                strokes: if old(self).active_points matches Some(n) && n > 0 {
                    (old(self).strokes + 1) as usize
                } else {
                    old(self).strokes
                },
                ..*old(self)
            }),
    {
        let ours = match self.active_pointer {
            Some(p) => p == pointer_id,
            None => false,
        };
        if !ours {
            return;
        }
        self.active_pointer = None;
        let drawn = match self.active_points {
            Some(n) => n > 0,
            None => false,
        };
        if drawn {
            self.strokes = self.strokes + 1;
        }
        self.active_points = None;
    }
}

/// After `clear` the pad is empty (so `is_empty` holds and no export is made),
/// and clearing again changes nothing.
pub proof fn lemma_clear_empties(c: SignPadContent)
    ensures
        content_empty(cleared(c)),
        cleared(cleared(c)) == cleared(c),
{
}

/// A stroke begun (`begin_stroke`) and finished (`finish_stroke`) by the same
/// pointer, as their contracts give the states, leaves one more finished
/// stroke and a pad that is not empty.
pub proof fn lemma_drawn_stroke_kept(c: SignPadContent, pointer_id: i32)
    requires
        c.active_pointer is None,
        c.strokes < usize::MAX,
    ensures
        ({
            let begun = SignPadContent { active_pointer: Some(pointer_id), active_points: Some(1), ..c };
            let done = SignPadContent { active_pointer: None, active_points: None, strokes: (c.strokes + 1) as usize, ..begun };
            !content_empty(done) && done.strokes == c.strokes + 1
        }),
{
}

} // verus!
