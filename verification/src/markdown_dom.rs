//! Conversions between the editor's Markdown source and rendered HTML, and the
//! escaping used when HTML is assembled by hand.
use vstd::prelude::*;

use crate::text::{chars_of, push_char, push_text, string_of_range, trim, trim_range};

verus! {

/// What pulldown-cmark renders for a Markdown text with tables and strikethrough enabled.
pub uninterp spec fn cmark_html(markdown: Seq<char>) -> Seq<char>;

/// What html2md's `parse_html` produces for an HTML text.
pub uninterp spec fn html2md_markdown(html: Seq<char>) -> Seq<char>;

/// Renders Markdown through `pulldown_cmark::Parser::new_ext` with
/// `Options::ENABLE_TABLES | Options::ENABLE_STRIKETHROUGH` and
/// `pulldown_cmark::html::push_html` into an empty `String`. The contract only
/// names the result: it is a function of the Markdown text alone.
#[verifier::external_body]
fn render_cmark(markdown: &str) -> (html: String)
    ensures
        html@ == cmark_html(markdown@),
{
    let mut options = pulldown_cmark::Options::empty();
    options.insert(pulldown_cmark::Options::ENABLE_TABLES);
    options.insert(pulldown_cmark::Options::ENABLE_STRIKETHROUGH);
    let parser = pulldown_cmark::Parser::new_ext(markdown, options);
    let mut html = String::new();
    pulldown_cmark::html::push_html(&mut html, parser);
    html
}

/// Converts HTML to Markdown with `html2md::parse_html`. The contract only names
/// the result: it is a function of the HTML text alone.
#[verifier::external_body]
fn parse_html(html: &str) -> (markdown: String)
    ensures
        markdown@ == html2md_markdown(html@),
{
    html2md::parse_html(html)
}

/// The escaped form of one character inside an HTML attribute value.
pub open spec fn attribute_escape(c: char) -> Seq<char> {
    if c == '&' {
        seq!['&', 'a', 'm', 'p', ';']
    } else if c == '"' {
        seq!['&', 'q', 'u', 'o', 't', ';']
    } else if c == '<' {
        seq!['&', 'l', 't', ';']
    } else if c == '>' {
        seq!['&', 'g', 't', ';']
    } else {
        seq![c]
    }
}

/// The escaped form of one character inside HTML text content.
pub open spec fn text_escape(c: char) -> Seq<char> {
    if c == '"' {
        seq![c]
    } else {
        attribute_escape(c)
    }
}

/// Every character of `s` replaced by its escaped form.
pub open spec fn escaped(s: Seq<char>, attribute: bool) -> Seq<char>
    decreases s.len(),
{
    if s.len() == 0 {
        Seq::<char>::empty()
    } else {
        escaped(s.drop_last(), attribute) + if attribute {
            attribute_escape(s.last())
        } else {
            text_escape(s.last())
        }
    }
}

fn push_escaped(out: &mut String, c: char, attribute: bool)
    ensures
        final(out)@ == old(out)@ + if attribute {
            attribute_escape(c)
        } else {
            text_escape(c)
        },
{
    let ghost start = out@;
    if c == '&' {
        push_char(out, '&');
        push_char(out, 'a');
        push_char(out, 'm');
        push_char(out, 'p');
        push_char(out, ';');
    } else if c == '"' && attribute {
        push_char(out, '&');
        push_char(out, 'q');
        push_char(out, 'u');
        push_char(out, 'o');
        push_char(out, 't');
        push_char(out, ';');
    } else if c == '<' {
        push_char(out, '&');
        push_char(out, 'l');
        push_char(out, 't');
        push_char(out, ';');
    } else if c == '>' {
        push_char(out, '&');
        push_char(out, 'g');
        push_char(out, 't');
        push_char(out, ';');
    } else {
        push_char(out, c);
    }
    proof {
        if attribute {
            assert(out@ =~= start + attribute_escape(c));
        } else {
            assert(out@ =~= start + text_escape(c));
        }
    }
}

fn escape(value: &str, attribute: bool) -> (r: String)
    ensures
        r@ == escaped(value@, attribute),
{
    let mut out = String::new();
    for c in it: value.chars()
        invariant
            it.seq() == value@,
            out@ == escaped(it.seq().take(it.index() as int), attribute),
    {
        proof {
            assert(it.seq().take(it.index() + 1).drop_last() =~= it.seq().take(it.index() as int));
        }
        push_escaped(&mut out, c, attribute);
    }
    proof {
        assert(value@.take(value@.len() as int) =~= value@);
    }
    out
}

/// Escapes `&`, `"`, `<` and `>` for use inside a double-quoted HTML attribute.
pub fn escape_html_attribute(value: &str) -> (r: String)
    ensures
        r@ == escaped(value@, true),
{
    escape(value, true)
}

/// Escapes `&`, `<` and `>` for use as HTML text content.
pub fn escape_html_text(value: &str) -> (r: String)
    ensures
        r@ == escaped(value@, false),
{
    escape(value, false)
}

/// Trims the Markdown produced from the editor's HTML.
pub fn normalize_markdown(markdown: String) -> (r: String)
    ensures
        r@ == trim(markdown@),
{
    let v = chars_of(markdown.as_str());
    let (a, b) = trim_range(&v, 0, v.len(), false);
    proof {
        assert(v@.subrange(0, v@.len() as int) =~= markdown@);
    }
    string_of_range(&v, a, b)
}

/// Converts the editor's HTML back into trimmed Markdown.
pub fn markdown_from_html(html: &str) -> (r: String)
    ensures
        r@ == trim(html2md_markdown(html@)),
{
    normalize_markdown(parse_html(html))
}

/// Renders Markdown to HTML; blank Markdown renders to the empty string.
pub fn markdown_to_html(markdown: &str) -> (r: String)
    ensures
        trim(markdown@).len() == 0 ==> r@ == Seq::<char>::empty(),
        trim(markdown@).len() > 0 ==> r@ == cmark_html(markdown@),
{
    let v = chars_of(markdown);
    let (a, b) = trim_range(&v, 0, v.len(), false);
    proof {
        assert(v@.subrange(0, v@.len() as int) =~= markdown@);
    }
    if a == b {
        return String::new();
    }
    render_cmark(markdown)
}

/// The link text used in the rich editor: the selected text unless it is
/// missing or blank, else the address.
pub open spec fn rich_link_text(selected: Option<Seq<char>>, href: Seq<char>) -> Seq<char> {
    match selected {
        Some(t) => if trim(t).len() == 0 {
            href
        } else {
            t
        },
        None => href,
    }
}

/// The anchor the rich editor inserts for a link, opening in a new tab.
pub open spec fn anchor_html(href: Seq<char>, text: Seq<char>) -> Seq<char> {
    "<a href=\""@ + escaped(href, true) + "\" target=\"_blank\" rel=\"noopener noreferrer\">"@
        + escaped(text, false) + "</a>"@
}

/// The anchor for the trimmed `link_url` around the selected text; `None` when
/// the address is blank.
pub fn link_html(link_url: &str, selected: Option<&str>) -> (r: Option<String>)
    ensures
        r is None <==> trim(link_url@).len() == 0,
        r matches Some(html) ==> html@ == anchor_html(
            trim(link_url@),
            rich_link_text(
                match selected {
                    Some(t) => Some(t@),
                    None => None,
                },
                trim(link_url@),
            ),
        ),
{
    let href = normalize_markdown(crate::text::string_from(link_url));
    if href.as_str().unicode_len() == 0 {
        return None;
    }
    let text = match selected {
        Some(t) => {
            let tv = chars_of(t);
            let (a, b) = trim_range(&tv, 0, tv.len(), false);
            proof {
                assert(tv@.subrange(0, tv@.len() as int) =~= t@);
            }
            if a == b {
                href.clone()
            } else {
                string_of_range(&tv, 0, tv.len())
            }
        },
        None => href.clone(),
    };
    let mut out = String::new();
    push_text(&mut out, "<a href=\"");
    push_text(&mut out, escape_html_attribute(href.as_str()).as_str());
    push_text(&mut out, "\" target=\"_blank\" rel=\"noopener noreferrer\">");
    push_text(&mut out, escape_html_text(text.as_str()).as_str());
    push_text(&mut out, "</a>");
    Some(out)
}

/// The image element the rich editor inserts.
pub fn image_html(src: &str, alt: &str) -> (r: String)
    ensures
        r@ == "<img src=\""@ + escaped(src@, true) + "\" alt=\""@ + escaped(alt@, true) + "\" />"@,
{
    let mut out = String::new();
    push_text(&mut out, "<img src=\"");
    push_text(&mut out, escape_html_attribute(src).as_str());
    push_text(&mut out, "\" alt=\"");
    push_text(&mut out, escape_html_attribute(alt).as_str());
    push_text(&mut out, "\" />");
    out
}

/// The Markdown image `![alt](url)` the source view inserts.
pub fn image_markdown(alt: &str, url: &str) -> (r: String)
    ensures
        r@ == seq!['!', '['] + alt@ + seq![']', '('] + url@ + seq![')'],
{
    let mut out = String::new();
    push_char(&mut out, '!');
    push_char(&mut out, '[');
    push_text(&mut out, alt);
    push_char(&mut out, ']');
    push_char(&mut out, '(');
    push_text(&mut out, url);
    push_char(&mut out, ')');
    proof {
        assert(out@ =~= seq!['!', '['] + alt@ + seq![']', '('] + url@ + seq![')']);
    }
    out
}

/// Escaped text holds no `<` or `>`, and an escaped attribute value no `"`
/// either: it cannot open or close markup.
pub proof fn lemma_escaped_has_no_markup(s: Seq<char>, attribute: bool)
    ensures
        forall|i: int|
            0 <= i < escaped(s, attribute).len() ==> (#[trigger] escaped(s, attribute)[i]) != '<'
                && escaped(s, attribute)[i] != '>' && (attribute ==> escaped(s, attribute)[i] != '"'),
    decreases s.len(),
{
    if s.len() > 0 {
        lemma_escaped_has_no_markup(s.drop_last(), attribute);
        let pre = escaped(s.drop_last(), attribute);
        let tail = if attribute {
            attribute_escape(s.last())
        } else {
            text_escape(s.last())
        };
        assert forall|i: int| 0 <= i < (pre + tail).len() implies (#[trigger] (pre + tail)[i]) != '<' && (pre
            + tail)[i] != '>' && (attribute ==> (pre + tail)[i] != '"') by {
            if i >= pre.len() {
                assert((pre + tail)[i] == tail[i - pre.len()]);
            } else {
                assert((pre + tail)[i] == pre[i]);
            }
        }
    }
}

} // verus!
