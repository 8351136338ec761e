//! The Markdown editor's document state: the Markdown source, the value last
//! reported to the caller, focus, the source view and the open popups, and
//! when a change is committed and reported.
use vstd::prelude::*;

use crate::markdown_dom::{html2md_markdown, markdown_from_html};
use crate::text::{string_from, text_eq, trim};

verus! {

/// A popup of the editor's toolbar.
#[derive(Debug, Clone, Copy, PartialEq, Eq)]
pub enum EditorPopup {
    Heading,
    Link,
    Table,
}

/// The editor's document and interaction state.
pub struct EditorDocument {
    /// The Markdown that the editor shows.
    pub source: String,
    /// The Markdown last committed, and reported when it changed.
    pub last_committed: String,
    /// Whether the rich editor or the source textarea has the focus.
    pub has_focus: bool,
    /// Whether the Markdown source view replaces the rich editor.
    pub source_view_open: bool,
    pub heading_popup_open: bool,
    pub link_popup_open: bool,
    pub table_popup_open: bool,
    /// Whether the image file picker is open.
    pub image_picker_open: bool,
}

/// The mathematical model of the editor state.
pub struct EditorModel {
    pub source: Seq<char>,
    pub last_committed: Seq<char>,
    pub has_focus: bool,
    pub source_view_open: bool,
    pub heading_popup_open: bool,
    pub link_popup_open: bool,
    pub table_popup_open: bool,
    pub image_picker_open: bool,
}

impl View for EditorDocument {
    type V = EditorModel;

    open spec fn view(&self) -> EditorModel {
        EditorModel {
            source: self.source@,
            last_committed: self.last_committed@,
            has_focus: self.has_focus,
            source_view_open: self.source_view_open,
            heading_popup_open: self.heading_popup_open,
            link_popup_open: self.link_popup_open,
            table_popup_open: self.table_popup_open,
            image_picker_open: self.image_picker_open,
        }
    }
}

/// The reported Markdown, as characters.
pub open spec fn reported(r: Option<String>) -> Option<Seq<char>> {
    match r {
        Some(s) => Some(s@),
        None => None,
    }
}

/// Commits `markdown`: it becomes the source and the committed value, and it
/// is reported when it differs from the value committed before.
pub open spec fn commit_markdown(m: EditorModel, markdown: Seq<char>) -> (EditorModel, Option<Seq<char>>) {
    (
        EditorModel { source: markdown, last_committed: markdown, ..m },
        if markdown == m.last_committed {
            None
        } else {
            Some(markdown)
        },
    )
}

/// The Markdown that the rich editor's HTML stands for.
pub open spec fn html_markdown(html: Seq<char>) -> Seq<char> {
    trim(html2md_markdown(html))
}

/// Commits the rich editor's content, read as Markdown from its HTML.
pub open spec fn commit_html_model(m: EditorModel, html: Seq<char>) -> (EditorModel, Option<Seq<char>>) {
    commit_markdown(m, html_markdown(html))
}

/// Whether `popup` is open.
pub open spec fn popup_open(m: EditorModel, popup: EditorPopup) -> bool {
    match popup {
        EditorPopup::Heading => m.heading_popup_open,
        EditorPopup::Link => m.link_popup_open,
        EditorPopup::Table => m.table_popup_open,
    }
}

/// The state with `popup` opened or closed.
pub open spec fn with_popup(m: EditorModel, popup: EditorPopup, open: bool) -> EditorModel {
    match popup {
        EditorPopup::Heading => EditorModel { heading_popup_open: open, ..m },
        EditorPopup::Link => EditorModel { link_popup_open: open, ..m },
        EditorPopup::Table => EditorModel { table_popup_open: open, ..m },
    }
}

/// Closing a popup commits the rich editor's content when the editor does not
/// have the focus.
pub open spec fn close_popup_model(m: EditorModel, popup: EditorPopup, html: Seq<char>) -> (
    EditorModel,
    Option<Seq<char>>,
) {
    let closed = with_popup(m, popup, false);
    if m.has_focus {
        (closed, None)
    } else {
        commit_html_model(closed, html)
    }
}

/// A reported change as a sequence of at most one value.
pub open spec fn opt_seq(c: Option<Seq<char>>) -> Seq<Seq<char>> {
    match c {
        Some(x) => seq![x],
        None => Seq::empty(),
    }
}

/// Switching between the rich editor and the source view: all popups close,
/// then leaving the source view commits the source and entering it commits
/// the rich editor's content. Gives the state and the reported changes in order.
pub open spec fn toggle_model(m: EditorModel, html: Seq<char>) -> (EditorModel, Seq<Seq<char>>) {
    let (m1, c1) = close_popup_model(m, EditorPopup::Heading, html);
    let (m2, c2) = close_popup_model(m1, EditorPopup::Link, html);
    let (m3, c3) = close_popup_model(m2, EditorPopup::Table, html);
    let (m4, c4) = if m3.source_view_open {
        commit_markdown(m3, m3.source)
    } else {
        commit_html_model(m3, html)
    };
    (
        EditorModel { source_view_open: !m3.source_view_open, ..m4 },
        opt_seq(c1) + opt_seq(c2) + opt_seq(c3) + opt_seq(c4),
    )
}

/// A value handed in by the caller replaces the source while the editor does
/// not have the focus and the value differs from the committed one.
pub open spec fn external_model(m: EditorModel, next: Seq<char>) -> EditorModel {
    if m.has_focus || next == m.last_committed {
        m
    } else {
        EditorModel { source: next, last_committed: next, ..m }
    }
}

impl EditorDocument {
    /// The state of a new editor showing `initial`.
    pub fn new(initial: Option<String>) -> (r: Self)
        ensures
            r@ == (EditorModel {
                source: match initial {
                    Some(s) => s@,
                    None => Seq::empty(),
                },
                last_committed: match initial {
                    Some(s) => s@,
                    None => Seq::empty(),
                },
                has_focus: false,
                source_view_open: false,
                heading_popup_open: false,
                link_popup_open: false,
                table_popup_open: false,
                image_picker_open: false,
            }),
    {
        let markdown = match initial {
            Some(s) => s,
            None => String::new(),
        };
        let committed = string_from(markdown.as_str());
        EditorDocument {
            source: markdown,
            last_committed: committed,
            has_focus: false,
            source_view_open: false,
            heading_popup_open: false,
            link_popup_open: false,
            table_popup_open: false,
            image_picker_open: false,
        }
    }

    /// Commits `markdown` and gives it back when it differs from the value
    /// committed before.
    fn commit_value(&mut self, markdown: String) -> (r: Option<String>)
        ensures
            (final(self)@, reported(r)) == commit_markdown(old(self)@, markdown@),
    {
        let changed = !text_eq(markdown.as_str(), self.last_committed.as_str());
        self.last_committed = string_from(markdown.as_str());
        let out = if changed {
            Some(string_from(markdown.as_str()))
        } else {
            None
        };
        self.source = markdown;
        out
    }

    /// Reads the rich editor's HTML back as Markdown and commits it; gives the
    /// Markdown to report when it changed.
    pub fn commit_html(&mut self, html: &str) -> (r: Option<String>)
        ensures
            (final(self)@, reported(r)) == commit_html_model(old(self)@, html@),
    {
        let markdown = markdown_from_html(html);
        self.commit_value(markdown)
    }

    /// The rich editor or the source textarea gains the focus.
    pub fn focus(&mut self)
        ensures
            final(self)@ == (EditorModel { has_focus: true, ..old(self)@ }),
    {
        self.has_focus = true;
    }

    /// Typing in the source textarea replaces the source.
    pub fn source_input(&mut self, text: String)
        ensures
            final(self)@ == (EditorModel { source: text@, ..old(self)@ }),
    {
        self.source = text;
    }

    /// The source textarea loses the focus: the source is committed and
    /// reported when it changed.
    pub fn source_blur(&mut self) -> (r: Option<String>)
        ensures
            (final(self)@, reported(r)) == commit_markdown(
                EditorModel { has_focus: false, ..old(self)@ },
                old(self)@.source,
            ),
    {
        self.has_focus = false;
        let markdown = string_from(self.source.as_str());
        self.commit_value(markdown)
    }

    /// The rich editor loses the focus: its content is committed unless a
    /// popup or the image picker is open.
    pub fn editor_blur(&mut self, html: &str) -> (r: Option<String>)
        ensures
            ({
                let m = EditorModel { has_focus: false, ..old(self)@ };
                if m.heading_popup_open || m.link_popup_open || m.table_popup_open || m.image_picker_open {
                    final(self)@ == m && r is None
                } else {
                    (final(self)@, reported(r)) == commit_html_model(m, html@)
                }
            }),
    {
        self.has_focus = false;
        if self.heading_popup_open || self.link_popup_open || self.table_popup_open || self.image_picker_open {
            return None;
        }
        self.commit_html(html)
    }

    /// Takes the value handed in by the caller (none stands for empty).
    pub fn external_value(&mut self, next: Option<String>)
        ensures
            final(self)@ == external_model(
                old(self)@,
                match next {
                    Some(s) => s@,
                    None => Seq::empty(),
                },
            ),
    {
        let next = match next {
            Some(s) => s,
            None => String::new(),
        };
        if self.has_focus || text_eq(next.as_str(), self.last_committed.as_str()) {
            return;
        }
        self.last_committed = string_from(next.as_str());
        self.source = next;
    }

    /// Whether the rich editor is to be rendered from the source: while the
    /// user is not editing and the source view is closed.
    pub fn needs_render(&self) -> (r: bool)
        ensures
            r == (!self.has_focus && !self.source_view_open),
    {
        !self.has_focus && !self.source_view_open
    }

    /// Opens `popup`.
    pub fn open_popup(&mut self, popup: EditorPopup)
        ensures
            final(self)@ == with_popup(old(self)@, popup, true),
    {
        match popup {
            EditorPopup::Heading => self.heading_popup_open = true,
            EditorPopup::Link => self.link_popup_open = true,
            EditorPopup::Table => self.table_popup_open = true,
        }
    }

    /// Closes `popup`; without focus the rich editor's content is committed.
    pub fn close_popup(&mut self, popup: EditorPopup, html: &str) -> (r: Option<String>)
        ensures
            (final(self)@, reported(r)) == close_popup_model(old(self)@, popup, html@),
    {
        match popup {
            EditorPopup::Heading => self.heading_popup_open = false,
            EditorPopup::Link => self.link_popup_open = false,
            EditorPopup::Table => self.table_popup_open = false,
        }
        if self.has_focus {
            None
        } else {
            self.commit_html(html)
        }
    }

    /// Switches between the rich editor and the source view; a disabled or
    /// read-only editor does nothing. Gives the changes to report, in order.
    pub fn toggle_source_view(&mut self, html: &str, locked: bool) -> (r: Vec<String>)
        ensures
            locked ==> final(self)@ == old(self)@ && r@.len() == 0,
            !locked ==> final(self)@ == toggle_model(old(self)@, html@).0 && r@.map_values(
                |s: String| s@,
            ) == toggle_model(old(self)@, html@).1,
    {
        let mut out: Vec<String> = Vec::new();
        if locked {
            return out;
        }
        let c1 = self.close_popup(EditorPopup::Heading, html);
        let c2 = self.close_popup(EditorPopup::Link, html);
        let c3 = self.close_popup(EditorPopup::Table, html);
        let c4 = if self.source_view_open {
            let markdown = string_from(self.source.as_str());
            self.commit_value(markdown)
        } else {
            self.commit_html(html)
        };
        self.source_view_open = !self.source_view_open;
        push_change(&mut out, c1);
        push_change(&mut out, c2);
        push_change(&mut out, c3);
        push_change(&mut out, c4);
        proof {
            assert(out@.map_values(|s: String| s@) =~= opt_seq(reported(c1)) + opt_seq(reported(c2))
                + opt_seq(reported(c3)) + opt_seq(reported(c4)));
        }
        out
    }

    /// The image picker opens.
    pub fn open_image_picker(&mut self)
        ensures
            final(self)@ == (EditorModel { image_picker_open: true, ..old(self)@ }),
    {
        self.image_picker_open = true;
    }

    /// The image picker closes (a file was chosen or not).
    pub fn close_image_picker(&mut self)
        ensures
            final(self)@ == (EditorModel { image_picker_open: false, ..old(self)@ }),
    {
        self.image_picker_open = false;
    }

    /// After an image was inserted (or none was chosen) the rich editor's
    /// content is committed, unless the editor has the focus or the link popup
    /// is open.
    pub fn after_image(&mut self, html: &str) -> (r: Option<String>)
        ensures
            old(self)@.has_focus || old(self)@.link_popup_open ==> final(self)@ == old(self)@ && r is None,
            !old(self)@.has_focus && !old(self)@.link_popup_open ==> (final(self)@, reported(r))
                == commit_html_model(old(self)@, html@),
    {
        if self.has_focus || self.link_popup_open {
            return None;
        }
        self.commit_html(html)
    }
}

fn push_change(out: &mut Vec<String>, change: Option<String>)
    ensures
        final(out)@.map_values(|s: String| s@) == old(out)@.map_values(|s: String| s@) + opt_seq(
            reported(change),
        ),
{
    match change {
        Some(s) => {
            out.push(s);
            proof {
                assert(final(out)@.map_values(|s: String| s@) =~= old(out)@.map_values(|s: String| s@)
                    + opt_seq(reported(change)));
            }
        },
        None => {
            proof {
                assert(old(out)@.map_values(|s: String| s@) + opt_seq(reported(change)) =~= old(
                    out,
                )@.map_values(|s: String| s@));
            }
        },
    }
}

/// A commit settles the document: afterwards the source is the committed
/// value, and committing the same content again reports nothing and changes
/// nothing.
pub proof fn lemma_commit_settles(m: EditorModel, html: Seq<char>)
    ensures
        commit_html_model(m, html).0.source == commit_html_model(m, html).0.last_committed,
        commit_html_model(commit_html_model(m, html).0, html).1 is None,
        commit_html_model(commit_html_model(m, html).0, html).0 == commit_html_model(m, html).0,
{
}

/// A change is reported exactly when the committed Markdown differs from the
/// value committed before, and what is reported is the new value.
pub proof fn lemma_reports_only_changes(m: EditorModel, markdown: Seq<char>)
    ensures
        commit_markdown(m, markdown).1 is None <==> markdown == m.last_committed,
        commit_markdown(m, markdown).1 matches Some(x) ==> x == markdown,
{
}

/// While the editor has the focus, a value handed in by the caller does not
/// replace what the user is editing.
pub proof fn lemma_focus_keeps_edits(m: EditorModel, next: Seq<char>)
    requires
        m.has_focus,
    ensures
        external_model(m, next) == m,
{
}

/// Switching views reports at most one change.
pub proof fn lemma_toggle_reports_once(m: EditorModel, html: Seq<char>)
    ensures
        toggle_model(m, html).1.len() <= 1,
{
    assert(opt_seq(None) =~= Seq::<Seq<char>>::empty());
}

/// Opening the source view and closing it again, with the focus in the editor
/// and without typing, reports nothing on the way back, keeps the source that
/// opening committed, and shows the rich editor again.
pub proof fn lemma_source_view_round_trip(m: EditorModel, html: Seq<char>, html2: Seq<char>)
    requires
        m.has_focus,
        !m.source_view_open,
    ensures
        toggle_model(toggle_model(m, html).0, html2).1.len() == 0,
        toggle_model(toggle_model(m, html).0, html2).0.source == toggle_model(m, html).0.source,
        !toggle_model(toggle_model(m, html).0, html2).0.source_view_open,
{
    assert(opt_seq(None) =~= Seq::<Seq<char>>::empty());
}

} // verus!
