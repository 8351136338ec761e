//! Toolbar, popup menus and class names of the Markdown editor.
use vstd::prelude::*;

use crate::button_bar::{all_named_icons, item_views, named_item, ButtonBarItem};
use crate::select::push_suffix_if;
use crate::text::{extra_class, push_extra_class, push_text, string_from};

verus! {

/// Appends one named-icon button.
fn push_item(items: &mut Vec<ButtonBarItem>, value: &str, label: &str, icon: &str)
    requires
        all_named_icons(old(items)@),
    ensures
        item_views(final(items)@) == item_views(old(items)@).push((value@, label@, icon@)),
        all_named_icons(final(items)@),
{
    let ghost before = items@;
    items.push(named_item(value, label, icon));
    proof {
        assert(item_views(items@) =~= item_views(before).push((value@, label@, icon@)));
    }
}

/// Value, label and icon of each built-in toolbar action.
pub open spec fn default_toolbar_views() -> Seq<(Seq<char>, Seq<char>, Seq<char>)> {
    seq![
        ("heading"@, "Heading"@, "heading"@),
        ("bold"@, "Bold"@, "bold"@),
        ("italic"@, "Italic"@, "italic"@),
        ("link"@, "Link"@, "link"@),
        ("unordered-list"@, "Bullets"@, "list"@),
        ("ordered-list"@, "Numbers"@, "list-ordered"@),
        ("table"@, "Table"@, "table"@),
        ("image"@, "Image"@, "image-up"@),
        ("toggle-markdown-view"@, ".md"@, "code-xml"@),
    ]
}

/// The built-in toolbar actions shown by default in the Markdown editor.
pub fn default_toolbar_items() -> (r: Vec<ButtonBarItem>)
    ensures
        all_named_icons(r@),
        item_views(r@) == default_toolbar_views(),
{
    let mut items: Vec<ButtonBarItem> = Vec::new();
    proof {
        assert(item_views(items@) =~= seq![]);
    }
    push_item(&mut items, "heading", "Heading", "heading");
    push_item(&mut items, "bold", "Bold", "bold");
    push_item(&mut items, "italic", "Italic", "italic");
    push_item(&mut items, "link", "Link", "link");
    push_item(&mut items, "unordered-list", "Bullets", "list");
    push_item(&mut items, "ordered-list", "Numbers", "list-ordered");
    push_item(&mut items, "table", "Table", "table");
    push_item(&mut items, "image", "Image", "image-up");
    push_item(&mut items, "toggle-markdown-view", ".md", "code-xml");
    items
}

/// The heading submenu options.
pub fn heading_menu_items() -> (r: Vec<ButtonBarItem>)
    ensures
        all_named_icons(r@),
        item_views(r@) == seq![
            ("heading-1"@, "Heading 1"@, "heading-1"@),
            ("heading-2"@, "Heading 2"@, "heading-2"@),
            ("heading-3"@, "Heading 3"@, "heading-3"@),
            ("heading-4"@, "Heading 4"@, "heading-4"@),
            ("heading-paragraph"@, "Normal text"@, "text"@),
        ],
{
    let mut items: Vec<ButtonBarItem> = Vec::new();
    proof {
        assert(item_views(items@) =~= seq![]);
    }
    push_item(&mut items, "heading-1", "Heading 1", "heading-1");
    push_item(&mut items, "heading-2", "Heading 2", "heading-2");
    push_item(&mut items, "heading-3", "Heading 3", "heading-3");
    push_item(&mut items, "heading-4", "Heading 4", "heading-4");
    push_item(&mut items, "heading-paragraph", "Normal text", "text");
    items
}

/// The table submenu options shown while the selection is inside a table.
pub fn table_menu_items() -> (r: Vec<ButtonBarItem>)
    ensures
        all_named_icons(r@),
        item_views(r@) == seq![
            ("table-row-above"@, "Row above"@, "arrow-up-to-line"@),
            ("table-row-below"@, "Row below"@, "arrow-down-to-line"@),
            ("table-col-left"@, "Column left"@, "arrow-left-to-line"@),
            ("table-col-right"@, "Column right"@, "arrow-right-to-line"@),
            ("table-row-delete"@, "Delete row"@, "rows-3"@),
            ("table-col-delete"@, "Delete column"@, "columns-3"@),
            ("table-delete"@, "Delete table"@, "trash-2"@),
        ],
{
    let mut items: Vec<ButtonBarItem> = Vec::new();
    proof {
        assert(item_views(items@) =~= seq![]);
    }
    push_item(&mut items, "table-row-above", "Row above", "arrow-up-to-line");
    push_item(&mut items, "table-row-below", "Row below", "arrow-down-to-line");
    push_item(&mut items, "table-col-left", "Column left", "arrow-left-to-line");
    push_item(&mut items, "table-col-right", "Column right", "arrow-right-to-line");
    push_item(&mut items, "table-row-delete", "Delete row", "rows-3");
    push_item(&mut items, "table-col-delete", "Delete column", "columns-3");
    push_item(&mut items, "table-delete", "Delete table", "trash-2");
    items
}

/// The class list of a Markdown dropdown-style popup.
pub fn menu_popup_class_name(base: &str, open_upward: bool) -> (r: String)
    ensures
        r@ == base@ + " birei-dropdown-button__menu birei-dropdown-button__menu--content-width"@ + (
        if open_upward {
            " birei-dropdown-button__menu--upward"@
        } else {
            Seq::<char>::empty()
        }),
{
    let mut classes = string_from(base);
    push_text(&mut classes, " birei-dropdown-button__menu birei-dropdown-button__menu--content-width");
    crate::select::push_suffix_if(&mut classes, open_upward, " birei-dropdown-button__menu--upward");
    classes
}

/// Maps a table menu value back to its table action; unknown values delete the table.
pub fn table_action_from_value(value: &str) -> (r: &'static str)
    ensures
        r@ == (if value@ == "table-row-above"@ || value@ == "table-row-below"@ || value@
            == "table-col-left"@ || value@ == "table-col-right"@ || value@ == "table-row-delete"@
            || value@ == "table-col-delete"@ {
            value@
        } else {
            "table-delete"@
        }),
{
    if crate::text::text_eq(value, "table-row-above") {
        "table-row-above"
    } else if crate::text::text_eq(value, "table-row-below") {
        "table-row-below"
    } else if crate::text::text_eq(value, "table-col-left") {
        "table-col-left"
    } else if crate::text::text_eq(value, "table-col-right") {
        "table-col-right"
    } else if crate::text::text_eq(value, "table-row-delete") {
        "table-row-delete"
    } else if crate::text::text_eq(value, "table-col-delete") {
        "table-col-delete"
    } else {
        "table-delete"
    }
}

/// The editor's toolbar: the built-in actions when shown, then the caller's
/// own buttons.
pub fn toolbar_buttons(show_default_toolbar: bool, extra: Vec<ButtonBarItem>) -> (r: Vec<
    ButtonBarItem,
>)
    ensures
        show_default_toolbar ==> r@.len() == 9 + extra@.len() && r@.skip(9) == extra@
            && item_views(r@.take(9)) == default_toolbar_views(),
        !show_default_toolbar ==> r@ == extra@,
{
    let mut extra = extra;
    let mut items = if show_default_toolbar {
        default_toolbar_items()
    } else {
        Vec::new()
    };
    let ghost base = items@;
    let ghost added = extra@;
    items.append(&mut extra);
    proof {
        if show_default_toolbar {
            assert(item_views(base).len() == 9);
            assert(items@.take(9) =~= base);
            assert(items@.skip(9) =~= added);
        } else {
            assert(items@ =~= added);
        }
    }
    items
}

/// `t` when `on` holds, nothing otherwise.
pub open spec fn when(on: bool, t: Seq<char>) -> Seq<char> {
    if on {
        t
    } else {
        Seq::<char>::empty()
    }
}

/// The class list of the editor root.
pub fn editor_class_name(disabled: bool, readonly: bool, invalid: bool, class: Option<&str>) -> (r:
    String)
    ensures
        r@ == "birei-markdown"@ + when(disabled, " birei-markdown--disabled"@) + when(
            readonly,
            " birei-markdown--readonly"@,
        ) + when(invalid, " birei-markdown--invalid"@) + extra_class(class),
{
    let mut s = string_from("birei-markdown");
    push_suffix_if(&mut s, disabled, " birei-markdown--disabled");
    push_suffix_if(&mut s, readonly, " birei-markdown--readonly");
    push_suffix_if(&mut s, invalid, " birei-markdown--invalid");
    push_extra_class(&mut s, class);
    s
}

/// The class list of the rich editor's shell.
pub fn editor_shell_class_name(disabled: bool, readonly: bool, invalid: bool) -> (r: String)
    ensures
        r@ == "birei-markdown__editor-shell"@ + when(
            disabled,
            " birei-markdown__editor-shell--disabled"@,
        ) + when(readonly, " birei-markdown__editor-shell--readonly"@) + when(
            invalid,
            " birei-markdown__editor-shell--invalid"@,
        ),
{
    let mut s = string_from("birei-markdown__editor-shell");
    push_suffix_if(&mut s, disabled, " birei-markdown__editor-shell--disabled");
    push_suffix_if(&mut s, readonly, " birei-markdown__editor-shell--readonly");
    push_suffix_if(&mut s, invalid, " birei-markdown__editor-shell--invalid");
    s
}

/// The class list of the Markdown source view's textarea wrapper.
pub fn source_class_name(disabled: bool, readonly: bool, invalid: bool) -> (r: String)
    ensures
        r@ == "birei-textarea"@ + when(disabled, " birei-textarea--disabled"@) + when(
            readonly,
            " birei-textarea--readonly"@,
        ) + when(invalid, " birei-textarea--invalid"@) + " birei-markdown__source"@,
{
    let mut s = string_from("birei-textarea");
    push_suffix_if(&mut s, disabled, " birei-textarea--disabled");
    push_suffix_if(&mut s, readonly, " birei-textarea--readonly");
    push_suffix_if(&mut s, invalid, " birei-textarea--invalid");
    push_text(&mut s, " birei-markdown__source");
    s
}

} // verus!
