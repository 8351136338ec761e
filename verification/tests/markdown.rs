use birei::markdown_dom::{
    escape_html_attribute, escape_html_text, image_html, image_markdown, link_html, markdown_from_html,
    markdown_to_html, normalize_markdown,
};
use birei::markdown_legacy::{
    is_table_divider_cell, legacy_table_heading, normalize_legacy_table_headers, regular_table_heading,
    table_divider_columns,
};
use birei::markdown_menu::{
    default_toolbar_items, editor_class_name, editor_shell_class_name, heading_menu_items,
    menu_popup_class_name, source_class_name, table_action_from_value, table_menu_items, toolbar_buttons,
};
use birei::markdown_source::{
    insert_text, prefix_lines, rich_document_command, source_action_edit, source_link, unheading_lines,
    wrap_selection, LinePrefix,
};
use birei::button_bar::ButtonBarItem;

#[test]
fn normalizes_legacy_table_heading() {
    let markdown = "| @cols=2:**Befunde Erstuntersuchung** |\n| --- | --- |\n| **BCS:** | 2-3 |";

    assert_eq!(
        normalize_legacy_table_headers(markdown),
        "| **Befunde Erstuntersuchung** | |\n| --- | --- |\n| **BCS:** | 2-3 |"
    );
}

#[test]
fn preserves_unmatched_legacy_table_heading() {
    let markdown = "| @cols=2:**Heading** |\n| --- | --- | --- |";

    assert_eq!(normalize_legacy_table_headers(markdown), markdown);
}

#[test]
fn legacy_heading_keeps_crlf_and_trailing_line_ending() {
    let markdown = "| @cols=3: Title |\r\n| --- | :---: | ---: |\r\n";
    assert_eq!(
        normalize_legacy_table_headers(markdown),
        "| Title | | |\r\n| --- | :---: | ---: |\r\n"
    );
}

#[test]
fn legacy_heading_parts() {
    assert_eq!(legacy_table_heading("  | @cols=3:Title |  "), Some((3, "Title")));
    assert_eq!(legacy_table_heading("| @cols=1:Title |"), None);
    assert_eq!(legacy_table_heading("| @cols=2: |"), None);
    assert_eq!(legacy_table_heading("| @cols=2:a | b |"), None);
    assert_eq!(legacy_table_heading("| cols=2:a |"), None);
    assert_eq!(table_divider_columns(Some("| --- | :---: |")), Some(2));
    assert_eq!(table_divider_columns(Some("| --- | -- |")), None);
    assert_eq!(table_divider_columns(None), None);
    assert!(is_table_divider_cell(" :---: "));
    assert!(!is_table_divider_cell(" -x- "));
    assert_eq!(regular_table_heading("Head", 3), "| Head | | |");
}

#[test]
fn escapes_markup_characters() {
    assert_eq!(escape_html_attribute("a&b\"<c>"), "a&amp;b&quot;&lt;c&gt;");
    assert_eq!(escape_html_text("a&b\"<c>"), "a&amp;b\"&lt;c&gt;");
    assert_eq!(escape_html_text("plain"), "plain");
}

#[test]
fn renders_markdown_through_pulldown_cmark() {
    assert_eq!(markdown_to_html("   \n "), "");
    assert_eq!(markdown_to_html("**bold**"), "<p><strong>bold</strong></p>\n");
    assert_eq!(markdown_to_html("~~gone~~"), "<p><del>gone</del></p>\n");
}

#[test]
fn reads_markdown_back_from_html() {
    assert_eq!(normalize_markdown(String::from("  text \n")), "text");
    let markdown = markdown_from_html("<p><strong>bold</strong></p>");
    assert_eq!(markdown, "**bold**");
}

#[test]
fn builds_link_and_image_markup() {
    assert_eq!(link_html("   ", Some("text")), None);
    assert_eq!(
        link_html(" https://a.b/?x=1&y=2 ", Some("  ")).unwrap(),
        "<a href=\"https://a.b/?x=1&amp;y=2\" target=\"_blank\" rel=\"noopener noreferrer\">https://a.b/?x=1&amp;y=2</a>"
    );
    assert_eq!(
        link_html("u", Some("<b>")).unwrap(),
        "<a href=\"u\" target=\"_blank\" rel=\"noopener noreferrer\">&lt;b&gt;</a>"
    );
    assert_eq!(image_html("a\"b", "c"), "<img src=\"a&quot;b\" alt=\"c\" />");
    assert_eq!(image_markdown("pic.png", "https://x/pic.png"), "![pic.png](https://x/pic.png)");
}

#[test]
fn wraps_the_source_selection() {
    let edit = wrap_selection("say hi now", 4, 6, "**", "**", "bold");
    assert_eq!(edit.value, "say **hi** now");
    assert_eq!((edit.selection_start, edit.selection_end), (4, 10));

    let edit = wrap_selection("ab", 1, 1, "*", "*", "italic");
    assert_eq!(edit.value, "a*italic*b");
    assert_eq!((edit.selection_start, edit.selection_end), (2, 8));
}

#[test]
fn prefixes_and_unheads_selected_lines() {
    let edit = prefix_lines("one\ntwo\nthree", 1, 5, LinePrefix::Numbered);
    assert_eq!(edit.value, "1. one\n2. two\nthree");
    assert_eq!((edit.selection_start, edit.selection_end), (0, 13));

    let edit = prefix_lines("a\nb", 2, 2, LinePrefix::Heading(2));
    assert_eq!(edit.value, "a\n## b");
    assert_eq!((edit.selection_start, edit.selection_end), (2, 6));

    let edit = prefix_lines("x", 0, 1, LinePrefix::Bullet);
    assert_eq!(edit.value, "- x");

    let edit = unheading_lines("## Title\n#Tag\nplain", 0, 14);
    assert_eq!(edit.value, "Title\nTag\nplain");
    assert_eq!((edit.selection_start, edit.selection_end), (0, 15));
}

#[test]
fn numbers_more_than_nine_lines() {
    let text = "a\nb\nc\nd\ne\nf\ng\nh\ni\nj";
    let edit = prefix_lines(text, 0, text.len(), LinePrefix::Numbered);
    assert!(edit.value.ends_with("\n10. j"));
}

#[test]
fn inserts_text_and_links() {
    let edit = insert_text("ab", 1, 1, "\n---\n", 5);
    assert_eq!(edit.value, "a\n---\nb");
    assert_eq!((edit.selection_start, edit.selection_end), (6, 6));

    let edit = source_link("see here", 4, 8, " http://x ").unwrap();
    assert_eq!(edit.value, "see [here](http://x)");
    assert_eq!((edit.selection_start, edit.selection_end), (4, 20));

    let edit = source_link("see ", 4, 4, "http://x").unwrap();
    assert_eq!(edit.value, "see [http://x](http://x)");
    assert!(source_link("see", 0, 3, "  ").is_none());
}

#[test]
fn dispatches_toolbar_actions_in_the_source_view() {
    let edit = source_action_edit("bold", "x", 0, 1).unwrap();
    assert_eq!(edit.value, "**x**");
    let edit = source_action_edit("heading-3", "x", 0, 0).unwrap();
    assert_eq!(edit.value, "### x");
    let edit = source_action_edit("heading-paragraph", "### x", 0, 0).unwrap();
    assert_eq!(edit.value, "x");
    let edit = source_action_edit("table", "", 0, 0).unwrap();
    assert_eq!(edit.value, "| Column 1 | Column 2 |\n| --- | --- |\n| Value 1 | Value 2 |");
    assert_eq!(edit.selection_start, 0);
    assert!(source_action_edit("link", "x", 0, 0).is_none());
    assert!(source_action_edit("custom", "x", 0, 0).is_none());
}

#[test]
fn maps_toolbar_actions_to_document_commands() {
    assert_eq!(rich_document_command("bold"), Some(("bold", None)));
    assert_eq!(rich_document_command("heading-2"), Some(("formatBlock", Some("h2"))));
    assert_eq!(rich_document_command("heading-paragraph"), Some(("formatBlock", Some("p"))));
    assert_eq!(rich_document_command("ordered-list"), Some(("insertOrderedList", None)));
    assert_eq!(rich_document_command("image"), None);
}

#[test]
fn lists_the_toolbar_and_menus() {
    let items = default_toolbar_items();
    let values: Vec<&str> = items.iter().map(|i| i.value.as_str()).collect();
    assert_eq!(
        values,
        vec!["heading", "bold", "italic", "link", "unordered-list", "ordered-list", "table", "image", "toggle-markdown-view"]
    );
    assert_eq!(heading_menu_items().len(), 5);
    assert_eq!(table_menu_items()[6].value, "table-delete");
    let all = toolbar_buttons(true, vec![ButtonBarItem::new("custom", "Custom")]);
    assert_eq!(all.len(), 10);
    assert_eq!(all[9].value, "custom");
    let only = toolbar_buttons(false, vec![ButtonBarItem::new("custom", "Custom")]);
    assert_eq!(only.len(), 1);
    assert_eq!(table_action_from_value("table-col-left"), "table-col-left");
    assert_eq!(table_action_from_value("unknown"), "table-delete");
}

#[test]
fn composes_editor_class_names() {
    assert_eq!(
        editor_class_name(true, false, true, Some("x")),
        "birei-markdown birei-markdown--disabled birei-markdown--invalid x"
    );
    assert_eq!(editor_shell_class_name(false, true, false), "birei-markdown__editor-shell birei-markdown__editor-shell--readonly");
    assert_eq!(source_class_name(false, false, false), "birei-textarea birei-markdown__source");
    assert_eq!(
        menu_popup_class_name("base", true),
        "base birei-dropdown-button__menu birei-dropdown-button__menu--content-width birei-dropdown-button__menu--upward"
    );
}

#[test]
fn text_without_legacy_headings_is_unchanged() {
    let markdown = "# Title\r\n| a | b |\r\n| --- | --- |\r\n";
    assert_eq!(normalize_legacy_table_headers(markdown), markdown);
}

#[test]
fn legacy_normalization_is_idempotent() {
    let inputs = [
        "| @cols=2:**Befunde Erstuntersuchung** |\n| --- | --- |\n| **BCS:** | 2-3 |",
        "| @cols=3:Title |\r\n| --- | :---: | ---: |\r\nrow\r\n",
        "| @cols=2:--- |\n| --- | --- |\n",
        "| @cols=2:Heading |\n| --- | --- | --- |",
        "plain text\n",
    ];
    for input in inputs {
        let once = normalize_legacy_table_headers(input);
        assert_eq!(normalize_legacy_table_headers(&once), once);
    }
    assert_eq!(
        normalize_legacy_table_headers("| @cols=3:Title |\r\n| --- | :---: | ---: |\r\nrow\r\n"),
        "| Title | | |\r\n| --- | :---: | ---: |\r\nrow\r\n"
    );
}
