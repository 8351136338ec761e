use birei::markdown_state::{EditorDocument, EditorPopup};

#[test]
fn new_document_starts_committed() {
    let doc = EditorDocument::new(Some("# Title".to_string()));
    assert_eq!(doc.source, "# Title");
    assert_eq!(doc.last_committed, "# Title");
    assert!(!doc.has_focus);
    assert!(!doc.source_view_open);
    let empty = EditorDocument::new(None);
    assert_eq!(empty.source, "");
    assert!(empty.needs_render());
}

#[test]
fn commit_reports_only_real_changes() {
    let mut doc = EditorDocument::new(Some("plain".to_string()));
    assert_eq!(doc.commit_html("<p><strong>bold</strong></p>"), Some("**bold**".to_string()));
    assert_eq!(doc.source, "**bold**");
    assert_eq!(doc.last_committed, "**bold**");
    assert_eq!(doc.commit_html("<p><strong>bold</strong></p>"), None);
    assert_eq!(doc.commit_html("<p>plain</p>"), Some("plain".to_string()));
}

#[test]
fn editor_blur_waits_for_open_popups() {
    let mut doc = EditorDocument::new(None);
    doc.focus();
    doc.open_popup(EditorPopup::Link);
    assert_eq!(doc.editor_blur("<p>text</p>"), None);
    assert!(!doc.has_focus);
    assert_eq!(doc.source, "");
    assert_eq!(doc.close_popup(EditorPopup::Link, "<p>text</p>"), Some("text".to_string()));
    assert!(!doc.link_popup_open);
    assert_eq!(doc.source, "text");
}

#[test]
fn editor_blur_commits_without_popups() {
    let mut doc = EditorDocument::new(None);
    doc.focus();
    assert!(!doc.needs_render());
    assert_eq!(doc.editor_blur("<p>hello</p>"), Some("hello".to_string()));
    assert!(doc.needs_render());
    doc.focus();
    assert_eq!(doc.close_popup(EditorPopup::Heading, "<p>other</p>"), None);
    assert_eq!(doc.source, "hello");
}

#[test]
fn source_blur_reports_typed_source() {
    let mut doc = EditorDocument::new(Some("a".to_string()));
    doc.focus();
    doc.source_input("a *b*".to_string());
    assert_eq!(doc.last_committed, "a");
    assert_eq!(doc.source_blur(), Some("a *b*".to_string()));
    assert_eq!(doc.last_committed, "a *b*");
    doc.focus();
    assert_eq!(doc.source_blur(), None);
}

#[test]
fn external_value_waits_for_focus_loss() {
    let mut doc = EditorDocument::new(Some("mine".to_string()));
    doc.focus();
    doc.external_value(Some("theirs".to_string()));
    assert_eq!(doc.source, "mine");
    doc.source_blur();
    doc.external_value(Some("theirs".to_string()));
    assert_eq!(doc.source, "theirs");
    assert_eq!(doc.last_committed, "theirs");
    doc.external_value(None);
    assert_eq!(doc.source, "");
}

#[test]
fn toggle_source_view_round_trip() {
    let mut doc = EditorDocument::new(Some("old".to_string()));
    doc.focus();
    doc.open_popup(EditorPopup::Table);
    let changes = doc.toggle_source_view("<p>new</p>", false);
    assert_eq!(changes, vec!["new".to_string()]);
    assert!(doc.source_view_open);
    assert!(!doc.table_popup_open);
    let changes = doc.toggle_source_view("<p>ignored</p>", false);
    assert!(changes.is_empty());
    assert!(!doc.source_view_open);
    assert_eq!(doc.source, "new");
}

#[test]
fn toggle_source_view_reports_typed_source_and_respects_lock() {
    let mut doc = EditorDocument::new(Some("x".to_string()));
    doc.focus();
    doc.toggle_source_view("<p>x</p>", false);
    doc.source_input("y".to_string());
    let changes = doc.toggle_source_view("<p>x</p>", true);
    assert!(changes.is_empty());
    assert!(doc.source_view_open);
    let changes = doc.toggle_source_view("<p>x</p>", false);
    assert_eq!(changes, vec!["y".to_string()]);
    assert!(!doc.source_view_open);
}

#[test]
fn image_commit_skipped_while_focused_or_linking() {
    let mut doc = EditorDocument::new(None);
    doc.open_image_picker();
    assert!(doc.image_picker_open);
    doc.close_image_picker();
    doc.focus();
    assert_eq!(doc.after_image("<p>img</p>"), None);
    let mut doc = EditorDocument::new(None);
    doc.open_popup(EditorPopup::Link);
    assert_eq!(doc.after_image("<p>img</p>"), None);
    let mut doc = EditorDocument::new(None);
    assert_eq!(doc.after_image("<p>img</p>"), Some("img".to_string()));
}
