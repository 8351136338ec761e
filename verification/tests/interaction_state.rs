use birei::list::{row_key_action, RowAction};
use birei::menu_button::{MenuButtonItem, MenuState};
use birei::select::{SelectChange, SelectOption, SelectState};
use birei::tab::{inline_layout, tab_choice_by_value, tab_key, tab_key_target, TabItem, TabKey, TabSelection};

fn choice(value: &str, label: &str, disabled: bool) -> SelectOption {
    SelectOption { value: value.to_string(), label: label.to_string(), icon: None, disabled }
}

fn languages() -> Vec<SelectOption> {
    vec![choice("de", "Deutsch", true), choice("en", "English", false), choice("fr", "Français", false)]
}

#[test]
fn select_state_starts_closed() {
    let state = SelectState::new(Some("en".to_string()), Vec::new());
    assert_eq!(state.value, Some("en".to_string()));
    assert!(!state.open);
    assert!(state.query.is_empty());
    assert_eq!(state.active, None);
}

#[test]
fn select_display_value_shows_label_until_typing() {
    let mut state = SelectState::new(Some("en".to_string()), Vec::new());
    assert_eq!(state.display_value(false, "English"), "English");
    state.query = "fr".to_string();
    assert_eq!(state.display_value(false, "English"), "fr");
    state.query.clear();
    state.open = true;
    assert_eq!(state.display_value(false, "English"), "");
    assert_eq!(state.display_value(true, "English"), "");
}

#[test]
fn select_open_menu_activates_first_enabled_option() {
    let options = languages();
    let mut state = SelectState::new(None, Vec::new());
    state.open_menu(true, &options);
    assert!(!state.open);
    state.open_menu(false, &options);
    assert!(state.open);
    assert_eq!(state.active, Some(1));
}

#[test]
fn select_move_active_wraps_over_enabled_options() {
    let options = languages();
    let mut state = SelectState::new(None, Vec::new());
    state.open_menu(false, &options);
    state.move_active(&options, 1);
    assert_eq!(state.active, Some(2));
    state.move_active(&options, 1);
    assert_eq!(state.active, Some(1));
    state.move_active(&options, -1);
    assert_eq!(state.active, Some(2));
}

#[test]
fn select_choose_active_single_closes() {
    let options = languages();
    let mut state = SelectState::new(None, Vec::new());
    state.open_menu(false, &options);
    state.query = "fr".to_string();
    state.active = Some(0);
    let change = state.choose_active(false, &options, Vec::new());
    assert!(matches!(change, Some(SelectChange::Value(Some(ref v))) if v == "fr"));
    assert_eq!(state.value, Some("fr".to_string()));
    assert!(!state.open);
    assert!(state.query.is_empty());
    assert_eq!(state.active, None);
}

#[test]
fn select_choose_active_multiple_toggles_and_stays_open() {
    let options = languages();
    let mut state = SelectState::new(None, vec!["en".to_string()]);
    state.open_menu(false, &options);
    state.active = Some(2);
    let change = state.choose_active(true, &options, vec!["en".to_string()]);
    match change {
        Some(SelectChange::Values(values)) => assert_eq!(values, vec!["en".to_string(), "fr".to_string()]),
        _ => panic!("expected new values"),
    }
    assert_eq!(state.values, vec!["en".to_string(), "fr".to_string()]);
    assert!(state.open);
    state.active = Some(1);
    let change = state.choose_active(true, &options, state.values.clone());
    match change {
        Some(SelectChange::Values(values)) => assert_eq!(values, vec!["fr".to_string()]),
        _ => panic!("expected new values"),
    }
}

#[test]
fn select_choose_disabled_or_missing_option_does_nothing() {
    let options = languages();
    let mut state = SelectState::new(Some("en".to_string()), Vec::new());
    state.open = true;
    state.active = Some(0);
    assert!(state.choose_active(false, &options, Vec::new()).is_none());
    assert_eq!(state.value, Some("en".to_string()));
    assert!(state.open);
    state.active = None;
    assert!(state.choose_active(false, &options, Vec::new()).is_none());
    state.active = Some(7);
    assert!(state.choose_active(false, &options, Vec::new()).is_none());
}

#[test]
fn select_clear_only_when_nullable_and_enabled() {
    let options = languages();
    let mut state = SelectState::new(Some("en".to_string()), Vec::new());
    assert!(state.clear(false, false, false, &options).is_none());
    assert!(state.clear(false, true, true, &options).is_none());
    assert_eq!(state.value, Some("en".to_string()));
    let change = state.clear(false, true, false, &options);
    assert!(matches!(change, Some(SelectChange::Value(None))));
    assert_eq!(state.value, None);

    let mut state = SelectState::new(None, vec!["en".to_string(), "fr".to_string()]);
    let change = state.clear(true, true, false, &options);
    match change {
        Some(SelectChange::Values(values)) => assert!(values.is_empty()),
        _ => panic!("expected cleared values"),
    }
    assert!(state.values.is_empty());
    assert!(state.open);
}

fn menu_items() -> Vec<MenuButtonItem> {
    vec![
        MenuButtonItem::new("copy", "Copy"),
        MenuButtonItem::new("cut", "Cut").disabled(true),
        MenuButtonItem::new("paste", "Paste"),
    ]
}

#[test]
fn menu_toggle_opens_and_closes() {
    let items = menu_items();
    let mut state = MenuState::new();
    state.toggle(true, &items);
    assert!(!state.open);
    state.toggle(false, &items);
    assert!(state.open);
    assert_eq!(state.active, Some(0));
    state.toggle(false, &items);
    assert!(!state.open);
    assert_eq!(state.active, None);
}

#[test]
fn menu_select_item_reports_enabled_items_only() {
    let items = menu_items();
    let mut state = MenuState::new();
    state.open_menu(false, &items);
    assert_eq!(state.select_item(&items, Some(1)), None);
    assert!(state.open);
    assert_eq!(state.select_item(&items, Some(9)), None);
    assert_eq!(state.select_item(&items, Some(2)), Some("paste".to_string()));
    assert!(!state.open);
    assert_eq!(state.active, None);
}

#[test]
fn menu_key_down_opens_moves_and_chooses() {
    let items = menu_items();
    let mut state = MenuState::new();
    let outcome = state.key_down("ArrowDown", false, &items);
    assert!(outcome.prevent_default);
    assert!(state.open);
    assert_eq!(state.active, Some(0));
    state.key_down("ArrowDown", false, &items);
    assert_eq!(state.active, Some(2));
    state.key_down("ArrowDown", false, &items);
    assert_eq!(state.active, Some(0));
    state.key_down("ArrowUp", false, &items);
    assert_eq!(state.active, Some(2));
    let outcome = state.key_down("Enter", false, &items);
    assert!(outcome.prevent_default);
    assert_eq!(outcome.selected, Some("paste".to_string()));
    assert!(!state.open);
}

#[test]
fn menu_key_down_escape_and_other_keys() {
    let items = menu_items();
    let mut state = MenuState::new();
    let outcome = state.key_down("Escape", false, &items);
    assert!(!outcome.prevent_default);
    state.key_down(" ", false, &items);
    assert!(state.open);
    let outcome = state.key_down("a", false, &items);
    assert!(!outcome.prevent_default);
    assert!(state.open);
    let outcome = state.key_down("Escape", false, &items);
    assert!(outcome.prevent_default);
    assert!(!state.open);
    assert_eq!(state.active, None);
}

fn tabs() -> Vec<TabItem> {
    vec![
        TabItem::new("overview", "Overview"),
        TabItem::new("details", "Details").disabled(true),
        TabItem::new("history", "History"),
        TabItem::new("settings", "Settings"),
        TabItem::new("archive", "Archive"),
    ]
}

#[test]
fn tab_key_recognises_roving_keys_only() {
    assert!(matches!(tab_key("ArrowLeft"), Some(TabKey::ArrowLeft)));
    assert!(matches!(tab_key("ArrowRight"), Some(TabKey::ArrowRight)));
    assert!(matches!(tab_key("Home"), Some(TabKey::Home)));
    assert!(matches!(tab_key("End"), Some(TabKey::End)));
    assert!(tab_key("Enter").is_none());
    assert!(tab_key("arrowleft").is_none());
}

#[test]
fn tab_key_target_stays_on_visible_enabled_tabs() {
    let tabs = tabs();
    let visible = vec![0, 1, 2, 3];
    assert_eq!(tab_key_target(TabKey::ArrowRight, &tabs, &visible, 0), Some(2));
    assert_eq!(tab_key_target(TabKey::ArrowLeft, &tabs, &visible, 2), Some(0));
    assert_eq!(tab_key_target(TabKey::ArrowLeft, &tabs, &visible, 0), Some(3));
    assert_eq!(tab_key_target(TabKey::ArrowRight, &tabs, &visible, 3), Some(0));
    assert_eq!(tab_key_target(TabKey::Home, &tabs, &visible, 3), Some(0));
    assert_eq!(tab_key_target(TabKey::End, &tabs, &visible, 0), Some(3));
    assert_eq!(tab_key_target(TabKey::ArrowRight, &tabs, &visible, 4), None);
    let hidden_first = vec![1, 4];
    assert_eq!(tab_key_target(TabKey::Home, &tabs, &hidden_first, 4), Some(4));
    assert_eq!(tab_key_target(TabKey::ArrowLeft, &tabs, &hidden_first, 4), Some(4));
    let only_disabled = vec![1];
    assert_eq!(tab_key_target(TabKey::End, &tabs, &only_disabled, 1), None);
}

#[test]
fn tab_choice_by_value_ignores_disabled_and_unknown_tabs() {
    let tabs = tabs();
    assert_eq!(tab_choice_by_value(&tabs, "history"), Some("history".to_string()));
    assert_eq!(tab_choice_by_value(&tabs, "details"), None);
    assert_eq!(tab_choice_by_value(&tabs, "missing"), None);
}

#[test]
fn row_key_action_moves_within_rows() {
    assert_eq!(row_key_action("ArrowDown", Some(1), 3), Some(RowAction::Activate(2)));
    assert_eq!(row_key_action("ArrowDown", Some(2), 3), Some(RowAction::Activate(2)));
    assert_eq!(row_key_action("ArrowDown", None, 3), Some(RowAction::Activate(1)));
    assert_eq!(row_key_action("ArrowUp", Some(0), 3), Some(RowAction::Activate(0)));
    assert_eq!(row_key_action("ArrowUp", Some(2), 3), Some(RowAction::Activate(1)));
    assert_eq!(row_key_action("Home", Some(2), 3), Some(RowAction::Activate(0)));
    assert_eq!(row_key_action("End", None, 3), Some(RowAction::Activate(2)));
}

#[test]
fn row_key_action_commits_current_row() {
    assert_eq!(row_key_action("Enter", Some(2), 3), Some(RowAction::Commit(2)));
    assert_eq!(row_key_action(" ", None, 3), Some(RowAction::Commit(0)));
}

#[test]
fn row_key_action_ignores_other_keys_and_empty_rows() {
    assert_eq!(row_key_action("Tab", Some(1), 3), None);
    assert_eq!(row_key_action("ArrowDown", None, 0), None);
    assert_eq!(row_key_action("Enter", None, 0), None);
}

#[test]
fn select_focus_opens_only_multiple_selects() {
    let options = languages();
    let mut state = SelectState::new(None, Vec::new());
    state.focus(false, false, &options);
    assert!(!state.open);
    state.focus(true, true, &options);
    assert!(!state.open);
    state.focus(true, false, &options);
    assert!(state.open);
    assert_eq!(state.active, Some(1));
}

#[test]
fn select_input_filters_and_blur_resets_query() {
    let options = languages();
    let mut state = SelectState::new(None, Vec::new());
    state.input("fran".to_string(), false, &options);
    assert!(state.open);
    assert_eq!(state.query, "fran");
    assert_eq!(state.active, Some(0));
    state.blur();
    assert!(!state.open);
    assert!(state.query.is_empty());

    let mut disabled = SelectState::new(None, Vec::new());
    disabled.input("en".to_string(), true, &options);
    assert!(!disabled.open);
    assert_eq!(disabled.query, "en");
}

#[test]
fn select_key_down_drives_the_menu() {
    let options = languages();
    let mut state = SelectState::new(None, Vec::new());
    let outcome = state.key_down("Enter", false, false, &options, Vec::new());
    assert!(!outcome.prevent_default);
    assert!(!state.open);
    let outcome = state.key_down("ArrowDown", false, false, &options, Vec::new());
    assert!(outcome.prevent_default);
    assert!(state.open);
    assert_eq!(state.active, Some(1));
    state.key_down("ArrowDown", false, false, &options, Vec::new());
    assert_eq!(state.active, Some(2));
    state.key_down("ArrowUp", false, false, &options, Vec::new());
    assert_eq!(state.active, Some(1));
    let outcome = state.key_down("Enter", false, false, &options, Vec::new());
    assert!(outcome.prevent_default);
    assert!(matches!(outcome.change, Some(SelectChange::Value(Some(ref v))) if v == "en"));
    assert_eq!(state.value, Some("en".to_string()));
    assert!(!state.open);
}

#[test]
fn select_key_down_escape_closes_an_open_menu() {
    let options = languages();
    let mut state = SelectState::new(None, Vec::new());
    let outcome = state.key_down("Escape", false, false, &options, Vec::new());
    assert!(!outcome.prevent_default);
    state.input("e".to_string(), false, &options);
    let outcome = state.key_down("Escape", false, false, &options, Vec::new());
    assert!(outcome.prevent_default);
    assert!(outcome.change.is_none());
    assert!(!state.open);
    assert!(state.query.is_empty());
    assert_eq!(state.active, None);
    let outcome = state.key_down("x", false, false, &options, Vec::new());
    assert!(!outcome.prevent_default);
}

#[test]
fn inline_layout_keeps_selected_tab_inline() {
    let layout = inline_layout(6, 3, 1);
    assert_eq!(layout.visible_indices, vec![0, 1, 2]);
    assert_eq!(layout.overflow_indices, vec![3, 4, 5]);
    let layout = inline_layout(6, 2, 4);
    assert_eq!(layout.visible_indices, vec![0, 1, 4]);
    assert_eq!(layout.overflow_indices, vec![2, 3, 5]);
    let layout = inline_layout(3, 0, 2);
    assert_eq!(layout.visible_indices, vec![2]);
    assert_eq!(layout.overflow_indices, vec![0, 1]);
    let layout = inline_layout(4, 4, 0);
    assert_eq!(layout.visible_indices, vec![0, 1, 2, 3]);
    assert!(layout.overflow_indices.is_empty());
}

#[test]
fn tab_selection_ignores_disabled_tabs() {
    let tabs = tabs();
    let mut selection = TabSelection::new(Some("overview".to_string()));
    assert_eq!(selection.click(&tabs, 1), None);
    assert_eq!(selection.value, Some("overview".to_string()));
    assert_eq!(selection.click(&tabs, 9), None);
    assert_eq!(selection.click(&tabs, 2), Some("history".to_string()));
    assert_eq!(selection.value, Some("history".to_string()));
    assert_eq!(selection.choose_value(&tabs, "details"), None);
    assert_eq!(selection.value, Some("history".to_string()));
    assert_eq!(selection.choose_value(&tabs, "archive"), Some("archive".to_string()));
    assert_eq!(selection.value, Some("archive".to_string()));
}

#[test]
fn tab_selection_keys_select_and_focus() {
    let tabs = tabs();
    let visible = vec![0, 1, 2, 3];
    let mut selection = TabSelection::new(Some("overview".to_string()));
    let outcome = selection.key_down("ArrowRight", &tabs, &visible, 0);
    assert!(outcome.prevent_default);
    assert_eq!(outcome.target, Some(2));
    assert_eq!(outcome.selected, Some("history".to_string()));
    assert_eq!(selection.value, Some("history".to_string()));
    let outcome = selection.key_down("End", &tabs, &visible, 2);
    assert_eq!(outcome.selected, Some("settings".to_string()));
    let outcome = selection.key_down("Enter", &tabs, &visible, 3);
    assert!(!outcome.prevent_default);
    assert_eq!(outcome.selected, None);
    assert_eq!(selection.value, Some("settings".to_string()));
    let only_disabled = vec![1];
    let outcome = selection.key_down("Home", &tabs, &only_disabled, 1);
    assert!(outcome.prevent_default);
    assert_eq!(outcome.selected, None);
    assert_eq!(selection.value, Some("settings".to_string()));
}
