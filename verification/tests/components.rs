use birei::button_bar::{named_item, ButtonBarItem};
use birei::controls::{
    input_class_name, label_class_name, link_class_name, link_href, link_tabindex, loading_class_name,
    loading_label, Size,
};
use birei::icon::IcnName;
use birei::illustration::{illustration_class_name, non_empty, IllustrationTextLocation};
use birei::input::{InputAutocomplete, InputType};
use birei::list::{
    active_index_after_items, items_replaced, list_class_name, list_load_more_step, list_move_target,
    list_row_class_name, toggled_selection, ListDensity, ListEntry, ListMove,
};
use birei::map_tiles::{initial_zoom, tile_reference, zoom_step};
use birei::menu_button::{
    dropdown_item_class_name, dropdown_scroll_top, dropdown_trigger_class_name, move_active_item_index,
    next_enabled_dropdown_index, MenuButtonItem,
};
use birei::popup::{popup_class_name, popup_label, trap_focus_index};
use birei::qr_code::{encode_modules, matrix_size, module_kind, qr_code_class_name, qr_colors, ModuleKind};
use birei::roving::{move_active, next_enabled, resolve_active};
use birei::select::{
    collect_selected_tags, filter_options_by_query, find_option_label, hidden_input_values,
    menu_scroll_top, option_class_name, select_class_name, toggle_selected_value, SelectOption,
};
use birei::tab::{
    adjacent_enabled_visible_index, first_enabled_value, selected_index, tab_list_class_name, TabItem,
    TabLinePosition,
};

fn option(value: &str, label: &str, disabled: bool) -> SelectOption {
    SelectOption { value: value.to_string(), label: label.to_string(), icon: None, disabled }
}

#[test]
fn filters_options_ignoring_case() {
    let options = vec![option("de", "Deutsch", false), option("en", "English", false), option("fr", "Français", true)];
    let found = filter_options_by_query(&options, "  FRAN ");
    assert_eq!(found.len(), 1);
    assert_eq!(found[0].value, "fr");
    let found = filter_options_by_query(&options, "E");
    assert_eq!(found.iter().map(|o| o.value.as_str()).collect::<Vec<_>>(), vec!["de", "en"]);
    assert_eq!(filter_options_by_query(&options, "   ").len(), 3);
}

#[test]
fn toggles_selected_values() {
    let once = toggle_selected_value(vec!["a".to_string()], "b".to_string());
    assert_eq!(once, vec!["a".to_string(), "b".to_string()]);
    let twice = toggle_selected_value(once, "b".to_string());
    assert_eq!(twice, vec!["a".to_string()]);
}

#[test]
fn looks_up_labels_and_tags() {
    let options = vec![option("de", "Deutsch", false), option("en", "English", false)];
    assert_eq!(find_option_label(&options, Some("en")), "English");
    assert_eq!(find_option_label(&options, Some("xx")), "");
    assert_eq!(find_option_label(&options, None), "");
    let tags = collect_selected_tags(&options, &["en".to_string(), "zz".to_string()]);
    assert_eq!(tags.len(), 1);
    assert_eq!((tags[0].value.as_str(), tags[0].label.as_str()), ("en", "English"));
}

#[test]
fn builds_select_classes_and_hidden_inputs() {
    assert_eq!(option_class_name(true, false, true), "birei-select__option birei-select__option--selected birei-select__option--disabled");
    assert_eq!(
        select_class_name("birei-select--medium", true, false, false, true, Some("x")),
        "birei-select birei-select--medium birei-select--multiple birei-select--nullable x"
    );
    assert!(hidden_input_values(None, true, vec!["a".to_string()], None).is_empty());
    assert_eq!(hidden_input_values(Some("f"), true, vec!["a".to_string(), "b".to_string()], None), vec!["a", "b"]);
    assert_eq!(hidden_input_values(Some("f"), false, vec![], None), vec![""]);
    assert_eq!(hidden_input_values(Some("f"), false, vec![], Some("v".to_string())), vec!["v"]);
}

#[test]
fn scrolls_the_active_option_into_view() {
    assert_eq!(menu_scroll_top(10, 20, 40, 100), Some(10));
    assert_eq!(menu_scroll_top(130, 20, 40, 100), Some(50));
    assert_eq!(menu_scroll_top(60, 20, 40, 100), None);
    assert_eq!(dropdown_scroll_top(10, 20, 40, 100, 4), Some(6));
    assert_eq!(dropdown_scroll_top(2, 20, 40, 100, 4), Some(0));
    assert_eq!(dropdown_scroll_top(130, 20, 40, 100, 4), Some(54));
}

#[test]
fn roves_over_enabled_entries() {
    let disabled = vec![false, true, false];
    assert_eq!(next_enabled(&disabled, Some(0), 1), Some(2));
    assert_eq!(next_enabled(&disabled, Some(2), 1), Some(0));
    assert_eq!(next_enabled(&disabled, Some(0), -1), Some(2));
    assert_eq!(next_enabled(&disabled, None, 1), Some(0));
    assert_eq!(next_enabled(&disabled, None, -1), Some(2));
    assert_eq!(next_enabled(&vec![true, true], Some(0), 1), None);
    assert_eq!(resolve_active(&disabled, Some(1)), Some(0));
    assert_eq!(resolve_active(&disabled, Some(2)), Some(2));
    assert_eq!(move_active(&disabled, Some(2), 1), Some(0));
}

#[test]
fn navigates_menu_items() {
    let items = vec![
        MenuButtonItem::new("a", "A"),
        MenuButtonItem::new("b", "B").disabled(true),
        MenuButtonItem::new("c", "C").icon("trash"),
    ];
    assert_eq!(next_enabled_dropdown_index(&items, Some(0), 1), Some(2));
    assert_eq!(move_active_item_index(&items, None, 1), Some(0));
    assert_eq!(dropdown_item_class_name(true, false), "birei-dropdown-button__item birei-dropdown-button__item--active");
    assert_eq!(
        dropdown_trigger_class_name("birei-button--secondary", "birei-button--small", true),
        "birei-button birei-button--secondary birei-button--small birei-dropdown-button__trigger birei-button--disabled"
    );
    assert_eq!(items[2].icon, Some(IcnName::Named("trash".to_string())));
}

#[test]
fn resolves_tabs() {
    let tabs = vec![TabItem::new("a", "A").disabled(true), TabItem::new("b", "B"), TabItem::new("c", "C")];
    assert_eq!(selected_index(&tabs, Some("c")), Some(2));
    assert_eq!(selected_index(&tabs, Some("a")), Some(1));
    assert_eq!(selected_index(&tabs, None), Some(1));
    assert_eq!(first_enabled_value(&Some(tabs.clone())), Some("b".to_string()));
    assert_eq!(first_enabled_value(&None), None);
    assert_eq!(adjacent_enabled_visible_index(&tabs, &[0, 1, 2], 2, 1), Some(1));
    assert_eq!(adjacent_enabled_visible_index(&tabs, &[0, 1, 2], 1, -1), Some(2));
    assert_eq!(adjacent_enabled_visible_index(&tabs, &[1, 2], 0, 1), None);
    assert_eq!(tab_list_class_name(TabLinePosition::Above, Some("x")), "birei-tab-list birei-tab-list--line-above x");
}

#[test]
fn handles_list_state() {
    assert_eq!(list_row_class_name(true, true), "birei-list__row birei-list__row--active birei-list__row--selected");
    assert_eq!(list_class_name(ListDensity::Detailed, true, None), "birei-list birei-list--detailed birei-list--keyboard");
    assert_eq!(toggled_selection(Some("a"), "a"), None);
    assert_eq!(toggled_selection(Some("a"), "b"), Some("b".to_string()));
    assert!(items_replaced(&["a".to_string()], &["b".to_string()]));
    assert!(!items_replaced(&["a".to_string()], &["a".to_string(), "b".to_string()]));
    let entries = vec![ListEntry::new("a", "A"), ListEntry::new("b", "B").description("d").meta("m")];
    assert_eq!(entries[1].description.as_deref(), Some("d"));
    assert_eq!(active_index_after_items(&entries, Some(5), Some("b")), Some(1));
    assert_eq!(active_index_after_items(&entries, Some(0), Some("b")), Some(0));
    assert_eq!(active_index_after_items(&[], Some(0), None), None);
    assert_eq!(list_move_target(ListMove::Down, 2, 3), 2);
    assert_eq!(list_move_target(ListMove::Up, 0, 3), 0);
    assert_eq!(list_move_target(ListMove::End, 0, 3), 2);
    assert_eq!(list_move_target(ListMove::Home, 2, 3), 0);
}

#[test]
fn requests_more_list_items_once_per_length() {
    let step = list_load_more_step(true, false, true, 20, 18, 5, None);
    assert!(step.request);
    assert_eq!(step.last_request_len, Some(20));
    let again = list_load_more_step(true, false, true, 20, 19, 5, step.last_request_len);
    assert!(!again.request);
    let reset = list_load_more_step(true, false, true, 20, 3, 5, Some(20));
    assert!(!reset.request);
    assert_eq!(reset.last_request_len, None);
    let idle = list_load_more_step(false, false, true, 20, 19, 5, Some(7));
    assert_eq!((idle.request, idle.last_request_len), (false, Some(7)));
}

#[test]
fn builds_qr_modules() {
    let modules = encode_modules("https://example.com");
    assert!(!modules.is_empty());
    let size = matrix_size(&modules);
    assert!(size >= 21 && size <= 177);
    assert!(modules.iter().any(|m| m.x == 0 && m.y == 0 && m.kind == ModuleKind::FinderRing));
    assert_eq!(module_kind(3, 3, 21), ModuleKind::FinderCenter);
    assert_eq!(module_kind(15, 1, 21), ModuleKind::FinderRing);
    assert_eq!(module_kind(10, 10, 21), ModuleKind::Dot);
    let (dot, ring, center) = qr_colors(Some("  ".to_string()), Some("red".to_string()), None);
    assert_eq!((dot.as_str(), ring.as_str(), center.as_str()), ("#000000", "red", "red"));
    assert_eq!(qr_code_class_name(Some("x".to_string()), true), "birei-qr-code birei-qr-code--interactive x");
}

#[test]
fn names_icons_and_inputs() {
    let icon: IcnName = "search".into();
    assert_eq!(icon.as_str(), "search");
    let item = named_item("v", "L", "bold");
    assert_eq!(item.icon, Some(IcnName::Named("bold".to_string())));
    let plain = ButtonBarItem::new("v", "L");
    assert!(plain.icon.is_none());
    assert_eq!(InputType::Email.as_str(), "email");
    assert_eq!(InputType::default(), InputType::Text);
    assert_eq!(InputAutocomplete::CurrentPassword.as_str(), "current-password");
}

#[test]
fn builds_control_attributes() {
    assert_eq!(label_class_name(Some("x")), "birei-label x");
    assert_eq!(link_class_name(true, None), "birei-link birei-link--disabled");
    assert_eq!(link_href(Some(String::new())), "#");
    assert_eq!(link_href(Some("/a".to_string())), "/a");
    assert_eq!(link_href(None), "#");
    assert_eq!(link_tabindex(None, true), -1);
    assert_eq!(link_tabindex(None, false), 0);
    assert_eq!(link_tabindex(Some(3), true), 3);
    assert_eq!(
        input_class_name("birei-input--small", true, false, false, true, true, None),
        "birei-input birei-input--small birei-input--with-prefix birei-input--readonly birei-input--invalid"
    );
    assert_eq!(loading_class_name(Size::Large, true, Some("x")), "birei-loading birei-loading--large birei-loading--block x");
    assert_eq!(loading_label(None), "Loading");
    assert_eq!(loading_label(Some("Saving".to_string())), "Saving");
}

#[test]
fn traps_focus_inside_popups() {
    assert_eq!(trap_focus_index(0, None, false), None);
    assert_eq!(trap_focus_index(3, Some(2), false), Some(0));
    assert_eq!(trap_focus_index(3, Some(0), true), Some(2));
    assert_eq!(trap_focus_index(3, None, true), Some(2));
    assert_eq!(trap_focus_index(3, Some(1), true), Some(0));
    assert_eq!(trap_focus_index(3, None, false), Some(0));
    assert_eq!(popup_class_name(Some("wide")), "birei-popup wide");
    assert_eq!(popup_label(None), "Popup");
}

#[test]
fn arranges_illustration_copy() {
    assert_eq!(non_empty(Some("  ".to_string())), None);
    assert_eq!(non_empty(Some(" a ".to_string())), Some(" a ".to_string()));
    assert_eq!(
        illustration_class_name(IllustrationTextLocation::default(), Some("  ")),
        "birei-illustration birei-illustration--auto"
    );
    assert_eq!(
        illustration_class_name(IllustrationTextLocation::Left, Some("x")),
        "birei-illustration birei-illustration--left x"
    );
}

#[test]
fn names_map_tiles() {
    let (key, url) = tile_reference(2, -1, 3);
    assert_eq!(key, "2--1-3");
    assert_eq!(url, "https://tile.openstreetmap.org/2/3/3.png");
    let (key, url) = tile_reference(0, 5, 0);
    assert_eq!(key, "0-5-0");
    assert_eq!(url, "https://tile.openstreetmap.org/0/0/0.png");
}

#[test]
fn steps_the_map_zoom_within_bounds() {
    assert_eq!(initial_zoom(20, 2, 18), 18);
    assert_eq!(initial_zoom(0, 2, 18), 2);
    assert_eq!(initial_zoom(7, 2, 18), 7);
    assert_eq!(zoom_step(7, 2, 18, true), Some(8));
    assert_eq!(zoom_step(18, 2, 18, true), None);
    assert_eq!(zoom_step(2, 2, 18, false), None);
    assert_eq!(zoom_step(20, 2, 18, true), Some(18));
    assert_eq!(zoom_step(255, 0, 255, true), None);
}
