use birei::table::{
    body_cell_class, build_row_move, column_track, grid_template, header_cell_class, root_class_name,
    row_class_name, row_style, should_load_more, table_active_index, table_load_more_step, DragState,
    DragTarget, TableAlign, TableColumn, TableDropPosition, TableRowMeta,
};

#[test]
fn load_more_requires_an_available_nearby_tail() {
    assert!(should_load_more(100, 96, 6, true, false));
    assert!(!should_load_more(100, 93, 6, true, false));
    assert!(!should_load_more(100, 100, 6, false, false));
    assert!(!should_load_more(100, 100, 6, true, true));
}

#[test]
fn load_more_edge_cases() {
    assert!(!should_load_more(0, 0, 6, true, false));
    assert!(should_load_more(3, 0, 6, true, false));
}

#[test]
fn table_requests_once_per_row_count() {
    let step = table_load_more_step(true, 100, 96, 6, true, false, None);
    assert!(step.request);
    assert_eq!(step.last_request_len, Some(100));
    let again = table_load_more_step(true, 100, 99, 6, true, false, step.last_request_len);
    assert!(!again.request);
    let grown = table_load_more_step(true, 120, 118, 6, true, false, again.last_request_len);
    assert!(grown.request);
    let without = table_load_more_step(false, 100, 99, 6, true, false, Some(3));
    assert_eq!((without.request, without.last_request_len), (false, Some(3)));
    let far = table_load_more_step(true, 100, 10, 6, true, false, Some(100));
    assert_eq!((far.request, far.last_request_len), (false, None));
}

#[test]
fn drops_rows_next_to_other_rows() {
    let drag = DragState { from_key: "a".to_string() };
    let onto_self = DragTarget { key: "a".to_string(), position: TableDropPosition::After };
    assert!(build_row_move(&drag, &onto_self).is_none());
    let target = DragTarget { key: "b".to_string(), position: TableDropPosition::Before };
    let moved = build_row_move(&drag, &target).unwrap();
    assert_eq!((moved.from_key.as_str(), moved.to_key.as_str()), ("a", "b"));
    assert_eq!(moved.position, TableDropPosition::Before);
}

#[test]
fn lays_out_columns() {
    let plain = TableColumn::new("name", "Name");
    let fixed = TableColumn::new("age", "Age").width("8rem").align(TableAlign::End).cell_class("num");
    let ranged = TableColumn::new("note", "Note").min_width("4rem").header_class("h");
    assert_eq!(column_track(&plain), "minmax(0, 1fr)");
    assert_eq!(column_track(&fixed), "8rem");
    assert_eq!(column_track(&ranged), "minmax(4rem, 1fr)");
    assert_eq!(grid_template(&[plain, fixed]), "minmax(0, 1fr) 8rem");
    let fixed = TableColumn::new("age", "Age").width("8rem").align(TableAlign::End).cell_class("num");
    assert_eq!(body_cell_class(&fixed), "birei-table__cell birei-table__cell--end num");
    assert_eq!(
        header_cell_class(&ranged, true),
        "birei-table__cell birei-table__cell--header birei-table__cell--start birei-table__cell--clickable h"
    );
}

#[test]
fn styles_rows() {
    assert_eq!(root_class_name(true, Some("x")), "birei-table birei-table--keyboard x");
    assert_eq!(row_class_name(false, true, true), "birei-table__row birei-table__row--selected birei-table__row--disabled");
    assert_eq!(row_style(&TableRowMeta::new().background_color("#fff")), "--birei-table-row-background: #fff;");
    assert_eq!(row_style(&TableRowMeta::new().background_color("  ")), "");
    assert_eq!(row_style(&TableRowMeta::default()), "");
}

#[test]
fn keeps_the_active_row_in_range() {
    let keys = vec!["a".to_string(), "b".to_string(), "c".to_string()];
    assert_eq!(table_active_index(&keys, Some(1), Some("c")), Some(1));
    assert_eq!(table_active_index(&keys, Some(9), Some("c")), Some(2));
    assert_eq!(table_active_index(&keys, None, Some("z")), Some(0));
    assert_eq!(table_active_index(&[], Some(0), None), None);
}
