use birei::markdown_table::{parse_table_action, CellPosition, CellTag, TableAction, TableFocus, TableGrid};

fn grid() -> TableGrid {
    TableGrid {
        rows: vec![
            vec![CellTag::Header, CellTag::Header],
            vec![CellTag::Data, CellTag::Data],
        ],
    }
}

fn at(row: usize, col: usize) -> CellPosition {
    CellPosition { row, col }
}

fn focus_cell(focus: Option<TableFocus>) -> Option<(usize, usize)> {
    match focus {
        Some(TableFocus::Cell(p)) => Some((p.row, p.col)),
        _ => None,
    }
}

#[test]
fn parses_table_menu_values() {
    assert!(parse_table_action("table-row-above") == Some(TableAction::RowAbove));
    assert!(parse_table_action("table-col-delete") == Some(TableAction::ColumnDelete));
    assert!(parse_table_action("table-delete") == Some(TableAction::TableDelete));
    assert!(parse_table_action("bold").is_none());
}

#[test]
fn inserts_and_deletes_rows() {
    let mut g = grid();
    let focus = g.apply(TableAction::RowBelow, at(0, 1));
    assert_eq!(focus_cell(focus), Some((1, 1)));
    assert_eq!(g.rows.len(), 3);
    assert!(g.rows[1] == vec![CellTag::Header, CellTag::Header]);

    let focus = g.apply(TableAction::RowDelete, at(1, 1));
    assert_eq!(focus_cell(focus), Some((1, 1)));
    assert!(g.rows == grid().rows);

    let mut single = TableGrid { rows: vec![vec![CellTag::Data]] };
    assert!(single.apply(TableAction::RowDelete, at(0, 0)).is_none());
    assert_eq!(single.rows.len(), 1);
}

#[test]
fn deleting_the_last_row_focuses_the_row_above() {
    let mut g = grid();
    let focus = g.apply(TableAction::RowDelete, at(1, 1));
    assert_eq!(focus_cell(focus), Some((0, 1)));
    assert_eq!(g.rows.len(), 1);
}

#[test]
fn inserts_and_deletes_columns() {
    let mut g = grid();
    let focus = g.apply(TableAction::ColumnLeft, at(1, 0));
    assert_eq!(focus_cell(focus), Some((1, 0)));
    assert!(g.rows[0] == vec![CellTag::Header, CellTag::Header, CellTag::Header]);
    assert!(g.rows[1] == vec![CellTag::Data, CellTag::Data, CellTag::Data]);

    let focus = g.apply(TableAction::ColumnDelete, at(1, 0));
    assert_eq!(focus_cell(focus), Some((1, 0)));
    assert!(g.rows == grid().rows);

    let focus = g.apply(TableAction::ColumnDelete, at(0, 1));
    assert_eq!(focus_cell(focus), Some((0, 0)));
    assert_eq!(g.rows[0].len(), 1);
    assert!(g.apply(TableAction::ColumnDelete, at(0, 0)).is_none());
}

#[test]
fn deleting_the_table_returns_to_the_editor() {
    let mut g = grid();
    assert!(g.apply(TableAction::TableDelete, at(0, 0)) == Some(TableFocus::Editor));
    assert!(g.rows.is_empty());
}

#[test]
fn tab_walks_cells_and_adds_a_row_at_the_end() {
    let mut g = grid();
    let next = g.adjacent_cell(at(0, 1), false).unwrap();
    assert_eq!((next.row, next.col), (1, 0));
    let back = g.adjacent_cell(next, true).unwrap();
    assert_eq!((back.row, back.col), (0, 1));
    assert!(g.adjacent_cell(at(0, 0), true).is_none());

    let next = g.adjacent_cell(at(1, 1), false).unwrap();
    assert_eq!((next.row, next.col), (2, 0));
    assert_eq!(g.rows.len(), 3);
    assert!(g.rows[2] == vec![CellTag::Data, CellTag::Data]);
}
