//! The table editing of the rich Markdown editor, on a model of the table:
//! its rows in document order, each a list of header or data cells.
use vstd::prelude::*;

use crate::text::text_eq;

verus! {

/// The kind of a table cell: `th` or `td`.
#[derive(Clone, Copy, PartialEq, Eq, Structural)]
pub enum CellTag {
    Header,
    Data,
}

/// A cell, by its row (in document order) and its index in the row.
#[derive(Clone, Copy, PartialEq, Eq, Structural)]
pub struct CellPosition {
    pub row: usize,
    pub col: usize,
}

/// Where the caret goes after a table edit.
#[derive(Clone, Copy, PartialEq, Eq, Structural)]
pub enum TableFocus {
    /// Into a cell of the table.
    Cell(CellPosition),
    /// Back to the editor, after the table was removed.
    Editor,
}

/// The actions of the table menu.
#[derive(Clone, Copy, PartialEq, Eq, Structural)]
pub enum TableAction {
    RowAbove,
    RowBelow,
    RowDelete,
    ColumnLeft,
    ColumnRight,
    ColumnDelete,
    TableDelete,
}

/// The rows of a table, each listing the kinds of its cells.
pub struct TableGrid {
    pub rows: Vec<Vec<CellTag>>,
}

impl View for TableGrid {
    type V = Seq<Seq<CellTag>>;

    open spec fn view(&self) -> Seq<Seq<CellTag>> {
        self.rows@.map_values(|r: Vec<CellTag>| r@)
    }
}

/// Whether the rows and row lengths of `g` fit in `usize`, as those of a
/// `TableGrid` do.
pub open spec fn grid_fits(g: Seq<Seq<CellTag>>) -> bool {
    g.len() <= usize::MAX && forall|i: int| 0 <= i < g.len() ==> (#[trigger] g[i]).len() < usize::MAX
}

/// Whether `at` names a cell of `g`.
pub open spec fn is_cell(g: Seq<Seq<CellTag>>, at: CellPosition) -> bool {
    at.row < g.len() && at.col < g[at.row as int].len()
}

pub open spec fn min(a: int, b: int) -> int {
    if a <= b {
        a
    } else {
        b
    }
}

/// The last index of a list of length `len`, or 0 when it is empty.
pub open spec fn last_index(len: int) -> int {
    if len == 0 {
        0
    } else {
        len - 1
    }
}

/// `g` with a copy of row `row` inserted above or below it.
pub open spec fn row_inserted(g: Seq<Seq<CellTag>>, row: int, above: bool) -> Seq<Seq<CellTag>> {
    g.insert(
        if above {
            row
        } else {
            row + 1
        },
        g[row],
    )
}

/// Where a new column goes in a row of length `len`.
pub open spec fn column_target(len: int, col: int, left: bool) -> int {
    if left {
        min(col, len)
    } else {
        min(col + 1, len)
    }
}

/// A row with a new cell beside column `col`, of the kind of the cell at
/// `col` (or of the last cell when the row is shorter); empty rows stay empty.
pub open spec fn row_with_column(r: Seq<CellTag>, col: int, left: bool) -> Seq<CellTag> {
    if r.len() == 0 {
        r
    } else {
        r.insert(column_target(r.len() as int, col, left), r[min(col, r.len() - 1)])
    }
}

pub open spec fn column_inserted(g: Seq<Seq<CellTag>>, col: int, left: bool) -> Seq<Seq<CellTag>> {
    Seq::new(g.len(), |i: int| row_with_column(g[i], col, left))
}

/// A row without its cell at `col`, when it has one.
pub open spec fn row_without_column(r: Seq<CellTag>, col: int) -> Seq<CellTag> {
    if col < r.len() {
        r.remove(col)
    } else {
        r
    }
}

pub open spec fn column_deleted(g: Seq<Seq<CellTag>>, col: int) -> Seq<Seq<CellTag>> {
    Seq::new(g.len(), |i: int| row_without_column(g[i], col))
}

/// The cell of row `row` nearest to column `col`, when the row has cells.
pub open spec fn cell_near(g: Seq<Seq<CellTag>>, row: int, col: int) -> Option<TableFocus> {
    if 0 <= row < g.len() && g[row].len() > 0 {
        Some(
            TableFocus::Cell(
                CellPosition { row: row as usize, col: min(col, g[row].len() - 1) as usize },
            ),
        )
    } else {
        None
    }
}

/// The table after `action` on the selected cell `at`, and where the caret
/// goes (`None` when the action does not apply).
pub open spec fn table_action_result(g: Seq<Seq<CellTag>>, action: TableAction, at: CellPosition) -> (
    Seq<Seq<CellTag>>,
    Option<TableFocus>,
) {
    let row = at.row as int;
    let col = at.col as int;
    match action {
        TableAction::RowAbove => (
            row_inserted(g, row, true),
            Some(TableFocus::Cell(CellPosition { row: at.row, col: at.col })),
        ),
        TableAction::RowBelow => (
            row_inserted(g, row, false),
            Some(TableFocus::Cell(CellPosition { row: (row + 1) as usize, col: at.col })),
        ),
        TableAction::RowDelete => if g.len() <= 1 {
            (g, None)
        } else {
            let h = g.remove(row);
            (h, cell_near(h, min(row, last_index(h.len() as int)), col))
        },
        TableAction::ColumnLeft => (
            column_inserted(g, col, true),
            Some(
                TableFocus::Cell(
                    CellPosition {
                        row: at.row,
                        col: column_target(g[row].len() as int, col, true) as usize,
                    },
                ),
            ),
        ),
        TableAction::ColumnRight => (
            column_inserted(g, col, false),
            Some(
                TableFocus::Cell(
                    CellPosition {
                        row: at.row,
                        col: column_target(g[row].len() as int, col, false) as usize,
                    },
                ),
            ),
        ),
        TableAction::ColumnDelete => if g[row].len() <= 1 {
            (g, None)
        } else {
            let h = column_deleted(g, col);
            (h, cell_near(h, min(row, last_index(h.len() as int)), last_index(col)))
        },
        TableAction::TableDelete => (Seq::empty(), Some(TableFocus::Editor)),
    }
}

/// The nearest row above `row` that has cells.
pub open spec fn previous_filled_row(g: Seq<Seq<CellTag>>, row: int) -> Option<int>
    decreases row,
{
    if row <= 0 {
        None
    } else if g[row - 1].len() > 0 {
        Some(row - 1)
    } else {
        previous_filled_row(g, row - 1)
    }
}

/// The nearest row below `row` that has cells.
pub open spec fn next_filled_row(g: Seq<Seq<CellTag>>, row: int) -> Option<int>
    decreases g.len() - row,
{
    if row + 1 >= g.len() {
        None
    } else if g[row + 1].len() > 0 {
        Some(row + 1)
    } else {
        next_filled_row(g, row + 1)
    }
}

/// Moving the caret to the previous or next cell in document order; moving on
/// from the last cell adds a row below the selected one and enters it.
pub open spec fn adjacent_cell_result(g: Seq<Seq<CellTag>>, at: CellPosition, backwards: bool) -> (
    Seq<Seq<CellTag>>,
    Option<CellPosition>,
) {
    let row = at.row as int;
    let col = at.col as int;
    if backwards {
        if col > 0 {
            (g, Some(CellPosition { row: at.row, col: (col - 1) as usize }))
        } else {
            match previous_filled_row(g, row) {
                Some(p) => (g, Some(CellPosition { row: p as usize, col: (g[p].len() - 1) as usize })),
                None => (g, None),
            }
        }
    } else if col + 1 < g[row].len() {
        (g, Some(CellPosition { row: at.row, col: (col + 1) as usize }))
    } else {
        match next_filled_row(g, row) {
            Some(n) => (g, Some(CellPosition { row: n as usize, col: 0 })),
            None => (row_inserted(g, row, false), Some(CellPosition { row: (row + 1) as usize, col: 0 })),
        }
    }
}

/// The table menu action named by a menu value.
pub fn parse_table_action(value: &str) -> (r: Option<TableAction>)
    ensures
        r == (if value@ == "table-row-above"@ {
            Some(TableAction::RowAbove)
        } else if value@ == "table-row-below"@ {
            Some(TableAction::RowBelow)
        } else if value@ == "table-row-delete"@ {
            Some(TableAction::RowDelete)
        } else if value@ == "table-col-left"@ {
            Some(TableAction::ColumnLeft)
        } else if value@ == "table-col-right"@ {
            Some(TableAction::ColumnRight)
        } else if value@ == "table-col-delete"@ {
            Some(TableAction::ColumnDelete)
        } else if value@ == "table-delete"@ {
            Some(TableAction::TableDelete)
        } else {
            None
        }),
{
    if text_eq(value, "table-row-above") {
        Some(TableAction::RowAbove)
    } else if text_eq(value, "table-row-below") {
        Some(TableAction::RowBelow)
    } else if text_eq(value, "table-row-delete") {
        Some(TableAction::RowDelete)
    } else if text_eq(value, "table-col-left") {
        Some(TableAction::ColumnLeft)
    } else if text_eq(value, "table-col-right") {
        Some(TableAction::ColumnRight)
    } else if text_eq(value, "table-col-delete") {
        Some(TableAction::ColumnDelete)
    } else if text_eq(value, "table-delete") {
        Some(TableAction::TableDelete)
    } else {
        None
    }
}

fn copy_row(r: &Vec<CellTag>) -> (c: Vec<CellTag>)
    ensures
        c@ == r@,
{
    let mut c: Vec<CellTag> = Vec::new();
    let mut i: usize = 0;
    while i < r.len()
        invariant
            0 <= i <= r@.len(),
            c@ == r@.take(i as int),
        decreases r.len() - i,
    {
        proof {
            assert(r@.take(i + 1) =~= r@.take(i as int).push(r@[i as int]));
        }
        c.push(r[i]);
        i = i + 1;
    }
    proof {
        assert(r@.take(r@.len() as int) =~= r@);
    }
    c
}

fn min_usize(a: usize, b: usize) -> (r: usize)
    ensures
        r == min(a as int, b as int),
{
    if a <= b {
        a
    } else {
        b
    }
}

impl TableGrid {
    /// The rows with a column inserted beside `col` (kind 0: left, 1: right)
    /// or removed at `col` (kind 2).
    fn rewritten(&self, col: usize, kind: u8) -> (r: Vec<Vec<CellTag>>)
        requires
            kind <= 2,
        ensures
            r@.map_values(|v: Vec<CellTag>| v@) == (if kind == 0 {
                column_inserted(self@, col as int, true)
            } else if kind == 1 {
                column_inserted(self@, col as int, false)
            } else {
                column_deleted(self@, col as int)
            }),
    {
        let ghost target = if kind == 0 {
            column_inserted(self@, col as int, true)
        } else if kind == 1 {
            column_inserted(self@, col as int, false)
        } else {
            column_deleted(self@, col as int)
        };
        let mut out: Vec<Vec<CellTag>> = Vec::new();
        let mut i: usize = 0;
        while i < self.rows.len()
            invariant
                0 <= i <= self.rows@.len(),
                kind <= 2,
                target.len() == self.rows@.len(),
                target == (if kind == 0 {
                    column_inserted(self@, col as int, true)
                } else if kind == 1 {
                    column_inserted(self@, col as int, false)
                } else {
                    column_deleted(self@, col as int)
                }),
                out@.len() == i,
                forall|j: int| 0 <= j < i ==> (#[trigger] out@[j])@ == target[j],
            decreases self.rows.len() - i,
        {
            let r = &self.rows[i];
            let mut c = copy_row(r);
            let len = c.len();
            proof {
                assert(self@[i as int] == r@);
            }
            if kind == 2 {
                if col < len {
                    c.remove(col);
                }
            } else if len > 0 {
                let reference = c[min_usize(col, len - 1)];
                let at = if kind == 0 {
                    min_usize(col, len)
                } else if col < len {
                    col + 1
                } else {
                    len
                };
                c.insert(at, reference);
            }
            out.push(c);
            i = i + 1;
        }
        proof {
            assert(out@.map_values(|v: Vec<CellTag>| v@) =~= target);
        }
        out
    }

    /// Applies a table menu action to the selected cell `at`; the result says
    /// where the caret goes, or that the action did not apply.
    pub fn apply(&mut self, action: TableAction, at: CellPosition) -> (r: Option<TableFocus>)
        requires
            is_cell(old(self)@, at),
        ensures
            (final(self)@, r) == table_action_result(old(self)@, action, at),
    {
        let ghost g = self@;
        let row = at.row;
        let col = at.col;
        let n = self.rows.len();
        proof {
            assert(g.len() == n);
        }
        match action {
            TableAction::RowAbove | TableAction::RowBelow => {
                let copy = copy_row(&self.rows[row]);
                let above = action == TableAction::RowAbove;
                let index = if above {
                    row
                } else {
                    row + 1
                };
                proof {
                    assert(self@[row as int] == self.rows@[row as int]@);
                }
                self.rows.insert(index, copy);
                proof {
                    assert(self@ =~= row_inserted(g, row as int, above));
                }
                Some(TableFocus::Cell(CellPosition { row: index, col }))
            },
            TableAction::RowDelete => {
                if self.rows.len() <= 1 {
                    return None;
                }
                self.rows.remove(row);
                proof {
                    assert(self@ =~= g.remove(row as int));
                }
                let next_row = min_usize(row, self.rows.len() - 1);
                let len = self.rows[next_row].len();
                proof {
                    assert(self@[next_row as int] == self.rows@[next_row as int]@);
                }
                if len == 0 {
                    None
                } else {
                    Some(TableFocus::Cell(CellPosition { row: next_row, col: min_usize(col, len - 1) }))
                }
            },
            TableAction::ColumnLeft | TableAction::ColumnRight => {
                let left = action == TableAction::ColumnLeft;
                let len = self.rows[row].len();
                proof {
                    assert(self@[row as int] == self.rows@[row as int]@);
                }
                let target = if left {
                    min_usize(col, len)
                } else {
                    min_usize(col + 1, len)
                };
                let rows = self.rewritten(
                    col,
                    if left {
                        0
                    } else {
                        1
                    },
                );
                self.rows = rows;
                Some(TableFocus::Cell(CellPosition { row, col: target }))
            },
            TableAction::ColumnDelete => {
                let len = self.rows[row].len();
                proof {
                    assert(self@[row as int] == self.rows@[row as int]@);
                }
                if len <= 1 {
                    return None;
                }
                let rows = self.rewritten(col, 2);
                self.rows = rows;
                let h = self.rows.len();
                proof {
                    assert(self@.len() == g.len());
                }
                let next_row = min_usize(row, h - 1);
                let next_len = self.rows[next_row].len();
                proof {
                    assert(self@[next_row as int] == self.rows@[next_row as int]@);
                }
                let back = if col == 0 {
                    0
                } else {
                    col - 1
                };
                if next_len == 0 {
                    None
                } else {
                    Some(
                        TableFocus::Cell(
                            CellPosition { row: next_row, col: min_usize(back, next_len - 1) },
                        ),
                    )
                }
            },
            TableAction::TableDelete => {
                self.rows = Vec::new();
                proof {
                    assert(self@ =~= Seq::<Seq<CellTag>>::empty());
                }
                Some(TableFocus::Editor)
            },
        }
    }
    /// Moves the caret to the previous or next cell in document order (Tab and
    /// Shift+Tab); moving on from the last cell adds a row below the selected
    /// one and enters its first cell.
    pub fn adjacent_cell(&mut self, at: CellPosition, backwards: bool) -> (r: Option<CellPosition>)
        requires
            is_cell(old(self)@, at),
        ensures
            (final(self)@, r) == adjacent_cell_result(old(self)@, at, backwards),
    {
        let ghost g = self@;
        let row = at.row;
        let col = at.col;
        let n = self.rows.len();
        proof {
            assert(g.len() == n);
            assert(g[row as int] == self.rows@[row as int]@);
        }
        if backwards {
            if col > 0 {
                return Some(CellPosition { row, col: col - 1 });
            }
            let mut k = row;
            while k > 0 && self.rows[k - 1].len() == 0
                invariant
                    k <= row < n,
                    n == self.rows@.len(),
                    g == self@,
                    previous_filled_row(g, k as int) == previous_filled_row(g, row as int),
                decreases k,
            {
                proof {
                    assert(g[k - 1] == self.rows@[k - 1]@);
                }
                k = k - 1;
            }
            if k == 0 {
                return None;
            }
            proof {
                assert(g[k - 1] == self.rows@[k - 1]@);
            }
            Some(CellPosition { row: k - 1, col: self.rows[k - 1].len() - 1 })
        } else {
            let len = self.rows[row].len();
            if col < len - 1 {
                return Some(CellPosition { row, col: col + 1 });
            }
            let mut k = row;
            while k + 1 < n && self.rows[k + 1].len() == 0
                invariant
                    row <= k < n,
                    n == self.rows@.len(),
                    g == self@,
                    next_filled_row(g, k as int) == next_filled_row(g, row as int),
                decreases n - k,
            {
                proof {
                    assert(g[k + 1] == self.rows@[k + 1]@);
                }
                k = k + 1;
            }
            if k + 1 < n {
                proof {
                    assert(g[k + 1] == self.rows@[k + 1]@);
                }
                return Some(CellPosition { row: k + 1, col: 0 });
            }
            let copy = copy_row(&self.rows[row]);
            self.rows.insert(row + 1, copy);
            proof {
                assert(self@ =~= row_inserted(g, row as int, false));
            }
            Some(CellPosition { row: row + 1, col: 0 })
        }
    }
}

proof fn lemma_next_filled_row(g: Seq<Seq<CellTag>>, row: int)
    requires
        0 <= row < g.len(),
    ensures
        match next_filled_row(g, row) {
            Some(n) => row < n < g.len() && g[n].len() > 0 && forall|j: int|
                row < j < n ==> (#[trigger] g[j]).len() == 0,
            None => forall|j: int| row < j < g.len() ==> (#[trigger] g[j]).len() == 0,
        },
    decreases g.len() - row,
{
    if row + 1 < g.len() && g[row + 1].len() == 0 {
        lemma_next_filled_row(g, row + 1);
    }
}

proof fn lemma_previous_over_empty_rows(g: Seq<Seq<CellTag>>, row: int, k: int)
    requires
        0 <= row < k <= g.len(),
        g[row].len() > 0,
        forall|j: int| row < j < k ==> (#[trigger] g[j]).len() == 0,
    ensures
        previous_filled_row(g, k) == Some(row),
    decreases k,
{
    if k - 1 > row {
        lemma_previous_over_empty_rows(g, row, k - 1);
    }
}

/// Tab and then Shift+Tab come back to the cell they started from, also when
/// the Tab added a row.
pub proof fn lemma_tab_then_back(g: Seq<Seq<CellTag>>, at: CellPosition)
    requires
        is_cell(g, at),
        grid_fits(g),
    ensures
        ({
            let (h, next) = adjacent_cell_result(g, at, false);
            &&& next is Some
            &&& is_cell(h, next.unwrap())
            &&& adjacent_cell_result(h, next.unwrap(), true) == (h, Some(at))
        }),
{
    let row = at.row as int;
    let col = at.col as int;
    if col + 1 < g[row].len() {
    } else {
        lemma_next_filled_row(g, row);
        match next_filled_row(g, row) {
            Some(n) => {
                lemma_previous_over_empty_rows(g, row, n);
            },
            None => {
                let h = row_inserted(g, row, false);
                assert(h[row] == g[row]);
                assert(h[row + 1] == g[row]);
            },
        }
    }
}

/// Adding a row and deleting it again gives back the table.
pub proof fn lemma_row_insert_then_delete(g: Seq<Seq<CellTag>>, at: CellPosition, above: bool)
    requires
        is_cell(g, at),
        grid_fits(g),
    ensures
        ({
            let (h, focus) = table_action_result(
                g,
                if above {
                    TableAction::RowAbove
                } else {
                    TableAction::RowBelow
                },
                at,
            );
            &&& focus matches Some(TableFocus::Cell(p))
            &&& is_cell(h, p)
            &&& table_action_result(h, TableAction::RowDelete, p).0 == g
        }),
{
    let row = at.row as int;
    let h = row_inserted(g, row, above);
    let index = if above {
        row
    } else {
        row + 1
    };
    assert(h[index] == g[row]);
    assert(h.remove(index) =~= g);
}

/// Whether every row of `g` has `width` cells.
pub open spec fn rectangular(g: Seq<Seq<CellTag>>, width: int) -> bool {
    forall|i: int| 0 <= i < g.len() ==> (#[trigger] g[i]).len() == width
}

/// In a table whose rows all have the same number of cells, adding a column
/// and deleting the column the caret lands in gives back the table.
pub proof fn lemma_column_insert_then_delete(g: Seq<Seq<CellTag>>, at: CellPosition, left: bool)
    requires
        is_cell(g, at),
        grid_fits(g),
        rectangular(g, g[at.row as int].len() as int),
    ensures
        ({
            let (h, focus) = table_action_result(
                g,
                if left {
                    TableAction::ColumnLeft
                } else {
                    TableAction::ColumnRight
                },
                at,
            );
            &&& focus matches Some(TableFocus::Cell(p))
            &&& is_cell(h, p)
            &&& table_action_result(h, TableAction::ColumnDelete, p).0 == g
        }),
{
    let row = at.row as int;
    let col = at.col as int;
    let width = g[row].len() as int;
    let h = column_inserted(g, col, left);
    let target = column_target(width, col, left);
    assert(target == if left { col } else { col + 1 });
    assert forall|i: int| 0 <= i < g.len() implies (#[trigger] h[i]).len() == width + 1 && h[i].remove(
        target,
    ) =~= g[i] by {
        assert(g[i].len() == width);
    }
    assert(column_deleted(h, target) =~= g);
}

} // verus!
