//! Behaviour of the virtualized table: column and row metadata, class and grid
//! assembly, endless loading, active-row bookkeeping and row reordering by drag.
use vstd::prelude::*;

use crate::list::LoadMoreStep;
use crate::select::push_suffix_if;
use crate::text::{
    chars_eq, chars_of, extra_class, join, push_char, push_extra_class, push_text, string_from,
    trim, trim_range,
};

verus! {

/// Horizontal alignment of a column's cells.
#[derive(Debug, Clone, Copy, PartialEq, Eq)]
pub enum TableAlign {
    Start,
    Center,
    End,
}

impl Default for TableAlign {
    fn default() -> (r: Self)
        ensures
            r == TableAlign::Start,
    {
        TableAlign::Start
    }
}

impl TableAlign {
    /// The CSS class that carries the alignment.
    pub fn class_name(self) -> (r: &'static str)
        ensures
            r@ == match self {
                TableAlign::Start => "birei-table__cell--start"@,
                TableAlign::Center => "birei-table__cell--center"@,
                TableAlign::End => "birei-table__cell--end"@,
            },
    {
        match self {
            TableAlign::Start => "birei-table__cell--start",
            TableAlign::Center => "birei-table__cell--center",
            TableAlign::End => "birei-table__cell--end",
        }
    }
}

/// The layout of one table column: identity, header text, sizing, alignment and
/// class hooks.
pub struct TableColumn {
    pub key: String,
    pub header: String,
    pub width: Option<String>,
    pub min_width: Option<String>,
    pub align: TableAlign,
    pub header_class: Option<String>,
    pub cell_class: Option<String>,
}

impl TableColumn {
    /// A flexible, start-aligned column.
    pub fn new<K: Into<String>, H: Into<String>>(key: K, header: H) -> (r: Self)
        ensures
            call_ensures(K::into, (key,), r.key),
            call_ensures(H::into, (header,), r.header),
            r.width is None,
            r.min_width is None,
            r.align == TableAlign::Start,
            r.header_class is None,
            r.cell_class is None,
    {
        TableColumn {
            key: key.into(),
            header: header.into(),
            width: None,
            min_width: None,
            align: TableAlign::Start,
            header_class: None,
            cell_class: None,
        }
    }

    /// Pins the column's track width.
    pub fn width<W: Into<String>>(self, width: W) -> (r: Self)
        ensures
            r.key == self.key && r.header == self.header && r.min_width == self.min_width && r.align
                == self.align && r.header_class == self.header_class && r.cell_class == self.cell_class,
            r.width matches Some(w) && call_ensures(W::into, (width,), w),
    {
        TableColumn { width: Some(width.into()), ..self }
    }

    /// Sets the column's minimum track width.
    pub fn min_width<W: Into<String>>(self, min_width: W) -> (r: Self)
        ensures
            r.key == self.key && r.header == self.header && r.width == self.width && r.align
                == self.align && r.header_class == self.header_class && r.cell_class == self.cell_class,
            r.min_width matches Some(w) && call_ensures(W::into, (min_width,), w),
    {
        TableColumn { min_width: Some(min_width.into()), ..self }
    }

    /// Sets the alignment of header and body cells.
    pub fn align(self, align: TableAlign) -> (r: Self)
        ensures
            r.key == self.key && r.header == self.header && r.width == self.width && r.min_width
                == self.min_width && r.header_class == self.header_class && r.cell_class
                == self.cell_class,
            r.align == align,
    {
        TableColumn { align, ..self }
    }

    /// Adds a class to the header cell.
    pub fn header_class<C: Into<String>>(self, class: C) -> (r: Self)
        ensures
            r.key == self.key && r.header == self.header && r.width == self.width && r.min_width
                == self.min_width && r.align == self.align && r.cell_class == self.cell_class,
            r.header_class matches Some(c) && call_ensures(C::into, (class,), c),
    {
        TableColumn { header_class: Some(class.into()), ..self }
    }

    /// Adds a class to every body cell.
    pub fn cell_class<C: Into<String>>(self, class: C) -> (r: Self)
        ensures
            r.key == self.key && r.header == self.header && r.width == self.width && r.min_width
                == self.min_width && r.align == self.align && r.header_class == self.header_class,
            r.cell_class matches Some(c) && call_ensures(C::into, (class,), c),
    {
        TableColumn { cell_class: Some(class.into()), ..self }
    }
}

/// Per-row state: disabled rows opt out of interaction; a row may carry its own
/// background color.
pub struct TableRowMeta {
    pub disabled: bool,
    pub background_color: Option<String>,
}

impl TableRowMeta {
    /// Metadata of an interactive row without a background color.
    pub fn new() -> (r: Self)
        ensures
            !r.disabled,
            r.background_color is None,
    {
        TableRowMeta { disabled: false, background_color: None }
    }

    /// Sets whether the row is disabled.
    pub fn disabled(self, disabled: bool) -> (r: Self)
        ensures
            r.disabled == disabled,
            r.background_color == self.background_color,
    {
        TableRowMeta { disabled, ..self }
    }

    /// Sets the row's background color.
    pub fn background_color<C: Into<String>>(self, background_color: C) -> (r: Self)
        ensures
            r.disabled == self.disabled,
            r.background_color matches Some(c) && call_ensures(C::into, (background_color,), c),
    {
        TableRowMeta { background_color: Some(background_color.into()), ..self }
    }
}

impl Default for TableRowMeta {
    fn default() -> (r: Self)
        ensures
            !r.disabled,
            r.background_color is None,
    {
        TableRowMeta::new()
    }
}

/// Where a dragged row is dropped relative to the target row.
#[derive(Debug, Clone, Copy, PartialEq, Eq)]
pub enum TableDropPosition {
    Before,
    After,
}

/// A requested row move: from one row key to a position next to another.
#[derive(Debug)]
pub struct TableRowMove {
    pub from_key: String,
    pub to_key: String,
    pub position: TableDropPosition,
}

/// The row being dragged.
#[derive(Debug)]
pub struct DragState {
    pub from_key: String,
}

/// The row under the pointer and the side of it the row would land on.
#[derive(Debug)]
pub struct DragTarget {
    pub key: String,
    pub position: TableDropPosition,
}

/// The move a drop produces; none when a row is dropped onto itself.
pub fn build_row_move(drag_state: &DragState, target: &DragTarget) -> (r: Option<TableRowMove>)
    ensures
        drag_state.from_key@ == target.key@ ==> r is None,
        drag_state.from_key@ != target.key@ ==> (r matches Some(m) && m.from_key@
            == drag_state.from_key@ && m.to_key@ == target.key@ && m.position == target.position),
{
    if drag_state.from_key == target.key {
        return None;
    }
    Some(
        TableRowMove {
            from_key: drag_state.from_key.clone(),
            to_key: target.key.clone(),
            position: target.position,
        },
    )
}

/// The root classes of a table.
pub fn root_class_name(keyboard_navigation: bool, class: Option<&str>) -> (r: String)
    ensures
        r@ == "birei-table"@ + (if keyboard_navigation {
            " birei-table--keyboard"@
        } else {
            Seq::<char>::empty()
        }) + extra_class(class),
{
    let mut classes = string_from("birei-table");
    push_suffix_if(&mut classes, keyboard_navigation, " birei-table--keyboard");
    push_extra_class(&mut classes, class);
    classes
}

/// The grid track of one column: explicit sizes when given, a flexible track otherwise.
pub open spec fn track(column: TableColumn) -> Seq<char> {
    match (column.min_width, column.width) {
        (Some(min), Some(width)) => "minmax("@ + min@ + ", "@ + width@ + ")"@,
        (Some(min), None) => "minmax("@ + min@ + ", 1fr)"@,
        (None, Some(width)) => width@,
        (None, None) => "minmax(0, 1fr)"@,
    }
}

fn push_track(out: &mut String, column: &TableColumn)
    ensures
        final(out)@ == old(out)@ + track(*column),
{
    let ghost start = out@;
    match (&column.min_width, &column.width) {
        (Some(min), Some(width)) => {
            push_text(out, "minmax(");
            push_text(out, min.as_str());
            push_text(out, ", ");
            push_text(out, width.as_str());
            push_text(out, ")");
        },
        (Some(min), None) => {
            push_text(out, "minmax(");
            push_text(out, min.as_str());
            push_text(out, ", 1fr)");
        },
        (None, Some(width)) => {
            push_text(out, width.as_str());
        },
        (None, None) => {
            push_text(out, "minmax(0, 1fr)");
        },
    }
    proof {
        assert(out@ =~= start + track(*column));
    }
}

/// The grid track of one column.
pub fn column_track(column: &TableColumn) -> (r: String)
    ensures
        r@ == track(*column),
{
    let mut out = String::new();
    push_track(&mut out, column);
    proof {
        assert(out@ =~= track(*column));
    }
    out
}

/// The `grid-template-columns` value: the columns' tracks separated by spaces.
pub fn grid_template(columns: &[TableColumn]) -> (r: String)
    ensures
        r@ == join(columns@.map_values(|c: TableColumn| track(c)), seq![' ']),
{
    let ghost tracks = columns@.map_values(|c: TableColumn| track(c));
    let mut out = String::new();
    let mut i: usize = 0;
    while i < columns.len()
        invariant
            0 <= i <= columns@.len(),
            tracks == columns@.map_values(|c: TableColumn| track(c)),
            out@ == join(tracks.take(i as int), seq![' ']),
        decreases columns.len() - i,
    {
        let ghost before = out@;
        if i > 0 {
            push_char(&mut out, ' ');
        }
        push_track(&mut out, &columns[i]);
        proof {
            assert(tracks.take(i + 1).drop_last() =~= tracks.take(i as int));
            if i == 0 {
                assert(tracks.take(1) =~= seq![tracks[0]]);
                assert(out@ =~= before + tracks[0]);
            } else {
                assert(out@ =~= before + seq![' '] + tracks[i as int]);
            }
        }
        i = i + 1;
    }
    proof {
        assert(tracks.take(columns@.len() as int) =~= tracks);
    }
    out
}

pub open spec fn option_class(class: Option<String>) -> Seq<char> {
    match class {
        Some(c) => seq![' '] + c@,
        None => Seq::<char>::empty(),
    }
}

fn push_option_class(out: &mut String, class: &Option<String>)
    ensures
        final(out)@ == old(out)@ + option_class(*class),
{
    match class {
        Some(c) => crate::text::push_class_if(out, true, c.as_str()),
        None => crate::text::push_class_if(out, false, ""),
    }
}

/// The classes of a header cell: alignment, click affordance, caller class.
pub fn header_cell_class(column: &TableColumn, clickable: bool) -> (r: String)
    ensures
        r@ == "birei-table__cell birei-table__cell--header "@ + match column.align {
            TableAlign::Start => "birei-table__cell--start"@,
            TableAlign::Center => "birei-table__cell--center"@,
            TableAlign::End => "birei-table__cell--end"@,
        } + (if clickable {
            " birei-table__cell--clickable"@
        } else {
            Seq::<char>::empty()
        }) + option_class(column.header_class),
{
    let mut classes = string_from("birei-table__cell birei-table__cell--header ");
    push_text(&mut classes, column.align.class_name());
    push_suffix_if(&mut classes, clickable, " birei-table__cell--clickable");
    push_option_class(&mut classes, &column.header_class);
    classes
}

/// The classes of a body cell: alignment and caller class.
pub fn body_cell_class(column: &TableColumn) -> (r: String)
    ensures
        r@ == "birei-table__cell "@ + match column.align {
            TableAlign::Start => "birei-table__cell--start"@,
            TableAlign::Center => "birei-table__cell--center"@,
            TableAlign::End => "birei-table__cell--end"@,
        } + option_class(column.cell_class),
{
    let mut classes = string_from("birei-table__cell ");
    push_text(&mut classes, column.align.class_name());
    push_option_class(&mut classes, &column.cell_class);
    classes
}

/// The classes of a row for its active, selected and disabled states.
pub fn row_class_name(active: bool, selected: bool, disabled: bool) -> (r: String)
    ensures
        r@ == "birei-table__row"@ + (if active {
            " birei-table__row--active"@
        } else {
            Seq::<char>::empty()
        }) + (if selected {
            " birei-table__row--selected"@
        } else {
            Seq::<char>::empty()
        }) + (if disabled {
            " birei-table__row--disabled"@
        } else {
            Seq::<char>::empty()
        }),
{
    let mut classes = string_from("birei-table__row");
    push_suffix_if(&mut classes, active, " birei-table__row--active");
    push_suffix_if(&mut classes, selected, " birei-table__row--selected");
    push_suffix_if(&mut classes, disabled, " birei-table__row--disabled");
    classes
}

/// The inline style of a row: its background color, unless blank.
pub fn row_style(meta: &TableRowMeta) -> (r: String)
    ensures
        r@ == match meta.background_color {
            Some(c) => if trim(c@).len() > 0 {
                "--birei-table-row-background: "@ + c@ + ";"@
            } else {
                Seq::<char>::empty()
            },
            None => Seq::<char>::empty(),
        },
{
    match &meta.background_color {
        Some(c) => {
            let v = chars_of(c.as_str());
            let (a, b) = trim_range(&v, 0, v.len(), false);
            proof {
                assert(v@.subrange(0, v@.len() as int) =~= c@);
            }
            if a == b {
                return String::new();
            }
            let mut out = string_from("--birei-table-row-background: ");
            push_text(&mut out, c.as_str());
            push_text(&mut out, ";");
            out
        },
        None => String::new(),
    }
}

/// Whether more rows are requested: only when rows exist, more are available,
/// none are loading, and the visible window reaches the last `threshold` rows.
pub fn should_load_more(
    row_count: usize,
    visible_end: usize,
    threshold: usize,
    has_more: bool,
    is_loading: bool,
) -> (r: bool)
    ensures
        r == (row_count > 0 && has_more && !is_loading && visible_end >= (if row_count >= threshold {
            row_count - threshold
        } else {
            0
        })),
{
    if row_count == 0 || !has_more || is_loading {
        return false;
    }
    visible_end >= row_count.saturating_sub(threshold)
}

/// The table's load-more throttling: the row count the last request was made
/// for, and whether a request is made now. A request is made when
/// `should_load_more` holds, a handler is present and no request was made for
/// this row count yet; when loading is not wanted the record is reset.
pub open spec fn table_load_more(
    has_handler: bool,
    row_count: usize,
    visible_end: usize,
    threshold: usize,
    has_more: bool,
    is_loading: bool,
    last_request_len: Option<usize>,
) -> (Option<usize>, bool) {
    let wanted = row_count > 0 && has_more && !is_loading && visible_end >= (if row_count
        >= threshold {
        row_count - threshold
    } else {
        0
    });
    if !has_handler {
        (last_request_len, false)
    } else if !wanted {
        (None, false)
    } else if last_request_len == Some(row_count) {
        (last_request_len, false)
    } else {
        (Some(row_count), true)
    }
}

/// Decides whether the table asks for more rows.
pub fn table_load_more_step(
    has_handler: bool,
    row_count: usize,
    visible_end: usize,
    threshold: usize,
    has_more: bool,
    is_loading: bool,
    last_request_len: Option<usize>,
) -> (r: LoadMoreStep)
    ensures
        (r.last_request_len, r.request) == table_load_more(
            has_handler,
            row_count,
            visible_end,
            threshold,
            has_more,
            is_loading,
            last_request_len,
        ),
{
    if !has_handler {
        return LoadMoreStep { last_request_len, request: false };
    }
    if !should_load_more(row_count, visible_end, threshold, has_more, is_loading) {
        return LoadMoreStep { last_request_len: None, request: false };
    }
    match last_request_len {
        Some(n) => {
            if n == row_count {
                return LoadMoreStep { last_request_len, request: false };
            }
        },
        None => {},
    }
    LoadMoreStep { last_request_len: Some(row_count), request: true }
}

/// The table asks at most once per row count: after a request, the next check
/// with the same row count asks nothing, wherever the window stands.
pub proof fn lemma_table_requests_once(
    row_count: usize,
    visible_end: usize,
    next_visible_end: usize,
    threshold: usize,
    has_more: bool,
    is_loading: bool,
    last_request_len: Option<usize>,
)
    ensures
        ({
            let (last, requested) = table_load_more(
                true,
                row_count,
                visible_end,
                threshold,
                has_more,
                is_loading,
                last_request_len,
            );
            requested ==> !table_load_more(
                true,
                row_count,
                next_visible_end,
                threshold,
                has_more,
                is_loading,
                last,
            ).1
        }),
{
}

/// The first row whose key is `key`.
pub open spec fn row_with_key(keys: Seq<String>, key: Seq<char>) -> Option<int> {
    if exists|i: int| 0 <= i < keys.len() && keys[i]@ == key {
        Some(
            choose|i: int|
                0 <= i < keys.len() && keys[i]@ == key && forall|j: int| 0 <= j < i ==> keys[j]@ != key,
        )
    } else {
        None
    }
}

/// The active row after the rows changed: the current one while it is in range,
/// otherwise the selected row, otherwise the first row; none without rows.
pub open spec fn table_active(keys: Seq<String>, active: Option<usize>, selected: Option<Seq<char>>) -> Option<
    int,
> {
    if keys.len() == 0 {
        None
    } else {
        match active {
            Some(a) if a < keys.len() => Some(a as int),
            _ => match selected {
                Some(s) => match row_with_key(keys, s) {
                    Some(i) => Some(i),
                    None => Some(0),
                },
                None => Some(0),
            },
        }
    }
}

proof fn lemma_first_key_exists(keys: Seq<String>, key: Seq<char>, k: int)
    requires
        0 <= k < keys.len(),
        keys[k]@ == key,
    ensures
        exists|i: int| 0 <= i < keys.len() && keys[i]@ == key && forall|j: int| 0 <= j < i ==> keys[j]@ != key,
    decreases k,
{
    if exists|j: int| 0 <= j < k && keys[j]@ == key {
        let j = choose|j: int| 0 <= j < k && keys[j]@ == key;
        lemma_first_key_exists(keys, key, j);
    } else {
        assert(forall|j: int| 0 <= j < k ==> keys[j]@ != key);
    }
}

/// The table's active row after the rows change: an active row in range
/// stays; otherwise the first row whose key is the selected one, when a row
/// has it, else the first row; no row is active without rows.
pub proof fn lemma_table_active_follows_selection(
    keys: Seq<String>,
    active: Option<usize>,
    selected: Option<Seq<char>>,
)
    ensures
        ({
            let r = table_active(keys, active, selected);
            let stays = active matches Some(a) && a < keys.len();
            let held = selected matches Some(s) && exists|i: int| 0 <= i < keys.len() && keys[i]@ == s;
            &&& keys.len() == 0 ==> r is None
            &&& stays ==> r == Some(active.unwrap() as int)
            &&& keys.len() > 0 && !stays && held ==> (r matches Some(i) && 0 <= i < keys.len() && keys[i]@
                == selected.unwrap() && forall|j: int| 0 <= j < i ==> keys[j]@ != selected.unwrap())
            &&& keys.len() > 0 && !stays && !held ==> r == Some(0int)
        }),
{
    if let Some(s) = selected {
        if exists|i: int| 0 <= i < keys.len() && keys[i]@ == s {
            let k = choose|i: int| 0 <= i < keys.len() && keys[i]@ == s;
            lemma_first_key_exists(keys, s, k);
        }
    }
}

/// Clamps the active row when the rows change and prefers the selected row.
pub fn table_active_index(row_keys: &[String], active: Option<usize>, selected: Option<&str>) -> (r:
    Option<usize>)
    ensures
        match r {
            Some(i) => table_active(
                row_keys@,
                active,
                match selected {
                    Some(s) => Some(s@),
                    None => None,
                },
            ) == Some(i as int),
            None => table_active(
                row_keys@,
                active,
                match selected {
                    Some(s) => Some(s@),
                    None => None,
                },
            ) is None,
        },
{
    if row_keys.len() == 0 {
        return None;
    }
    match active {
        Some(a) => {
            if a < row_keys.len() {
                return Some(a);
            }
        },
        None => {},
    }
    match selected {
        Some(s) => {
            let needle = chars_of(s);
            let mut i: usize = 0;
            while i < row_keys.len()
                invariant
                    0 <= i <= row_keys@.len(),
                    row_keys@.len() > 0,
                    needle@ == s@,
                    selected == Some(s),
                    !(active matches Some(a) && a < row_keys@.len()),
                    forall|j: int| 0 <= j < i ==> row_keys@[j]@ != s@,
                decreases row_keys.len() - i,
            {
                let candidate = chars_of(row_keys[i].as_str());
                if chars_eq(&candidate, &needle) {
                    proof {
                        assert(row_keys@[i as int]@ == s@);
                        assert(0 <= i < row_keys@.len() && row_keys@[i as int]@ == s@ && forall|j: int|
                            0 <= j < i ==> row_keys@[j]@ != s@);
                        let w = choose|k: int|
                            0 <= k < row_keys@.len() && row_keys@[k]@ == s@ && forall|j: int|
                                0 <= j < k ==> row_keys@[j]@ != s@;
                        if w < i {
                            assert(row_keys@[w]@ != s@);
                        }
                        if (i as int) < w {
                            assert(row_keys@[i as int]@ != s@);
                        }
                    }
                    return Some(i);
                }
                i = i + 1;
            }
            Some(0)
        },
        None => Some(0),
    }
}

} // verus!
