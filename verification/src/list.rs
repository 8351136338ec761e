//! Behaviour of the virtualized list: row data, class names, load-more
//! throttling, active-row bookkeeping and keyboard movement.
use vstd::prelude::*;

use crate::icon::IcnName;
use crate::select::push_suffix_if;
use crate::text::{chars_of, chars_eq, extra_class, push_extra_class, push_text, string_from};

verus! {

/// Fixed row density.
#[derive(Debug, Clone, Copy, PartialEq, Eq)]
pub enum ListDensity {
    /// Icon, title, and optional trailing meta only.
    Compact,
    /// Title with optional description below.
    Detailed,
}

impl Default for ListDensity {
    fn default() -> (r: Self)
        ensures
            r == ListDensity::Compact,
    {
        ListDensity::Compact
    }
}

impl ListDensity {
    /// The density-specific root class name.
    pub fn class_name(self) -> (r: &'static str)
        ensures
            r@ == match self {
                ListDensity::Compact => "birei-list--compact"@,
                ListDensity::Detailed => "birei-list--detailed"@,
            },
    {
        match self {
            ListDensity::Compact => "birei-list--compact",
            ListDensity::Detailed => "birei-list--detailed",
        }
    }
}

/// Row data rendered by the list.
pub struct ListEntry {
    pub value: String,
    pub title: String,
    pub description: Option<String>,
    pub icon: Option<IcnName>,
    pub meta: Option<String>,
}

impl ListEntry {
    /// A row with its stable value and visible title.
    pub fn new<V: Into<String>, T: Into<String>>(value: V, title: T) -> (r: Self)
        ensures
            call_ensures(V::into, (value,), r.value),
            call_ensures(T::into, (title,), r.title),
            r.description is None,
            r.icon is None,
            r.meta is None,
    {
        ListEntry { value: value.into(), title: title.into(), description: None, icon: None, meta: None }
    }

    /// Adds a secondary line shown in detailed density.
    pub fn description<D: Into<String>>(self, description: D) -> (r: Self)
        ensures
            r.value == self.value,
            r.title == self.title,
            r.icon == self.icon,
            r.meta == self.meta,
            r.description matches Some(d) && call_ensures(D::into, (description,), d),
    {
        ListEntry { description: Some(description.into()), ..self }
    }

    /// Adds a leading icon.
    pub fn icon<I: Into<IcnName>>(self, icon: I) -> (r: Self)
        ensures
            r.value == self.value,
            r.title == self.title,
            r.description == self.description,
            r.meta == self.meta,
            r.icon matches Some(i) && call_ensures(I::into, (icon,), i),
    {
        ListEntry { icon: Some(icon.into()), ..self }
    }

    /// Adds trailing meta text.
    pub fn meta<M: Into<String>>(self, meta: M) -> (r: Self)
        ensures
            r.value == self.value,
            r.title == self.title,
            r.description == self.description,
            r.icon == self.icon,
            r.meta matches Some(m) && call_ensures(M::into, (meta,), m),
    {
        ListEntry { meta: Some(meta.into()), ..self }
    }
}

/// The row classes for active and selected visual states.
pub fn list_row_class_name(active: bool, selected: bool) -> (r: String)
    ensures
        r@ == "birei-list__row"@ + (if active {
            " birei-list__row--active"@
        } else {
            Seq::<char>::empty()
        }) + (if selected {
            " birei-list__row--selected"@
        } else {
            Seq::<char>::empty()
        }),
{
    let mut classes = string_from("birei-list__row");
    push_suffix_if(&mut classes, active, " birei-list__row--active");
    push_suffix_if(&mut classes, selected, " birei-list__row--selected");
    classes
}

/// The root classes: density, keyboard styling and the caller's class.
pub fn list_class_name(density: ListDensity, keyboard_navigation: bool, class: Option<&str>) -> (r:
    String)
    ensures
        r@ == "birei-list "@ + match density {
            ListDensity::Compact => "birei-list--compact"@,
            ListDensity::Detailed => "birei-list--detailed"@,
        } + (if keyboard_navigation {
            " birei-list--keyboard"@
        } else {
            Seq::<char>::empty()
        }) + extra_class(class),
{
    let mut classes = string_from("birei-list ");
    push_text(&mut classes, density.class_name());
    push_suffix_if(&mut classes, keyboard_navigation, " birei-list--keyboard");
    push_extra_class(&mut classes, class);
    classes
}

/// The outcome of a load-more check: the item count the last request was made
/// for, and whether a new request is made now.
pub struct LoadMoreStep {
    pub last_request_len: Option<usize>,
    pub request: bool,
}

/// The list's load-more throttling: the item count the last request was made
/// for, and whether a request is made now. Requests are made only when more
/// items exist, none are loading, a handler is present and the visible window
/// reaches the last `threshold` items, and only once per item count; a window
/// short of that point resets the record.
pub open spec fn list_load_more(
    has_more: bool,
    is_loading: bool,
    has_handler: bool,
    items_len: usize,
    visible_end: usize,
    threshold: usize,
    last_request_len: Option<usize>,
) -> (Option<usize>, bool) {
    let trigger = if items_len >= threshold {
        items_len - threshold
    } else {
        0
    };
    if !has_more || is_loading || !has_handler || items_len == 0 {
        (last_request_len, false)
    } else if visible_end < trigger {
        (None, false)
    } else if last_request_len == Some(items_len) {
        (last_request_len, false)
    } else {
        (Some(items_len), true)
    }
}

/// Decides whether the list asks for more items.
pub fn list_load_more_step(
    has_more: bool,
    is_loading: bool,
    has_handler: bool,
    items_len: usize,
    visible_end: usize,
    threshold: usize,
    last_request_len: Option<usize>,
) -> (r: LoadMoreStep)
    ensures
        (r.last_request_len, r.request) == list_load_more(
            has_more,
            is_loading,
            has_handler,
            items_len,
            visible_end,
            threshold,
            last_request_len,
        ),
{
    if !has_more || is_loading || !has_handler || items_len == 0 {
        return LoadMoreStep { last_request_len, request: false };
    }
    let trigger_index = items_len.saturating_sub(threshold);
    if visible_end < trigger_index {
        return LoadMoreStep { last_request_len: None, request: false };
    }
    match last_request_len {
        Some(n) => {
            if n == items_len {
                return LoadMoreStep { last_request_len, request: false };
            }
        },
        None => {},
    }
    LoadMoreStep { last_request_len: Some(items_len), request: true }
}

/// The list asks at most once per item count: after a request, the next check
/// with the same item count asks nothing, wherever the window stands.
pub proof fn lemma_list_requests_once(
    has_more: bool,
    is_loading: bool,
    has_handler: bool,
    items_len: usize,
    visible_end: usize,
    next_visible_end: usize,
    threshold: usize,
    last_request_len: Option<usize>,
)
    ensures
        ({
            let (last, requested) = list_load_more(
                has_more,
                is_loading,
                has_handler,
                items_len,
                visible_end,
                threshold,
                last_request_len,
            );
            requested ==> !list_load_more(
                has_more,
                is_loading,
                has_handler,
                items_len,
                next_visible_end,
                threshold,
                last,
            ).1
        }),
{
}

/// The selection after a row is chosen: cleared when the row was selected, the
/// row's value otherwise.
pub fn toggled_selection(selected: Option<&str>, value: &str) -> (r: Option<String>)
    ensures
        match selected {
            Some(s) => if s@ == value@ {
                r is None
            } else {
                r matches Some(v) && v@ == value@
            },
            None => r matches Some(v) && v@ == value@,
        },
{
    match selected {
        Some(s) => {
            if crate::text::text_eq(s, value) {
                None
            } else {
                Some(string_from(value))
            }
        },
        None => Some(string_from(value)),
    }
}

/// Whether a new item set replaces the previous one rather than extending it:
/// the previous values are not a prefix of the new ones.
pub fn items_replaced(previous: &[String], next: &[String]) -> (r: bool)
    ensures
        r == !(previous@.len() <= next@.len() && forall|i: int|
            0 <= i < previous@.len() ==> previous@[i]@ == next@[i]@),
{
    if previous.len() > next.len() {
        return true;
    }
    let mut i: usize = 0;
    while i < previous.len()
        invariant
            previous@.len() <= next@.len(),
            0 <= i <= previous@.len(),
            forall|j: int| 0 <= j < i ==> previous@[j]@ == next@[j]@,
        decreases previous.len() - i,
    {
        let a = chars_of(previous[i].as_str());
        let b = chars_of(next[i].as_str());
        if !chars_eq(&a, &b) {
            return true;
        }
        i = i + 1;
    }
    false
}

/// The first entry whose value is `value`.
pub open spec fn entry_with_value(entries: Seq<ListEntry>, value: Seq<char>) -> Option<int> {
    if exists|i: int| 0 <= i < entries.len() && entries[i].value@ == value {
        Some(
            choose|i: int|
                0 <= i < entries.len() && entries[i].value@ == value && forall|j: int|
                    0 <= j < i ==> entries[j].value@ != value,
        )
    } else {
        None
    }
}

/// The active row kept after the items changed: a missing active row is seeded
/// from the selected value or the first row; an active row past the end moves to
/// the last row; an empty list has none.
pub open spec fn active_after_items(
    entries: Seq<ListEntry>,
    active: Option<usize>,
    selected: Option<Seq<char>>,
) -> Option<int> {
    match active {
        None => {
            let seeded = match selected {
                Some(s) => entry_with_value(entries, s),
                None => None,
            };
            match seeded {
                Some(i) => Some(i),
                None => if entries.len() > 0 {
                    Some(0)
                } else {
                    None
                },
            }
        },
        Some(a) => if entries.len() == 0 {
            None
        } else if a >= entries.len() {
            Some(entries.len() - 1)
        } else {
            Some(a as int)
        },
    }
}

proof fn lemma_first_holder_exists(entries: Seq<ListEntry>, value: Seq<char>, k: int)
    requires
        0 <= k < entries.len(),
        entries[k].value@ == value,
    ensures
        exists|i: int|
            0 <= i < entries.len() && entries[i].value@ == value && forall|j: int|
                0 <= j < i ==> entries[j].value@ != value,
    decreases k,
{
    if exists|j: int| 0 <= j < k && entries[j].value@ == value {
        let j = choose|j: int| 0 <= j < k && entries[j].value@ == value;
        lemma_first_holder_exists(entries, value, j);
    } else {
        assert(forall|j: int| 0 <= j < k ==> entries[j].value@ != value);
    }
}

/// Keeping the active row when the items change: with no active row and a
/// selected value that some entry holds, the first entry holding it becomes
/// active; with no active row otherwise, the first row (none in an empty
/// list); an active row stays, moved to the last row when it is past the end.
pub proof fn lemma_active_row_follows_selection(
    entries: Seq<ListEntry>,
    active: Option<usize>,
    selected: Option<Seq<char>>,
)
    ensures
        ({
            let r = active_after_items(entries, active, selected);
            let held = selected matches Some(s) && exists|i: int| 0 <= i < entries.len() && entries[i].value@ == s;
            &&& active is None && held ==> (r matches Some(i) && 0 <= i < entries.len() && entries[i].value@
                == selected.unwrap() && forall|j: int| 0 <= j < i ==> entries[j].value@ != selected.unwrap())
            &&& active is None && !held ==> r == (if entries.len() > 0 {
                Some(0int)
            } else {
                None
            })
            &&& active matches Some(a) ==> r == (if entries.len() == 0 {
                None
            } else if a < entries.len() {
                Some(a as int)
            } else {
                Some(entries.len() - 1)
            })
        }),
{
    if let Some(s) = selected {
        if exists|i: int| 0 <= i < entries.len() && entries[i].value@ == s {
            let k = choose|i: int| 0 <= i < entries.len() && entries[i].value@ == s;
            lemma_first_holder_exists(entries, s, k);
        }
    }
}

/// Keeps the active row valid as the item set changes.
pub fn active_index_after_items(entries: &[ListEntry], active: Option<usize>, selected: Option<&str>) -> (r:
    Option<usize>)
    ensures
        match r {
            Some(i) => active_after_items(
                entries@,
                active,
                match selected {
                    Some(s) => Some(s@),
                    None => None,
                },
            ) == Some(i as int),
            None => active_after_items(
                entries@,
                active,
                match selected {
                    Some(s) => Some(s@),
                    None => None,
                },
            ) is None,
        },
{
    match active {
        None => {
            match selected {
                Some(s) => {
                    let needle = chars_of(s);
                    let mut i: usize = 0;
                    while i < entries.len()
                        invariant
                            0 <= i <= entries@.len(),
                            needle@ == s@,
                            active is None,
                            selected == Some(s),
                            forall|j: int| 0 <= j < i ==> entries@[j].value@ != s@,
                        decreases entries.len() - i,
                    {
                        let candidate = chars_of(entries[i].value.as_str());
                        if chars_eq(&candidate, &needle) {
                            proof {
                                let w = choose|k: int|
                                    0 <= k < entries@.len() && entries@[k].value@ == s@ && forall|j: int|
                                        0 <= j < k ==> entries@[j].value@ != s@;
                                assert(entries@[i as int].value@ == s@);
                                assert(0 <= i < entries@.len() && entries@[i as int].value@ == s@
                                    && forall|j: int| 0 <= j < i ==> entries@[j].value@ != s@);
                                assert(0 <= w < entries@.len() && entries@[w].value@ == s@);
                                if w < i {
                                    assert(entries@[w].value@ != s@);
                                }
                                if (i as int) < w {
                                    assert(entries@[i as int].value@ != s@);
                                }
                            }
                            return Some(i);
                        }
                        i = i + 1;
                    }
                },
                None => {},
            }
            if entries.len() > 0 {
                Some(0)
            } else {
                None
            }
        },
        Some(a) => {
            if entries.len() == 0 {
                None
            } else if a >= entries.len() {
                Some(entries.len() - 1)
            } else {
                Some(a)
            }
        },
    }
}

/// Keys that move the list's active row.
#[derive(Debug, Clone, Copy, PartialEq, Eq)]
pub enum ListMove {
    Down,
    Up,
    Home,
    End,
}

/// The row a navigation key moves to from `current` in a list of `len` rows.
pub fn list_move_target(key: ListMove, current: usize, len: usize) -> (r: usize)
    requires
        len > 0,
    ensures
        r == moved_row(key, current as int, len as int),
{
    match key {
        ListMove::Down => {
            if current < len - 1 {
                current + 1
            } else {
                len - 1
            }
        },
        ListMove::Up => current.saturating_sub(1),
        ListMove::Home => 0,
        ListMove::End => len - 1,
    }
}

/// What a key pressed on a list or table does to its rows.
#[derive(Debug, Clone, Copy, PartialEq, Eq)]
pub enum RowAction {
    /// Make this row the active one.
    Activate(usize),
    /// Select (commit) this row.
    Commit(usize),
}

/// The row a navigation key lands on, from `current` among `len` rows.
pub open spec fn moved_row(key: ListMove, current: int, len: int) -> int {
    match key {
        ListMove::Down => if current + 1 < len {
            current + 1
        } else {
            len - 1
        },
        ListMove::Up => if current > 0 {
            current - 1
        } else {
            0
        },
        ListMove::Home => 0,
        ListMove::End => len - 1,
    }
}

/// The keyboard handling of a list or table with `len` rows and the given
/// active row (the first row when none is active): the arrows, Home and End
/// activate a row, Enter and Space commit the current one. Nothing happens
/// without rows or for other keys; the default action is suppressed exactly
/// when something happens.
pub fn row_key_action(key: &str, active: Option<usize>, len: usize) -> (r: Option<RowAction>)
    ensures
        ({
            let current: int = match active {
                Some(a) => a as int,
                None => 0,
            };
            if len == 0 {
                r is None
            } else if key@ == "ArrowDown"@ {
                r == Some(RowAction::Activate(moved_row(ListMove::Down, current, len as int) as usize))
            } else if key@ == "ArrowUp"@ {
                r == Some(RowAction::Activate(moved_row(ListMove::Up, current, len as int) as usize))
            } else if key@ == "Home"@ {
                r == Some(RowAction::Activate(0))
            } else if key@ == "End"@ {
                r == Some(RowAction::Activate((len - 1) as usize))
            } else if key@ == "Enter"@ || key@ == " "@ {
                r == Some(RowAction::Commit(current as usize))
            } else {
                r is None
            }
        }),
{
    if len == 0 {
        return None;
    }
    let current: usize = match active {
        Some(a) => a,
        None => 0,
    };
    if crate::text::text_eq(key, "ArrowDown") {
        Some(RowAction::Activate(list_move_target(ListMove::Down, current, len)))
    } else if crate::text::text_eq(key, "ArrowUp") {
        Some(RowAction::Activate(list_move_target(ListMove::Up, current, len)))
    } else if crate::text::text_eq(key, "Home") {
        Some(RowAction::Activate(0))
    } else if crate::text::text_eq(key, "End") {
        Some(RowAction::Activate(len - 1))
    } else if crate::text::text_eq(key, "Enter") || crate::text::text_eq(key, " ") {
        Some(RowAction::Commit(current))
    } else {
        None
    }
}

/// Keyboard navigation never leaves the rows: from one of the `len` rows,
/// every row that a key activates is one of them, and an arrow moves the active
/// row by at most one step.
pub proof fn lemma_moved_row_in_range(key: ListMove, current: int, len: int)
    requires
        0 <= current < len,
    ensures
        0 <= moved_row(key, current, len) < len,
        key == ListMove::Down ==> 0 <= moved_row(key, current, len) - current <= 1,
        key == ListMove::Up ==> 0 <= current - moved_row(key, current, len) <= 1,
{
}

} // verus!
