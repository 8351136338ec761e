//! Behaviour of the tab list: tab definitions, the selected tab, and roving
//! focus across the visible, enabled tabs.
use vstd::prelude::*;

use crate::roving::{first_enabled, first_enabled_position, next_enabled, scan_enabled, scan_start};
use crate::text::{chars_eq, chars_of, extra_class, push_extra_class, push_text, string_from};

verus! {

/// Tab entry rendered by the tab list.
#[derive(Debug)]
pub struct TabItem {
    /// Stable value emitted when the tab is selected.
    pub value: String,
    /// Label shown for the tab trigger.
    pub label: String,
    /// Disables selection for this tab.
    pub disabled: bool,
}

impl Clone for TabItem {
    fn clone(&self) -> (r: Self)
        ensures
            r == *self,
    {
        TabItem { value: self.value.clone(), label: self.label.clone(), disabled: self.disabled }
    }
}

impl TabItem {
    /// An enabled tab.
    pub fn new<V: Into<String>, L: Into<String>>(value: V, label: L) -> (r: Self)
        ensures
            call_ensures(V::into, (value,), r.value),
            call_ensures(L::into, (label,), r.label),
            !r.disabled,
    {
        TabItem { value: value.into(), label: label.into(), disabled: false }
    }

    /// Sets whether the tab can be selected.
    pub fn disabled(self, disabled: bool) -> (r: Self)
        ensures
            r.value == self.value,
            r.label == self.label,
            r.disabled == disabled,
    {
        TabItem { disabled, ..self }
    }
}

/// Placement of the indicator track relative to the tab labels.
#[derive(Debug, Clone, Copy, PartialEq, Eq)]
pub enum TabLinePosition {
    /// Below the tabs.
    Below,
    /// Above the tabs.
    Above,
}

impl Default for TabLinePosition {
    fn default() -> (r: Self)
        ensures
            r == TabLinePosition::Below,
    {
        TabLinePosition::Below
    }
}

/// The root class list of a tab list.
pub fn tab_list_class_name(line_position: TabLinePosition, class: Option<&str>) -> (r: String)
    ensures
        r@ == "birei-tab-list "@ + match line_position {
            TabLinePosition::Below => "birei-tab-list--line-below"@,
            TabLinePosition::Above => "birei-tab-list--line-above"@,
        } + extra_class(class),
{
    let mut classes = string_from("birei-tab-list ");
    match line_position {
        TabLinePosition::Below => push_text(&mut classes, "birei-tab-list--line-below"),
        TabLinePosition::Above => push_text(&mut classes, "birei-tab-list--line-above"),
    }
    push_extra_class(&mut classes, class);
    classes
}

/// The disabled flags of the tabs, in order.
pub open spec fn tab_flags(tabs: Seq<TabItem>) -> Seq<bool> {
    tabs.map_values(|t: TabItem| t.disabled)
}

fn disabled_flags(tabs: &[TabItem]) -> (r: Vec<bool>)
    ensures
        r@ == tab_flags(tabs@),
{
    let mut r: Vec<bool> = Vec::new();
    let mut i: usize = 0;
    while i < tabs.len()
        invariant
            0 <= i <= tabs@.len(),
            r@ == tab_flags(tabs@.take(i as int)),
        decreases tabs.len() - i,
    {
        r.push(tabs[i].disabled);
        proof {
            assert(tab_flags(tabs@.take(i + 1)) =~= tab_flags(tabs@.take(i as int)).push(
                tabs@[i as int].disabled,
            ));
        }
        i = i + 1;
    }
    proof {
        assert(tabs@.take(tabs@.len() as int) =~= tabs@);
    }
    r
}

/// The first tab that can be selected.
pub fn first_enabled_index(tabs: &[TabItem]) -> (r: Option<usize>)
    ensures
        match r {
            Some(i) => first_enabled(tab_flags(tabs@)) == Some(i as int),
            None => first_enabled(tab_flags(tabs@)) is None,
        },
{
    let flags = disabled_flags(tabs);
    first_enabled_position(&flags)
}

/// The first enabled tab whose value is `value`.
pub open spec fn enabled_tab_with_value(tabs: Seq<TabItem>, value: Seq<char>) -> Option<int> {
    if exists|i: int| 0 <= i < tabs.len() && !tabs[i].disabled && tabs[i].value@ == value {
        Some(
            choose|i: int|
                0 <= i < tabs.len() && !tabs[i].disabled && tabs[i].value@ == value && forall|j: int|
                    0 <= j < i ==> !(!tabs[j].disabled && tabs[j].value@ == value),
        )
    } else {
        None
    }
}

/// The selected tab: the enabled tab holding the value, otherwise the first enabled tab.
pub open spec fn selected_tab(tabs: Seq<TabItem>, value: Option<Seq<char>>) -> Option<int> {
    match value {
        Some(v) => match enabled_tab_with_value(tabs, v) {
            Some(i) => Some(i),
            None => first_enabled(tab_flags(tabs)),
        },
        None => first_enabled(tab_flags(tabs)),
    }
}

/// Resolves the selected value back to its enabled tab index.
pub fn selected_index(tabs: &[TabItem], value: Option<&str>) -> (r: Option<usize>)
    ensures
        match r {
            Some(i) => selected_tab(
                tabs@,
                match value {
                    Some(v) => Some(v@),
                    None => None,
                },
            ) == Some(i as int),
            None => selected_tab(
                tabs@,
                match value {
                    Some(v) => Some(v@),
                    None => None,
                },
            ) is None,
        },
{
    match value {
        Some(v) => {
            let needle = chars_of(v);
            let mut i: usize = 0;
            while i < tabs.len()
                invariant
                    0 <= i <= tabs@.len(),
                    needle@ == v@,
                    value == Some(v),
                    forall|j: int| 0 <= j < i ==> !(!tabs@[j].disabled && tabs@[j].value@ == v@),
                decreases tabs.len() - i,
            {
                let candidate = chars_of(tabs[i].value.as_str());
                if !tabs[i].disabled && chars_eq(&candidate, &needle) {
                    proof {
                        assert(tabs@[i as int].value@ == v@);
                        assert(0 <= i < tabs@.len() && !tabs@[i as int].disabled && tabs@[i as int].value@ == v@
                            && forall|j: int| 0 <= j < i ==> !(!tabs@[j].disabled && tabs@[j].value@ == v@));
                        let w = choose|k: int|
                            0 <= k < tabs@.len() && !tabs@[k].disabled && tabs@[k].value@ == v@
                                && forall|j: int|
                                0 <= j < k ==> !(!tabs@[j].disabled && tabs@[j].value@ == v@);
                        assert(0 <= w < tabs@.len() && !tabs@[w].disabled && tabs@[w].value@ == v@);
                        if w < i {
                            assert(!(!tabs@[w].disabled && tabs@[w].value@ == v@));
                        }
                        if (i as int) < w {
                            assert(!(!tabs@[i as int].disabled && tabs@[i as int].value@ == v@));
                        }
                    }
                    return Some(i);
                }
                i = i + 1;
            }
            first_enabled_index(tabs)
        },
        None => first_enabled_index(tabs),
    }
}

/// The value of the first enabled tab, used as the uncontrolled default.
pub fn first_enabled_value(tabs: &Option<Vec<TabItem>>) -> (r: Option<String>)
    ensures
        match tabs {
            Some(ts) => match first_enabled(tab_flags(ts@)) {
                Some(i) => r == Some(ts@[i].value),
                None => r is None,
            },
            None => r is None,
        },
{
    match tabs {
        Some(ts) => match first_enabled_index(ts.as_slice()) {
            Some(i) => {
                proof {
                    crate::roving::lemma_first_enabled_bounds(tab_flags(ts@));
                }
                Some(ts[i].value.clone())
            },
            None => None,
        },
        None => None,
    }
}

/// Whether `index` names an existing tab that can be selected.
pub open spec fn enabled_at(tabs: Seq<TabItem>, index: usize) -> bool {
    index < tabs.len() && !tabs[index as int].disabled
}

/// The flags of the visible positions whose tab is missing or disabled.
pub open spec fn visible_flags(tabs: Seq<TabItem>, visible: Seq<usize>) -> Seq<bool> {
    visible.map_values(|index: usize| !enabled_at(tabs, index))
}

fn visible_disabled_flags(tabs: &[TabItem], visible: &[usize]) -> (r: Vec<bool>)
    ensures
        r@ == visible_flags(tabs@, visible@),
{
    let mut r: Vec<bool> = Vec::new();
    let mut i: usize = 0;
    while i < visible.len()
        invariant
            0 <= i <= visible@.len(),
            r@ == visible_flags(tabs@, visible@.take(i as int)),
        decreases visible.len() - i,
    {
        let index = visible[i];
        let flag = !(index < tabs.len() && !tabs[index].disabled);
        r.push(flag);
        proof {
            assert(visible_flags(tabs@, visible@.take(i + 1)) =~= visible_flags(
                tabs@,
                visible@.take(i as int),
            ).push(flag));
        }
        i = i + 1;
    }
    proof {
        assert(visible@.take(visible@.len() as int) =~= visible@);
    }
    r
}

/// The first visible tab that can be selected.
pub fn first_enabled_visible_index(tabs: &[TabItem], visible_indices: &[usize]) -> (r: Option<usize>)
    ensures
        r == edge_visible(tabs@, visible_indices@, false),
{
    let flags = visible_disabled_flags(tabs, visible_indices);
    match first_enabled_position(&flags) {
        Some(p) => {
            proof {
                crate::roving::lemma_first_enabled_bounds(flags@);
            }
            Some(visible_indices[p])
        },
        None => None,
    }
}

/// The last enabled position of a row, when there is one.
pub open spec fn last_enabled(disabled: Seq<bool>) -> Option<int> {
    if exists|i: int| 0 <= i < disabled.len() && !disabled[i] {
        Some(
            choose|i: int|
                0 <= i < disabled.len() && !disabled[i] && forall|j: int|
                    i < j < disabled.len() ==> disabled[j],
        )
    } else {
        None
    }
}

/// The last visible tab that can be selected.
pub fn last_enabled_visible_index(tabs: &[TabItem], visible_indices: &[usize]) -> (r: Option<usize>)
    ensures
        r == edge_visible(tabs@, visible_indices@, true),
{
    let flags = visible_disabled_flags(tabs, visible_indices);
    let mut i = flags.len();
    while i > 0
        invariant
            0 <= i <= flags@.len(),
            flags@.len() == visible_indices@.len(),
            flags@ == visible_flags(tabs@, visible_indices@),
            forall|j: int| i <= j < flags@.len() ==> flags@[j],
        decreases i,
    {
        if !flags[i - 1] {
            proof {
                let f = flags@;
                let k = (i - 1) as int;
                let w = choose|p: int|
                    0 <= p < f.len() && !f[p] && forall|j: int| p < j < f.len() ==> f[j];
                assert(0 <= w < f.len() && !f[w]);
                if w < k {
                    assert(f[k]);
                }
                if k < w {
                    assert(f[w]);
                }
            }
            return Some(visible_indices[i - 1]);
        }
        i = i - 1;
    }
    None
}

/// Moves left or right within the visible tabs from `start`, wrapping around and
/// skipping disabled tabs; `None` when `start` is not visible.
pub fn adjacent_enabled_visible_index(
    tabs: &[TabItem],
    visible_indices: &[usize],
    start: usize,
    direction: i32,
) -> (r: Option<usize>)
    requires
        visible_indices@.len() <= i32::MAX,
        visible_indices@.len() - 1 + direction <= i32::MAX,
    ensures
        r == adjacent_visible(tabs@, visible_indices@, start, direction as int),
        visible_indices@.len() == 0 ==> r is None,
        !visible_indices@.contains(start) ==> r is None,
{
    if visible_indices.len() == 0 {
        return None;
    }
    let mut p: usize = 0;
    while p < visible_indices.len() && visible_indices[p] != start
        invariant
            0 <= p <= visible_indices@.len(),
            forall|j: int| 0 <= j < p ==> visible_indices@[j] != start,
        decreases visible_indices.len() - p,
    {
        p = p + 1;
    }
    if p == visible_indices.len() {
        return None;
    }
    let ghost v = visible_indices@;
    proof {
        let w = choose|q: int|
            0 <= q < v.len() && v[q] == start && forall|j: int| 0 <= j < q ==> v[j] != start;
        assert(v[p as int] == start);
        assert(0 <= w < v.len() && v[w] == start);
        if w < p {
            assert(v[w] != start);
        }
        if (p as int) < w {
            assert(v[p as int] != start);
        }
        assert(scan_start(Some(p), direction, v.len()) == p as int);
    }
    let flags = visible_disabled_flags(tabs, visible_indices);
    match next_enabled(&flags, Some(p), direction) {
        Some(q) => {
            proof {
                crate::roving::lemma_scan_enabled_bounds(flags@, p as int, direction as int, flags@.len());
            }
            Some(visible_indices[q])
        },
        None => None,
    }
}

/// The position of the first occurrence of `start` among the visible tabs.
pub open spec fn visible_position(visible: Seq<usize>, start: usize) -> int {
    choose|p: int|
        0 <= p < visible.len() && visible[p] == start && forall|j: int| 0 <= j < p ==> visible[j] != start
}

/// The visible tab reached from `start` one step in `direction`, wrapping and
/// skipping tabs that cannot be selected.
pub open spec fn adjacent_visible(tabs: Seq<TabItem>, visible: Seq<usize>, start: usize, direction: int) -> Option<
    usize,
> {
    if !visible.contains(start) {
        None
    } else {
        match scan_enabled(visible_flags(tabs, visible), visible_position(visible, start), direction, visible.len()) {
            Some(p) => Some(visible[p]),
            None => None,
        }
    }
}

/// The first (or, with `last`, the last) visible tab that can be selected.
pub open spec fn edge_visible(tabs: Seq<TabItem>, visible: Seq<usize>, last: bool) -> Option<usize> {
    let found = if last {
        last_enabled(visible_flags(tabs, visible))
    } else {
        first_enabled(visible_flags(tabs, visible))
    };
    match found {
        Some(p) => Some(visible[p]),
        None => None,
    }
}

/// A key of the tab list's roving focus.
pub enum TabKey {
    ArrowLeft,
    ArrowRight,
    Home,
    End,
}

/// The roving-focus key named by a key event's `key`, if it is one.
pub open spec fn tab_key_of(key: Seq<char>) -> Option<TabKey> {
    if key == "ArrowLeft"@ {
        Some(TabKey::ArrowLeft)
    } else if key == "ArrowRight"@ {
        Some(TabKey::ArrowRight)
    } else if key == "Home"@ {
        Some(TabKey::Home)
    } else if key == "End"@ {
        Some(TabKey::End)
    } else {
        None
    }
}

/// The roving-focus key named by a key event's `key`, if it is one.
pub fn tab_key(key: &str) -> (r: Option<TabKey>)
    ensures
        r == tab_key_of(key@),
{
    if crate::text::text_eq(key, "ArrowLeft") {
        Some(TabKey::ArrowLeft)
    } else if crate::text::text_eq(key, "ArrowRight") {
        Some(TabKey::ArrowRight)
    } else if crate::text::text_eq(key, "Home") {
        Some(TabKey::Home)
    } else if crate::text::text_eq(key, "End") {
        Some(TabKey::End)
    } else {
        None
    }
}

/// The tab that a roving-focus key pressed on the tab at `index` reaches.
pub open spec fn key_target(key: TabKey, tabs: Seq<TabItem>, visible: Seq<usize>, index: usize) -> Option<
    usize,
> {
    match key {
        TabKey::ArrowLeft => adjacent_visible(tabs, visible, index, -1),
        TabKey::ArrowRight => adjacent_visible(tabs, visible, index, 1),
        TabKey::Home => edge_visible(tabs, visible, false),
        TabKey::End => edge_visible(tabs, visible, true),
    }
}

/// The tab that a roving-focus key pressed on the tab at `index` selects and
/// focuses: the neighbour to the left or right, or the first or last visible
/// tab that can be selected.
pub fn tab_key_target(key: TabKey, tabs: &[TabItem], visible_indices: &[usize], index: usize) -> (r: Option<
    usize,
>)
    requires
        visible_indices@.len() < i32::MAX,
    ensures
        r == key_target(key, tabs@, visible_indices@, index),
{
    match key {
        TabKey::ArrowLeft => adjacent_enabled_visible_index(tabs, visible_indices, index, -1),
        TabKey::ArrowRight => adjacent_enabled_visible_index(tabs, visible_indices, index, 1),
        TabKey::Home => first_enabled_visible_index(tabs, visible_indices),
        TabKey::End => last_enabled_visible_index(tabs, visible_indices),
    }
}

/// Roving focus never lands on a hidden, missing or disabled tab: every tab
/// that a key reaches is visible and can be selected.
pub proof fn lemma_key_target_selectable(key: TabKey, tabs: Seq<TabItem>, visible: Seq<usize>, index: usize)
    ensures
        key_target(key, tabs, visible, index) matches Some(t) ==> visible.contains(t) && enabled_at(tabs, t),
{
    let flags = visible_flags(tabs, visible);
    match key {
        TabKey::ArrowLeft => {
            crate::roving::lemma_scan_enabled_bounds(flags, visible_position(visible, index), -1, visible.len());
        },
        TabKey::ArrowRight => {
            crate::roving::lemma_scan_enabled_bounds(flags, visible_position(visible, index), 1, visible.len());
        },
        TabKey::Home => {
            crate::roving::lemma_first_enabled_bounds(flags);
        },
        TabKey::End => {
            if exists|i: int| 0 <= i < flags.len() && !flags[i] {
                let w = choose|i: int|
                    0 <= i < flags.len() && !flags[i] && forall|j: int| i < j < flags.len() ==> flags[j];
                lemma_last_enabled_exists(flags);
                assert(0 <= w < flags.len() && !flags[w]);
            }
        },
    }
    if let Some(t) = key_target(key, tabs, visible, index) {
        let p = match key {
            TabKey::ArrowLeft => scan_enabled(flags, visible_position(visible, index), -1, visible.len()).unwrap(),
            TabKey::ArrowRight => scan_enabled(flags, visible_position(visible, index), 1, visible.len()).unwrap(),
            TabKey::Home => first_enabled(flags).unwrap(),
            TabKey::End => last_enabled(flags).unwrap(),
        };
        assert(visible[p] == t);
        assert(!flags[p]);
        assert(visible.contains(t));
    }
}

proof fn lemma_last_enabled_exists(flags: Seq<bool>)
    requires
        exists|i: int| 0 <= i < flags.len() && !flags[i],
    ensures
        exists|i: int| 0 <= i < flags.len() && !flags[i] && forall|j: int| i < j < flags.len() ==> flags[j],
    decreases flags.len(),
{
    let n = flags.len() as int;
    if !flags[n - 1] {
        assert(forall|j: int| n - 1 < j < n ==> flags[j]);
    } else {
        let w = choose|i: int| 0 <= i < flags.len() && !flags[i];
        let rest = flags.drop_last();
        assert(rest[w] == flags[w]);
        lemma_last_enabled_exists(rest);
        let v = choose|i: int| 0 <= i < rest.len() && !rest[i] && forall|j: int| i < j < rest.len() ==> rest[j];
        assert(forall|j: int| v < j < n ==> flags[j]) by {
            assert forall|j: int| v < j < n implies flags[j] by {
                if j < n - 1 {
                    assert(rest[j] == flags[j]);
                }
            }
        }
        assert(!flags[v]);
    }
}

/// The tab that the overflow menu's choice of `value` selects: the first tab
/// with that value, when it can be selected.
pub fn tab_choice_by_value(tabs: &[TabItem], value: &str) -> (r: Option<String>)
    ensures
        match r {
            Some(v) => v@ == value@ && exists|i: int|
                0 <= i < tabs@.len() && tabs@[i].value@ == value@ && !tabs@[i].disabled && forall|j: int|
                    0 <= j < i ==> tabs@[j].value@ != value@,
            None => forall|i: int|
                0 <= i < tabs@.len() && tabs@[i].value@ == value@ ==> (tabs@[i].disabled || exists|j: int|
                    0 <= j < i && tabs@[j].value@ == value@),
        },
{
    let mut i: usize = 0;
    while i < tabs.len()
        invariant
            0 <= i <= tabs@.len(),
            forall|j: int| 0 <= j < i ==> tabs@[j].value@ != value@,
        decreases tabs.len() - i,
    {
        if crate::text::text_eq(tabs[i].value.as_str(), value) {
            if tabs[i].disabled {
                return None;
            }
            return Some(string_from(value));
        }
        i = i + 1;
    }
    None
}

/// The value of the tab at `index` when that tab can be selected.
pub open spec fn enabled_value(tabs: Seq<TabItem>, index: int) -> Option<Seq<char>> {
    if 0 <= index < tabs.len() && !tabs[index].disabled {
        Some(tabs[index].value@)
    } else {
        None
    }
}

/// `value` when the first tab with that value can be selected.
pub open spec fn value_choice(tabs: Seq<TabItem>, value: Seq<char>) -> Option<Seq<char>> {
    if exists|i: int|
        0 <= i < tabs.len() && tabs[i].value@ == value && !tabs[i].disabled && forall|j: int|
            0 <= j < i ==> tabs[j].value@ != value {
        Some(value)
    } else {
        None
    }
}

/// An event of the tab list that may select a tab.
pub enum TabEvent {
    /// A click on the tab at this index.
    Click(usize),
    /// A roving-focus key pressed on the tab at this index.
    Key(TabKey, usize),
    /// A choice of this value in the overflow menu.
    Overflow(Seq<char>),
}

/// The value that an event selects, if any.
pub open spec fn event_choice(tabs: Seq<TabItem>, visible: Seq<usize>, event: TabEvent) -> Option<Seq<char>> {
    match event {
        TabEvent::Click(i) => enabled_value(tabs, i as int),
        TabEvent::Key(key, i) => match key_target(key, tabs, visible, i) {
            Some(t) => enabled_value(tabs, t as int),
            None => None,
        },
        TabEvent::Overflow(v) => value_choice(tabs, v),
    }
}

/// The selected value after a choice: a chosen value replaces it, no choice keeps it.
pub open spec fn after_choice(value: Option<Seq<char>>, choice: Option<Seq<char>>) -> Option<Seq<char>> {
    match choice {
        Some(v) => Some(v),
        None => value,
    }
}

/// A run of events, each with the tabs and visible positions at its time:
/// the values reported, one entry per event.
pub open spec fn run_reports(steps: Seq<(Seq<TabItem>, Seq<usize>, TabEvent)>) -> Seq<Option<Seq<char>>> {
    steps.map_values(|st: (Seq<TabItem>, Seq<usize>, TabEvent)| event_choice(st.0, st.1, st.2))
}

/// The selected value after a run of events.
pub open spec fn run_value(value: Option<Seq<char>>, steps: Seq<(Seq<TabItem>, Seq<usize>, TabEvent)>) -> Option<
    Seq<char>,
>
    decreases steps.len(),
{
    if steps.len() == 0 {
        value
    } else {
        let last = steps.last();
        after_choice(run_value(value, steps.drop_last()), event_choice(last.0, last.1, last.2))
    }
}

/// The selection of a tab list whose value is not controlled by the caller.
pub struct TabSelection {
    pub value: Option<String>,
}

/// What a key pressed on a tab does.
pub struct TabKeyOutcome {
    /// Whether the browser's default handling of the key is suppressed.
    pub prevent_default: bool,
    /// The tab to select and focus.
    pub target: Option<usize>,
    /// The value reported as selected.
    pub selected: Option<String>,
}

/// The selection's value, as characters.
pub open spec fn value_view(value: Option<String>) -> Option<Seq<char>> {
    match value {
        Some(s) => Some(s@),
        None => None,
    }
}

impl TabSelection {
    /// A selection holding `value`.
    pub fn new(value: Option<String>) -> (r: Self)
        ensures
            r.value == value,
    {
        TabSelection { value }
    }

    /// Selects the tab at `index` unless it is missing or disabled; gives the
    /// value to report.
    pub fn select_index(&mut self, tabs: &[TabItem], index: usize) -> (r: Option<String>)
        ensures
            value_view(r) == enabled_value(tabs@, index as int),
            value_view(final(self).value) == after_choice(value_view(old(self).value), value_view(r)),
    {
        if index < tabs.len() && !tabs[index].disabled {
            let v = tabs[index].value.clone();
            self.value = Some(tabs[index].value.clone());
            Some(v)
        } else {
            None
        }
    }

    /// A click on the tab at `index`.
    pub fn click(&mut self, tabs: &[TabItem], index: usize) -> (r: Option<String>)
        ensures
            value_view(r) == event_choice(tabs@, Seq::empty(), TabEvent::Click(index)),
            value_view(final(self).value) == after_choice(value_view(old(self).value), value_view(r)),
    {
        self.select_index(tabs, index)
    }

    /// A key pressed on the tab at `index`: the roving-focus keys suppress the
    /// default, and select and focus the tab they reach; other keys do nothing.
    pub fn key_down(&mut self, key: &str, tabs: &[TabItem], visible_indices: &[usize], index: usize) -> (r:
        TabKeyOutcome)
        requires
            visible_indices@.len() < i32::MAX,
        ensures
            ({
                match tab_key_of(key@) {
                    Some(kk) => r.prevent_default && r.target == key_target(kk, tabs@, visible_indices@, index)
                        && value_view(r.selected) == event_choice(
                        tabs@,
                        visible_indices@,
                        TabEvent::Key(kk, index),
                    ),
                    None => !r.prevent_default && r.target is None && r.selected is None,
                }
            }),
            value_view(final(self).value) == after_choice(value_view(old(self).value), value_view(r.selected)),
    {
        let k = tab_key(key);
        match k {
            Some(kk) => {
                let target = tab_key_target(kk, tabs, visible_indices, index);
                let selected = match target {
                    Some(t) => self.select_index(tabs, t),
                    None => None,
                };
                TabKeyOutcome { prevent_default: true, target, selected }
            },
            None => TabKeyOutcome { prevent_default: false, target: None, selected: None },
        }
    }

    /// A choice of `value` in the overflow menu.
    pub fn choose_value(&mut self, tabs: &[TabItem], value: &str) -> (r: Option<String>)
        ensures
            value_view(r) == event_choice(tabs@, Seq::empty(), TabEvent::Overflow(value@)),
            value_view(final(self).value) == after_choice(value_view(old(self).value), value_view(r)),
    {
        let r = tab_choice_by_value(tabs, value);
        proof {
            if r is None {
                if exists|i: int|
                    0 <= i < tabs@.len() && tabs@[i].value@ == value@ && !tabs@[i].disabled && forall|j: int|
                        0 <= j < i ==> tabs@[j].value@ != value@ {
                    let i = choose|i: int|
                        0 <= i < tabs@.len() && tabs@[i].value@ == value@ && !tabs@[i].disabled && forall|
                            j: int,
                        |
                            0 <= j < i ==> tabs@[j].value@ != value@;
                    assert(tabs@[i].value@ == value@);
                }
            }
        }
        match r {
            Some(v) => {
                self.value = Some(string_from(v.as_str()));
                Some(v)
            },
            None => None,
        }
    }
}

/// The tab list only ever selects tabs that can be selected: over any run of
/// clicks, roving-focus keys and overflow-menu choices, each with the tabs of
/// its moment, every reported value is the value of an enabled tab of that
/// moment, and the selected value is the initial one or the last reported one.
pub proof fn lemma_only_enabled_tabs_selected(
    value: Option<Seq<char>>,
    steps: Seq<(Seq<TabItem>, Seq<usize>, TabEvent)>,
)
    ensures
        forall|k: int|
            0 <= k < steps.len() ==> (#[trigger] run_reports(steps)[k] matches Some(v) ==> exists|i: int|
                0 <= i < steps[k].0.len() && !steps[k].0[i].disabled && steps[k].0[i].value@ == v),
        run_value(value, steps) == value || exists|k: int|
            0 <= k < steps.len() && run_reports(steps)[k] == Some(run_value(value, steps).unwrap()),
    decreases steps.len(),
{
    assert forall|k: int|
        0 <= k < steps.len() implies (#[trigger] run_reports(steps)[k] matches Some(v) ==> exists|i: int|
            0 <= i < steps[k].0.len() && !steps[k].0[i].disabled && steps[k].0[i].value@ == v) by {
        let (tabs, visible, event) = steps[k];
        assert(run_reports(steps)[k] == event_choice(tabs, visible, event));
        match event {
            TabEvent::Click(i) => {},
            TabEvent::Key(key, i) => {
                lemma_key_target_selectable(key, tabs, visible, i);
            },
            TabEvent::Overflow(v) => {},
        }
    }
    if steps.len() > 0 {
        let init = steps.drop_last();
        lemma_only_enabled_tabs_selected(value, init);
        let last = steps.last();
        let n = steps.len() - 1;
        assert(run_reports(steps)[n] == event_choice(last.0, last.1, last.2));
        if event_choice(last.0, last.1, last.2) is None {
            if run_value(value, init) != value {
                let k = choose|k: int|
                    0 <= k < init.len() && run_reports(init)[k] == Some(run_value(value, init).unwrap());
                assert(run_reports(steps)[k] == run_reports(init)[k]);
            }
        }
    }
}

/// Which tabs stay inline in the tab list and which move into the overflow menu.
pub struct OverflowLayout {
    pub visible_indices: Vec<usize>,
    pub overflow_indices: Vec<usize>,
}

/// The indices `a`, `a + 1`, ..., `b - 1`.
pub open spec fn span(a: int, b: int) -> Seq<usize> {
    Seq::new((b - a) as nat, |k: int| (a + k) as usize)
}

/// The inline tabs: the first `fit` tabs, and the selected tab after them when
/// it is not among them.
pub open spec fn inline_tabs(fit: int, selected: int) -> Seq<usize> {
    if selected < fit {
        span(0, fit)
    } else {
        span(0, fit).push(selected as usize)
    }
}

/// The tabs in the overflow menu, in order: all others.
pub open spec fn overflow_tabs(len: int, fit: int, selected: int) -> Seq<usize> {
    if selected < fit {
        span(fit, len)
    } else {
        span(fit, selected) + span(selected + 1, len)
    }
}

fn push_span(out: &mut Vec<usize>, a: usize, b: usize)
    requires
        a <= b,
    ensures
        final(out)@ == old(out)@ + span(a as int, b as int),
{
    let mut i = a;
    while i < b
        invariant
            a <= i <= b,
            out@ == old(out)@ + span(a as int, i as int),
        decreases b - i,
    {
        out.push(i);
        i = i + 1;
        proof {
            assert(span(a as int, i as int) =~= span(a as int, i - 1).push((i - 1) as usize));
        }
    }
}

/// Splits `len` tabs into inline and overflow tabs when the first `fit` tabs
/// fit in the width left beside the overflow trigger (`fit` counts the tabs
/// kept after making room for the selected tab). The selected tab is always
/// inline, after the others when it lies beyond them; every other tab is in the
/// overflow menu, in order.
pub fn inline_layout(len: usize, fit: usize, selected: usize) -> (r: OverflowLayout)
    requires
        fit <= len,
        selected < len,
    ensures
        r.visible_indices@ == inline_tabs(fit as int, selected as int),
        r.overflow_indices@ == overflow_tabs(len as int, fit as int, selected as int),
{
    let mut visible: Vec<usize> = Vec::new();
    push_span(&mut visible, 0, fit);
    let mut overflow: Vec<usize> = Vec::new();
    if selected < fit {
        push_span(&mut overflow, fit, len);
        proof {
            assert(visible@ =~= span(0, fit as int));
            assert(overflow@ =~= span(fit as int, len as int));
        }
    } else {
        visible.push(selected);
        push_span(&mut overflow, fit, selected);
        push_span(&mut overflow, selected + 1, len);
        proof {
            assert(visible@ =~= span(0, fit as int).push(selected));
            assert(overflow@ =~= span(fit as int, selected as int) + span(selected + 1, len as int));
        }
    }
    OverflowLayout { visible_indices: visible, overflow_indices: overflow }
}

/// The selected tab is always inline, and every tab is either inline or in the
/// overflow menu, never both.
pub proof fn lemma_selected_stays_inline(len: usize, fit: usize, selected: usize)
    requires
        fit <= len,
        selected < len,
    ensures
        inline_tabs(fit as int, selected as int).contains(selected),
        forall|i: usize|
            i < len ==> (#[trigger] inline_tabs(fit as int, selected as int).contains(i) != overflow_tabs(
                len as int,
                fit as int,
                selected as int,
            ).contains(i)),
{
    let v = inline_tabs(fit as int, selected as int);
    let o = overflow_tabs(len as int, fit as int, selected as int);
    let f = fit as int;
    let s = selected as int;
    if s < f {
        assert(v[s] == selected);
    } else {
        assert(v[v.len() - 1] == selected);
    }
    assert forall|i: usize| i < len implies (#[trigger] v.contains(i) != o.contains(i)) by {
        let ii = i as int;
        if ii < f {
            assert(v[ii] == i);
            if o.contains(i) {
                let k = choose|k: int| 0 <= k < o.len() && o[k] == i;
                if s >= f && k >= s - f {
                    assert(o[k] == (s + 1 + (k - (s - f))) as usize);
                } else {
                    assert(o[k] == (f + k) as usize);
                }
            }
        } else if ii == s {
            if o.contains(i) {
                let k = choose|k: int| 0 <= k < o.len() && o[k] == i;
                if k >= s - f {
                    assert(o[k] == (s + 1 + (k - (s - f))) as usize);
                } else {
                    assert(o[k] == (f + k) as usize);
                }
            }
        } else {
            if s < f {
                assert(o[ii - f] == i);
            } else if ii < s {
                assert(o[ii - f] == i);
            } else {
                assert(o[(s - f) + (ii - s - 1)] == i);
            }
            if v.contains(i) {
                let k = choose|k: int| 0 <= k < v.len() && v[k] == i;
                if k < f {
                    assert(v[k] == k as usize);
                }
            }
        }
    }
}

} // verus!
