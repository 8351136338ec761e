//! Behaviour of the searchable select: option filtering, label lookup,
//! keyboard navigation over enabled options and multi-value toggling.
use vstd::prelude::*;

use crate::icon::{clone_icon, IcnName};
use crate::roving::{
    first_enabled, first_enabled_position, move_active, moved_active, next_enabled, resolve_active,
    resolved_active, scan_enabled, scan_start,
};
use crate::text::{
    chars_of, chars_occur, lowercase, occurs_in, push_class_if, string_from, string_of_range,
    to_lowercase, trim, trim_range,
};

verus! {

/// One entry of the select's option list.
#[derive(Debug)]
pub struct SelectOption {
    pub value: String,
    pub label: String,
    pub icon: Option<IcnName>,
    pub disabled: bool,
}

impl Clone for SelectOption {
    fn clone(&self) -> (r: Self)
        ensures
            r == *self,
    {
        SelectOption {
            value: self.value.clone(),
            label: self.label.clone(),
            icon: clone_icon(&self.icon),
            disabled: self.disabled,
        }
    }
}

/// A selected value with the label shown on its token.
#[derive(Debug)]
pub struct SelectedTagData {
    pub value: String,
    pub label: String,
}

/// The disabled flags of the options, in order.
pub open spec fn option_flags(options: Seq<SelectOption>) -> Seq<bool> {
    options.map_values(|o: SelectOption| o.disabled)
}

fn disabled_flags(options: &[SelectOption]) -> (r: Vec<bool>)
    ensures
        r@ == option_flags(options@),
{
    let mut r: Vec<bool> = Vec::new();
    let mut i: usize = 0;
    while i < options.len()
        invariant
            0 <= i <= options@.len(),
            r@ == option_flags(options@.take(i as int)),
        decreases options.len() - i,
    {
        r.push(options[i].disabled);
        proof {
            assert(option_flags(options@.take(i + 1)) =~= option_flags(options@.take(i as int)).push(
                options@[i as int].disabled,
            ));
        }
        i = i + 1;
    }
    proof {
        assert(options@.take(options@.len() as int) =~= options@);
    }
    r
}

/// The first selectable option.
pub fn first_enabled_index(options: &[SelectOption]) -> (r: Option<usize>)
    ensures
        match r {
            Some(i) => first_enabled(option_flags(options@)) == Some(i as int),
            None => first_enabled(option_flags(options@)) is None,
        },
{
    let flags = disabled_flags(options);
    first_enabled_position(&flags)
}

/// Moves to the next enabled option in `direction`, wrapping around the list edges.
pub fn next_enabled_index(options: &[SelectOption], current: Option<usize>, direction: i32) -> (r:
    Option<usize>)
    requires
        options@.len() <= i32::MAX,
        i32::MIN <= scan_start(current, direction, options@.len()) + direction <= i32::MAX,
        options@.len() - 1 + direction <= i32::MAX,
    ensures
        match r {
            Some(i) => scan_enabled(
                option_flags(options@),
                scan_start(current, direction, options@.len()),
                direction as int,
                options@.len(),
            ) == Some(i as int),
            None => scan_enabled(
                option_flags(options@),
                scan_start(current, direction, options@.len()),
                direction as int,
                options@.len(),
            ) is None,
        },
{
    let flags = disabled_flags(options);
    next_enabled(&flags, current, direction)
}

/// Keeps the active option while it is still enabled, otherwise picks the first enabled one.
pub fn sync_active_index(options: &[SelectOption], current: Option<usize>) -> (r: Option<usize>)
    ensures
        match r {
            Some(i) => resolved_active(option_flags(options@), current) == Some(i as int),
            None => resolved_active(option_flags(options@), current) is None,
        },
{
    let flags = disabled_flags(options);
    resolve_active(&flags, current)
}

/// The option an arrow key moves to, falling back to the first enabled option.
pub fn move_active_index(options: &[SelectOption], current: Option<usize>, direction: i32) -> (r:
    Option<usize>)
    requires
        options@.len() <= i32::MAX,
        i32::MIN <= scan_start(current, direction, options@.len()) + direction <= i32::MAX,
        options@.len() - 1 + direction <= i32::MAX,
    ensures
        match r {
            Some(i) => moved_active(option_flags(options@), current, direction) == Some(i as int),
            None => moved_active(option_flags(options@), current, direction) is None,
        },
{
    let flags = disabled_flags(options);
    move_active(&flags, current, direction)
}

/// The first option whose value equals `value`.
pub open spec fn first_with_value(options: Seq<SelectOption>, value: Seq<char>) -> Option<int> {
    if exists|i: int| 0 <= i < options.len() && options[i].value@ == value {
        Some(
            choose|i: int|
                0 <= i < options.len() && options[i].value@ == value && forall|j: int|
                    0 <= j < i ==> options[j].value@ != value,
        )
    } else {
        None
    }
}

proof fn lemma_first_with_value(options: Seq<SelectOption>, value: Seq<char>, k: int)
    requires
        0 <= k < options.len(),
        options[k].value@ == value,
        forall|j: int| 0 <= j < k ==> options[j].value@ != value,
    ensures
        first_with_value(options, value) == Some(k),
{
    let w = choose|i: int|
        0 <= i < options.len() && options[i].value@ == value && forall|j: int|
            0 <= j < i ==> options[j].value@ != value;
    assert(0 <= w < options.len() && options[w].value@ == value);
    if w < k {
        assert(options[w].value@ != value);
    }
    if k < w {
        assert(options[k].value@ != value);
    }
}

fn find_value(options: &[SelectOption], value: &Vec<char>) -> (r: Option<usize>)
    ensures
        match r {
            Some(i) => i < options@.len() && first_with_value(options@, value@) == Some(i as int),
            None => first_with_value(options@, value@) is None,
        },
{
    let mut i: usize = 0;
    while i < options.len()
        invariant
            0 <= i <= options@.len(),
            forall|j: int| 0 <= j < i ==> options@[j].value@ != value@,
        decreases options.len() - i,
    {
        let candidate = chars_of(options[i].value.as_str());
        if crate::text::chars_eq(&candidate, value) {
            proof {
                lemma_first_with_value(options@, value@, i as int);
            }
            return Some(i);
        }
        i = i + 1;
    }
    None
}

/// The label of the option holding the selected value; empty when there is none.
pub open spec fn option_label(options: Seq<SelectOption>, value: Option<Seq<char>>) -> Seq<char> {
    match value {
        Some(v) => match first_with_value(options, v) {
            Some(i) => options[i].label@,
            None => Seq::<char>::empty(),
        },
        None => Seq::<char>::empty(),
    }
}

/// Resolves the display label for a selected single value.
pub fn find_option_label(options: &[SelectOption], value: Option<&str>) -> (r: String)
    ensures
        r@ == option_label(
            options@,
            match value {
                Some(v) => Some(v@),
                None => None,
            },
        ),
{
    match value {
        Some(v) => {
            let needle = chars_of(v);
            match find_value(options, &needle) {
                Some(i) => options[i].label.clone(),
                None => String::new(),
            }
        },
        None => String::new(),
    }
}

/// Whether an option is kept for the lower-cased, trimmed query `needle`.
pub open spec fn option_matches(option: SelectOption, needle: Seq<char>) -> bool {
    needle.len() == 0 || occurs_in(lowercase(option.label@), needle) || occurs_in(
        lowercase(option.value@),
        needle,
    )
}

/// The options kept for a free-text query, in their given order.
pub open spec fn filtered_options(options: Seq<SelectOption>, query: Seq<char>) -> Seq<SelectOption> {
    let needle = lowercase(trim(query));
    options.filter(|o: SelectOption| option_matches(o, needle))
}

fn matches_needle(option: &SelectOption, needle: &Vec<char>) -> (b: bool)
    ensures
        b == option_matches(*option, needle@),
{
    if needle.len() == 0 {
        return true;
    }
    let label = chars_of(to_lowercase(option.label.as_str()).as_str());
    if chars_occur(&label, needle) {
        return true;
    }
    let value = chars_of(to_lowercase(option.value.as_str()).as_str());
    chars_occur(&value, needle)
}

/// Filtering keeps exactly the options that the query finds: with the query
/// trimmed and lower-cased, an option is kept when that query is empty or
/// occurs in its lower-cased label or in its lower-cased value; every kept
/// option comes from the input, in input order.
pub proof fn lemma_filter_keeps_label_or_value_matches(options: Seq<SelectOption>, query: Seq<char>)
    ensures
        ({
            let needle = lowercase(trim(query));
            let kept = filtered_options(options, query);
            &&& forall|i: int|
                0 <= i < options.len() && (needle.len() == 0 || occurs_in(lowercase((#[trigger] options[i]).label@), needle)
                    || occurs_in(lowercase(options[i].value@), needle)) ==> kept.contains(options[i])
            &&& forall|k: int|
                0 <= k < kept.len() ==> options.contains(#[trigger] kept[k]) && (needle.len() == 0 || occurs_in(
                    lowercase(kept[k].label@),
                    needle,
                ) || occurs_in(lowercase(kept[k].value@), needle))
            &&& kept.len() <= options.len()
        }),
{
    let needle = lowercase(trim(query));
    let pred = |o: SelectOption| option_matches(o, needle);
    let kept = options.filter(pred);
    options.lemma_filter_len(pred);
    assert forall|k: int| 0 <= k < kept.len() implies options.contains(#[trigger] kept[k]) && (needle.len() == 0
        || occurs_in(lowercase(kept[k].label@), needle) || occurs_in(lowercase(kept[k].value@), needle)) by {
        options.lemma_filter_pred(pred, k);
        assert(kept.contains(kept[k]));
        options.lemma_filter_contains_rev(pred, kept[k]);
    }
    assert forall|i: int|
        0 <= i < options.len() && (needle.len() == 0 || occurs_in(lowercase((#[trigger] options[i]).label@), needle)
            || occurs_in(lowercase(options[i].value@), needle)) implies options.filter(pred).contains(options[i]) by {
        options.lemma_filter_contains(pred, i);
    }
}

/// Filters options by label or value against the free-text query, ignoring case.
pub fn filter_options_by_query(options: &[SelectOption], query: &str) -> (r: Vec<SelectOption>)
    ensures
        r@ == filtered_options(options@, query@),
        trim(query@).len() == 0 ==> r@ == options@,
{
    let q = chars_of(query);
    let (a, b) = trim_range(&q, 0, q.len(), false);
    proof {
        assert(q@.subrange(0, q@.len() as int) =~= query@);
    }
    let trimmed = string_of_range(&q, a, b);
    let needle = chars_of(to_lowercase(trimmed.as_str()).as_str());
    let ghost pred = |o: SelectOption| option_matches(o, needle@);
    let mut r: Vec<SelectOption> = Vec::new();
    let mut i: usize = 0;
    while i < options.len()
        invariant
            0 <= i <= options@.len(),
            pred == (|o: SelectOption| option_matches(o, needle@)),
            r@ == options@.take(i as int).filter(pred),
            trim(query@).len() == 0 ==> needle@.len() == 0,
            needle@.len() == 0 ==> r@ == options@.take(i as int),
        decreases options.len() - i,
    {
        proof {
            reveal_with_fuel(Seq::<_>::filter, 1);
            assert(options@.take(i + 1).drop_last() =~= options@.take(i as int));
        }
        if matches_needle(&options[i], &needle) {
            r.push(options[i].clone());
        }
        proof {
            assert(options@.take(i + 1) =~= options@.take(i as int).push(options@[i as int]));
        }
        i = i + 1;
    }
    proof {
        assert(options@.take(options@.len() as int) =~= options@);
    }
    r
}

/// The tokens of a multi-select: for each selected value that names an option,
/// that option's value and label, in the order of the selected values.
pub open spec fn selected_tags(options: Seq<SelectOption>, selected: Seq<Seq<char>>) -> Seq<
    (Seq<char>, Seq<char>),
>
    decreases selected.len(),
{
    if selected.len() == 0 {
        Seq::empty()
    } else {
        let pre = selected_tags(options, selected.drop_last());
        match first_with_value(options, selected.last()) {
            Some(i) => pre.push((options[i].value@, options[i].label@)),
            None => pre,
        }
    }
}

pub open spec fn tag_views(tags: Seq<SelectedTagData>) -> Seq<(Seq<char>, Seq<char>)> {
    tags.map_values(|t: SelectedTagData| (t.value@, t.label@))
}

pub open spec fn string_views(values: Seq<String>) -> Seq<Seq<char>> {
    values.map_values(|s: String| s@)
}

/// The tokens of a multi-select follow the selected values in order: each
/// selected value that some option holds gives one token with the value and
/// label of the first option holding it, and a value that no option holds gives
/// none.
pub proof fn lemma_tags_follow_selection(options: Seq<SelectOption>, selected: Seq<Seq<char>>)
    ensures
        selected_tags(options, selected).len() <= selected.len(),
        selected.len() > 0 ==> ({
            let v = selected.last();
            let pre = selected_tags(options, selected.drop_last());
            let tags = selected_tags(options, selected);
            if exists|i: int| 0 <= i < options.len() && options[i].value@ == v {
                tags.len() == pre.len() + 1 && tags.drop_last() == pre && exists|i: int|
                    0 <= i < options.len() && options[i].value@ == v && (forall|j: int|
                        0 <= j < i ==> options[j].value@ != v) && tags.last() == (v, options[i].label@)
            } else {
                tags == pre
            }
        }),
    decreases selected.len(),
{
    if selected.len() > 0 {
        lemma_tags_follow_selection(options, selected.drop_last());
        let v = selected.last();
        if exists|i: int| 0 <= i < options.len() && options[i].value@ == v {
            let k = choose|i: int| 0 <= i < options.len() && options[i].value@ == v;
            lemma_first_holder(options, v, k);
            let tags = selected_tags(options, selected);
            let pre = selected_tags(options, selected.drop_last());
            assert(tags.drop_last() =~= pre);
            let w = first_with_value(options, v).unwrap();
            assert(tags.last() == (v, options[w].label@));
        }
    }
}

proof fn lemma_first_holder(options: Seq<SelectOption>, value: Seq<char>, k: int)
    requires
        0 <= k < options.len(),
        options[k].value@ == value,
    ensures
        first_with_value(options, value) matches Some(i) && 0 <= i < options.len() && options[i].value@ == value
            && forall|j: int| 0 <= j < i ==> options[j].value@ != value,
    decreases k,
{
    if exists|j: int| 0 <= j < k && options[j].value@ == value {
        let j = choose|j: int| 0 <= j < k && options[j].value@ == value;
        lemma_first_holder(options, value, j);
    } else {
        lemma_first_with_value(options, value, k);
    }
}

/// The label shown for a single value is the label of the first option
/// holding that value, and empty when no option holds it or nothing is selected.
pub proof fn lemma_label_of_first_holder(options: Seq<SelectOption>, value: Option<Seq<char>>)
    ensures
        value matches Some(v) && (exists|i: int| 0 <= i < options.len() && options[i].value@ == v) ==> exists|i: int|
            0 <= i < options.len() && options[i].value@ == value.unwrap() && (forall|j: int|
                0 <= j < i ==> options[j].value@ != value.unwrap()) && option_label(options, value) == options[i].label@,
        !(value matches Some(v) && exists|i: int| 0 <= i < options.len() && options[i].value@ == v) ==> option_label(
            options,
            value,
        ).len() == 0,
{
    if let Some(v) = value {
        if exists|i: int| 0 <= i < options.len() && options[i].value@ == v {
            let k = choose|i: int| 0 <= i < options.len() && options[i].value@ == v;
            lemma_first_holder(options, v, k);
        }
    }
}

/// Maps selected values back to their labels for multi-select token rendering.
pub fn collect_selected_tags(options: &[SelectOption], selected_values: &[String]) -> (r: Vec<
    SelectedTagData,
>)
    ensures
        tag_views(r@) == selected_tags(options@, string_views(selected_values@)),
{
    let mut r: Vec<SelectedTagData> = Vec::new();
    let mut i: usize = 0;
    while i < selected_values.len()
        invariant
            0 <= i <= selected_values@.len(),
            tag_views(r@) == selected_tags(options@, string_views(selected_values@.take(i as int))),
        decreases selected_values.len() - i,
    {
        let needle = chars_of(selected_values[i].as_str());
        proof {
            assert(string_views(selected_values@.take(i + 1)).drop_last() =~= string_views(
                selected_values@.take(i as int),
            ));
            assert(string_views(selected_values@.take(i + 1)).last() == needle@);
        }
        match find_value(options, &needle) {
            Some(j) => {
                let ghost before = r@;
                r.push(
                    SelectedTagData {
                        value: options[j].value.clone(),
                        label: options[j].label.clone(),
                    },
                );
                proof {
                    assert(tag_views(r@) =~= tag_views(before).push(
                        (options@[j as int].value@, options@[j as int].label@),
                    ));
                }
            },
            None => {},
        }
        i = i + 1;
    }
    proof {
        assert(selected_values@.take(selected_values@.len() as int) =~= selected_values@);
    }
    r
}

/// The selected values after choosing `value` in a multi-select: removed when
/// already selected (its first occurrence), appended otherwise.
pub open spec fn toggled(values: Seq<Seq<char>>, value: Seq<char>) -> Seq<Seq<char>> {
    if values.contains(value) {
        values.remove(
            choose|i: int|
                0 <= i < values.len() && values[i] == value && forall|j: int|
                    0 <= j < i ==> values[j] != value,
        )
    } else {
        values.push(value)
    }
}

/// Toggles `value` in the selected values of a multi-select.
pub fn toggle_selected_value(values: Vec<String>, value: String) -> (r: Vec<String>)
    ensures
        string_views(r@) == toggled(string_views(values@), value@),
{
    let mut out = values;
    let ghost orig = out@;
    let mut i: usize = 0;
    while i < out.len()
        invariant
            out@ == orig,
            orig == values@,
            0 <= i <= out@.len(),
            forall|j: int| 0 <= j < i ==> out@[j]@ != value@,
        decreases out.len() - i,
    {
        if out[i] == value {
            out.remove(i);
            proof {
                let vs = string_views(orig);
                let w = choose|k: int|
                    0 <= k < vs.len() && vs[k] == value@ && forall|j: int|
                        0 <= j < k ==> vs[j] != value@;
                assert(vs[i as int] == value@);
                assert(vs.contains(value@));
                assert(0 <= w < vs.len() && vs[w] == value@);
                if w < i {
                    assert(vs[w] != value@);
                }
                if i < w {
                    assert(vs[i as int] != value@);
                }
                assert(w == i);
                assert(string_views(out@) =~= string_views(orig).remove(i as int));
            }
            return out;
        }
        i = i + 1;
    }
    proof {
        assert forall|j: int| 0 <= j < string_views(orig).len() implies string_views(orig)[j] != value@ by {}
    }
    out.push(value);
    proof {
        assert(string_views(out@) =~= string_views(orig).push(value@));
    }
    out
}

/// The class list of one option row.
pub fn option_class_name(selected: bool, active: bool, disabled: bool) -> (r: String)
    ensures
        r@ == "birei-select__option"@ + (if selected {
            " birei-select__option--selected"@
        } else {
            Seq::<char>::empty()
        }) + (if active {
            " birei-select__option--active"@
        } else {
            Seq::<char>::empty()
        }) + (if disabled {
            " birei-select__option--disabled"@
        } else {
            Seq::<char>::empty()
        }),
{
    let mut classes = string_from("birei-select__option");
    push_suffix_if(&mut classes, selected, " birei-select__option--selected");
    push_suffix_if(&mut classes, active, " birei-select__option--active");
    push_suffix_if(&mut classes, disabled, " birei-select__option--disabled");
    classes
}

/// Appends `t` when `on` holds.
pub fn push_suffix_if(s: &mut String, on: bool, t: &str)
    ensures
        final(s)@ == old(s)@ + if on {
            t@
        } else {
            Seq::<char>::empty()
        },
{
    let ghost start = s@;
    if on {
        crate::text::push_text(s, t);
    } else {
        proof {
            assert(s@ =~= start + Seq::<char>::empty());
        }
    }
}

/// The scroll offset that brings the active option into the list's view;
/// `None` when it is already visible.
pub open spec fn menu_scroll(option_top: int, option_height: int, scroll_top: int, client_height: int) -> Option<
    int,
> {
    if option_top < scroll_top {
        Some(option_top)
    } else if option_top + option_height > scroll_top + client_height {
        Some(option_top + option_height - client_height)
    } else {
        None
    }
}

/// The option list scrolls only when the active option is not fully in view,
/// and then as little as needed: to the option's top when it is above the
/// view, else so that its bottom meets the view's bottom. Afterwards an option
/// that fits the view is fully in view.
pub proof fn lemma_menu_scroll_shows_option(option_top: int, option_height: int, scroll_top: int, client_height: int)
    requires
        option_height >= 0,
    ensures
        menu_scroll(option_top, option_height, scroll_top, client_height) is None <==> (scroll_top <= option_top
            && option_top + option_height <= scroll_top + client_height),
        menu_scroll(option_top, option_height, scroll_top, client_height) matches Some(t) ==> (t == option_top
            || t + client_height == option_top + option_height),
        option_height <= client_height ==> (menu_scroll(option_top, option_height, scroll_top, client_height) matches Some(
            t,
        ) ==> t <= option_top && option_top + option_height <= t + client_height),
{
}

/// Decides how the option list scrolls to keep the active option visible.
pub fn menu_scroll_top(option_top: i32, option_height: i32, scroll_top: i32, client_height: i32) -> (r:
    Option<i32>)
    requires
        i32::MIN <= option_top + option_height <= i32::MAX,
        i32::MIN <= scroll_top + client_height <= i32::MAX,
        i32::MIN <= option_top + option_height - client_height <= i32::MAX,
    ensures
        match r {
            Some(t) => menu_scroll(
                option_top as int,
                option_height as int,
                scroll_top as int,
                client_height as int,
            ) == Some(t as int),
            None => menu_scroll(
                option_top as int,
                option_height as int,
                scroll_top as int,
                client_height as int,
            ) is None,
        },
{
    let option_bottom = option_top + option_height;
    let view_bottom = scroll_top + client_height;
    if option_top < scroll_top {
        Some(option_top)
    } else if option_bottom > view_bottom {
        Some(option_bottom - client_height)
    } else {
        None
    }
}

/// `t` when `on` holds, nothing otherwise.
pub open spec fn flag_class(on: bool, t: Seq<char>) -> Seq<char> {
    if on {
        t
    } else {
        Seq::<char>::empty()
    }
}

/// The class list of the select root; `size_class` is the class of the
/// control size.
pub fn select_class_name(
    size_class: &str,
    multiple: bool,
    disabled: bool,
    invalid: bool,
    nullable: bool,
    class: Option<&str>,
) -> (r: String)
    ensures
        r@ == "birei-select "@ + size_class@ + flag_class(multiple, " birei-select--multiple"@)
            + flag_class(disabled, " birei-select--disabled"@) + flag_class(
            invalid,
            " birei-select--invalid"@,
        ) + flag_class(nullable, " birei-select--nullable"@) + crate::text::extra_class(class),
{
    let mut s = crate::text::string_from("birei-select ");
    crate::text::push_text(&mut s, size_class);
    push_suffix_if(&mut s, multiple, " birei-select--multiple");
    push_suffix_if(&mut s, disabled, " birei-select--disabled");
    push_suffix_if(&mut s, invalid, " birei-select--invalid");
    push_suffix_if(&mut s, nullable, " birei-select--nullable");
    crate::text::push_extra_class(&mut s, class);
    s
}

/// The values of the hidden form inputs of a named select: every selected
/// value of a multiple select, else the single value (empty when none); an
/// unnamed select has none.
pub fn hidden_input_values(
    name: Option<&str>,
    multiple: bool,
    selected_values: Vec<String>,
    selected_value: Option<String>,
) -> (r: Vec<String>)
    ensures
        name is None ==> r@.len() == 0,
        name is Some && multiple ==> r@ == selected_values@,
        name is Some && !multiple ==> r@.len() == 1 && r@[0]@ == match selected_value {
            Some(v) => v@,
            None => Seq::<char>::empty(),
        },
{
    match name {
        None => Vec::new(),
        Some(_) => if multiple {
            selected_values
        } else {
            let mut r: Vec<String> = Vec::new();
            match selected_value {
                Some(v) => r.push(v),
                None => r.push(String::new()),
            }
            r
        },
    }
}

/// Choosing a value that is not selected and then choosing it again gives
/// back the selection.
pub proof fn lemma_toggle_twice(values: Seq<Seq<char>>, value: Seq<char>)
    requires
        !values.contains(value),
    ensures
        toggled(toggled(values, value), value) == values,
{
    let once = values.push(value);
    assert(once[values.len() as int] == value);
    assert(once.contains(value));
    let w = choose|i: int|
        0 <= i < once.len() && once[i] == value && forall|j: int| 0 <= j < i ==> once[j] != value;
    assert(forall|j: int| 0 <= j < values.len() ==> once[j] == values[j]);
    assert(0 <= w < once.len() && once[w] == value);
    if w < values.len() {
        assert(values[w] == value);
        assert(values.contains(value));
    }
    assert(w == values.len());
    assert(once.remove(w) =~= values);
}

/// The select's own interaction state: its selection when the caller does not
/// control it, the typed query, whether the menu is open and the active option
/// (an index into the options that the query keeps).
pub struct SelectState {
    pub value: Option<String>,
    pub values: Vec<String>,
    pub query: String,
    pub open: bool,
    pub active: Option<usize>,
}

/// A selection to report to the caller.
pub enum SelectChange {
    /// The new value of a single select.
    Value(Option<String>),
    /// The new values of a multiple select.
    Values(Vec<String>),
}

impl SelectState {
    /// A closed select with an empty query and the given initial selection.
    pub fn new(value: Option<String>, values: Vec<String>) -> (r: Self)
        ensures
            r.value == value,
            r.values == values,
            r.query@.len() == 0,
            !r.open,
            r.active is None,
    {
        SelectState { value, values, query: String::new(), open: false, active: None }
    }

    /// The text shown in the input: the query of a multiple select; for a
    /// single select the selected option's label while the menu is closed and
    /// nothing is typed, else the query.
    pub fn display_value(&self, multiple: bool, selected_label: &str) -> (r: String)
        ensures
            r@ == if !multiple && self.query@.len() == 0 && !self.open {
                selected_label@
            } else {
                self.query@
            },
    {
        if !multiple && self.query.as_str().unicode_len() == 0 && !self.open {
            string_from(selected_label)
        } else {
            string_from(self.query.as_str())
        }
    }

    /// Records a single select's new value and closes the menu.
    pub fn commit_single(&mut self, next: Option<String>)
        ensures
            final(self).value == next,
            final(self).values == old(self).values,
            final(self).query@.len() == 0,
            !final(self).open,
            final(self).active is None,
    {
        self.value = next;
        self.query = String::new();
        self.open = false;
        self.active = None;
    }

    /// Records a multiple select's new values, keeps the menu open with the
    /// query cleared, and keeps the active option on an enabled one.
    pub fn commit_multiple(&mut self, next: Vec<String>, options: &[SelectOption])
        ensures
            final(self).values == next,
            final(self).value == old(self).value,
            final(self).query@.len() == 0,
            final(self).open,
            match final(self).active {
                Some(i) => resolved_active(option_flags(options@), old(self).active) == Some(i as int),
                None => resolved_active(option_flags(options@), old(self).active) is None,
            },
    {
        self.values = next;
        self.query = String::new();
        self.open = true;
        let all = filter_options_by_query(options, "");
        proof {
            reveal_strlit("");
            assert(trim(""@).len() == 0);
        }
        self.active = sync_active_index(&all, self.active);
    }

    /// Opens the menu unless the select is disabled, keeping the active option
    /// on an enabled option that the query keeps.
    pub fn open_menu(&mut self, disabled: bool, options: &[SelectOption])
        ensures
            disabled ==> *final(self) == *old(self),
            !disabled ==> final(self).open && final(self).value == old(self).value
                && final(self).values == old(self).values && final(self).query == old(self).query
                && match final(self).active {
                Some(i) => resolved_active(
                    option_flags(filtered_options(options@, old(self).query@)),
                    old(self).active,
                ) == Some(i as int),
                None => resolved_active(
                    option_flags(filtered_options(options@, old(self).query@)),
                    old(self).active,
                ) is None,
            },
    {
        if disabled {
            return;
        }
        self.open = true;
        let filtered = filter_options_by_query(options, self.query.as_str());
        self.active = sync_active_index(&filtered, self.active);
    }

    /// Moves the active option one step (`direction` 1 or -1) over the enabled
    /// options that the query keeps, wrapping around; none when no option is kept.
    pub fn move_active(&mut self, options: &[SelectOption], direction: i32)
        requires
            direction == 1 || direction == -1,
            options@.len() < i32::MAX,
            old(self).active matches Some(a) ==> a < i32::MAX,
        ensures
            final(self).value == old(self).value,
            final(self).values == old(self).values,
            final(self).query == old(self).query,
            final(self).open == old(self).open,
            match final(self).active {
                Some(i) => moved_active(
                    option_flags(filtered_options(options@, old(self).query@)),
                    old(self).active,
                    direction,
                ) == Some(i as int),
                None => moved_active(
                    option_flags(filtered_options(options@, old(self).query@)),
                    old(self).active,
                    direction,
                ) is None,
            },
    {
        let filtered = filter_options_by_query(options, self.query.as_str());
        proof {
            lemma_filter_len(options@, old(self).query@);
        }
        self.active = move_active_index(&filtered, self.active, direction);
    }

    /// Chooses the active option (Enter or a click): a single select takes its
    /// value and closes; a multiple select toggles it in `selected_values` and
    /// stays open. Nothing happens without an active, enabled option.
    pub fn choose_active(
        &mut self,
        multiple: bool,
        options: &[SelectOption],
        selected_values: Vec<String>,
    ) -> (r: Option<SelectChange>)
        ensures
            ({
                let filtered = filtered_options(options@, old(self).query@);
                match old(self).active {
                    Some(i) if i < filtered.len() && !filtered[i as int].disabled => {
                        let chosen = filtered[i as int].value;
                        if multiple {
                            (r matches Some(SelectChange::Values(v)) && string_views(v@) == toggled(
                                string_views(selected_values@),
                                chosen@,
                            ) && string_views(final(self).values@) == string_views(v@)
                                && final(self).open && final(self).query@.len() == 0)
                        } else {
                            (r matches Some(SelectChange::Value(v)) && v == Some(chosen)
                                && final(self).value == v && !final(self).open
                                && final(self).query@.len() == 0 && final(self).active is None)
                        }
                    },
                    _ => r is None && *final(self) == *old(self),
                }
            }),
    {
        let filtered = filter_options_by_query(options, self.query.as_str());
        let index = match self.active {
            Some(i) => i,
            None => return None,
        };
        if index >= filtered.len() || filtered[index].disabled {
            return None;
        }
        let chosen = filtered[index].value.clone();
        if multiple {
            let next = toggle_selected_value(selected_values, chosen);
            let reported = clone_values(&next);
            self.commit_multiple(next, options);
            Some(SelectChange::Values(reported))
        } else {
            let reported = Some(chosen.clone());
            self.commit_single(Some(chosen));
            Some(SelectChange::Value(reported))
        }
    }

    /// Clears a nullable, enabled select: no value, or no values with the menu
    /// kept open.
    pub fn clear(&mut self, multiple: bool, nullable: bool, disabled: bool, options: &[SelectOption]) -> (r:
        Option<SelectChange>)
        ensures
            !nullable || disabled ==> r is None && *final(self) == *old(self),
            nullable && !disabled && multiple ==> (r matches Some(SelectChange::Values(v)) && v@.len()
                == 0 && final(self).values@.len() == 0 && final(self).open),
            nullable && !disabled && !multiple ==> (r matches Some(SelectChange::Value(v)) && v is None
                && final(self).value is None && !final(self).open),
    {
        if !nullable || disabled {
            return None;
        }
        if multiple {
            self.commit_multiple(Vec::new(), options);
            Some(SelectChange::Values(Vec::new()))
        } else {
            self.commit_single(None);
            Some(SelectChange::Value(None))
        }
    }
}

/// What a key pressed in the select's input does besides changing its state.
pub struct SelectKeyOutcome {
    /// Whether the browser's default handling of the key is suppressed.
    pub prevent_default: bool,
    /// The selection to report, when the key chose an option.
    pub change: Option<SelectChange>,
}

impl SelectState {
    /// Focusing the input opens the menu of a multiple select.
    pub fn focus(&mut self, multiple: bool, disabled: bool, options: &[SelectOption])
        ensures
            !multiple || disabled ==> *final(self) == *old(self),
            multiple && !disabled ==> final(self).open && final(self).value == old(self).value
                && final(self).values == old(self).values && final(self).query == old(self).query
                && match final(self).active {
                Some(i) => resolved_active(
                    option_flags(filtered_options(options@, old(self).query@)),
                    old(self).active,
                ) == Some(i as int),
                None => resolved_active(
                    option_flags(filtered_options(options@, old(self).query@)),
                    old(self).active,
                ) is None,
            },
    {
        if multiple {
            self.open_menu(disabled, options);
        }
    }

    /// Leaving the input closes the menu and drops the typed query.
    pub fn blur(&mut self)
        ensures
            !final(self).open,
            final(self).query@.len() == 0,
            final(self).value == old(self).value,
            final(self).values == old(self).values,
            final(self).active == old(self).active,
    {
        self.open = false;
        self.query = String::new();
    }

    /// Typing replaces the query, opens the menu unless the select is disabled,
    /// and keeps the active option on an enabled option that the new query keeps.
    pub fn input(&mut self, text: String, disabled: bool, options: &[SelectOption])
        ensures
            final(self).query == text,
            final(self).open == (old(self).open || !disabled),
            final(self).value == old(self).value,
            final(self).values == old(self).values,
            match final(self).active {
                Some(i) => resolved_active(option_flags(filtered_options(options@, text@)), old(self).active)
                    == Some(i as int),
                None => resolved_active(option_flags(filtered_options(options@, text@)), old(self).active)
                    is None,
            },
    {
        self.query = text;
        if !disabled {
            self.open = true;
        }
        let filtered = filter_options_by_query(options, self.query.as_str());
        self.active = sync_active_index(&filtered, self.active);
    }

    /// Handles a key pressed in the input: the arrows open a closed menu or
    /// move the active option; Enter chooses the active option of an open menu;
    /// Escape closes an open menu and drops the query. Other keys, and Enter or
    /// Escape on a closed menu, do nothing.
    pub fn key_down(
        &mut self,
        key: &str,
        multiple: bool,
        disabled: bool,
        options: &[SelectOption],
        selected_values: Vec<String>,
    ) -> (r: SelectKeyOutcome)
        requires
            options@.len() < i32::MAX,
            old(self).active matches Some(a) ==> a < i32::MAX,
        ensures
            ({
                let arrow = key@ == "ArrowDown"@ || key@ == "ArrowUp"@;
                let direction: i32 = if key@ == "ArrowDown"@ {
                    1i32
                } else {
                    -1i32
                };
                let filtered = filtered_options(options@, old(self).query@);
                if arrow && !old(self).open {
                    r.prevent_default && r.change is None && (disabled ==> *final(self) == *old(self)) && (
                    !disabled ==> final(self).open && final(self).query == old(self).query
                        && match final(self).active {
                        Some(i) => resolved_active(option_flags(filtered), old(self).active) == Some(i as int),
                        None => resolved_active(option_flags(filtered), old(self).active) is None,
                    })
                } else if arrow {
                    r.prevent_default && r.change is None && final(self).open && final(self).query
                        == old(self).query && final(self).value == old(self).value && final(self).values
                        == old(self).values && match final(self).active {
                        Some(i) => moved_active(option_flags(filtered), old(self).active, direction) == Some(
                            i as int,
                        ),
                        None => moved_active(option_flags(filtered), old(self).active, direction) is None,
                    }
                } else if key@ == "Enter"@ && old(self).open {
                    r.prevent_default && match old(self).active {
                        Some(i) if i < filtered.len() && !filtered[i as int].disabled => {
                            let chosen = filtered[i as int].value;
                            if multiple {
                                (r.change matches Some(SelectChange::Values(v)) && string_views(v@) == toggled(
                                    string_views(selected_values@),
                                    chosen@,
                                ) && string_views(final(self).values@) == string_views(v@)
                                    && final(self).open && final(self).query@.len() == 0)
                            } else {
                                (r.change matches Some(SelectChange::Value(v)) && v == Some(chosen)
                                    && final(self).value == v && !final(self).open
                                    && final(self).query@.len() == 0 && final(self).active is None)
                            }
                        },
                        _ => r.change is None && *final(self) == *old(self),
                    }
                } else if key@ == "Escape"@ && old(self).open {
                    r.prevent_default && r.change is None && !final(self).open && final(self).active is None
                        && final(self).query@.len() == 0 && final(self).value == old(self).value
                        && final(self).values == old(self).values
                } else {
                    !r.prevent_default && r.change is None && *final(self) == *old(self)
                }
            }),
    {
        let down = crate::text::text_eq(key, "ArrowDown");
        let up = crate::text::text_eq(key, "ArrowUp");
        if down || up {
            if self.open {
                let direction: i32 = if down {
                    1
                } else {
                    -1
                };
                self.move_active(options, direction);
            } else {
                self.open_menu(disabled, options);
            }
            return SelectKeyOutcome { prevent_default: true, change: None };
        }
        if crate::text::text_eq(key, "Enter") && self.open {
            let change = self.choose_active(multiple, options, selected_values);
            return SelectKeyOutcome { prevent_default: true, change };
        }
        if crate::text::text_eq(key, "Escape") && self.open {
            self.open = false;
            self.active = None;
            self.query = String::new();
            return SelectKeyOutcome { prevent_default: true, change: None };
        }
        SelectKeyOutcome { prevent_default: false, change: None }
    }
}

fn clone_values(values: &Vec<String>) -> (r: Vec<String>)
    ensures
        r@ == values@,
{
    let mut r: Vec<String> = Vec::new();
    let mut i: usize = 0;
    while i < values.len()
        invariant
            0 <= i <= values@.len(),
            r@ == values@.take(i as int),
        decreases values.len() - i,
    {
        proof {
            assert(values@.take(i + 1) =~= values@.take(i as int).push(values@[i as int]));
        }
        r.push(values[i].clone());
        i = i + 1;
    }
    proof {
        assert(values@.take(values@.len() as int) =~= values@);
    }
    r
}

proof fn lemma_filter_len(options: Seq<SelectOption>, query: Seq<char>)
    ensures
        filtered_options(options, query).len() <= options.len(),
{
    let needle = lowercase(trim(query));
    options.lemma_filter_len(|o: SelectOption| option_matches(o, needle));
}

} // verus!
