//! Behaviour of the button-triggered action menu: item definitions, opening,
//! closing and keyboard handling, navigation over enabled items and keeping
//! the active item scrolled into view.
use vstd::prelude::*;

use crate::icon::IcnName;
use crate::roving::{
    first_enabled, first_enabled_position, move_active, moved_active, next_enabled, resolve_active,
    resolved_active, scan_enabled, scan_start,
};
use crate::select::push_suffix_if;
use crate::text::string_from;

verus! {

/// Action entry rendered by the menu button.
pub struct MenuButtonItem {
    pub value: String,
    pub label: String,
    pub icon: Option<IcnName>,
    pub disabled: bool,
}

impl MenuButtonItem {
    /// An enabled item without icon.
    pub fn new<V: Into<String>, L: Into<String>>(value: V, label: L) -> (r: Self)
        ensures
            call_ensures(V::into, (value,), r.value),
            call_ensures(L::into, (label,), r.label),
            r.icon is None,
            !r.disabled,
    {
        MenuButtonItem { value: value.into(), label: label.into(), icon: None, disabled: false }
    }

    /// Adds a leading icon.
    pub fn icon<I: Into<IcnName>>(self, icon: I) -> (r: Self)
        ensures
            r.value == self.value,
            r.label == self.label,
            r.disabled == self.disabled,
            r.icon matches Some(i) && call_ensures(I::into, (icon,), i),
    {
        MenuButtonItem { icon: Some(icon.into()), ..self }
    }

    /// Sets whether the item can be chosen.
    pub fn disabled(self, disabled: bool) -> (r: Self)
        ensures
            r.value == self.value,
            r.label == self.label,
            r.icon == self.icon,
            r.disabled == disabled,
    {
        MenuButtonItem { disabled, ..self }
    }
}

/// The disabled flags of the items, in order.
pub open spec fn item_flags(items: Seq<MenuButtonItem>) -> Seq<bool> {
    items.map_values(|i: MenuButtonItem| i.disabled)
}

fn disabled_flags(items: &[MenuButtonItem]) -> (r: Vec<bool>)
    ensures
        r@ == item_flags(items@),
{
    let mut r: Vec<bool> = Vec::new();
    let mut i: usize = 0;
    while i < items.len()
        invariant
            0 <= i <= items@.len(),
            r@ == item_flags(items@.take(i as int)),
        decreases items.len() - i,
    {
        r.push(items[i].disabled);
        proof {
            assert(item_flags(items@.take(i + 1)) =~= item_flags(items@.take(i as int)).push(
                items@[i as int].disabled,
            ));
        }
        i = i + 1;
    }
    proof {
        assert(items@.take(items@.len() as int) =~= items@);
    }
    r
}

/// The first item that can be chosen.
pub fn first_enabled_item_index(items: &[MenuButtonItem]) -> (r: Option<usize>)
    ensures
        match r {
            Some(i) => first_enabled(item_flags(items@)) == Some(i as int),
            None => first_enabled(item_flags(items@)) is None,
        },
{
    let flags = disabled_flags(items);
    first_enabled_position(&flags)
}

/// Moves to the next enabled item in `direction`, wrapping around the menu edges.
pub fn next_enabled_dropdown_index(items: &[MenuButtonItem], current: Option<usize>, direction: i32) -> (r:
    Option<usize>)
    requires
        items@.len() <= i32::MAX,
        i32::MIN <= scan_start(current, direction, items@.len()) + direction <= i32::MAX,
        items@.len() - 1 + direction <= i32::MAX,
    ensures
        match r {
            Some(i) => scan_enabled(
                item_flags(items@),
                scan_start(current, direction, items@.len()),
                direction as int,
                items@.len(),
            ) == Some(i as int),
            None => scan_enabled(
                item_flags(items@),
                scan_start(current, direction, items@.len()),
                direction as int,
                items@.len(),
            ) is None,
        },
{
    let flags = disabled_flags(items);
    next_enabled(&flags, current, direction)
}

/// Keeps the active item while it is still enabled, otherwise picks the first enabled one.
pub fn sync_active_item_index(items: &[MenuButtonItem], current: Option<usize>) -> (r: Option<usize>)
    ensures
        match r {
            Some(i) => resolved_active(item_flags(items@), current) == Some(i as int),
            None => resolved_active(item_flags(items@), current) is None,
        },
{
    let flags = disabled_flags(items);
    resolve_active(&flags, current)
}

/// The item an arrow key moves to, falling back to the first enabled item.
pub fn move_active_item_index(items: &[MenuButtonItem], current: Option<usize>, direction: i32) -> (r:
    Option<usize>)
    requires
        items@.len() <= i32::MAX,
        i32::MIN <= scan_start(current, direction, items@.len()) + direction <= i32::MAX,
        items@.len() - 1 + direction <= i32::MAX,
    ensures
        match r {
            Some(i) => moved_active(item_flags(items@), current, direction) == Some(i as int),
            None => moved_active(item_flags(items@), current, direction) is None,
        },
{
    let flags = disabled_flags(items);
    move_active(&flags, current, direction)
}

/// The class list of one menu item.
pub fn dropdown_item_class_name(active: bool, disabled: bool) -> (r: String)
    ensures
        r@ == "birei-dropdown-button__item"@ + (if active {
            " birei-dropdown-button__item--active"@
        } else {
            Seq::<char>::empty()
        }) + (if disabled {
            " birei-dropdown-button__item--disabled"@
        } else {
            Seq::<char>::empty()
        }),
{
    let mut classes = string_from("birei-dropdown-button__item");
    push_suffix_if(&mut classes, active, " birei-dropdown-button__item--active");
    push_suffix_if(&mut classes, disabled, " birei-dropdown-button__item--disabled");
    classes
}

/// The scroll offset that brings the active item into the menu's view, keeping
/// `padding` pixels of room at the edge; `None` when it is already visible.
pub open spec fn padded_scroll_top(
    option_top: int,
    option_height: int,
    scroll_top: int,
    client_height: int,
    padding: int,
) -> Option<int> {
    if option_top - padding < scroll_top {
        Some(if option_top - padding > 0 {
            option_top - padding
        } else {
            0
        })
    } else if option_top + option_height + padding > scroll_top + client_height {
        Some(option_top + option_height + padding - client_height)
    } else {
        None
    }
}

/// The menu scrolls only when the active item with its padding is not fully in
/// view, and then as little as needed: up to the padding above the item (never
/// above the top of the menu), else down until the padding below it shows.
/// Afterwards an item that fits the view with its padding is fully in view.
pub proof fn lemma_dropdown_scroll_shows_item(
    option_top: int,
    option_height: int,
    scroll_top: int,
    client_height: int,
    padding: int,
)
    requires
        option_height >= 0,
        padding >= 0,
    ensures
        padded_scroll_top(option_top, option_height, scroll_top, client_height, padding) is None <==> (scroll_top
            <= option_top - padding && option_top + option_height + padding <= scroll_top + client_height),
        padded_scroll_top(option_top, option_height, scroll_top, client_height, padding) matches Some(t) ==> (t
            == option_top - padding || (t == 0 && option_top - padding < 0) || t + client_height == option_top
            + option_height + padding),
        option_top >= padding && option_height + 2 * padding <= client_height ==> (padded_scroll_top(
            option_top,
            option_height,
            scroll_top,
            client_height,
            padding,
        ) matches Some(t) ==> t <= option_top - padding && option_top + option_height + padding <= t
            + client_height),
{
}

/// Decides how the menu scrolls to keep the active item visible.
pub fn dropdown_scroll_top(
    option_top: i32,
    option_height: i32,
    scroll_top: i32,
    client_height: i32,
    padding: i32,
) -> (r: Option<i32>)
    requires
        i32::MIN <= option_top + option_height <= i32::MAX,
        i32::MIN <= scroll_top + client_height <= i32::MAX,
        i32::MIN <= option_top - padding <= i32::MAX,
        i32::MIN <= option_top + option_height + padding <= i32::MAX,
        i32::MIN <= option_top + option_height + padding - client_height <= i32::MAX,
    ensures
        match r {
            Some(t) => padded_scroll_top(
                option_top as int,
                option_height as int,
                scroll_top as int,
                client_height as int,
                padding as int,
            ) == Some(t as int),
            None => padded_scroll_top(
                option_top as int,
                option_height as int,
                scroll_top as int,
                client_height as int,
                padding as int,
            ) is None,
        },
{
    let option_bottom = option_top + option_height;
    let view_bottom = scroll_top + client_height;
    if option_top - padding < scroll_top {
        let target = option_top - padding;
        Some(
            if target > 0 {
                target
            } else {
                0
            },
        )
    } else if option_bottom + padding > view_bottom {
        Some(option_bottom + padding - client_height)
    } else {
        None
    }
}

/// The class list of the dropdown trigger button; `variant_class` and
/// `size_class` are the classes of the button variant and size.
pub fn dropdown_trigger_class_name(variant_class: &str, size_class: &str, disabled: bool) -> (r: String)
    ensures
        r@ == "birei-button "@ + variant_class@ + " "@ + size_class@
            + " birei-dropdown-button__trigger"@ + if disabled {
            " birei-button--disabled"@
        } else {
            Seq::<char>::empty()
        },
{
    let mut s = string_from("birei-button ");
    crate::text::push_text(&mut s, variant_class);
    crate::text::push_text(&mut s, " ");
    crate::text::push_text(&mut s, size_class);
    crate::text::push_text(&mut s, " birei-dropdown-button__trigger");
    push_suffix_if(&mut s, disabled, " birei-button--disabled");
    s
}

/// Whether the menu is open and which item is active.
pub struct MenuState {
    pub open: bool,
    pub active: Option<usize>,
}

/// The value of the item at `index` when it can be chosen.
pub open spec fn item_choice(items: Seq<MenuButtonItem>, index: Option<usize>) -> Option<Seq<char>> {
    match index {
        Some(i) => if i < items.len() && !items[i as int].disabled {
            Some(items[i as int].value@)
        } else {
            None
        },
        None => None,
    }
}

/// What a key press on the trigger does besides changing the menu state.
pub struct MenuKeyOutcome {
    /// Whether the browser's default handling of the key is suppressed.
    pub prevent_default: bool,
    /// The value of the item chosen with the key, reported to the caller.
    pub selected: Option<String>,
}

impl MenuState {
    /// A closed menu without active item.
    pub fn new() -> (r: Self)
        ensures
            !r.open,
            r.active is None,
    {
        MenuState { open: false, active: None }
    }

    /// Opens the menu unless the button is disabled; the active item stays
    /// while it is enabled, else the first enabled item becomes active.
    pub fn open_menu(&mut self, disabled: bool, items: &[MenuButtonItem])
        ensures
            disabled ==> *final(self) == *old(self),
            !disabled ==> final(self).open && match final(self).active {
                Some(i) => resolved_active(item_flags(items@), old(self).active) == Some(i as int),
                None => resolved_active(item_flags(items@), old(self).active) is None,
            },
    {
        if disabled {
            return;
        }
        self.open = true;
        self.active = sync_active_item_index(items, self.active);
    }

    /// Closes the menu and forgets the active item.
    pub fn close(&mut self)
        ensures
            !final(self).open,
            final(self).active is None,
    {
        self.open = false;
        self.active = None;
    }

    /// A click on the trigger: closes an open menu, opens a closed one.
    pub fn toggle(&mut self, disabled: bool, items: &[MenuButtonItem])
        ensures
            old(self).open ==> !final(self).open && final(self).active is None,
            !old(self).open && disabled ==> *final(self) == *old(self),
            !old(self).open && !disabled ==> final(self).open && match final(self).active {
                Some(i) => resolved_active(item_flags(items@), old(self).active) == Some(i as int),
                None => resolved_active(item_flags(items@), old(self).active) is None,
            },
    {
        if self.open {
            self.close();
        } else {
            self.open_menu(disabled, items);
        }
    }

    /// Chooses the item at `index`: an enabled item closes the menu and its
    /// value is reported; a disabled or missing one changes nothing.
    pub fn select_item(&mut self, items: &[MenuButtonItem], index: Option<usize>) -> (r: Option<String>)
        ensures
            match item_choice(items@, index) {
                Some(v) => (r matches Some(s) && s@ == v) && !final(self).open && final(self).active is None,
                None => r is None && *final(self) == *old(self),
            },
    {
        match index {
            Some(i) => {
                if i < items.len() && !items[i].disabled {
                    self.close();
                    Some(items[i].value.clone())
                } else {
                    None
                }
            },
            None => None,
        }
    }

    /// Handles a key pressed on the trigger: the arrows open a closed menu or
    /// move the active item; Enter and Space open a closed menu or choose the
    /// active item; Escape closes an open menu. Other keys do nothing.
    pub fn key_down(&mut self, key: &str, disabled: bool, items: &[MenuButtonItem]) -> (r: MenuKeyOutcome)
        requires
            items@.len() < i32::MAX,
            old(self).active matches Some(a) ==> a < i32::MAX,
        ensures
            ({
                let arrow = key@ == "ArrowDown"@ || key@ == "ArrowUp"@;
                let confirm = key@ == "Enter"@ || key@ == " "@;
                let direction: i32 = if key@ == "ArrowDown"@ {
                    1i32
                } else {
                    -1i32
                };
                if (arrow || confirm) && !old(self).open {
                    r.prevent_default && r.selected is None && (disabled ==> *final(self)
                        == *old(self)) && (!disabled ==> final(self).open && match final(self).active {
                        Some(i) => resolved_active(item_flags(items@), old(self).active) == Some(i as int),
                        None => resolved_active(item_flags(items@), old(self).active) is None,
                    })
                } else if arrow {
                    r.prevent_default && r.selected is None && final(self).open && match final(self).active {
                        Some(i) => moved_active(item_flags(items@), old(self).active, direction) == Some(
                            i as int,
                        ),
                        None => moved_active(item_flags(items@), old(self).active, direction) is None,
                    }
                } else if confirm {
                    r.prevent_default && match item_choice(items@, old(self).active) {
                        Some(v) => (r.selected matches Some(s) && s@ == v) && !final(self).open
                            && final(self).active is None,
                        None => r.selected is None && *final(self) == *old(self),
                    }
                } else if key@ == "Escape"@ && old(self).open {
                    r.prevent_default && r.selected is None && !final(self).open && final(self).active is None
                } else {
                    !r.prevent_default && r.selected is None && *final(self) == *old(self)
                }
            }),
    {
        let down = crate::text::text_eq(key, "ArrowDown");
        let up = crate::text::text_eq(key, "ArrowUp");
        let confirm = crate::text::text_eq(key, "Enter") || crate::text::text_eq(key, " ");
        if (down || up || confirm) && !self.open {
            self.open_menu(disabled, items);
            return MenuKeyOutcome { prevent_default: true, selected: None };
        }
        if down || up {
            let direction: i32 = if down {
                1
            } else {
                -1
            };
            self.active = move_active_item_index(items, self.active, direction);
            return MenuKeyOutcome { prevent_default: true, selected: None };
        }
        if confirm {
            let selected = self.select_item(items, self.active);
            return MenuKeyOutcome { prevent_default: true, selected };
        }
        if crate::text::text_eq(key, "Escape") && self.open {
            self.close();
            return MenuKeyOutcome { prevent_default: true, selected: None };
        }
        MenuKeyOutcome { prevent_default: false, selected: None }
    }
}

} // verus!
