//! Decisions of the modal popup: its class and label, and where Tab moves the
//! focus while it is open.
use vstd::prelude::*;

use crate::text::{extra_class, push_extra_class, string_from};

verus! {

/// The class list of the popup panel.
pub fn popup_class_name(class: Option<&str>) -> (r: String)
    ensures
        r@ == "birei-popup"@ + extra_class(class),
{
    let mut s = string_from("birei-popup");
    push_extra_class(&mut s, class);
    s
}

/// The accessible name of the popup: its header, else `Popup`.
pub fn popup_label(header: Option<String>) -> (r: String)
    ensures
        r@ == match header {
            Some(h) => h@,
            None => "Popup"@,
        },
{
    match header {
        Some(h) => h,
        None => string_from("Popup"),
    }
}

/// Where Tab moves the focus inside a popup with `count` focusable elements,
/// the focused one being `active` (if it is among them): forward wraps from the
/// last to the first, Shift+Tab wraps from the first (or from outside) to the
/// last. `None` when nothing can take the focus.
pub open spec fn trapped_focus(count: nat, active: Option<nat>, backwards: bool) -> Option<nat> {
    if count == 0 {
        None
    } else if backwards {
        match active {
            Some(i) => if i == 0 {
                Some((count - 1) as nat)
            } else {
                Some((i - 1) as nat)
            },
            None => Some((count - 1) as nat),
        }
    } else {
        match active {
            Some(i) => if i + 1 < count {
                Some(i + 1)
            } else {
                Some(0)
            },
            None => Some(0),
        }
    }
}

/// An optional index as a natural number.
pub open spec fn opt_nat(o: Option<usize>) -> Option<nat> {
    match o {
        Some(i) => Some(i as nat),
        None => None,
    }
}

/// The element Tab focuses next while the popup traps the focus.
pub fn trap_focus_index(count: usize, active: Option<usize>, backwards: bool) -> (r: Option<usize>)
    requires
        active matches Some(i) ==> i < count,
    ensures
        match r {
            Some(i) => trapped_focus(count as nat, opt_nat(active), backwards) == Some(
                i as nat,
            ) && i < count,
            None => trapped_focus(count as nat, opt_nat(active), backwards) is None,
        },
{
    if count == 0 {
        return None;
    }
    if backwards {
        match active {
            Some(i) => if i == 0 {
                Some(count - 1)
            } else {
                Some(i - 1)
            },
            None => Some(count - 1),
        }
    } else {
        match active {
            Some(i) => if i < count - 1 {
                Some(i + 1)
            } else {
                Some(0)
            },
            None => Some(0),
        }
    }
}

/// Inside a popup, Tab and then Shift+Tab give the focus back to the element
/// that had it.
pub proof fn lemma_tab_then_shift_tab(count: nat, i: nat)
    requires
        i < count,
    ensures
        trapped_focus(count, trapped_focus(count, Some(i), false), true) == Some(i),
{
}

} // verus!
