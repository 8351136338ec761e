//! Entries of a toolbar made of icon buttons.
use vstd::prelude::*;

use crate::icon::IcnName;
use crate::text::string_from;

verus! {

/// One toolbar button: the value it reports, its label and an optional icon.
pub struct ButtonBarItem {
    pub value: String,
    pub label: String,
    pub icon: Option<IcnName>,
}

impl ButtonBarItem {
    /// A button without icon.
    pub fn new<V: Into<String>, L: Into<String>>(value: V, label: L) -> (r: Self)
        ensures
            call_ensures(V::into, (value,), r.value),
            call_ensures(L::into, (label,), r.label),
            r.icon is None,
    {
        ButtonBarItem { value: value.into(), label: label.into(), icon: None }
    }

    /// Adds a leading icon.
    pub fn icon<I: Into<IcnName>>(self, icon: I) -> (r: Self)
        ensures
            r.value == self.value,
            r.label == self.label,
            r.icon matches Some(i) && call_ensures(I::into, (icon,), i),
    {
        ButtonBarItem { icon: Some(icon.into()), ..self }
    }
}

/// The value, label and icon name of a button whose icon is named.
pub open spec fn item_view(item: ButtonBarItem) -> (Seq<char>, Seq<char>, Seq<char>) {
    (
        item.value@,
        item.label@,
        match item.icon {
            Some(IcnName::Named(n)) => n@,
            _ => Seq::<char>::empty(),
        },
    )
}

pub open spec fn item_views(items: Seq<ButtonBarItem>) -> Seq<(Seq<char>, Seq<char>, Seq<char>)> {
    items.map_values(|i: ButtonBarItem| item_view(i))
}

/// Whether every button of the list carries a named icon.
pub open spec fn all_named_icons(items: Seq<ButtonBarItem>) -> bool {
    forall|i: int| 0 <= i < items.len() ==> (#[trigger] items[i]).icon matches Some(IcnName::Named(_))
}

/// A button with a named icon, built from string slices.
pub fn named_item(value: &str, label: &str, icon: &str) -> (r: ButtonBarItem)
    ensures
        item_view(r) == (value@, label@, icon@),
        r.icon matches Some(IcnName::Named(_)),
{
    ButtonBarItem {
        value: string_from(value),
        label: string_from(label),
        icon: Some(IcnName::Named(string_from(icon))),
    }
}

} // verus!
