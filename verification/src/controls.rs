//! Class names and attribute defaults of the small form and feedback controls:
//! labels, links, inputs, loading indicators and sliders.
use vstd::prelude::*;

use crate::select::{flag_class, push_suffix_if};
use crate::text::{extra_class, push_class_if, push_extra_class, push_text, string_from};

verus! {

/// The class list of a field label.
pub fn label_class_name(class: Option<&str>) -> (r: String)
    ensures
        r@ == "birei-label"@ + extra_class(class),
{
    let mut s = string_from("birei-label");
    push_extra_class(&mut s, class);
    s
}

/// The class list of a link.
pub fn link_class_name(disabled: bool, class: Option<&str>) -> (r: String)
    ensures
        r@ == "birei-link"@ + flag_class(disabled, " birei-link--disabled"@) + extra_class(class),
{
    let mut s = string_from("birei-link");
    push_suffix_if(&mut s, disabled, " birei-link--disabled");
    push_extra_class(&mut s, class);
    s
}

/// The link target: the given address unless it is missing or empty, else `#`.
pub fn link_href(href: Option<String>) -> (r: String)
    ensures
        r@ == match href {
            Some(h) => if h@.len() > 0 {
                h@
            } else {
                "#"@
            },
            None => "#"@,
        },
{
    match href {
        Some(h) => if h.as_str().unicode_len() > 0 {
            h
        } else {
            string_from("#")
        },
        None => string_from("#"),
    }
}

/// The tab order of a link: the explicit one, else out of the tab order when
/// disabled and in it otherwise.
pub fn link_tabindex(tabindex: Option<i32>, disabled: bool) -> (r: i32)
    ensures
        r == match tabindex {
            Some(t) => t as int,
            None => if disabled {
                -1
            } else {
                0
            },
        },
{
    match tabindex {
        Some(t) => t,
        None => if disabled {
            -1
        } else {
            0
        },
    }
}

/// The class list of a text input; `size_class` is the class of the control size.
pub fn input_class_name(
    size_class: &str,
    has_prefix: bool,
    has_suffix: bool,
    disabled: bool,
    readonly: bool,
    invalid: bool,
    class: Option<&str>,
) -> (r: String)
    ensures
        r@ == "birei-input "@ + size_class@ + flag_class(has_prefix, " birei-input--with-prefix"@)
            + flag_class(has_suffix, " birei-input--with-suffix"@) + flag_class(
            disabled,
            " birei-input--disabled"@,
        ) + flag_class(readonly, " birei-input--readonly"@) + flag_class(
            invalid,
            " birei-input--invalid"@,
        ) + extra_class(class),
{
    let mut s = string_from("birei-input ");
    push_text(&mut s, size_class);
    push_suffix_if(&mut s, has_prefix, " birei-input--with-prefix");
    push_suffix_if(&mut s, has_suffix, " birei-input--with-suffix");
    push_suffix_if(&mut s, disabled, " birei-input--disabled");
    push_suffix_if(&mut s, readonly, " birei-input--readonly");
    push_suffix_if(&mut s, invalid, " birei-input--invalid");
    push_extra_class(&mut s, class);
    s
}

/// The shared control sizes, as the loading indicator uses them.
#[derive(Clone, Copy, PartialEq, Eq, Structural)]
pub enum Size {
    Small,
    Medium,
    Large,
}

/// The loading indicator's class for a size.
pub open spec fn loading_size_class(size: Size) -> Seq<char> {
    match size {
        Size::Small => "birei-loading--small"@,
        Size::Medium => "birei-loading--medium"@,
        Size::Large => "birei-loading--large"@,
    }
}

/// The loading indicator's class for a size.
pub fn loading_size_class_name(size: Size) -> (r: &'static str)
    ensures
        r@ == loading_size_class(size),
{
    match size {
        Size::Small => "birei-loading--small",
        Size::Medium => "birei-loading--medium",
        Size::Large => "birei-loading--large",
    }
}

/// The class list of a loading indicator.
pub fn loading_class_name(size: Size, block: bool, class: Option<&str>) -> (r: String)
    ensures
        r@ == "birei-loading "@ + loading_size_class(size) + flag_class(
            block,
            " birei-loading--block"@,
        ) + extra_class(class),
{
    let mut s = string_from("birei-loading ");
    push_text(&mut s, loading_size_class_name(size));
    push_suffix_if(&mut s, block, " birei-loading--block");
    push_extra_class(&mut s, class);
    s
}

/// The text a loading indicator announces and shows: its label, else `Loading`.
pub fn loading_label(label: Option<String>) -> (r: String)
    ensures
        r@ == match label {
            Some(l) => l@,
            None => "Loading"@,
        },
{
    match label {
        Some(l) => l,
        None => string_from("Loading"),
    }
}

/// The class list of a slider: its size class (the shared size's slider
/// class), the disabled and invalid states, the caller's class, and the ripple
/// phase while a ripple plays.
pub fn slider_class_name(
    size_class: &str,
    disabled: bool,
    invalid: bool,
    class: Option<&str>,
    ripple: Option<bool>,
) -> (r: String)
    ensures
        r@ == "birei-slider "@ + size_class@ + (if disabled {
            " birei-slider--disabled"@
        } else {
            Seq::<char>::empty()
        }) + (if invalid {
            " birei-slider--invalid"@
        } else {
            Seq::<char>::empty()
        }) + extra_class(class) + match ripple {
            Some(true) => " birei-slider--ripple-a"@,
            Some(false) => " birei-slider--ripple-b"@,
            None => Seq::<char>::empty(),
        },
{
    proof {
        reveal_strlit(" birei-slider--disabled");
        reveal_strlit("birei-slider--disabled");
        reveal_strlit(" birei-slider--invalid");
        reveal_strlit("birei-slider--invalid");
        reveal_strlit(" birei-slider--ripple-a");
        reveal_strlit("birei-slider--ripple-a");
        reveal_strlit(" birei-slider--ripple-b");
        reveal_strlit("birei-slider--ripple-b");
    }
    let mut s = string_from("birei-slider ");
    push_text(&mut s, size_class);
    push_class_if(&mut s, disabled, "birei-slider--disabled");
    push_class_if(&mut s, invalid, "birei-slider--invalid");
    push_extra_class(&mut s, class);
    match ripple {
        Some(phase) => {
            push_class_if(&mut s, phase, "birei-slider--ripple-a");
            push_class_if(&mut s, !phase, "birei-slider--ripple-b");
        },
        None => {},
    }
    s
}

} // verus!
