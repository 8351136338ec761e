//! Class names and copy handling of the illustration component.
use vstd::prelude::*;

use crate::text::{chars_of, push_char, push_text, string_from, trim, trim_range};

verus! {

/// The bundled companion illustrations.
#[derive(Clone, Copy, PartialEq, Eq, Structural)]
pub enum IllustrationKind {
    /// Companion building the Exolynk mark.
    BrandBuilding,
    /// Companion holding a broken connection.
    ConnectionLost,
    /// Companion encountering a locked door.
    NoAccess,
    /// Companion facing an empty canvas.
    NoData,
    /// Companion searching without a result.
    NoResults,
}

/// Where optional illustration copy appears relative to the artwork.
#[derive(Clone, Copy, PartialEq, Eq, Structural)]
pub enum IllustrationTextLocation {
    Top,
    Left,
    Right,
    Bottom,
    /// Right of the artwork in a landscape viewport, below it otherwise.
    Auto,
}

impl Default for IllustrationTextLocation {
    fn default() -> (r: Self)
        ensures
            r == IllustrationTextLocation::Auto,
    {
        IllustrationTextLocation::Auto
    }
}

/// The CSS modifier of a text location.
pub open spec fn location_class(location: IllustrationTextLocation) -> Seq<char> {
    match location {
        IllustrationTextLocation::Top => "top"@,
        IllustrationTextLocation::Left => "left"@,
        IllustrationTextLocation::Right => "right"@,
        IllustrationTextLocation::Bottom => "bottom"@,
        IllustrationTextLocation::Auto => "auto"@,
    }
}

impl IllustrationTextLocation {
    /// The CSS modifier used to arrange the copy.
    pub fn class_name(self) -> (r: &'static str)
        ensures
            r@ == location_class(self),
    {
        match self {
            IllustrationTextLocation::Top => "top",
            IllustrationTextLocation::Left => "left",
            IllustrationTextLocation::Right => "right",
            IllustrationTextLocation::Bottom => "bottom",
            IllustrationTextLocation::Auto => "auto",
        }
    }
}

/// Whether a text is blank: empty or only white space.
pub open spec fn blank(s: Seq<char>) -> bool {
    trim(s).len() == 0
}

fn is_blank(s: &str) -> (b: bool)
    ensures
        b == blank(s@),
{
    let v = chars_of(s);
    let (a, b) = trim_range(&v, 0, v.len(), false);
    proof {
        assert(v@.subrange(0, v@.len() as int) =~= s@);
    }
    a == b
}

/// Drops an optional copy value that holds only white space.
pub fn non_empty(value: Option<String>) -> (r: Option<String>)
    ensures
        match value {
            Some(v) => if blank(v@) {
                r is None
            } else {
                r == Some(v)
            },
            None => r is None,
        },
{
    match value {
        Some(v) => if is_blank(v.as_str()) {
            None
        } else {
            Some(v)
        },
        None => None,
    }
}

/// The class list of the illustration container; a blank extra class is left out.
pub fn illustration_class_name(location: IllustrationTextLocation, class: Option<&str>) -> (r:
    String)
    ensures
        r@ == "birei-illustration birei-illustration--"@ + location_class(location) + match class {
            Some(c) => if blank(c@) {
                Seq::<char>::empty()
            } else {
                seq![' '] + c@
            },
            None => Seq::<char>::empty(),
        },
{
    let mut s = string_from("birei-illustration birei-illustration--");
    push_text(&mut s, location.class_name());
    let ghost before = s@;
    if let Some(c) = class {
        if !is_blank(c) {
            push_char(&mut s, ' ');
            push_text(&mut s, c);
            proof {
                assert(s@ =~= before + (seq![' '] + c@));
            }
        }
    }
    proof {
        assert(s@ =~= before + match class {
            Some(c) => if blank(c@) {
                Seq::<char>::empty()
            } else {
                seq![' '] + c@
            },
            None => Seq::<char>::empty(),
        });
    }
    s
}

/// Whether the illustration shows a copy block: some non-blank text or children.
pub fn has_copy(label: &Option<String>, title: &Option<String>, description: &Option<String>, has_children: bool) -> (b: bool)
    ensures
        b == (label is Some || title is Some || description is Some || has_children),
{
    label.is_some() || title.is_some() || description.is_some() || has_children
}

} // verus!
