//! Icon names: either a caller-provided Lucide name or an index into the
//! generated name table.
use vstd::prelude::*;

verus! {

/// A Lucide icon name.
#[derive(Debug, PartialEq, Eq)]
pub enum IcnName {
    Named(String),
    Indexed(usize),
}

impl IcnName {
    /// The Lucide class suffix of a named icon.
    ///
    /// The table of generated names that `Indexed` refers to is not part of
    /// this crate, so only named icons resolve here.
    pub fn as_str(&self) -> (r: &str)
        requires
            self is Named,
        ensures
            r@ == self->Named_0@,
    {
        match self {
            IcnName::Named(name) => name.as_str(),
            IcnName::Indexed(_) => "",
        }
    }
}

impl Clone for IcnName {
    fn clone(&self) -> (r: Self)
        ensures
            r == *self,
    {
        match self {
            IcnName::Named(name) => IcnName::Named(name.clone()),
            IcnName::Indexed(index) => IcnName::Indexed(*index),
        }
    }
}

/// Clones an optional icon name.
pub fn clone_icon(icon: &Option<IcnName>) -> (r: Option<IcnName>)
    ensures
        r == *icon,
{
    match icon {
        Some(i) => Some(i.clone()),
        None => None,
    }
}

/// Supports string-based icon selection.
impl From<String> for IcnName {
    fn from(value: String) -> (r: Self) {
        IcnName::Named(value)
    }
}

impl vstd::std_specs::convert::FromSpecImpl<String> for IcnName {
    open spec fn obeys_from_spec() -> bool {
        true
    }

    open spec fn from_spec(v: String) -> Self {
        IcnName::Named(v)
    }
}

/// Supports string-literal icon selection.
impl From<&str> for IcnName {
    fn from(value: &str) -> (r: Self)
        ensures
            r is Named && r->Named_0@ == value@,
    {
        IcnName::Named(value.to_owned())
    }
}

/// No specification function builds the `String` that the conversion stores,
/// so the conversion is described by its own `ensures` only: a named icon with
/// the characters of the text.
impl vstd::std_specs::convert::FromSpecImpl<&str> for IcnName {
    open spec fn obeys_from_spec() -> bool {
        false
    }

    open spec fn from_spec(v: &str) -> Self {
        IcnName::Named(vstd::pervasive::arbitrary())
    }
}

/// Supports generated-index references.
impl From<usize> for IcnName {
    fn from(value: usize) -> (r: Self) {
        IcnName::Indexed(value)
    }
}

impl vstd::std_specs::convert::FromSpecImpl<usize> for IcnName {
    open spec fn obeys_from_spec() -> bool {
        true
    }

    open spec fn from_spec(v: usize) -> Self {
        IcnName::Indexed(v)
    }
}

} // verus!
