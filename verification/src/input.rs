//! Typed HTML attribute values of the text input.
use vstd::prelude::*;

verus! {

/// Native HTML input types.
#[derive(Debug, Clone, Copy, PartialEq, Eq)]
pub enum InputType {
    Text,
    Email,
    Password,
    Search,
    Tel,
    Url,
}

impl InputType {
    /// The native `<input type="...">` attribute value.
    pub fn as_str(self) -> (r: &'static str)
        ensures
            r@ == match self {
                InputType::Text => "text"@,
                InputType::Email => "email"@,
                InputType::Password => "password"@,
                InputType::Search => "search"@,
                InputType::Tel => "tel"@,
                InputType::Url => "url"@,
            },
    {
        match self {
            InputType::Text => "text",
            InputType::Email => "email",
            InputType::Password => "password",
            InputType::Search => "search",
            InputType::Tel => "tel",
            InputType::Url => "url",
        }
    }
}

impl Default for InputType {
    fn default() -> (r: Self)
        ensures
            r == InputType::Text,
    {
        InputType::Text
    }
}

/// Typed autocomplete values.
#[derive(Debug, Clone, Copy, PartialEq, Eq)]
pub enum InputAutocomplete {
    On,
    Off,
    Name,
    GivenName,
    FamilyName,
    Nickname,
    Email,
    Username,
    CurrentPassword,
    NewPassword,
    Tel,
    Url,
    StreetAddress,
    PostalCode,
    Country,
}

impl InputAutocomplete {
    /// The native autocomplete token passed to the browser.
    pub fn as_str(self) -> (r: &'static str)
        ensures
            r@ == match self {
                InputAutocomplete::On => "on"@,
                InputAutocomplete::Off => "off"@,
                InputAutocomplete::Name => "name"@,
                InputAutocomplete::GivenName => "given-name"@,
                InputAutocomplete::FamilyName => "family-name"@,
                InputAutocomplete::Nickname => "nickname"@,
                InputAutocomplete::Email => "email"@,
                InputAutocomplete::Username => "username"@,
                InputAutocomplete::CurrentPassword => "current-password"@,
                InputAutocomplete::NewPassword => "new-password"@,
                InputAutocomplete::Tel => "tel"@,
                InputAutocomplete::Url => "url"@,
                InputAutocomplete::StreetAddress => "street-address"@,
                InputAutocomplete::PostalCode => "postal-code"@,
                InputAutocomplete::Country => "country"@,
            },
    {
        match self {
            InputAutocomplete::On => "on",
            InputAutocomplete::Off => "off",
            InputAutocomplete::Name => "name",
            InputAutocomplete::GivenName => "given-name",
            InputAutocomplete::FamilyName => "family-name",
            InputAutocomplete::Nickname => "nickname",
            InputAutocomplete::Email => "email",
            InputAutocomplete::Username => "username",
            InputAutocomplete::CurrentPassword => "current-password",
            InputAutocomplete::NewPassword => "new-password",
            InputAutocomplete::Tel => "tel",
            InputAutocomplete::Url => "url",
            InputAutocomplete::StreetAddress => "street-address",
            InputAutocomplete::PostalCode => "postal-code",
            InputAutocomplete::Country => "country",
        }
    }
}

} // verus!
