//! The light and dark schemes.

use vstd::prelude::*;

verus! {

/// Light or dark scheme.
#[derive(Debug, Clone, Copy, PartialEq, Eq, Structural)]
pub enum Variant {
    Dark,
    Light,
}

impl Default for Variant {
    fn default() -> (r: Variant)
        ensures
            r == Variant::Dark,
    {
        Variant::Dark
    }
}

impl Variant {
    pub fn is_dark(self) -> (r: bool)
        ensures
            r == (self == Variant::Dark),
    {
        match self {
            Variant::Dark => true,
            Variant::Light => false,
        }
    }

    /// The other scheme, for the day/night switch.
    pub open spec fn toggled_spec(self) -> Variant {
        match self {
            Variant::Dark => Variant::Light,
            Variant::Light => Variant::Dark,
        }
    }

    /// The other scheme, for the day/night switch.
    pub fn toggled(self) -> (r: Self)
        ensures
            r == self.toggled_spec(),
    {
        match self {
            Variant::Dark => Variant::Light,
            Variant::Light => Variant::Dark,
        }
    }
}

/// Switching twice gives back the scheme one started with, and switching
/// always changes whether the scheme is dark.
pub proof fn law_toggling_twice_restores(v: Variant)
    ensures
        v.toggled_spec().toggled_spec() == v,
        (v.toggled_spec() == Variant::Dark) != (v == Variant::Dark),
{
}

} // verus!
