//! Modes and orders that the settings choose between.

use vstd::prelude::*;

verus! {

/// How a key switches a feature.
#[derive(Clone, Copy, Debug, PartialEq, Eq, Structural, PartialOrd)]
pub enum KeyToggleMode {
    AlwaysOn,
    Toggle,
    Trigger,
    TriggerInverted,
    Off,
}

/// The kinds of thrown objects that a saved spot can be for.
#[derive(Clone, Copy, Debug, PartialEq, Eq, Structural, Hash)]
pub enum GrenadeType {
    Smoke,
    Molotov,
    Flashbang,
    Explosive,
}

impl GrenadeType {
    /// The name shown for the kind.
    pub open spec fn display_name_spec(self) -> Seq<char> {
        match self {
            GrenadeType::Smoke => "Smoke"@,
            GrenadeType::Molotov => "Molotov"@,
            GrenadeType::Flashbang => "Flashbang"@,
            GrenadeType::Explosive => "Explosive"@,
        }
    }

    /// The name shown for the kind.
    pub fn display_name(&self) -> (name: &'static str)
        ensures
            name@ == self.display_name_spec(),
    {
        match self {
            GrenadeType::Smoke => "Smoke",
            GrenadeType::Molotov => "Molotov",
            GrenadeType::Flashbang => "Flashbang",
            GrenadeType::Explosive => "Explosive",
        }
    }
}

/// The order in which saved spots are listed.
#[derive(Clone, Copy, Debug, PartialEq, Eq, Structural)]
pub enum GrenadeSortOrder {
    Alphabetical,
    AlphabeticalReverse,
}

impl GrenadeSortOrder {
    /// The order used where none was chosen.
    pub fn default() -> (order: GrenadeSortOrder)
        ensures
            order == GrenadeSortOrder::Alphabetical,
    {
        GrenadeSortOrder::Alphabetical
    }
}

} // verus!
