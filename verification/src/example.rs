//! An example domain: the states a programmer may be found in.
//!
//! This enumeration shows what an implementation of [`Domain`] and
//! [`Named`] looks like: positions in declaration order, a backing word
//! wide enough for the nine symbols, and one identifier per symbol.

use crate::domain::{Domain, Named};
use vstd::prelude::*;

verus! {

/// The states a programmer may be found in.
#[derive(Clone, Copy, PartialEq, Eq, Structural, Debug, Hash)]
pub enum ProgrammerState {
    Awake,
    CoffeeAcquired,
    CompilerFight,
    MergeConflict,
    ZoneAchieved,
    BuildingCastlesInTheCloud,
    TimeToLeave,
    SideProject,
    Sleeping,
}

impl Domain for ProgrammerState {
    type Repr = u16;

    open spec fn count() -> int {
        9
    }

    open spec fn index_of(self) -> int {
        match self {
            ProgrammerState::Awake => 0,
            ProgrammerState::CoffeeAcquired => 1,
            ProgrammerState::CompilerFight => 2,
            ProgrammerState::MergeConflict => 3,
            ProgrammerState::ZoneAchieved => 4,
            ProgrammerState::BuildingCastlesInTheCloud => 5,
            ProgrammerState::TimeToLeave => 6,
            ProgrammerState::SideProject => 7,
            ProgrammerState::Sleeping => 8,
        }
    }

    open spec fn symbol_at(i: int) -> Self {
        if i == 0 {
            ProgrammerState::Awake
        } else if i == 1 {
            ProgrammerState::CoffeeAcquired
        } else if i == 2 {
            ProgrammerState::CompilerFight
        } else if i == 3 {
            ProgrammerState::MergeConflict
        } else if i == 4 {
            ProgrammerState::ZoneAchieved
        } else if i == 5 {
            ProgrammerState::BuildingCastlesInTheCloud
        } else if i == 6 {
            ProgrammerState::TimeToLeave
        } else if i == 7 {
            ProgrammerState::SideProject
        } else {
            ProgrammerState::Sleeping
        }
    }

    open spec fn set_name() -> Seq<char> {
        "ProgrammerStateSet"@
    }

    proof fn count_valid() {
    }

    proof fn index_in_range(self) {
    }

    proof fn symbol_at_index_of(self) {
    }

    proof fn index_of_symbol_at(i: int) {
    }

    fn count_exec() -> (r: usize) {
        9
    }

    fn index(&self) -> (r: usize) {
        match self {
            ProgrammerState::Awake => 0,
            ProgrammerState::CoffeeAcquired => 1,
            ProgrammerState::CompilerFight => 2,
            ProgrammerState::MergeConflict => 3,
            ProgrammerState::ZoneAchieved => 4,
            ProgrammerState::BuildingCastlesInTheCloud => 5,
            ProgrammerState::TimeToLeave => 6,
            ProgrammerState::SideProject => 7,
            ProgrammerState::Sleeping => 8,
        }
    }

    fn at_index(i: usize) -> (r: Self) {
        if i == 0 {
            ProgrammerState::Awake
        } else if i == 1 {
            ProgrammerState::CoffeeAcquired
        } else if i == 2 {
            ProgrammerState::CompilerFight
        } else if i == 3 {
            ProgrammerState::MergeConflict
        } else if i == 4 {
            ProgrammerState::ZoneAchieved
        } else if i == 5 {
            ProgrammerState::BuildingCastlesInTheCloud
        } else if i == 6 {
            ProgrammerState::TimeToLeave
        } else if i == 7 {
            ProgrammerState::SideProject
        } else {
            ProgrammerState::Sleeping
        }
    }

    fn set_name_exec() -> (r: String) {
        String::from_str("ProgrammerStateSet")
    }
}

impl Named for ProgrammerState {
    open spec fn name_of(self) -> Seq<char> {
        match self {
            ProgrammerState::Awake => "Awake"@,
            ProgrammerState::CoffeeAcquired => "CoffeeAcquired"@,
            ProgrammerState::CompilerFight => "CompilerFight"@,
            ProgrammerState::MergeConflict => "MergeConflict"@,
            ProgrammerState::ZoneAchieved => "ZoneAchieved"@,
            ProgrammerState::BuildingCastlesInTheCloud => "BuildingCastlesInTheCloud"@,
            ProgrammerState::TimeToLeave => "TimeToLeave"@,
            ProgrammerState::SideProject => "SideProject"@,
            ProgrammerState::Sleeping => "Sleeping"@,
        }
    }

    proof fn names_injective(a: Self, b: Self) {
        reveal_strlit("Awake");
        reveal_strlit("CoffeeAcquired");
        reveal_strlit("CompilerFight");
        reveal_strlit("MergeConflict");
        reveal_strlit("ZoneAchieved");
        reveal_strlit("BuildingCastlesInTheCloud");
        reveal_strlit("TimeToLeave");
        reveal_strlit("SideProject");
        reveal_strlit("Sleeping");
        if a.name_of() == b.name_of() {
            assert(a.name_of().len() == b.name_of().len());
            assert(a.name_of()[0] == b.name_of()[0]);
            assert(a == b);
        }
    }

    fn name(&self) -> (r: String) {
        match self {
            ProgrammerState::Awake => String::from_str("Awake"),
            ProgrammerState::CoffeeAcquired => String::from_str("CoffeeAcquired"),
            ProgrammerState::CompilerFight => String::from_str("CompilerFight"),
            ProgrammerState::MergeConflict => String::from_str("MergeConflict"),
            ProgrammerState::ZoneAchieved => String::from_str("ZoneAchieved"),
            ProgrammerState::BuildingCastlesInTheCloud => String::from_str(
                "BuildingCastlesInTheCloud",
            ),
            ProgrammerState::TimeToLeave => String::from_str("TimeToLeave"),
            ProgrammerState::SideProject => String::from_str("SideProject"),
            ProgrammerState::Sleeping => String::from_str("Sleeping"),
        }
    }
}

} // verus!
