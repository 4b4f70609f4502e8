//! The water: what it is like and where.
//!
//! The sea is split into biomes, each with its own temperature, salinity,
//! oxygen and poison. The harsher a biome, the richer its food: living where
//! others cannot is the reward for the points put into a body. The numbers of
//! each biome's water are tuned by hand and live with the renderer and the
//! simulation; what is stated here is which biomes there are and how they are
//! called.

use vstd::prelude::*;

verus! {

/// A stretch of sea with its own water.
#[derive(Debug, Clone, Copy, PartialEq, Eq, Structural, Hash)]
pub enum Biome {
    /// Open sea: nothing special and nothing dangerous.
    Open,
    /// Shallows: warm, bright, much small food. This is where one starts.
    Shallows,
    /// Brine pit: salty to the point of burning. An osmoregulator is needed.
    Brine,
    /// Hydrothermal vents: hot, stifling, poisonous; the richest food.
    Vents,
    /// Ice abyss: cold and clear, but plenty of oxygen.
    Abyss,
}

/// How many biomes there are.
pub const BIOME_COUNT: usize = 5;

/// The biome at this position of the list of all biomes.
pub open spec fn biome_at(i: int) -> Biome {
    if i == 0 {
        Biome::Open
    } else if i == 1 {
        Biome::Shallows
    } else if i == 2 {
        Biome::Brine
    } else if i == 3 {
        Biome::Vents
    } else {
        Biome::Abyss
    }
}

impl Biome {
    /// Every biome, in the order of the list.
    pub fn all() -> (v: Vec<Biome>)
        ensures
            v@.len() == BIOME_COUNT,
            forall|i: int| 0 <= i < BIOME_COUNT ==> v@[i] == biome_at(i),
    {
        vec![Biome::Open, Biome::Shallows, Biome::Brine, Biome::Vents, Biome::Abyss]
    }

    pub open spec fn name_spec(self) -> Seq<char> {
        match self {
            Biome::Open => "Открытое море"@,
            Biome::Shallows => "Отмель"@,
            Biome::Brine => "Соляная впадина"@,
            Biome::Vents => "Термальный разлом"@,
            Biome::Abyss => "Ледяная бездна"@,
        }
    }

    /// The biome's name as the interface shows it.
    pub fn name(self) -> (s: &'static str)
        ensures
            s@ == self.name_spec(),
    {
        match self {
            Biome::Open => "Открытое море",
            Biome::Shallows => "Отмель",
            Biome::Brine => "Соляная впадина",
            Biome::Vents => "Термальный разлом",
            Biome::Abyss => "Ледяная бездна",
        }
    }

    pub open spec fn hint_spec(self) -> Seq<char> {
        match self {
            Biome::Open => "спокойно и небогато"@,
            Biome::Shallows => "тепло, светло, много мелкой еды"@,
            Biome::Brine => "едкая соль; нужен осморегулятор"@,
            Biome::Vents => "жар и духота; самая богатая еда в море"@,
            Biome::Abyss => "холод и темнота, зато дышится легко"@,
        }
    }

    /// One line on what this stretch of sea lives by.
    pub fn hint(self) -> (s: &'static str)
        ensures
            s@ == self.hint_spec(),
    {
        match self {
            Biome::Open => "спокойно и небогато",
            Biome::Shallows => "тепло, светло, много мелкой еды",
            Biome::Brine => "едкая соль; нужен осморегулятор",
            Biome::Vents => "жар и духота; самая богатая еда в море",
            Biome::Abyss => "холод и темнота, зато дышится легко",
        }
    }
}

} // verus!
