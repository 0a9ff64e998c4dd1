use vstd::prelude::*;

verus! {

#[derive(Clone, Copy, Debug, PartialEq, Eq, Structural, Hash)]
pub enum GameFormat {
    Standard,
    Commander,
    Brawl,
}

/// Formats in which even a duel grants a free first mulligan: Brawl (CR 103.5c), and Commander
/// by the supplement of its rules committee.
pub open spec fn free_first_format(format: GameFormat) -> bool {
    format is Commander || format is Brawl
}

impl GameFormat {
    pub fn grants_free_first_mulligan(self) -> (granted: bool)
        ensures
            granted == free_first_format(self),
    {
        match self {
            GameFormat::Commander | GameFormat::Brawl => true,
            GameFormat::Standard => false,
        }
    }
}

/// The settings a game is created with.
#[derive(Clone, Copy, Debug, PartialEq, Eq, Structural, Hash)]
pub struct FormatConfig {
    pub format: GameFormat,
    pub starting_life: i32,
}

impl FormatConfig {
    pub fn standard() -> (config: FormatConfig)
        ensures
            config == (FormatConfig { format: GameFormat::Standard, starting_life: 20 }),
    {
        FormatConfig { format: GameFormat::Standard, starting_life: 20 }
    }

    pub fn commander() -> (config: FormatConfig)
        ensures
            config == (FormatConfig { format: GameFormat::Commander, starting_life: 40 }),
    {
        FormatConfig { format: GameFormat::Commander, starting_life: 40 }
    }

    pub fn brawl() -> (config: FormatConfig)
        ensures
            config == (FormatConfig { format: GameFormat::Brawl, starting_life: 25 }),
    {
        FormatConfig { format: GameFormat::Brawl, starting_life: 25 }
    }
}

} // verus!
