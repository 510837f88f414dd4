//! Compression level presets.

use vstd::prelude::*;

verus! {

/// Compression level presets.
///
/// Higher levels may spend more effort for a smaller or equal output;
/// decompression speed is similar across all levels. The ordinal of each
/// level (1 for the fastest through 5 for the most compact) is part of the
/// wire contract and is never renumbered.
#[derive(Debug, Clone, Copy, PartialEq, Eq, Structural, Default)]
pub enum Level {
    /// Fastest compression, best for real-time applications (ordinal 1).
    Fastest,
    /// Fast compression, good for real-time applications (ordinal 2).
    Fast,
    /// Recommended default: a balance of ratio and speed (ordinal 3).
    #[default]
    Default,
    /// Good ratio, good decode speed (ordinal 4).
    Balanced,
    /// Highest density, best for storage and archival (ordinal 5).
    Compact,
}

/// The ordinal a level stands for on the wire: 1 through 5.
pub open spec fn level_ordinal(level: Level) -> int {
    match level {
        Level::Fastest => 1,
        Level::Fast => 2,
        Level::Default => 3,
        Level::Balanced => 4,
        Level::Compact => 5,
    }
}

impl Level {
    /// Returns all available compression levels, from fastest to most compact.
    pub fn all() -> (r: Vec<Level>)
        ensures
            r@ =~= seq![
                Level::Fastest,
                Level::Fast,
                Level::Default,
                Level::Balanced,
                Level::Compact,
            ],
    {
        let mut v: Vec<Level> = Vec::new();
        v.push(Level::Fastest);
        v.push(Level::Fast);
        v.push(Level::Default);
        v.push(Level::Balanced);
        v.push(Level::Compact);
        v
    }

    /// The wire ordinal of this level: 1 through 5.
    pub fn ordinal(self) -> (r: u8)
        ensures
            r as int == level_ordinal(self),
            1 <= r <= 5,
    {
        match self {
            Level::Fastest => 1,
            Level::Fast => 2,
            Level::Default => 3,
            Level::Balanced => 4,
            Level::Compact => 5,
        }
    }
}

} // verus!
