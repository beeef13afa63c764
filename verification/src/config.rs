//! The numbers that placement is tuned by.

use vstd::prelude::*;
use crate::geometry::{MAX_DISTANCE, UNITS_PER_METER};

verus! {

/// A range of distances to sample from: from `low` up to, but not including,
/// `high`.
#[derive(Clone, Copy, Debug, PartialEq, Eq, Structural)]
pub struct DistRange {
    pub low: i64,
    pub high: i64,
}

impl DistRange {
    /// The range is not empty and lies between zero and `MAX_DISTANCE`.
    pub open spec fn valid(self) -> bool {
        0 <= self.low < self.high <= MAX_DISTANCE
    }

    /// `v` lies in the range.
    pub open spec fn holds(self, v: int) -> bool {
        self.low <= v < self.high
    }
}

/// How houses are placed along a sidewalk. All distances are in grid units.
#[derive(Clone, Copy, Debug, PartialEq, Eq, Structural)]
pub struct PlacementConfig {
    /// Where along the sidewalk the first house goes.
    pub first_offset: DistRange,
    /// The width and the height of a house, each sampled by itself.
    pub size: DistRange,
    /// The free stretch after a house, beyond the larger of its sides.
    pub gap: DistRange,
    /// How far the front of every house stands back from the sidewalk.
    pub base_setback: i64,
    /// How much the box of a house is widened when looking for houses that
    /// it may overlap.
    pub overlap_buffer: i64,
}

impl PlacementConfig {
    /// Every range is valid, a house has a side of at least one unit, and
    /// the two distances lie between zero and `MAX_DISTANCE`.
    pub open spec fn valid(self) -> bool {
        &&& self.first_offset.valid()
        &&& self.size.valid()
        &&& self.size.low >= 1
        &&& self.gap.valid()
        &&& 0 <= self.base_setback <= MAX_DISTANCE
        &&& 0 <= self.overlap_buffer <= MAX_DISTANCE
    }

    /// The usual settings: the first house 1 to 5 meters along, sides of 6
    /// to 14 meters, gaps of 2 to 4 meters, fronts 10 meters back, and a
    /// buffer of 1 meter.
    pub fn default() -> (config: PlacementConfig)
        ensures
            config.valid(),
            config.first_offset == (DistRange { low: 10_000, high: 50_000 }),
            config.size == (DistRange { low: 60_000, high: 140_000 }),
            config.gap == (DistRange { low: 20_000, high: 40_000 }),
            config.base_setback == 100_000,
            config.overlap_buffer == 10_000,
    {
        PlacementConfig {
            first_offset: DistRange { low: UNITS_PER_METER, high: 5 * UNITS_PER_METER },
            size: DistRange { low: 6 * UNITS_PER_METER, high: 14 * UNITS_PER_METER },
            gap: DistRange { low: 2 * UNITS_PER_METER, high: 4 * UNITS_PER_METER },
            base_setback: 10 * UNITS_PER_METER,
            overlap_buffer: UNITS_PER_METER,
        }
    }

    /// Tests whether the settings are valid.
    pub fn is_valid(&self) -> (b: bool)
        ensures
            b == self.valid(),
    {
        0 <= self.first_offset.low && self.first_offset.low < self.first_offset.high
            && self.first_offset.high <= MAX_DISTANCE && 1 <= self.size.low && self.size.low
            < self.size.high && self.size.high <= MAX_DISTANCE && 0 <= self.gap.low && self.gap.low
            < self.gap.high && self.gap.high <= MAX_DISTANCE && 0 <= self.base_setback
            && self.base_setback <= MAX_DISTANCE && 0 <= self.overlap_buffer && self.overlap_buffer
            <= MAX_DISTANCE
    }
}

} // verus!
