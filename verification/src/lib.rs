//! Procedural placement of building footprints along residential sidewalks,
//! with the small pieces of the map viewer that decide rather than draw.
//!
//! The generator walks every sidewalk of a residential road that no building
//! fronts, places houses of random size at random intervals, set back from the
//! sidewalk, and then removes the houses that hit an earlier house or
//! something that already lies on the map. See [`building_procgen`].
//!
//! All geometry is exact integer arithmetic on a grid of
//! [`geometry::UNITS_PER_METER`] units per meter. Two things come from other
//! crates and are taken on trust: the quadtree that finds boxes near a box
//! ([`quadtree`]) and the random number generator ([`random`]).

pub mod arith;
pub mod geometry;
pub mod direction;
pub mod polygon;
pub mod polyline;
pub mod error;
pub mod quadtree;
pub mod spatial_index;
pub mod random;
pub mod network;
pub mod basemap;
pub mod config;
pub mod candidate;
pub mod placer;
pub mod pruner;
pub mod filter;
pub mod building_procgen;
pub mod options;
pub mod info;
pub mod agents;
pub mod panel;
pub mod regions;
