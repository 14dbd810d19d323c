//! Procedural growth of a planar transport network over a 2D world.
//!
//! The world is modelled with fixed-point integers: sites are pairs of
//! integer coordinates, angles are counted in thousandths of a degree and
//! elevations, lengths and probabilities are plain integers over documented
//! scales.  All geometric comparisons (distances, crossings, slopes) are
//! exact integer computations, so every decision the growth engine takes is
//! fully specified and verified.

pub mod angle;
pub mod builder;
pub mod geom;
pub mod network;
pub mod property;
pub mod providers;
pub mod rules;
pub mod spatial;
pub mod stage;
pub mod stump;
