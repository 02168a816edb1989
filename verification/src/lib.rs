//! Anchor-based snapping and clearance engine for a block-stacking puzzle.
//!
//! Movable composite bodies carry typed anchor points.  While a body is
//! dragged, a matcher scans every compatible anchor pair against the placed
//! bodies and proposes the closest bond within a snap radius.  Releasing the
//! drag commits the bond (both anchors become occupied), drops the body into
//! the water, or rolls the body back to its saved pose.  A periodic clearance
//! sweep re-probes `Up` anchors against the scene's colliders, and a disaster
//! hook breaks bonds when structure is destroyed.
//!
//! All geometry is carried in fixed-point world coordinates with [`units::UNIT`]
//! ticks per world unit, so every distance comparison and grid rounding is
//! exact integer arithmetic.

pub mod anchor;
pub mod collision;
pub mod geom;
pub mod laws;
pub mod matcher;
pub mod phase;
pub mod protocol;
pub mod registry;
pub mod units;
pub mod world;
