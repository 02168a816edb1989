//! Anchor records: colored attachment points with a bonding state.

use vstd::prelude::*;

use crate::geom::Vec3F;

verus! {

/// The color tag of an anchor.  Compatibility is a fixed symmetric pairing:
/// `Up` bonds with `Down`, `DecorationUp` with `DecorationDown`, and the
/// neutral color bonds with nothing.  The pairing is neither reflexive nor transitive.
#[derive(Clone, Copy, Debug, PartialEq, Eq, Structural)]
pub enum AnchorColor {
    Up,
    Down,
    DecorationUp,
    DecorationDown,
    Neutral,
}

/// The pairing table as a spec function.
pub open spec fn compatible_spec(a: AnchorColor, b: AnchorColor) -> bool {
    match a {
        AnchorColor::Up => b == AnchorColor::Down,
        AnchorColor::Down => b == AnchorColor::Up,
        AnchorColor::DecorationUp => b == AnchorColor::DecorationDown,
        AnchorColor::DecorationDown => b == AnchorColor::DecorationUp,
        AnchorColor::Neutral => false,
    }
}

impl AnchorColor {
    /// Whether this color bonds with `other`.
    pub fn compatible(&self, other: Self) -> (r: bool)
        ensures
            r == compatible_spec(*self, other),
    {
        match self {
            AnchorColor::Up => other == AnchorColor::Down,
            AnchorColor::Down => other == AnchorColor::Up,
            AnchorColor::DecorationUp => other == AnchorColor::DecorationDown,
            AnchorColor::DecorationDown => other == AnchorColor::DecorationUp,
            AnchorColor::Neutral => false,
        }
    }
}

/// Compatibility is symmetric, and nothing bonds with the neutral color.
pub proof fn lemma_compatible_symmetric(a: AnchorColor, b: AnchorColor)
    ensures
        compatible_spec(a, b) == compatible_spec(b, a),
        !compatible_spec(AnchorColor::Neutral, a),
        !compatible_spec(a, AnchorColor::Neutral),
{
}

/// The bonding state of an anchor.  Peer and obstructor are arena indices of
/// bodies; an index may outlive the body it names, so liveness is re-checked
/// wherever a stale index would matter.
#[derive(Clone, Copy, Debug, PartialEq, Eq, Structural)]
pub enum AnchorState {
    /// Available for bonding.
    Clear,
    /// Permanently bonded to the body at this index.
    Occupied(usize),
    /// Geometrically obstructed by the body at this index; revocable by the
    /// clearance sweep once the obstruction is gone.
    Blocked(usize),
}

/// One anchor of a composite body: grid-rounded offset in the body's local
/// space, color, bonding state, and whether it belongs to the immovable
/// foundation.
#[derive(Clone, Copy, Debug, PartialEq, Eq, Structural)]
pub struct AnchorRec {
    pub off: Vec3F,
    pub color: AnchorColor,
    pub state: AnchorState,
    pub foundation: bool,
}

/// Whether an anchor in state `st` on the held side may pair against body
/// `other`: it must be clear, or blocked by that very body (re-snapping to
/// the obstructing neighbor stays allowed).
pub open spec fn eligible_against_spec(st: AnchorState, other: int) -> bool {
    st == AnchorState::Clear || st == AnchorState::Blocked(other as usize)
}

pub fn eligible_against(st: AnchorState, other: usize) -> (r: bool)
    ensures
        r == eligible_against_spec(st, other as int),
{
    match st {
        AnchorState::Clear => true,
        AnchorState::Blocked(e) => e == other,
        AnchorState::Occupied(_) => false,
    }
}

} // verus!
