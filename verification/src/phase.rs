//! Phase-completion reads of anchor state.
//!
//! The build phase ends once every non-foundation `Up` anchor on a placed
//! body is taken (occupied or blocked, never clear) and at least one such
//! anchor exists.  The decay phase ends once every placed block has
//! weathered.  The score is the number of weathered bodies that endure.

use vstd::prelude::*;

use crate::anchor::{AnchorColor, AnchorState};
use crate::world::{wf, World, WorldModel};

verus! {

/// A body whose anchors count toward completion: placed (alive, off the
/// tentacles) and not a pool resident.
pub open spec fn participant(m: WorldModel, b: int) -> bool {
    0 <= b < m.len() && m[b].alive && !m[b].on_tentacle && !m[b].in_pool
}

/// Build-phase completion: some participating anchor is not part of the
/// foundation, among those at least one is `Up`-colored, and no such `Up`
/// anchor is still clear.
pub open spec fn build_complete_spec(m: WorldModel) -> bool {
    &&& (exists|b: int, j: int|
        participant(m, b) && 0 <= j < m[b].anchors.len() && !(#[trigger] m[b].anchors[j]).foundation)
    &&& (exists|b: int, j: int|
        participant(m, b) && 0 <= j < m[b].anchors.len() && !(#[trigger] m[b].anchors[j]).foundation
            && m[b].anchors[j].color == AnchorColor::Up)
    &&& (forall|b: int, j: int|
        participant(m, b) && 0 <= j < m[b].anchors.len() && !(#[trigger] m[b].anchors[j]).foundation
            && m[b].anchors[j].color == AnchorColor::Up ==> m[b].anchors[j].state
            != AnchorState::Clear)
}

/// Scan the placed bodies and decide whether the build phase is complete.
pub fn build_complete(w: &World) -> (r: bool)
    requires
        wf(w@),
    ensures
        r == build_complete_spec(w@),
{
    let n = w.bodies.len();
    let mut any_nf = false;
    let mut any_up = false;
    let mut all_taken = true;
    let mut b: usize = 0;
    while b < n
        invariant
            n == w@.len(),
            b <= n,
            any_nf <==> (exists|bb: int, j: int|
                bb < (b as int) && participant(w@, bb) && 0 <= j < w@[bb].anchors.len() && !(
                #[trigger] w@[bb].anchors[j]).foundation),
            any_up <==> (exists|bb: int, j: int|
                bb < (b as int) && participant(w@, bb) && 0 <= j < w@[bb].anchors.len() && !(
                #[trigger] w@[bb].anchors[j]).foundation && w@[bb].anchors[j].color
                    == AnchorColor::Up),
            all_taken <==> (forall|bb: int, j: int|
                bb < (b as int) && participant(w@, bb) && 0 <= j < w@[bb].anchors.len() && !(
                #[trigger] w@[bb].anchors[j]).foundation && w@[bb].anchors[j].color
                    == AnchorColor::Up ==> w@[bb].anchors[j].state != AnchorState::Clear),
        decreases n - b,
    {
        proof {
            assert(w@[b as int] == w.bodies@[b as int]@);
        }
        if w.bodies[b].alive && !w.bodies[b].on_tentacle && !w.bodies[b].in_pool {
            let na = w.bodies[b].anchors.len();
            let mut j: usize = 0;
            while j < na
                invariant
                    n == w@.len(),
                    b < n,
                    j <= na,
                    participant(w@, b as int),
                    na == w@[b as int].anchors.len(),
                    any_nf <==> ((exists|bb: int, jj: int|
                        bb < (b as int) && participant(w@, bb) && 0 <= jj < w@[bb].anchors.len()
                            && !(#[trigger] w@[bb].anchors[jj]).foundation) || (exists|jj: int|
                        0 <= jj < (j as int) && !(#[trigger] w@[b as int].anchors[jj]).foundation)),
                    any_up <==> ((exists|bb: int, jj: int|
                        bb < (b as int) && participant(w@, bb) && 0 <= jj < w@[bb].anchors.len()
                            && !(#[trigger] w@[bb].anchors[jj]).foundation && w@[bb].anchors[jj].color
                            == AnchorColor::Up) || (exists|jj: int|
                        0 <= jj < (j as int) && !(#[trigger] w@[b as int].anchors[jj]).foundation
                            && w@[b as int].anchors[jj].color == AnchorColor::Up)),
                    all_taken <==> ((forall|bb: int, jj: int|
                        bb < (b as int) && participant(w@, bb) && 0 <= jj < w@[bb].anchors.len()
                            && !(#[trigger] w@[bb].anchors[jj]).foundation && w@[bb].anchors[jj].color
                            == AnchorColor::Up ==> w@[bb].anchors[jj].state != AnchorState::Clear)
                        && (forall|jj: int|
                        0 <= jj < (j as int) && !(#[trigger] w@[b as int].anchors[jj]).foundation
                            && w@[b as int].anchors[jj].color == AnchorColor::Up ==> w@[b as
                            int].anchors[jj].state != AnchorState::Clear)),
                decreases na - j,
            {
                proof {
                    assert(w@[b as int] == w.bodies@[b as int]@);
                }
                let a = w.bodies[b].anchors[j];
                if !a.foundation {
                    any_nf = true;
                    if a.color == AnchorColor::Up {
                        any_up = true;
                        if a.state == AnchorState::Clear {
                            all_taken = false;
                        }
                    }
                }
                j = j + 1;
            }
        }
        b = b + 1;
    }
    any_nf && any_up && all_taken
}

/// Decay-phase completion: every placed block has weathered.
pub open spec fn all_blocks_decayed_spec(m: WorldModel) -> bool {
    forall|b: int|
        0 <= b < m.len() && (#[trigger] m[b]).alive && m[b].is_block && !m[b].in_pool
            ==> m[b].decayed
}

/// Scan the arena and decide whether every placed block has weathered.
pub fn all_blocks_decayed(w: &World) -> (r: bool)
    ensures
        r == all_blocks_decayed_spec(w@),
{
    let n = w.bodies.len();
    let mut all = true;
    let mut b: usize = 0;
    while b < n
        invariant
            n == w@.len(),
            b <= n,
            all <==> (forall|bb: int|
                0 <= bb < (b as int) && (#[trigger] w@[bb]).alive && w@[bb].is_block
                    && !w@[bb].in_pool ==> w@[bb].decayed),
        decreases n - b,
    {
        proof {
            assert(w@[b as int] == w.bodies@[b as int]@);
        }
        if w.bodies[b].alive && w.bodies[b].is_block && !w.bodies[b].in_pool
            && !w.bodies[b].decayed {
            all = false;
        }
        b = b + 1;
    }
    all
}

/// How many of the first `k` arena slots hold a weathered body that endures.
pub open spec fn decayed_count_to(m: WorldModel, k: int) -> int
    decreases k,
{
    if k <= 0 {
        0
    } else {
        decayed_count_to(m, k - 1) + (if m[k - 1].alive && m[k - 1].decayed {
            1int
        } else {
            0int
        })
    }
}

/// The score source: the number of weathered bodies still standing.
pub fn decayed_count(w: &World) -> (r: usize)
    ensures
        r == decayed_count_to(w@, w@.len() as int),
{
    let n = w.bodies.len();
    let mut cnt: usize = 0;
    let mut b: usize = 0;
    while b < n
        invariant
            n == w@.len(),
            b <= n,
            cnt as int == decayed_count_to(w@, b as int),
            cnt <= b,
        decreases n - b,
    {
        proof {
            assert(w@[b as int] == w.bodies@[b as int]@);
        }
        if w.bodies[b].alive && w.bodies[b].decayed {
            cnt = cnt + 1;
        }
        b = b + 1;
    }
    cnt
}

} // verus!
