//! The scene arena: composite bodies with their transforms, colliders,
//! hierarchy links, and anchor collections.
//!
//! Bodies are held in an arena and named by stable indices, so a foreign
//! reference held in an anchor state stays detectable after the body it names
//! is destroyed (a liveness check against the arena, never a dangling
//! pointer).  A destroyed body keeps its slot with `alive == false`.

use vstd::prelude::*;

use crate::anchor::AnchorRec;
use crate::geom::{Pose, Vec3F};
use crate::units::{OFF_LIMIT, POS_LIMIT, SCALE_LIMIT};

verus! {

/// One composite body in the arena.
pub struct Body {
    /// Still present in the scene (not despawned or drowned).
    pub alive: bool,
    /// Swapped for a weathered variant; no longer carries anchors.
    pub decayed: bool,
    /// Marked for decay by a disaster strike; consumed by [`crate::protocol::apply_decay`].
    pub needs_decay: bool,
    /// A placeable block (may receive a collider and take part in disasters).
    pub is_block: bool,
    /// Opts out of collider derivation.
    pub no_collide: bool,
    /// The shared pool holder node; skipped when anchors look for an owner.
    pub is_pool: bool,
    /// Still a pool resident, not yet offered on a spawner.
    pub in_pool: bool,
    /// Still attached to its spawner tentacle; not a snap partner.
    pub on_tentacle: bool,
    /// Currently overlapping another collider (set by the pairwise sweep).
    pub in_collision: bool,
    /// May be grabbed by the player.
    pub pickable: bool,
    /// Parent in the scene hierarchy; always a smaller arena index.
    pub parent: Option<usize>,
    /// World transform.
    pub pose: Pose,
    /// World scale in ticks (1000 = 1.0); mirrored pool variants use -1000.
    pub scale: Vec3F,
    /// Collider half-extents, once one is attached.
    pub half: Option<Vec3F>,
    /// The anchor collection owned by this composite.
    pub anchors: Vec<AnchorRec>,
    /// Transform snapshot taken at drag start, for rollback.
    pub saved: Option<Pose>,
}

/// The mathematical model of a body: the same record with the anchor vector
/// abstracted to a sequence.
#[verifier::ext_equal]
pub ghost struct BodyModel {
    pub alive: bool,
    pub decayed: bool,
    pub needs_decay: bool,
    pub is_block: bool,
    pub no_collide: bool,
    pub is_pool: bool,
    pub in_pool: bool,
    pub on_tentacle: bool,
    pub in_collision: bool,
    pub pickable: bool,
    pub parent: Option<usize>,
    pub pose: Pose,
    pub scale: Vec3F,
    pub half: Option<Vec3F>,
    pub anchors: Seq<AnchorRec>,
    pub saved: Option<Pose>,
}

impl View for Body {
    type V = BodyModel;

    open spec fn view(&self) -> BodyModel {
        BodyModel {
            alive: self.alive,
            decayed: self.decayed,
            needs_decay: self.needs_decay,
            is_block: self.is_block,
            no_collide: self.no_collide,
            is_pool: self.is_pool,
            in_pool: self.in_pool,
            on_tentacle: self.on_tentacle,
            in_collision: self.in_collision,
            pickable: self.pickable,
            parent: self.parent,
            pose: self.pose,
            scale: self.scale,
            half: self.half,
            anchors: self.anchors@,
            saved: self.saved,
        }
    }
}

/// The whole scene as a model: one [`BodyModel`] per arena slot.
pub type WorldModel = Seq<BodyModel>;

/// The scene arena.
pub struct World {
    pub bodies: Vec<Body>,
}

impl View for World {
    type V = WorldModel;

    open spec fn view(&self) -> WorldModel {
        self.bodies@.map_values(|b: Body| b@)
    }
}

/// Index `i` names a live body.
pub open spec fn live(m: WorldModel, i: int) -> bool {
    0 <= i < m.len() && m[i].alive
}

/// Well-formedness of one arena slot: bounded coordinates and a parent link
/// that points strictly downward (so hierarchy walks terminate).
pub open spec fn wf_body(m: WorldModel, i: int) -> bool {
    let b = m[i];
    &&& b.pose.pos.bounded(POS_LIMIT as int)
    &&& (match b.saved {
        Some(s) => s.pos.bounded(POS_LIMIT as int),
        None => true,
    })
    &&& b.scale.bounded(SCALE_LIMIT as int)
    &&& (match b.half {
        Some(h) => h.bounded(OFF_LIMIT as int) && h.x >= 0 && h.y >= 0 && h.z >= 0,
        None => true,
    })
    &&& (forall|j: int|
        0 <= j < b.anchors.len() ==> (#[trigger] b.anchors[j]).off.bounded(OFF_LIMIT as int))
    &&& (match b.parent {
        Some(p) => (p as int) < i,
        None => true,
    })
}

/// Well-formedness of the whole arena.
pub open spec fn wf(m: WorldModel) -> bool {
    forall|i: int| 0 <= i < m.len() ==> wf_body(m, i)
}

impl World {
    /// An empty scene.
    pub fn new() -> (w: World)
        ensures
            w@ == Seq::<BodyModel>::empty(),
            wf(w@),
    {
        let w = World { bodies: Vec::new() };
        proof {
            assert(w@ =~= Seq::<BodyModel>::empty());
        }
        w
    }

    /// Number of arena slots, live or not.
    pub fn len(&self) -> (n: usize)
        ensures
            n == self@.len(),
    {
        self.bodies.len()
    }

    /// Read view of a body's anchor collection.
    pub fn anchors(&self, b: usize) -> (r: &Vec<AnchorRec>)
        requires
            (b as int) < self@.len(),
        ensures
            r@ == self@[b as int].anchors,
    {
        proof {
            assert(self@[b as int] == self.bodies@[b as int]@);
        }
        &self.bodies[b].anchors
    }

    /// Append a body to the arena and return its index.
    pub fn push_body(&mut self, body: Body) -> (idx: usize)
        requires
            wf(old(self)@),
            wf_pushed(old(self)@, body@),
        ensures
            final(self)@ == old(self)@.push(body@),
            idx == old(self)@.len(),
            wf(final(self)@),
    {
        let idx = self.bodies.len();
        let ghost bv = body@;
        self.bodies.push(body);
        proof {
            assert(self@ =~= old(self)@.push(bv));
            assert forall|i: int| 0 <= i < self@.len() implies wf_body(self@, i) by {
                if i < old(self)@.len() {
                    assert(wf_body(old(self)@, i));
                    assert(self@[i] == old(self)@[i]);
                }
            }
        }
        idx
    }
}

/// What a body must satisfy to be pushed at the end of arena `m`.
pub open spec fn wf_pushed(m: WorldModel, b: BodyModel) -> bool {
    &&& b.pose.pos.bounded(POS_LIMIT as int)
    &&& (match b.saved {
        Some(s) => s.pos.bounded(POS_LIMIT as int),
        None => true,
    })
    &&& b.scale.bounded(SCALE_LIMIT as int)
    &&& (match b.half {
        Some(h) => h.bounded(OFF_LIMIT as int) && h.x >= 0 && h.y >= 0 && h.z >= 0,
        None => true,
    })
    &&& (forall|j: int|
        0 <= j < b.anchors.len() ==> (#[trigger] b.anchors[j]).off.bounded(OFF_LIMIT as int))
    &&& (match b.parent {
        Some(p) => (p as int) < m.len(),
        None => true,
    })
}

} // verus!
