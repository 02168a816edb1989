//! Anchor registration: raw anchor markers discovered under a sub-part are
//! lifted to the composite body that owns them.
//!
//! The owner is the topmost ancestor in the scene hierarchy that is not the
//! shared pool holder.  The marker's local offset is scaled by the owner's
//! world scale and rounded onto the whole-unit grid, and the resulting record
//! starts clear.  Each marker is consumed exactly once; anchor indices, once
//! assigned, stay stable for the lifetime of the collection.

use vstd::prelude::*;

use crate::anchor::{AnchorColor, AnchorRec, AnchorState};
use crate::geom::Vec3F;
use crate::units::{grid_offset, grid_offset_spec, RAW_LIMIT};
use crate::world::{live, wf, wf_body, BodyModel, World, WorldModel};

verus! {

/// A raw anchor marker as discovered inside a loaded mesh: the arena node it
/// was found under, its local offset in ticks, its color, and whether it
/// belongs to the immovable foundation.
#[derive(Clone, Copy, Debug, PartialEq, Eq, Structural)]
pub struct Marker {
    pub node: usize,
    pub off: Vec3F,
    pub color: AnchorColor,
    pub foundation: bool,
}

/// The topmost non-pool node among `x` and its ancestors, if any.
pub open spec fn top_non_pool(m: WorldModel, x: int) -> Option<usize>
    decreases x,
{
    if 0 <= x < m.len() {
        let up = match m[x].parent {
            Some(p) => if (p as int) < x {
                top_non_pool(m, p as int)
            } else {
                None
            },
            None => None,
        };
        if up is Some {
            up
        } else if !m[x].is_pool {
            Some(x as usize)
        } else {
            None
        }
    } else {
        None
    }
}

/// The composite owner of a node: the topmost non-pool strict ancestor.
pub open spec fn owner_spec(m: WorldModel, node: int) -> Option<usize> {
    if 0 <= node < m.len() {
        match m[node].parent {
            Some(p) => top_non_pool(m, p as int),
            None => None,
        }
    } else {
        None
    }
}

/// Walk the hierarchy upward from `node` and return the topmost ancestor that
/// is not the pool holder; `None` when the node is out of range, a root, or
/// every ancestor is the pool.
pub fn composite_owner(w: &World, node: usize) -> (r: Option<usize>)
    requires
        wf(w@),
    ensures
        r == owner_spec(w@, node as int),
{
    if node >= w.bodies.len() {
        return None;
    }
    let mut cur: Option<usize> = w.bodies[node].parent;
    let mut best: Option<usize> = None;
    proof {
        assert(wf_body(w@, node as int));
        assert(w@[node as int] == w.bodies@[node as int]@);
    }
    loop
        invariant
            wf(w@),
            (match cur {
                Some(c) => c < w@.len() && (match top_non_pool(w@, c as int) {
                    Some(o) => Some(o) == owner_spec(w@, node as int),
                    None => best == owner_spec(w@, node as int),
                }),
                None => best == owner_spec(w@, node as int),
            }),
        decreases (match cur {
            Some(c) => c as int + 1,
            None => 0,
        }),
    {
        match cur {
            Some(c) => {
                proof {
                    assert(wf_body(w@, c as int));
                    assert(w@[c as int] == w.bodies@[c as int]@);
                }
                if !w.bodies[c].is_pool {
                    best = Some(c);
                }
                cur = w.bodies[c].parent;
            },
            None => {
                return best;
            },
        }
    }
}

/// The anchor record a marker turns into once lifted to owner `b`: offset
/// scaled by the owner's scale, rounded to the grid, starting clear.
pub open spec fn registered_rec(b: BodyModel, mk: Marker) -> AnchorRec {
    AnchorRec {
        off: Vec3F {
            x: grid_offset_spec(mk.off.x as int, b.scale.x as int) as i64,
            y: grid_offset_spec(mk.off.y as int, b.scale.y as int) as i64,
            z: grid_offset_spec(mk.off.z as int, b.scale.z as int) as i64,
        },
        color: mk.color,
        state: AnchorState::Clear,
        foundation: mk.foundation,
    }
}

/// The arena after consuming one marker: the record is appended to the live
/// composite owner's collection; a marker with no live owner is dropped.
pub open spec fn register_one(m: WorldModel, mk: Marker) -> WorldModel {
    match owner_spec(m, mk.node as int) {
        Some(o) => if live(m, o as int) {
            let b = m[o as int];
            m.update(o as int, BodyModel { anchors: b.anchors.push(registered_rec(b, mk)), ..b })
        } else {
            m
        },
        None => m,
    }
}

/// The arena after consuming a list of markers in order.
pub open spec fn register_all(m: WorldModel, mks: Seq<Marker>) -> WorldModel
    decreases mks.len(),
{
    if mks.len() == 0 {
        m
    } else {
        register_all(register_one(m, mks[0]), mks.drop_first())
    }
}

/// Consume one raw marker: find its composite owner, scale and grid-round its
/// offset, and append the clear record to the owner's collection.
pub fn register_marker(w: &mut World, mk: Marker)
    requires
        wf(old(w)@),
        mk.off.bounded(RAW_LIMIT as int),
    ensures
        final(w)@ == register_one(old(w)@, mk),
        wf(final(w)@),
{
    let owner = composite_owner(w, mk.node);
    match owner {
        Some(o) => {
            proof {
                lemma_top_non_pool_in_range(old(w)@, mk.node as int);
                assert(w@[o as int] == w.bodies@[o as int]@);
                assert(wf_body(w@, o as int));
            }
            if w.bodies[o].alive {
                let sc = w.bodies[o].scale;
                let rec = AnchorRec {
                    off: Vec3F {
                        x: grid_offset(mk.off.x, sc.x),
                        y: grid_offset(mk.off.y, sc.y),
                        z: grid_offset(mk.off.z, sc.z),
                    },
                    color: mk.color,
                    state: AnchorState::Clear,
                    foundation: mk.foundation,
                };
                let body = &mut w.bodies[o];
                body.anchors.push(rec);
                proof {
                    assert(final(w)@ =~= register_one(old(w)@, mk));
                    assert_wf_after(old(w)@, final(w)@, o as int);
                }
            }
        },
        None => {},
    }
}

/// Consume a batch of raw markers in order.
pub fn register_markers(w: &mut World, markers: Vec<Marker>)
    requires
        wf(old(w)@),
        forall|k: int|
            0 <= k < markers@.len() ==> (#[trigger] markers@[k]).off.bounded(RAW_LIMIT as int),
    ensures
        final(w)@ == register_all(old(w)@, markers@),
        wf(final(w)@),
{
    let n = markers.len();
    let mut k: usize = 0;
    proof {
        assert(markers@.skip(0) =~= markers@);
    }
    while k < n
        invariant
            n == markers@.len(),
            k <= n,
            wf(w@),
            forall|t: int|
                0 <= t < markers@.len() ==> (#[trigger] markers@[t]).off.bounded(RAW_LIMIT as int),
            register_all(old(w)@, markers@) == register_all(w@, markers@.skip(k as int)),
        decreases n - k,
    {
        let ghost pre = w@;
        register_marker(w, markers[k]);
        proof {
            assert(markers@.skip(k as int).drop_first() =~= markers@.skip(k as int + 1));
            assert(markers@.skip(k as int)[0] == markers@[k as int]);
            assert(register_all(pre, markers@.skip(k as int)) == register_all(
                register_one(pre, markers@[k as int]),
                markers@.skip(k as int + 1),
            ));
        }
        k = k + 1;
    }
    proof {
        assert(markers@.skip(n as int) =~= Seq::<Marker>::empty());
    }
}

/// An owner returned by the hierarchy walk is always a valid arena index.
proof fn lemma_top_non_pool_in_range(m: WorldModel, node: int)
    ensures
        match owner_spec(m, node) {
            Some(o) => (o as int) < m.len(),
            None => true,
        },
{
    if 0 <= node < m.len() {
        match m[node].parent {
            Some(p) => {
                lemma_top_in_range(m, p as int);
            },
            None => {},
        }
    }
}

proof fn lemma_top_in_range(m: WorldModel, x: int)
    ensures
        match top_non_pool(m, x) {
            Some(o) => 0 <= (o as int) < m.len(),
            None => true,
        },
    decreases x,
{
    if 0 <= x < m.len() {
        match m[x].parent {
            Some(p) => {
                if (p as int) < x {
                    lemma_top_in_range(m, p as int);
                }
            },
            None => {},
        }
    }
}

/// Appending a bounded anchor to slot `o` preserves arena well-formedness.
proof fn assert_wf_after(pre: WorldModel, post: WorldModel, o: int)
    requires
        wf(pre),
        0 <= o < pre.len(),
        post.len() == pre.len(),
        forall|i: int| 0 <= i < post.len() && i != o ==> post[i] == pre[i],
        post[o].anchors.len() == pre[o].anchors.len() + 1,
        forall|j: int| 0 <= j < pre[o].anchors.len() ==> post[o].anchors[j] == pre[o].anchors[j],
        post[o].anchors.last().off.bounded(crate::units::OFF_LIMIT as int),
        post[o] == (BodyModel { anchors: post[o].anchors, ..pre[o] }),
    ensures
        wf(post),
{
    assert forall|i: int| 0 <= i < post.len() implies wf_body(post, i) by {
        assert(wf_body(pre, i));
        if i == o {
            assert forall|j: int| 0 <= j < post[o].anchors.len() implies (#[trigger] post[o]
                .anchors[j]).off.bounded(crate::units::OFF_LIMIT as int) by {
                if j < pre[o].anchors.len() {
                    assert(post[o].anchors[j] == pre[o].anchors[j]);
                } else {
                    assert(post[o].anchors[j] == post[o].anchors.last());
                }
            }
        }
    }
}

} // verus!
