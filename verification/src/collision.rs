//! Collider derivation, the pairwise collision tagging sweep, and the
//! clearance sweep that re-probes `Up` anchors.
//!
//! Colliders are cuboids sized to 90% of a block's bounding box.  Every frame
//! the pairwise sweep tags each collidable body as in collision when any
//! other collidable body overlaps it; the matcher suppresses snapping for a
//! held body so tagged.  The clearance sweep probes a unit cuboid centered
//! one unit above each `Up` anchor against every other body's collider and
//! flips the anchor between `Clear` and `Blocked(obstructor)`.  The sweep
//! never touches an anchor occupied by a live peer, but an anchor occupied by
//! a vanished peer is a dangling bond and is nulled back to the sweep's
//! ordinary rules.

use vstd::prelude::*;

use crate::anchor::{AnchorColor, AnchorRec, AnchorState};
use crate::geom::{aabb_overlap, overlap_spec, Vec3F};
use crate::units::{OFF_LIMIT, UNIT};
use crate::world::{live, wf, wf_body, BodyModel, World, WorldModel};

verus! {

/// Half-extents of the probe cuboid: one world unit across.
pub open spec fn probe_half_spec() -> Vec3F {
    Vec3F { x: 500, y: 500, z: 500 }
}

/// The collider half-extents of a body, zero when it has none.
pub open spec fn half_of(b: BodyModel) -> Vec3F {
    match b.half {
        Some(h) => h,
        None => Vec3F { x: 0, y: 0, z: 0 },
    }
}

/// Whether the body at `o` obstructs a probe cuboid at `probe`: it must be a
/// live collidable body other than `skip` (an anchor never blocks against its
/// own owning body).
pub open spec fn obstructs_at(m: WorldModel, skip: int, probe: Vec3F, o: int) -> bool {
    &&& 0 <= o < m.len()
    &&& o != skip
    &&& m[o].alive
    &&& m[o].half is Some
    &&& overlap_spec(probe, probe_half_spec(), m[o].pose.pos, half_of(m[o]))
}

/// The first obstructor at or after index `k`, scanning in arena order.
pub open spec fn obstructor_from(m: WorldModel, skip: int, probe: Vec3F, k: int) -> Option<usize>
    decreases m.len() - k,
{
    if 0 <= k < m.len() {
        if obstructs_at(m, skip, probe, k) {
            Some(k as usize)
        } else {
            obstructor_from(m, skip, probe, k + 1)
        }
    } else {
        None
    }
}

/// The first body obstructing a probe cuboid at `probe`, in arena order.
pub open spec fn obstructor_spec(m: WorldModel, skip: int, probe: Vec3F) -> Option<usize> {
    obstructor_from(m, skip, probe, 0)
}

/// Scan the arena for the first body whose collider overlaps the probe
/// cuboid at `probe`, skipping the probing body itself.
pub fn find_obstructor(w: &World, skip: usize, probe: Vec3F) -> (r: Option<usize>)
    requires
        wf(w@),
        probe.bounded(crate::geom::CALC_LIMIT as int),
    ensures
        r == obstructor_spec(w@, skip as int, probe),
{
    let n = w.bodies.len();
    let mut k: usize = 0;
    while k < n
        invariant
            wf(w@),
            n == w@.len(),
            k <= n,
            probe.bounded(crate::geom::CALC_LIMIT as int),
            obstructor_spec(w@, skip as int, probe) == obstructor_from(
                w@,
                skip as int,
                probe,
                k as int,
            ),
        decreases n - k,
    {
        proof {
            assert(w@[k as int] == w.bodies@[k as int]@);
            assert(wf_body(w@, k as int));
        }
        if k != skip && w.bodies[k].alive {
            match w.bodies[k].half {
                Some(h) => {
                    let ph = Vec3F { x: 500, y: 500, z: 500 };
                    if aabb_overlap(probe, ph, w.bodies[k].pose.pos, h) {
                        return Some(k);
                    }
                },
                None => {},
            }
        }
        k = k + 1;
    }
    None
}

/// A body's derived collider: a cuboid at 90% of its bounding-box half
/// extents.
pub open spec fn derived_half_spec(h: Vec3F) -> Vec3F {
    Vec3F { x: (h.x * 9 / 10) as i64, y: (h.y * 9 / 10) as i64, z: (h.z * 9 / 10) as i64 }
}

/// The arena after offering bounding-box half-extents `h` to body `b`: a
/// live block without a collider and not opted out receives a cuboid at 90%
/// of `h`; anything else is left alone.
pub open spec fn attach_model(m: WorldModel, b: int, h: Vec3F) -> WorldModel {
    if 0 <= b < m.len() && m[b].alive && m[b].is_block && !m[b].no_collide && m[b].half is None {
        m.update(b, BodyModel { half: Some(derived_half_spec(h)), ..m[b] })
    } else {
        m
    }
}

/// Attach the derived collider (90% of the bounding box) to body `b`, once:
/// a body that already has a collider, opted out, or is not a live block is
/// left alone.
pub fn attach_collider(w: &mut World, b: usize, aabb_half: Vec3F)
    requires
        wf(old(w)@),
        0 <= aabb_half.x <= OFF_LIMIT,
        0 <= aabb_half.y <= OFF_LIMIT,
        0 <= aabb_half.z <= OFF_LIMIT,
    ensures
        final(w)@ == attach_model(old(w)@, b as int, aabb_half),
        wf(final(w)@),
{
    if b >= w.bodies.len() {
        return ;
    }
    proof {
        assert(w@[b as int] == w.bodies@[b as int]@);
        assert(wf_body(w@, b as int));
    }
    let attach = w.bodies[b].alive && w.bodies[b].is_block && !w.bodies[b].no_collide
        && w.bodies[b].half.is_none();
    if attach {
        let h = Vec3F {
            x: aabb_half.x * 9 / 10,
            y: aabb_half.y * 9 / 10,
            z: aabb_half.z * 9 / 10,
        };
        let body = &mut w.bodies[b];
        body.half = Some(h);
        proof {
            assert(final(w)@ =~= attach_model(old(w)@, b as int, aabb_half));
            assert forall|i: int| 0 <= i < final(w)@.len() implies wf_body(final(w)@, i) by {
                assert(wf_body(old(w)@, i));
                if i != b as int {
                    assert(final(w)@[i] == old(w)@[i]);
                }
            }
        }
    }
}

/// Whether any other live collidable body overlaps body `b`'s collider.
pub open spec fn collides_any(m: WorldModel, b: int) -> bool {
    exists|o: int|
        0 <= o < m.len() && o != b && m[o].alive && m[o].half is Some && overlap_spec(
            m[b].pose.pos,
            half_of(m[b]),
            m[o].pose.pos,
            half_of(m[o]),
        )
}

/// The arena after the pairwise collision tagging sweep: every live
/// collidable body's `in_collision` flag is recomputed; everything else is
/// untouched.
pub open spec fn tag_model(m: WorldModel) -> WorldModel {
    Seq::new(
        m.len(),
        |b: int|
            if m[b].alive && m[b].half is Some {
                BodyModel { in_collision: collides_any(m, b), ..m[b] }
            } else {
                m[b]
            },
    )
}

/// The pairwise collision sweep: recompute `in_collision` for every live
/// collidable body from the current scene.
pub fn tag_collisions(w: &mut World)
    requires
        wf(old(w)@),
    ensures
        final(w)@ == tag_model(old(w)@),
        wf(final(w)@),
{
    let n = w.bodies.len();
    let mut b: usize = 0;
    while b < n
        invariant
            wf(old(w)@),
            n == old(w)@.len(),
            n == w@.len(),
            b <= n,
            forall|i: int| b <= i < n ==> w@[i] == old(w)@[i],
            forall|i: int| 0 <= i < b ==> w@[i] == tag_model(old(w)@)[i],
        decreases n - b,
    {
        proof {
            assert(w@[b as int] == w.bodies@[b as int]@);
            assert(w@[b as int] == old(w)@[b as int]);
            assert(wf_body(old(w)@, b as int));
        }
        if w.bodies[b].alive && w.bodies[b].half.is_some() {
            let pb = w.bodies[b].pose.pos;
            let hb = match w.bodies[b].half {
                Some(h) => h,
                None => Vec3F { x: 0, y: 0, z: 0 },
            };
            let mut any = false;
            let mut o: usize = 0;
            while o < n
                invariant
                    wf(old(w)@),
                    n == old(w)@.len(),
                    n == w@.len(),
                    b < n,
                    o <= n,
                    forall|i: int| b <= i < n ==> w@[i] == old(w)@[i],
                    forall|i: int| 0 <= i < b ==> w@[i] == tag_model(old(w)@)[i],
                    pb == old(w)@[b as int].pose.pos,
                    hb == half_of(old(w)@[b as int]),
                    pb.bounded(crate::geom::CALC_LIMIT as int),
                    hb.bounded(OFF_LIMIT as int),
                    any <==> (exists|t: int|
                        0 <= t < o && t != b && old(w)@[t].alive && old(w)@[t].half is Some
                            && overlap_spec(
                            pb,
                            hb,
                            old(w)@[t].pose.pos,
                            half_of(old(w)@[t]),
                        )),
                decreases n - o,
            {
                proof {
                    assert(w@[o as int] == w.bodies@[o as int]@);
                    if o as int >= b as int {
                        assert(w@[o as int] == old(w)@[o as int]);
                    } else {
                        assert(w@[o as int] == tag_model(old(w)@)[o as int]);
                    }
                    assert(wf_body(old(w)@, o as int));
                }
                if o != b && w.bodies[o].alive {
                    match w.bodies[o].half {
                        Some(ho) => {
                            let po = w.bodies[o].pose.pos;
                            if aabb_overlap(pb, hb, po, ho) {
                                any = true;
                            }
                        },
                        None => {},
                    }
                }
                o = o + 1;
            }
            proof {
                assert(any == collides_any(old(w)@, b as int));
            }
            let ghost prev = w@;
            let body = &mut w.bodies[b];
            body.in_collision = any;
            proof {
                assert(w@[b as int] == w.bodies@[b as int]@);
                assert(w@[b as int] =~= tag_model(old(w)@)[b as int]);
                assert forall|i: int| 0 <= i < b as int + 1 implies w@[i] == tag_model(old(w)@)[i] by {
                    if i < b as int {
                        assert(w@[i] == w.bodies@[i]@);
                        assert(prev[i] == tag_model(old(w)@)[i]);
                    }
                }
                assert forall|i: int| b as int + 1 <= i < n implies w@[i] == old(w)@[i] by {
                    assert(w@[i] == w.bodies@[i]@);
                    assert(prev[i] == old(w)@[i]);
                }
            }
        } else {
            proof {
                assert(w@[b as int] =~= tag_model(old(w)@)[b as int]);
                assert(forall|i: int| 0 <= i < b as int + 1 ==> w@[i] == tag_model(old(w)@)[i]);
            }
        }
        b = b + 1;
    }
    proof {
        assert(final(w)@ =~= tag_model(old(w)@));
        assert forall|i: int| 0 <= i < final(w)@.len() implies wf_body(final(w)@, i) by {
            assert(wf_body(old(w)@, i));
        }
    }
}

/// The world position probed for an `Up` anchor: the owning body's position
/// plus the anchor offset, lifted one unit up.
pub open spec fn probe_point_spec(m: WorldModel, b: int, j: int) -> Vec3F {
    let p = m[b].pose.pos;
    let a = m[b].anchors[j];
    Vec3F {
        x: (p.x + a.off.x) as i64,
        y: (p.y + a.off.y + UNIT) as i64,
        z: (p.z + a.off.z) as i64,
    }
}

/// A bond whose peer has vanished from the arena is dangling; the sweep
/// nulls it back to `Clear` rather than leaving it occupied forever.
pub open spec fn undangled_state(m: WorldModel, st: AnchorState) -> AnchorState {
    match st {
        AnchorState::Occupied(p) => if live(m, p as int) {
            st
        } else {
            AnchorState::Clear
        },
        _ => st,
    }
}

/// What one anchor reads after the clearance sweep: dangling bonds are
/// nulled; an `Up` anchor that is clear or blocked is re-probed and settles
/// to `Blocked(first obstructor)` or `Clear`; everything else keeps its
/// state.  A bond to a live peer is never touched.
pub open spec fn sweep_rec(m: WorldModel, b: int, j: int) -> AnchorRec {
    let a = m[b].anchors[j];
    let st = undangled_state(m, a.state);
    if a.color == AnchorColor::Up && (st == AnchorState::Clear || st is Blocked) {
        match obstructor_spec(m, b, probe_point_spec(m, b, j)) {
            Some(o) => AnchorRec { state: AnchorState::Blocked(o), ..a },
            None => AnchorRec { state: AnchorState::Clear, ..a },
        }
    } else {
        AnchorRec { state: st, ..a }
    }
}

/// One body after the clearance sweep: every anchor re-evaluated against the
/// pre-sweep scene.  Probes read only positions and colliders, which the
/// sweep never changes, so the sweep is pointwise in the pre-sweep model.
pub open spec fn sweep_body(m: WorldModel, b: int) -> BodyModel {
    if m[b].alive {
        BodyModel { anchors: Seq::new(m[b].anchors.len(), |j: int| sweep_rec(m, b, j)), ..m[b] }
    } else {
        m[b]
    }
}

/// The whole arena after the clearance sweep.
pub open spec fn sweep_model(m: WorldModel) -> WorldModel {
    Seq::new(m.len(), |b: int| sweep_body(m, b))
}

/// The first-obstructor scan depends only on liveness, colliders and
/// positions, so two models that agree on those agree on the scan.
proof fn lemma_obstructor_congruence(
    m1: WorldModel,
    m2: WorldModel,
    skip: int,
    probe: Vec3F,
    k: int,
)
    requires
        m1.len() == m2.len(),
        forall|i: int|
            0 <= i < m1.len() ==> (#[trigger] m1[i]).alive == m2[i].alive && m1[i].half
                == m2[i].half && m1[i].pose == m2[i].pose,
    ensures
        obstructor_from(m1, skip, probe, k) == obstructor_from(m2, skip, probe, k),
    decreases m1.len() - k,
{
    if 0 <= k < m1.len() {
        assert(obstructs_at(m1, skip, probe, k) == obstructs_at(m2, skip, probe, k));
        lemma_obstructor_congruence(m1, m2, skip, probe, k + 1);
    }
}

/// The periodic clearance sweep: re-evaluate every anchor of every live body
/// against the current scene, as [`sweep_model`] describes.
pub fn clearance_sweep(w: &mut World)
    requires
        wf(old(w)@),
    ensures
        final(w)@ == sweep_model(old(w)@),
        wf(final(w)@),
{
    let n = w.bodies.len();
    let mut b: usize = 0;
    while b < n
        invariant
            wf(old(w)@),
            n == old(w)@.len(),
            n == w@.len(),
            b <= n,
            wf(w@),
            forall|i: int| b <= i < n ==> w@[i] == old(w)@[i],
            forall|i: int| 0 <= i < b ==> w@[i] == sweep_model(old(w)@)[i],
        decreases n - b,
    {
        proof {
            assert(w@[b as int] == w.bodies@[b as int]@);
            assert(wf_body(old(w)@, b as int));
        }
        if w.bodies[b].alive {
            let na = w.bodies[b].anchors.len();
            let mut j: usize = 0;
            while j < na
                invariant
                    wf(old(w)@),
                    n == old(w)@.len(),
                    n == w@.len(),
                    b < n,
                    j <= na,
                    wf(w@),
                    old(w)@[b as int].alive,
                    na == old(w)@[b as int].anchors.len(),
                    forall|i: int| b < i < n ==> w@[i] == old(w)@[i],
                    forall|i: int| 0 <= i < b ==> w@[i] == sweep_model(old(w)@)[i],
                    w@[b as int].anchors.len() == na,
                    forall|t: int|
                        j <= t < na ==> w@[b as int].anchors[t] == old(w)@[b as int].anchors[t],
                    forall|t: int|
                        0 <= t < j ==> w@[b as int].anchors[t] == sweep_rec(old(w)@, b as int, t),
                    w@[b as int] == (BodyModel {
                        anchors: w@[b as int].anchors,
                        ..old(w)@[b as int]
                    }),
                decreases na - j,
            {
                proof {
                    assert(w@[b as int] == w.bodies@[b as int]@);
                    assert_fields_preserved(old(w)@, w@, b as int);
                }
                let a = w.bodies[b].anchors[j];
                let st = match a.state {
                    AnchorState::Occupied(p) => {
                        if p < n && w.bodies[p].alive {
                            proof {
                                assert(w@[p as int] == w.bodies@[p as int]@);
                            }
                            AnchorState::Occupied(p)
                        } else {
                            proof {
                                if p < n {
                                    assert(w@[p as int] == w.bodies@[p as int]@);
                                }
                            }
                            AnchorState::Clear
                        }
                    },
                    other => other,
                };
                proof {
                    assert(st == undangled_state(old(w)@, a.state));
                }
                let probing = a.color == AnchorColor::Up && (match st {
                    AnchorState::Clear => true,
                    AnchorState::Blocked(_) => true,
                    AnchorState::Occupied(_) => false,
                });
                let ns: AnchorState = if probing {
                    proof {
                        assert(wf_body(old(w)@, b as int));
                        assert(old(w)@[b as int].anchors[j as int].off.bounded(OFF_LIMIT as int));
                        assert(w@[b as int].pose == old(w)@[b as int].pose);
                    }
                    let pos = w.bodies[b].pose.pos;
                    let probe = Vec3F {
                        x: pos.x + a.off.x,
                        y: pos.y + a.off.y + UNIT,
                        z: pos.z + a.off.z,
                    };
                    proof {
                        assert(probe == probe_point_spec(old(w)@, b as int, j as int));
                    }
                    let found = find_obstructor(w, b, probe);
                    proof {
                        lemma_obstructor_congruence(w@, old(w)@, b as int, probe, 0);
                    }
                    match found {
                        Some(o) => AnchorState::Blocked(o),
                        None => AnchorState::Clear,
                    }
                } else {
                    st
                };
                let mut rec = a;
                rec.state = ns;
                proof {
                    assert(rec == sweep_rec(old(w)@, b as int, j as int));
                }
                let ghost prev = w@;
                let body = &mut w.bodies[b];
                body.anchors[j] = rec;
                proof {
                    assert(w@[b as int] == w.bodies@[b as int]@);
                    assert forall|i: int| 0 <= i < n && i != b as int implies w@[i] == prev[i] by {
                        assert(w@[i] == w.bodies@[i]@);
                    }
                    assert forall|i: int| (b as int) < i < n implies w@[i] == old(w)@[i] by {
                        assert(w@[i] == prev[i]);
                    }
                    assert forall|i: int| 0 <= i < b as int implies w@[i] == sweep_model(old(w)@)[i] by {
                        assert(w@[i] == prev[i]);
                    }
                    assert(w@[b as int].anchors =~= prev[b as int].anchors.update(j as int, rec));
                    assert(w@[b as int] == (BodyModel {
                        anchors: w@[b as int].anchors,
                        ..old(w)@[b as int]
                    }));
                    assert(rec.off == old(w)@[b as int].anchors[j as int].off);
                    assert forall|i: int| 0 <= i < n implies wf_body(w@, i) by {
                        assert(wf_body(prev, i));
                        if i == b as int {
                            assert forall|t: int|
                                0 <= t < w@[i].anchors.len() implies (#[trigger] w@[i]
                                .anchors[t]).off.bounded(OFF_LIMIT as int) by {
                                if t == j as int {
                                    assert(wf_body(old(w)@, i));
                                } else {
                                    assert(w@[i].anchors[t] == prev[i].anchors[t]);
                                }
                            }
                        } else {
                            assert(w@[i] == prev[i]);
                        }
                    }
                }
                j = j + 1;
            }
            proof {
                assert(w@[b as int].anchors =~= Seq::new(
                    old(w)@[b as int].anchors.len(),
                    |t: int| sweep_rec(old(w)@, b as int, t),
                ));
                assert(w@[b as int] =~= sweep_body(old(w)@, b as int));
                assert(w@[b as int] == sweep_model(old(w)@)[b as int]);
            }
        } else {
            proof {
                assert(w@[b as int] =~= sweep_model(old(w)@)[b as int]);
            }
        }
        b = b + 1;
    }
    proof {
        assert(final(w)@ =~= sweep_model(old(w)@));
        assert forall|i: int| 0 <= i < final(w)@.len() implies wf_body(final(w)@, i) by {
            assert(wf_body(old(w)@, i));
            assert(final(w)@[i] == sweep_model(old(w)@)[i]);
            if old(w)@[i].alive {
                assert forall|t: int| 0 <= t < final(w)@[i].anchors.len() implies (
                #[trigger] final(w)@[i].anchors[t]).off.bounded(OFF_LIMIT as int) by {
                    assert(final(w)@[i].anchors[t] == sweep_rec(old(w)@, i, t));
                    assert(old(w)@[i].anchors[t].off.bounded(OFF_LIMIT as int));
                }
            }
        }
    }
}

/// Everything the probes read (liveness, collider, position) agrees between
/// the partially swept arena and the pre-sweep arena.
proof fn assert_fields_preserved(pre: WorldModel, cur: WorldModel, b: int)
    requires
        pre.len() == cur.len(),
        0 <= b < pre.len(),
        forall|i: int| b < i < pre.len() ==> cur[i] == pre[i],
        forall|i: int| 0 <= i < b ==> cur[i] == sweep_model(pre)[i],
        cur[b] == (BodyModel { anchors: cur[b].anchors, ..pre[b] }),
    ensures
        forall|i: int|
            0 <= i < cur.len() ==> (#[trigger] cur[i]).alive == pre[i].alive && cur[i].half
                == pre[i].half && cur[i].pose == pre[i].pose,
{
    assert forall|i: int|
        0 <= i < cur.len() implies (#[trigger] cur[i]).alive == pre[i].alive && cur[i].half
        == pre[i].half && cur[i].pose == pre[i].pose by {
        if i < b {
            assert(cur[i] == sweep_model(pre)[i]);
            assert(sweep_model(pre)[i] == sweep_body(pre, i));
        }
    }
}

} // verus!
