//! The commit, rollback and disaster protocol.
//!
//! Ending a drag is the single decision point: with a live snap proposal the
//! bond is committed (both anchors become occupied, bidirectionally, in one
//! atomic step — the commit validates both sides first, so a half-written
//! bond can never arise); without one the body either drowns below the water
//! plane or rolls back to the pose saved at drag start.  A commit against a
//! vanished body fails soft into the rollback path rather than panicking.
//!
//! The disaster hook is the one write surface offered to the decay
//! collaborator: every anchor occupied by a struck body, and every occupied
//! anchor on a struck body, flips to `Blocked(peer)`; struck blocks are
//! marked for decay and later swapped for anchorless weathered variants.

use vstd::prelude::*;

use crate::anchor::{AnchorRec, AnchorState};
use crate::geom::{Pose, Vec3F};
use crate::matcher::SnapCandidate;
use crate::units::POS_LIMIT;
use crate::world::{live, wf, wf_body, BodyModel, World, WorldModel};

verus! {

/// What happened when a drag ended.
#[derive(Clone, Copy, Debug, PartialEq, Eq, Structural)]
pub enum ReleaseOutcome {
    /// The proposal was valid; both anchors are now occupied and the body is
    /// placed at the corrected position.
    Committed,
    /// No proposal and the body had fallen below the water plane; it was
    /// destroyed.
    Drowned,
    /// The body was restored to the pose saved at drag start.
    RolledBack,
    /// The body had vanished, or there was nothing to commit and no snapshot
    /// to restore.
    NoAction,
}

/// The arena after a drag starts on `held`: its pose is snapshotted for
/// rollback and its height is pinned to the foundation plane.  A body that
/// is gone or already carries a snapshot is left alone.
pub open spec fn begin_model(m: WorldModel, held: int, fz: i64) -> WorldModel {
    if live(m, held) && m[held].saved is None {
        let b = m[held];
        m.update(
            held,
            BodyModel {
                saved: Some(b.pose),
                pose: Pose { pos: Vec3F { x: b.pose.pos.x, y: b.pose.pos.y, z: fz }, rot: b.pose.rot },
                ..b
            },
        )
    } else {
        m
    }
}

/// Start a drag: save the held body's pose and pin its height to the
/// foundation plane.  Acts once per drag (a body that already has a
/// snapshot is left alone) and returns whether it acted.
pub fn begin_drag(w: &mut World, held: usize, foundation_z: i64) -> (r: bool)
    requires
        wf(old(w)@),
        -POS_LIMIT <= foundation_z <= POS_LIMIT,
    ensures
        final(w)@ == begin_model(old(w)@, held as int, foundation_z),
        wf(final(w)@),
        r == (live(old(w)@, held as int) && old(w)@[held as int].saved is None),
{
    if held >= w.bodies.len() {
        return false;
    }
    proof {
        assert(w@[held as int] == w.bodies@[held as int]@);
        assert(wf_body(w@, held as int));
    }
    if !w.bodies[held].alive || w.bodies[held].saved.is_some() {
        return false;
    }
    let ghost prev = w@;
    let body = &mut w.bodies[held];
    let pose = body.pose;
    body.saved = Some(pose);
    body.pose.pos.z = foundation_z;
    proof {
        assert(w@[held as int] == w.bodies@[held as int]@);
        assert forall|i: int| 0 <= i < prev.len() && i != held as int implies w@[i] == prev[i] by {
            assert(w@[i] == w.bodies@[i]@);
        }
        assert(w@ =~= begin_model(prev, held as int, foundation_z));
        assert forall|i: int| 0 <= i < w@.len() implies wf_body(w@, i) by {
            assert(wf_body(prev, i));
        }
    }
    true
}

/// A snap proposal is committable when both bodies it names are still alive,
/// both anchor indices are in range, and the corrected position lies inside
/// the world's coordinate range.
pub open spec fn commit_valid(m: WorldModel, c: SnapCandidate) -> bool {
    &&& live(m, c.a_body as int)
    &&& live(m, c.b_body as int)
    &&& (c.a_anchor as int) < m[c.a_body as int].anchors.len()
    &&& (c.b_anchor as int) < m[c.b_body as int].anchors.len()
    &&& c.position.bounded(POS_LIMIT as int)
}

/// One anchor state write, leaving everything else in place.
pub open spec fn set_anchor_state(m: WorldModel, b: int, j: int, st: AnchorState) -> WorldModel {
    let body = m[b];
    m.update(
        b,
        BodyModel {
            anchors: body.anchors.update(j, AnchorRec { state: st, ..body.anchors[j] }),
            ..body
        },
    )
}

/// Whether `a` is node `d` itself or stands somewhere on `d`'s ancestor
/// chain.
pub open spec fn under(m: WorldModel, d: int, a: int) -> bool
    decreases d,
{
    if 0 <= d < m.len() {
        d == a || (match m[d].parent {
            Some(p) => if (p as int) < d {
                under(m, p as int, a)
            } else {
                false
            },
            None => false,
        })
    } else {
        false
    }
}

/// Every body on whose ancestor chain `held` stands (the held body itself
/// included) becomes un-pickable.
pub open spec fn unpick_model(m: WorldModel, held: int) -> WorldModel {
    Seq::new(
        m.len(),
        |d: int|
            if under(m, d, held) {
                BodyModel { pickable: false, ..m[d] }
            } else {
                m[d]
            },
    )
}

/// The held body is detached from its tentacle, placed at the corrected
/// position, and its rollback snapshot dropped.
pub open spec fn place_model(m: WorldModel, held: int, c: SnapCandidate) -> WorldModel {
    let b = m[held];
    m.update(
        held,
        BodyModel {
            pose: Pose { pos: c.position, rot: b.pose.rot },
            on_tentacle: false,
            saved: None,
            ..b
        },
    )
}

/// The arena after a valid commit of proposal `c` released on `held`: both
/// anchors occupied by each other's body, the held body and all its
/// descendants made un-pickable, the held body detached from its tentacle,
/// placed at the corrected position, and its rollback snapshot dropped.
pub open spec fn commit_model(m: WorldModel, held: int, c: SnapCandidate) -> WorldModel {
    let m1 = set_anchor_state(
        m,
        c.a_body as int,
        c.a_anchor as int,
        AnchorState::Occupied(c.b_body),
    );
    let m2 = set_anchor_state(
        m1,
        c.b_body as int,
        c.b_anchor as int,
        AnchorState::Occupied(c.a_body),
    );
    place_model(unpick_model(m2, held), held, c)
}

/// The arena after a rollback of `held` to its saved pose.
pub open spec fn rollback_model(m: WorldModel, held: int) -> WorldModel {
    let b = m[held];
    match b.saved {
        Some(s) => m.update(held, BodyModel { pose: s, saved: None, ..b }),
        None => m,
    }
}

/// The arena after `held` drops below the water plane: the body is
/// destroyed.
pub open spec fn drown_model(m: WorldModel, held: int) -> WorldModel {
    m.update(held, BodyModel { alive: false, saved: None, ..m[held] })
}

/// The full release decision.  A vanished body is a no-op; a valid proposal
/// commits; a failed commit rolls back (the snapshot is the always-available
/// fallback); with no proposal the body drowns below the water plane or
/// rolls back; with nothing to restore, nothing happens.
pub open spec fn release_spec(
    m: WorldModel,
    held: int,
    snap: Option<SnapCandidate>,
    water_y: int,
) -> (WorldModel, ReleaseOutcome) {
    if !live(m, held) {
        (m, ReleaseOutcome::NoAction)
    } else {
        match snap {
            Option::Some(c) => if commit_valid(m, c) {
                (commit_model(m, held, c), ReleaseOutcome::Committed)
            } else if m[held].saved is Some {
                (rollback_model(m, held), ReleaseOutcome::RolledBack)
            } else {
                (m, ReleaseOutcome::NoAction)
            },
            Option::None => {
                if m[held].pose.pos.y < water_y {
                    (drown_model(m, held), ReleaseOutcome::Drowned)
                } else if m[held].saved is Some {
                    (rollback_model(m, held), ReleaseOutcome::RolledBack)
                } else {
                    (m, ReleaseOutcome::NoAction)
                }
            },
        }
    }
}

/// The ancestor walk reads only parent links, which no anchor or flag write
/// changes.
proof fn lemma_under_congruence(m1: WorldModel, m2: WorldModel, d: int, a: int)
    requires
        m1.len() == m2.len(),
        forall|i: int| 0 <= i < m1.len() ==> (#[trigger] m1[i]).parent == m2[i].parent,
    ensures
        under(m1, d, a) == under(m2, d, a),
    decreases d,
{
    if 0 <= d < m1.len() {
        match m1[d].parent {
            Some(p) => {
                if (p as int) < d {
                    lemma_under_congruence(m1, m2, p as int, a);
                }
            },
            None => {},
        }
    }
}

/// Whether body `a` lies on `d`'s ancestor chain (or is `d` itself).
fn is_under(w: &World, d: usize, a: usize) -> (r: bool)
    requires
        wf(w@),
        (d as int) < w@.len(),
    ensures
        r == under(w@, d as int, a as int),
{
    let mut cur: usize = d;
    loop
        invariant
            wf(w@),
            (cur as int) < w@.len(),
            under(w@, d as int, a as int) == under(w@, cur as int, a as int),
        decreases cur,
    {
        if cur == a {
            return true;
        }
        proof {
            assert(w@[cur as int] == w.bodies@[cur as int]@);
            assert(wf_body(w@, cur as int));
        }
        match w.bodies[cur].parent {
            Some(p) => {
                cur = p;
            },
            None => {
                return false;
            },
        }
    }
}

/// Destroy the held body (it fell below the water plane).
fn do_drown(w: &mut World, held: usize)
    requires
        wf(old(w)@),
        (held as int) < old(w)@.len(),
    ensures
        final(w)@ == drown_model(old(w)@, held as int),
        wf(final(w)@),
{
    let ghost prev = w@;
    let body = &mut w.bodies[held];
    body.alive = false;
    body.saved = None;
    proof {
        assert(w@[held as int] == w.bodies@[held as int]@);
        assert forall|i: int| 0 <= i < prev.len() && i != held as int implies w@[i] == prev[i] by {
            assert(w@[i] == w.bodies@[i]@);
        }
        assert(w@ =~= drown_model(prev, held as int));
        assert forall|i: int| 0 <= i < w@.len() implies wf_body(w@, i) by {
            assert(wf_body(prev, i));
        }
    }
}

/// Restore the held body to its saved pose and drop the snapshot.
fn do_rollback(w: &mut World, held: usize)
    requires
        wf(old(w)@),
        (held as int) < old(w)@.len(),
        old(w)@[held as int].saved is Some,
    ensures
        final(w)@ == rollback_model(old(w)@, held as int),
        wf(final(w)@),
{
    proof {
        assert(w@[held as int] == w.bodies@[held as int]@);
    }
    match w.bodies[held].saved {
        Some(s) => {
            let ghost prev = w@;
            let body = &mut w.bodies[held];
            body.pose = s;
            body.saved = None;
            proof {
                assert(w@[held as int] == w.bodies@[held as int]@);
                assert forall|i: int| 0 <= i < prev.len() && i != held as int implies w@[i]
                    == prev[i] by {
                    assert(w@[i] == w.bodies@[i]@);
                }
                assert(w@ =~= rollback_model(prev, held as int));
                assert forall|i: int| 0 <= i < w@.len() implies wf_body(w@, i) by {
                    assert(wf_body(prev, i));
                    assert(wf_body(prev, held as int));
                }
            }
        },
        None => {
            proof {
                assert(false);
            }
        },
    }
}

/// End a drag on `held`.  With a valid proposal the bond commits atomically:
/// both anchors are checked against the arena first, then both are written,
/// so a vanished partner can never leave a half-written bond.  A failed
/// commit or an unsnapped release above the water rolls the body back to its
/// saved pose; below the water it is destroyed.
pub fn release_drag(
    w: &mut World,
    held: usize,
    snap: Option<SnapCandidate>,
    water_y: i64,
) -> (r: ReleaseOutcome)
    requires
        wf(old(w)@),
    ensures
        final(w)@ == release_spec(old(w)@, held as int, snap, water_y as int).0,
        r == release_spec(old(w)@, held as int, snap, water_y as int).1,
        wf(final(w)@),
{
    let n = w.bodies.len();
    if held >= n {
        return ReleaseOutcome::NoAction;
    }
    proof {
        assert(w@[held as int] == w.bodies@[held as int]@);
    }
    if !w.bodies[held].alive {
        return ReleaseOutcome::NoAction;
    }
    match snap {
        Some(c) => {
            proof {
                if (c.a_body as int) < w@.len() {
                    assert(w@[c.a_body as int] == w.bodies@[c.a_body as int]@);
                }
                if (c.b_body as int) < w@.len() {
                    assert(w@[c.b_body as int] == w.bodies@[c.b_body as int]@);
                }
            }
            let valid = c.a_body < n && c.b_body < n && w.bodies[c.a_body].alive
                && w.bodies[c.b_body].alive && c.a_anchor < w.bodies[c.a_body].anchors.len()
                && c.b_anchor < w.bodies[c.b_body].anchors.len() && -POS_LIMIT <= c.position.x
                && c.position.x <= POS_LIMIT && -POS_LIMIT <= c.position.y && c.position.y
                <= POS_LIMIT && -POS_LIMIT <= c.position.z && c.position.z <= POS_LIMIT;
            proof {
                assert(valid == commit_valid(w@, c));
            }
            if valid {
                do_commit(w, held, c);
                ReleaseOutcome::Committed
            } else if w.bodies[held].saved.is_some() {
                do_rollback(w, held);
                ReleaseOutcome::RolledBack
            } else {
                ReleaseOutcome::NoAction
            }
        },
        None => {
            if w.bodies[held].pose.pos.y < water_y {
                do_drown(w, held);
                ReleaseOutcome::Drowned
            } else if w.bodies[held].saved.is_some() {
                do_rollback(w, held);
                ReleaseOutcome::RolledBack
            } else {
                ReleaseOutcome::NoAction
            }
        },
    }
}

/// One occupied write: anchor `j` of body `b` becomes bonded to `peer`.
fn write_occupied(w: &mut World, b: usize, j: usize, peer: usize)
    requires
        wf(old(w)@),
        live(old(w)@, b as int),
        (j as int) < old(w)@[b as int].anchors.len(),
    ensures
        final(w)@ == set_anchor_state(old(w)@, b as int, j as int, AnchorState::Occupied(peer)),
        wf(final(w)@),
{
    proof {
        assert(w@[b as int] == w.bodies@[b as int]@);
        assert(wf_body(w@, b as int));
    }
    let arec = w.bodies[b].anchors[j];
    let mut nrec = arec;
    nrec.state = AnchorState::Occupied(peer);
    let ghost prev = w@;
    let body = &mut w.bodies[b];
    body.anchors[j] = nrec;
    proof {
        assert(w@[b as int] == w.bodies@[b as int]@);
        assert forall|i: int| 0 <= i < prev.len() && i != b as int implies w@[i] == prev[i] by {
            assert(w@[i] == w.bodies@[i]@);
        }
        assert(w@[b as int].anchors =~= prev[b as int].anchors.update(j as int, nrec));
        assert(w@ =~= set_anchor_state(prev, b as int, j as int, AnchorState::Occupied(peer)));
        assert forall|i: int| 0 <= i < w@.len() implies wf_body(w@, i) by {
            assert(wf_body(prev, i));
            if i == b as int {
                assert forall|t: int|
                    0 <= t < w@[i].anchors.len() implies (#[trigger] w@[i].anchors[t]).off
                    .bounded(crate::units::OFF_LIMIT as int) by {
                    assert(prev[i].anchors[t].off.bounded(crate::units::OFF_LIMIT as int));
                    assert(w@[i].anchors[t].off == prev[i].anchors[t].off);
                }
            }
        }
    }
}

/// Walk the whole arena and un-pick every body under `held`.
fn unpick_subtree(w: &mut World, held: usize)
    requires
        wf(old(w)@),
    ensures
        final(w)@ == unpick_model(old(w)@, held as int),
        wf(final(w)@),
{
    let n = w.bodies.len();
    let mut d: usize = 0;
    while d < n
        invariant
            wf(old(w)@),
            n == old(w)@.len(),
            n == w@.len(),
            d <= n,
            forall|i: int| (d as int) <= i < n ==> w@[i] == old(w)@[i],
            forall|i: int| 0 <= i < (d as int) ==> w@[i] == unpick_model(old(w)@, held as int)[i],
            forall|i: int| 0 <= i < n ==> (#[trigger] w@[i]).parent == old(w)@[i].parent,
            forall|i: int| 0 <= i < n ==> wf_body(w@, i),
        decreases n - d,
    {
        let hit = is_under(w, d, held);
        proof {
            lemma_under_congruence(w@, old(w)@, d as int, held as int);
        }
        if hit {
            let ghost prev = w@;
            let body = &mut w.bodies[d];
            body.pickable = false;
            proof {
                assert(w@[d as int] == w.bodies@[d as int]@);
                assert forall|i: int| 0 <= i < prev.len() && i != d as int implies w@[i]
                    == prev[i] by {
                    assert(w@[i] == w.bodies@[i]@);
                }
                assert(w@[d as int] =~= unpick_model(old(w)@, held as int)[d as int]);
                assert forall|i: int|
                    0 <= i < (d as int) + 1 implies w@[i] == unpick_model(
                    old(w)@,
                    held as int,
                )[i] by {
                    if i != d as int {
                        assert(w@[i] == prev[i]);
                    }
                }
                assert forall|i: int| (d as int) + 1 <= i < n implies w@[i] == old(w)@[i] by {
                    assert(w@[i] == prev[i]);
                }
                assert forall|i: int|
                    0 <= i < n implies (#[trigger] w@[i]).parent == old(w)@[i].parent by {
                    if i != d as int {
                        assert(w@[i] == prev[i]);
                    }
                }
                assert forall|i: int| 0 <= i < n implies wf_body(w@, i) by {
                    assert(wf_body(prev, i));
                }
            }
        } else {
            proof {
                assert(w@[d as int] =~= unpick_model(old(w)@, held as int)[d as int]);
            }
        }
        d = d + 1;
    }
    proof {
        assert(final(w)@ =~= unpick_model(old(w)@, held as int));
    }
}

/// Place the held body at the corrected position, detach it from its
/// tentacle and drop its snapshot.
fn place_held(w: &mut World, held: usize, c: SnapCandidate)
    requires
        wf(old(w)@),
        (held as int) < old(w)@.len(),
        c.position.bounded(POS_LIMIT as int),
    ensures
        final(w)@ == place_model(old(w)@, held as int, c),
        wf(final(w)@),
{
    let ghost prev = w@;
    let body = &mut w.bodies[held];
    body.pose.pos = c.position;
    body.on_tentacle = false;
    body.saved = None;
    proof {
        assert(w@[held as int] == w.bodies@[held as int]@);
        assert forall|i: int| 0 <= i < prev.len() && i != held as int implies w@[i] == prev[i] by {
            assert(w@[i] == w.bodies@[i]@);
        }
        assert(w@ =~= place_model(prev, held as int, c));
        assert forall|i: int| 0 <= i < w@.len() implies wf_body(w@, i) by {
            assert(wf_body(prev, i));
        }
    }
}

/// The commit step: write both occupied states, un-pick the held subtree,
/// detach, place, and drop the snapshot.
fn do_commit(w: &mut World, held: usize, c: SnapCandidate)
    requires
        wf(old(w)@),
        live(old(w)@, held as int),
        commit_valid(old(w)@, c),
    ensures
        final(w)@ == commit_model(old(w)@, held as int, c),
        wf(final(w)@),
{
    let ghost m = old(w)@;
    write_occupied(w, c.a_body, c.a_anchor, c.b_body);
    proof {
        assert(w@[c.b_body as int].anchors.len() == m[c.b_body as int].anchors.len());
    }
    write_occupied(w, c.b_body, c.b_anchor, c.a_body);
    unpick_subtree(w, held);
    place_held(w, held, c);
}

/// Whether arena index `i` appears in a disaster traversal chain.
pub open spec fn in_chain(chain: Seq<usize>, i: int) -> bool {
    exists|k: int| 0 <= k < chain.len() && (#[trigger] chain[k]) as int == i
}

/// Whether the chain destroys body `i`: it is traversed and is a live block
/// not yet weathered.
pub open spec fn struck(m: WorldModel, chain: Seq<usize>, i: int) -> bool {
    in_chain(chain, i) && live(m, i) && m[i].is_block && !m[i].decayed
}

/// One anchor after the disaster: a bond on a traversed body, or a bond
/// naming a struck peer, flips to `Blocked(peer)` — the joint is broken but
/// not freed for re-snapping, since the peer may be gone; only the ordinary
/// clearance sweep can later clear it.  Everything else keeps its state.
pub open spec fn disaster_rec(m: WorldModel, chain: Seq<usize>, b: int, j: int) -> AnchorRec {
    let a = m[b].anchors[j];
    match a.state {
        AnchorState::Occupied(p) => if in_chain(chain, b) || struck(m, chain, p as int) {
            AnchorRec { state: AnchorState::Blocked(p), ..a }
        } else {
            a
        },
        _ => a,
    }
}

/// The arena after a destructive event resolves along `chain`: struck blocks
/// are marked for decay, and broken bonds flip to `Blocked` on both the
/// traversed bodies and every body bonded to a struck one.
pub open spec fn disaster_model(m: WorldModel, chain: Seq<usize>) -> WorldModel {
    Seq::new(
        m.len(),
        |b: int|
            if m[b].alive {
                BodyModel {
                    needs_decay: m[b].needs_decay || struck(m, chain, b),
                    anchors: Seq::new(
                        m[b].anchors.len(),
                        |j: int| disaster_rec(m, chain, b, j),
                    ),
                    ..m[b]
                }
            } else {
                m[b]
            },
    )
}

/// The flip rule reads only chain membership, liveness, block and decay
/// flags, which the disaster write never changes.
proof fn lemma_disaster_congruence(m1: WorldModel, m2: WorldModel, chain: Seq<usize>, i: int)
    requires
        m1.len() == m2.len(),
        forall|t: int|
            0 <= t < m1.len() ==> (#[trigger] m1[t]).alive == m2[t].alive && m1[t].is_block
                == m2[t].is_block && m1[t].decayed == m2[t].decayed,
    ensures
        struck(m1, chain, i) == struck(m2, chain, i),
{
}

/// Apply a destructive event along `chain`: mark every struck block for
/// decay and flip the broken bonds to `Blocked`, as [`disaster_model`]
/// describes.
pub fn disaster_break(w: &mut World, chain: &Vec<usize>)
    requires
        wf(old(w)@),
    ensures
        final(w)@ == disaster_model(old(w)@, chain@),
        wf(final(w)@),
{
    let n = w.bodies.len();
    // chain membership per arena slot
    let mut inch: Vec<bool> = Vec::new();
    let mut t: usize = 0;
    while t < n
        invariant
            t <= n,
            inch@.len() == t,
            forall|i: int| 0 <= i < (t as int) ==> !inch@[i],
        decreases n - t,
    {
        inch.push(false);
        t = t + 1;
    }
    let mut k: usize = 0;
    while k < chain.len()
        invariant
            n == w@.len(),
            inch@.len() == n,
            k <= chain@.len(),
            forall|i: int|
                0 <= i < n ==> ((#[trigger] inch@[i]) <==> (exists|kk: int|
                    0 <= kk < (k as int) && (#[trigger] chain@[kk]) as int == i)),
        decreases chain.len() - k,
    {
        let ci: usize = chain[k];
        let ghost prev = inch@;
        if ci < n {
            inch[ci] = true;
        }
        proof {
            assert forall|i: int|
                0 <= i < n implies ((#[trigger] inch@[i]) <==> (exists|kk: int|
                    0 <= kk < (k as int) + 1 && (#[trigger] chain@[kk]) as int == i)) by {
                if i == chain@[k as int] as int {
                    assert(inch@[i]);
                    assert(chain@[k as int] as int == i);
                } else {
                    assert(inch@[i] == prev[i]);
                    if inch@[i] {
                        let kk = choose|kk: int|
                            0 <= kk < (k as int) && (#[trigger] chain@[kk]) as int == i;
                        assert(chain@[kk] as int == i);
                    }
                }
            }
        }
        k = k + 1;
    }
    proof {
        assert forall|i: int| 0 <= i < n implies ((#[trigger] inch@[i]) <==> in_chain(
            chain@,
            i,
        )) by {}
    }
    // flip bonds and mark decay
    let mut b: usize = 0;
    while b < n
        invariant
            wf(old(w)@),
            n == old(w)@.len(),
            n == w@.len(),
            b <= n,
            inch@.len() == n,
            forall|i: int| 0 <= i < n ==> ((#[trigger] inch@[i]) <==> in_chain(chain@, i)),
            forall|i: int| (b as int) <= i < n ==> w@[i] == old(w)@[i],
            forall|i: int| 0 <= i < (b as int) ==> w@[i] == disaster_model(old(w)@, chain@)[i],
            forall|i: int| 0 <= i < n ==> wf_body(w@, i),
            forall|i: int|
                0 <= i < n ==> (#[trigger] w@[i]).alive == old(w)@[i].alive && w@[i].is_block
                    == old(w)@[i].is_block && w@[i].decayed == old(w)@[i].decayed,
        decreases n - b,
    {
        proof {
            assert(w@[b as int] == w.bodies@[b as int]@);
            assert(w@[b as int] == old(w)@[b as int]);
        }
        if w.bodies[b].alive {
            let own_in_chain = inch[b];
            let na = w.bodies[b].anchors.len();
            let mut j: usize = 0;
            while j < na
                invariant
                    wf(old(w)@),
                    n == old(w)@.len(),
                    n == w@.len(),
                    b < n,
                    j <= na,
                    old(w)@[b as int].alive,
                    na == old(w)@[b as int].anchors.len(),
                    inch@.len() == n,
                    own_in_chain == in_chain(chain@, b as int),
                    forall|i: int| 0 <= i < n ==> ((#[trigger] inch@[i]) <==> in_chain(chain@, i)),
                    forall|i: int| (b as int) < i < n ==> w@[i] == old(w)@[i],
                    forall|i: int|
                        0 <= i < (b as int) ==> w@[i] == disaster_model(old(w)@, chain@)[i],
                    w@[b as int].anchors.len() == na,
                    forall|t2: int|
                        (j as int) <= t2 < na ==> w@[b as int].anchors[t2] == old(w)@[b as
                            int].anchors[t2],
                    forall|t2: int|
                        0 <= t2 < (j as int) ==> w@[b as int].anchors[t2] == disaster_rec(
                            old(w)@,
                            chain@,
                            b as int,
                            t2,
                        ),
                    w@[b as int] == (BodyModel {
                        anchors: w@[b as int].anchors,
                        ..old(w)@[b as int]
                    }),
                    forall|i: int| 0 <= i < n ==> wf_body(w@, i),
                    forall|i: int|
                        0 <= i < n ==> (#[trigger] w@[i]).alive == old(w)@[i].alive && w@[i]
                            .is_block == old(w)@[i].is_block && w@[i].decayed == old(w)@[i].decayed,
                decreases na - j,
            {
                proof {
                    assert(w@[b as int] == w.bodies@[b as int]@);
                }
                let a = w.bodies[b].anchors[j];
                let flip = match a.state {
                    AnchorState::Occupied(p) => {
                        if own_in_chain {
                            true
                        } else if p < n {
                            proof {
                                assert(w@[p as int] == w.bodies@[p as int]@);
                            }
                            inch[p] && w.bodies[p].alive && w.bodies[p].is_block
                                && !w.bodies[p].decayed
                        } else {
                            proof {
                                assert(!live(old(w)@, p as int));
                            }
                            false
                        }
                    },
                    _ => false,
                };
                if flip {
                    let peer = match a.state {
                        AnchorState::Occupied(p) => p,
                        _ => 0,
                    };
                    let mut rec = a;
                    rec.state = AnchorState::Blocked(peer);
                    proof {
                        assert(rec == disaster_rec(old(w)@, chain@, b as int, j as int));
                    }
                    let ghost prev = w@;
                    let body = &mut w.bodies[b];
                    body.anchors[j] = rec;
                    proof {
                        assert(w@[b as int] == w.bodies@[b as int]@);
                        assert forall|i: int|
                            0 <= i < n && i != b as int implies w@[i] == prev[i] by {
                            assert(w@[i] == w.bodies@[i]@);
                        }
                        assert(w@[b as int].anchors =~= prev[b as int].anchors.update(
                            j as int,
                            rec,
                        ));
                        assert(w@[b as int] == (BodyModel {
                            anchors: w@[b as int].anchors,
                            ..old(w)@[b as int]
                        }));
                        assert forall|i: int| (b as int) < i < n implies w@[i] == old(w)@[i] by {
                            assert(w@[i] == prev[i]);
                        }
                        assert forall|i: int|
                            0 <= i < (b as int) implies w@[i] == disaster_model(
                            old(w)@,
                            chain@,
                        )[i] by {
                            assert(w@[i] == prev[i]);
                        }
                        assert forall|i: int|
                            0 <= i < n implies (#[trigger] w@[i]).alive == old(w)@[i].alive
                            && w@[i].is_block == old(w)@[i].is_block && w@[i].decayed == old(
                            w,
                        )@[i].decayed by {
                            if i != b as int {
                                assert(w@[i] == prev[i]);
                            }
                        }
                        assert forall|i: int| 0 <= i < n implies wf_body(w@, i) by {
                            assert(wf_body(prev, i));
                            if i == b as int {
                                assert forall|t2: int|
                                    0 <= t2 < w@[i].anchors.len() implies (#[trigger] w@[i]
                                    .anchors[t2]).off.bounded(crate::units::OFF_LIMIT as int) by {
                                    assert(prev[i].anchors[t2].off.bounded(
                                        crate::units::OFF_LIMIT as int,
                                    ));
                                    assert(w@[i].anchors[t2].off == prev[i].anchors[t2].off);
                                }
                            }
                        }
                    }
                } else {
                    proof {
                        assert(w@[b as int].anchors[j as int] == disaster_rec(
                            old(w)@,
                            chain@,
                            b as int,
                            j as int,
                        ));
                    }
                }
                j = j + 1;
            }
            // mark for decay
            let strike = own_in_chain && w.bodies[b].is_block && !w.bodies[b].decayed;
            proof {
                assert(w@[b as int] == w.bodies@[b as int]@);
                assert(strike == struck(old(w)@, chain@, b as int));
            }
            let nd = w.bodies[b].needs_decay || strike;
            let ghost prev = w@;
            let body = &mut w.bodies[b];
            body.needs_decay = nd;
            proof {
                assert(w@[b as int] == w.bodies@[b as int]@);
                assert forall|i: int| 0 <= i < n && i != b as int implies w@[i] == prev[i] by {
                    assert(w@[i] == w.bodies@[i]@);
                }
                assert(w@[b as int].anchors =~= Seq::new(
                    old(w)@[b as int].anchors.len(),
                    |t2: int| disaster_rec(old(w)@, chain@, b as int, t2),
                ));
                assert(w@[b as int] =~= disaster_model(old(w)@, chain@)[b as int]);
                assert forall|i: int|
                    0 <= i < (b as int) + 1 implies w@[i] == disaster_model(old(w)@, chain@)[i] by {
                    if i != b as int {
                        assert(w@[i] == prev[i]);
                    }
                }
                assert forall|i: int| (b as int) + 1 <= i < n implies w@[i] == old(w)@[i] by {
                    assert(w@[i] == prev[i]);
                }
                assert forall|i: int| 0 <= i < n implies wf_body(w@, i) by {
                    assert(wf_body(prev, i));
                }
            }
        } else {
            proof {
                assert(w@[b as int] =~= disaster_model(old(w)@, chain@)[b as int]);
            }
        }
        b = b + 1;
    }
    proof {
        assert(final(w)@ =~= disaster_model(old(w)@, chain@));
    }
}

/// One body after the decay pass: a body marked for decay is swapped for its
/// weathered variant, which carries no anchors and takes no further part in
/// snapping.
pub open spec fn decay_model(m: WorldModel) -> WorldModel {
    Seq::new(
        m.len(),
        |b: int|
            if m[b].alive && m[b].needs_decay {
                BodyModel { decayed: true, needs_decay: false, anchors: Seq::empty(), ..m[b] }
            } else {
                m[b]
            },
    )
}

/// Swap every body marked for decay for its weathered variant: the decayed
/// flag is set and the anchor collection dies with the body's old form.
pub fn apply_decay(w: &mut World)
    requires
        wf(old(w)@),
    ensures
        final(w)@ == decay_model(old(w)@),
        wf(final(w)@),
{
    let n = w.bodies.len();
    let mut b: usize = 0;
    while b < n
        invariant
            wf(old(w)@),
            n == old(w)@.len(),
            n == w@.len(),
            b <= n,
            forall|i: int| (b as int) <= i < n ==> w@[i] == old(w)@[i],
            forall|i: int| 0 <= i < (b as int) ==> w@[i] == decay_model(old(w)@)[i],
            forall|i: int| 0 <= i < n ==> wf_body(w@, i),
        decreases n - b,
    {
        proof {
            assert(w@[b as int] == w.bodies@[b as int]@);
            assert(w@[b as int] == old(w)@[b as int]);
        }
        if w.bodies[b].alive && w.bodies[b].needs_decay {
            let ghost prev = w@;
            let body = &mut w.bodies[b];
            body.decayed = true;
            body.needs_decay = false;
            body.anchors = Vec::new();
            proof {
                assert(w@[b as int] == w.bodies@[b as int]@);
                assert forall|i: int| 0 <= i < n && i != b as int implies w@[i] == prev[i] by {
                    assert(w@[i] == w.bodies@[i]@);
                }
                assert(w@[b as int] =~= decay_model(old(w)@)[b as int]);
                assert forall|i: int|
                    0 <= i < (b as int) + 1 implies w@[i] == decay_model(old(w)@)[i] by {
                    if i != b as int {
                        assert(w@[i] == prev[i]);
                    }
                }
                assert forall|i: int| (b as int) + 1 <= i < n implies w@[i] == old(w)@[i] by {
                    assert(w@[i] == prev[i]);
                }
                assert forall|i: int| 0 <= i < n implies wf_body(w@, i) by {
                    assert(wf_body(prev, i));
                }
            }
        } else {
            proof {
                assert(w@[b as int] =~= decay_model(old(w)@)[b as int]);
            }
        }
        b = b + 1;
    }
    proof {
        assert(final(w)@ =~= decay_model(old(w)@));
    }
}

} // verus!
