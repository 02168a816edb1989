//! The per-frame snap matcher.
//!
//! While a body is held, the matcher scans every eligible anchor pair between
//! the held body and every other placed body, keeps the closest compatible
//! pair within the snap radius, and proposes a corrected resting position
//! that makes the two anchors coincide exactly in the drag plane.  Ties are
//! broken greedily: the scan runs in arena order (then held-anchor order,
//! then partner-anchor order) and a later pair replaces the best only when it
//! is strictly closer, so the first pair found at the minimum distance wins.
//! The matcher only proposes; no anchor state changes here.

use vstd::prelude::*;

use crate::anchor::{compatible_spec, eligible_against, eligible_against_spec};
use crate::geom::{
    dist2, dist2_spec, identity_quat, in_snap_range, in_snap_range_spec, Pose, Quat4, Vec3F,
};
use crate::units::POS_LIMIT;
use crate::world::{wf, wf_body, BodyModel, World, WorldModel};

verus! {

/// A proposed bond while dragging: the held body `a` and its anchor, the
/// partner body `b` and its anchor, and the corrected resting position that
/// brings the two anchors together.  Recomputed every frame, never persisted
/// past drag end.
#[derive(Clone, Copy, Debug, PartialEq, Eq, Structural)]
pub struct SnapCandidate {
    pub a_body: usize,
    pub a_anchor: usize,
    pub b_body: usize,
    pub b_anchor: usize,
    pub position: Vec3F,
}

/// A body other than the held one that takes part in matching: placed (not
/// on a spawner tentacle) and still alive.
pub open spec fn body_eligible(m: WorldModel, held: int, o: int) -> bool {
    0 <= o < m.len() && o != held && m[o].alive && !m[o].on_tentacle
}

/// World position of the held body's anchor `i` while the drag cursor is at
/// `(mx, my)`: the cursor extended with the held body's current height.
pub open spec fn held_point(m: WorldModel, held: int, mx: int, my: int, i: int) -> Vec3F {
    let a = m[held].anchors[i];
    Vec3F {
        x: (mx + a.off.x) as i64,
        y: (my + a.off.y) as i64,
        z: (m[held].pose.pos.z + a.off.z) as i64,
    }
}

/// World position of anchor `j` on placed body `o`.
pub open spec fn other_point(m: WorldModel, o: int, j: int) -> Vec3F {
    let bb = m[o].anchors[j];
    Vec3F {
        x: (m[o].pose.pos.x + bb.off.x) as i64,
        y: (m[o].pose.pos.y + bb.off.y) as i64,
        z: (m[o].pose.pos.z + bb.off.z) as i64,
    }
}

/// Squared distance between the held anchor `i` (under the cursor) and
/// anchor `j` of body `o`.
pub open spec fn pair_d2(m: WorldModel, held: int, mx: int, my: int, o: int, i: int, j: int) -> int {
    dist2_spec(held_point(m, held, mx, my, i), other_point(m, o, j))
}

/// The resting position that puts the held anchor `i` exactly onto anchor
/// `j` of body `o` in the drag plane; height is kept.
pub open spec fn corrected_pos(m: WorldModel, held: int, o: int, i: int, j: int) -> Vec3F {
    let a = m[held].anchors[i];
    let bb = m[o].anchors[j];
    Vec3F {
        x: (m[o].pose.pos.x + bb.off.x - a.off.x) as i64,
        y: (m[o].pose.pos.y + bb.off.y - a.off.y) as i64,
        z: m[held].pose.pos.z,
    }
}

/// Whether the pair (held anchor `i`, anchor `j` of body `o`) is a snap
/// candidate: the partner body is placed, both anchors are clear (or blocked
/// by each other's body), the colors pair up, the anchors are within the
/// snap range, and the corrected position stays inside the world's
/// coordinate range (a machine guard, so a committed pose keeps the arena
/// well formed).
pub open spec fn is_candidate(
    m: WorldModel,
    held: int,
    mx: int,
    my: int,
    radius: int,
    scale: int,
    o: int,
    i: int,
    j: int,
) -> bool {
    &&& body_eligible(m, held, o)
    &&& 0 <= i < m[held].anchors.len()
    &&& 0 <= j < m[o].anchors.len()
    &&& eligible_against_spec(m[held].anchors[i].state, o)
    &&& eligible_against_spec(m[o].anchors[j].state, held)
    &&& compatible_spec(m[held].anchors[i].color, m[o].anchors[j].color)
    &&& in_snap_range_spec(pair_d2(m, held, mx, my, o, i, j), radius, scale)
    &&& corrected_pos(m, held, o, i, j).bounded(POS_LIMIT as int)
}

/// Scan order on pairs: partner body index, then held anchor index, then
/// partner anchor index.
pub open spec fn lex_before(o1: int, i1: int, j1: int, o2: int, i2: int, j2: int) -> bool {
    o1 < o2 || (o1 == o2 && (i1 < i2 || (i1 == i2 && j1 < j2)))
}

/// The matcher's contract.  `None` comes exactly when the held body is
/// tagged in collision or no pair qualifies.  A returned candidate is a
/// qualifying pair at the minimum distance, the first such pair in scan
/// order, and carries the corrected position for the held body.
pub open spec fn best_snap_post(
    m: WorldModel,
    held: int,
    mx: int,
    my: int,
    radius: int,
    scale: int,
    r: Option<SnapCandidate>,
) -> bool {
    match r {
        Option::None => m[held].in_collision || (forall|o: int, i: int, j: int|
            !is_candidate(m, held, mx, my, radius, scale, o, i, j)),
        Option::Some(c) => {
            &&& !m[held].in_collision
            &&& c.a_body == held
            &&& is_candidate(m, held, mx, my, radius, scale, c.b_body as int, c.a_anchor as int, c.b_anchor as int)
            &&& c.position == corrected_pos(m, held, c.b_body as int, c.a_anchor as int, c.b_anchor as int)
            &&& (forall|o: int, i: int, j: int|
                is_candidate(m, held, mx, my, radius, scale, o, i, j) ==> pair_d2(
                    m, held, mx, my, c.b_body as int, c.a_anchor as int, c.b_anchor as int,
                ) <= pair_d2(m, held, mx, my, o, i, j))
            &&& (forall|o: int, i: int, j: int|
                is_candidate(m, held, mx, my, radius, scale, o, i, j) && pair_d2(
                    m, held, mx, my, o, i, j,
                ) == pair_d2(
                    m, held, mx, my, c.b_body as int, c.a_anchor as int, c.b_anchor as int,
                ) ==> !lex_before(o, i, j, c.b_body as int, c.a_anchor as int, c.b_anchor as int))
        },
    }
}

/// The accumulator's meaning while the scan has covered exactly the pairs
/// lexicographically before `(bo, bi, bj)`.
spec fn partial_post(
    m: WorldModel,
    held: int,
    mx: int,
    my: int,
    radius: int,
    scale: int,
    best: Option<SnapCandidate>,
    best_d2: int,
    bo: int,
    bi: int,
    bj: int,
) -> bool {
    match best {
        Option::None => forall|o: int, i: int, j: int|
            lex_before(o, i, j, bo, bi, bj) ==> !is_candidate(m, held, mx, my, radius, scale, o, i, j),
        Option::Some(c) => {
            &&& c.a_body == held
            &&& is_candidate(m, held, mx, my, radius, scale, c.b_body as int, c.a_anchor as int, c.b_anchor as int)
            &&& c.position == corrected_pos(m, held, c.b_body as int, c.a_anchor as int, c.b_anchor as int)
            &&& lex_before(c.b_body as int, c.a_anchor as int, c.b_anchor as int, bo, bi, bj)
            &&& best_d2 == pair_d2(m, held, mx, my, c.b_body as int, c.a_anchor as int, c.b_anchor as int)
            &&& (forall|o: int, i: int, j: int|
                lex_before(o, i, j, bo, bi, bj) && is_candidate(m, held, mx, my, radius, scale, o, i, j)
                    ==> best_d2 <= pair_d2(m, held, mx, my, o, i, j))
            &&& (forall|o: int, i: int, j: int|
                lex_before(o, i, j, bo, bi, bj) && is_candidate(m, held, mx, my, radius, scale, o, i, j)
                    && pair_d2(m, held, mx, my, o, i, j) == best_d2 ==> !lex_before(
                    o, i, j, c.b_body as int, c.a_anchor as int, c.b_anchor as int,
                ))
        },
    }
}

/// Run the matcher for the held body with the drag cursor at `(mx, my)`:
/// find the closest compatible eligible anchor pair within the snap range
/// `radius * scale`, first in scan order on ties.  Returns `None` when the
/// held body currently overlaps something or no pair qualifies.
pub fn find_best_snap(
    w: &World,
    held: usize,
    mx: i64,
    my: i64,
    radius: i64,
    scale: i64,
) -> (r: Option<SnapCandidate>)
    requires
        wf(w@),
        (held as int) < w@.len(),
        -POS_LIMIT <= mx <= POS_LIMIT,
        -POS_LIMIT <= my <= POS_LIMIT,
        0 <= radius <= 1_000_000_000,
        0 <= scale <= 1_000_000_000,
    ensures
        best_snap_post(w@, held as int, mx as int, my as int, radius as int, scale as int, r),
{
    let ghost m = w@;
    let ghost heldg = held as int;
    proof {
        assert(m[heldg] == w.bodies@[heldg]@);
        assert(wf_body(m, heldg));
    }
    if w.bodies[held].in_collision {
        return None;
    }
    let n = w.bodies.len();
    let na = w.bodies[held].anchors.len();
    let held_z = w.bodies[held].pose.pos.z;
    let mut best: Option<SnapCandidate> = None;
    let mut best_d2: i64 = 0;
    let mut o: usize = 0;
    while o < n
        invariant
            wf(m),
            m == w@,
            heldg == held as int,
            0 <= heldg < m.len(),
            n == m.len(),
            na == m[heldg].anchors.len(),
            held_z == m[heldg].pose.pos.z,
            -POS_LIMIT <= mx <= POS_LIMIT,
            -POS_LIMIT <= my <= POS_LIMIT,
            0 <= radius <= 1_000_000_000,
            0 <= scale <= 1_000_000_000,
            o <= n,
            partial_post(
                m, heldg, mx as int, my as int, radius as int, scale as int,
                best, best_d2 as int, o as int, 0, 0,
            ),
        decreases n - o,
    {
        proof {
            assert(m[o as int] == w.bodies@[o as int]@);
            assert(wf_body(m, o as int));
        }
        if o != held && w.bodies[o].alive && !w.bodies[o].on_tentacle {
            let nb = w.bodies[o].anchors.len();
            let opos = w.bodies[o].pose.pos;
            let mut i: usize = 0;
            while i < na
                invariant
                    wf(m),
                    m == w@,
                    heldg == held as int,
                    0 <= heldg < m.len(),
                    n == m.len(),
                    na == m[heldg].anchors.len(),
                    held_z == m[heldg].pose.pos.z,
                    -POS_LIMIT <= mx <= POS_LIMIT,
                    -POS_LIMIT <= my <= POS_LIMIT,
                    0 <= radius <= 1_000_000_000,
                    0 <= scale <= 1_000_000_000,
                    o < n,
                    body_eligible(m, heldg, o as int),
                    nb == m[o as int].anchors.len(),
                    opos == m[o as int].pose.pos,
                    i <= na,
                    partial_post(
                        m, heldg, mx as int, my as int, radius as int, scale as int,
                        best, best_d2 as int, o as int, i as int, 0,
                    ),
                decreases na - i,
            {
                proof {
                    assert(m[heldg] == w.bodies@[heldg]@);
                }
                let a = w.bodies[held].anchors[i];
                if eligible_against(a.state, o) {
                    let mut j: usize = 0;
                    while j < nb
                        invariant
                            wf(m),
                            m == w@,
                            heldg == held as int,
                            0 <= heldg < m.len(),
                            n == m.len(),
                            na == m[heldg].anchors.len(),
                            held_z == m[heldg].pose.pos.z,
                            -POS_LIMIT <= mx <= POS_LIMIT,
                            -POS_LIMIT <= my <= POS_LIMIT,
                            0 <= radius <= 1_000_000_000,
                            0 <= scale <= 1_000_000_000,
                            o < n,
                            body_eligible(m, heldg, o as int),
                            nb == m[o as int].anchors.len(),
                            opos == m[o as int].pose.pos,
                            i < na,
                            a == m[heldg].anchors[i as int],
                            eligible_against_spec(a.state, o as int),
                            j <= nb,
                            partial_post(
                                m, heldg, mx as int, my as int, radius as int, scale as int,
                                best, best_d2 as int, o as int, i as int, j as int,
                            ),
                        decreases nb - j,
                    {
                        proof {
                            assert(m[o as int] == w.bodies@[o as int]@);
                            assert(wf_body(m, o as int));
                            assert(wf_body(m, heldg));
                            assert(m[heldg].anchors[i as int].off.bounded(
                                crate::units::OFF_LIMIT as int,
                            ));
                            assert(m[o as int].anchors[j as int].off.bounded(
                                crate::units::OFF_LIMIT as int,
                            ));
                        }
                        let bb = w.bodies[o].anchors[j];
                        let ghost curo = o as int;
                        let ghost curi = i as int;
                        let ghost curj = j as int;
                        let mut took = false;
                        if eligible_against(bb.state, held) && a.color.compatible(bb.color) {
                            let hp = Vec3F {
                                x: mx + a.off.x,
                                y: my + a.off.y,
                                z: held_z + a.off.z,
                            };
                            let op = Vec3F {
                                x: opos.x + bb.off.x,
                                y: opos.y + bb.off.y,
                                z: opos.z + bb.off.z,
                            };
                            proof {
                                assert(hp == held_point(m, heldg, mx as int, my as int, curi));
                                assert(op == other_point(m, curo, curj));
                            }
                            let d2 = dist2(hp, op);
                            if in_snap_range(d2, radius, scale) {
                                let cx = opos.x + bb.off.x - a.off.x;
                                let cy = opos.y + bb.off.y - a.off.y;
                                let cpos = Vec3F { x: cx, y: cy, z: held_z };
                                proof {
                                    assert(cpos == corrected_pos(m, heldg, curo, curi, curj));
                                }
                                if -POS_LIMIT <= cx && cx <= POS_LIMIT && -POS_LIMIT <= cy && cy
                                    <= POS_LIMIT {
                                    proof {
                                        assert(is_candidate(
                                            m, heldg, mx as int, my as int, radius as int,
                                            scale as int, curo, curi, curj,
                                        ));
                                    }
                                    let better = match best {
                                        Option::Some(_) => d2 < best_d2,
                                        Option::None => true,
                                    };
                                    if better {
                                        let ghost ob = best;
                                        let ghost od2 = best_d2 as int;
                                        let c = SnapCandidate {
                                            a_body: held,
                                            a_anchor: i,
                                            b_body: o,
                                            b_anchor: j,
                                            position: cpos,
                                        };
                                        best = Some(c);
                                        best_d2 = d2;
                                        took = true;
                                        proof {
                                            lemma_step_take(
                                                m, heldg, mx as int, my as int, radius as int,
                                                scale as int, ob, od2, c, curo, curi, curj,
                                            );
                                        }
                                    }
                                }
                            }
                        }
                        proof {
                            if !took {
                                lemma_step_keep(
                                    m, heldg, mx as int, my as int, radius as int, scale as int,
                                    best, best_d2 as int, curo, curi, curj,
                                );
                            }
                            assert(partial_post(
                                m, heldg, mx as int, my as int, radius as int, scale as int,
                                best, best_d2 as int, curo, curi, curj + 1,
                            ));
                        }
                        j = j + 1;
                    }
                    proof {
                        assert forall|oo: int, ii: int, jj: int|
                            lex_before(oo, ii, jj, o as int, i as int + 1, 0) && !lex_before(
                                oo, ii, jj, o as int, i as int, nb as int,
                            ) implies !is_candidate(
                            m, heldg, mx as int, my as int, radius as int, scale as int, oo, ii, jj,
                        ) by {
                            if is_candidate(
                                m, heldg, mx as int, my as int, radius as int, scale as int,
                                oo, ii, jj,
                            ) {
                                assert(0 <= jj < m[oo].anchors.len());
                                assert(oo == o as int && ii == i as int && jj >= nb as int);
                                assert(false);
                            }
                        }
                        lemma_extend_scan(
                            m, heldg, mx as int, my as int, radius as int, scale as int, best,
                            best_d2 as int, o as int, i as int, nb as int, o as int, i as int + 1, 0,
                        );
                    }
                } else {
                    proof {
                        assert forall|oo: int, ii: int, jj: int|
                            lex_before(oo, ii, jj, o as int, i as int + 1, 0) && !lex_before(
                                oo, ii, jj, o as int, i as int, 0,
                            ) implies !is_candidate(
                            m, heldg, mx as int, my as int, radius as int, scale as int, oo, ii, jj,
                        ) by {
                            if is_candidate(
                                m, heldg, mx as int, my as int, radius as int, scale as int,
                                oo, ii, jj,
                            ) {
                                assert(0 <= jj && 0 <= ii);
                                assert(oo == o as int && ii == i as int);
                                assert(false);
                            }
                        }
                        lemma_extend_scan(
                            m, heldg, mx as int, my as int, radius as int, scale as int, best,
                            best_d2 as int, o as int, i as int, 0, o as int, i as int + 1, 0,
                        );
                    }
                }
                i = i + 1;
            }
            proof {
                assert forall|oo: int, ii: int, jj: int|
                    lex_before(oo, ii, jj, o as int + 1, 0, 0) && !lex_before(
                        oo, ii, jj, o as int, na as int, 0,
                    ) implies !is_candidate(
                    m, heldg, mx as int, my as int, radius as int, scale as int, oo, ii, jj,
                ) by {
                    if is_candidate(
                        m, heldg, mx as int, my as int, radius as int, scale as int, oo, ii, jj,
                    ) {
                        assert(0 <= ii < m[heldg].anchors.len());
                        assert(oo == o as int && ii >= na as int);
                        assert(false);
                    }
                }
                lemma_extend_scan(
                    m, heldg, mx as int, my as int, radius as int, scale as int, best,
                    best_d2 as int, o as int, na as int, 0, o as int + 1, 0, 0,
                );
            }
        } else {
            proof {
                assert forall|oo: int, ii: int, jj: int|
                    lex_before(oo, ii, jj, o as int + 1, 0, 0) && !lex_before(
                        oo, ii, jj, o as int, 0, 0,
                    ) implies !is_candidate(
                    m, heldg, mx as int, my as int, radius as int, scale as int, oo, ii, jj,
                ) by {
                    if is_candidate(
                        m, heldg, mx as int, my as int, radius as int, scale as int, oo, ii, jj,
                    ) {
                        assert(0 <= ii && 0 <= jj);
                        assert(oo == o as int);
                        assert(body_eligible(m, heldg, o as int));
                        assert(false);
                    }
                }
                lemma_extend_scan(
                    m, heldg, mx as int, my as int, radius as int, scale as int, best,
                    best_d2 as int, o as int, 0, 0, o as int + 1, 0, 0,
                );
            }
        }
        o = o + 1;
    }
    proof {
        match best {
            Option::Some(c) => {
                assert forall|oo: int, ii: int, jj: int|
                    is_candidate(
                        m, heldg, mx as int, my as int, radius as int, scale as int, oo, ii, jj,
                    ) implies best_d2 as int <= pair_d2(m, heldg, mx as int, my as int, oo, ii, jj)
                    && (pair_d2(m, heldg, mx as int, my as int, oo, ii, jj) == best_d2 as int
                    ==> !lex_before(
                    oo, ii, jj, c.b_body as int, c.a_anchor as int, c.b_anchor as int,
                )) by {
                    assert(0 <= oo < m.len());
                    assert(lex_before(oo, ii, jj, n as int, 0, 0));
                }
            },
            Option::None => {
                assert forall|oo: int, ii: int, jj: int|
                    !is_candidate(
                        m, heldg, mx as int, my as int, radius as int, scale as int, oo, ii, jj,
                    ) by {
                    if is_candidate(
                        m, heldg, mx as int, my as int, radius as int, scale as int, oo, ii, jj,
                    ) {
                        assert(0 <= oo < m.len());
                        assert(lex_before(oo, ii, jj, n as int, 0, 0));
                    }
                }
            },
        }
    }
    best
}

/// Extending the scanned region over pairs that are not candidates keeps
/// the accumulator's meaning.
proof fn lemma_extend_scan(
    m: WorldModel,
    held: int,
    mx: int,
    my: int,
    radius: int,
    scale: int,
    best: Option<SnapCandidate>,
    best_d2: int,
    o1: int,
    i1: int,
    j1: int,
    o2: int,
    i2: int,
    j2: int,
)
    requires
        partial_post(m, held, mx, my, radius, scale, best, best_d2, o1, i1, j1),
        forall|oo: int, ii: int, jj: int|
            lex_before(oo, ii, jj, o2, i2, j2) && !lex_before(oo, ii, jj, o1, i1, j1)
                ==> !is_candidate(m, held, mx, my, radius, scale, oo, ii, jj),
        lex_before(o1, i1, j1, o2, i2, j2) || (o1 == o2 && i1 == i2 && j1 == j2),
    ensures
        partial_post(m, held, mx, my, radius, scale, best, best_d2, o2, i2, j2),
{
    match best {
        Option::None => {
            assert forall|oo: int, ii: int, jj: int|
                lex_before(oo, ii, jj, o2, i2, j2) implies !is_candidate(
                m, held, mx, my, radius, scale, oo, ii, jj,
            ) by {
                if lex_before(oo, ii, jj, o1, i1, j1) {
                    assert(!is_candidate(m, held, mx, my, radius, scale, oo, ii, jj));
                }
            }
        },
        Option::Some(c) => {
            assert(lex_before(c.b_body as int, c.a_anchor as int, c.b_anchor as int, o2, i2, j2));
            assert forall|oo: int, ii: int, jj: int|
                lex_before(oo, ii, jj, o2, i2, j2) && is_candidate(
                    m, held, mx, my, radius, scale, oo, ii, jj,
                ) implies best_d2 <= pair_d2(m, held, mx, my, oo, ii, jj) && (pair_d2(
                m, held, mx, my, oo, ii, jj,
            ) == best_d2 ==> !lex_before(
                oo, ii, jj, c.b_body as int, c.a_anchor as int, c.b_anchor as int,
            )) by {
                assert(lex_before(oo, ii, jj, o1, i1, j1));
            }
        },
    }
}

/// Scanning past a pair that did not displace the best: either it is no
/// candidate, or the best already is one at no greater distance.
proof fn lemma_step_keep(
    m: WorldModel,
    held: int,
    mx: int,
    my: int,
    radius: int,
    scale: int,
    best: Option<SnapCandidate>,
    best_d2: int,
    o: int,
    i: int,
    j: int,
)
    requires
        partial_post(m, held, mx, my, radius, scale, best, best_d2, o, i, j),
        is_candidate(m, held, mx, my, radius, scale, o, i, j) ==> best is Some && best_d2
            <= pair_d2(m, held, mx, my, o, i, j),
    ensures
        partial_post(m, held, mx, my, radius, scale, best, best_d2, o, i, j + 1),
{
    match best {
        Option::None => {
            assert forall|oo: int, ii: int, jj: int|
                lex_before(oo, ii, jj, o, i, j + 1) implies !is_candidate(
                m, held, mx, my, radius, scale, oo, ii, jj,
            ) by {
                if lex_before(oo, ii, jj, o, i, j) {
                    assert(!is_candidate(m, held, mx, my, radius, scale, oo, ii, jj));
                } else if oo == o && ii == i && jj == j {
                    assert(!is_candidate(m, held, mx, my, radius, scale, oo, ii, jj));
                }
            }
        },
        Option::Some(c) => {
            assert forall|oo: int, ii: int, jj: int|
                lex_before(oo, ii, jj, o, i, j + 1) && is_candidate(
                    m, held, mx, my, radius, scale, oo, ii, jj,
                ) implies best_d2 <= pair_d2(m, held, mx, my, oo, ii, jj) && (pair_d2(
                m, held, mx, my, oo, ii, jj,
            ) == best_d2 ==> !lex_before(
                oo, ii, jj, c.b_body as int, c.a_anchor as int, c.b_anchor as int,
            )) by {
                if lex_before(oo, ii, jj, o, i, j) {
                } else {
                    assert(oo == o && ii == i && jj == j);
                    assert(lex_before(
                        c.b_body as int, c.a_anchor as int, c.b_anchor as int, o, i, j,
                    ));
                }
            }
        },
    }
}

/// Scanning past a pair that became the new best: it is a candidate strictly
/// closer than every candidate seen before it.
proof fn lemma_step_take(
    m: WorldModel,
    held: int,
    mx: int,
    my: int,
    radius: int,
    scale: int,
    old_best: Option<SnapCandidate>,
    old_d2: int,
    c: SnapCandidate,
    o: int,
    i: int,
    j: int,
)
    requires
        partial_post(m, held, mx, my, radius, scale, old_best, old_d2, o, i, j),
        is_candidate(m, held, mx, my, radius, scale, o, i, j),
        old_best is Some ==> pair_d2(m, held, mx, my, o, i, j) < old_d2,
        c.a_body == held,
        c.b_body as int == o,
        c.a_anchor as int == i,
        c.b_anchor as int == j,
        c.position == corrected_pos(m, held, o, i, j),
    ensures
        partial_post(
            m, held, mx, my, radius, scale, Some(c),
            pair_d2(m, held, mx, my, o, i, j), o, i, j + 1,
        ),
{
    let nd2 = pair_d2(m, held, mx, my, o, i, j);
    assert forall|oo: int, ii: int, jj: int|
        lex_before(oo, ii, jj, o, i, j + 1) && is_candidate(
            m, held, mx, my, radius, scale, oo, ii, jj,
        ) implies nd2 <= pair_d2(m, held, mx, my, oo, ii, jj) by {
        if lex_before(oo, ii, jj, o, i, j) {
            match old_best {
                Option::None => {
                    assert(!is_candidate(m, held, mx, my, radius, scale, oo, ii, jj));
                },
                Option::Some(_) => {
                    assert(old_d2 <= pair_d2(m, held, mx, my, oo, ii, jj));
                },
            }
        } else {
            assert(oo == o && ii == i && jj == j);
        }
    }
    assert forall|oo: int, ii: int, jj: int|
        lex_before(oo, ii, jj, o, i, j + 1) && is_candidate(
            m, held, mx, my, radius, scale, oo, ii, jj,
        ) && pair_d2(m, held, mx, my, oo, ii, jj) == nd2 implies !lex_before(
        oo, ii, jj, c.b_body as int, c.a_anchor as int, c.b_anchor as int,
    ) by {
        if lex_before(oo, ii, jj, o, i, j) {
            match old_best {
                Option::None => {
                    assert(!is_candidate(m, held, mx, my, radius, scale, oo, ii, jj));
                },
                Option::Some(_) => {
                    assert(old_d2 <= pair_d2(m, held, mx, my, oo, ii, jj));
                    assert(false);
                },
            }
        } else {
            assert(oo == o && ii == i && jj == j);
        }
    }
    assert(lex_before(c.b_body as int, c.a_anchor as int, c.b_anchor as int, o, i, j + 1));
    assert(is_candidate(
        m, held, mx, my, radius, scale, c.b_body as int, c.a_anchor as int, c.b_anchor as int,
    ));
    assert(c.position == corrected_pos(m, held, c.b_body as int, c.a_anchor as int, c.b_anchor as int));
    assert(nd2 == pair_d2(m, held, mx, my, c.b_body as int, c.a_anchor as int, c.b_anchor as int));
}

/// The held body's pose after a drag frame: orientation reset to identity,
/// position following the cursor, or corrected onto the proposed snap so the
/// two anchors coincide; height kept either way.
pub open spec fn drag_model(
    m: WorldModel,
    held: int,
    mx: int,
    my: int,
    r: Option<SnapCandidate>,
) -> WorldModel {
    let pos = match r {
        Option::Some(c) => c.position,
        Option::None => Vec3F { x: mx as i64, y: my as i64, z: m[held].pose.pos.z },
    };
    m.update(held, BodyModel { pose: Pose { pos, rot: identity_quat() }, ..m[held] })
}

/// One matcher frame for the held body: reset its orientation, run the scan,
/// and move it to the cursor or onto the proposed snap position.  Only the
/// held body's transform changes; no anchor state is touched here.
pub fn drag_update(
    w: &mut World,
    held: usize,
    mx: i64,
    my: i64,
    radius: i64,
    scale: i64,
) -> (r: Option<SnapCandidate>)
    requires
        wf(old(w)@),
        (held as int) < old(w)@.len(),
        -POS_LIMIT <= mx <= POS_LIMIT,
        -POS_LIMIT <= my <= POS_LIMIT,
        0 <= radius <= 1_000_000_000,
        0 <= scale <= 1_000_000_000,
    ensures
        best_snap_post(old(w)@, held as int, mx as int, my as int, radius as int, scale as int, r),
        final(w)@ == drag_model(old(w)@, held as int, mx as int, my as int, r),
        wf(final(w)@),
{
    let r = find_best_snap(w, held, mx, my, radius, scale);
    proof {
        assert(w@[held as int] == w.bodies@[held as int]@);
        assert(wf_body(w@, held as int));
    }
    let npos = match r {
        Some(c) => c.position,
        None => Vec3F { x: mx, y: my, z: w.bodies[held].pose.pos.z },
    };
    let rot = Quat4::identity();
    let ghost prev = w@;
    let body = &mut w.bodies[held];
    body.pose = Pose { pos: npos, rot };
    proof {
        assert(w@[held as int] == w.bodies@[held as int]@);
        assert forall|i: int| 0 <= i < prev.len() && i != held as int implies w@[i] == prev[i] by {
            assert(w@[i] == w.bodies@[i]@);
        }
        assert(w@ =~= drag_model(prev, held as int, mx as int, my as int, r));
        assert(npos.bounded(POS_LIMIT as int));
        assert forall|i: int| 0 <= i < w@.len() implies wf_body(w@, i) by {
            assert(wf_body(prev, i));
        }
    }
    r
}

/// Whether this frame's proposal names a different target than the previous
/// frame's (a different partner body or different anchors on either side).
pub open spec fn snap_changed_spec(
    prev: Option<SnapCandidate>,
    cur: Option<SnapCandidate>,
) -> bool {
    match cur {
        Option::Some(c) => match prev {
            Option::Some(p) => c.b_body != p.b_body || c.a_anchor != p.a_anchor || c.b_anchor
                != p.b_anchor,
            Option::None => true,
        },
        Option::None => false,
    }
}

/// The change signal surfaced to the audio collaborator: true exactly when a
/// proposal exists this frame and it targets a new partner body or anchor
/// pair.  Losing the proposal raises no cue.
pub fn snap_cue(prev: Option<SnapCandidate>, cur: Option<SnapCandidate>) -> (r: bool)
    ensures
        r == snap_changed_spec(prev, cur),
{
    match cur {
        Some(c) => match prev {
            Some(p) => c.b_body != p.b_body || c.a_anchor != p.a_anchor || c.b_anchor
                != p.b_anchor,
            None => true,
        },
        None => false,
    }
}

} // verus!
