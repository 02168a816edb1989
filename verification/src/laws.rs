//! The engine's cross-cutting guarantees, stated and proved over the same
//! models that the executable functions' contracts use.

use vstd::prelude::*;

use crate::anchor::{AnchorColor, AnchorRec, AnchorState};
use crate::collision::{
    obstructor_from, obstructor_spec, obstructs_at, probe_point_spec, sweep_body, sweep_model,
    sweep_rec,
};
use crate::geom::{in_snap_range_spec, Vec3F};
use crate::matcher::{is_candidate, pair_d2, SnapCandidate};
use crate::protocol::{
    commit_model, commit_valid, disaster_model, place_model, release_spec, set_anchor_state,
    struck, unpick_model, ReleaseOutcome,
};
use crate::world::{live, WorldModel};

verus! {

/// Snap radius law: a pair of anchors farther apart than the snap range is
/// never a candidate, whatever its colors and states, so the matcher can
/// never propose it.
pub proof fn lemma_beyond_radius_no_candidate(
    m: WorldModel,
    held: int,
    mx: int,
    my: int,
    radius: int,
    scale: int,
    o: int,
    i: int,
    j: int,
)
    requires
        !in_snap_range_spec(pair_d2(m, held, mx, my, o, i, j), radius, scale),
    ensures
        !is_candidate(m, held, mx, my, radius, scale, o, i, j),
{
}

/// No obstructor is found at or past `k` exactly when nothing obstructs
/// there.
proof fn lemma_obstructor_none_iff(m: WorldModel, skip: int, probe: Vec3F, k: int)
    requires
        0 <= k,
    ensures
        (obstructor_from(m, skip, probe, k) is None) <==> (forall|o: int|
            k <= o < m.len() ==> !(#[trigger] obstructs_at(m, skip, probe, o))),
    decreases m.len() - k,
{
    if 0 <= k < m.len() {
        lemma_obstructor_none_iff(m, skip, probe, k + 1);
    }
}

/// Commit writes both sides of the bond: afterwards each anchor reads
/// `Occupied` with the other body.
pub proof fn lemma_commit_sets_occupied(m: WorldModel, held: int, c: SnapCandidate)
    requires
        commit_valid(m, c),
        c.a_body != c.b_body,
        0 <= held < m.len(),
    ensures
        commit_model(m, held, c)[c.a_body as int].anchors[c.a_anchor as int].state
            == AnchorState::Occupied(c.b_body),
        commit_model(m, held, c)[c.b_body as int].anchors[c.b_anchor as int].state
            == AnchorState::Occupied(c.a_body),
        live(commit_model(m, held, c), c.a_body as int),
        live(commit_model(m, held, c), c.b_body as int),
        commit_model(m, held, c)[c.a_body as int].anchors.len() == m[c.a_body as
            int].anchors.len(),
        commit_model(m, held, c)[c.b_body as int].anchors.len() == m[c.b_body as
            int].anchors.len(),
{
    let ab = c.a_body as int;
    let bb = c.b_body as int;
    let ai = c.a_anchor as int;
    let bi = c.b_anchor as int;
    assert(0 <= ab < m.len());
    assert(0 <= bb < m.len());
    let m1 = set_anchor_state(m, ab, ai, AnchorState::Occupied(c.b_body));
    let m2 = set_anchor_state(m1, bb, bi, AnchorState::Occupied(c.a_body));
    assert(m1.len() == m.len());
    assert(m1[ab].anchors == m[ab].anchors.update(
        ai,
        AnchorRec { state: AnchorState::Occupied(c.b_body), ..m[ab].anchors[ai] },
    ));
    assert(m1[ab].anchors[ai].state == AnchorState::Occupied(c.b_body));
    assert(m1[bb] == m[bb]);
    assert(m2[ab] == m1[ab]);
    assert(m2[bb].anchors == m1[bb].anchors.update(
        bi,
        AnchorRec { state: AnchorState::Occupied(c.a_body), ..m1[bb].anchors[bi] },
    ));
    assert(m2[ab].anchors[ai].state == AnchorState::Occupied(c.b_body));
    assert(m2[bb].anchors[bi].state == AnchorState::Occupied(c.a_body));
    let mu = unpick_model(m2, held);
    assert(mu[ab].anchors == m2[ab].anchors);
    assert(mu[bb].anchors == m2[bb].anchors);
    assert(mu[ab].alive && mu[bb].alive);
    let mm = commit_model(m, held, c);
    assert(mm == place_model(mu, held, c));
    assert(mu.len() == m.len());
    assert(mm[ab].anchors == mu[ab].anchors && mm[ab].alive == mu[ab].alive) by {
        if ab != held {
            assert(mm[ab] == mu[ab]);
        }
    }
    assert(mm[bb].anchors == mu[bb].anchors && mm[bb].alive == mu[bb].alive) by {
        if bb != held {
            assert(mm[bb] == mu[bb]);
        }
    }
}

/// The clearance sweep never touches an anchor occupied by a live peer.
pub proof fn lemma_sweep_preserves_occupied(m: WorldModel, b: int, j: int, p: usize)
    requires
        live(m, b),
        0 <= j < m[b].anchors.len(),
        m[b].anchors[j].state == AnchorState::Occupied(p),
        live(m, p as int),
    ensures
        sweep_model(m)[b].anchors[j] == m[b].anchors[j],
{
    let a = m[b].anchors[j];
    assert(sweep_model(m)[b] == sweep_body(m, b));
    assert(sweep_body(m, b).anchors[j] == sweep_rec(m, b, j));
    assert(sweep_rec(m, b, j) == (AnchorRec { state: a.state, ..a }));
}

/// Commit idempotence: after a commit, both participating anchors read
/// `Occupied` with the other body, and re-running the clearance sweep
/// changes neither of them.
pub proof fn lemma_commit_idempotent_under_sweep(m: WorldModel, held: int, c: SnapCandidate)
    requires
        commit_valid(m, c),
        c.a_body != c.b_body,
        0 <= held < m.len(),
    ensures
        sweep_model(commit_model(m, held, c))[c.a_body as int].anchors[c.a_anchor as int].state
            == AnchorState::Occupied(c.b_body),
        sweep_model(commit_model(m, held, c))[c.b_body as int].anchors[c.b_anchor as int].state
            == AnchorState::Occupied(c.a_body),
{
    let mm = commit_model(m, held, c);
    lemma_commit_sets_occupied(m, held, c);
    lemma_sweep_preserves_occupied(mm, c.a_body as int, c.a_anchor as int, c.b_body);
    lemma_sweep_preserves_occupied(mm, c.b_body as int, c.b_anchor as int, c.a_body);
}

/// Clearance reversibility, forward direction: an `Up` anchor that is clear
/// or blocked settles to `Clear` once nothing obstructs its probe any more.
pub proof fn lemma_sweep_clears_unobstructed(m: WorldModel, b: int, j: int)
    requires
        live(m, b),
        0 <= j < m[b].anchors.len(),
        m[b].anchors[j].color == AnchorColor::Up,
        m[b].anchors[j].state == AnchorState::Clear || m[b].anchors[j].state is Blocked,
        forall|o: int| !(#[trigger] obstructs_at(m, b, probe_point_spec(m, b, j), o)),
    ensures
        sweep_model(m)[b].anchors[j].state == AnchorState::Clear,
{
    lemma_obstructor_none_iff(m, b, probe_point_spec(m, b, j), 0);
    assert(sweep_model(m)[b] == sweep_body(m, b));
    assert(sweep_body(m, b).anchors[j] == sweep_rec(m, b, j));
}

/// Clearance, blocking direction: while something obstructs the probe of a
/// clear or blocked `Up` anchor, the sweep leaves it blocked.
pub proof fn lemma_sweep_blocks_obstructed(m: WorldModel, b: int, j: int, o: int)
    requires
        live(m, b),
        0 <= j < m[b].anchors.len(),
        m[b].anchors[j].color == AnchorColor::Up,
        m[b].anchors[j].state == AnchorState::Clear || m[b].anchors[j].state is Blocked,
        obstructs_at(m, b, probe_point_spec(m, b, j), o),
    ensures
        sweep_model(m)[b].anchors[j].state is Blocked,
{
    lemma_obstructor_none_iff(m, b, probe_point_spec(m, b, j), 0);
    assert(!(obstructor_spec(m, b, probe_point_spec(m, b, j)) is None));
    assert(sweep_model(m)[b] == sweep_body(m, b));
    assert(sweep_body(m, b).anchors[j] == sweep_rec(m, b, j));
}

/// A blocked anchor comes back to `Clear` only through a genuine re-probe
/// that found no obstruction at its location.
pub proof fn lemma_blocked_clears_only_unobstructed(m: WorldModel, b: int, j: int)
    requires
        live(m, b),
        0 <= j < m[b].anchors.len(),
        m[b].anchors[j].state is Blocked,
        sweep_model(m)[b].anchors[j].state == AnchorState::Clear,
    ensures
        m[b].anchors[j].color == AnchorColor::Up,
        forall|o: int| !(#[trigger] obstructs_at(m, b, probe_point_spec(m, b, j), o)),
    {
    assert(sweep_model(m)[b] == sweep_body(m, b));
    assert(sweep_body(m, b).anchors[j] == sweep_rec(m, b, j));
    let a = m[b].anchors[j];
    if a.color != AnchorColor::Up {
        assert(sweep_rec(m, b, j) == (AnchorRec { state: a.state, ..a }));
        assert(false);
    }
    lemma_obstructor_none_iff(m, b, probe_point_spec(m, b, j), 0);
    assert forall|o: int| !(#[trigger] obstructs_at(m, b, probe_point_spec(m, b, j), o)) by {
        if obstructs_at(m, b, probe_point_spec(m, b, j), o) {
            assert(!(obstructor_spec(m, b, probe_point_spec(m, b, j)) is None));
            assert(sweep_rec(m, b, j).state is Blocked);
        }
    }
}

/// Disaster break: when the chain destroys body `b`, every live body bonded
/// to it reads `Blocked(b)` afterwards, and `b` is marked for decay.
pub proof fn lemma_disaster_breaks_bond(
    m: WorldModel,
    chain: Seq<usize>,
    a: int,
    j: int,
    b: usize,
)
    requires
        live(m, a),
        0 <= j < m[a].anchors.len(),
        m[a].anchors[j].state == AnchorState::Occupied(b),
        struck(m, chain, b as int),
    ensures
        disaster_model(m, chain)[a].anchors[j].state == AnchorState::Blocked(b),
        disaster_model(m, chain)[b as int].needs_decay,
{
}

/// Rollback invariant: releasing with no proposal above the water restores
/// the exact saved pose (bit for bit), consumes the snapshot, and leaves
/// every other body untouched.
pub proof fn lemma_release_rolls_back(m: WorldModel, held: int, water_y: int)
    requires
        live(m, held),
        m[held].saved is Some,
        m[held].pose.pos.y >= water_y,
    ensures
        release_spec(m, held, None, water_y).1 == ReleaseOutcome::RolledBack,
        release_spec(m, held, None, water_y).0[held].pose == m[held].saved->Some_0,
        release_spec(m, held, None, water_y).0[held].saved is None,
        forall|i: int|
            0 <= i < m.len() && i != held ==> release_spec(m, held, None, water_y).0[i] == m[i],
{
}

} // verus!
