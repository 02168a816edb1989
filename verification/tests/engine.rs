use anchor_snap::anchor::{AnchorColor, AnchorRec, AnchorState};
use anchor_snap::collision::{attach_collider, clearance_sweep, tag_collisions};
use anchor_snap::geom::{Pose, Quat4, Vec3F};
use anchor_snap::matcher::{drag_update, find_best_snap, snap_cue, SnapCandidate};
use anchor_snap::phase::{all_blocks_decayed, build_complete, decayed_count};
use anchor_snap::protocol::{
    apply_decay, begin_drag, disaster_break, release_drag, ReleaseOutcome,
};
use anchor_snap::world::{Body, World};

const UNIT: i64 = 1000;

fn v(x: i64, y: i64, z: i64) -> Vec3F {
    Vec3F { x, y, z }
}

fn base_body(pos: Vec3F) -> Body {
    Body {
        alive: true,
        decayed: false,
        needs_decay: false,
        is_block: true,
        no_collide: false,
        is_pool: false,
        in_pool: false,
        on_tentacle: false,
        in_collision: false,
        pickable: true,
        parent: None,
        pose: Pose { pos, rot: Quat4::identity() },
        scale: v(UNIT, UNIT, UNIT),
        half: None,
        anchors: Vec::new(),
        saved: None,
    }
}

fn anchor(off: Vec3F, color: AnchorColor) -> AnchorRec {
    AnchorRec { off, color, state: AnchorState::Clear, foundation: false }
}

/// Two pieces, one `Up` anchor each at world positions (0,0,0) and (0,3,0),
/// compatible colors, snap radius 2.0 at camera scale 1.0: dragging piece A
/// so its anchor reaches (0,1,0) produces a proposal whose corrected position
/// puts A's anchor exactly onto B's anchor.
#[test]
fn snap_scenario_zero_residual() {
    let mut a = base_body(v(0, 0, 0));
    a.anchors.push(anchor(v(0, 0, 0), AnchorColor::Up));
    let mut b = base_body(v(0, 3 * UNIT, 0));
    b.anchors.push(anchor(v(0, 0, 0), AnchorColor::Down));
    let w = World { bodies: vec![a, b] };
    let r = find_best_snap(&w, 0, 0, 1 * UNIT, 2 * UNIT, 1 * UNIT);
    let c = r.expect("a candidate within the radius");
    assert_eq!(c.a_body, 0);
    assert_eq!(c.a_anchor, 0);
    assert_eq!(c.b_body, 1);
    assert_eq!(c.b_anchor, 0);
    // corrected position: A's anchor (offset zero) lands exactly at B's anchor
    assert_eq!(c.position, v(0, 3 * UNIT, 0));
    let held_anchor_world = v(c.position.x + 0, c.position.y + 0, c.position.z + 0);
    let partner_anchor_world = v(0, 3 * UNIT, 0);
    assert_eq!(held_anchor_world, partner_anchor_world);
}

/// Beyond the snap range no proposal is made, compatible colors or not.
#[test]
fn snap_radius_excludes_far_anchors() {
    let mut a = base_body(v(0, 0, 0));
    a.anchors.push(anchor(v(0, 0, 0), AnchorColor::Up));
    let mut b = base_body(v(0, 10 * UNIT, 0));
    b.anchors.push(anchor(v(0, 0, 0), AnchorColor::Down));
    let w = World { bodies: vec![a, b] };
    // cursor at the held piece's own spot: distance 10 > 2.0 * 1.0
    assert!(find_best_snap(&w, 0, 0, 0, 2 * UNIT, 1 * UNIT).is_none());
}

/// Three colinear compatible anchors at distances 1, 2 and 3, all within the
/// radius: the matcher picks the nearest.
#[test]
fn greedy_minimum_picks_nearest() {
    let mut a = base_body(v(0, 0, 0));
    a.anchors.push(anchor(v(0, 0, 0), AnchorColor::Up));
    let mut b1 = base_body(v(0, 2 * UNIT, 0));
    b1.anchors.push(anchor(v(0, 0, 0), AnchorColor::Down));
    let mut b2 = base_body(v(0, 1 * UNIT, 0));
    b2.anchors.push(anchor(v(0, 0, 0), AnchorColor::Down));
    let mut b3 = base_body(v(0, 3 * UNIT, 0));
    b3.anchors.push(anchor(v(0, 0, 0), AnchorColor::Down));
    let w = World { bodies: vec![a, b1, b2, b3] };
    // all three partners lie within 4.0 * 1.0 of the cursor
    let c = find_best_snap(&w, 0, 0, 0, 4 * UNIT, 1 * UNIT).expect("candidates in range");
    assert_eq!(c.b_body, 2, "the distance-1 anchor wins");
}

/// Ties keep the first pair found in scan order.
#[test]
fn greedy_tie_keeps_first_found() {
    let mut a = base_body(v(0, 0, 0));
    a.anchors.push(anchor(v(0, 0, 0), AnchorColor::Up));
    let mut b1 = base_body(v(0, 2 * UNIT, 0));
    b1.anchors.push(anchor(v(0, 0, 0), AnchorColor::Down));
    let mut b2 = base_body(v(0, -2 * UNIT, 0));
    b2.anchors.push(anchor(v(0, 0, 0), AnchorColor::Down));
    let w = World { bodies: vec![a, b1, b2] };
    let c = find_best_snap(&w, 0, 0, 0, 3 * UNIT, 1 * UNIT).expect("two tied candidates");
    assert_eq!(c.b_body, 1, "equal distances keep the earlier body");
}

/// A held piece tagged in collision never snaps.
#[test]
fn collision_suppresses_snapping() {
    let mut a = base_body(v(0, 0, 0));
    a.anchors.push(anchor(v(0, 0, 0), AnchorColor::Up));
    a.in_collision = true;
    let mut b = base_body(v(0, 1 * UNIT, 0));
    b.anchors.push(anchor(v(0, 0, 0), AnchorColor::Down));
    let w = World { bodies: vec![a, b] };
    assert!(find_best_snap(&w, 0, 0, 0, 2 * UNIT, 1 * UNIT).is_none());
}

/// An anchor blocked by the candidate partner itself stays eligible
/// (re-snapping to the obstructing neighbor); one blocked by a third body is
/// not.
#[test]
fn blocked_anchor_eligibility() {
    let mut a = base_body(v(0, 0, 0));
    a.anchors.push(AnchorRec {
        off: v(0, 0, 0),
        color: AnchorColor::Up,
        state: AnchorState::Blocked(1),
        foundation: false,
    });
    let mut b = base_body(v(0, 1 * UNIT, 0));
    b.anchors.push(anchor(v(0, 0, 0), AnchorColor::Down));
    let w = World { bodies: vec![a, b] };
    assert!(find_best_snap(&w, 0, 0, 0, 2 * UNIT, 1 * UNIT).is_some());

    let mut a2 = base_body(v(0, 0, 0));
    a2.anchors.push(AnchorRec {
        off: v(0, 0, 0),
        color: AnchorColor::Up,
        state: AnchorState::Blocked(7),
        foundation: false,
    });
    let mut b2 = base_body(v(0, 1 * UNIT, 0));
    b2.anchors.push(anchor(v(0, 0, 0), AnchorColor::Down));
    let w2 = World { bodies: vec![a2, b2] };
    assert!(find_best_snap(&w2, 0, 0, 0, 2 * UNIT, 1 * UNIT).is_none());
}

/// Bodies still on a spawner tentacle are not snap partners.
#[test]
fn tentacle_bodies_are_not_partners() {
    let mut a = base_body(v(0, 0, 0));
    a.anchors.push(anchor(v(0, 0, 0), AnchorColor::Up));
    let mut b = base_body(v(0, 1 * UNIT, 0));
    b.anchors.push(anchor(v(0, 0, 0), AnchorColor::Down));
    b.on_tentacle = true;
    let w = World { bodies: vec![a, b] };
    assert!(find_best_snap(&w, 0, 0, 0, 2 * UNIT, 1 * UNIT).is_none());
}

/// Commit writes both occupied states; a later clearance sweep never touches
/// them.
#[test]
fn commit_idempotent_under_sweep() {
    let mut a = base_body(v(0, 0, 0));
    a.anchors.push(anchor(v(0, 0, 0), AnchorColor::Up));
    let mut b = base_body(v(0, 3 * UNIT, 0));
    b.anchors.push(anchor(v(0, 0, 0), AnchorColor::Down));
    let mut w = World { bodies: vec![a, b] };
    let c = drag_update(&mut w, 0, 0, 1 * UNIT, 2 * UNIT, 1 * UNIT);
    assert!(c.is_some());
    let out = release_drag(&mut w, 0, c, -100 * UNIT);
    assert_eq!(out, ReleaseOutcome::Committed);
    assert_eq!(w.bodies[0].anchors[0].state, AnchorState::Occupied(1));
    assert_eq!(w.bodies[1].anchors[0].state, AnchorState::Occupied(0));
    assert_eq!(w.bodies[0].pose.pos, v(0, 3 * UNIT, 0));
    assert!(!w.bodies[0].pickable);
    assert!(!w.bodies[0].on_tentacle);
    clearance_sweep(&mut w);
    assert_eq!(w.bodies[0].anchors[0].state, AnchorState::Occupied(1));
    assert_eq!(w.bodies[1].anchors[0].state, AnchorState::Occupied(0));
    clearance_sweep(&mut w);
    assert_eq!(w.bodies[0].anchors[0].state, AnchorState::Occupied(1));
}

/// An `Up` anchor blocked by a transient obstruction clears again once the
/// obstruction moves away; occupied anchors never revert by this path.
#[test]
fn clearance_reversibility() {
    let mut a = base_body(v(0, 0, 0));
    a.anchors.push(anchor(v(0, 0, 0), AnchorColor::Up));
    a.half = Some(v(400, 400, 400));
    // obstructor sits right on the probe point (0, 1, 0)
    let mut obst = base_body(v(0, 1 * UNIT, 0));
    obst.half = Some(v(600, 600, 600));
    let mut w = World { bodies: vec![a, obst] };
    clearance_sweep(&mut w);
    assert_eq!(w.bodies[0].anchors[0].state, AnchorState::Blocked(1));
    // move the obstruction far away and re-run the sweep
    w.bodies[1].pose.pos = v(50 * UNIT, 50 * UNIT, 0);
    clearance_sweep(&mut w);
    assert_eq!(w.bodies[0].anchors[0].state, AnchorState::Clear);
}

/// The sweep re-evaluates even a previously clear anchor to blocked while
/// something overlaps its probe.
#[test]
fn clearance_blocks_clear_anchor() {
    let mut a = base_body(v(0, 0, 0));
    a.anchors.push(anchor(v(0, 0, 0), AnchorColor::Up));
    let mut obst = base_body(v(0, 1 * UNIT, 0));
    obst.half = Some(v(600, 600, 600));
    let mut w = World { bodies: vec![a, obst] };
    clearance_sweep(&mut w);
    assert_eq!(w.bodies[0].anchors[0].state, AnchorState::Blocked(1));
}

/// Non-`Up` anchors are never re-probed by the sweep.
#[test]
fn clearance_ignores_down_anchors() {
    let mut a = base_body(v(0, 0, 0));
    a.anchors.push(anchor(v(0, 0, 0), AnchorColor::Down));
    let mut obst = base_body(v(0, 1 * UNIT, 0));
    obst.half = Some(v(600, 600, 600));
    let mut w = World { bodies: vec![a, obst] };
    clearance_sweep(&mut w);
    assert_eq!(w.bodies[0].anchors[0].state, AnchorState::Clear);
}

/// An anchor occupied by a vanished body is a dangling bond; the sweep nulls
/// it instead of leaving it occupied forever.
#[test]
fn clearance_nulls_dangling_bond() {
    let mut a = base_body(v(0, 0, 0));
    a.anchors.push(AnchorRec {
        off: v(0, 0, 0),
        color: AnchorColor::Down,
        state: AnchorState::Occupied(1),
        foundation: false,
    });
    let mut gone = base_body(v(0, 1 * UNIT, 0));
    gone.alive = false;
    let mut w = World { bodies: vec![a, gone] };
    clearance_sweep(&mut w);
    assert_eq!(w.bodies[0].anchors[0].state, AnchorState::Clear);
}

/// Releasing with no eligible partner restores the exact pre-drag transform.
#[test]
fn rollback_restores_saved_pose() {
    let mut a = base_body(v(7 * UNIT + 123, -2 * UNIT, 5 * UNIT));
    a.pose.rot = Quat4 { x: 1, y: 2, z: 3, w: 999 };
    a.anchors.push(anchor(v(0, 0, 0), AnchorColor::Up));
    let saved_pose = a.pose;
    let mut w = World { bodies: vec![a] };
    assert!(begin_drag(&mut w, 0, 0));
    assert_eq!(w.bodies[0].pose.pos.z, 0, "height pinned to the foundation plane");
    // drag around with nothing to snap to
    drag_update(&mut w, 0, 4 * UNIT, 4 * UNIT, 2 * UNIT, 1 * UNIT);
    assert_ne!(w.bodies[0].pose.pos, saved_pose.pos);
    let out = release_drag(&mut w, 0, None, -100 * UNIT);
    assert_eq!(out, ReleaseOutcome::RolledBack);
    assert_eq!(w.bodies[0].pose, saved_pose, "position and rotation bit-identical");
    assert!(w.bodies[0].saved.is_none());
}

/// begin_drag acts once per drag: a second call is a no-op.
#[test]
fn begin_drag_acts_once() {
    let mut a = base_body(v(0, 0, 3 * UNIT));
    let mut w = World { bodies: vec![a] };
    assert!(begin_drag(&mut w, 0, 0));
    assert!(!begin_drag(&mut w, 0, 0));
    assert_eq!(w.bodies[0].saved.unwrap().pos, v(0, 0, 3 * UNIT));
}

/// Releasing below the water plane destroys the body.
#[test]
fn release_below_water_drowns() {
    let mut a = base_body(v(0, -20 * UNIT, 0));
    a.saved = Some(Pose { pos: v(0, 5 * UNIT, 0), rot: Quat4::identity() });
    let mut w = World { bodies: vec![a] };
    let out = release_drag(&mut w, 0, None, -10 * UNIT);
    assert_eq!(out, ReleaseOutcome::Drowned);
    assert!(!w.bodies[0].alive);
}

/// A release against a vanished body quietly does nothing.
#[test]
fn release_on_vanished_body_is_noop() {
    let mut a = base_body(v(0, 0, 0));
    a.alive = false;
    let mut w = World { bodies: vec![a] };
    let out = release_drag(&mut w, 0, None, -10 * UNIT);
    assert_eq!(out, ReleaseOutcome::NoAction);
    let out2 = release_drag(&mut w, 9, None, -10 * UNIT);
    assert_eq!(out2, ReleaseOutcome::NoAction);
}

/// A commit whose partner vanished between matching and release fails soft
/// into rollback; no half-written bond appears.
#[test]
fn failed_commit_rolls_back() {
    let mut a = base_body(v(0, 0, 0));
    a.anchors.push(anchor(v(0, 0, 0), AnchorColor::Up));
    a.saved = Some(Pose { pos: v(4 * UNIT, 4 * UNIT, 0), rot: Quat4::identity() });
    let mut b = base_body(v(0, 3 * UNIT, 0));
    b.anchors.push(anchor(v(0, 0, 0), AnchorColor::Down));
    b.alive = false;
    let mut w = World { bodies: vec![a, b] };
    let stale = SnapCandidate { a_body: 0, a_anchor: 0, b_body: 1, b_anchor: 0, position: v(0, 3 * UNIT, 0) };
    let out = release_drag(&mut w, 0, Some(stale), -10 * UNIT);
    assert_eq!(out, ReleaseOutcome::RolledBack);
    assert_eq!(w.bodies[0].anchors[0].state, AnchorState::Clear, "no half-written bond");
    assert_eq!(w.bodies[0].pose.pos, v(4 * UNIT, 4 * UNIT, 0));
}

/// Disaster break: A occupied with B, B struck by the disaster path: A's
/// anchor reads Blocked(B), B decays, and only a genuine re-probe clears A.
#[test]
fn disaster_breaks_bond() {
    let mut a = base_body(v(0, 0, 0));
    a.anchors.push(AnchorRec {
        off: v(0, 0, 0),
        color: AnchorColor::Up,
        state: AnchorState::Occupied(1),
        foundation: false,
    });
    let mut b = base_body(v(0, -2 * UNIT, 0));
    b.anchors.push(AnchorRec {
        off: v(0, 0, 0),
        color: AnchorColor::Down,
        state: AnchorState::Occupied(0),
        foundation: false,
    });
    let mut w = World { bodies: vec![a, b] };
    disaster_break(&mut w, &vec![1]);
    assert_eq!(w.bodies[0].anchors[0].state, AnchorState::Blocked(1));
    assert!(w.bodies[1].needs_decay);
    apply_decay(&mut w);
    assert!(w.bodies[1].decayed);
    assert!(w.bodies[1].anchors.is_empty(), "weathered variants carry no anchors");
    // B (below A) does not obstruct A's probe one unit above, so the next
    // genuine sweep clears the broken joint
    clearance_sweep(&mut w);
    assert_eq!(w.bodies[0].anchors[0].state, AnchorState::Clear);
}

/// The disaster flip touches only occupied anchors.
#[test]
fn disaster_leaves_clear_anchors() {
    let mut a = base_body(v(0, 0, 0));
    a.anchors.push(anchor(v(0, 0, 0), AnchorColor::Up));
    let mut w = World { bodies: vec![a] };
    disaster_break(&mut w, &vec![0]);
    assert_eq!(w.bodies[0].anchors[0].state, AnchorState::Clear);
    assert!(w.bodies[0].needs_decay);
}

/// The snap-change cue fires on a new or changed target, never on losing one.
#[test]
fn snap_cue_change_detection() {
    let c1 = SnapCandidate { a_body: 0, a_anchor: 0, b_body: 1, b_anchor: 0, position: v(0, 0, 0) };
    let c2 = SnapCandidate { a_body: 0, a_anchor: 0, b_body: 2, b_anchor: 0, position: v(0, 0, 0) };
    let c3 = SnapCandidate { a_body: 0, a_anchor: 0, b_body: 1, b_anchor: 1, position: v(0, 0, 0) };
    assert!(snap_cue(None, Some(c1)), "first snap clanks");
    assert!(!snap_cue(Some(c1), Some(c1)), "same target stays silent");
    assert!(snap_cue(Some(c1), Some(c2)), "new partner clanks");
    assert!(snap_cue(Some(c1), Some(c3)), "new anchor clanks");
    assert!(!snap_cue(Some(c1), None), "losing the snap is silent");
    assert!(!snap_cue(None, None));
}

/// The pairwise sweep tags exactly the overlapping bodies.
#[test]
fn collision_tagging() {
    let mut a = base_body(v(0, 0, 0));
    a.half = Some(v(900, 900, 900));
    let mut b = base_body(v(1 * UNIT, 0, 0));
    b.half = Some(v(900, 900, 900));
    let mut c = base_body(v(10 * UNIT, 0, 0));
    c.half = Some(v(900, 900, 900));
    let mut w = World { bodies: vec![a, b, c] };
    tag_collisions(&mut w);
    assert!(w.bodies[0].in_collision);
    assert!(w.bodies[1].in_collision);
    assert!(!w.bodies[2].in_collision);
    // separate them and the tags fall away
    w.bodies[1].pose.pos = v(5 * UNIT, 0, 0);
    tag_collisions(&mut w);
    assert!(!w.bodies[0].in_collision);
    assert!(!w.bodies[1].in_collision);
}

/// Colliders derive once, at 90% of the bounding box, and respect the
/// opt-out.
#[test]
fn collider_derivation() {
    let mut a = base_body(v(0, 0, 0));
    let mut b = base_body(v(0, 0, 0));
    b.no_collide = true;
    let mut w = World { bodies: vec![a, b] };
    attach_collider(&mut w, 0, v(1000, 2000, 500));
    assert_eq!(w.bodies[0].half, Some(v(900, 1800, 450)));
    attach_collider(&mut w, 0, v(100, 100, 100));
    assert_eq!(w.bodies[0].half, Some(v(900, 1800, 450)), "a collider attaches once");
    attach_collider(&mut w, 1, v(1000, 1000, 1000));
    assert_eq!(w.bodies[1].half, None, "opted out");
}

/// Build-phase completion: done once every placed non-foundation Up anchor
/// is taken, with at least one such anchor present.
#[test]
fn build_completion() {
    let mut w = World { bodies: vec![] };
    assert!(!build_complete(&w), "an empty scene is never complete");

    let mut foundation = base_body(v(0, 0, 0));
    foundation.anchors.push(AnchorRec {
        off: v(0, 0, 0),
        color: AnchorColor::Up,
        state: AnchorState::Clear,
        foundation: true,
    });
    let mut blk = base_body(v(0, 2 * UNIT, 0));
    blk.anchors.push(anchor(v(0, 0, 0), AnchorColor::Up));
    let mut w = World { bodies: vec![foundation, blk] };
    assert!(!build_complete(&w), "a clear non-foundation Up anchor blocks completion");
    w.bodies[1].anchors[0].state = AnchorState::Blocked(0);
    assert!(build_complete(&w));
    w.bodies[1].anchors[0].state = AnchorState::Occupied(0);
    assert!(build_complete(&w));
}

/// A scene whose only anchors belong to the foundation, or whose
/// non-foundation anchors are all `Down`, is not complete: completion needs
/// at least one taken non-foundation `Up` anchor.
#[test]
fn build_completion_needs_up_anchor() {
    let mut foundation = base_body(v(0, 0, 0));
    foundation.anchors.push(AnchorRec {
        off: v(0, 0, 0),
        color: AnchorColor::Up,
        state: AnchorState::Occupied(1),
        foundation: true,
    });
    let w = World { bodies: vec![foundation] };
    assert!(!build_complete(&w), "foundation-only anchors never complete the phase");

    let mut blk = base_body(v(0, 2 * UNIT, 0));
    blk.anchors.push(anchor(v(0, 0, 0), AnchorColor::Down));
    let w2 = World { bodies: vec![blk] };
    assert!(!build_complete(&w2), "without an Up anchor there is nothing to finish");
}

/// Decay-phase completion and scoring.
#[test]
fn decay_completion_and_score() {
    let mut a = base_body(v(0, 0, 0));
    let mut b = base_body(v(0, 2 * UNIT, 0));
    let mut w = World { bodies: vec![a, b] };
    assert!(!all_blocks_decayed(&w));
    assert_eq!(decayed_count(&w), 0);
    w.bodies[0].needs_decay = true;
    apply_decay(&mut w);
    assert!(!all_blocks_decayed(&w));
    assert_eq!(decayed_count(&w), 1);
    w.bodies[1].needs_decay = true;
    apply_decay(&mut w);
    assert!(all_blocks_decayed(&w));
    assert_eq!(decayed_count(&w), 2);
}

/// The committed piece and its sub-meshes all become un-pickable.
#[test]
fn commit_unpicks_descendants() {
    let mut root = base_body(v(0, 0, 0));
    root.anchors.push(anchor(v(0, 0, 0), AnchorColor::Up));
    let mut child = base_body(v(0, 0, 0));
    child.parent = Some(0);
    child.is_block = false;
    let mut partner = base_body(v(0, 3 * UNIT, 0));
    partner.anchors.push(anchor(v(0, 0, 0), AnchorColor::Down));
    // arena order: partner may come before the held subtree
    let mut w = World { bodies: vec![root, child, partner] };
    let c = drag_update(&mut w, 0, 0, 2 * UNIT, 2 * UNIT, 1 * UNIT);
    let out = release_drag(&mut w, 0, c, -100 * UNIT);
    assert_eq!(out, ReleaseOutcome::Committed);
    assert!(!w.bodies[0].pickable);
    assert!(!w.bodies[1].pickable, "descendants become un-pickable too");
    assert!(w.bodies[2].pickable, "the partner stays pickable");
}

/// Decoration anchors pair among themselves and never with the block pair.
#[test]
fn decoration_colors_pair_separately() {
    let mut a = base_body(v(0, 0, 0));
    a.anchors.push(anchor(v(0, 0, 0), AnchorColor::DecorationUp));
    let mut b = base_body(v(0, 1 * UNIT, 0));
    b.anchors.push(anchor(v(0, 0, 0), AnchorColor::Down));
    let mut c = base_body(v(0, -1 * UNIT, 0));
    c.anchors.push(anchor(v(0, 0, 0), AnchorColor::DecorationDown));
    let w = World { bodies: vec![a, b, c] };
    let r = find_best_snap(&w, 0, 0, 0, 2 * UNIT, 1 * UNIT).expect("the decoration pair");
    assert_eq!(r.b_body, 2);
}

/// With several anchors on both sides the proposal names the right indices,
/// and the drag keeps the held body's height.
#[test]
fn multi_anchor_indices_and_height() {
    let mut a = base_body(v(0, 0, 5 * UNIT));
    a.anchors.push(anchor(v(-3 * UNIT, 0, 0), AnchorColor::Down));
    a.anchors.push(anchor(v(1 * UNIT, 0, 0), AnchorColor::Up));
    let mut b = base_body(v(2 * UNIT, 1 * UNIT, 5 * UNIT));
    b.anchors.push(anchor(v(4 * UNIT, 0, 0), AnchorColor::Down));
    b.anchors.push(anchor(v(-1 * UNIT, 0, 0), AnchorColor::Down));
    let mut w = World { bodies: vec![a, b] };
    let c = drag_update(&mut w, 0, 0, 1 * UNIT, 2 * UNIT, 1 * UNIT).expect("a pair in range");
    // held Up anchor at (1, 1, 5); partner anchors at (6, 1, 5) and (1, 1, 5)
    assert_eq!(c.a_anchor, 1);
    assert_eq!(c.b_anchor, 1);
    assert_eq!(w.bodies[0].pose.pos, v(0, 1 * UNIT, 5 * UNIT), "x, y corrected; height kept");
    assert_eq!(w.bodies[0].pose.rot, Quat4::identity(), "rotation reset while held");
}

/// A lone held piece has nothing to snap to.
#[test]
fn lone_piece_never_snaps() {
    let mut a = base_body(v(0, 0, 0));
    a.anchors.push(anchor(v(0, 0, 0), AnchorColor::Up));
    let w = World { bodies: vec![a] };
    assert!(find_best_snap(&w, 0, 0, 0, 30 * UNIT, 1 * UNIT).is_none());
}

/// Occupied anchors are not eligible on either side of the scan.
#[test]
fn occupied_anchors_not_eligible() {
    let mut a = base_body(v(0, 0, 0));
    a.anchors.push(AnchorRec {
        off: v(0, 0, 0),
        color: AnchorColor::Up,
        state: AnchorState::Occupied(1),
        foundation: false,
    });
    let mut b = base_body(v(0, 1 * UNIT, 0));
    b.anchors.push(anchor(v(0, 0, 0), AnchorColor::Down));
    let w = World { bodies: vec![a, b] };
    assert!(find_best_snap(&w, 0, 0, 0, 2 * UNIT, 1 * UNIT).is_none());
}
