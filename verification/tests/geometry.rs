use anchor_snap::anchor::AnchorColor;
use anchor_snap::geom::{aabb_overlap, dist2, in_snap_range, Pose, Quat4, Vec3F};
use anchor_snap::registry::{composite_owner, register_markers, Marker};
use anchor_snap::units::{grid_offset, round_div, UNIT};
use anchor_snap::world::{Body, World};

fn v(x: i64, y: i64, z: i64) -> Vec3F {
    Vec3F { x, y, z }
}

fn node(parent: Option<usize>, is_pool: bool, scale: Vec3F) -> Body {
    Body {
        alive: true,
        decayed: false,
        needs_decay: false,
        is_block: true,
        no_collide: false,
        is_pool,
        in_pool: false,
        on_tentacle: false,
        in_collision: false,
        pickable: true,
        parent,
        pose: Pose { pos: v(0, 0, 0), rot: Quat4::identity() },
        scale,
        half: None,
        anchors: Vec::new(),
        saved: None,
    }
}

/// The color pairing table: `Up` with `Down`, `DecorationUp` with
/// `DecorationDown`, nothing with the neutral color, symmetric throughout and
/// never reflexive.
#[test]
fn compatibility_table() {
    let all = [
        AnchorColor::Up,
        AnchorColor::Down,
        AnchorColor::DecorationUp,
        AnchorColor::DecorationDown,
        AnchorColor::Neutral,
    ];
    assert!(AnchorColor::Up.compatible(AnchorColor::Down));
    assert!(AnchorColor::Down.compatible(AnchorColor::Up));
    assert!(AnchorColor::DecorationUp.compatible(AnchorColor::DecorationDown));
    assert!(AnchorColor::DecorationDown.compatible(AnchorColor::DecorationUp));
    for c in all {
        assert!(!AnchorColor::Neutral.compatible(c));
        assert!(!c.compatible(AnchorColor::Neutral));
        assert!(!c.compatible(c), "the pairing is not reflexive");
        for d in all {
            assert_eq!(c.compatible(d), d.compatible(c), "the pairing is symmetric");
        }
    }
    assert!(!AnchorColor::Up.compatible(AnchorColor::DecorationDown));
    assert!(!AnchorColor::DecorationUp.compatible(AnchorColor::Down));
}

/// Rounding half away from zero, in both signs.
#[test]
fn rounding_half_away() {
    assert_eq!(round_div(1499, 1000), 1);
    assert_eq!(round_div(1500, 1000), 2);
    assert_eq!(round_div(-1499, 1000), -1);
    assert_eq!(round_div(-1500, 1000), -2);
    assert_eq!(round_div(0, 1000), 0);
    assert_eq!(round_div(499, 1000), 0);
    assert_eq!(round_div(500, 1000), 1);
}

/// Marker offsets scale by the owner's scale and land on the whole-unit
/// grid; a mirrored owner flips the sign.
#[test]
fn grid_offset_scaling() {
    assert_eq!(grid_offset(1499, UNIT), 1 * UNIT);
    assert_eq!(grid_offset(1500, UNIT), 2 * UNIT);
    assert_eq!(grid_offset(1499, -UNIT), -1 * UNIT);
    assert_eq!(grid_offset(2000, 2 * UNIT), 4 * UNIT);
    assert_eq!(grid_offset(0, UNIT), 0);
    assert_eq!(grid_offset(2000, 500), 1 * UNIT, "half scale halves the offset");
}

#[test]
fn squared_distance() {
    assert_eq!(dist2(v(0, 0, 0), v(0, 2000, 0)), 4_000_000);
    assert_eq!(dist2(v(1, 2, 3), v(1, 2, 3)), 0);
    assert_eq!(dist2(v(-1000, 0, 0), v(1000, 0, 0)), 4_000_000);
    assert_eq!(dist2(v(300, 400, 0), v(0, 0, 0)), 250_000);
}

/// The overlap test is a closed interval intersection on each axis.
#[test]
fn cuboid_overlap() {
    let h = v(500, 500, 500);
    assert!(aabb_overlap(v(0, 0, 0), h, v(900, 0, 0), h));
    assert!(aabb_overlap(v(0, 0, 0), h, v(1000, 0, 0), h), "touching counts as overlap");
    assert!(!aabb_overlap(v(0, 0, 0), h, v(1001, 0, 0), h));
    assert!(!aabb_overlap(v(0, 0, 0), h, v(900, 0, 5000), h), "every axis must meet");
}

/// The range test compares against radius times camera scale: the same gap
/// passes at full scale and fails zoomed in.
#[test]
fn snap_range_scales_with_camera() {
    let d2 = dist2(v(0, 0, 0), v(0, 2000, 0));
    assert!(in_snap_range(d2, 2 * UNIT, 1 * UNIT), "distance 2.0 at range 2.0x1.0");
    assert!(!in_snap_range(d2, 2 * UNIT, 999), "any smaller scale excludes it");
    assert!(!in_snap_range(d2 + 1, 2 * UNIT, 1 * UNIT));
    assert!(in_snap_range(0, 0, 0), "zero distance is within any range");
}

/// Anchors lift to the topmost non-pool ancestor; the pool holder itself is
/// skipped, and a marker with no owner is dropped.
#[test]
fn registration_walks_to_composite() {
    // 0: pool holder, 1: composite under the pool, 2: sub-part under 1
    let pool = node(None, true, v(UNIT, UNIT, UNIT));
    let composite = node(Some(0), false, v(-UNIT, UNIT, UNIT));
    let part = node(Some(1), false, v(UNIT, UNIT, UNIT));
    let mut w = World { bodies: vec![pool, composite, part] };
    assert_eq!(composite_owner(&w, 2), Some(1), "the pool ancestor is skipped");
    assert_eq!(composite_owner(&w, 1), None, "only the pool above");
    assert_eq!(composite_owner(&w, 0), None, "a root has no owner");

    let markers = vec![
        Marker { node: 2, off: v(1499, -2000, 0), color: AnchorColor::Up, foundation: false },
        Marker { node: 2, off: v(0, 0, 500), color: AnchorColor::Down, foundation: true },
        Marker { node: 0, off: v(0, 0, 0), color: AnchorColor::Up, foundation: false },
    ];
    register_markers(&mut w, markers);
    assert_eq!(w.bodies[1].anchors.len(), 2, "both markers landed on the composite");
    assert!(w.bodies[2].anchors.is_empty());
    assert!(w.bodies[0].anchors.is_empty(), "a marker without an owner is dropped");
    // owner scale (-1, 1, 1) mirrors x; 1.499 rounds to 1, then mirrored
    assert_eq!(w.bodies[1].anchors[0].off, v(-1 * UNIT, -2 * UNIT, 0));
    assert_eq!(w.bodies[1].anchors[0].color, AnchorColor::Up);
    assert!(!w.bodies[1].anchors[0].foundation);
    // 0.5 units rounds half away from zero to 1
    assert_eq!(w.bodies[1].anchors[1].off, v(0, 0, 1 * UNIT));
    assert!(w.bodies[1].anchors[1].foundation);
}
