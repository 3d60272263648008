use alesia::fixed::SUB;
use alesia::world::{is_tile_atrange, tile_at, wots, World};

#[test]
fn wots_places_tile_corners() {
    let w = World::blank_o(10, 20, 96, 48);
    assert_eq!(wots(&w, 0, 0), (10, 20));
    assert_eq!(wots(&w, 1, 0), (58, 44));
    assert_eq!(wots(&w, 0, 1), (-38, 44));
    assert_eq!(wots(&w, 3, 2), (58, 140));
}

#[test]
fn tile_centers_round_trip() {
    for (a, b) in [(0i64, 0i64), (2 * SUB, SUB), (-3 * SUB, 4 * SUB), (SUB / 2, 0), (SUB / 4, 3 * SUB / 4)] {
        let mut w = World::blank_o(7, -5, 96, 48);
        w.set_cpos(a, b);
        let cpos = w.get_cpos();
        for tx in 0..6 {
            for ty in 0..6 {
                let (sx, sy) = wots(&w, tx, ty);
                let px = sx + 48 - cpos.0;
                let py = sy + 24 - cpos.1;
                assert_eq!(tile_at(&w, px as i32, py as i32), (tx, ty));
            }
        }
    }
}

#[test]
fn hit_test_interior_and_neighbours() {
    let w = World::blank();
    assert_eq!(tile_at(&w, 48, 24), (0, 0));
    assert_eq!(tile_at(&w, 100, 30), (1, 0));
    assert_eq!(tile_at(&w, -10, -10), (-1, 0));
    assert_eq!(tile_at(&w, 96, 0), (0, -1));
    assert_eq!(tile_at(&w, 0, 48), (0, 1));
}

#[test]
fn hit_test_edges_resolve_the_same_way() {
    let w = World::blank();
    // Points on the edges of tile (0, 0)'s diamond belong to it.
    assert_eq!(tile_at(&w, 24, 12), (0, 0));
    assert_eq!(tile_at(&w, 72, 12), (0, 0));
    assert_eq!(tile_at(&w, 24, 36), (0, 0));
    assert_eq!(tile_at(&w, 72, 36), (0, 0));
    assert_eq!(tile_at(&w, 48, 0), (0, 0));
    assert_eq!(tile_at(&w, 0, 24), (0, 0));
    // Just outside an edge: one neighbour per quadrant.
    assert_eq!(tile_at(&w, 23, 12), (-1, 0));
    assert_eq!(tile_at(&w, 73, 12), (0, -1));
    assert_eq!(tile_at(&w, 23, 36), (0, 1));
    assert_eq!(tile_at(&w, 73, 36), (1, 0));
    // The same point always gives the same tile.
    for _ in 0..3 {
        assert_eq!(tile_at(&w, 96, 24), (1, -1));
        assert_eq!(tile_at(&w, 96, 48), (1, 0));
    }
}

#[test]
fn hit_test_follows_the_camera() {
    let mut w = World::blank();
    w.set_cpos(2 * SUB, SUB);
    assert_eq!(tile_at(&w, 48, 24), (2, 1));
    w.set_cpos(SUB / 2, 0);
    assert_eq!(w.get_cpos(), (24, 12));
}

#[test]
fn atrange_is_manhattan_distance() {
    for r in 0u8..=20 {
        assert!(is_tile_atrange((3, 3), (3, 3 + r as i32), r));
        assert!(is_tile_atrange((3, 3 + r as i32), (3, 3), r));
        for s in 0u8..=20 {
            if s != r {
                assert!(!is_tile_atrange((3, 3), (3, 3 + r as i32), s));
            }
        }
    }
    assert!(is_tile_atrange((0, 0), (2, -3), 5));
    assert!(!is_tile_atrange((0, 0), (2, -3), 1));
}

#[test]
fn camera_pans_four_tiles_a_second() {
    let mut w = World::blank();
    w.pan_camera(false, true, false, true, 500_000);
    assert_eq!((w.cam_wx, w.cam_wy), (2 * SUB, 2 * SUB));
    w.pan_camera(true, false, true, false, 250_000);
    assert_eq!((w.cam_wx, w.cam_wy), (SUB, SUB));
    w.pan_camera(true, true, false, false, 250_000);
    assert_eq!((w.cam_wx, w.cam_wy), (SUB, SUB));
}
