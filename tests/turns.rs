use alesia::entity::{UnitState, UnitType};
use alesia::fixed::SUB;
use alesia::input::{InputHandler, PHASE_ATTACK, PHASE_DESTINATION, PHASE_ENEMY_RESOLVE, PHASE_INTRO, PHASE_PLAYER_RESOLVE, PHASE_SELECT};
use alesia::orders::{order_pending, Order};
use alesia::world::{register_unit_type, spawn_unit, tile_at, wots, World, SpawnError};

fn swordsman(max_health: i64, range: u8, movement: u8) -> UnitType {
    let mut ut = UnitType::new(2, "Swordsperson".to_string(), max_health, 1_000_000, movement, range, 0);
    for _ in 0..9 {
        ut.def_anim_muted((32, 48), 10, (0, 0), 5_000, false);
    }
    ut
}

fn no_damage(_a: u8, _b: u8) -> i64 {
    0
}

/// Screen point at the centre of tile `(x, y)` for a camera at the origin.
fn centre(w: &World, x: i32, y: i32) -> (i32, i32) {
    let (sx, sy) = wots(w, x, y);
    (sx as i32 + 48, sy as i32 + 24)
}

#[test]
fn move_order_walks_one_tile_and_completes() {
    let mut w = World::blank();
    register_unit_type(&mut w, swordsman(10_000, 1, 2), 0);
    let id = spawn_unit(&mut w, 0, (1, 1), -1, true).unwrap();
    let mut ns = None;
    let o = Order::MOVE(id, 2, 1);
    assert!(order_pending(&o, &mut w, &mut ns, &no_damage));
    let u = w.units[id as usize].unwrap();
    assert_eq!(u.state, UnitState::WalkRight);
    assert!(u.busy);
    let mut frames = 0;
    while order_pending(&o, &mut w, &mut ns, &no_damage) {
        let ut = w.unit_types[0].as_ref().unwrap();
        let mut u = w.units[id as usize].unwrap();
        u.update(ut, 100_000);
        w.units[id as usize] = Some(u);
        frames += 1;
        assert!(frames < 20);
    }
    let u = w.units[id as usize].unwrap();
    assert_eq!((u.wx, u.wy), (2 * SUB, SUB));
    assert_eq!(u.state, UnitState::Stand);
    assert!(!u.busy);
    assert_eq!(ns, None);
}

#[test]
fn repolling_a_completed_move_does_not_move_the_unit() {
    let mut w = World::blank();
    register_unit_type(&mut w, swordsman(10_000, 1, 2), 0);
    let id = spawn_unit(&mut w, 0, (2, 1), -1, true).unwrap();
    let mut ns = None;
    let o = Order::MOVE(id, 2, 1);
    assert!(order_pending(&o, &mut w, &mut ns, &no_damage));
    assert_eq!(w.units[id as usize].unwrap().state, UnitState::Stand);
    assert!(!order_pending(&o, &mut w, &mut ns, &no_damage));
    let u = w.units[id as usize].unwrap();
    assert_eq!((u.wx, u.wy), (2 * SUB, SUB));
    assert!(!u.busy);
}

#[test]
fn completed_orders_leave_the_queue() {
    let mut w = World::blank();
    register_unit_type(&mut w, swordsman(10_000, 1, 2), 0);
    let id = spawn_unit(&mut w, 0, (0, 0), -1, true).unwrap();
    let mut h = InputHandler::new();
    h.state = PHASE_PLAYER_RESOLVE;
    h.ovec = vec![Order::MutHealthA(id, -2_000), Order::MOVE(id, 1, 0)];
    h.resolve_frame(&mut w, 0, &no_damage);
    assert_eq!(h.ovec, vec![Order::MOVE(id, 1, 0)]);
    assert_eq!(w.units[id as usize].unwrap().health, 8_000);
    for _ in 0..30 {
        if h.ovec.is_empty() {
            break;
        }
        h.resolve_frame(&mut w, 100_000, &no_damage);
    }
    assert!(h.ovec.is_empty());
    assert_eq!(h.get_state(), PHASE_SELECT);
    assert_eq!(w.units[id as usize].unwrap().wx, SUB);
}

#[test]
fn victory_and_defeat_set_the_phase() {
    let mut w = World::blank();
    let mut h = InputHandler::new();
    h.state = PHASE_ENEMY_RESOLVE;
    h.ovec = vec![Order::DEFEAT, Order::VICTORY];
    h.resolve_frame(&mut w, 10, &no_damage);
    assert_eq!(h.get_state(), 5);
    assert!(h.ovec.is_empty());
    let mut ns = None;
    assert!(!order_pending(&Order::DEFEAT, &mut w, &mut ns, &no_damage));
    assert_eq!(ns, Some(6));
}

#[test]
fn relative_health_uses_fraction_twice() {
    let mut w = World::blank();
    register_unit_type(&mut w, swordsman(10_000, 1, 2), 0);
    let id = spawn_unit(&mut w, 0, (0, 0), -1, true).unwrap();
    let mut ns = None;
    assert!(!order_pending(&Order::MutHealthR(id, 250), &mut w, &mut ns, &no_damage));
    assert_eq!(w.units[id as usize].unwrap().health, 10_625);
    assert!(!order_pending(&Order::MutHealthR(id, -350), &mut w, &mut ns, &no_damage));
    assert_eq!(w.units[id as usize].unwrap().health, 11_850);
    assert!(!order_pending(&Order::MutHealthA(77, 5), &mut w, &mut ns, &no_damage));
}

#[test]
fn lethal_attack_removes_the_defender() {
    let mut w = World::blank();
    register_unit_type(&mut w, swordsman(3_000, 1, 2), 0);
    let a = spawn_unit(&mut w, 0, (1, 1), -1, true).unwrap();
    let d = spawn_unit(&mut w, 0, (2, 1), -1, false).unwrap();
    let dmg = |_x: u8, _y: u8| 3_000i64;
    let mut h = InputHandler::new();
    h.state = PHASE_PLAYER_RESOLVE;
    h.ovec = vec![Order::ATTACK(a, d, 1, 1)];
    h.resolve_frame(&mut w, 16_000, &dmg);
    assert_eq!(w.units[a as usize].unwrap().state, UnitState::AttackRight);
    assert!(w.units[d as usize].is_some());
    assert!(w.projectiles.is_empty());
    h.resolve_frame(&mut w, 16_000, &dmg);
    assert!(w.units[d as usize].is_none());
    assert!(w.units[a as usize].is_some());
    assert_eq!(w.units[a as usize].unwrap().state, UnitState::Stand);
    assert_eq!(h.get_state(), PHASE_SELECT);
}

#[test]
fn distant_attack_fires_a_projectile() {
    let mut w = World::blank();
    register_unit_type(&mut w, swordsman(3_000, 3, 2), 0);
    let a = spawn_unit(&mut w, 0, (0, 0), -1, true).unwrap();
    let d = spawn_unit(&mut w, 0, (0, 3), -1, false).unwrap();
    let mut ns = None;
    assert!(order_pending(&Order::ATTACK(a, d, 0, 0), &mut w, &mut ns, &no_damage));
    assert_eq!(w.units[a as usize].unwrap().state, UnitState::AttackDown);
    assert_eq!(w.projectiles.len(), 1);
    assert_eq!(w.projectiles[0].target, (0, 3 * SUB));
    assert_eq!(w.projectiles[0].expected, 750_000);
}

#[test]
fn spawn_fails_for_unknown_type_and_full_world() {
    let mut w = World::blank();
    assert_eq!(spawn_unit(&mut w, 3, (0, 0), 0, true), Err(SpawnError::UnknownUnitType));
    register_unit_type(&mut w, swordsman(1, 1, 1), 3);
    let mut seen = vec![false; 256];
    for _ in 0..256 {
        let id = spawn_unit(&mut w, 3, (0, 0), 0, true).unwrap();
        assert!(!seen[id as usize]);
        seen[id as usize] = true;
    }
    assert_eq!(spawn_unit(&mut w, 3, (0, 0), 0, true), Err(SpawnError::NoFreeId));
}

fn selection_world() -> (World, u8, u8) {
    let mut w = World::blank();
    let mut d = vec![0xfa, 0xde, 0x00, 0xff, 8, 8, 0, 0];
    d.extend_from_slice(&[0u8; 64]);
    d.extend_from_slice(&[0u8; 8]);
    assert!(alesia::codec::load_world(&mut w, &d));
    register_unit_type(&mut w, swordsman(10_000, 1, 2), 0);
    let p = spawn_unit(&mut w, 0, (1, 1), -1, true).unwrap();
    let e = spawn_unit(&mut w, 0, (4, 1), -1, false).unwrap();
    (w, p, e)
}

#[test]
fn movement_points_bound_the_moves() {
    let (w, p, _e) = selection_world();
    let mut h = InputHandler::new();
    assert_eq!(h.get_state(), PHASE_INTRO);
    let c = centre(&w, 0, 0);
    h.on_primary(&w, c.0, c.1);
    assert_eq!(h.get_state(), PHASE_SELECT);
    let c = centre(&w, 1, 1);
    h.on_primary(&w, c.0, c.1);
    assert_eq!(h.get_state(), PHASE_DESTINATION);
    assert_eq!(h.cur_id, p);
    assert_eq!(h.movn, 2);
    // Two tiles away: refused.
    let c = centre(&w, 3, 1);
    h.on_primary(&w, c.0, c.1);
    assert!(h.ovec.is_empty());
    assert_eq!(h.movn, 2);
    // One step at a time.
    let c = centre(&w, 2, 1);
    h.on_primary(&w, c.0, c.1);
    assert_eq!(h.ovec, vec![Order::MOVE(p, 2, 1)]);
    assert_eq!(h.last_tile, (2, 1));
    let c = centre(&w, 3, 1);
    h.on_primary(&w, c.0, c.1);
    assert_eq!(h.ovec, vec![Order::MOVE(p, 2, 1), Order::MOVE(p, 3, 1)]);
    assert_eq!(h.movn, 0);
    assert_eq!(h.get_state(), PHASE_ATTACK);
    // Out of movement points: no further move can be queued.
    h.state = PHASE_DESTINATION;
    let c = centre(&w, 3, 2);
    h.select_move_tile(&w, c.0, c.1);
    assert_eq!(h.ovec.len(), 2);
    assert_eq!(h.get_state(), PHASE_ATTACK);
    // The enemy is at range 1 from the last tile: attack, then the turn ends.
    let c = centre(&w, 4, 1);
    h.on_primary(&w, c.0, c.1);
    assert_eq!(h.ovec.len(), 3);
    assert!(matches!(h.ovec[2], Order::ATTACK(_, _, 3, 1)));
    assert_eq!(h.get_state(), PHASE_PLAYER_RESOLVE);
    assert!(h.is_frozen(p));
}

#[test]
fn frozen_or_enemy_units_lose_the_selection() {
    let (w, p, e) = selection_world();
    let mut h = InputHandler::new();
    h.state = PHASE_SELECT;
    let c = centre(&w, 4, 1);
    h.on_primary(&w, c.0, c.1);
    assert_eq!(h.cur_id, e);
    assert!(!h.isplrsel);
    let c = centre(&w, 4, 2);
    h.on_primary(&w, c.0, c.1);
    assert_eq!(h.get_state(), PHASE_SELECT);
    assert!(h.ovec.is_empty());
    h.frozen[p as usize] = true;
    let c = centre(&w, 1, 1);
    h.on_primary(&w, c.0, c.1);
    assert_eq!(h.get_state(), PHASE_DESTINATION);
    let c = centre(&w, 2, 1);
    h.on_primary(&w, c.0, c.1);
    assert_eq!(h.get_state(), PHASE_SELECT);
    assert!(h.ovec.is_empty());
}

#[test]
fn clicking_the_unit_itself_goes_to_attack_phase() {
    let (w, _p, _e) = selection_world();
    let mut h = InputHandler::new();
    h.state = PHASE_SELECT;
    let c = centre(&w, 1, 1);
    h.on_primary(&w, c.0, c.1);
    h.on_primary(&w, c.0, c.1);
    assert_eq!(h.get_state(), PHASE_ATTACK);
    // Out of range: the turn ends without an attack.
    let c = centre(&w, 5, 5);
    h.on_primary(&w, c.0, c.1);
    assert!(h.ovec.is_empty());
    assert_eq!(h.get_state(), PHASE_PLAYER_RESOLVE);
}

#[test]
fn cancel_drops_queued_orders() {
    let (w, p, _e) = selection_world();
    let mut h = InputHandler::new();
    h.state = PHASE_SELECT;
    let c = centre(&w, 1, 1);
    h.on_primary(&w, c.0, c.1);
    let c = centre(&w, 1, 2);
    h.on_primary(&w, c.0, c.1);
    assert_eq!(h.ovec.len(), 1);
    h.frozen[p as usize] = true;
    h.cancel();
    assert!(h.ovec.is_empty());
    assert!(!h.is_frozen(p));
    assert_eq!(h.get_state(), PHASE_SELECT);
    assert!(!h.show);
}

#[test]
fn turn_submission_adds_tile_orders() {
    let mut w = World::blank();
    let mut d = vec![0xfa, 0xde, 0x00, 0xff, 2, 1, 0xda, 0xd7, 0, 1, 5, 1, 6, 5, 6];
    for _ in 0..4 {
        d.extend_from_slice(&[0, 0]);
    }
    assert!(alesia::codec::load_world(&mut w, &d));
    register_unit_type(&mut w, swordsman(10_000, 1, 2), 0);
    let a = spawn_unit(&mut w, 0, (0, 0), -1, true).unwrap();
    let b = spawn_unit(&mut w, 0, (1, 0), -1, false).unwrap();
    let mut h = InputHandler::new();
    assert!(!h.begin_turn());
    h.state = PHASE_SELECT;
    h.frozen[a as usize] = true;
    h.ovec.push(Order::VICTORY);
    assert!(h.begin_turn());
    assert_eq!(h.get_state(), PHASE_ENEMY_RESOLVE);
    assert!(h.ovec.is_empty());
    assert!(!h.is_frozen(a));
    h.finish_turn(&w, vec![Order::MOVE(b, 1, 1)]);
    let mut expect = vec![Order::MOVE(b, 1, 1)];
    let mut tile_orders = vec![(a, Order::MutHealthR(a, 250)), (b, Order::MutHealthR(b, -350))];
    tile_orders.sort_by_key(|t| t.0);
    for t in tile_orders {
        expect.push(t.1);
    }
    assert_eq!(h.ovec, expect);
}

#[test]
fn shading_and_ranges() {
    let mut h = InputHandler::new();
    h.cur_upos = (5, 5);
    h.last_tile = (6, 5);
    h.movn_i = 2;
    h.range = 1;
    assert_eq!(h.tile_shade(5, 5), 0);
    assert_eq!(h.tile_shade(6, 6), 1);
    assert_eq!(h.tile_shade(7, 6), 2);
    assert_eq!(h.tile_shade(9, 5), 0);
    assert_eq!(h.boxrange(), (2, 8, 2, 8));
    assert_eq!(h.atkrange(), (5, 7, 4, 6));
    assert_eq!(h.inrange(7, 5), 1);
    assert_eq!(h.inrange(6, 5), -1);
    assert_eq!(h.inrange(8, 5), 0);
    h.toggle_info();
    assert!(h.show_info);
}

#[test]
fn hit_test_picks_unit_tiles() {
    let (w, p, _e) = selection_world();
    let c = centre(&w, 1, 1);
    assert_eq!(tile_at(&w, c.0, c.1), (1, 1));
    assert_eq!(alesia::input::find_unit_at(&w, (1, 1)), Some(p));
    assert_eq!(alesia::input::find_unit_at(&w, (0, 1)), None);
}

#[test]
fn diagonal_attack_faces_vertically() {
    let mut w = World::blank();
    register_unit_type(&mut w, swordsman(3_000, 2, 2), 0);
    let a = spawn_unit(&mut w, 0, (0, 0), -1, true).unwrap();
    let d = spawn_unit(&mut w, 0, (1, 1), -1, false).unwrap();
    let mut ns = None;
    assert!(order_pending(&Order::ATTACK(a, d, 0, 0), &mut w, &mut ns, &no_damage));
    assert_eq!(w.units[a as usize].unwrap().state, UnitState::AttackDown);
    let e = spawn_unit(&mut w, 0, (5, 5), -1, false).unwrap();
    let f = spawn_unit(&mut w, 0, (4, 6), -1, false).unwrap();
    assert!(order_pending(&Order::ATTACK(e, f, 5, 5), &mut w, &mut ns, &no_damage));
    assert_eq!(w.units[e as usize].unwrap().state, UnitState::AttackDown);
    // Both targets stand two tiles from the attacking tile.
    assert_eq!(w.projectiles.len(), 2);
}
