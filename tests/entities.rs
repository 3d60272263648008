use alesia::entity::{state_as_usize, Unit, UnitState, UnitType};
use alesia::fixed::SUB;
use alesia::projectile::{isqrt, Projectile, PROJ_LEN, PROJ_SPEED};
use alesia::render::{cull_and_sort, painter_sort, prep_tiledraw, Renderable};
use alesia::tiles::{TileMap, TileType};
use alesia::resources::{ResType, ResourceSet};
use alesia::world::{create_static, register_unit_type, set_unit_state, spawn_unit, unit_health, unit_info, unit_summary, World};

fn walker() -> UnitType {
    let mut ut = UnitType::new(4, "Archer".to_string(), 10_000, 500_000, 2, 2, 1_500_000);
    for i in 0..9u32 {
        ut.def_anim((32, 48), 4, (0, 48 * i), 8_000, i == 3, 1, false);
    }
    ut
}

#[test]
fn state_indices_follow_declaration_order() {
    assert_eq!(state_as_usize(&UnitState::WalkDown), 0);
    assert_eq!(state_as_usize(&UnitState::AttackDown), 4);
    assert_eq!(state_as_usize(&UnitState::Stand), 8);
    assert!(UnitState::Stand.is_idle());
    assert!(!UnitState::WalkUp.is_idle());
    assert!(TileType::Heal.allowed());
    assert!(!TileType::Prohibited.allowed());
}

#[test]
fn unit_update_animates_and_walks() {
    let ut = walker();
    assert!(ut.is_complete());
    let mut u = Unit::new(0, -1, SUB, SUB, true, 10_000);
    u.set_state(UnitState::WalkDown);
    assert!(u.nascent_state());
    u.update(&ut, 250_000);
    // 8 frames a second: frame 2 after a quarter second.
    assert_eq!(u.frame, 2);
    assert_eq!(u.ftime, 250_000);
    assert_eq!(u.stime, 250_000);
    assert!(!u.nascent_state());
    // Half a tile a second.
    assert_eq!((u.wx, u.wy), (SUB, SUB + 125_000));
    u.update(&ut, 250_000);
    // Past the last of four frames: both start over.
    assert_eq!(u.frame, 0);
    assert_eq!(u.ftime, 0);
    assert_eq!(u.stime, 500_000);
    u.set_state(UnitState::Stand);
    u.update(&ut, 100_000);
    assert_eq!(u.stime, 0);
    assert_eq!((u.wx, u.wy), (SUB, SUB + 250_000));
    u.set_state(UnitState::WalkLeft);
    u.update(&ut, 2_000_000);
    assert_eq!(u.wx, 0);
}

#[test]
fn projectile_reaches_its_target() {
    let mut p = Projectile::new((3 * SUB, 0), (0, 0), PROJ_SPEED, PROJ_LEN);
    assert_eq!(p.expected, 750_000);
    assert_eq!(p.ctrlpt, (-SUB, -SUB));
    // Four tiles a second along +x.
    assert_eq!(p.velocity, (4 * SUB, 0));
    let mut frames = 0u64;
    while !p.reached {
        p.update(16_667);
        frames += 1;
        assert!(frames <= 750_000 / 16_667 + 2);
    }
    assert_eq!(p.position, (3 * SUB, 0));
    assert!(frames >= 750_000 / 16_667);
}

#[test]
fn projectile_without_distance_arrives_at_once() {
    let mut p = Projectile::new((SUB, SUB), (SUB, SUB), PROJ_SPEED, PROJ_LEN);
    assert_eq!(p.expected, 0);
    p.update(16_667);
    assert!(p.reached);
}

#[test]
fn integer_square_root() {
    assert_eq!(isqrt(0), 0);
    assert_eq!(isqrt(15), 3);
    assert_eq!(isqrt(16), 4);
    assert_eq!(isqrt(9_000_000_000_000), 3_000_000);
}

#[test]
fn world_queries() {
    let mut w = World::blank();
    register_unit_type(&mut w, {
        let mut ut = walker();
        ut.set_info("Wields bows.".to_string());
        ut
    }, 1);
    let id = spawn_unit(&mut w, 1, (2, 3), 7, false).unwrap();
    assert_eq!(unit_health(&w, id), Some((10_000, 10_000)));
    assert_eq!(unit_info(&w, id), Some("Wields bows.".to_string()));
    let (m, r, name, plr) = unit_summary(&w, id).unwrap();
    assert_eq!((m, r, name.as_str(), plr), (2, 2, "Archer", false));
    set_unit_state(&mut w, id, UnitState::AttackUp);
    assert_eq!(w.units[id as usize].unwrap().state, UnitState::AttackUp);
    assert_eq!(unit_health(&w, id.wrapping_add(1)), None);
    create_static(&mut w, 9, (4, 4));
    assert_eq!(w.statics[0].prep_draw(&w), (9, 0, 192));
}

#[test]
fn unit_draw_records() {
    let mut w = World::blank();
    register_unit_type(&mut w, walker(), 0);
    let id = spawn_unit(&mut w, 0, (1, 0), -1, true).unwrap();
    let u = w.units[id as usize].unwrap();
    let (tex, rec, pos, snd) = u.prep_draw(&w);
    assert_eq!(tex, 4);
    assert_eq!(rec, (0, 384, 32, 48));
    assert_eq!(pos, (48 + 32, 24));
    assert_eq!(snd, Some((1, false)));
    let (_, rec, pos) = u.stand_frame(&w, 0, 0);
    assert_eq!(rec, (0, 384, 32, 48));
    assert_eq!(pos, (32, 0));
}

#[test]
fn painter_order_is_x_then_y() {
    let mk = |x: i32, y: i32, tag: u8| Renderable::new_static(tag, 0, 0, x, y, 10, 10);
    let out = painter_sort(vec![mk(2, 0, 0), mk(1, 5, 1), mk(1, 2, 2), mk(0, 9, 3), mk(1, 2, 4)]);
    let tags: Vec<u8> = out.iter().map(|r| r.tex_id).collect();
    assert_eq!(tags, vec![3, 2, 4, 1, 0]);
}

#[test]
fn culling_drops_offscreen_records() {
    let a = Renderable::new_static(1, 100, 100, 0, 0, 10, 10);
    let b = Renderable::new_static(2, 5000, 5000, 0, 1, 10, 10);
    let c = Renderable::new_static(3, -5, -5, 1, 0, 10, 10);
    let out = cull_and_sort(vec![a, b, c], (0, 0), (800, 600));
    let tags: Vec<u8> = out.iter().map(|r| r.tex_id).collect();
    assert_eq!(tags, vec![1, 3]);
}

#[test]
fn tileset_positions() {
    let mut w = World::blank();
    let mut d = vec![0xfa, 0xde, 0x00, 0xff, 2, 1, 0, 0, 3, 7];
    d.extend_from_slice(&[0u8; 8]);
    assert!(alesia::codec::load_world(&mut w, &d));
    assert_eq!(prep_tiledraw(&w, 1, 0, 4), ((3 * 96, 48), (48, 24)));
    assert_eq!(prep_tiledraw(&w, 0, 0, 4), ((3 * 96, 0), (0, 0)));
    let empty = TileMap::empty();
    assert_eq!(empty.tile_type_at(0, 0), TileType::Prohibited);
}

#[test]
fn resource_catalogue() {
    let mut rs = ResourceSet::new();
    rs.map_texture(0, "res/tile.png");
    rs.map_texture(2, "res/newswords.png");
    rs.map_font(0, "res/def.ttf");
    rs.map_sound(255, "res/select.wav");
    rs.map_music(1, "res/bgm.mp3");
    rs.map_texture_region(5, 4, 0, 0, 111, 192);
    assert_eq!(rs.deftex, 2);
    assert_eq!(rs.deffont, 0);
    assert_eq!(rs.to_load.len(), 5);
    assert_eq!(rs.to_load[3].1, ResType::Snd);
    assert_eq!(rs.to_load[1].2, "res/newswords.png");
    assert!(rs.is_texture_region(5));
    assert!(!rs.is_texture_region(4));
    assert_eq!(rs.texture_region(5), Some((4, (0, 0, 111, 192))));
    rs.set_default_texture(0);
    assert_eq!(rs.deftex, 0);
}

#[test]
fn id_queries() {
    let mut w = World::blank();
    register_unit_type(&mut w, walker(), 7);
    let mut ids = vec![];
    for i in 0..5 {
        ids.push(spawn_unit(&mut w, 7, (i, 0), -1, i % 2 == 0).unwrap());
    }
    let listed = alesia::world::id_list(&w);
    let mut sorted = ids.clone();
    sorted.sort();
    assert_eq!(listed, sorted);
    for id in ids {
        assert!(alesia::world::is_uid_valid(&w, id));
        assert_eq!(alesia::world::get_type_id(&w, id), Some(7));
    }
    let free = (0u8..=255).find(|i| !listed.contains(i)).unwrap();
    assert!(!alesia::world::is_uid_valid(&w, free));
    assert_eq!(alesia::world::get_type_id(&w, free), None);
}

#[test]
fn map_and_object_sections_decode() {
    let d = vec![0xfa, 0xde, 0x00, 0xff, 1, 2, 0, 0, 4, 5, 0, 1, b'T', 0, 0, 0, 0, 0, 0, 0xfe, 0xed, 0, 1, 2, 3, 0xfe, 0xed, 1];
    let (m, pos) = alesia::codec::decode_map(&d).unwrap();
    assert_eq!((m.map_width, m.map_height), (1, 2));
    assert_eq!(m.map_tiles, vec![4, 5]);
    assert_eq!(m.title, "T");
    assert_eq!(pos, 19);
    let (objs, cut) = alesia::codec::decode_objects(&d, pos);
    assert_eq!(objs, vec![alesia::codec::GameObject { kind: 0, param: 1, x: 2, y: 3 }]);
    assert!(cut);
}

#[test]
fn tint_and_sound_choices() {
    let mut h = alesia::input::InputHandler::new();
    let mut u = Unit::new(0, 77, 0, 0, true, 1);
    assert_eq!(alesia::render::unit_tint(&h, 3, &u), 77);
    h.state = alesia::input::PHASE_SELECT;
    h.frozen[3] = true;
    assert_eq!(alesia::render::unit_tint(&h, 3, &u), alesia::render::FROZEN_TINT);
    h.show = true;
    h.cur_id = 3;
    assert_eq!(alesia::render::unit_tint(&h, 3, &u), alesia::render::SELECTED_TINT);
    assert!(alesia::render::plays_sound(&u, false, false));
    assert!(!alesia::render::plays_sound(&u, true, true));
    u.stime = 5;
    assert!(!alesia::render::plays_sound(&u, false, false));
    assert!(alesia::render::plays_sound(&u, true, false));
}
