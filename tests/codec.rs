use alesia::codec::{load_world, load_world_bytes, LoadError};
use alesia::entity::UnitType;
use alesia::tiles::TileType;
use alesia::world::{id_list, is_unit_player_controlled, register_unit_type, tile_type_at, SpawnError, World};

fn text(out: &mut Vec<u8>, s: &str) {
    let b = s.as_bytes();
    out.push((b.len() >> 8) as u8);
    out.push(b.len() as u8);
    out.extend_from_slice(b);
}

fn minimal() -> Vec<u8> {
    let mut d = vec![0xfa, 0xde, 0x00, 0xff, 2, 2, 0, 0, 1, 2, 3, 4];
    for _ in 0..4 {
        text(&mut d, "");
    }
    d
}

fn complete_type() -> UnitType {
    let mut ut = UnitType::new(3, "Swordsman".to_string(), 10_000, 500_000, 2, 1, 1_500_000);
    for _ in 0..9 {
        ut.def_anim_muted((32, 48), 10, (0, 0), 8_000, false);
    }
    ut
}

#[test]
fn rejects_zero_magic() {
    let mut w = World::blank();
    assert!(!load_world(&mut w, &[0, 0, 0, 0]));
    assert_eq!(w.map_size(), (0, 0));
    assert!(!w.show_map());
    assert_eq!(load_world_bytes(&mut w, &[0, 0, 0, 0]), Err(LoadError::BadMagic));
}

#[test]
fn loads_minimal_file() {
    let mut w = World::blank();
    assert!(load_world(&mut w, &minimal()));
    assert_eq!(w.map_size(), (2, 2));
    assert!(w.show_map());
    assert_eq!(w.statics.len(), 0);
    assert_eq!(id_list(&w).len(), 0);
    assert_eq!(w.tilemap.map_tiles, vec![1, 2, 3, 4]);
    assert_eq!(w.map_title(), "");
}

#[test]
fn reads_texts() {
    let mut d = vec![0xfa, 0xde, 0x00, 0xff, 1, 1, 0, 0, 9];
    text(&mut d, "Hill");
    text(&mut d, "Hold the hill.");
    text(&mut d, "Won");
    text(&mut d, "Lost");
    let mut w = World::blank();
    assert_eq!(load_world_bytes(&mut w, &d), Ok(()));
    assert_eq!(w.map_title(), "Hill");
    assert_eq!(w.intro_text(), "Hold the hill.");
    assert_eq!(w.victory_text(), "Won");
    assert_eq!(w.defeat_text(), "Lost");
}

#[test]
fn reads_permission_lists() {
    let mut d = vec![0xfa, 0xde, 0x00, 0xff, 2, 2, 0xda, 0xd7, 1, 7, 2, 8, 9, 1, 9];
    d.extend_from_slice(&[7, 8, 9, 1]);
    for _ in 0..4 {
        text(&mut d, "");
    }
    let mut w = World::blank();
    assert!(load_world(&mut w, &d));
    assert_eq!(tile_type_at(&w, 0, 0), TileType::Prohibited);
    assert_eq!(tile_type_at(&w, 1, 0), TileType::Heal);
    // Listed as healing and as damaging: the later list wins.
    assert_eq!(tile_type_at(&w, 0, 1), TileType::Damage);
    assert_eq!(tile_type_at(&w, 1, 1), TileType::Allowed);
    assert_eq!(tile_type_at(&w, -1, 0), TileType::Prohibited);
    // Coordinates past the map wrap around the tile data.
    assert_eq!(tile_type_at(&w, 4, 0), TileType::Prohibited);
    assert!(!tile_type_at(&w, 0, 0).allowed());
    assert!(tile_type_at(&w, 1, 1).allowed());
}

#[test]
fn places_game_objects() {
    let mut w = World::blank();
    register_unit_type(&mut w, complete_type(), 0);
    let mut d = minimal();
    d.extend_from_slice(&[0xfe, 0xed, 0, 5, 1, 0]);
    d.extend_from_slice(&[0xfe, 0xed, 1, 0, 0, 1]);
    d.extend_from_slice(&[0xfe, 0xed, 9, 0, 0, 0]);
    d.extend_from_slice(&[0xfe, 0xed, 2, 0, 1, 1]);
    d.extend_from_slice(&[0xab, 0xcd]);
    assert!(load_world(&mut w, &d));
    assert_eq!(w.statics.len(), 1);
    assert_eq!((w.statics[0].tex_id, w.statics[0].wx, w.statics[0].wy), (5, 1, 0));
    let ids = id_list(&w);
    assert_eq!(ids.len(), 2);
    let players: Vec<u8> = ids.iter().cloned().filter(|i| is_unit_player_controlled(&w, *i)).collect();
    assert_eq!(players.len(), 1);
    let p = w.units[players[0] as usize].unwrap();
    assert_eq!((p.wx, p.wy, p.health, p.tint), (0, 1_000_000, 10_000, -1));
}

#[test]
fn load_errors() {
    let cases: Vec<(Vec<u8>, LoadError)> = vec![
        (vec![0xfa, 0xde, 0x00], LoadError::BadMagic),
        (vec![0xfa, 0xde, 0x00, 0xff, 2], LoadError::MissingSize),
        (vec![0xfa, 0xde, 0x00, 0xff, 2, 2, 0], LoadError::MissingPermMarker),
        (vec![0xfa, 0xde, 0x00, 0xff, 2, 2, 0x12, 0x34], LoadError::BadPermMarker),
        (vec![0xfa, 0xde, 0x00, 0xff, 2, 2, 0xda, 0xd7, 3, 1], LoadError::TruncatedTileList),
        (vec![0xfa, 0xde, 0x00, 0xff, 2, 2, 0xda, 0xd7, 0, 0], LoadError::TruncatedTileList),
        (vec![0xfa, 0xde, 0x00, 0xff, 2, 2, 0, 0, 1, 2, 3], LoadError::TruncatedTiles),
        (vec![0xfa, 0xde, 0x00, 0xff, 1, 1, 0, 0, 1, 0], LoadError::TruncatedText),
        (vec![0xfa, 0xde, 0x00, 0xff, 1, 1, 0, 0, 1, 0, 3, b'a'], LoadError::TruncatedText),
        (vec![0xfa, 0xde, 0x00, 0xff, 1, 1, 0, 0, 1, 0, 2, 0xc3, 0x28], LoadError::BadText),
    ];
    for (d, e) in cases {
        let mut w = World::blank();
        assert_eq!(load_world_bytes(&mut w, &d), Err(e));
        assert!(!w.show_map());
    }
}

#[test]
fn truncated_object_keeps_map_and_earlier_objects() {
    let mut w = World::blank();
    let mut d = minimal();
    d.extend_from_slice(&[0xfe, 0xed, 0, 5, 1, 0]);
    d.extend_from_slice(&[0xfe, 0xed, 0, 5]);
    assert_eq!(load_world_bytes(&mut w, &d), Err(LoadError::TruncatedObject));
    assert_eq!(w.map_size(), (2, 2));
    assert_eq!(w.statics.len(), 1);
}

#[test]
fn unknown_unit_type_fails_the_load() {
    let mut w = World::blank();
    let mut d = minimal();
    d.extend_from_slice(&[0xfe, 0xed, 1, 4, 0, 0]);
    assert_eq!(load_world_bytes(&mut w, &d), Err(LoadError::Spawn(SpawnError::UnknownUnitType)));
    assert!(w.show_map());
}

#[test]
fn decodes_utf8_texts() {
    let mut d = vec![0xfa, 0xde, 0x00, 0xff, 0, 0, 0, 0];
    text(&mut d, "Ålesund");
    text(&mut d, "");
    text(&mut d, "");
    text(&mut d, "");
    let mut w = World::blank();
    assert!(load_world(&mut w, &d));
    assert_eq!(w.map_title(), "Ålesund");
    assert_eq!(w.map_title().chars().count(), 7);
}
