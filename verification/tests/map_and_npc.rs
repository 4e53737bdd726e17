use lost_oppai::bitmap::{BitMap, CornerSamples, TerrainSample, TilePos};
use lost_oppai::bitmask::{grid_to_index, BitMasks, GRASS_FLOWER_SUPER_POSITION};
use lost_oppai::npc::{
    blip_voice, character_icon, convert_name, parse_character_name, target_npc_mentioned_command,
    writer_speed, BlipVoice, Npc, NpcDialogue, NpcParseError, Portrait,
};
use lost_oppai::tiles::{
    collision_for_mask, make_corner_mask, TileCollision, GRASS_TYPE_MASK, INVALID_TILE,
    PATH_TYPE_MASK,
};

fn sample(water: bool, sparkle: bool) -> TerrainSample {
    TerrainSample { water, sparkle, flowers: false }
}

fn corners(s: TerrainSample) -> CornerSamples {
    CornerSamples { bot_left: s, top_left: s, top_right: s, bot_right: s }
}

#[test]
fn atlas_indices_and_masks() {
    assert_eq!(grid_to_index(3, 2), 35);
    assert_eq!(make_corner_mask(true, false, true, false), 5);
    assert_eq!(make_corner_mask(true, true, true, true), 15);
    assert_eq!(collision_for_mask(9), TileCollision::BotRect);
    assert_eq!(collision_for_mask(3), TileCollision::LeftRect);
    assert_eq!(collision_for_mask(6), TileCollision::TopRect);
    assert_eq!(collision_for_mask(12), TileCollision::RightRect);
    assert_eq!(collision_for_mask(1), TileCollision::BotLeftTri);
    assert_eq!(collision_for_mask(8), TileCollision::BotRightTri);
    assert_eq!(collision_for_mask(15), TileCollision::NoCollision);
}

#[test]
fn tile_tables() {
    let grass = BitMasks::grass();
    assert_eq!(grass.choice_count(9), 2);
    assert_eq!(grass.tile_at(9, 1), grid_to_index(7, 0));
    assert_eq!(grass.get_index(15), grid_to_index(0, 1));
    assert_eq!(grass.get_index(99), INVALID_TILE);
    let path = BitMasks::path();
    assert_eq!(path.get_index(0), GRASS_FLOWER_SUPER_POSITION);
    let t = path.get_index(3);
    assert!(t == grid_to_index(1, 1) || t == grid_to_index(2, 5));
    assert_eq!(BitMasks::flower().choice_count(1), 8);
}

#[test]
fn water_tiles_collapse_and_collide() {
    let mut map = BitMap::new();
    let v = TilePos::new(0, 0);
    let tile = map.get_tile_index(v, corners(sample(true, false)));
    assert!([219, 220, 221, 236, 237].contains(&tile));
    assert_eq!(map.get_tileset_raw(v), (2, tile));
    assert_eq!(map.get_tile_collision(v, corners(sample(true, false))), TileCollision::NoCollision);
    assert!(map.is_position_water(TilePos::new(1, 1)));
    assert!(!map.is_position_water(TilePos::new(30, 30)));
    let mixed = CornerSamples {
        bot_left: sample(false, false),
        top_left: sample(true, false),
        top_right: sample(true, false),
        bot_right: sample(true, false),
    };
    assert_eq!(map.get_tile_collision(TilePos::new(20, 20), mixed), TileCollision::TopRightTri);
}

#[test]
fn grass_tiles_take_plain_grass() {
    let mut map = BitMap::new();
    let tile = map.get_tile_index(TilePos::new(10, 10), corners(sample(false, false)));
    assert!([16, 32, 48, 64].contains(&tile));
    assert_eq!(map.get_tileset_raw(TilePos::new(10, 10)), (GRASS_TYPE_MASK, tile));
}

#[test]
fn sparkles_keep_their_water() {
    let mut map = BitMap::new();
    let v = TilePos::new(50, 50);
    map.get_tile_index(v, corners(sample(true, true)));
    assert_eq!(map.get_tileset_raw(v).0, 18);
    assert!(map.get_water_sparkle_flag(v, corners(sample(true, true))));
    assert!(!map.get_water_sparkle_flag(TilePos::new(40, 40), corners(sample(true, false))));
}

#[test]
fn types_set_are_read_back() {
    let mut map = BitMap::new();
    let v = TilePos::new(3, -4);
    map.set_type_index(v, PATH_TYPE_MASK);
    assert!(map.get_path_flag(v));
    assert_eq!(map.get_tileset_raw(v), (PATH_TYPE_MASK, INVALID_TILE));
    assert!(!map.get_path_flag(TilePos::new(-3, 4)));
    assert_eq!(v.offset(1, 2), TilePos::new(4, -2));
}

#[test]
fn start_area_and_path_points() {
    let mut map = BitMap::new();
    map.fill_player_starting_position();
    assert!(map.get_flora_flag(TilePos::new(0, 0)));
    assert!(!map.get_flora_flag(TilePos::new(20, 0)));
    map.fill_path_point(TilePos::new(100, 100), 2, 4);
    assert!(map.get_path_flag(TilePos::new(100, 100)));
    assert!(map.get_path_flag(TilePos::new(101, 101)));
    assert_eq!(map.get_tileset_raw(TilePos::new(103, 100)).0, GRASS_TYPE_MASK);
    assert_eq!(map.get_tileset_raw(TilePos::new(100, 102)).0, GRASS_TYPE_MASK);
    assert_eq!(map.get_tileset_raw(TilePos::new(104, 100)).0, 1);
}

#[test]
fn edges_from_the_origin() {
    let mut map = BitMap::new();
    map.set_edges(&vec![(0, 2), (1, 2), (3, 0)]);
    assert_eq!(map.get_origin_edges(), vec![2, 3]);
}

#[test]
fn npc_names() {
    assert_eq!(NpcDialogue::from_str("Jotem"), Ok(NpcDialogue::Jotem));
    assert_eq!(NpcDialogue::from_str("jotem"), Err(NpcParseError::VariantNotFound));
    assert_eq!(NpcDialogue::Isabelle.to_string(), "Isabelle");
    assert_eq!(NpcDialogue::all().len(), 6);
    assert_eq!(parse_character_name("__Ionas"), Ok(NpcDialogue::Ionas));
    assert_eq!(writer_speed("Jotem"), 18);
    assert_eq!(writer_speed("_Ionas"), 16);
    assert_eq!(writer_speed("IonasAndAntonius"), 300);
    assert_eq!(writer_speed("You"), 20);
    assert_eq!(convert_name("_Jotem"), "???");
    assert_eq!(convert_name("Jotem"), "Jotem");
    assert_eq!(character_icon("You"), Some(Portrait::Player));
    assert_eq!(character_icon("_Antonius"), Some(Portrait::Npc(NpcDialogue::Antonius)));
    assert_eq!(character_icon("IonasAndAntonius"), None);
    assert_eq!(character_icon("Bob"), None);
    assert_eq!(blip_voice(""), BlipVoice::Narrator);
    assert_eq!(blip_voice("__"), BlipVoice::Narrator);
    assert_eq!(blip_voice("You"), BlipVoice::Player);
    assert_eq!(blip_voice("Isabelle"), BlipVoice::Npc(NpcDialogue::Isabelle));
    assert_eq!(blip_voice("Bob"), BlipVoice::Unknown);
}

#[test]
fn mentions_are_recorded() {
    let mut npcs = vec![Npc::new(NpcDialogue::Jotem), Npc::new(NpcDialogue::Isabelle)];
    assert_eq!(target_npc_mentioned_command(&mut npcs, "_Jotem", "Isabelle"), Ok(()));
    assert_eq!(npcs[1].was_mentioned_by, vec![NpcDialogue::Jotem]);
    assert!(npcs[0].was_mentioned_by.is_empty());
    assert_eq!(
        target_npc_mentioned_command(&mut npcs, "X", "Isabelle"),
        Err(NpcParseError::VariantNotFound)
    );
    assert_eq!(npcs[1].was_mentioned_by.len(), 1);
}

#[test]
fn decided_tiles_stay_decided() {
    let mut map = BitMap::new();
    let v = TilePos::new(-7, 9);
    map.get_tile_index(v, corners(sample(true, false)));
    assert_eq!(
        map.get_tile_collision(v, corners(sample(false, false))),
        TileCollision::NoCollision
    );
    assert_eq!(map.get_tileset_raw(v).0, 2);
    assert_eq!(map.get_tileset_raw(TilePos::new(-6, 10)).0, 2);
}

#[test]
fn dialogue_names_round_trip() {
    for d in NpcDialogue::all() {
        assert_eq!(NpcDialogue::from_str(&d.to_string()), Ok(d));
    }
}
