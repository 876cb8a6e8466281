use std::collections::HashSet;
use thatch::random::create_rng;
use thatch::{GenerationConfig, Level, Position, Room, RoomCorridorGenerator, RoomPlacementStrategy, RoomType, ThatchError, Tile, TileType};

#[test]
fn validate_needs_a_floor_tile() {
    let generator = RoomCorridorGenerator::new();
    let config = GenerationConfig::new(1);
    let mut level = Level::new(0, 4, 4);
    assert!(matches!(generator.validate(&level, &config), Err(ThatchError::GenerationFailed(_))));
    level.set_tile(Position::new(1, 1), Tile::new(TileType::StairsUp)).unwrap();
    assert!(generator.validate(&level, &config).is_err());
    level.set_tile(Position::new(0, 0), Tile::floor()).unwrap();
    assert!(generator.validate(&level, &config).is_ok());
}

#[test]
fn set_tile_outside_the_grid_fails() {
    let mut level = Level::new(0, 4, 4);
    assert!(matches!(
        level.set_tile(Position::new(4, 0), Tile::floor()),
        Err(ThatchError::InvalidAction(_))
    ));
    assert!(level.set_tile(Position::new(-1, 2), Tile::floor()).is_err());
    assert!(level.get_tile(Position::new(0, 4)).is_none());
    assert_eq!(level.tiles.len(), 16);
    assert!(level.tiles.iter().all(|t| t.tile_type == TileType::Wall));
}

#[test]
fn single_floor_scenario_seed_42() {
    let generator = RoomCorridorGenerator::for_testing();
    let config = GenerationConfig::for_testing(42);
    let level = generator.generate(&config, &mut create_rng(&config)).unwrap();
    assert_eq!(level.width, 50);
    assert_eq!(level.height, 50);
    let floors = level.tiles.iter().filter(|t| t.tile_type == TileType::Floor).count();
    let walls = level.tiles.iter().filter(|t| t.tile_type == TileType::Wall).count();
    assert!(floors > 0);
    assert!(walls > 0);
    let up = level.stairs_up_position.unwrap();
    let down = level.stairs_down_position.unwrap();
    assert_eq!(level.player_spawn, up);
    assert!(generator.has_path(&level, level.player_spawn, down).unwrap());
}

#[test]
fn level_side_follows_room_budget() {
    let generator = RoomCorridorGenerator::new();
    let mut config = GenerationConfig::for_testing(1);
    assert_eq!(generator.single_level_side(&config), 50);
    config.max_rooms = 2000;
    config.max_room_size = 10;
    // sqrt(40000) = 200
    assert_eq!(generator.single_level_side(&config), 200);
    config.max_rooms = 1800;
    // sqrt(36000) = 189.7...
    assert_eq!(generator.single_level_side(&config), 189);
    config.max_rooms = u32::MAX;
    assert_eq!(generator.single_level_side(&config), 200);
}

#[test]
fn stair_plan_stays_inside_margin_and_varies() {
    let generator = RoomCorridorGenerator::new();
    let config = GenerationConfig::for_testing(8);
    let plan = generator.generate_stair_layout(&config, &mut create_rng(&config));
    let mut distinct = HashSet::new();
    for (up, down) in &plan {
        for p in [up, down].into_iter().flatten() {
            assert!(p.x >= 5 && p.x < 75 && p.y >= 5 && p.y < 45);
            distinct.insert(*p);
        }
    }
    assert!(distinct.len() > 1);
}

#[test]
fn no_placement_attempts_means_no_rooms() {
    let mut generator = RoomCorridorGenerator::for_testing();
    generator.max_placement_attempts = 0;
    let config = GenerationConfig::for_testing(3);
    let level = Level::new(0, 60, 60);
    let result = generator.place_rooms(&level, &config, &mut create_rng(&config));
    assert!(matches!(result, Err(ThatchError::GenerationFailed(_))));
}

#[test]
fn placed_rooms_fit_and_respect_sizes() {
    for strategy in [
        RoomPlacementStrategy::Random,
        RoomPlacementStrategy::GridBased { grid_size: 40 },
        RoomPlacementStrategy::EdgeFirst,
        RoomPlacementStrategy::NoiseGuided,
    ] {
        let generator = RoomCorridorGenerator::with_settings(strategy, 10);
        let config = GenerationConfig::new(17);
        let level = Level::new(0, 80, 50);
        let rooms = generator.place_rooms(&level, &config, &mut create_rng(&config)).unwrap();
        assert!(!rooms.is_empty() && rooms.len() <= 15);
        for room in &rooms {
            assert!(generator.room_fits_in_level(&level, room));
            assert!(room.width >= 4 && room.width <= 12);
            assert!(room.height >= 4 && room.height <= 12);
        }
        assert_eq!(rooms[0].room_type, RoomType::Normal);
    }
}

#[test]
fn no_secret_rooms_without_secret_doors() {
    let generator = RoomCorridorGenerator::new();
    let config = GenerationConfig::for_testing(77);
    let mut rng = create_rng(&config);
    let mut kinds = HashSet::new();
    for id in 1..400 {
        let kind = generator.determine_room_type(id, &config, &mut rng);
        assert_ne!(kind, RoomType::Secret);
        kinds.insert(format!("{:?}", kind));
    }
    assert!(kinds.len() > 1);
}

#[test]
fn carving_keeps_rooms_connected_and_untouched() {
    let generator = RoomCorridorGenerator::for_testing();
    let config = GenerationConfig::for_testing(9);
    let mut level = Level::new(0, 30, 20);
    let rooms = vec![
        Room::new(0, Position::new(2, 2), 5, 5, RoomType::Normal),
        Room::new(1, Position::new(20, 3), 6, 5, RoomType::Normal),
        Room::new(2, Position::new(10, 12), 5, 6, RoomType::Normal),
    ];
    generator.initialize_level_with_rooms(&mut level, &rooms).unwrap();
    generator.progressive_wall_placement(&mut level, &rooms, &mut create_rng(&config)).unwrap();
    for a in &rooms {
        for b in &rooms {
            assert!(generator.has_path(&level, a.center(), b.center()).unwrap());
        }
        for p in a.all_positions() {
            assert_eq!(level.get_tile(p).unwrap().tile_type, TileType::Floor);
        }
    }
    assert!(generator.all_rooms_connected(&level, &rooms));
    let walls = level.tiles.iter().filter(|t| t.tile_type == TileType::Wall).count();
    assert!(walls > 2 * 30 + 2 * 18);
}

#[test]
fn has_path_is_blocked_by_a_wall_line() {
    let generator = RoomCorridorGenerator::new();
    let mut level = Level::new(0, 7, 5);
    for y in 1..4 {
        for x in 1..6 {
            level.set_tile(Position::new(x, y), Tile::floor()).unwrap();
        }
    }
    assert!(generator.has_path(&level, Position::new(1, 1), Position::new(5, 3)).unwrap());
    for y in 1..4 {
        level.set_tile(Position::new(3, y), Tile::new(TileType::Water)).unwrap();
    }
    assert!(!generator.has_path(&level, Position::new(1, 1), Position::new(5, 3)).unwrap());
    level.set_tile(Position::new(3, 2), Tile::new(TileType::Door { is_open: true })).unwrap();
    assert!(generator.has_path(&level, Position::new(1, 1), Position::new(5, 3)).unwrap());
    assert!(!generator.has_path(&level, Position::new(1, 1), Position::new(9, 9)).unwrap());
}

#[test]
fn corridor_keeps_border_and_stairs() {
    let generator = RoomCorridorGenerator::new();
    let mut level = Level::new(0, 12, 12);
    let a = Position::new(1, 1);
    let b = Position::new(10, 7);
    level.set_tile(a, Tile::new(TileType::StairsUp)).unwrap();
    level.set_tile(b, Tile::new(TileType::StairsDown)).unwrap();
    generator.create_stair_connection(&mut level, a, b).unwrap();
    assert!(generator.has_path(&level, a, b).unwrap());
    assert_eq!(level.get_tile(a).unwrap().tile_type, TileType::StairsUp);
    assert_eq!(level.get_tile(b).unwrap().tile_type, TileType::StairsDown);
    for i in 0..12 {
        for p in [Position::new(i, 0), Position::new(0, i), Position::new(i, 11), Position::new(11, i)] {
            assert_eq!(level.get_tile(p).unwrap().tile_type, TileType::Wall);
        }
    }
    let line = generator.line_between_points(a, b);
    assert_eq!(line.first(), Some(&a));
    assert_eq!(line.last(), Some(&b));
    assert_eq!(line.len(), 10);
}

#[test]
fn fill_fails_when_spawn_is_a_wall() {
    let generator = RoomCorridorGenerator::new();
    let mut level = Level::new(0, 6, 6);
    level.set_tile(Position::new(2, 2), Tile::floor()).unwrap();
    level.player_spawn = Position::new(1, 1);
    assert!(matches!(
        generator.fill_unreachable_areas(&mut level),
        Err(ThatchError::GenerationFailed(_))
    ));
    assert_eq!(level.get_tile(Position::new(2, 2)).unwrap().tile_type, TileType::Floor);
    let reachable = generator.flood_fill_reachable(&level, Position::new(1, 1)).unwrap();
    assert!(reachable.is_empty());
}

#[test]
fn enhancement_pass_only_touches_floor() {
    let generator = RoomCorridorGenerator::new();
    let mut config = GenerationConfig::for_detailed_generation(4);
    config.lldm_enhancement_chance_milli = 1000;
    let mut level = Level::new(0, 40, 40);
    for y in 1..39 {
        for x in 1..39 {
            level.set_tile(Position::new(x, y), Tile::floor()).unwrap();
        }
    }
    generator.apply_lldm_enhancements(&mut level, &config, &mut create_rng(&config)).unwrap();
    let special = level
        .tiles
        .iter()
        .filter(|t| matches!(t.tile_type, TileType::Special { .. }))
        .count();
    assert!(special >= 1 && special <= 8);
    config.use_lldm = false;
    let before: Vec<TileType> = level.tiles.iter().map(|t| t.tile_type.clone()).collect();
    generator.apply_lldm_enhancements(&mut level, &config, &mut create_rng(&config)).unwrap();
    let after: Vec<TileType> = level.tiles.iter().map(|t| t.tile_type.clone()).collect();
    assert_eq!(before, after);
}

#[test]
fn stairs_avoid_each_other_in_rooms() {
    let generator = RoomCorridorGenerator::new();
    let config = GenerationConfig::for_testing(12);
    let mut level = Level::new(3, 40, 30);
    let rooms = vec![
        Room::new(0, Position::new(3, 3), 8, 8, RoomType::Normal),
        Room::new(1, Position::new(25, 15), 8, 8, RoomType::Normal),
    ];
    generator.initialize_level_with_rooms(&mut level, &rooms).unwrap();
    let mut rng = create_rng(&config);
    generator.add_stairs(&mut level, &rooms, &config, &mut rng).unwrap();
    let up = level.stairs_up_position.unwrap();
    let down = level.stairs_down_position.unwrap();
    assert_ne!(up, down);
    assert_eq!(level.player_spawn, up);
    assert!(rooms.iter().any(|r| r.contains(up)));
    assert!(rooms.iter().any(|r| r.contains(down)));
    assert!(generator.has_path(&level, up, down).unwrap());
}

#[test]
fn find_path_returns_a_walk() {
    let mut level = Level::new(0, 9, 7);
    for y in 1..6 {
        for x in 1..8 {
            level.set_tile(Position::new(x, y), Tile::floor()).unwrap();
        }
    }
    for y in 1..5 {
        level.set_tile(Position::new(4, y), Tile::wall()).unwrap();
    }
    let start = Position::new(1, 1);
    let goal = Position::new(7, 1);
    let path = thatch::connectivity::find_path(&level, start, goal).unwrap();
    assert_eq!(path.first(), Some(&start));
    assert_eq!(path.last(), Some(&goal));
    for pair in path.windows(2) {
        assert_eq!(pair[0].manhattan_distance(pair[1]), 1);
        assert!(level.get_tile(pair[1]).unwrap().tile_type.is_passable());
    }
    // the wall leaves a single gap at y = 5
    assert!(path.contains(&Position::new(4, 5)));
    assert_eq!(path.len(), 15);
    level.set_tile(Position::new(4, 5), Tile::wall()).unwrap();
    assert!(thatch::connectivity::find_path(&level, start, goal).is_none());
    assert_eq!(thatch::connectivity::find_path(&level, start, start), Some(vec![start]));
}

#[test]
fn smoothing_moves_sides_by_at_most_one() {
    let config = GenerationConfig::new(5);
    let mut rng = create_rng(&config);
    let unsmoothed: Vec<Room> = (0..60)
        .map(|i| Room::new(i, Position::new(i as i32, 2), 3 + i % 5, 4 + i % 3, RoomType::Normal))
        .collect();
    let mut rooms = unsmoothed.clone();
    thatch::placement::smooth_room_layout(&mut rooms, &mut rng);
    assert_eq!(rooms.len(), unsmoothed.len());
    let mut changed = 0;
    for (a, b) in unsmoothed.iter().zip(rooms.iter()) {
        assert_eq!(a.id, b.id);
        assert_eq!(a.top_left, b.top_left);
        assert!((a.width as i64 - b.width as i64).abs() <= 1);
        assert!((a.height as i64 - b.height as i64).abs() <= 1);
        assert!(b.width >= 3 && b.height >= 3);
        if a.width != b.width || a.height != b.height {
            changed += 1;
        }
    }
    assert!(changed > 0);
}

#[test]
fn edge_first_placement_keeps_rooms_apart() {
    let config = GenerationConfig::new(5);
    let mut rng = create_rng(&config);
    let existing = vec![Room::new(0, Position::new(10, 10), 4, 4, RoomType::Normal)];
    let near = Room::new(1, Position::new(14, 12), 4, 4, RoomType::Normal);
    let far = Room::new(2, Position::new(20, 20), 4, 4, RoomType::Normal);
    let edge = RoomCorridorGenerator::with_settings(RoomPlacementStrategy::EdgeFirst, 10);
    assert!(!edge.validate_room_placement(&near, &existing, &config, &mut rng));
    assert!(edge.validate_room_placement(&far, &existing, &config, &mut rng));
    let random = RoomCorridorGenerator::new();
    assert!(random.validate_room_placement(&near, &existing, &config, &mut rng));
}

#[test]
fn room_kind_follows_the_roll() {
    let generator = RoomCorridorGenerator::new();
    let with_secrets = GenerationConfig::new(1);
    let without_secrets = GenerationConfig::for_testing(1);
    let kind = |id: u32, roll: u64, config: &GenerationConfig| generator.room_type_for_roll(id, roll, config);
    assert_eq!(kind(0, 0, &with_secrets), RoomType::Normal);
    assert_eq!(kind(1, 0, &with_secrets), RoomType::Treasure);
    assert_eq!(kind(1, 4, &with_secrets), RoomType::Treasure);
    assert_eq!(kind(1, 5, &with_secrets), RoomType::Shop);
    assert_eq!(kind(1, 7, &with_secrets), RoomType::Shop);
    assert_eq!(kind(1, 8, &with_secrets), RoomType::Sanctuary);
    assert_eq!(kind(1, 10, &with_secrets), RoomType::Library);
    assert_eq!(kind(1, 12, &with_secrets), RoomType::Secret);
    assert_eq!(kind(1, 12, &without_secrets), RoomType::Puzzle);
    assert_eq!(kind(1, 15, &with_secrets), RoomType::Puzzle);
    assert_eq!(kind(1, 16, &with_secrets), RoomType::Normal);
    assert_eq!(kind(1, 99, &with_secrets), RoomType::Normal);
}

#[test]
fn down_stair_acceptance_rule() {
    let up = Position::new(10, 10);
    assert!(!thatch::stairs::accept_down_stair(up, Position::new(12, 13), 0));
    assert!(thatch::stairs::accept_down_stair(up, Position::new(15, 15), 0));
    assert!(thatch::stairs::accept_down_stair(up, Position::new(12, 13), 20));
    assert!(!thatch::stairs::accept_down_stair(up, Position::new(10, 10), 19));
}

#[test]
fn carving_step_keeps_only_harmless_walls() {
    let generator = RoomCorridorGenerator::new();
    let mut level = Level::new(0, 12, 5);
    for x in 1..11 {
        level.set_tile(Position::new(x, 2), Tile::floor()).unwrap();
    }
    let rooms = vec![
        Room::new(0, Position::new(1, 2), 2, 1, RoomType::Normal),
        Room::new(1, Position::new(9, 2), 2, 1, RoomType::Normal),
    ];
    // the only corridor cell between the rooms cannot take a wall
    assert!(!generator.try_wall(&mut level, &rooms, Position::new(5, 2), false));
    assert_eq!(level.get_tile(Position::new(5, 2)).unwrap().tile_type, TileType::Floor);
    level.set_tile(Position::new(5, 1), Tile::floor()).unwrap();
    level.set_tile(Position::new(5, 3), Tile::floor()).unwrap();
    assert!(generator.try_wall(&mut level, &rooms, Position::new(5, 3), true));
    assert_eq!(level.get_tile(Position::new(5, 3)).unwrap().tile_type, TileType::Wall);
}

#[test]
fn enhancement_step_turns_floor_special() {
    let generator = RoomCorridorGenerator::new();
    let mut level = Level::new(0, 4, 4);
    level.set_tile(Position::new(1, 1), Tile::floor()).unwrap();
    generator.enhance_at(&mut level, Position::new(1, 1), false);
    assert_eq!(level.get_tile(Position::new(1, 1)).unwrap().tile_type, TileType::Floor);
    generator.enhance_at(&mut level, Position::new(2, 2), true);
    assert_eq!(level.get_tile(Position::new(2, 2)).unwrap().tile_type, TileType::Wall);
    generator.enhance_at(&mut level, Position::new(1, 1), true);
    assert!(matches!(level.get_tile(Position::new(1, 1)).unwrap().tile_type, TileType::Special { .. }));
}

#[test]
fn bresenham_lengths() {
    let generator = RoomCorridorGenerator::new();
    let line = generator.line_between_points(Position::new(0, 0), Position::new(7, 3));
    assert_eq!(line.len(), 8);
    let line = generator.line_between_points(Position::new(4, 9), Position::new(2, 0));
    assert_eq!(line.len(), 10);
    let distinct: HashSet<_> = line.iter().collect();
    assert_eq!(distinct.len(), line.len());
}
