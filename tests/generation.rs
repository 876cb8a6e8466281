use thatch::floor::validate_level;
use thatch::random::create_rng;
use thatch::{GenerationConfig, Level, Position, Room, RoomCorridorGenerator, RoomPlacementStrategy, RoomType, Tile, TileType};

#[test]
fn test_generation_config_creation() {
    let config = GenerationConfig::new(12345);
    assert_eq!(config.seed, 12345);
    assert!(config.min_room_size >= 3);
    assert!(config.max_room_size >= config.min_room_size);
    assert!(config.min_rooms <= config.max_rooms);
}

#[test]
fn test_utils_rng_creation() {
    let config = GenerationConfig::new(12345);
    let _rng = create_rng(&config);
    // RNG creation should not panic
}

#[test]
fn test_room_corridor_generator_creation() {
    let generator = RoomCorridorGenerator::new();
    assert_eq!(
        generator.room_placement_strategy,
        RoomPlacementStrategy::Random
    );
    assert_eq!(generator.max_connectivity_failures, 1000);
    assert!(generator.ensure_connectivity);
}

#[test]
fn test_room_fits_in_level() {
    let generator = RoomCorridorGenerator::new();
    let level = Level::new(0, 50, 40);

    let good_room = Room::new(1, Position::new(5, 5), 10, 8, RoomType::Normal);
    let bad_room = Room::new(2, Position::new(45, 35), 10, 8, RoomType::Normal);

    assert!(generator.room_fits_in_level(&level, &good_room));
    assert!(!generator.room_fits_in_level(&level, &bad_room));
}

#[test]
fn test_room_type_determination() {
    let generator = RoomCorridorGenerator::new();
    let config = GenerationConfig::for_testing(12345);
    let mut rng = create_rng(&config);

    // First room should always be normal
    let room_type = generator.determine_room_type(0, &config, &mut rng);
    assert_eq!(room_type, RoomType::Normal);

    // Other rooms can be various types
    let _room_type = generator.determine_room_type(1, &config, &mut rng);
}

#[test]
fn test_new_algorithm_generation() {
    let generator = RoomCorridorGenerator::for_testing();
    let config = GenerationConfig::for_testing(42);
    let mut rng = create_rng(&config);

    let result = generator.generate(&config, &mut rng);
    assert!(result.is_ok());

    let level = result.unwrap();
    assert!(level.width >= 50 && level.width <= 200);
    assert!(level.height >= 50 && level.height <= 200);

    let mut wall_count = 0;
    let mut floor_count = 0;
    for tile in &level.tiles {
        match tile.tile_type {
            TileType::Wall => wall_count += 1,
            TileType::Floor => floor_count += 1,
            _ => {}
        }
    }

    assert!(floor_count > 0, "Level should have floor tiles");
    assert!(
        wall_count > 0,
        "Level should have wall tiles after progressive placement"
    );
}

#[test]
fn test_validation() {
    let generator = RoomCorridorGenerator::new();
    let config = GenerationConfig::for_testing(12345);

    let mut level = Level::new(0, 10, 10);
    level.set_tile(Position::new(5, 5), Tile::floor()).unwrap();

    assert!(generator.validate(&level, &config).is_ok());

    let empty_level = Level::new(0, 10, 10);
    assert!(generator.validate(&empty_level, &config).is_err());
}

#[test]
fn test_fill_unreachable_areas() {
    let generator = RoomCorridorGenerator::new();
    let mut level = Level::new(0, 10, 10);

    let spawn_pos = Position::new(5, 5);
    level.player_spawn = spawn_pos;
    level.set_tile(spawn_pos, Tile::floor()).unwrap();
    level.set_tile(Position::new(5, 6), Tile::floor()).unwrap();
    level.set_tile(Position::new(6, 5), Tile::floor()).unwrap();

    level.set_tile(Position::new(2, 2), Tile::floor()).unwrap();
    level.set_tile(Position::new(2, 3), Tile::floor()).unwrap();

    generator.fill_unreachable_areas(&mut level).unwrap();

    assert_eq!(level.get_tile(spawn_pos).unwrap().tile_type, TileType::Floor);
    assert_eq!(level.get_tile(Position::new(5, 6)).unwrap().tile_type, TileType::Floor);
    assert_eq!(level.get_tile(Position::new(6, 5)).unwrap().tile_type, TileType::Floor);

    assert_eq!(level.get_tile(Position::new(2, 2)).unwrap().tile_type, TileType::Wall);
    assert_eq!(level.get_tile(Position::new(2, 3)).unwrap().tile_type, TileType::Wall);
}

#[test]
fn test_flood_fill_reachable() {
    let generator = RoomCorridorGenerator::new();
    let mut level = Level::new(0, 10, 10);

    let start_pos = Position::new(5, 5);
    level.set_tile(start_pos, Tile::floor()).unwrap();
    level.set_tile(Position::new(5, 6), Tile::floor()).unwrap();
    level.set_tile(Position::new(6, 5), Tile::floor()).unwrap();
    level.set_tile(Position::new(4, 5), Tile::floor()).unwrap();

    level.set_tile(Position::new(2, 2), Tile::floor()).unwrap();

    let reachable = generator.flood_fill_reachable(&level, start_pos).unwrap();

    assert!(reachable.contains(&start_pos));
    assert!(reachable.contains(&Position::new(5, 6)));
    assert!(reachable.contains(&Position::new(6, 5)));
    assert!(reachable.contains(&Position::new(4, 5)));

    assert!(!reachable.contains(&Position::new(2, 2)));

    assert_eq!(reachable.len(), 4);
}

#[test]
fn test_stair_connectivity() {
    let generator = RoomCorridorGenerator::for_testing();
    let config = GenerationConfig::for_testing(54321);
    let mut rng = create_rng(&config);

    let level = generator.generate(&config, &mut rng).unwrap();

    if let (Some(stairs_up), Some(stairs_down)) =
        (level.stairs_up_position, level.stairs_down_position)
    {
        assert!(
            generator.has_path(&level, stairs_up, stairs_down).unwrap(),
            "Stairs up and down should be connected by a path"
        );
        assert_ne!(stairs_up, stairs_down, "Stairs should be in different positions");
    }
}

#[test]
fn test_line_between_points() {
    let generator = RoomCorridorGenerator::new();

    let points = generator.line_between_points(Position::new(1, 5), Position::new(5, 5));
    assert_eq!(points.len(), 5);
    assert!(points.contains(&Position::new(1, 5)));
    assert!(points.contains(&Position::new(3, 5)));
    assert!(points.contains(&Position::new(5, 5)));

    let points = generator.line_between_points(Position::new(3, 1), Position::new(3, 4));
    assert_eq!(points.len(), 4);
    assert!(points.contains(&Position::new(3, 1)));
    assert!(points.contains(&Position::new(3, 4)));

    let points = generator.line_between_points(Position::new(0, 0), Position::new(2, 2));
    assert_eq!(points.len(), 3);
    assert!(points.contains(&Position::new(0, 0)));
    assert!(points.contains(&Position::new(1, 1)));
    assert!(points.contains(&Position::new(2, 2)));
}

#[test]
fn test_stair_connection_creation() {
    let generator = RoomCorridorGenerator::new();
    let mut level = Level::new(0, 20, 20);

    for y in 0..20 {
        for x in 0..20 {
            let pos = Position::new(x as i32, y as i32);
            level.set_tile(pos, Tile::wall()).unwrap();
        }
    }

    let stairs_up = Position::new(2, 2);
    let stairs_down = Position::new(17, 17);
    level.set_tile(stairs_up, Tile::new(TileType::StairsUp)).unwrap();
    level.set_tile(stairs_down, Tile::new(TileType::StairsDown)).unwrap();

    generator.create_stair_connection(&mut level, stairs_up, stairs_down).unwrap();

    assert!(
        generator.has_path(&level, stairs_up, stairs_down).unwrap(),
        "Connection should create a valid path between stairs"
    );
}

#[test]
fn test_3d_stair_layout_generation() {
    let generator = RoomCorridorGenerator::new();
    let config = GenerationConfig::for_testing(12345);
    let mut rng = create_rng(&config);

    let stair_positions = generator.generate_stair_layout(&config, &mut rng);

    assert_eq!(stair_positions.len(), 26);

    let (up_0, down_0) = stair_positions[0];
    assert!(up_0.is_none());
    assert!(down_0.is_some());

    let (up_25, down_25) = stair_positions[25];
    assert!(up_25.is_some());
    assert!(down_25.is_none());

    for floor_id in 1..25 {
        let (up_pos, down_pos) = stair_positions[floor_id];
        assert!(up_pos.is_some(), "Floor {} should have up stairs", floor_id);
        assert!(down_pos.is_some(), "Floor {} should have down stairs", floor_id);
    }

    for floor_id in 0..25 {
        let (_, down_pos) = stair_positions[floor_id];
        let (up_pos_next, _) = stair_positions[floor_id + 1];
        assert_eq!(
            down_pos, up_pos_next,
            "Down stairs on floor {} should align with up stairs on floor {}",
            floor_id,
            floor_id + 1
        );
    }
}

#[test]
fn test_room_around_position() {
    let generator = RoomCorridorGenerator::new();
    let config = GenerationConfig::for_testing(11111);
    let mut rng = create_rng(&config);
    let level = Level::new(0, 50, 40);

    let center_pos = Position::new(25, 20);
    let room = generator.create_room_around_position(1, center_pos, &config, &mut rng, &level);

    assert!(room.contains(center_pos), "Room should contain the center position");

    assert!(room.top_left.x >= 1);
    assert!(room.top_left.y >= 1);
    assert!(room.top_left.x + (room.width as i32) < (level.width as i32) - 1);
    assert!(room.top_left.y + (room.height as i32) < (level.height as i32) - 1);
}

#[test]
fn test_floor_0_generation_debug() {
    let generator = RoomCorridorGenerator::new();
    let config = GenerationConfig::for_testing(99999);
    let mut rng = create_rng(&config);

    let stair_positions = generator.generate_stair_layout(&config, &mut rng);

    let floor_0_result = generator.generate_floor_with_stairs(0, &stair_positions, &config, &mut rng);

    match floor_0_result {
        Ok(level) => {
            let passable_count = level
                .tiles
                .iter()
                .filter(|tile| tile.tile_type.is_passable())
                .count();
            assert!(passable_count > 0, "Floor 0 should have passable tiles");
        }
        Err(e) => {
            panic!("Floor 0 generation failed: {:?}", e);
        }
    }
}

#[test]
fn test_stair_alignment_consistency() {
    let generator = RoomCorridorGenerator::new();
    let config = GenerationConfig::for_testing(44444);

    for seed_offset in 0..5 {
        let mut test_rng = create_rng(&GenerationConfig::for_testing(44444 + seed_offset));
        let stair_positions = generator.generate_stair_layout(&config, &mut test_rng);

        assert_eq!(stair_positions.len(), 26);

        let (up_0, down_0) = stair_positions[0];
        assert!(up_0.is_none());
        assert!(down_0.is_some());

        let (up_25, down_25) = stair_positions[25];
        assert!(up_25.is_some());
        assert!(down_25.is_none());

        for floor_id in 0..25 {
            let (_, down_current) = stair_positions[floor_id];
            let (up_next, _) = stair_positions[floor_id + 1];
            assert_eq!(down_current, up_next, "Stairs misaligned between floors {} and {}", floor_id, floor_id + 1);
        }
    }
}

#[test]
fn test_progressive_wall_placement_3d_vs_single() {
    let config = GenerationConfig::for_testing(66666);

    let mut level_3d = Level::new(0, 30, 20);
    let mut level_single = Level::new(0, 30, 20);

    let rooms = vec![
        Room::new(0, Position::new(5, 5), 8, 6, RoomType::Normal),
        Room::new(1, Position::new(15, 10), 6, 8, RoomType::Normal),
    ];

    let generator_3d = RoomCorridorGenerator::new();
    let generator_single = RoomCorridorGenerator::for_testing();

    generator_3d.initialize_level_with_rooms(&mut level_3d, &rooms).unwrap();
    generator_single.initialize_level_with_rooms(&mut level_single, &rooms).unwrap();

    let mut rng_3d = create_rng(&config);
    let mut rng_single = create_rng(&config);

    generator_3d.progressive_wall_placement(&mut level_3d, &rooms, &mut rng_3d).unwrap();
    generator_single.progressive_wall_placement(&mut level_single, &rooms, &mut rng_single).unwrap();

    let count_walls = |level: &Level| {
        level
            .tiles
            .iter()
            .filter(|tile| tile.tile_type == TileType::Wall)
            .count()
    };

    let walls_3d = count_walls(&level_3d);
    let walls_single = count_walls(&level_single);

    assert!(
        walls_3d <= walls_single,
        "3D generation should place fewer walls: {} vs {}",
        walls_3d,
        walls_single
    );
}

#[test]
fn test_single_vs_3d_generation() {
    let config = GenerationConfig::for_testing(22222);
    let mut rng = create_rng(&config);

    let single_generator = RoomCorridorGenerator::for_testing();
    let single_level = single_generator.generate(&config, &mut rng).unwrap();
    assert_eq!(single_level.id, 0);

    let mut rng2 = create_rng(&config);
    let multi_generator = RoomCorridorGenerator::new();
    let first_level = multi_generator.generate(&config, &mut rng2).unwrap();
    assert_eq!(first_level.id, 0);

    assert!(validate_level(&single_level).is_ok());
    assert!(validate_level(&first_level).is_ok());
}
