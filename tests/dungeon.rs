use thatch::floor::validate_level;
use thatch::random::create_rng;
use thatch::{GenerationConfig, Level, Position, RoomCorridorGenerator, ThatchError, Tile, TileType, World};

#[test]
fn test_complete_dungeon_generation() {
    let generator = RoomCorridorGenerator::new();
    let config = GenerationConfig::for_testing(54321);
    let mut rng = create_rng(&config);

    let world = generator.generate_complete_dungeon(&config, &mut rng).unwrap();

    assert_eq!(world.levels.len(), 26);

    for level_id in 0..26 {
        assert!(world.get_level(level_id).is_some(), "Level {} should exist", level_id);
    }

    for level_id in 0..25 {
        let current_level = world.get_level(level_id).unwrap();
        let next_level = world.get_level(level_id + 1).unwrap();
        if let (Some(down_pos), Some(up_pos)) =
            (current_level.stairs_down_position, next_level.stairs_up_position)
        {
            assert_eq!(
                down_pos, up_pos,
                "Stair positions should match between levels {} and {}",
                level_id,
                level_id + 1
            );
        }
    }
}

#[test]
fn dungeon_test_world_generator_trait() {
    let generator = RoomCorridorGenerator::new();
    let config = GenerationConfig::for_testing(98765);
    let mut rng = create_rng(&config);

    let world = generator.generate_world(&config, &mut rng).unwrap();

    assert!(generator.validate_world(&world, &config).is_ok());

    assert_eq!(world.levels.len(), 26);
}

#[test]
fn test_generate_complete_dungeon_performance() {
    let generator = RoomCorridorGenerator::new();
    let config = GenerationConfig::for_testing(77777);
    let mut rng = create_rng(&config);

    let start_time = std::time::Instant::now();
    let world = generator.generate_complete_dungeon(&config, &mut rng).unwrap();
    let generation_time = start_time.elapsed();

    assert!(generation_time.as_secs() < 30, "Generation took too long: {:?}", generation_time);

    assert_eq!(world.levels.len(), 26);
    assert_eq!(world.current_level_id, 0);

    for level_id in 0..26 {
        let level = world.get_level(level_id).unwrap();
        assert!(validate_level(level).is_ok(), "Level {} should be valid", level_id);
    }
}

#[test]
fn test_3d_generation_stair_connectivity() {
    let generator = RoomCorridorGenerator::new();
    let config = GenerationConfig::for_testing(88888);
    let mut rng = create_rng(&config);

    let world = generator.generate_complete_dungeon(&config, &mut rng).unwrap();

    for level_id in 1..25 {
        let level = world.get_level(level_id).unwrap();
        if let (Some(up_pos), Some(down_pos)) = (level.stairs_up_position, level.stairs_down_position) {
            assert!(
                generator.has_path(level, up_pos, down_pos).unwrap(),
                "Stairs should be connected on level {}",
                level_id
            );
        }
    }
}

#[test]
fn test_world_generator_error_handling() {
    let generator = RoomCorridorGenerator::new();
    let config = GenerationConfig::for_testing(99999);
    let mut rng = create_rng(&config);

    let world = generator.generate_world(&config, &mut rng);
    assert!(world.is_ok(), "World generation should handle edge cases gracefully");

    if let Ok(world) = world {
        let validation = generator.validate_world(&world, &config);
        assert!(validation.is_ok(), "Generated world should pass validation");
    }
}

fn tile_kinds(level: &Level) -> Vec<TileType> {
    level.tiles.iter().map(|t| t.tile_type.clone()).collect()
}

#[test]
fn same_seed_gives_identical_worlds() {
    let generator = RoomCorridorGenerator::new();
    let config = GenerationConfig::for_testing(31337);
    let world_a = generator.generate_world(&config, &mut create_rng(&config)).unwrap();
    let world_b = generator.generate_world(&config, &mut create_rng(&config)).unwrap();
    assert_eq!(world_a.levels.len(), world_b.levels.len());
    for (a, b) in world_a.levels.iter().zip(world_b.levels.iter()) {
        assert_eq!(tile_kinds(a), tile_kinds(b));
        assert_eq!(a.player_spawn, b.player_spawn);
        assert_eq!(a.stairs_up_position, b.stairs_up_position);
        assert_eq!(a.stairs_down_position, b.stairs_down_position);
    }
}

#[test]
fn spawn_reaches_every_staircase_on_every_floor() {
    let generator = RoomCorridorGenerator::new();
    let config = GenerationConfig::for_testing(2024);
    let world = generator.generate_world(&config, &mut create_rng(&config)).unwrap();
    for level_id in 0..26u32 {
        let level = world.get_level(level_id).unwrap();
        assert_eq!(level.stairs_up_position.is_some(), level_id > 0);
        assert_eq!(level.stairs_down_position.is_some(), level_id < 25);
        for stairs in [level.stairs_up_position, level.stairs_down_position].into_iter().flatten() {
            assert!(generator.has_path(level, level.player_spawn, stairs).unwrap());
        }
        if let Some(down) = level.stairs_down_position {
            assert_eq!(level.get_tile(down).unwrap().tile_type, TileType::StairsDown);
        }
    }
}

#[test]
fn misaligned_world_fails_validation() {
    let generator = RoomCorridorGenerator::new();
    let config = GenerationConfig::for_testing(5);
    let mut world = World::new(5);
    let mut first = Level::new(0, 10, 10);
    first.set_tile(Position::new(3, 3), Tile::floor()).unwrap();
    first.stairs_down_position = Some(Position::new(4, 4));
    let mut second = Level::new(1, 10, 10);
    second.set_tile(Position::new(3, 3), Tile::floor()).unwrap();
    second.stairs_up_position = Some(Position::new(5, 5));
    world.add_level(first);
    world.add_level(second);
    assert!(matches!(
        generator.validate_world(&world, &config),
        Err(ThatchError::GenerationFailed(_))
    ));
    world.levels[1].stairs_up_position = None;
    assert!(generator.validate_world(&world, &config).is_err());
    world.levels[1].stairs_up_position = Some(Position::new(4, 4));
    assert!(generator.validate_world(&world, &config).is_ok());
    world.add_level(Level::new(1, 10, 10));
    assert_eq!(world.levels.len(), 2);
    assert!(generator.validate_world(&world, &config).is_err());
}

#[test]
fn generator_name_and_presets() {
    let generator = RoomCorridorGenerator::for_detailed_generation();
    assert_eq!(generator.generator_type(), "RoomCorridorGenerator");
    assert_eq!(generator.max_connectivity_failures, 1500);
    assert_eq!(generator.max_placement_attempts, 200);
    let tuned = RoomCorridorGenerator::with_settings(thatch::RoomPlacementStrategy::EdgeFirst, 7);
    assert_eq!(tuned.max_connectivity_failures, 7);
    assert!(tuned.generate_all_floors);
    assert!(!RoomCorridorGenerator::for_testing().generate_all_floors);
    let detailed = GenerationConfig::for_detailed_generation(3);
    assert_eq!(detailed.max_room_size, 20);
    assert!(detailed.use_lldm);
}
