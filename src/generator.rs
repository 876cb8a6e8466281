//! The dungeon generator and its settings.
use vstd::prelude::*;

verus! {

/// How candidate rooms are positioned on a level.
#[derive(Debug, Clone, Copy, PartialEq, Eq, Structural)]
pub enum RoomPlacementStrategy {
    /// Anywhere inside the border.
    Random,
    /// In a random cell of a grid of the given pitch.
    GridBased { grid_size: u32 },
    /// Near the left or right edge more often than in the middle.
    EdgeFirst,
    /// Placement guided by noise; it samples as `Random` does.
    NoiseGuided,
}

/// Builds levels from overlapping rooms, carving walls into the open space
/// around them as long as every room stays reachable.
#[derive(Debug, Clone, Copy, PartialEq, Eq, Structural)]
pub struct RoomCorridorGenerator {
    pub room_placement_strategy: RoomPlacementStrategy,
    /// Failed wall placements tolerated before carving stops.
    pub max_connectivity_failures: u32,
    /// Candidates drawn for a room before giving it up.
    pub max_placement_attempts: u32,
    /// Rooms are always kept connected; carried for callers.
    pub ensure_connectivity: bool,
    /// Whether `generate` builds a whole dungeon or a single floor.
    pub generate_all_floors: bool,
}

impl RoomCorridorGenerator {
    /// A generator for whole dungeons with random placement.
    pub fn new() -> (r: RoomCorridorGenerator)
        ensures
            r == (RoomCorridorGenerator {
                room_placement_strategy: RoomPlacementStrategy::Random,
                max_connectivity_failures: 1000,
                max_placement_attempts: 100,
                ensure_connectivity: true,
                generate_all_floors: true,
            }),
    {
        RoomCorridorGenerator {
            room_placement_strategy: RoomPlacementStrategy::Random,
            max_connectivity_failures: 1000,
            max_placement_attempts: 100,
            ensure_connectivity: true,
            generate_all_floors: true,
        }
    }

    /// A generator for whole dungeons with the given placement strategy and
    /// failure budget.
    pub fn with_settings(
        room_placement_strategy: RoomPlacementStrategy,
        max_connectivity_failures: u32,
    ) -> (r: RoomCorridorGenerator)
        ensures
            r == (RoomCorridorGenerator {
                room_placement_strategy,
                max_connectivity_failures,
                max_placement_attempts: 100,
                ensure_connectivity: true,
                generate_all_floors: true,
            }),
    {
        RoomCorridorGenerator {
            room_placement_strategy,
            max_connectivity_failures,
            max_placement_attempts: 100,
            ensure_connectivity: true,
            generate_all_floors: true,
        }
    }

    /// A quick single-floor generator for tests.
    pub fn for_testing() -> (r: RoomCorridorGenerator)
        ensures
            r == (RoomCorridorGenerator {
                room_placement_strategy: RoomPlacementStrategy::Random,
                max_connectivity_failures: 50,
                max_placement_attempts: 50,
                ensure_connectivity: true,
                generate_all_floors: false,
            }),
    {
        RoomCorridorGenerator {
            room_placement_strategy: RoomPlacementStrategy::Random,
            max_connectivity_failures: 50,
            max_placement_attempts: 50,
            ensure_connectivity: true,
            generate_all_floors: false,
        }
    }

    /// A generator for detailed dungeons with noise-guided placement.
    pub fn for_detailed_generation() -> (r: RoomCorridorGenerator)
        ensures
            r == (RoomCorridorGenerator {
                room_placement_strategy: RoomPlacementStrategy::NoiseGuided,
                max_connectivity_failures: 1500,
                max_placement_attempts: 200,
                ensure_connectivity: true,
                generate_all_floors: true,
            }),
    {
        RoomCorridorGenerator {
            room_placement_strategy: RoomPlacementStrategy::NoiseGuided,
            max_connectivity_failures: 1500,
            max_placement_attempts: 200,
            ensure_connectivity: true,
            generate_all_floors: true,
        }
    }
}

impl Default for RoomCorridorGenerator {
    /// The same generator as [`RoomCorridorGenerator::new`].
    fn default() -> (r: RoomCorridorGenerator)
        ensures
            r.room_placement_strategy == RoomPlacementStrategy::Random,
            r.max_connectivity_failures == 1000,
            r.max_placement_attempts == 100,
            r.ensure_connectivity,
            r.generate_all_floors,
    {
        RoomCorridorGenerator::new()
    }
}

} // verus!
