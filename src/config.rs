//! Knobs of the generator.
use vstd::prelude::*;

verus! {

/// Smallest level side generation works on: dungeon floors are 80 by 50,
/// stand-alone levels at least 50 by 50.
pub const MIN_LEVEL_SIDE: u32 = 50;

/// Settings of one generation request. Probabilities and densities are in
/// thousandths (`150` stands for 0.15).
#[derive(Debug, Clone, Copy, PartialEq, Eq, Structural)]
pub struct GenerationConfig {
    /// Seed of the random source, for reproducible builds.
    pub seed: u64,
    pub min_room_size: u32,
    pub max_room_size: u32,
    /// Bounds on the number of rooms of a single-floor level.
    pub min_rooms: u32,
    pub max_rooms: u32,
    /// Carried for corridor carving; no algorithm reads it.
    pub corridor_width: u32,
    /// Chance of extra connections between rooms; no algorithm reads it.
    pub extra_connection_chance_milli: u32,
    /// Chance of secret doors; when zero, no room is a secret room.
    pub secret_door_chance_milli: u32,
    /// Monsters per hundred floor tiles; no algorithm reads it.
    pub monster_density_milli: u32,
    /// Items per hundred floor tiles; no algorithm reads it.
    pub item_density_milli: u32,
    /// Whether the enhancement pass runs.
    pub use_lldm: bool,
    /// Chance that the enhancement pass turns a floor tile special.
    pub lldm_enhancement_chance_milli: u32,
}

impl GenerationConfig {
    /// Every paired range is ordered, a room of the largest size leaves
    /// room for a position on the smallest level, and chances are at most
    /// one.
    pub open spec fn wf(&self) -> bool {
        &&& 1 <= self.min_room_size <= self.max_room_size
        &&& self.max_room_size + 3 <= MIN_LEVEL_SIDE
        &&& self.min_rooms <= self.max_rooms
        &&& self.lldm_enhancement_chance_milli <= 1000
    }

    /// The default settings with the given seed.
    pub fn new(seed: u64) -> (r: GenerationConfig)
        ensures
            r.wf(),
            r == (GenerationConfig {
                seed,
                min_room_size: 4,
                max_room_size: 12,
                min_rooms: 6,
                max_rooms: 15,
                corridor_width: 1,
                extra_connection_chance_milli: 150,
                secret_door_chance_milli: 50,
                monster_density_milli: 2000,
                item_density_milli: 1500,
                use_lldm: false,
                lldm_enhancement_chance_milli: 300,
            }),
    {
        GenerationConfig {
            seed,
            min_room_size: 4,
            max_room_size: 12,
            min_rooms: 6,
            max_rooms: 15,
            corridor_width: 1,
            extra_connection_chance_milli: 150,
            secret_door_chance_milli: 50,
            monster_density_milli: 2000,
            item_density_milli: 1500,
            use_lldm: false,
            lldm_enhancement_chance_milli: 300,
        }
    }

    /// Small, simple levels for tests.
    pub fn for_testing(seed: u64) -> (r: GenerationConfig)
        ensures
            r.wf(),
            r == (GenerationConfig {
                seed,
                min_room_size: 3,
                max_room_size: 6,
                min_rooms: 3,
                max_rooms: 6,
                corridor_width: 1,
                extra_connection_chance_milli: 100,
                secret_door_chance_milli: 0,
                monster_density_milli: 1000,
                item_density_milli: 500,
                use_lldm: false,
                lldm_enhancement_chance_milli: 0,
            }),
    {
        GenerationConfig {
            seed,
            min_room_size: 3,
            max_room_size: 6,
            min_rooms: 3,
            max_rooms: 6,
            corridor_width: 1,
            extra_connection_chance_milli: 100,
            secret_door_chance_milli: 0,
            monster_density_milli: 1000,
            item_density_milli: 500,
            use_lldm: false,
            lldm_enhancement_chance_milli: 0,
        }
    }

    /// Large, detailed levels with the enhancement pass on.
    pub fn for_detailed_generation(seed: u64) -> (r: GenerationConfig)
        ensures
            r.wf(),
            r == (GenerationConfig {
                seed,
                min_room_size: 6,
                max_room_size: 20,
                min_rooms: 10,
                max_rooms: 25,
                corridor_width: 1,
                extra_connection_chance_milli: 250,
                secret_door_chance_milli: 100,
                monster_density_milli: 3000,
                item_density_milli: 2500,
                use_lldm: true,
                lldm_enhancement_chance_milli: 400,
            }),
    {
        GenerationConfig {
            seed,
            min_room_size: 6,
            max_room_size: 20,
            min_rooms: 10,
            max_rooms: 25,
            corridor_width: 1,
            extra_connection_chance_milli: 250,
            secret_door_chance_milli: 100,
            monster_density_milli: 3000,
            item_density_milli: 2500,
            use_lldm: true,
            lldm_enhancement_chance_milli: 400,
        }
    }
}

impl Default for GenerationConfig {
    /// The default settings with seed 42.
    fn default() -> (r: GenerationConfig)
        ensures
            r.wf(),
            r.seed == 42,
            r.min_room_size == 4,
            r.max_room_size == 12,
            r.min_rooms == 6,
            r.max_rooms == 15,
            !r.use_lldm,
    {
        GenerationConfig::new(42)
    }
}

} // verus!
