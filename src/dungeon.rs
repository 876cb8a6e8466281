//! Assembling whole dungeons and checking them.
use vstd::prelude::*;
use rand::rngs::StdRng;
use crate::level::{Level, Tile, TileType, cell_index};
use crate::geometry::Position;
use crate::connectivity::connected;
use crate::random::{random_range, random_ratio};
use crate::world::{World, level_index, has_level};
use crate::config::GenerationConfig;
use crate::generator::RoomCorridorGenerator;
use crate::stairs::{StairPair, stair_plan_ok, FLOOR_COUNT};
use crate::floor::{floor_ok, validate_level};
use crate::error::{ThatchError, ThatchResult};

verus! {

/// The staircases of each level, in order.
pub open spec fn stairs_of(levels: Seq<Level>) -> Seq<StairPair> {
    levels.map_values(|l: Level| (l.stairs_up_position, l.stairs_down_position))
}

/// A complete dungeon: one finished floor per id, in order, whose
/// staircases line up from each floor to the next.
pub open spec fn dungeon_ok(world: &World) -> bool {
    &&& world.levels@.len() == FLOOR_COUNT
    &&& stair_plan_ok(stairs_of(world.levels@))
    &&& forall|k: int|
        0 <= k < FLOOR_COUNT ==> floor_ok(
            &#[trigger] world.levels@[k],
            k as u32,
            (world.levels@[k].stairs_up_position, world.levels@[k].stairs_down_position),
        )
}

/// The down staircase of floor `k` and the up staircase of floor `k + 1`
/// are the same, both absent or both at one cell, wherever both floors
/// exist.
pub open spec fn stairs_aligned(levels: Seq<Level>, k: u32) -> bool {
    forall|i: int, j: int|
        #![trigger level_index(levels, k, i), level_index(levels, (k + 1) as u32, j)]
        level_index(levels, k, i) && level_index(levels, (k + 1) as u32, j)
            ==> levels[i].stairs_down_position == levels[j].stairs_up_position
}

/// Whether two optional staircase cells are the same.
fn same_stairs(a: Option<Position>, b: Option<Position>) -> (r: bool)
    ensures
        r == (a == b),
{
    match (a, b) {
        (None, None) => true,
        (Some(p), Some(q)) => p == q,
        _ => false,
    }
}

impl RoomCorridorGenerator {
    /// Builds a whole dungeon: plans every floor's staircases first, then
    /// builds the floors in order around them. Every floor comes out with a
    /// floor tile, so this never fails.
    pub fn generate_complete_dungeon(&self, config: &GenerationConfig, rng: &mut StdRng) -> (r:
        ThatchResult<World>)
        requires
            config.wf(),
            self.placement_ok(config),
        ensures
            r matches Ok(world) && dungeon_ok(&world) && world.current_level_id == 0 && world.seed
                == config.seed,
    {
        let mut world = World::new(config.seed);
        let stair_positions = self.generate_stair_layout(config, rng);
        let mut floor_id: u32 = 0;
        while floor_id < FLOOR_COUNT
            invariant
                config.wf(),
                self.placement_ok(config),
                stair_plan_ok(stair_positions@),
                floor_id <= FLOOR_COUNT,
                world.levels@.len() == floor_id,
                world.current_level_id == 0,
                world.seed == config.seed,
                forall|k: int|
                    0 <= k < floor_id ==> (#[trigger] world.levels@[k]).id == k && floor_ok(
                        &world.levels@[k],
                        k as u32,
                        stair_positions@[k],
                    ),
            decreases FLOOR_COUNT - floor_id,
        {
            let level = match self.generate_floor_with_stairs(floor_id, &stair_positions, config, rng) {
                Ok(level) => level,
                Err(e) => {
                    proof {
                        assert(false);
                    }
                    return Err(e);
                },
            };
            proof {
                assert(!has_level(world.levels@, floor_id)) by {
                    assert forall|i: int| 0 <= i < world.levels@.len() implies (
                    #[trigger] world.levels@[i]).id != floor_id by {}
                }
            }
            world.add_level(level);
            floor_id = floor_id + 1;
        }
        proof {
            let s = stairs_of(world.levels@);
            assert(s =~= stair_positions@) by {
                assert forall|k: int| 0 <= k < s.len() implies s[k] == stair_positions@[k] by {
                    assert(floor_ok(&world.levels@[k], k as u32, stair_positions@[k]));
                }
            }
        }
        Ok(world)
    }

    /// Same as [`RoomCorridorGenerator::generate_complete_dungeon`].
    pub fn generate_world(&self, config: &GenerationConfig, rng: &mut StdRng) -> (r: ThatchResult<
        World,
    >)
        requires
            config.wf(),
            self.placement_ok(config),
        ensures
            r matches Ok(world) && dungeon_ok(&world) && world.current_level_id == 0 && world.seed
                == config.seed,
    {
        self.generate_complete_dungeon(config, rng)
    }

    /// Checks a dungeon: every level holds a floor tile, and each floor's
    /// down staircase sits where the next floor's up staircase is.
    pub fn validate_world(&self, world: &World, config: &GenerationConfig) -> (r: ThatchResult<()>)
        ensures
            r is Ok <==> (forall|i: int|
                0 <= i < world.levels@.len() ==> (#[trigger] world.levels@[i]).has_floor()) && (
            forall|k: u32| k < FLOOR_COUNT - 1 ==> #[trigger] stairs_aligned(world.levels@, k)),
            r matches Err(e) ==> e is GenerationFailed,
    {
        let mut i: usize = 0;
        while i < world.levels.len()
            invariant
                i <= world.levels@.len(),
                forall|j: int| 0 <= j < i ==> (#[trigger] world.levels@[j]).has_floor(),
            decreases world.levels@.len() - i,
        {
            match validate_level(&world.levels[i]) {
                Ok(()) => {},
                Err(e) => {
                    return Err(e);
                },
            }
            i = i + 1;
        }
        let mut level_id: u32 = 0;
        while level_id < FLOOR_COUNT - 1
            invariant
                level_id <= FLOOR_COUNT - 1,
                forall|j: int| 0 <= j < world.levels@.len() ==> (#[trigger] world.levels@[j]).has_floor(),
                forall|k: u32| k < level_id ==> #[trigger] stairs_aligned(world.levels@, k),
            decreases FLOOR_COUNT - 1 - level_id,
        {
            if let (Some(ci), Some(ni)) = (world.find_level(level_id), world.find_level(level_id + 1)) {
                let current = &world.levels[ci];
                let next = &world.levels[ni];
                if !same_stairs(current.stairs_down_position, next.stairs_up_position) {
                    proof {
                        assert(level_index(world.levels@, level_id, ci as int));
                        assert(level_index(world.levels@, (level_id + 1) as u32, ni as int));
                        assert(!stairs_aligned(world.levels@, level_id));
                    }
                    return Err(
                        ThatchError::GenerationFailed("Stair misalignment between levels".to_owned()),
                    );
                }
            }
            proof {
                assert forall|i: int, j: int|
                    level_index(world.levels@, level_id, i) && level_index(world.levels@, (level_id + 1) as u32, j)
                        implies world.levels@[i].stairs_down_position == world.levels@[j].stairs_up_position by {
                    lemma_level_index_unique(world.levels@, level_id, i);
                    lemma_level_index_unique(world.levels@, (level_id + 1) as u32, j);
                }
                assert(stairs_aligned(world.levels@, level_id));
            }
            level_id = level_id + 1;
        }
        Ok(())
    }
}

/// What every generated level guarantees: it holds floor and wall tiles,
/// its spawn tile can be walked on, and a walk leads from its spawn point to
/// each of its staircases.
pub open spec fn level_ok(level: &Level) -> bool {
    &&& level.wf()
    &&& level.id == 0
    &&& level.has_floor()
    &&& level.has_wall()
    &&& level.passable_at(level.player_spawn)
    &&& (level.stairs_up_position matches Some(u) ==> connected(level, level.player_spawn, u))
    &&& (level.stairs_down_position matches Some(d) ==> connected(level, level.player_spawn, d))
}

impl RoomCorridorGenerator {
    /// Generates one level: the first floor of a whole dungeon when the
    /// generator builds all floors, a stand-alone level otherwise.
    pub fn generate(&self, config: &GenerationConfig, rng: &mut StdRng) -> (r: ThatchResult<Level>)
        requires
            config.wf(),
            self.placement_ok(config),
        ensures
            match r {
                Ok(level) => level_ok(&level) && (self.generate_all_floors ==> floor_ok(
                    &level,
                    0,
                    (level.stairs_up_position, level.stairs_down_position),
                )) && (!self.generate_all_floors ==> crate::single::single_ok(&level, config)),
                Err(e) => e is GenerationFailed,
            },
            self.generate_all_floors ==> r is Ok,
            config.min_rooms > 0 && config.min_room_size >= 2 && self.max_placement_attempts > 0
                && !(self.room_placement_strategy is GridBased) ==> r is Ok,
    {
        if self.generate_all_floors {
            let mut world = match self.generate_complete_dungeon(config, rng) {
                Ok(world) => world,
                Err(e) => {
                    return Err(e);
                },
            };
            proof {
                assert(floor_ok(
                    &world.levels@[0],
                    0,
                    (world.levels@[0].stairs_up_position, world.levels@[0].stairs_down_position),
                ));
            }
            let level = world.levels.remove(0);
            return Ok(level);
        }
        self.generate_single_floor(config, rng)
    }

    /// Checks a generated level: it must hold a floor tile.
    pub fn validate(&self, level: &Level, config: &GenerationConfig) -> (r: ThatchResult<()>)
        ensures
            r is Ok <==> level.has_floor(),
            r matches Err(e) ==> e is GenerationFailed,
    {
        validate_level(level)
    }

    /// The name of this generator.
    pub fn generator_type(&self) -> (r: &'static str)
        ensures
            r@ == "RoomCorridorGenerator"@,
    {
        "RoomCorridorGenerator"
    }

    /// One cell of the enhancement pass: a floor tile at `pos` becomes a
    /// special tile when `hit`; anything else stays as it is.
    pub fn enhance_at(&self, level: &mut Level, pos: Position, hit: bool)
        requires
            old(level).wf(),
            old(level).in_bounds(pos),
        ensures
            final(level).wf(),
            final(level).same_frame(old(level)),
            old(level).kind_at(pos) is Floor && hit ==> special_placed(old(level), final(level), pos),
            !(old(level).kind_at(pos) is Floor && hit) ==> final(level).tiles@ == old(level).tiles@,
    {
        let i = level.index(pos);
        if level.tiles[i].tile_type.is_floor() && hit {
            let special_tile = Tile::new(
                TileType::Special { description: SPECIAL_TILE_TEXT.to_owned() },
            );
            level.put(pos, special_tile);
            proof {
                crate::carving::lemma_put_tile(old(level), &*level, pos, special_tile);
                reveal_strlit("A mysterious tile with unknown properties");
            }
        }
    }

    /// The optional enhancement pass: when the configuration enables it,
    /// draws one random cell per two hundred cells of the level and, if it
    /// is floor, turns it into a special tile with the configured chance
    /// (see [`RoomCorridorGenerator::enhance_at`]). Nothing else changes.
    pub fn apply_lldm_enhancements(
        &self,
        level: &mut Level,
        config: &GenerationConfig,
        rng: &mut StdRng,
    ) -> (r: ThatchResult<()>)
        requires
            old(level).wf(),
            config.wf(),
        ensures
            r is Ok,
            final(level).wf(),
            final(level).same_frame(old(level)),
            !config.use_lldm ==> final(level).tiles@ == old(level).tiles@,
            forall|i: int|
                0 <= i < final(level).tiles@.len() ==> (#[trigger] final(level).tiles@[i])
                    == old(level).tiles@[i] || (old(level).tiles@[i].tile_type is Floor
                    && final(level).tiles@[i].tile_type is Special),
            exists|s: Set<int>|
                s.finite() && s.len() <= old(level).width * old(level).height / 200 && forall|i: int|
                    0 <= i < final(level).tiles@.len() && #[trigger] final(level).tiles@[i]
                        != old(level).tiles@[i] ==> s.contains(i),
    {
        let ghost orig = *level;
        proof {
            crate::level::lemma_cells_fit(level.width as int, level.height as int);
        }
        let enhancement_count: u64 = if config.use_lldm {
            (level.width as u64 * level.height as u64) / 200
        } else {
            0
        };
        proof {
            assert(0 <= orig.width * orig.height / 200) by (nonlinear_arith);
        }
        let ghost mut drawn: Set<int> = Set::empty();
        let mut n: u64 = 0;
        while n < enhancement_count
            invariant
                orig.wf(),
                level.wf(),
                level.same_frame(&orig),
                config.wf(),
                enhancement_count <= orig.width * orig.height / 200,
                !config.use_lldm ==> enhancement_count == 0 && level.tiles@ == orig.tiles@,
                n <= enhancement_count,
                drawn.finite(),
                drawn.len() <= n,
                forall|i: int|
                    0 <= i < level.tiles@.len() ==> (#[trigger] level.tiles@[i]) == orig.tiles@[i]
                        || (orig.tiles@[i].tile_type is Floor && level.tiles@[i].tile_type is Special),
                forall|i: int|
                    0 <= i < level.tiles@.len() && #[trigger] level.tiles@[i] != orig.tiles@[i]
                        ==> drawn.contains(i),
            decreases enhancement_count - n,
        {
            let x = random_range(rng, 0, level.width as u64) as i32;
            let y = random_range(rng, 0, level.height as u64) as i32;
            let pos = Position::new(x, y);
            let i = level.index(pos);
            let ghost before = *level;
            if level.tiles[i].tile_type.is_floor() {
                let hit = random_ratio(rng, config.lldm_enhancement_chance_milli, 1000);
                self.enhance_at(level, pos, hit);
            }
            proof {
                let old_drawn = drawn;
                drawn = drawn.insert(i as int);
                assert(drawn.len() <= old_drawn.len() + 1);
                assert forall|j: int| 0 <= j < level.tiles@.len() implies (
                #[trigger] level.tiles@[j]) == orig.tiles@[j] || (orig.tiles@[j].tile_type is Floor
                    && level.tiles@[j].tile_type is Special) by {
                    if j != i {
                        assert(level.tiles@[j] == before.tiles@[j]);
                    }
                }
                assert forall|j: int|
                    0 <= j < level.tiles@.len() && #[trigger] level.tiles@[j] != orig.tiles@[j]
                        implies drawn.contains(j) by {
                    if j != i {
                        assert(level.tiles@[j] == before.tiles@[j]);
                    }
                }
            }
            n = n + 1;
        }
        Ok(())
    }
}

/// The text of the special tiles the enhancement pass places.
pub const SPECIAL_TILE_TEXT: &'static str = "A mysterious tile with unknown properties";

/// `b` is `a` with the floor tile at `pos` turned into a fresh special tile
/// carrying the enhancement text.
pub open spec fn special_placed(a: &Level, b: &Level, pos: Position) -> bool {
    &&& !b.tile_at(pos).visible
    &&& !b.tile_at(pos).explored
    &&& (b.tile_at(pos).tile_type matches TileType::Special { description } && description@
        == SPECIAL_TILE_TEXT@)
    &&& b.tiles@ == a.tiles@.update(cell_index(a.width as int, pos), b.tile_at(pos))
}

/// The first level with a given id is unique, and the search finds it.
proof fn lemma_level_index_unique(levels: Seq<Level>, id: u32, i: int)
    requires
        level_index(levels, id, i),
    ensures
        forall|j: int| level_index(levels, id, j) ==> j == i,
        has_level(levels, id),
{
    assert forall|j: int| level_index(levels, id, j) implies j == i by {
        if j < i {
            assert(levels[j].id != id);
        } else if j > i {
            assert(levels[i].id != id);
        }
    }
}

/// In a complete dungeon the first floor has no up staircase, the last
/// has no down staircase, every other floor has both, and each floor's down
/// staircase is the next floor's up staircase.
pub proof fn lemma_dungeon_stairs_align(world: &World)
    requires
        dungeon_ok(world),
    ensures
        world.levels@[0].stairs_up_position is None,
        world.levels@[FLOOR_COUNT - 1].stairs_down_position is None,
        forall|k: int| 1 <= k < FLOOR_COUNT ==> (#[trigger] world.levels@[k]).stairs_up_position is Some,
        forall|k: int|
            0 <= k < FLOOR_COUNT - 1 ==> (#[trigger] world.levels@[k]).stairs_down_position is Some,
        forall|k: int|
            0 <= k < FLOOR_COUNT - 1 ==> (#[trigger] world.levels@[k]).stairs_down_position
                == world.levels@[k + 1].stairs_up_position,
{
    let s = stairs_of(world.levels@);
    assert forall|k: int| 0 <= k < FLOOR_COUNT implies #[trigger] s[k] == (
    world.levels@[k].stairs_up_position,
    world.levels@[k].stairs_down_position,
    ) by {}
    assert(s[0] == (world.levels@[0].stairs_up_position, world.levels@[0].stairs_down_position));
    assert(s[25] == (world.levels@[25].stairs_up_position, world.levels@[25].stairs_down_position));
    assert forall|k: int| 1 <= k < FLOOR_COUNT implies (#[trigger] world.levels@[k]).stairs_up_position is Some by {
        assert(s[k].0 is Some);
    }
    assert forall|k: int| 0 <= k < FLOOR_COUNT - 1 implies (
    #[trigger] world.levels@[k]).stairs_down_position is Some by {
        assert(s[k].1 is Some);
    }
    assert forall|k: int|
        0 <= k < FLOOR_COUNT - 1 implies (#[trigger] world.levels@[k]).stairs_down_position
        == world.levels@[k + 1].stairs_up_position by {
        assert(s[k].1 == s[k + 1].0);
        assert(s[k + 1] == (world.levels@[k + 1].stairs_up_position, world.levels@[k + 1].stairs_down_position));
    }
}

/// Every complete dungeon passes the structural check of
/// [`RoomCorridorGenerator::validate_world`]: each floor holds a floor tile
/// and the staircases of neighbouring floors line up.
pub proof fn lemma_generated_world_validates(world: &World)
    requires
        dungeon_ok(world),
    ensures
        forall|i: int| 0 <= i < world.levels@.len() ==> (#[trigger] world.levels@[i]).has_floor(),
        forall|k: u32| k < FLOOR_COUNT - 1 ==> #[trigger] stairs_aligned(world.levels@, k),
{
    lemma_dungeon_stairs_align(world);
    assert forall|i: int| 0 <= i < world.levels@.len() implies (#[trigger] world.levels@[i]).has_floor() by {
        assert(floor_ok(
            &world.levels@[i],
            i as u32,
            (world.levels@[i].stairs_up_position, world.levels@[i].stairs_down_position),
        ));
    }
    assert forall|k: u32| k < FLOOR_COUNT - 1 implies #[trigger] stairs_aligned(world.levels@, k) by {
        assert forall|i: int, j: int|
            level_index(world.levels@, k, i) && level_index(world.levels@, (k + 1) as u32, j)
                implies world.levels@[i].stairs_down_position
            == world.levels@[j].stairs_up_position by {
            assert(floor_ok(
                &world.levels@[i],
                i as u32,
                (world.levels@[i].stairs_up_position, world.levels@[i].stairs_down_position),
            ));
            assert(floor_ok(
                &world.levels@[j],
                j as u32,
                (world.levels@[j].stairs_up_position, world.levels@[j].stairs_down_position),
            ));
            assert(i == k as int);
            assert(j == k + 1);
        }
    }
}

/// On every floor of a complete dungeon a walk leads from the spawn point
/// to each staircase the floor has.
pub proof fn lemma_dungeon_spawns_reach_stairs(world: &World)
    requires
        dungeon_ok(world),
    ensures
        forall|k: int|
            0 <= k < FLOOR_COUNT ==> ((#[trigger] world.levels@[k]).stairs_up_position matches Some(
                u,
            ) ==> connected(&world.levels@[k], world.levels@[k].player_spawn, u)),
        forall|k: int|
            0 <= k < FLOOR_COUNT ==> ((#[trigger] world.levels@[k]).stairs_down_position matches Some(
                d,
            ) ==> connected(&world.levels@[k], world.levels@[k].player_spawn, d)),
{
    assert forall|k: int| 0 <= k < FLOOR_COUNT implies ((#[trigger] world.levels@[k]).stairs_up_position matches Some(
        u,
    ) ==> connected(&world.levels@[k], world.levels@[k].player_spawn, u)) by {
        assert(floor_ok(
            &world.levels@[k],
            k as u32,
            (world.levels@[k].stairs_up_position, world.levels@[k].stairs_down_position),
        ));
    }
    assert forall|k: int| 0 <= k < FLOOR_COUNT implies ((#[trigger] world.levels@[k]).stairs_down_position matches Some(
        d,
    ) ==> connected(&world.levels@[k], world.levels@[k].player_spawn, d)) by {
        assert(floor_ok(
            &world.levels@[k],
            k as u32,
            (world.levels@[k].stairs_up_position, world.levels@[k].stairs_down_position),
        ));
    }
}

} // verus!
