//! Building a stand-alone level: rooms first, staircases placed inside
//! them afterwards, and unreachable pockets filled in.
use vstd::prelude::*;
use rand::rngs::StdRng;
use crate::geometry::{Position, manhattan, cardinal_neighbours};
use crate::room::{Room, lemma_push_contains};
use crate::level::{Level, Tile, TileType, cell_index};
use crate::config::GenerationConfig;
use crate::generator::RoomCorridorGenerator;
use crate::carving::rooms_inside;
use crate::connectivity::{connected, is_walk, explore};
use crate::error::{ThatchError, ThatchResult};
use crate::random::random_range;

verus! {

/// Largest side of a stand-alone level.
pub const MAX_SINGLE_SIDE: u32 = 200;

/// Smallest side of a stand-alone level.
pub const MIN_SINGLE_SIDE: u32 = 50;

/// The largest `r <= s` with `r * r <= n`, or 0.
pub open spec fn sqrt_below(n: int, s: int) -> int
    decreases s,
{
    if s <= 0 || s * s <= n {
        s
    } else {
        sqrt_below(n, s - 1)
    }
}

/// Side of a stand-alone level: the square root of twice the largest room
/// count times the largest room size, rounded down and kept within
/// `[MIN_SINGLE_SIDE, MAX_SINGLE_SIDE]`.
pub open spec fn single_level_side(config: &GenerationConfig) -> int {
    let s = sqrt_below(2 * config.max_rooms * config.max_room_size, MAX_SINGLE_SIDE as int);
    if s < MIN_SINGLE_SIDE {
        MIN_SINGLE_SIDE as int
    } else {
        s
    }
}

/// `q` lies inside the walls of the room.
pub open spec fn room_floor_holds(room: &Room, q: Position) -> bool {
    room.top_left.x < q.x < room.top_left.x + room.width - 1 && room.top_left.y < q.y
        < room.top_left.y + room.height - 1
}

/// A floor tile with a wall, or the edge of the grid, on one of its sides.
pub open spec fn good_stair_cell(level: &Level, q: Position) -> bool {
    &&& level.in_bounds(q)
    &&& level.kind_at(q) is Floor
    &&& exists|j: int|
        0 <= j < 4 && (!level.in_bounds(#[trigger] cardinal_neighbours(q)[j]) || level.kind_at(
            cardinal_neighbours(q)[j],
        ) is Wall)
}

/// A cell inside the walls of some room that passes the filter: a good
/// stair cell when `need_good`, and at least `min_distance` steps from
/// `avoid`, and not `avoid` itself, when there is one.
pub open spec fn room_cell_wanted(
    level: &Level,
    rooms: Seq<Room>,
    need_good: bool,
    avoid: Option<Position>,
    min_distance: u32,
    q: Position,
) -> bool {
    &&& exists|i: int| 0 <= i < rooms.len() && room_floor_holds(&#[trigger] rooms[i], q)
    &&& need_good ==> good_stair_cell(level, q)
    &&& avoid matches Some(a) ==> q != a && manhattan(q, a) >= min_distance
}

impl RoomCorridorGenerator {
    /// Whether `pos` is a floor tile next to a wall or to the edge of the
    /// grid, a natural place for a staircase.
    pub fn is_good_stair_position(&self, level: &Level, pos: Position) -> (r: bool)
        requires
            level.wf(),
        ensures
            r == good_stair_cell(level, pos),
    {
        if !level.is_valid_position(pos) {
            return false;
        }
        let i = level.index(pos);
        if !level.tiles[i].tile_type.is_floor() {
            return false;
        }
        let adjacent = pos.cardinal_adjacent_positions();
        let mut j: usize = 0;
        while j < 4
            invariant
                level.wf(),
                level.in_bounds(pos),
                level.kind_at(pos) is Floor,
                adjacent@ == cardinal_neighbours(pos),
                j <= 4,
                forall|jj: int|
                    0 <= jj < j ==> level.in_bounds(#[trigger] cardinal_neighbours(pos)[jj])
                        && !(level.kind_at(cardinal_neighbours(pos)[jj]) is Wall),
            decreases 4 - j,
        {
            let q = adjacent[j];
            match level.get_tile(q) {
                Some(t) => {
                    if t.tile_type.is_wall() {
                        return true;
                    }
                },
                None => {
                    return true;
                },
            }
            j = j + 1;
        }
        false
    }

    /// The cells inside the walls of the rooms that pass the filter of
    /// [`room_cell_wanted`], room by room; a cell shared by two rooms is
    /// listed twice.
    fn collect_room_cells(
        &self,
        level: &Level,
        rooms: &Vec<Room>,
        need_good: bool,
        avoid: Option<Position>,
        min_distance: u32,
    ) -> (r: Vec<Position>)
        requires
            level.wf(),
            rooms_inside(level, rooms@),
            forall|i: int| 0 <= i < rooms@.len() ==> (#[trigger] rooms@[i]).fits(),
            avoid matches Some(a) ==> level.in_bounds(a),
        ensures
            forall|q: Position|
                #[trigger] r@.contains(q) <==> room_cell_wanted(
                    level,
                    rooms@,
                    need_good,
                    avoid,
                    min_distance,
                    q,
                ),
    {
        let mut cells: Vec<Position> = Vec::new();
        let mut ri: usize = 0;
        while ri < rooms.len()
            invariant
                level.wf(),
                rooms_inside(level, rooms@),
                forall|i: int| 0 <= i < rooms@.len() ==> (#[trigger] rooms@[i]).fits(),
                ri <= rooms@.len(),
                avoid matches Some(a) ==> level.in_bounds(a),
                forall|q: Position|
                    #[trigger] cells@.contains(q) <==> room_cell_wanted(
                        level,
                        rooms@.take(ri as int),
                        need_good,
                        avoid,
                        min_distance,
                        q,
                    ),
            decreases rooms@.len() - ri,
        {
            let room = &rooms[ri];
            assert(crate::placement::room_in_interior(level, room));
            let positions = room.floor_positions();
            let ghost before = cells@;
            let mut k: usize = 0;
            while k < positions.len()
                invariant
                    level.wf(),
                    ri < rooms@.len(),
                    *room == rooms@[ri as int],
                    crate::placement::room_in_interior(level, room),
                    forall|q: Position|
                        positions@.contains(q) <==> room_floor_holds(room, q),
                    k <= positions@.len(),
                    avoid matches Some(a) ==> level.in_bounds(a),
                    forall|q: Position|
                        #[trigger] cells@.contains(q) <==> (before.contains(q) || (
                        positions@.take(k as int).contains(q) && (need_good ==> good_stair_cell(level, q))
                            && (avoid matches Some(a) ==> q != a && manhattan(q, a) >= min_distance))),
                decreases positions@.len() - k,
            {
                let pos = positions[k];
                assert(positions@.contains(pos));
                assert(room_floor_holds(room, pos));
                let mut wanted = true;
                if need_good && !self.is_good_stair_position(level, pos) {
                    wanted = false;
                }
                if let Some(a) = avoid {
                    if pos == a {
                        wanted = false;
                    } else {
                        assert(level.in_interior(pos));
                        if pos.manhattan_distance(a) < min_distance {
                            wanted = false;
                        }
                    }
                }
                let ghost prev = cells@;
                if wanted {
                    cells.push(pos);
                    proof {
                        lemma_push_contains(prev, pos);
                    }
                }
                proof {
                    assert(positions@.take(k + 1) == positions@.take(k as int).push(pos));
                    lemma_push_contains(positions@.take(k as int), pos);
                    assert forall|q: Position|
                        #[trigger] cells@.contains(q) <==> (before.contains(q) || (
                        positions@.take(k + 1).contains(q) && (need_good ==> good_stair_cell(level, q))
                            && (avoid matches Some(a) ==> q != a && manhattan(q, a) >= min_distance))) by {
                        assert(prev.contains(q) <==> (before.contains(q) || (
                        positions@.take(k as int).contains(q) && (need_good ==> good_stair_cell(level, q))
                            && (avoid matches Some(a) ==> q != a && manhattan(q, a) >= min_distance))));
                    }
                }
                k = k + 1;
            }
            proof {
                assert(positions@.take(k as int) == positions@);
                assert(rooms@.take(ri + 1) == rooms@.take(ri as int).push(*room));
                assert forall|q: Position|
                    #[trigger] cells@.contains(q) <==> room_cell_wanted(
                        level,
                        rooms@.take(ri + 1),
                        need_good,
                        avoid,
                        min_distance,
                        q,
                    ) by {
                    let t0 = rooms@.take(ri as int);
                    let t1 = rooms@.take(ri + 1);
                    if exists|i: int| 0 <= i < t1.len() && room_floor_holds(&#[trigger] t1[i], q) {
                        let i = choose|i: int| 0 <= i < t1.len() && room_floor_holds(&#[trigger] t1[i], q);
                        if i < ri {
                            assert(t0[i] == t1[i]);
                        }
                    }
                    if exists|i: int| 0 <= i < t0.len() && room_floor_holds(&#[trigger] t0[i], q) {
                        let i = choose|i: int| 0 <= i < t0.len() && room_floor_holds(&#[trigger] t0[i], q);
                        assert(t0[i] == t1[i]);
                    }
                    if room_floor_holds(room, q) {
                        assert(t1[ri as int] == *room);
                    }
                }
            }
            ri = ri + 1;
        }
        proof {
            assert(rooms@.take(ri as int) == rooms@);
        }
        cells
    }

    /// A cell for a staircase: a random good stair cell inside a room if
    /// there is one, else the centre of the first room, else the centre of
    /// the level.
    pub fn find_stairs_position(
        &self,
        level: &Level,
        rooms: &Vec<Room>,
        is_up_stairs: bool,
        rng: &mut StdRng,
    ) -> (r: Position)
        requires
            level.wf(),
            3 <= level.width,
            3 <= level.height,
            rooms_inside(level, rooms@),
            forall|i: int|
                0 <= i < rooms@.len() ==> (#[trigger] rooms@[i]).fits() && rooms@[i].width >= 1
                    && rooms@[i].height >= 1,
        ensures
            level.in_interior(r),
            (exists|q: Position| room_cell_wanted(level, rooms@, true, None, 0, q))
                ==> room_cell_wanted(level, rooms@, true, None, 0, r),
            !(exists|q: Position| room_cell_wanted(level, rooms@, true, None, 0, q)) ==> (if rooms@.len()
                > 0 {
                r == rooms@[0].center_spec()
            } else {
                r == (Position { x: (level.width / 2) as i32, y: (level.height / 2) as i32 })
            }),
            rooms@.len() > 0 ==> exists|i: int| 0 <= i < rooms@.len() && (#[trigger] rooms@[i]).holds(r),
    {
        let candidates = self.collect_room_cells(level, rooms, true, None, 0);
        if candidates.len() > 0 {
            let index = random_range(rng, 0, candidates.len() as u64) as usize;
            let pos = candidates[index];
            proof {
                assert(candidates@.contains(pos));
                lemma_wanted_inside(level, rooms@, true, None, 0, pos);
                let i = choose|i: int| 0 <= i < rooms@.len() && room_floor_holds(&#[trigger] rooms@[i], pos);
                assert(rooms@[i].holds(pos));
            }
            return pos;
        }
        proof {
            assert forall|q: Position| !room_cell_wanted(level, rooms@, true, None, 0, q) by {
                assert(!candidates@.contains(q));
            }
        }
        if rooms.len() > 0 {
            proof {
                crate::carving::lemma_center_inside(level, &rooms@[0]);
            }
            return rooms[0].center();
        }
        Position::new(level.width as i32 / 2, level.height as i32 / 2)
    }

    /// A cell for a staircase other than `avoid_position`: a random good
    /// stair cell inside a room at least five steps away if there is one,
    /// else any cell inside a room other than `avoid_position`, else a
    /// fixed cell in the quarter of the level opposite to it.
    pub fn find_stairs_position_avoiding(
        &self,
        level: &Level,
        rooms: &Vec<Room>,
        is_up_stairs: bool,
        avoid_position: Position,
        rng: &mut StdRng,
    ) -> (r: Position)
        requires
            level.wf(),
            4 <= level.width,
            4 <= level.height,
            level.in_bounds(avoid_position),
            rooms_inside(level, rooms@),
            forall|i: int| 0 <= i < rooms@.len() ==> (#[trigger] rooms@[i]).fits(),
        ensures
            level.in_bounds(r),
            5 <= level.width && 5 <= level.height ==> level.in_interior(r),
            r != avoid_position,
            (exists|q: Position| room_cell_wanted(level, rooms@, true, Some(avoid_position), 5, q))
                ==> room_cell_wanted(level, rooms@, true, Some(avoid_position), 5, r),
            !(exists|q: Position| room_cell_wanted(level, rooms@, true, Some(avoid_position), 5, q))
                ==> ((exists|q: Position| room_cell_wanted(level, rooms@, false, Some(avoid_position), 0, q))
                ==> room_cell_wanted(level, rooms@, false, Some(avoid_position), 0, r)),
            !(exists|q: Position| room_cell_wanted(level, rooms@, false, Some(avoid_position), 0, q))
                ==> r == (Position {
                x: (if avoid_position.x > level.width as int / 2 { level.width as int / 4 } else { (level.width as int * 3) / 4 }) as i32,
                y: (if avoid_position.y > level.height as int / 2 { level.height as int / 4 } else { (level.height as int * 3) / 4 }) as i32,
            }),
    {
        let candidates = self.collect_room_cells(level, rooms, true, Some(avoid_position), 5);
        if candidates.len() > 0 {
            let index = random_range(rng, 0, candidates.len() as u64) as usize;
            let pos = candidates[index];
            proof {
                assert(candidates@.contains(pos));
                lemma_wanted_inside(level, rooms@, true, Some(avoid_position), 5, pos);
                assert(room_cell_wanted(level, rooms@, false, Some(avoid_position), 0, pos));
            }
            return pos;
        }
        proof {
            assert forall|q: Position| !room_cell_wanted(level, rooms@, true, Some(avoid_position), 5, q) by {
                assert(!candidates@.contains(q));
            }
        }
        let fallback = self.collect_room_cells(level, rooms, false, Some(avoid_position), 0);
        proof {
            if fallback.len() == 0 {
                assert forall|q: Position| !room_cell_wanted(level, rooms@, false, Some(avoid_position), 0, q) by {
                    assert(!fallback@.contains(q));
                }
                if room_cell_wanted(level, rooms@, true, Some(avoid_position), 5, avoid_position) {
                }
            }
        }
        if fallback.len() > 0 {
            let index = random_range(rng, 0, fallback.len() as u64) as usize;
            let pos = fallback[index];
            proof {
                assert(fallback@.contains(pos));
                lemma_wanted_inside(level, rooms@, false, Some(avoid_position), 0, pos);
            }
            return pos;
        }
        let w = level.width as i32;
        let h = level.height as i32;
        Position::new(
            if avoid_position.x > w / 2 { w / 4 } else { (w * 3) / 4 },
            if avoid_position.y > h / 2 { h / 4 } else { (h * 3) / 4 },
        )
    }

    /// Places the staircases of a stand-alone level inside its rooms: the up
    /// staircase, where the player spawns, then, above the deepest floor, a
    /// down staircase away from it, joined to it by a corridor when no walk
    /// leads from one to the other. Without rooms the level is left as it
    /// is.
    pub fn add_stairs(
        &self,
        level: &mut Level,
        rooms: &Vec<Room>,
        config: &GenerationConfig,
        rng: &mut StdRng,
    ) -> (r: ThatchResult<()>)
        requires
            old(level).wf(),
            8 <= old(level).width,
            8 <= old(level).height,
            crate::corridor::walls_or_passable(old(level)),
            rooms_inside(old(level), rooms@),
            forall|i: int|
                0 <= i < rooms@.len() ==> (#[trigger] rooms@[i]).fits() && rooms@[i].width >= 1
                    && rooms@[i].height >= 1,
        ensures
            r is Ok,
            final(level).wf(),
            final(level).id == old(level).id,
            final(level).width == old(level).width,
            final(level).height == old(level).height,
            final(level).tiles@.len() == old(level).tiles@.len(),
            crate::corridor::walls_or_passable(final(level)),
            rooms@.len() == 0 ==> *final(level) == *old(level),
            rooms@.len() > 0 ==> stairs_up_placed(final(level)),
            rooms@.len() > 0 && old(level).id < 25 ==> stairs_down_placed(final(level)),
            rooms@.len() > 0 && old(level).id >= 25 ==> final(level).stairs_down_position
                == old(level).stairs_down_position,
            rooms@.len() > 0 ==> (final(level).stairs_up_position matches Some(u) && exists|i: int|
                0 <= i < rooms@.len() && (#[trigger] rooms@[i]).holds(u)),
            forall|p: Position|
                old(level).in_bounds(p) && final(level).stairs_up_position != Some(p)
                    && final(level).stairs_down_position != Some(p) ==> #[trigger] final(level).tile_at(p)
                    == old(level).tile_at(p) || final(level).tile_at(p) == Tile::floor_spec(),
            forall|p: Position|
                old(level).in_bounds(p) && !old(level).in_interior(p)
                    ==> #[trigger] final(level).tile_at(p) == old(level).tile_at(p),
    {
        if rooms.len() == 0 {
            return Ok(());
        }
        let ghost start = *level;
        let stairs_up_pos = self.place_up_stairs(level, rooms, rng);
        let ghost mid = *level;
        if level.id < 25 {
            self.place_down_stairs(level, rooms, stairs_up_pos, rng);
            proof {
                assert forall|p: Position|
                    start.in_bounds(p) && !start.in_interior(p) implies #[trigger] level.tile_at(p)
                    == start.tile_at(p) by {
                    assert(mid.tile_at(p) == start.tile_at(p));
                }
                assert forall|p: Position|
                    start.in_bounds(p) && level.stairs_up_position != Some(p)
                        && level.stairs_down_position != Some(p) implies #[trigger] level.tile_at(p)
                    == start.tile_at(p) || level.tile_at(p) == Tile::floor_spec() by {
                    assert(mid.tile_at(p) == start.tile_at(p));
                }
            }
        }
        Ok(())
    }

    /// Stamps the up staircase of a stand-alone level inside a room and
    /// spawns the player on it.
    fn place_up_stairs(&self, level: &mut Level, rooms: &Vec<Room>, rng: &mut StdRng) -> (u: Position)
        requires
            old(level).wf(),
            8 <= old(level).width,
            8 <= old(level).height,
            crate::corridor::walls_or_passable(old(level)),
            rooms@.len() > 0,
            rooms_inside(old(level), rooms@),
            forall|i: int|
                0 <= i < rooms@.len() ==> (#[trigger] rooms@[i]).fits() && rooms@[i].width >= 1
                    && rooms@[i].height >= 1,
        ensures
            final(level).wf(),
            final(level).id == old(level).id,
            final(level).width == old(level).width,
            final(level).height == old(level).height,
            final(level).tiles@.len() == old(level).tiles@.len(),
            final(level).stairs_down_position == old(level).stairs_down_position,
            final(level).stairs_up_position == Some(u),
            final(level).player_spawn == u,
            final(level).in_interior(u),
            final(level).kind_at(u) is StairsUp,
            exists|i: int| 0 <= i < rooms@.len() && (#[trigger] rooms@[i]).holds(u),
            crate::corridor::walls_or_passable(final(level)),
            forall|p: Position|
                old(level).in_bounds(p) && p != u ==> #[trigger] final(level).tile_at(p)
                    == old(level).tile_at(p),
    {
        let stairs_up_pos = self.find_stairs_position(level, rooms, true, rng);
        let ghost start = *level;
        level.stairs_up_position = Some(stairs_up_pos);
        level.player_spawn = stairs_up_pos;
        let ghost l0 = *level;
        proof {
            lemma_wop_frame(&start, &l0);
        }
        level.put(stairs_up_pos, Tile::new(TileType::StairsUp));
        proof {
            crate::carving::lemma_put_tile(&l0, &*level, stairs_up_pos, Tile::new_spec(TileType::StairsUp));
            lemma_stamp_keeps(&l0, &*level, stairs_up_pos);
        }
        stairs_up_pos
    }

    /// Stamps the down staircase of a stand-alone level inside a room, away
    /// from the up staircase, and joins the two by a corridor when no walk
    /// leads from one to the other.
    fn place_down_stairs(&self, level: &mut Level, rooms: &Vec<Room>, up: Position, rng: &mut StdRng)
        requires
            old(level).wf(),
            8 <= old(level).width,
            8 <= old(level).height,
            crate::corridor::walls_or_passable(old(level)),
            rooms_inside(old(level), rooms@),
            forall|i: int| 0 <= i < rooms@.len() ==> (#[trigger] rooms@[i]).fits(),
            old(level).in_interior(up),
            old(level).kind_at(up) is StairsUp,
            old(level).player_spawn == up,
            old(level).stairs_up_position == Some(up),
        ensures
            final(level).wf(),
            final(level).id == old(level).id,
            final(level).width == old(level).width,
            final(level).height == old(level).height,
            final(level).tiles@.len() == old(level).tiles@.len(),
            final(level).stairs_up_position == Some(up),
            final(level).player_spawn == up,
            final(level).kind_at(up) is StairsUp,
            stairs_down_placed(final(level)),
            crate::corridor::walls_or_passable(final(level)),
            forall|p: Position|
                old(level).in_bounds(p) && final(level).stairs_down_position != Some(p)
                    ==> #[trigger] final(level).tile_at(p) == old(level).tile_at(p)
                    || final(level).tile_at(p) == Tile::floor_spec(),
            forall|p: Position|
                old(level).in_bounds(p) && !old(level).in_interior(p)
                    ==> #[trigger] final(level).tile_at(p) == old(level).tile_at(p),
    {
        let stairs_down_pos = self.find_stairs_position_avoiding(level, rooms, false, up, rng);
        let ghost stamped_up = *level;
        level.stairs_down_position = Some(stairs_down_pos);
        let ghost l1 = *level;
        proof {
            lemma_wop_frame(&stamped_up, &l1);
        }
        level.put(stairs_down_pos, Tile::new(TileType::StairsDown));
        proof {
            crate::carving::lemma_put_tile(&l1, &*level, stairs_down_pos, Tile::new_spec(TileType::StairsDown));
            lemma_stamp_keeps(&l1, &*level, stairs_down_pos);
        }
        let ghost l2 = *level;
        if !crate::connectivity::has_path(level, up, stairs_down_pos) {
            let _ = self.create_stair_connection(level, up, stairs_down_pos);
            proof {
                crate::floor::lemma_carved_stairs(&l2, &*level);
                crate::corridor::lemma_carved_cells(&l2, &*level);
            }
        }
    }
}

/// The level has an up staircase inside its border, where the player
/// spawns; its tile is the staircase unless the down staircase shares it.
pub open spec fn stairs_up_placed(level: &Level) -> bool {
    level.stairs_up_position matches Some(u) && level.player_spawn == u && level.in_interior(u) && (
    level.kind_at(u) is StairsUp || level.stairs_down_position == Some(u))
}

/// The level has a down staircase inside its border that a walk from the
/// spawn point reaches.
pub open spec fn stairs_down_placed(level: &Level) -> bool {
    level.stairs_down_position matches Some(d) && level.kind_at(d) is StairsDown
        && level.in_interior(d) && connected(level, level.player_spawn, d)
}

/// `new` is `old` with every passable tile that no walk from the spawn
/// point reaches turned into a wall, staircases excepted.
pub open spec fn pruned_from(old: &Level, new: &Level) -> bool {
    &&& old.wf()
    &&& new.wf()
    &&& new.same_frame(old)
    &&& forall|q: Position|
        old.in_bounds(q) ==> #[trigger] new.tile_at(q) == pruned_tile(old, q)
}

/// The tile that pruning leaves at `q`.
pub open spec fn pruned_tile(old: &Level, q: Position) -> Tile {
    if old.kind_at(q) is StairsUp || old.kind_at(q) is StairsDown || !old.kind_at(q).passable()
        || connected(old, old.player_spawn, q) {
        old.tile_at(q)
    } else {
        Tile::wall_spec()
    }
}

/// Pruning keeps every walk from the spawn point.
pub proof fn lemma_pruned_connected(old: &Level, new: &Level, d: Position)
    requires
        pruned_from(old, new),
        connected(old, old.player_spawn, d),
    ensures
        connected(new, new.player_spawn, d),
{
    let s = old.player_spawn;
    let p = choose|p: Seq<Position>| is_walk(old, p) && p[0] == s && p.last() == d;
    assert forall|i: int| 1 <= i < p.len() implies new.passable_at(#[trigger] p[i])
        && crate::geometry::is_cardinal_step(p[i - 1], p[i]) by {
        lemma_walk_prefix(old, p, i);
        assert(old.passable_at(p[i]));
        assert(new.tile_at(p[i]) == old.tile_at(p[i]));
    }
    assert(is_walk(new, p));
}

/// Every cell of a walk is connected to its first cell.
proof fn lemma_walk_prefix(level: &Level, p: Seq<Position>, i: int)
    requires
        is_walk(level, p),
        0 <= i < p.len(),
    ensures
        connected(level, p[0], p[i]),
{
    let q = p.take(i + 1);
    assert forall|k: int| 1 <= k < q.len() implies level.passable_at(#[trigger] q[k])
        && crate::geometry::is_cardinal_step(q[k - 1], q[k]) by {
        assert(q[k] == p[k] && q[k - 1] == p[k - 1]);
    }
    assert(is_walk(level, q));
    assert(q[0] == p[0] && q.last() == p[i]);
}

impl RoomCorridorGenerator {
    /// Every passable cell that a walk from `start` reaches; nothing when
    /// `start` itself cannot be walked on.
    pub fn flood_fill_reachable(&self, level: &Level, start: Position) -> (r: ThatchResult<
        Vec<Position>,
    >)
        requires
            level.wf(),
        ensures
            r matches Ok(cells) && forall|q: Position|
                #[trigger] cells@.contains(q) <==> (level.passable_at(start) && connected(
                    level,
                    start,
                    q,
                )),
    {
        if !level.is_passable_at(start) {
            return Ok(Vec::new());
        }
        let (_, cells) = explore(level, start);
        Ok(cells)
    }

    /// Walls in every passable cell that no walk from the spawn point
    /// reaches, staircases excepted; fails, changing nothing, when the spawn
    /// point itself cannot be walked on.
    pub fn fill_unreachable_areas(&self, level: &mut Level) -> (r: ThatchResult<()>)
        requires
            old(level).wf(),
        ensures
            r is Ok <==> old(level).passable_at(old(level).player_spawn),
            r is Ok ==> pruned_from(old(level), final(level)),
            r is Err ==> *final(level) == *old(level),
            r matches Err(e) ==> e is GenerationFailed,
    {
        let spawn_pos = level.player_spawn;
        if !level.is_passable_at(spawn_pos) {
            return Err(ThatchError::GenerationFailed("Spawn position is not reachable".to_owned()));
        }
        let (reachable, _) = explore(level, spawn_pos);
        let ghost orig = *level;
        let mut y: i32 = 0;
        while (y as i64) < level.height as i64
            invariant
                orig.wf(),
                level.wf(),
                level.same_frame(&orig),
                spawn_pos == orig.player_spawn,
                reachable@.len() == orig.tiles@.len(),
                forall|q: Position|
                    orig.in_bounds(q) ==> (reachable@[cell_index(orig.width as int, q)]
                        <==> #[trigger] connected(&orig, spawn_pos, q)),
                0 <= y <= level.height,
                forall|q: Position|
                    orig.in_bounds(q) ==> #[trigger] level.tile_at(q) == if q.y < y {
                        pruned_tile(&orig, q)
                    } else {
                        orig.tile_at(q)
                    },
            decreases level.height - y,
        {
            let mut x: i32 = 0;
            while (x as i64) < level.width as i64
                invariant
                    orig.wf(),
                    level.wf(),
                    level.same_frame(&orig),
                    spawn_pos == orig.player_spawn,
                    reachable@.len() == orig.tiles@.len(),
                    forall|q: Position|
                        orig.in_bounds(q) ==> (reachable@[cell_index(orig.width as int, q)]
                            <==> #[trigger] connected(&orig, spawn_pos, q)),
                    0 <= y < level.height,
                    0 <= x <= level.width,
                    forall|q: Position|
                        orig.in_bounds(q) ==> #[trigger] level.tile_at(q) == if q.y < y || (q.y == y
                            && q.x < x) {
                            pruned_tile(&orig, q)
                        } else {
                            orig.tile_at(q)
                        },
                decreases level.width - x,
            {
                let pos = Position::new(x, y);
                let i = level.index(pos);
                proof {
                    assert(level.tile_at(pos) == orig.tile_at(pos));
                    assert(reachable@[i as int] <==> connected(&orig, spawn_pos, pos));
                }
                let kind = &level.tiles[i].tile_type;
                if !kind.is_stairs() && kind.is_passable() && !reachable[i] {
                    let ghost before = *level;
                    level.put(pos, Tile::wall());
                    proof {
                        crate::carving::lemma_put_tile(&before, &*level, pos, Tile::wall_spec());
                    }
                }
                x = x + 1;
            }
            y = y + 1;
        }
        Ok(())
    }
}

/// What a finished stand-alone level guarantees.
pub open spec fn single_ok(level: &Level, config: &GenerationConfig) -> bool {
    &&& level.wf()
    &&& level.id == 0
    &&& level.width == single_level_side(config)
    &&& level.height == single_level_side(config)
    &&& level.has_floor()
    &&& level.has_wall()
    &&& level.passable_at(level.player_spawn)
    &&& reaches_all_but_stairs(level)
    &&& (level.stairs_up_position matches Some(u) ==> level.player_spawn == u && connected(
        level,
        level.player_spawn,
        u,
    ))
    &&& (level.stairs_down_position matches Some(d) ==> connected(level, level.player_spawn, d))
}

impl RoomCorridorGenerator {
    /// The side of a stand-alone level for the configuration.
    pub fn single_level_side(&self, config: &GenerationConfig) -> (r: u32)
        requires
            config.wf(),
        ensures
            r == single_level_side(config),
            MIN_SINGLE_SIDE <= r <= MAX_SINGLE_SIDE,
    {
        proof {
            assert(2 * config.max_rooms * config.max_room_size <= 2 * 0xffff_ffff * 47) by (nonlinear_arith)
                requires
                    config.max_rooms <= 0xffff_ffff,
                    config.max_room_size <= 47,
            ;
        }
        let n: u64 = 2 * config.max_rooms as u64 * config.max_room_size as u64;
        let mut s: u64 = MAX_SINGLE_SIDE as u64;
        while s > 0 && s * s > n
            invariant
                s <= MAX_SINGLE_SIDE,
                s * s <= 40000,
                sqrt_below(n as int, MAX_SINGLE_SIDE as int) == sqrt_below(n as int, s as int),
                n == 2 * config.max_rooms * config.max_room_size,
            decreases s,
        {
            s = s - 1;
            proof {
                assert(s * s <= 40000) by (nonlinear_arith)
                    requires
                        s <= 200,
                ;
            }
        }
        proof {
            assert(sqrt_below(n as int, s as int) == s);
        }
        if s < MIN_SINGLE_SIDE as u64 {
            MIN_SINGLE_SIDE
        } else {
            s as u32
        }
    }

    /// Builds a stand-alone level: rooms placed at random, open floor
    /// everywhere inside the border, walls carved while the rooms stay
    /// connected, staircases placed inside the rooms, unreachable pockets
    /// walled in, and the staircases joined if they ended up apart.
    pub fn generate_single_floor(&self, config: &GenerationConfig, rng: &mut StdRng) -> (r:
        ThatchResult<Level>)
        requires
            config.wf(),
            self.placement_ok(config),
        ensures
            match r {
                Ok(level) => single_ok(&level, config),
                Err(e) => e is GenerationFailed,
            },
            config.min_rooms > 0 && config.min_room_size >= 2 && self.max_placement_attempts > 0
                && !(self.room_placement_strategy is GridBased) ==> r is Ok,
    {
        let side = self.single_level_side(config);
        let mut level = Level::new(0, side, side);
        let rooms = match self.place_rooms(&level, config, rng) {
            Ok(rooms) => rooms,
            Err(e) => {
                return Err(e);
            },
        };
        let ghost walls = level;
        proof {
            crate::floor::lemma_all_walls(&walls);
        }
        let _ = self.initialize_level_with_rooms(&mut level, &rooms);
        let ghost opened = level;
        proof {
            lemma_opened(&walls, &opened);
            assert forall|i: int| 0 <= i < rooms@.len() implies (#[trigger] rooms@[i]).width >= 1
                && rooms@[i].height >= 1 by {
                assert(crate::placement::room_size_ok(config, &rooms@[i]));
            }
            crate::floor::lemma_open_level_rooms_connected(&opened, rooms@);
        }
        let _ = self.carve_walls(&mut level, &rooms, rng, false);
        let ghost walled = level;
        proof {
            crate::floor::lemma_walled_keeps(&opened, &level, rooms@);
        }
        let _ = self.add_stairs(&mut level, &rooms, config, rng);
        let ghost staired = level;
        proof {
            lemma_stair_room_open(&opened, &walled, &staired, rooms@);
        }
        match self.fill_unreachable_areas(&mut level) {
            Ok(()) => {},
            Err(e) => {
                return Err(e);
            },
        }
        proof {
            if config.min_room_size >= 2 {
                lemma_pruning_leaves_floor(&staired, &level, rooms@);
            }
            lemma_pruned_keeps(&staired, &level);
            if let Some(d) = staired.stairs_down_position {
                lemma_pruned_connected(&staired, &level, d);
            }
        }
        let ghost pruned = level;
        proof {
            lemma_single_border_and_spawn(&walls, &opened, &walled, &staired, &pruned, rooms@);
            lemma_pruned_reach(&staired, &pruned);
        }
        match crate::floor::validate_level(&level) {
            Ok(()) => {},
            Err(e) => {
                return Err(e);
            },
        }
        if let (Some(stairs_up), Some(stairs_down)) = (level.stairs_up_position, level.stairs_down_position) {
            if !crate::connectivity::has_path(&level, stairs_up, stairs_down) {
                let ghost before = level;
                let _ = self.create_stair_connection(&mut level, stairs_up, stairs_down);
                proof {
                    crate::corridor::lemma_carved_keeps_floor(&before, &level);
                    crate::corridor::lemma_carved_keeps(&before, &level);
                    lemma_repair_reach(&before, &level, stairs_up);
                    let origin = Position { x: 0, y: 0 };
                    assert(level.tile_at(origin) == before.tile_at(origin));
                    assert(level.tiles@[0].tile_type is Wall);
                }
            }
        }
        proof {
            if let Some(u) = level.stairs_up_position {
                crate::connectivity::lemma_connected_refl(&level, u);
            }
        }
        Ok(level)
    }
}

/// A walk leads from the spawn point to every passable tile that is not a
/// staircase.
pub open spec fn reaches_all_but_stairs(level: &Level) -> bool {
    forall|q: Position|
        #[trigger] level.passable_at(q) && !(level.kind_at(q) is StairsUp) && !(level.kind_at(
            q,
        ) is StairsDown) ==> connected(level, level.player_spawn, q)
}

/// After pruning, every passable tile but the staircases is reached from
/// the spawn point.
proof fn lemma_pruned_reach(staired: &Level, pruned: &Level)
    requires
        pruned_from(staired, pruned),
    ensures
        reaches_all_but_stairs(pruned),
{
    assert forall|q: Position|
        #[trigger] pruned.passable_at(q) && !(pruned.kind_at(q) is StairsUp) && !(pruned.kind_at(
            q,
        ) is StairsDown) implies connected(pruned, pruned.player_spawn, q) by {
        assert(pruned.tile_at(q) == pruned_tile(staired, q));
        assert(connected(staired, staired.player_spawn, q));
        lemma_pruned_connected(staired, pruned, q);
    }
}

/// A corridor from the spawn point keeps every non-staircase passable tile
/// reached from it.
proof fn lemma_repair_reach(before: &Level, after: &Level, u: Position)
    requires
        reaches_all_but_stairs(before),
        crate::corridor::carved_from(before, after),
        before.player_spawn == u,
        forall|p: Position|
            before.in_bounds(p) && #[trigger] after.tile_at(p) != before.tile_at(p) ==> connected(
                after,
                u,
                p,
            ),
    ensures
        reaches_all_but_stairs(after),
{
    crate::corridor::lemma_carved_keeps(before, after);
    assert forall|q: Position|
        #[trigger] after.passable_at(q) && !(after.kind_at(q) is StairsUp) && !(after.kind_at(
            q,
        ) is StairsDown) implies connected(after, after.player_spawn, q) by {
        if after.tile_at(q) == before.tile_at(q) {
            assert(before.passable_at(q));
            assert(connected(before, u, q));
            crate::connectivity::lemma_connected_mono(before, after, u, q);
        }
    }
}

/// A wanted room cell lies inside the level's border.
proof fn lemma_wanted_inside(
    level: &Level,
    rooms: Seq<Room>,
    need_good: bool,
    avoid: Option<Position>,
    min_distance: u32,
    q: Position,
)
    requires
        rooms_inside(level, rooms),
        room_cell_wanted(level, rooms, need_good, avoid, min_distance, q),
    ensures
        level.in_interior(q),
{
    let i = choose|i: int| 0 <= i < rooms.len() && room_floor_holds(&#[trigger] rooms[i], q);
    assert(crate::placement::room_in_interior(level, &rooms[i]));
}

/// Being made of walls and passable tiles depends on the tiles alone.
proof fn lemma_wop_frame(a: &Level, b: &Level)
    requires
        crate::corridor::walls_or_passable(a),
        b.width == a.width,
        b.height == a.height,
        b.tiles@ == a.tiles@,
    ensures
        crate::corridor::walls_or_passable(b),
{
    assert forall|q: Position| b.in_bounds(q) implies (#[trigger] b.kind_at(q)) is Wall
        || b.kind_at(q).passable() by {
        assert(a.kind_at(q) == b.kind_at(q));
    }
}

/// Stamping a staircase keeps the level made of walls and passable tiles.
proof fn lemma_stamp_keeps(a: &Level, b: &Level, p: Position)
    requires
        a.wf(),
        b.wf(),
        b.same_frame(a),
        a.in_bounds(p),
        b.kind_at(p) is StairsUp || b.kind_at(p) is StairsDown,
        forall|q: Position| a.in_bounds(q) && q != p ==> #[trigger] b.tile_at(q) == a.tile_at(q),
        crate::corridor::walls_or_passable(a),
    ensures
        crate::corridor::walls_or_passable(b),
{
    assert forall|q: Position| b.in_bounds(q) implies (#[trigger] b.kind_at(q)) is Wall
        || b.kind_at(q).passable() by {
        if q != p {
            assert(b.tile_at(q) == a.tile_at(q));
            assert(a.kind_at(q) is Wall || a.kind_at(q).passable());
        }
    }
}

/// Opening a level of walls leaves its interior passable and its tiles
/// walls or passable.
proof fn lemma_opened(walls: &Level, opened: &Level)
    requires
        crate::corridor::walls_or_passable(walls),
        opened.wf(),
        opened.same_frame(walls),
        forall|p: Position| opened.in_interior(p) ==> #[trigger] opened.tile_at(p) == Tile::floor_spec(),
        forall|p: Position|
            walls.in_bounds(p) && !walls.in_interior(p) ==> #[trigger] opened.tile_at(p)
                == walls.tile_at(p),
    ensures
        crate::corridor::walls_or_passable(opened),
        forall|p: Position| opened.in_interior(p) ==> #[trigger] opened.passable_at(p),
{
    assert forall|p: Position| opened.in_bounds(p) implies (#[trigger] opened.kind_at(p)) is Wall
        || opened.kind_at(p).passable() by {
        assert(walls.kind_at(p) is Wall || walls.kind_at(p).passable());
        if opened.in_interior(p) {
            assert(opened.tile_at(p) == Tile::floor_spec());
        } else {
            assert(opened.tile_at(p) == walls.tile_at(p));
        }
    }
    assert forall|p: Position| opened.in_interior(p) implies #[trigger] opened.passable_at(p) by {
        assert(opened.tile_at(p) == Tile::floor_spec());
    }
}

/// Pruning only turns tiles into walls.
proof fn lemma_pruned_keeps(a: &Level, b: &Level)
    requires
        pruned_from(a, b),
        crate::corridor::walls_or_passable(a),
    ensures
        crate::corridor::walls_or_passable(b),
{
    assert forall|q: Position| b.in_bounds(q) implies (#[trigger] b.kind_at(q)) is Wall
        || b.kind_at(q).passable() by {
        assert(b.tile_at(q) == pruned_tile(a, q));
        assert(a.kind_at(q) is Wall || a.kind_at(q).passable());
    }
}

/// Every cell of the room can be walked on, and each one that is not a
/// staircase position is fresh floor.
pub open spec fn room_open(level: &Level, room: &Room) -> bool {
    forall|p: Position|
        room.holds(p) ==> level.passable_at(p) && (level.stairs_up_position != Some(p)
            && level.stairs_down_position != Some(p) ==> #[trigger] level.tile_at(p)
            == Tile::floor_spec())
}

/// After the staircases are placed, the room holding the up staircase is
/// open: its staircase cells are staircases, and its other cells fresh
/// floor.
proof fn lemma_stair_room_open(opened: &Level, walled: &Level, staired: &Level, rooms: Seq<Room>)
    requires
        opened.wf(),
        forall|p: Position| opened.in_interior(p) ==> #[trigger] opened.tile_at(p) == Tile::floor_spec(),
        crate::carving::walled_from(opened, walled, rooms),
        rooms.len() > 0,
        rooms_inside(opened, rooms),
        staired.wf(),
        staired.width == walled.width,
        staired.height == walled.height,
        stairs_up_placed(staired),
        staired.stairs_up_position matches Some(u) && exists|i: int|
            0 <= i < rooms.len() && (#[trigger] rooms[i]).holds(u),
        staired.id < 25,
        stairs_down_placed(staired),
        forall|p: Position|
            walled.in_bounds(p) && staired.stairs_up_position != Some(p)
                && staired.stairs_down_position != Some(p) ==> #[trigger] staired.tile_at(p)
                == walled.tile_at(p) || staired.tile_at(p) == Tile::floor_spec(),
    ensures
        staired.stairs_up_position matches Some(u) && exists|i: int|
            0 <= i < rooms.len() && (#[trigger] rooms[i]).holds(u) && room_open(staired, &rooms[i]),
        staired.passable_at(staired.player_spawn),
{
    let u = staired.stairs_up_position.unwrap();
    let i = choose|i: int| 0 <= i < rooms.len() && (#[trigger] rooms[i]).holds(u);
    let room = rooms[i];
    assert(crate::placement::room_in_interior(opened, &room));
    assert forall|p: Position| room.holds(p) implies staired.passable_at(p) && (
    staired.stairs_up_position != Some(p) && staired.stairs_down_position != Some(p)
        ==> #[trigger] staired.tile_at(p) == Tile::floor_spec()) by {
        assert(opened.in_interior(p));
        assert(crate::carving::in_any_room(rooms, p));
        assert(walled.tile_at(p) == opened.tile_at(p));
        if staired.stairs_up_position == Some(p) {
        } else if staired.stairs_down_position == Some(p) {
        } else {
            assert(staired.tile_at(p) == walled.tile_at(p) || staired.tile_at(p) == Tile::floor_spec());
        }
    }
}

/// Pruning keeps the open room around the spawn point, and with it a
/// floor tile: a room two cells wide and high has a cell that is neither
/// staircase.
proof fn lemma_pruning_leaves_floor(staired: &Level, pruned: &Level, rooms: Seq<Room>)
    requires
        pruned_from(staired, pruned),
        staired.stairs_up_position matches Some(u) && staired.player_spawn == u && exists|i: int|
            0 <= i < rooms.len() && (#[trigger] rooms[i]).holds(u) && room_open(staired, &rooms[i]),
        forall|i: int|
            0 <= i < rooms.len() ==> (#[trigger] rooms[i]).width >= 2 && rooms[i].height >= 2
                && rooms[i].fits(),
    ensures
        pruned.has_floor(),
{
    let u = staired.player_spawn;
    let i = choose|i: int|
        0 <= i < rooms.len() && (#[trigger] rooms[i]).holds(u) && room_open(staired, &rooms[i]);
    let room = rooms[i];
    let c1 = room.top_left;
    let c2 = Position { x: (room.top_left.x + 1) as i32, y: room.top_left.y };
    let c3 = Position { x: room.top_left.x, y: (room.top_left.y + 1) as i32 };
    let d = staired.stairs_down_position;
    let q = if Some(c1) != staired.stairs_up_position && Some(c1) != d {
        c1
    } else if Some(c2) != staired.stairs_up_position && Some(c2) != d {
        c2
    } else {
        c3
    };
    assert(room.holds(q));
    assert(staired.tile_at(q) == Tile::floor_spec());
    assert forall|p: Position|
        room.top_left.x <= p.x <= room.top_left.x + room.width - 1 && room.top_left.y <= p.y
            <= room.top_left.y + room.height - 1 implies #[trigger] staired.passable_at(p) by {
        assert(room.holds(p));
    }
    crate::connectivity::lemma_rect_connected(
        staired,
        room.top_left.x as int,
        room.top_left.x + room.width - 1,
        room.top_left.y as int,
        room.top_left.y + room.height - 1,
        u,
        q,
    );
    assert(pruned.tile_at(q) == pruned_tile(staired, q));
    crate::level::lemma_cell_index_bounds(staired.width as int, staired.height as int, q.x as int, q.y as int);
    assert(pruned.tiles@[cell_index(staired.width as int, q)].tile_type is Floor);
}

/// The corner of a stand-alone level stays a wall through every stage,
/// and the spawn point survives pruning.
proof fn lemma_single_border_and_spawn(
    walls: &Level,
    opened: &Level,
    walled: &Level,
    staired: &Level,
    pruned: &Level,
    rooms: Seq<Room>,
)
    requires
        walls.wf(),
        forall|i: int| 0 <= i < walls.tiles@.len() ==> (#[trigger] walls.tiles@[i]).tile_type is Wall,
        opened.same_frame(walls),
        forall|p: Position|
            walls.in_bounds(p) && !walls.in_interior(p) ==> #[trigger] opened.tile_at(p)
                == walls.tile_at(p),
        crate::carving::walled_from(opened, walled, rooms),
        staired.width == walled.width,
        staired.height == walled.height,
        forall|p: Position|
            walled.in_bounds(p) && !walled.in_interior(p) ==> #[trigger] staired.tile_at(p)
                == walled.tile_at(p),
        staired.passable_at(staired.player_spawn),
        pruned_from(staired, pruned),
    ensures
        pruned.has_wall(),
        pruned.passable_at(pruned.player_spawn),
{
    let origin = Position { x: 0, y: 0 };
    assert(walls.width * walls.height >= 1) by (nonlinear_arith)
        requires
            walls.width >= 1,
            walls.height >= 1,
    ;
    assert(walls.tiles@[0].tile_type is Wall);
    assert(cell_index(walls.width as int, origin) == 0) by (nonlinear_arith)
        requires
            origin.x == 0,
            origin.y == 0,
    ;
    assert(opened.tile_at(origin) == walls.tile_at(origin));
    assert(walled.tile_at(origin) == opened.tile_at(origin));
    assert(staired.tile_at(origin) == walled.tile_at(origin));
    assert(staired.kind_at(origin) is Wall);
    assert(!staired.kind_at(origin).passable());
    assert(pruned.tile_at(origin) == pruned_tile(staired, origin));
    assert(cell_index(pruned.width as int, origin) == 0);
    assert(pruned.tiles@[0].tile_type is Wall);
    let u = staired.player_spawn;
    assert(pruned.tile_at(u) == pruned_tile(staired, u));
    crate::connectivity::lemma_connected_refl(staired, u);
}

} // verus!
