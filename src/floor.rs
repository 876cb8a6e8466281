//! Building one floor of a dungeon around its planned staircases.
use vstd::prelude::*;
use rand::rngs::StdRng;
use crate::geometry::Position;
use crate::room::{Room, RoomType};
use crate::level::{Level, Tile, TileType, cell_index};
use crate::config::GenerationConfig;
use crate::generator::RoomCorridorGenerator;
use crate::carving::{rooms_inside, rooms_connected, walled_from, in_any_room, lemma_center_inside};
use crate::corridor::{walls_or_passable, carved_from};
use crate::stairs::{StairPair, stair_plan_ok, in_stair_area, FLOOR_COUNT, FLOOR_WIDTH, FLOOR_HEIGHT};
use crate::connectivity::{connected, has_path, lemma_connected_refl, lemma_rect_connected};
use crate::error::{ThatchError, ThatchResult};
use crate::random::random_range;

verus! {

/// Relies on `format!`: a readable account of a floor that came out without
/// a passable tile.
#[verifier::external_body]
fn describe_empty_floor(
    floor_id: u32,
    room_count: usize,
    spawn: Position,
    up: Option<Position>,
    down: Option<Position>,
) -> String {
    format!(
        "Floor {} generation resulted in no passable tiles. Rooms: {}, Spawn: {:?}, Up stairs: {:?}, Down stairs: {:?}",
        floor_id, room_count, spawn, up, down
    )
}

/// In a level whose interior is open, the first room's centre reaches
/// every other room's centre.
pub proof fn lemma_open_level_rooms_connected(level: &Level, rooms: Seq<Room>)
    requires
        level.wf(),
        forall|p: Position| level.in_interior(p) ==> #[trigger] level.passable_at(p),
        rooms_inside(level, rooms),
        forall|i: int| 0 <= i < rooms.len() ==> (#[trigger] rooms[i]).width >= 1 && rooms[i].height >= 1,
    ensures
        rooms_connected(level, rooms),
{
    assert forall|j: int| 1 <= j < rooms.len() implies connected(
        level,
        rooms[0].center_spec(),
        (#[trigger] rooms[j]).center_spec(),
    ) by {
        lemma_center_inside(level, &rooms[0]);
        lemma_center_inside(level, &rooms[j]);
        lemma_rect_connected(
            level,
            1,
            level.width - 2,
            1,
            level.height - 2,
            rooms[0].center_spec(),
            rooms[j].center_spec(),
        );
    }
}

/// Some cell of the level can be walked on.
pub open spec fn has_passable(level: &Level) -> bool {
    exists|i: int| 0 <= i < level.tiles@.len() && (#[trigger] level.tiles@[i]).tile_type.passable()
}

/// Whether some cell of the level can be walked on.
pub fn any_passable(level: &Level) -> (r: bool)
    ensures
        r == has_passable(level),
{
    let mut i: usize = 0;
    while i < level.tiles.len()
        invariant
            i <= level.tiles@.len(),
            forall|k: int| 0 <= k < i ==> !(#[trigger] level.tiles@[k]).tile_type.passable(),
        decreases level.tiles@.len() - i,
    {
        if level.tiles[i].tile_type.is_passable() {
            return true;
        }
        i = i + 1;
    }
    false
}

/// Checks that the level holds at least one floor tile.
pub fn validate_level(level: &Level) -> (r: ThatchResult<()>)
    ensures
        r is Ok <==> level.has_floor(),
        r matches Err(e) ==> e is GenerationFailed,
{
    let mut i: usize = 0;
    while i < level.tiles.len()
        invariant
            i <= level.tiles@.len(),
            forall|k: int| 0 <= k < i ==> !((#[trigger] level.tiles@[k]).tile_type is Floor),
        decreases level.tiles@.len() - i,
    {
        if level.tiles[i].tile_type.is_floor() {
            return Ok(());
        }
        i = i + 1;
    }
    Err(ThatchError::GenerationFailed("Level has no floor tiles".to_owned()))
}

/// What a finished dungeon floor guarantees: its shape, its identity, its
/// staircases as planned and stamped, and a walk from the spawn point to
/// each staircase.
pub open spec fn floor_ok(level: &Level, floor_id: u32, stairs: StairPair) -> bool {
    &&& level.wf()
    &&& level.id == floor_id
    &&& level.width == FLOOR_WIDTH
    &&& level.height == FLOOR_HEIGHT
    &&& level.stairs_up_position == stairs.0
    &&& level.stairs_down_position == stairs.1
    &&& (stairs.0 matches Some(u) ==> (level.kind_at(u) is StairsUp || stairs.1 == Some(u))
        && level.player_spawn == u && connected(level, level.player_spawn, u))
    &&& (stairs.1 matches Some(d) ==> level.kind_at(d) is StairsDown && connected(
        level,
        level.player_spawn,
        d,
    ))
    &&& level.has_floor()
    &&& level.has_wall()
    &&& level.passable_at(level.player_spawn)
    &&& exists|rooms: Seq<Room>| floor_rooms(level, rooms)
}

/// The rooms a floor was built from: at least one, all inside the border,
/// each cell of each room walkable, and a walk from the first room's centre
/// to every other room's centre.
pub open spec fn floor_rooms(level: &Level, rooms: Seq<Room>) -> bool {
    &&& rooms.len() >= 1
    &&& rooms_inside(level, rooms)
    &&& forall|p: Position| level.in_interior(p) && in_any_room(rooms, p) ==> #[trigger] level.passable_at(p)
    &&& rooms_connected(level, rooms)
}

impl RoomCorridorGenerator {
    /// The rooms of a dungeon floor: one around each staircase, the first
    /// around the up staircase when there is one, then two to five more,
    /// each given a bounded number of tries; a fixed central room if none
    /// could be placed.
    fn plan_floor_rooms(
        &self,
        level: &Level,
        stairs_up_pos: Option<Position>,
        stairs_down_pos: Option<Position>,
        config: &GenerationConfig,
        rng: &mut StdRng,
    ) -> (rooms: Vec<Room>)
        requires
            config.wf(),
            self.placement_ok(config),
            level.wf(),
            level.width == FLOOR_WIDTH,
            level.height == FLOOR_HEIGHT,
            stairs_up_pos matches Some(u) ==> in_stair_area(u),
            stairs_down_pos matches Some(d) ==> in_stair_area(d),
        ensures
            rooms@.len() >= 1,
            rooms_inside(level, rooms@),
            forall|i: int|
                0 <= i < rooms@.len() ==> (#[trigger] rooms@[i]).fits() && rooms@[i].width >= 1
                    && rooms@[i].height >= 1,
            stairs_up_pos matches Some(u) ==> rooms@[0].holds(u),
            stairs_up_pos is None ==> (stairs_down_pos matches Some(d) ==> rooms@[0].holds(d)),
    {
        let mut rooms: Vec<Room> = Vec::new();
        let mut room_id: u32 = 0;
        if let Some(up_pos) = stairs_up_pos {
            let room = self.create_room_around_position(room_id, up_pos, config, rng, level);
            rooms.push(room);
            room_id = room_id + 1;
        }
        if let Some(down_pos) = stairs_down_pos {
            let room = self.create_room_around_position(room_id, down_pos, config, rng, level);
            rooms.push(room);
            room_id = room_id + 1;
        }
        let target_additional = random_range(rng, 2, 6) as usize;
        let max_attempts: usize = target_additional * 10;
        let target_total: usize = target_additional + if stairs_up_pos.is_some() { 1 } else { 0 }
            + if stairs_down_pos.is_some() { 1 } else { 0 };
        let mut attempts: usize = 0;
        while rooms.len() < target_total && attempts < max_attempts
            invariant
                config.wf(),
                self.placement_ok(config),
                level.wf(),
                level.width == FLOOR_WIDTH,
                level.height == FLOOR_HEIGHT,
                room_id <= 2 + attempts,
                max_attempts <= 50,
                rooms@.len() <= room_id,
                rooms_inside(level, rooms@),
                forall|i: int|
                    0 <= i < rooms@.len() ==> (#[trigger] rooms@[i]).fits() && rooms@[i].width >= 1
                        && rooms@[i].height >= 1,
                stairs_up_pos matches Some(u) ==> rooms@.len() >= 1 && rooms@[0].holds(u),
                stairs_up_pos is None ==> (stairs_down_pos matches Some(d) ==> rooms@.len() >= 1
                    && rooms@[0].holds(d)),
            decreases max_attempts - attempts,
        {
            if let Some(room) = self.try_place_room_overlapping(level, config, rng, room_id) {
                rooms.push(room);
                room_id = room_id + 1;
            }
            attempts = attempts + 1;
        }
        if rooms.len() == 0 {
            let center_room = Room::new(
                room_id,
                Position::new(FLOOR_WIDTH as i32 / 2 - 5, FLOOR_HEIGHT as i32 / 2 - 5),
                10,
                10,
                RoomType::Normal,
            );
            rooms.push(center_room);
        }
        rooms
    }

    /// Opens the interior of a level of walls and stamps its staircases.
    fn open_and_stamp(
        &self,
        level: &mut Level,
        rooms: &Vec<Room>,
        stairs_up_pos: Option<Position>,
        stairs_down_pos: Option<Position>,
    )
        requires
            old(level).wf(),
            forall|i: int|
                0 <= i < old(level).tiles@.len() ==> (#[trigger] old(level).tiles@[i]).tile_type is Wall,
            stairs_up_pos matches Some(u) ==> old(level).in_interior(u),
            stairs_down_pos matches Some(d) ==> old(level).in_interior(d),
        ensures
            final(level).wf(),
            final(level).same_frame(old(level)),
            walls_or_passable(final(level)),
            forall|p: Position| final(level).in_interior(p) ==> #[trigger] final(level).passable_at(p),
            stairs_up_pos matches Some(u) ==> final(level).kind_at(u) is StairsUp || stairs_down_pos
                == Some(u),
            stairs_down_pos matches Some(d) ==> final(level).kind_at(d) is StairsDown,
            forall|p: Position|
                final(level).in_interior(p) && stairs_up_pos != Some(p) && stairs_down_pos != Some(p)
                    ==> (#[trigger] final(level).kind_at(p)) is Floor,
            forall|p: Position|
                old(level).in_bounds(p) && !old(level).in_interior(p)
                    ==> #[trigger] final(level).tile_at(p) == old(level).tile_at(p),
    {
        let ghost walls = *level;
        proof {
            lemma_all_walls(&walls);
        }
        let _ = self.initialize_level_with_rooms(level, rooms);
        let ghost opened = *level;
        if let Some(up_pos) = stairs_up_pos {
            level.put(up_pos, Tile::new(TileType::StairsUp));
            proof {
                crate::carving::lemma_put_tile(&opened, &*level, up_pos, Tile::new_spec(TileType::StairsUp));
            }
        }
        let ghost mid = *level;
        if let Some(down_pos) = stairs_down_pos {
            level.put(down_pos, Tile::new(TileType::StairsDown));
            proof {
                crate::carving::lemma_put_tile(&mid, &*level, down_pos, Tile::new_spec(TileType::StairsDown));
            }
        }
        proof {
            lemma_stamped_open(&walls, &opened, &mid, &*level, stairs_up_pos, stairs_down_pos);
        }
    }

    /// Rejoins the two staircases of a floor, when it has both, by a
    /// straight corridor if no walk leads from one to the other.
    fn join_stairs(&self, level: &mut Level, stairs_up_pos: Option<Position>, stairs_down_pos: Option<
        Position,
    >)
        requires
            old(level).wf(),
            walls_or_passable(old(level)),
            stairs_up_pos matches Some(u) ==> old(level).in_interior(u),
            stairs_down_pos matches Some(d) ==> old(level).in_interior(d),
        ensures
            carved_from(old(level), final(level)),
            walls_or_passable(final(level)),
            !(stairs_up_pos is Some && stairs_down_pos is Some) ==> final(level).tiles@ == old(
                level,
            ).tiles@,
            stairs_up_pos matches Some(u) ==> (stairs_down_pos matches Some(d) ==> connected(
                final(level),
                u,
                d,
            )),
    {
        proof {
            crate::corridor::lemma_carved_refl(&*level);
        }
        if let (Some(up_pos), Some(down_pos)) = (stairs_up_pos, stairs_down_pos) {
            if !has_path(level, up_pos, down_pos) {
                let _ = self.create_stair_connection(level, up_pos, down_pos);
            }
        }
    }

    /// Builds floor `floor_id` of a dungeon around the staircases the plan
    /// gives it: a room around each staircase, two to five more rooms, open
    /// floor everywhere inside the border, the staircases stamped, walls
    /// carved while the rooms stay connected, and a straight corridor
    /// between the staircases if carving separated them. The result is
    /// checked to hold a floor tile, which carving always leaves, so this
    /// never fails.
    pub fn generate_floor_with_stairs(
        &self,
        floor_id: u32,
        stair_positions: &Vec<StairPair>,
        config: &GenerationConfig,
        rng: &mut StdRng,
    ) -> (r: ThatchResult<Level>)
        requires
            config.wf(),
            self.placement_ok(config),
            stair_plan_ok(stair_positions@),
            floor_id < FLOOR_COUNT,
        ensures
            r matches Ok(level) && floor_ok(&level, floor_id, stair_positions@[floor_id as int]),
    {
        let mut level = Level::new(floor_id, FLOOR_WIDTH, FLOOR_HEIGHT);
        let (stairs_up_pos, stairs_down_pos) = stair_positions[floor_id as usize];
        proof {
            assert(stair_positions@[floor_id as int].0 matches Some(p) ==> in_stair_area(p));
            assert(stair_positions@[floor_id as int].1 matches Some(p) ==> in_stair_area(p));
        }
        level.stairs_up_position = stairs_up_pos;
        level.stairs_down_position = stairs_down_pos;
        let rooms = self.plan_floor_rooms(&level, stairs_up_pos, stairs_down_pos, config, rng);
        level.player_spawn = match stairs_up_pos {
            Some(up_pos) => up_pos,
            None => rooms[0].center(),
        };
        let ghost walls = level;
        self.open_and_stamp(&mut level, &rooms, stairs_up_pos, stairs_down_pos);
        let ghost stamped = level;
        proof {
            lemma_open_level_rooms_connected(&stamped, rooms@);
            let corner = Position { x: 1, y: 1 };
            assert(stamped.kind_at(corner) is Floor);
            assert(stamped.tiles@[cell_index(FLOOR_WIDTH as int, corner)].tile_type is Floor);
        }
        let _ = self.carve_walls(&mut level, &rooms, rng, true);
        let ghost walled = level;
        proof {
            lemma_walled_keeps(&stamped, &walled, rooms@);
        }
        self.join_stairs(&mut level, stairs_up_pos, stairs_down_pos);
        proof {
            let origin = Position { x: 0, y: 0 };
            assert(walls.tiles@[0].tile_type is Wall);
            assert(stamped.tile_at(origin) == walls.tile_at(origin));
            assert(walled.tile_at(origin) == stamped.tile_at(origin));
            assert(level.tile_at(origin) == walled.tile_at(origin));
            assert(level.tiles@[0].tile_type is Wall);
            crate::corridor::lemma_carved_keeps_floor(&walled, &level);
            let i = choose|i: int| 0 <= i < level.tiles@.len() && level.tiles@[i].tile_type is Floor;
            assert(level.tiles@[i].tile_type.passable());
            lemma_floor_done(&stamped, &walled, &level, rooms@, stairs_up_pos, stairs_down_pos);
            lemma_walled_keeps(&stamped, &walled, rooms@);
            crate::corridor::lemma_carved_keeps(&walled, &level);
            crate::carving::lemma_rooms_connected_mono(&walled, &level, rooms@);
            assert(floor_rooms(&level, rooms@));
        }
        if !any_passable(&level) {
            return Err(
                ThatchError::GenerationFailed(
                    describe_empty_floor(
                        floor_id,
                        rooms.len(),
                        level.player_spawn,
                        stairs_up_pos,
                        stairs_down_pos,
                    ),
                ),
            );
        }
        match validate_level(&level) {
            Ok(()) => Ok(level),
            Err(e) => Err(e),
        }
    }
}

/// The spawn point of a finished floor reaches each of its staircases:
/// it is the up staircase itself when there is one; otherwise it is the
/// centre of the room built around the down staircase, whose cells carving
/// left open.
proof fn lemma_spawn_reaches_stairs(
    stamped: &Level,
    walled: &Level,
    level: &Level,
    rooms: Seq<Room>,
    up: Option<Position>,
    down: Option<Position>,
)
    requires
        stamped.wf(),
        walled.same_frame(stamped),
        level.same_frame(walled),
        rooms.len() >= 1,
        rooms_inside(stamped, rooms),
        forall|i: int|
            0 <= i < rooms.len() ==> (#[trigger] rooms[i]).fits() && rooms[i].width >= 1
                && rooms[i].height >= 1,
        up matches Some(u) ==> rooms[0].holds(u) && stamped.player_spawn == u,
        up is None ==> (down matches Some(d) ==> rooms[0].holds(d)),
        up is None ==> stamped.player_spawn == rooms[0].center_spec(),
        up is None ==> level.tiles@ == walled.tiles@,
        forall|p: Position| stamped.in_interior(p) && in_any_room(rooms, p) ==> #[trigger] walled.passable_at(p),
        up matches Some(u) ==> (down matches Some(d) ==> connected(level, u, d)),
    ensures
        up matches Some(u) ==> connected(level, level.player_spawn, u),
        down matches Some(d) ==> connected(level, level.player_spawn, d),
        up is None && down is Some ==> level.passable_at(level.player_spawn),
{
    if let Some(u) = up {
        lemma_connected_refl(level, u);
    } else if let Some(d) = down {
        let room = rooms[0];
        lemma_center_inside(stamped, &room);
        assert forall|p: Position|
            room.top_left.x <= p.x <= room.top_left.x + room.width - 1 && room.top_left.y <= p.y
                <= room.top_left.y + room.height - 1 implies #[trigger] level.passable_at(p) by {
            assert(room.holds(p));
            assert(in_any_room(rooms, p));
            assert(walled.passable_at(p));
        }
        lemma_rect_connected(
            level,
            room.top_left.x as int,
            room.top_left.x + room.width - 1,
            room.top_left.y as int,
            room.top_left.y + room.height - 1,
            room.center_spec(),
            d,
        );
    }
}

/// A level of walls only holds walls and passable tiles.
pub proof fn lemma_all_walls(level: &Level)
    requires
        level.wf(),
        forall|i: int| 0 <= i < level.tiles@.len() ==> (#[trigger] level.tiles@[i]).tile_type is Wall,
    ensures
        walls_or_passable(level),
{
    assert forall|p: Position| level.in_bounds(p) implies (#[trigger] level.kind_at(p)) is Wall
        || level.kind_at(p).passable() by {
        crate::level::lemma_cell_index_bounds(level.width as int, level.height as int, p.x as int, p.y as int);
    }
}

/// Stamping the planned staircases into an opened level of walls keeps its
/// interior passable and its tiles walls or passable, and puts each
/// staircase where it is planned, the down staircase winning a shared cell.
proof fn lemma_stamped_open(
    walls: &Level,
    opened: &Level,
    mid: &Level,
    stamped: &Level,
    up: Option<Position>,
    down: Option<Position>,
)
    requires
        walls_or_passable(walls),
        opened.wf(),
        opened.same_frame(walls),
        forall|p: Position| opened.in_interior(p) ==> #[trigger] opened.tile_at(p) == Tile::floor_spec(),
        forall|p: Position|
            walls.in_bounds(p) && !walls.in_interior(p) ==> #[trigger] opened.tile_at(p)
                == walls.tile_at(p),
        up matches Some(u) ==> opened.in_interior(u) && mid.tile_at(u) == Tile::new_spec(TileType::StairsUp)
            && forall|q: Position| opened.in_bounds(q) && q != u ==> #[trigger] mid.tile_at(q) == opened.tile_at(q),
        up is None ==> mid.tiles@ == opened.tiles@,
        mid.wf(),
        mid.same_frame(opened),
        down matches Some(d) ==> opened.in_interior(d) && stamped.tile_at(d) == Tile::new_spec(TileType::StairsDown)
            && forall|q: Position| opened.in_bounds(q) && q != d ==> #[trigger] stamped.tile_at(q) == mid.tile_at(q),
        down is None ==> stamped.tiles@ == mid.tiles@,
        stamped.wf(),
        stamped.same_frame(mid),
    ensures
        walls_or_passable(stamped),
        forall|p: Position| stamped.in_interior(p) ==> #[trigger] stamped.passable_at(p),
        up matches Some(u) ==> stamped.kind_at(u) is StairsUp || down == Some(u),
        down matches Some(d) ==> stamped.kind_at(d) is StairsDown,
        forall|p: Position|
            stamped.in_interior(p) && up != Some(p) && down != Some(p) ==> (#[trigger] stamped.kind_at(
                p,
            )) is Floor,
        forall|p: Position|
            walls.in_bounds(p) && !walls.in_interior(p) ==> #[trigger] stamped.tile_at(p)
                == walls.tile_at(p),
{
    assert forall|p: Position|
        walls.in_bounds(p) && !walls.in_interior(p) implies #[trigger] stamped.tile_at(p)
        == walls.tile_at(p) by {
        assert(opened.tile_at(p) == walls.tile_at(p));
        assert(mid.tile_at(p) == opened.tile_at(p));
        assert(stamped.tile_at(p) == mid.tile_at(p));
    }
    assert forall|p: Position| stamped.in_bounds(p) implies (#[trigger] stamped.kind_at(p)) is Wall
        || stamped.kind_at(p).passable() by {
        assert(walls.kind_at(p) is Wall || walls.kind_at(p).passable());
        if opened.in_interior(p) {
            assert(opened.tile_at(p) == Tile::floor_spec());
        } else {
            assert(opened.tile_at(p) == walls.tile_at(p));
        }
        if up is Some {
            assert(mid.tile_at(p) == opened.tile_at(p) || up == Some(p));
        }
    }
    assert forall|p: Position|
        stamped.in_interior(p) && up != Some(p) && down != Some(p) implies (#[trigger] stamped.kind_at(
        p,
    )) is Floor by {
        assert(opened.tile_at(p) == Tile::floor_spec());
        if up is Some {
            assert(mid.tile_at(p) == opened.tile_at(p));
        } else {
            assert(mid.tile_at(p) == opened.tile_at(p));
        }
        if down is Some {
            assert(stamped.tile_at(p) == mid.tile_at(p));
        } else {
            assert(stamped.tile_at(p) == mid.tile_at(p));
        }
    }
    assert forall|p: Position| stamped.in_interior(p) implies #[trigger] stamped.passable_at(p) by {
        assert(opened.tile_at(p) == Tile::floor_spec());
        if up is Some {
            assert(mid.tile_at(p) == opened.tile_at(p) || up == Some(p));
        }
    }
}


/// Walling turns only fresh floor into walls: other tiles, and every cell
/// of a room, keep their tile.
pub proof fn lemma_walled_keeps(a: &Level, b: &Level, rooms: Seq<Room>)
    requires
        walled_from(a, b, rooms),
        walls_or_passable(a),
        forall|p: Position| a.in_interior(p) ==> #[trigger] a.passable_at(p),
    ensures
        walls_or_passable(b),
        forall|p: Position|
            a.in_bounds(p) && !(a.kind_at(p) is Floor) ==> #[trigger] b.tile_at(p)
                == a.tile_at(p),
        forall|p: Position| a.in_interior(p) && in_any_room(rooms, p) ==> #[trigger] b.passable_at(p),
{
    assert forall|p: Position| a.in_bounds(p) implies #[trigger] b.tile_at(p) == a.tile_at(p) || (
    a.kind_at(p) is Floor && b.tile_at(p) == Tile::wall_spec()) by {
        crate::level::lemma_cell_index_bounds(a.width as int, a.height as int, p.x as int, p.y as int);
        let i = crate::level::cell_index(a.width as int, p);
        assert(b.tiles@[i] == a.tiles@[i] || (a.tiles@[i].tile_type is Floor && b.tiles@[i]
            == Tile::wall_spec()));
    }
    assert forall|p: Position| b.in_bounds(p) implies (#[trigger] b.kind_at(p)) is Wall
        || b.kind_at(p).passable() by {
        assert(b.tile_at(p) == a.tile_at(p) || b.tile_at(p) == Tile::wall_spec());
        assert(a.kind_at(p) is Wall || a.kind_at(p).passable());
    }
    assert forall|p: Position|
        a.in_bounds(p) && !(a.kind_at(p) is Floor) implies #[trigger] b.tile_at(p)
        == a.tile_at(p) by {
        assert(b.tile_at(p) == a.tile_at(p) || (a.kind_at(p) is Floor && b.tile_at(p)
            == Tile::wall_spec()));
    }
    assert forall|p: Position| a.in_interior(p) && in_any_room(rooms, p) implies #[trigger] b.passable_at(
        p,
    ) by {
        assert(b.tile_at(p) == a.tile_at(p));
        assert(a.passable_at(p));
    }
}

/// A corridor never overwrites a staircase.
pub proof fn lemma_carved_stairs(a: &Level, b: &Level)
    requires
        carved_from(a, b),
    ensures
        forall|p: Position|
            a.in_bounds(p) && (a.kind_at(p) is StairsUp || a.kind_at(p) is StairsDown)
                ==> #[trigger] b.tile_at(p) == a.tile_at(p),
{
    assert forall|p: Position|
        a.in_bounds(p) && (a.kind_at(p) is StairsUp || a.kind_at(p) is StairsDown) implies #[trigger] b.tile_at(
        p,
    ) == a.tile_at(p) by {
        crate::level::lemma_cell_index_bounds(a.width as int, a.height as int, p.x as int, p.y as int);
        let i = crate::level::cell_index(a.width as int, p);
        assert(b.tiles@[i] == a.tiles@[i] || !(a.tiles@[i].tile_type is StairsUp || a.tiles@[i].tile_type is StairsDown));
    }
}


/// The facts gathered while building a floor make it a finished floor.
proof fn lemma_floor_done(
    stamped: &Level,
    walled: &Level,
    level: &Level,
    rooms: Seq<Room>,
    up: Option<Position>,
    down: Option<Position>,
)
    requires
        stamped.wf(),
        walled_from(stamped, walled, rooms),
        carved_from(walled, level),
        walls_or_passable(stamped),
        forall|p: Position| stamped.in_interior(p) ==> #[trigger] stamped.passable_at(p),
        rooms.len() >= 1,
        rooms_inside(stamped, rooms),
        forall|i: int|
            0 <= i < rooms.len() ==> (#[trigger] rooms[i]).fits() && rooms[i].width >= 1
                && rooms[i].height >= 1,
        up matches Some(u) ==> rooms[0].holds(u) && stamped.player_spawn == u && stamped.in_interior(u),
        down matches Some(d) ==> stamped.in_interior(d),
        up is None ==> (down matches Some(d) ==> rooms[0].holds(d)),
        up is None ==> stamped.player_spawn == rooms[0].center_spec(),
        !(up is Some && down is Some) ==> level.tiles@ == walled.tiles@,
        up matches Some(u) ==> (down matches Some(d) ==> connected(level, u, d)),
        up matches Some(u) ==> stamped.kind_at(u) is StairsUp || down == Some(u),
        down matches Some(d) ==> stamped.kind_at(d) is StairsDown,
    ensures
        up matches Some(u) ==> (level.kind_at(u) is StairsUp || down == Some(u))
            && level.player_spawn == u && connected(level, level.player_spawn, u),
        down matches Some(d) ==> level.kind_at(d) is StairsDown && connected(
            level,
            level.player_spawn,
            d,
        ),
        up is Some || down is Some ==> level.passable_at(level.player_spawn),
{
    lemma_walled_keeps(stamped, walled, rooms);
    lemma_carved_stairs(walled, level);
    if let Some(u) = up {
        assert(!(stamped.kind_at(u) is Floor));
        assert(walled.tile_at(u) == stamped.tile_at(u));
    }
    if let Some(d) = down {
        assert(!(stamped.kind_at(d) is Floor));
        assert(walled.tile_at(d) == stamped.tile_at(d));
    }
    lemma_spawn_reaches_stairs(stamped, walled, level, rooms, up, down);
    if let Some(u) = up {
        if down == Some(u) {
            assert(level.kind_at(u) is StairsDown);
        }
    }
}

} // verus!
