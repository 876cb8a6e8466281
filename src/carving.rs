//! Filling a level with open floor and carving walls into it while every
//! room stays reachable.
use vstd::prelude::*;
use rand::rngs::StdRng;
use crate::geometry::Position;
use crate::room::{Room, lemma_push_contains};
use crate::level::{Level, Tile, cell_index, lemma_cell_index_bounds, lemma_cell_index_injective};
use crate::config::GenerationConfig;
use crate::generator::RoomCorridorGenerator;
use crate::placement::room_in_interior;
use crate::error::ThatchResult;
use crate::random::random_range;
use crate::connectivity::{connected, has_path, is_walk, lemma_connected_symm, lemma_connected_trans};
use crate::geometry::{cardinal_neighbours, is_cardinal_step};

verus! {

/// `p` lies in one of the rooms.
pub open spec fn in_any_room(rooms: Seq<Room>, p: Position) -> bool {
    exists|i: int| 0 <= i < rooms.len() && (#[trigger] rooms[i]).holds(p)
}

/// A floor tile inside the border that lies in no room: a place where
/// carving may put a wall.
pub open spec fn carving_candidate(level: &Level, rooms: Seq<Room>, q: Position) -> bool {
    level.in_interior(q) && level.kind_at(q) is Floor && !in_any_room(rooms, q)
}

/// Any two passable neighbours of `pos` are joined by a walk.
pub open spec fn neighbours_linked(level: &Level, pos: Position) -> bool {
    forall|a: int, b: int|
        0 <= a < 4 && 0 <= b < 4 && level.passable_at(#[trigger] cardinal_neighbours(pos)[a])
            && level.passable_at(#[trigger] cardinal_neighbours(pos)[b]) ==> connected(
            level,
            cardinal_neighbours(pos)[a],
            cardinal_neighbours(pos)[b],
        )
}

/// The cells where carving may put a wall.
pub open spec fn carving_candidates(level: &Level, rooms: Seq<Room>) -> Set<Position> {
    Set::new(|q: Position| carving_candidate(level, rooms, q))
}

/// How many walls carving may put among `n` candidates: a third of them
/// when a whole dungeon is built, all of them for a stand-alone level.
pub open spec fn wall_quota(all_floors: bool, n: int) -> int {
    if all_floors {
        n / 3
    } else {
        n
    }
}

/// `b` is `a` with a fresh wall at `pos`.
pub open spec fn wall_added(a: &Level, b: &Level, pos: Position) -> bool {
    &&& b.wf()
    &&& b.same_frame(a)
    &&& b.tiles@ == a.tiles@.update(cell_index(a.width as int, pos), Tile::wall_spec())
}

/// Every room lies inside the level's border.
pub open spec fn rooms_inside(level: &Level, rooms: Seq<Room>) -> bool {
    forall|i: int| 0 <= i < rooms.len() ==> room_in_interior(level, &#[trigger] rooms[i])
}

/// The centre of the first room is connected to the centre of every other.
pub open spec fn rooms_connected(level: &Level, rooms: Seq<Room>) -> bool {
    forall|j: int|
        1 <= j < rooms.len() ==> connected(
            level,
            rooms[0].center_spec(),
            (#[trigger] rooms[j]).center_spec(),
        )
}

/// `new` is `old` with some floor tiles outside every room turned into
/// fresh walls; the border is untouched.
pub open spec fn walled_from(old: &Level, new: &Level, rooms: Seq<Room>) -> bool {
    &&& old.wf()
    &&& new.wf()
    &&& new.same_frame(old)
    &&& forall|i: int|
        0 <= i < new.tiles@.len() ==> (#[trigger] new.tiles@[i]) == old.tiles@[i] || (
        old.tiles@[i].tile_type is Floor && new.tiles@[i] == Tile::wall_spec())
    &&& forall|p: Position|
        old.in_bounds(p) && (in_any_room(rooms, p) || !old.in_interior(p)) ==> #[trigger] new.tile_at(
            p,
        ) == old.tile_at(p)
}

/// A room inside the border has its centre inside the border too.
pub proof fn lemma_center_inside(level: &Level, room: &Room)
    requires
        level.wf(),
        room_in_interior(level, room),
        room.width >= 1,
        room.height >= 1,
    ensures
        level.in_interior(room.center_spec()),
        room.holds(room.center_spec()),
{
    let c = room.center_spec();
    assert(room.top_left.x + room.width / 2 < room.top_left.x + room.width);
    assert(room.top_left.y + room.height / 2 < room.top_left.y + room.height);
    assert(c.x == room.top_left.x + room.width / 2);
    assert(c.y == room.top_left.y + room.height / 2);
}

/// Connecting every room's centre to the first room's connects every pair
/// of rooms, when the centres are passable.
pub proof fn lemma_rooms_pairwise_connected(level: &Level, rooms: Seq<Room>)
    requires
        rooms_connected(level, rooms),
        forall|i: int| 0 <= i < rooms.len() ==> level.passable_at((#[trigger] rooms[i]).center_spec()),
    ensures
        forall|i: int, j: int|
            0 <= i < rooms.len() && 0 <= j < rooms.len() ==> connected(
                level,
                (#[trigger] rooms[i]).center_spec(),
                (#[trigger] rooms[j]).center_spec(),
            ),
{
    assert forall|i: int, j: int| 0 <= i < rooms.len() && 0 <= j < rooms.len() implies connected(
        level,
        (#[trigger] rooms[i]).center_spec(),
        (#[trigger] rooms[j]).center_spec(),
    ) by {
        let c0 = rooms[0].center_spec();
        if i == 0 && j == 0 {
            crate::connectivity::lemma_connected_refl(level, c0);
        } else if i == 0 {
            assert(connected(level, c0, rooms[j].center_spec()));
        } else {
            assert(connected(level, c0, rooms[i].center_spec()));
            assert(level.passable_at(rooms[0].center_spec()));
            lemma_connected_symm(level, c0, rooms[i].center_spec());
            if j == 0 {
            } else {
                assert(connected(level, c0, rooms[j].center_spec()));
                lemma_connected_trans(level, rooms[i].center_spec(), c0, rooms[j].center_spec());
            }
        }
    }
}

impl RoomCorridorGenerator {
    /// Whether `pos` lies in one of the rooms.
    pub fn is_position_in_any_room(&self, pos: Position, rooms: &Vec<Room>) -> (r: bool)
        ensures
            r == in_any_room(rooms@, pos),
    {
        let mut i: usize = 0;
        while i < rooms.len()
            invariant
                i <= rooms@.len(),
                forall|k: int| 0 <= k < i ==> !(#[trigger] rooms@[k]).holds(pos),
            decreases rooms@.len() - i,
        {
            if rooms[i].contains(pos) {
                return true;
            }
            i = i + 1;
        }
        false
    }

    /// Whether a walk leads from `start` to `goal` over passable cells.
    pub fn has_path(&self, level: &Level, start: Position, goal: Position) -> (r: ThatchResult<bool>)
        requires
            level.wf(),
            crate::geometry::has_neighbours(start),
        ensures
            r matches Ok(b) && b == connected(level, start, goal),
    {
        Ok(has_path(level, start, goal))
    }

    /// Whether the centre of the first room reaches the centre of every
    /// other room.
    pub fn all_rooms_connected(&self, level: &Level, rooms: &Vec<Room>) -> (r: bool)
        requires
            level.wf(),
            rooms_inside(level, rooms@),
            forall|i: int| 0 <= i < rooms@.len() ==> (#[trigger] rooms@[i]).fits(),
        ensures
            r == rooms_connected(level, rooms@),
    {
        if rooms.len() < 2 {
            return true;
        }
        let start = rooms[0].center();
        assert(room_in_interior(level, &rooms@[0]));
        let mut j: usize = 1;
        while j < rooms.len()
            invariant
                level.wf(),
                rooms@.len() >= 2,
                1 <= j <= rooms@.len(),
                start == rooms@[0].center_spec(),
                rooms_inside(level, rooms@),
                forall|i: int| 0 <= i < rooms@.len() ==> (#[trigger] rooms@[i]).fits(),
                forall|k: int|
                    1 <= k < j ==> connected(level, start, (#[trigger] rooms@[k]).center_spec()),
            decreases rooms@.len() - j,
        {
            let target = rooms[j].center();
            if !has_path(level, start, target) {
                return false;
            }
            j = j + 1;
        }
        true
    }

    /// The floor tiles inside the border that lie in no room, row by row.
    pub fn get_non_room_floor_positions(&self, level: &Level, rooms: &Vec<Room>) -> (r: Vec<
        Position,
    >)
        requires
            level.wf(),
        ensures
            forall|q: Position| #[trigger] r@.contains(q) <==> carving_candidate(level, rooms@, q),
            r@.len() <= level.tiles@.len(),
            r@.no_duplicates(),
    {
        let mut v: Vec<Position> = Vec::new();
        let mut y: i32 = 1;
        while (y as i64) < level.height as i64 - 1
            invariant
                level.wf(),
                1 <= y <= level.height,
                y > 1 ==> y <= level.height - 1,
                forall|q: Position|
                    #[trigger] v@.contains(q) <==> (carving_candidate(level, rooms@, q) && q.y < y),
                v@.len() <= (y - 1) * level.width,
                v@.no_duplicates(),
            decreases level.height - y,
        {
            let mut x: i32 = 1;
            while (x as i64) < level.width as i64 - 1
                invariant
                    level.wf(),
                    1 <= y < level.height - 1,
                    1 <= x <= level.width,
                    x > 1 ==> x <= level.width - 1,
                    forall|q: Position|
                        #[trigger] v@.contains(q) <==> (carving_candidate(level, rooms@, q) && (q.y
                            < y || (q.y == y && q.x < x))),
                    v@.len() <= (y - 1) * level.width + x - 1,
                    v@.no_duplicates(),
                decreases level.width - x,
            {
                let pos = Position::new(x, y);
                let i = level.index(pos);
                let ghost prev = v@;
                if level.tiles[i].tile_type.is_floor() && !self.is_position_in_any_room(pos, rooms) {
                    assert(!prev.contains(pos));
                    v.push(pos);
                    proof {
                        lemma_push_contains(prev, pos);
                    }
                }
                proof {
                    assert forall|q: Position|
                        #[trigger] v@.contains(q) <==> (carving_candidate(level, rooms@, q) && (q.y
                            < y || (q.y == y && q.x < x + 1))) by {
                        assert(prev.contains(q) <==> (carving_candidate(level, rooms@, q) && (q.y < y
                            || (q.y == y && q.x < x))));
                    }
                }
                x = x + 1;
            }
            proof {
                assert((y - 1) * level.width + level.width == y * level.width) by (nonlinear_arith);
            }
            y = y + 1;
        }
        proof {
            assert((y - 1) * level.width <= level.height * level.width) by (nonlinear_arith)
                requires
                    y - 1 <= level.height,
            ;
            assert(level.height * level.width == level.width * level.height) by (nonlinear_arith);
        }
        v
    }

    /// Opens the level: every cell inside the permanent border becomes
    /// floor, and the border keeps its tiles.
    pub fn initialize_level_with_rooms(&self, level: &mut Level, rooms: &Vec<Room>) -> (r:
        ThatchResult<()>)
        requires
            old(level).wf(),
        ensures
            r is Ok,
            final(level).wf(),
            final(level).same_frame(old(level)),
            forall|p: Position|
                final(level).in_interior(p) ==> #[trigger] final(level).tile_at(p)
                    == Tile::floor_spec(),
            forall|p: Position|
                old(level).in_bounds(p) && !old(level).in_interior(p)
                    ==> #[trigger] final(level).tile_at(p) == old(level).tile_at(p),
    {
        let ghost orig = *level;
        let mut y: i32 = 1;
        while (y as i64) < level.height as i64 - 1
            invariant
                level.wf(),
                level.same_frame(&orig),
                orig.wf(),
                1 <= y <= level.height,
                y > 1 ==> y <= level.height - 1,
                forall|p: Position|
                    level.in_interior(p) && p.y < y ==> #[trigger] level.tile_at(p)
                        == Tile::floor_spec(),
                forall|p: Position|
                    orig.in_bounds(p) && !(level.in_interior(p) && p.y < y) ==> #[trigger] level.tile_at(
                        p,
                    ) == orig.tile_at(p),
            decreases level.height - y,
        {
            let mut x: i32 = 1;
            while (x as i64) < level.width as i64 - 1
                invariant
                    level.wf(),
                    level.same_frame(&orig),
                    orig.wf(),
                    1 <= y < level.height - 1,
                    1 <= x <= level.width,
                    x > 1 ==> x <= level.width - 1,
                    forall|p: Position|
                        level.in_interior(p) && (p.y < y || (p.y == y && p.x < x))
                            ==> #[trigger] level.tile_at(p) == Tile::floor_spec(),
                    forall|p: Position|
                        orig.in_bounds(p) && !(level.in_interior(p) && (p.y < y || (p.y == y && p.x
                            < x))) ==> #[trigger] level.tile_at(p) == orig.tile_at(p),
                decreases level.width - x,
            {
                let pos = Position::new(x, y);
                let ghost before = *level;
                level.put(pos, Tile::floor());
                proof {
                    lemma_put_tile(&before, &*level, pos, Tile::floor_spec());
                }
                x = x + 1;
            }
            y = y + 1;
        }
        Ok(())
    }

    /// A room of random size centred on `center`, shifted as little as
    /// needed to stay inside the level's border.
    pub fn create_room_around_position(
        &self,
        room_id: u32,
        center: Position,
        config: &GenerationConfig,
        rng: &mut StdRng,
        level: &Level,
    ) -> (r: Room)
        requires
            config.wf(),
            level.wf(),
            level.in_interior(center),
            config.max_room_size + 2 <= level.width,
            config.max_room_size + 2 <= level.height,
        ensures
            r.id == room_id,
            crate::placement::room_size_ok(config, &r),
            room_in_interior(level, &r),
            r.holds(center),
            r.fits(),
            room_id == 0 ==> r.room_type is Normal,
    {
        let room_width = random_range(rng, config.min_room_size as u64, config.max_room_size as u64 + 1) as i64;
        let room_height = random_range(rng, config.min_room_size as u64, config.max_room_size as u64 + 1) as i64;
        let cx = center.x as i64;
        let cy = center.y as i64;
        let tx = if cx - room_width / 2 > 1 { cx - room_width / 2 } else { 1 };
        let ty = if cy - room_height / 2 > 1 { cy - room_height / 2 } else { 1 };
        let max_x = level.width as i64 - room_width - 1;
        let max_y = level.height as i64 - room_height - 1;
        let x = if tx < max_x { tx } else { max_x };
        let y = if ty < max_y { ty } else { max_y };
        let room_type = self.determine_room_type(room_id, config, rng);
        Room::new(room_id, Position::new(x as i32, y as i32), room_width as u32, room_height as u32, room_type)
    }

    /// Whether the first room's centre can be walked on and reaches every
    /// other room's centre.
    fn rooms_start_connected(&self, level: &Level, rooms: &Vec<Room>) -> (r: bool)
        requires
            level.wf(),
            rooms@.len() >= 1,
            rooms_inside(level, rooms@),
            forall|i: int| 0 <= i < rooms@.len() ==> (#[trigger] rooms@[i]).fits(),
        ensures
            r == (level.passable_at(rooms@[0].center_spec()) && rooms_connected(level, rooms@)),
    {
        let c0 = rooms[0].center();
        level.is_passable_at(c0) && self.all_rooms_connected(level, rooms)
    }

    /// Whether the passable neighbours of `pos` are all joined to each other
    /// by walks: then no walk needs `pos`.
    fn neighbours_joined(&self, level: &Level, pos: Position) -> (r: bool)
        requires
            level.wf(),
            level.in_interior(pos),
        ensures
            r ==> neighbours_linked(level, pos),
    {
        let nbrs = pos.cardinal_adjacent_positions();
        let mut anchor: usize = 4;
        let mut j: usize = 0;
        while j < 4
            invariant
                level.wf(),
                level.in_interior(pos),
                nbrs@ == cardinal_neighbours(pos),
                j <= 4,
                anchor == 4 ==> forall|k: int| 0 <= k < j ==> !level.passable_at(#[trigger] nbrs@[k]),
                anchor < 4 ==> anchor < j && level.passable_at(nbrs@[anchor as int]),
                anchor < 4 ==> forall|k: int|
                    0 <= k < j && level.passable_at(#[trigger] nbrs@[k]) ==> connected(
                        level,
                        nbrs@[anchor as int],
                        nbrs@[k],
                    ),
                anchor <= 4,
            decreases 4 - j,
        {
            if level.is_passable_at(nbrs[j]) {
                if anchor == 4 {
                    anchor = j;
                    proof {
                        crate::connectivity::lemma_connected_refl(level, nbrs@[j as int]);
                    }
                } else if !has_path(level, nbrs[anchor], nbrs[j]) {
                    return false;
                }
            }
            j = j + 1;
        }
        proof {
            assert forall|a: int, b: int|
                0 <= a < 4 && 0 <= b < 4 && level.passable_at(#[trigger] cardinal_neighbours(pos)[a])
                    && level.passable_at(#[trigger] cardinal_neighbours(pos)[b]) implies connected(
                level,
                cardinal_neighbours(pos)[a],
                cardinal_neighbours(pos)[b],
            ) by {
                assert(nbrs@[a] == cardinal_neighbours(pos)[a]);
                assert(nbrs@[b] == cardinal_neighbours(pos)[b]);
                let m = nbrs@[anchor as int];
                lemma_connected_symm(level, m, nbrs@[a]);
                lemma_connected_trans(level, nbrs@[a], m, nbrs@[b]);
            }
        }
        true
    }

    /// One carving step: puts a wall at `pos` and keeps it exactly when the
    /// first room's centre still reaches every other room's centre;
    /// otherwise the tile is put back. With `fast`, a wall whose passable
    /// neighbours stay joined is kept without searching between rooms.
    pub fn try_wall(&self, level: &mut Level, rooms: &Vec<Room>, pos: Position, fast: bool) -> (kept:
        bool)
        requires
            old(level).wf(),
            old(level).in_interior(pos),
            !in_any_room(rooms@, pos),
            old(level).kind_at(pos) is Floor,
            rooms_inside(old(level), rooms@),
            forall|i: int|
                0 <= i < rooms@.len() ==> (#[trigger] rooms@[i]).fits() && rooms@[i].width >= 1
                    && rooms@[i].height >= 1,
            fast ==> rooms@.len() >= 2 && rooms_connected(old(level), rooms@) && old(level).passable_at(
                rooms@[0].center_spec(),
            ),
        ensures
            final(level).wf(),
            final(level).same_frame(old(level)),
            kept ==> wall_added(old(level), final(level), pos),
            !kept ==> final(level).tiles@ == old(level).tiles@,
            forall|b: Level| wall_added(old(level), &b, pos) ==> (kept == rooms_connected(&b, rooms@)),
    {
        let ghost before = *level;
        let i = level.index(pos);
        let old_tile = level.tiles[i].duplicate();
        level.put(pos, Tile::wall());
        let ghost walled_level = *level;
        let keep = if fast && self.neighbours_joined(level, pos) {
            proof {
                lemma_put_tile(&before, &*level, pos, Tile::wall_spec());
                assert forall|k: int| 0 <= k < rooms@.len() implies (#[trigger] rooms@[k]).holds(
                    rooms@[k].center_spec(),
                ) by {
                    lemma_center_inside(&before, &rooms@[k]);
                }
                lemma_wall_keeps_rooms_connected(&before, &*level, pos, rooms@);
            }
            true
        } else {
            self.all_rooms_connected(level, rooms)
        };
        proof {
            assert forall|b: Level| wall_added(&before, &b, pos) implies (keep == rooms_connected(
                &b,
                rooms@,
            )) by {
                lemma_same_tiles_passable(&walled_level, &b);
                lemma_same_tiles_passable(&b, &walled_level);
                if rooms_connected(&walled_level, rooms@) {
                    lemma_rooms_connected_mono(&walled_level, &b, rooms@);
                }
                if rooms_connected(&b, rooms@) {
                    lemma_rooms_connected_mono(&b, &walled_level, rooms@);
                }
            }
        }
        if !keep {
            level.put(pos, old_tile);
            proof {
                assert(level.tiles@ =~= before.tiles@);
            }
        }
        keep
    }

    /// Carves walls into the open floor outside the rooms, in the mode the
    /// generator is set to: for whole dungeons when `generate_all_floors`.
    /// See [`RoomCorridorGenerator::carve_walls`].
    pub fn progressive_wall_placement(
        &self,
        level: &mut Level,
        rooms: &Vec<Room>,
        rng: &mut StdRng,
    ) -> (r: ThatchResult<()>)
        requires
            old(level).wf(),
            rooms_inside(old(level), rooms@),
            forall|i: int|
                0 <= i < rooms@.len() ==> (#[trigger] rooms@[i]).fits() && rooms@[i].width >= 1
                    && rooms@[i].height >= 1,
        ensures
            r is Ok,
            walled_from(old(level), final(level), rooms@),
            rooms_connected(old(level), rooms@) ==> rooms_connected(final(level), rooms@),
            self.generate_all_floors && old(level).has_floor() ==> final(level).has_floor(),
            exists|w: Set<Position>|
                w.finite() && w.subset_of(carving_candidates(old(level), rooms@)) && w.len()
                    <= wall_quota(self.generate_all_floors, carving_candidates(old(level), rooms@).len() as int)
                    && forall|p: Position|
                    old(level).in_bounds(p) && #[trigger] final(level).tile_at(p) != old(level).tile_at(p)
                        ==> w.contains(p),
    {
        self.carve_walls(level, rooms, rng, self.generate_all_floors)
    }

    /// Carves walls into the open floor outside the rooms, one random cell at
    /// a time through [`RoomCorridorGenerator::try_wall`]. Carving stops when
    /// the failure budget is spent, when no cell is left to try, or, for a
    /// floor of a whole dungeon (`multi_floor`), when a third of the
    /// candidate cells are walls; whole dungeons also get half the failure
    /// budget.
    pub fn carve_walls(
        &self,
        level: &mut Level,
        rooms: &Vec<Room>,
        rng: &mut StdRng,
        multi_floor: bool,
    ) -> (r: ThatchResult<()>)
        requires
            old(level).wf(),
            rooms_inside(old(level), rooms@),
            forall|i: int|
                0 <= i < rooms@.len() ==> (#[trigger] rooms@[i]).fits() && rooms@[i].width >= 1
                    && rooms@[i].height >= 1,
        ensures
            r is Ok,
            walled_from(old(level), final(level), rooms@),
            rooms_connected(old(level), rooms@) ==> rooms_connected(final(level), rooms@),
            multi_floor && old(level).has_floor() ==> final(level).has_floor(),
            exists|w: Set<Position>|
                w.finite() && w.subset_of(carving_candidates(old(level), rooms@)) && w.len()
                    <= wall_quota(multi_floor, carving_candidates(old(level), rooms@).len() as int)
                    && forall|p: Position|
                    old(level).in_bounds(p) && #[trigger] final(level).tile_at(p) != old(level).tile_at(p)
                        ==> w.contains(p),
    {
        let ghost orig = *level;
        let mut available = self.get_non_room_floor_positions(level, rooms);
        let max_failures: u32 = if multi_floor {
            self.max_connectivity_failures / 2
        } else {
            self.max_connectivity_failures
        };
        let max_walls: usize = if multi_floor {
            available.len() / 3
        } else {
            available.len()
        };
        proof {
            crate::level::lemma_cells_fit(level.width as int, level.height as int);
        }
        let mut walls_placed: usize = 0;
        let mut failures: u32 = 0;
        proof {
            assert forall|k: int| 0 <= k < available@.len() implies carving_candidate(
                &orig,
                rooms@,
                #[trigger] available@[k],
            ) by {
                assert(available@.contains(available@[k]));
            }
            lemma_walled_refl(&orig, rooms@);
        }
        let fast = rooms.len() >= 2 && self.rooms_start_connected(level, rooms);
        let ghost first = available@;
        let ghost mut walled: Set<Position> = Set::empty();
        while failures < max_failures && available.len() > 0 && walls_placed < max_walls
            invariant
                fast ==> rooms@.len() >= 2 && rooms_connected(&orig, rooms@) && orig.passable_at(
                    rooms@[0].center_spec(),
                ),
                orig.wf(),
                level.wf(),
                rooms_inside(&orig, rooms@),
                forall|i: int|
                    0 <= i < rooms@.len() ==> (#[trigger] rooms@[i]).fits() && rooms@[i].width >= 1
                        && rooms@[i].height >= 1,
                walled_from(&orig, &*level, rooms@),
                rooms_connected(&orig, rooms@) ==> rooms_connected(&*level, rooms@),
                available@.len() <= level.tiles@.len(),
                level.tiles@.len() <= 4294836225,
                first.no_duplicates(),
                available@.no_duplicates(),
                forall|k: int| 0 <= k < available@.len() ==> first.contains(#[trigger] available@[k]),
                forall|k: int| 0 <= k < available@.len() ==> !walled.contains(#[trigger] available@[k]),
                walled.finite(),
                walled.len() == walls_placed,
                walled.subset_of(first.to_set()),
                max_walls == wall_quota(multi_floor, first.len() as int),
                walls_placed <= max_walls,
                forall|p: Position|
                    orig.in_bounds(p) && #[trigger] level.tile_at(p) != orig.tile_at(p) ==> walled.contains(p),
                forall|k: int|
                    0 <= k < available@.len() ==> carving_candidate(&orig, rooms@, #[trigger] available@[k]),
            decreases available@.len(),
        {
            let index = random_range(rng, 0, available.len() as u64) as usize;
            let ghost avail_before = available@;
            let pos = available.remove(index);
            proof {
                lemma_remove_keeps(avail_before, index as int);
                assert(first.contains(avail_before[index as int]));
                assert(!walled.contains(pos));
                assert(carving_candidate(&orig, rooms@, avail_before[index as int]));
                assert forall|k: int| 0 <= k < available@.len() implies carving_candidate(
                    &orig,
                    rooms@,
                    #[trigger] available@[k],
                ) by {
                    if k < index {
                        assert(available@[k] == avail_before[k]);
                    } else {
                        assert(available@[k] == avail_before[k + 1]);
                    }
                }
            }
            let ghost before = *level;
            proof {
                if level.tile_at(pos) != orig.tile_at(pos) {
                    assert(walled.contains(pos));
                }
                assert(carving_candidate(&orig, rooms@, pos));
                if fast {
                    assert(rooms_connected(&before, rooms@));
                    assert forall|k: int| 0 <= k < rooms@.len() implies (#[trigger] rooms@[k]).holds(
                        rooms@[k].center_spec(),
                    ) by {
                        lemma_center_inside(&orig, &rooms@[k]);
                    }
                    lemma_center_unchanged(&orig, &before, rooms@);
                }
            }
            let kept = self.try_wall(level, rooms, pos, fast);
            if kept {
                proof {
                    lemma_wall_one(&orig, &before, &*level, pos, rooms@);
                    lemma_put_tile(&before, &*level, pos, Tile::wall_spec());
                    assert(rooms_connected(&*level, rooms@));
                    walled = walled.insert(pos);
                    assert forall|k: int| 0 <= k < available@.len() implies !walled.contains(
                        #[trigger] available@[k],
                    ) by {
                        assert(available@.contains(available@[k]));
                    }
                    assert forall|p: Position|
                        orig.in_bounds(p) && #[trigger] level.tile_at(p) != orig.tile_at(p) implies walled.contains(p) by {
                        if p != pos {
                            assert(level.tile_at(p) == before.tile_at(p));
                        }
                    }
                }
                walls_placed = walls_placed + 1;
            } else {
                proof {
                    assert forall|p: Position|
                        orig.in_bounds(p) && #[trigger] level.tile_at(p) != orig.tile_at(p) implies walled.contains(p) by {
                        assert(level.tile_at(p) == before.tile_at(p));
                    }
                    lemma_walled_same_tiles(&orig, &before, &*level, rooms@);
                    if rooms_connected(&orig, rooms@) {
                        assert(rooms_connected(&before, rooms@));
                        lemma_rooms_connected_mono(&before, &*level, rooms@);
                    }
                }
                failures = failures + 1;
            }
        }
        proof {
            if multi_floor && orig.has_floor() {
                lemma_carving_leaves_floor(&orig, &*level, rooms@, first, walled);
            }
            assert(first.to_set() =~= carving_candidates(&orig, rooms@)) by {
                assert forall|q: Position| first.to_set().contains(q) <==> carving_candidate(&orig, rooms@, q) by {
                    if first.to_set().contains(q) {
                        assert(first.contains(q));
                    }
                }
            }
            first.unique_seq_to_set();
        }
        Ok(())
    }
}

/// After replacing one tile, the tile at `pos` is the new one and every
/// other cell keeps its tile.
pub proof fn lemma_put_tile(a: &Level, b: &Level, pos: Position, t: Tile)
    requires
        a.wf(),
        a.in_bounds(pos),
        b.same_frame(a),
        b.tiles@ == a.tiles@.update(cell_index(a.width as int, pos), t),
    ensures
        b.tile_at(pos) == t,
        forall|q: Position| a.in_bounds(q) && q != pos ==> #[trigger] b.tile_at(q) == a.tile_at(q),
{
    lemma_cell_index_bounds(a.width as int, a.height as int, pos.x as int, pos.y as int);
    assert forall|q: Position| a.in_bounds(q) && q != pos implies #[trigger] b.tile_at(q)
        == a.tile_at(q) by {
        lemma_cell_index_bounds(a.width as int, a.height as int, q.x as int, q.y as int);
        lemma_cell_index_bounds(a.width as int, a.height as int, pos.x as int, pos.y as int);
        if cell_index(a.width as int, q) == cell_index(a.width as int, pos) {
            lemma_cell_index_injective(a.width as int, q, pos);
        }
    }
}

} // verus!

verus! {

/// Walling depends on the tiles and the frame alone.
proof fn lemma_walled_same_tiles(orig: &Level, before: &Level, after: &Level, rooms: Seq<Room>)
    requires
        walled_from(orig, before, rooms),
        after.same_frame(before),
        after.wf(),
        after.tiles@ == before.tiles@,
    ensures
        walled_from(orig, after, rooms),
        forall|p: Position| before.passable_at(p) ==> #[trigger] after.passable_at(p),
{
    assert forall|p: Position|
        orig.in_bounds(p) && (in_any_room(rooms, p) || !orig.in_interior(p)) implies #[trigger] after.tile_at(
            p,
        ) == orig.tile_at(p) by {
        assert(before.tile_at(p) == orig.tile_at(p));
    }
}

/// Room connectivity survives any change that keeps passable cells
/// passable.
pub proof fn lemma_rooms_connected_mono(a: &Level, b: &Level, rooms: Seq<Room>)
    requires
        rooms_connected(a, rooms),
        forall|p: Position| a.passable_at(p) ==> #[trigger] b.passable_at(p),
    ensures
        rooms_connected(b, rooms),
{
    assert forall|j: int| 1 <= j < rooms.len() implies connected(
        b,
        rooms[0].center_spec(),
        (#[trigger] rooms[j]).center_spec(),
    ) by {
        crate::connectivity::lemma_connected_mono(a, b, rooms[0].center_spec(), rooms[j].center_spec());
    }
}

/// A level is walled from itself.
proof fn lemma_walled_refl(level: &Level, rooms: Seq<Room>)
    requires
        level.wf(),
    ensures
        walled_from(level, level, rooms),
{
}

/// Turning one fresh floor tile of a carving candidate into a wall keeps
/// the level walled from the one carving started from.
proof fn lemma_wall_one(orig: &Level, before: &Level, after: &Level, pos: Position, rooms: Seq<Room>)
    requires
        walled_from(orig, before, rooms),
        carving_candidate(orig, rooms, pos),
        before.kind_at(pos) is Floor,
        after.same_frame(before),
        after.wf(),
        after.tiles@ == before.tiles@.update(cell_index(before.width as int, pos), Tile::wall_spec()),
    ensures
        walled_from(orig, after, rooms),
        rooms_inside(orig, rooms) ==> rooms_inside(after, rooms),
{
    lemma_put_tile(before, after, pos, Tile::wall_spec());
    let w = orig.width as int;
    lemma_cell_index_bounds(w, orig.height as int, pos.x as int, pos.y as int);
    let ip = cell_index(w, pos);
    assert(orig.tiles@[ip].tile_type is Floor);
    assert forall|i: int| 0 <= i < after.tiles@.len() implies (#[trigger] after.tiles@[i])
        == orig.tiles@[i] || (orig.tiles@[i].tile_type is Floor && after.tiles@[i]
        == Tile::wall_spec()) by {
        if i != ip {
            assert(after.tiles@[i] == before.tiles@[i]);
        }
    }
    assert forall|p: Position|
        orig.in_bounds(p) && (in_any_room(rooms, p) || !orig.in_interior(p)) implies #[trigger] after.tile_at(
            p,
        ) == orig.tile_at(p) by {
        assert(before.tile_at(p) == orig.tile_at(p));
        assert(p != pos);
    }
}

/// After carving, a walk joins the centres of every pair of rooms, when
/// carving started from a level where the centres were passable and the
/// first room's centre reached every other.
pub proof fn lemma_carving_keeps_rooms_pairwise_connected(
    before: &Level,
    after: &Level,
    rooms: Seq<Room>,
)
    requires
        walled_from(before, after, rooms),
        rooms_connected(before, rooms) ==> rooms_connected(after, rooms),
        rooms_connected(before, rooms),
        forall|i: int| 0 <= i < rooms.len() ==> before.passable_at((#[trigger] rooms[i]).center_spec()),
        forall|i: int|
            0 <= i < rooms.len() ==> (#[trigger] rooms[i]).width >= 1 && rooms[i].height >= 1
                && rooms[i].fits(),
    ensures
        forall|i: int, j: int|
            0 <= i < rooms.len() && 0 <= j < rooms.len() ==> connected(
                after,
                (#[trigger] rooms[i]).center_spec(),
                (#[trigger] rooms[j]).center_spec(),
            ),
{
    assert forall|i: int| 0 <= i < rooms.len() implies after.passable_at(
        (#[trigger] rooms[i]).center_spec(),
    ) by {
        let c = rooms[i].center_spec();
        assert(rooms[i].holds(c));
        assert(in_any_room(rooms, c));
        assert(after.tile_at(c) == before.tile_at(c));
    }
    lemma_rooms_pairwise_connected(after, rooms);
}

/// The first room's centre keeps its tile while walls are carved.
proof fn lemma_center_unchanged(orig: &Level, level: &Level, rooms: Seq<Room>)
    requires
        walled_from(orig, level, rooms),
        rooms.len() >= 1,
        orig.passable_at(rooms[0].center_spec()),
        rooms[0].holds(rooms[0].center_spec()),
    ensures
        level.passable_at(rooms[0].center_spec()),
{
    let c = rooms[0].center_spec();
    assert(in_any_room(rooms, c));
    assert(level.tile_at(c) == orig.tile_at(c));
}

/// Walling a cell outside every room whose passable neighbours stay joined
/// keeps the rooms connected.
proof fn lemma_wall_keeps_rooms_connected(before: &Level, after: &Level, pos: Position, rooms: Seq<Room>)
    requires
        before.wf(),
        after.wf(),
        after.same_frame(before),
        before.in_interior(pos),
        !after.passable_at(pos),
        forall|q: Position| before.in_bounds(q) && q != pos ==> #[trigger] after.tile_at(q) == before.tile_at(q),
        !in_any_room(rooms, pos),
        rooms.len() >= 2,
        rooms_connected(before, rooms),
        before.passable_at(rooms[0].center_spec()),
        forall|i: int| 0 <= i < rooms.len() ==> (#[trigger] rooms[i]).holds(rooms[i].center_spec()),
        neighbours_linked(after, pos),
    ensures
        rooms_connected(after, rooms),
        after.passable_at(rooms[0].center_spec()),
{
    let c0 = rooms[0].center_spec();
    assert(rooms[0].holds(c0));
    assert(c0 != pos);
    assert forall|j: int| 1 <= j < rooms.len() implies connected(
        after,
        rooms[0].center_spec(),
        (#[trigger] rooms[j]).center_spec(),
    ) by {
        let cj = rooms[j].center_spec();
        assert(rooms[j].holds(cj));
        assert(cj != pos);
        assert(connected(before, c0, cj));
        let p = choose|p: Seq<Position>| is_walk(before, p) && p[0] == c0 && p.last() == cj;
        lemma_reroute(before, after, pos, p, p.len() - 1);
    }
}

/// Along a walk of `before` that starts at a passable cell other than
/// `pos`, every cell other than `pos` is still reached in `after`.
proof fn lemma_reroute(before: &Level, after: &Level, pos: Position, p: Seq<Position>, i: int)
    requires
        before.wf(),
        after.wf(),
        after.same_frame(before),
        before.in_interior(pos),
        !after.passable_at(pos),
        forall|q: Position| before.in_bounds(q) && q != pos ==> #[trigger] after.tile_at(q) == before.tile_at(q),
        is_walk(before, p),
        p[0] != pos,
        before.passable_at(p[0]),
        neighbours_linked(after, pos),
        0 <= i < p.len(),
    ensures
        p[i] != pos ==> connected(after, p[0], p[i]),
    decreases i,
{
    if i == 0 {
        crate::connectivity::lemma_connected_refl(after, p[0]);
    } else if p[i] != pos {
        assert(before.passable_at(p[i]) && is_cardinal_step(p[i - 1], p[i]));
        assert(after.tile_at(p[i]) == before.tile_at(p[i]));
        if p[i - 1] != pos {
            lemma_reroute(before, after, pos, p, i - 1);
            crate::connectivity::lemma_connected_step(after, p[0], p[i - 1], p[i]);
        } else {
            assert(i >= 2);
            assert(is_cardinal_step(p[i - 2], p[i - 1]));
            assert(p[i - 2] != pos);
            lemma_reroute(before, after, pos, p, i - 2);
            if i - 2 >= 1 {
                assert(before.passable_at(p[i - 2]));
            }
            assert(after.tile_at(p[i - 2]) == before.tile_at(p[i - 2]));
            assert(is_cardinal_step(pos, p[i - 2]));
            assert(is_cardinal_step(pos, p[i]));
            crate::connectivity::lemma_step_is_neighbour(pos, p[i - 2]);
            crate::connectivity::lemma_step_is_neighbour(pos, p[i]);
            let a = choose|a: int| 0 <= a < 4 && #[trigger] cardinal_neighbours(pos)[a] == p[i - 2];
            let b = choose|b: int| 0 <= b < 4 && #[trigger] cardinal_neighbours(pos)[b] == p[i];
            assert(after.passable_at(cardinal_neighbours(pos)[a]));
            assert(after.passable_at(cardinal_neighbours(pos)[b]));
            assert(connected(after, p[i - 2], p[i]));
            lemma_connected_trans(after, p[0], p[i - 2], p[i]);
        }
    }
}

/// Taking one element out of a sequence without duplicates keeps the
/// others, distinct, and drops that one.
proof fn lemma_remove_keeps(s: Seq<Position>, i: int)
    requires
        s.no_duplicates(),
        0 <= i < s.len(),
    ensures
        s.remove(i).no_duplicates(),
        forall|k: int| 0 <= k < s.remove(i).len() ==> s.contains(#[trigger] s.remove(i)[k]),
        !s.remove(i).contains(s[i]),
{
    let r = s.remove(i);
    assert forall|k: int| 0 <= k < r.len() implies r[k] == if k < i { s[k] } else { s[k + 1] } by {}
    assert forall|k: int| 0 <= k < r.len() implies s.contains(#[trigger] r[k]) by {
        if k < i {
            assert(r[k] == s[k]);
        } else {
            assert(r[k] == s[k + 1]);
        }
    }
    assert forall|a: int, b: int| 0 <= a < r.len() && 0 <= b < r.len() && a != b implies r[a] != r[b] by {
        let ia = if a < i { a } else { a + 1 };
        let ib = if b < i { b } else { b + 1 };
        assert(r[a] == s[ia] && r[b] == s[ib]);
    }
    if r.contains(s[i]) {
        let k = choose|k: int| 0 <= k < r.len() && r[k] == s[i];
        let ik = if k < i { k } else { k + 1 };
        assert(s[ik] == s[i]);
    }
}

/// A cell of the grid for each index of its tiles.
pub proof fn lemma_index_cell(level: &Level, i: int)
    requires
        level.wf(),
        0 <= i < level.tiles@.len(),
    ensures
        level.in_bounds(Position { x: (i % level.width as int) as i32, y: (i / level.width as int) as i32 }),
        cell_index(level.width as int, Position { x: (i % level.width as int) as i32, y: (i / level.width as int) as i32 }) == i,
{
    let w = level.width as int;
    let h = level.height as int;
    vstd::arithmetic::div_mod::lemma_fundamental_div_mod(i, w);
    assert(0 <= i % w < w) by {
        vstd::arithmetic::div_mod::lemma_mod_bound(i, w);
    }
    assert(0 <= i / w) by {
        vstd::arithmetic::div_mod::lemma_div_pos_is_pos(i, w);
    }
    assert(i / w < h) by {
        if i / w >= h {
            assert(w * (i / w) >= w * h) by (nonlinear_arith)
                requires
                    i / w >= h,
                    w >= 0,
            ;
            assert(w * h == h * w) by (nonlinear_arith);
        }
    }
    assert((i / w) * w == w * (i / w)) by (nonlinear_arith);
}

/// Carving leaves a floor tile: a floor tile carving never touched stays,
/// and carving walls in fewer than a third of its distinct candidates, so
/// one candidate floor tile stays untouched.
proof fn lemma_carving_leaves_floor(
    orig: &Level,
    level: &Level,
    rooms: Seq<Room>,
    first: Seq<Position>,
    walled: Set<Position>,
)
    requires
        orig.wf(),
        level.wf(),
        level.same_frame(orig),
        orig.has_floor(),
        first.no_duplicates(),
        forall|k: int| 0 <= k < first.len() ==> carving_candidate(orig, rooms, #[trigger] first[k]),
        walled.finite(),
        walled.subset_of(first.to_set()),
        walled.len() <= first.len() / 3,
        forall|p: Position|
            orig.in_bounds(p) && #[trigger] level.tile_at(p) != orig.tile_at(p) ==> walled.contains(p),
    ensures
        level.has_floor(),
{
    let i0 = choose|i: int| 0 <= i < orig.tiles@.len() && orig.tiles@[i].tile_type is Floor;
    lemma_index_cell(orig, i0);
    let p0 = Position { x: (i0 % orig.width as int) as i32, y: (i0 / orig.width as int) as i32 };
    if level.tile_at(p0) == orig.tile_at(p0) {
        assert(level.tiles@[i0].tile_type is Floor);
    } else {
        assert(walled.contains(p0));
        assert(first.to_set().contains(p0));
        first.unique_seq_to_set();
        if first.to_set().subset_of(walled) {
            vstd::set_lib::lemma_len_subset(first.to_set(), walled);
            assert(false);
        }
        let q = choose|q: Position| first.to_set().contains(q) && !walled.contains(q);
        let k = choose|k: int| 0 <= k < first.len() && first[k] == q;
        assert(carving_candidate(orig, rooms, first[k]));
        assert(level.tile_at(q) == orig.tile_at(q));
        crate::level::lemma_cell_index_bounds(orig.width as int, orig.height as int, q.x as int, q.y as int);
        assert(level.tiles@[cell_index(orig.width as int, q)].tile_type is Floor);
    }
}

/// Two levels of one frame with the same tiles have the same passable
/// cells.
proof fn lemma_same_tiles_passable(a: &Level, b: &Level)
    requires
        a.wf(),
        b.width == a.width,
        b.height == a.height,
        b.tiles@ == a.tiles@,
    ensures
        forall|p: Position| a.passable_at(p) ==> #[trigger] b.passable_at(p),
{
}

} // verus!
