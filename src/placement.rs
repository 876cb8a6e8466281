//! Choosing room sizes, kinds and positions.
use vstd::prelude::*;
use rand::rngs::StdRng;
use crate::geometry::{Position, manhattan};
use vstd::pervasive::VecAdditionalExecFns;
use crate::room::{Room, RoomType};
use crate::level::{Level, MAX_SIDE};
use crate::config::{GenerationConfig, MIN_LEVEL_SIDE};
use crate::generator::{RoomCorridorGenerator, RoomPlacementStrategy};
use crate::error::{ThatchError, ThatchResult};
use crate::random::{random_range, random_ratio};

verus! {

/// Steps kept between room centres by edge-first placement.
pub const MIN_EDGE_ROOM_SPACING: u32 = 8;

/// Distance from the level's edge within which edge-first placement puts
/// rooms.
pub const EDGE_MARGIN: i32 = 5;

/// The room lies inside the level's permanent border.
pub open spec fn room_in_interior(level: &Level, room: &Room) -> bool {
    &&& 1 <= room.top_left.x
    &&& 1 <= room.top_left.y
    &&& room.top_left.x + room.width <= level.width - 1
    &&& room.top_left.y + room.height <= level.height - 1
}

/// The room lies strictly inside the level's border, with a spare cell on
/// the right and at the bottom.
pub open spec fn room_fits(level: &Level, room: &Room) -> bool {
    room.top_left.x >= 1 && room.top_left.y >= 1 && room.top_left.x + room.width < level.width - 1
        && room.top_left.y + room.height < level.height - 1
}

/// The room's size lies in the configured range.
pub open spec fn room_size_ok(config: &GenerationConfig, room: &Room) -> bool {
    &&& config.min_room_size <= room.width <= config.max_room_size
    &&& config.min_room_size <= room.height <= config.max_room_size
}

/// A random value in `[lo, hi)`, for bounds known to be non-negative.
fn draw(rng: &mut StdRng, lo: i64, hi: i64) -> (r: i64)
    requires
        0 <= lo < hi,
    ensures
        lo <= r < hi,
{
    random_range(rng, lo as u64, hi as u64) as i64
}

/// The kind of room a percentile roll gives; see
/// [`RoomCorridorGenerator::room_type_for_roll`].
pub open spec fn room_type_of_roll(room_id: u32, roll: int, secret_door_chance: u32) -> RoomType {
    if room_id == 0 {
        RoomType::Normal
    } else if roll < 5 {
        RoomType::Treasure
    } else if roll < 8 {
        RoomType::Shop
    } else if roll < 10 {
        RoomType::Sanctuary
    } else if roll < 12 {
        RoomType::Library
    } else if roll < 14 && secret_door_chance > 0 {
        RoomType::Secret
    } else if roll < 16 {
        RoomType::Puzzle
    } else {
        RoomType::Normal
    }
}

impl RoomCorridorGenerator {
    /// On a `width` x `height` level, every placement strategy can sample a
    /// position for any room size the configuration allows: a room of the
    /// largest size leaves a free position, a grid cell holds it with a
    /// cell to spare and fits the level, and edge-first placement has a
    /// middle band besides its margins.
    pub open spec fn placement_fits(&self, config: &GenerationConfig, width: int, height: int) -> bool {
        &&& config.max_room_size + 3 <= width
        &&& config.max_room_size + 3 <= height
        &&& (self.room_placement_strategy matches RoomPlacementStrategy::GridBased { grid_size }
            ==> config.max_room_size + 2 <= grid_size && grid_size <= width && grid_size <= height)
        &&& (self.room_placement_strategy is EdgeFirst ==> config.max_room_size + 2 * EDGE_MARGIN
            + 1 <= width)
    }

    /// Every placement strategy can sample positions on the smallest level.
    pub open spec fn placement_ok(&self, config: &GenerationConfig) -> bool {
        self.placement_fits(config, MIN_LEVEL_SIDE as int, MIN_LEVEL_SIDE as int)
    }

    /// Whether the room lies strictly inside the level's border, one spare
    /// cell kept on the right and bottom.
    pub fn room_fits_in_level(&self, level: &Level, room: &Room) -> (r: bool)
        ensures
            r == room_fits(level, room),
    {
        room.top_left.x >= 1 && room.top_left.y >= 1 && (room.top_left.x as i64
            + room.width as i64) < level.width as i64 - 1 && (room.top_left.y as i64
            + room.height as i64) < level.height as i64 - 1
    }

    /// The kind of a room for a percentile roll in `[0, 100)`: the first
    /// room of a level is always normal; otherwise five points make a
    /// treasure room, three a shop, two each a sanctuary, a library, a
    /// secret room (only when secret doors are enabled; a puzzle room
    /// otherwise) and a puzzle room, and the rest normal rooms.
    pub fn room_type_for_roll(&self, room_id: u32, roll: u64, config: &GenerationConfig) -> (r:
        RoomType)
        ensures
            r == room_type_of_roll(room_id, roll as int, config.secret_door_chance_milli),
    {
        if room_id == 0 {
            return RoomType::Normal;
        }
        if roll < 5 {
            RoomType::Treasure
        } else if roll < 8 {
            RoomType::Shop
        } else if roll < 10 {
            RoomType::Sanctuary
        } else if roll < 12 {
            RoomType::Library
        } else if roll < 14 && config.secret_door_chance_milli > 0 {
            RoomType::Secret
        } else if roll < 16 {
            RoomType::Puzzle
        } else {
            RoomType::Normal
        }
    }

    /// The kind of a new room, from a random percentile roll; see
    /// [`RoomCorridorGenerator::room_type_for_roll`].
    pub fn determine_room_type(&self, room_id: u32, config: &GenerationConfig, rng: &mut StdRng) -> (r:
        RoomType)
        ensures
            exists|roll: int|
                0 <= roll < 100 && r == #[trigger] room_type_of_roll(
                    room_id,
                    roll,
                    config.secret_door_chance_milli,
                ),
            room_id == 0 ==> r is Normal,
            config.secret_door_chance_milli == 0 ==> !(r is Secret),
    {
        if room_id == 0 {
            proof {
                assert(room_type_of_roll(room_id, 0, config.secret_door_chance_milli) is Normal);
            }
            return RoomType::Normal;
        }
        let roll = random_range(rng, 0, 100);
        let r = self.room_type_for_roll(room_id, roll, config);
        proof {
            assert(r == room_type_of_roll(room_id, roll as int, config.secret_door_chance_milli));
        }
        r
    }

    /// A candidate room of random size, placed by the generator's strategy.
    pub fn generate_room_candidate(
        &self,
        level: &Level,
        config: &GenerationConfig,
        rng: &mut StdRng,
        room_id: u32,
    ) -> (r: Room)
        requires
            config.wf(),
            self.placement_fits(config, level.width as int, level.height as int),
            level.width <= MAX_SIDE,
            level.height <= MAX_SIDE,
        ensures
            r.id == room_id,
            room_size_ok(config, &r),
            1 <= r.top_left.x <= level.width,
            1 <= r.top_left.y <= level.height,
            r.fits(),
            room_id == 0 ==> r.room_type is Normal,
            !(self.room_placement_strategy is GridBased) ==> room_fits(level, &r),
    {
        let width = random_range(rng, config.min_room_size as u64, config.max_room_size as u64 + 1)
            as u32;
        let height = random_range(rng, config.min_room_size as u64, config.max_room_size as u64 + 1)
            as u32;
        let lw = level.width as i64;
        let lh = level.height as i64;
        let w = width as i64;
        let h = height as i64;
        let (x, y): (i64, i64) = match self.room_placement_strategy {
            RoomPlacementStrategy::Random => {
                let x = draw(rng, 1, lw - w - 1);
                let y = draw(rng, 1, lh - h - 1);
                (x, y)
            },
            RoomPlacementStrategy::GridBased { grid_size } => {
                let g = grid_size as i64;
                proof {
                    assert(lw / g >= 1) by (nonlinear_arith)
                        requires
                            0 < g <= lw,
                    ;
                    assert(lh / g >= 1) by (nonlinear_arith)
                        requires
                            0 < g <= lh,
                    ;
                }
                let grid_x = draw(rng, 0, lw / g);
                let grid_y = draw(rng, 0, lh / g);
                proof {
                    assert(grid_x * g <= lw - g) by (nonlinear_arith)
                        requires
                            0 <= grid_x < lw / g,
                            g > 0,
                            lw > 0,
                    ;
                    assert(grid_y * g <= lh - g) by (nonlinear_arith)
                        requires
                            0 <= grid_y < lh / g,
                            g > 0,
                            lh > 0,
                    ;
                    assert(grid_x * g >= 0) by (nonlinear_arith)
                        requires
                            0 <= grid_x,
                            g > 0,
                    ;
                    assert(grid_y * g >= 0) by (nonlinear_arith)
                        requires
                            0 <= grid_y,
                            g > 0,
                    ;
                }
                let x = grid_x * g + draw(rng, 1, g - w);
                let y = grid_y * g + draw(rng, 1, g - h);
                (if x > 1 { x } else { 1 }, if y > 1 { y } else { 1 })
            },
            RoomPlacementStrategy::EdgeFirst => {
                let m = EDGE_MARGIN as i64;
                let x = if random_ratio(rng, 3, 5) {
                    if random_ratio(rng, 1, 2) {
                        draw(rng, 1, m)
                    } else {
                        draw(rng, lw - m - w, lw - w - 1)
                    }
                } else {
                    draw(rng, m, lw - m - w)
                };
                let y = draw(rng, 1, lh - h - 1);
                (x, y)
            },
            RoomPlacementStrategy::NoiseGuided => {
                let x = draw(rng, 1, lw - w - 1);
                let y = draw(rng, 1, lh - h - 1);
                (x, y)
            },
        };
        let room_type = self.determine_room_type(room_id, config, rng);
        Room::new(room_id, Position::new(x as i32, y as i32), width, height, room_type)
    }

    /// Draws candidates until one fits in the level, at most
    /// `max_placement_attempts` times.
    pub fn try_place_room_overlapping(
        &self,
        level: &Level,
        config: &GenerationConfig,
        rng: &mut StdRng,
        room_id: u32,
    ) -> (r: Option<Room>)
        requires
            config.wf(),
            self.placement_fits(config, level.width as int, level.height as int),
            level.width <= MAX_SIDE,
            level.height <= MAX_SIDE,
        ensures
            self.max_placement_attempts == 0 ==> r is None,
            self.max_placement_attempts > 0 && !(self.room_placement_strategy is GridBased) ==> r is Some,
            r matches Some(room) ==> {
                &&& room.id == room_id
                &&& room_size_ok(config, &room)
                &&& room_in_interior(level, &room)
                &&& room_fits(level, &room)
                &&& room.fits()
                &&& room_id == 0 ==> room.room_type is Normal
            },
    {
        let mut attempt: u32 = 0;
        while attempt < self.max_placement_attempts
            invariant
                !(self.room_placement_strategy is GridBased) ==> attempt == 0,
                config.wf(),
                self.placement_fits(config, level.width as int, level.height as int),
                level.width <= MAX_SIDE,
                level.height <= MAX_SIDE,
            decreases self.max_placement_attempts - attempt,
        {
            let room = self.generate_room_candidate(level, config, rng, room_id);
            if self.room_fits_in_level(level, &room) {
                return Some(room);
            }
            attempt = attempt + 1;
        }
        None
    }

    /// Places a random number of rooms, between the configured bounds,
    /// overlaps allowed; fails when not a single room could be placed.
    pub fn place_rooms(&self, level: &Level, config: &GenerationConfig, rng: &mut StdRng) -> (r:
        ThatchResult<Vec<Room>>)
        requires
            config.wf(),
            self.placement_fits(config, level.width as int, level.height as int),
            level.width <= MAX_SIDE,
            level.height <= MAX_SIDE,
        ensures
            match r {
                Ok(rooms) => {
                    &&& 1 <= rooms@.len() <= config.max_rooms
                    &&& forall|i: int|
                        0 <= i < rooms@.len() ==> room_in_interior(level, &#[trigger] rooms@[i])
                            && room_fits(level, &rooms@[i]) && room_size_ok(config, &rooms@[i])
                            && rooms@[i].fits() && rooms@[i].id < config.max_rooms
                    &&& forall|i: int, j: int|
                        0 <= i < j < rooms@.len() ==> (#[trigger] rooms@[i]).id < (#[trigger] rooms@[j]).id
                    &&& rooms@[0].id == 0 ==> rooms@[0].room_type is Normal
                },
                Err(e) => e is GenerationFailed,
            },
            config.max_rooms == 0 || self.max_placement_attempts == 0 ==> r is Err,
            config.min_rooms > 0 && self.max_placement_attempts > 0 && !(
            self.room_placement_strategy is GridBased) ==> r is Ok,
    {
        let room_count = random_range(rng, config.min_rooms as u64, config.max_rooms as u64 + 1)
            as u32;
        let mut rooms: Vec<Room> = Vec::new();
        let mut room_id: u32 = 0;
        while room_id < room_count
            invariant
                config.wf(),
                self.placement_fits(config, level.width as int, level.height as int),
                level.width <= MAX_SIDE,
                level.height <= MAX_SIDE,
                room_count <= config.max_rooms,
                room_id <= room_count,
                rooms@.len() <= room_id,
                self.max_placement_attempts == 0 ==> rooms@.len() == 0,
                room_id > 0 && self.max_placement_attempts > 0 && !(
                self.room_placement_strategy is GridBased) ==> rooms@.len() > 0,
                forall|i: int|
                    0 <= i < rooms@.len() ==> room_in_interior(level, &#[trigger] rooms@[i])
                        && room_fits(level, &rooms@[i]) && room_size_ok(config, &rooms@[i])
                        && rooms@[i].fits() && rooms@[i].id < room_id,
                forall|i: int, j: int|
                    0 <= i < j < rooms@.len() ==> (#[trigger] rooms@[i]).id < (#[trigger] rooms@[j]).id,
                rooms@.len() > 0 && rooms@[0].id == 0 ==> rooms@[0].room_type is Normal,
            decreases room_count - room_id,
        {
            if let Some(room) = self.try_place_room_overlapping(level, config, rng, room_id) {
                rooms.push(room);
            }
            room_id = room_id + 1;
        }
        if rooms.len() == 0 {
            return Err(ThatchError::GenerationFailed("Failed to place any rooms".to_owned()));
        }
        Ok(rooms)
    }

    /// Whether a candidate room suits the placement strategy given the rooms
    /// already placed: edge-first placement keeps room centres at least
    /// eight steps apart; every other strategy accepts any room.
    pub fn validate_room_placement(
        &self,
        room: &Room,
        existing_rooms: &Vec<Room>,
        config: &GenerationConfig,
        rng: &mut StdRng,
    ) -> (r: bool)
        requires
            room.fits(),
            forall|i: int| 0 <= i < existing_rooms@.len() ==> (#[trigger] existing_rooms@[i]).fits(),
        ensures
            r == (self.room_placement_strategy is EdgeFirst ==> forall|i: int|
                0 <= i < existing_rooms@.len() ==> manhattan(
                    room.center_spec(),
                    (#[trigger] existing_rooms@[i]).center_spec(),
                ) >= MIN_EDGE_ROOM_SPACING),
    {
        match self.room_placement_strategy {
            RoomPlacementStrategy::EdgeFirst => {
                let c = room.center();
                let mut i: usize = 0;
                while i < existing_rooms.len()
                    invariant
                        self.room_placement_strategy is EdgeFirst,
                        c == room.center_spec(),
                        i <= existing_rooms@.len(),
                        forall|k: int| 0 <= k < existing_rooms@.len() ==> (#[trigger] existing_rooms@[k]).fits(),
                        forall|k: int|
                            0 <= k < i ==> manhattan(c, (#[trigger] existing_rooms@[k]).center_spec())
                                >= MIN_EDGE_ROOM_SPACING,
                    decreases existing_rooms@.len() - i,
                {
                    let e = existing_rooms[i].center();
                    let dx: i64 = if c.x >= e.x { c.x as i64 - e.x as i64 } else { e.x as i64 - c.x as i64 };
                    let dy: i64 = if c.y >= e.y { c.y as i64 - e.y as i64 } else { e.y as i64 - c.y as i64 };
                    if dx + dy < MIN_EDGE_ROOM_SPACING as i64 {
                        assert(manhattan(c, existing_rooms@[i as int].center_spec()) == dx + dy);
                        assert(self.room_placement_strategy is EdgeFirst);
                        assert(!(manhattan(room.center_spec(), existing_rooms@[i as int].center_spec())
                            >= MIN_EDGE_ROOM_SPACING));
                        return false;
                    }
                    i = i + 1;
                }
                true
            },
            _ => true,
        }
    }
}

/// `b` is `a`, or `a` with each side moved by at most one cell and kept
/// at three cells or more.
pub open spec fn smoothed(a: &Room, b: &Room) -> bool {
    &&& b.id == a.id
    &&& b.top_left == a.top_left
    &&& b.connections@ == a.connections@
    &&& (b.width == a.width && b.height == a.height) || (nudged(a.width as int, b.width as int)
        && nudged(a.height as int, b.height as int))
}

/// `b` is `a` moved by at most one, and raised to three if below.
pub open spec fn nudged(a: int, b: int) -> bool {
    b == max_int(a - 1, 3) || b == max_int(a, 3) || b == max_int(a + 1, 3)
}

/// The larger of two integers.
pub open spec fn max_int(a: int, b: int) -> int {
    if a >= b { a } else { b }
}

/// Roughens a layout: each room, with probability three in ten, has its
/// width and height each moved by at most one cell, never below three.
pub fn smooth_room_layout(rooms: &mut Vec<Room>, rng: &mut StdRng)
    requires
        forall|i: int|
            0 <= i < old(rooms)@.len() ==> (#[trigger] old(rooms)@[i]).width < u32::MAX
                && old(rooms)@[i].height < u32::MAX,
    ensures
        final(rooms)@.len() == old(rooms)@.len(),
        forall|i: int|
            0 <= i < final(rooms)@.len() ==> smoothed(&old(rooms)@[i], &#[trigger] final(rooms)@[i]),
{
    let ghost orig = rooms@;
    let mut i: usize = 0;
    while i < rooms.len()
        invariant
            rooms@.len() == orig.len(),
            i <= rooms@.len(),
            forall|k: int| 0 <= k < orig.len() ==> (#[trigger] orig[k]).width < u32::MAX && orig[k].height < u32::MAX,
            forall|k: int| 0 <= k < i ==> smoothed(&orig[k], &#[trigger] rooms@[k]),
            forall|k: int| i <= k < rooms@.len() ==> #[trigger] rooms@[k] == orig[k],
        decreases rooms@.len() - i,
    {
        let mut room = Room::new(0, Position::new(0, 0), 0, 0, RoomType::Normal);
        rooms.set_and_swap(i, &mut room);
        let ghost before = room;
        if random_ratio(rng, 3, 10) {
            let width_adjust = random_range(rng, 0, 3) as i64 - 1;
            let height_adjust = random_range(rng, 0, 3) as i64 - 1;
            let w = room.width as i64 + width_adjust;
            let h = room.height as i64 + height_adjust;
            room.width = if w > 3 { w as u32 } else { 3 };
            room.height = if h > 3 { h as u32 } else { 3 };
            proof {
                assert(room.width == max_int(before.width + width_adjust, 3));
                assert(room.height == max_int(before.height + height_adjust, 3));
            }
        }
        rooms.set_and_swap(i, &mut room);
        proof {
            assert(before == orig[i as int]);
            assert forall|k: int| 0 <= k < i + 1 implies smoothed(&orig[k], &#[trigger] rooms@[k]) by {
                if k == i {

                }
            }
        }
        i = i + 1;
    }
}

} // verus!