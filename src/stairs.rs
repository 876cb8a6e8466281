//! Planning of the staircases of every floor before any floor is built.
use vstd::prelude::*;
use rand::rngs::StdRng;
use crate::geometry::{Position, manhattan};
use crate::generator::RoomCorridorGenerator;
use crate::config::GenerationConfig;
use crate::random::random_range;

verus! {

/// Number of floors of a dungeon.
pub const FLOOR_COUNT: u32 = 26;

/// Width of every floor of a dungeon.
pub const FLOOR_WIDTH: u32 = 80;

/// Height of every floor of a dungeon.
pub const FLOOR_HEIGHT: u32 = 50;

/// Distance kept between a staircase and the edge of the floor.
pub const STAIR_MARGIN: i32 = 5;

/// Manhattan distance wanted between the two staircases of a floor.
pub const MIN_STAIR_SEPARATION: u32 = 10;

/// Extra draws allowed for a down staircase too close to the up staircase.
pub const STAIR_RETRIES: u32 = 20;

/// The up and down staircases of one floor.
pub type StairPair = (Option<Position>, Option<Position>);

/// `p` keeps the margin from every edge of a dungeon floor.
pub open spec fn in_stair_area(p: Position) -> bool {
    STAIR_MARGIN <= p.x < FLOOR_WIDTH - STAIR_MARGIN && STAIR_MARGIN <= p.y < FLOOR_HEIGHT
        - STAIR_MARGIN
}

/// The shape of a plan: one pair per floor, no up staircase on the first
/// floor, no down staircase on the last, both elsewhere, each floor's down
/// staircase at the next floor's up staircase, all inside the margin.
pub open spec fn stair_plan_ok(s: Seq<StairPair>) -> bool {
    &&& s.len() == FLOOR_COUNT
    &&& s[0].0 is None
    &&& s[FLOOR_COUNT - 1].1 is None
    &&& forall|k: int| 1 <= k < FLOOR_COUNT ==> (#[trigger] s[k]).0 is Some
    &&& forall|k: int| 0 <= k < FLOOR_COUNT - 1 ==> (#[trigger] s[k]).1 is Some
    &&& forall|k: int| 0 <= k < FLOOR_COUNT - 1 ==> (#[trigger] s[k]).1 == s[k + 1].0
    &&& forall|k: int|
        0 <= k < FLOOR_COUNT ==> ((#[trigger] s[k]).0 matches Some(p) ==> in_stair_area(p)) && (
        s[k].1 matches Some(p) ==> in_stair_area(p))
}

/// A random cell inside the stair margin.
fn random_stair_cell(rng: &mut StdRng) -> (r: Position)
    ensures
        in_stair_area(r),
{
    let x = random_range(rng, STAIR_MARGIN as u64, (FLOOR_WIDTH as i32 - STAIR_MARGIN) as u64);
    let y = random_range(rng, STAIR_MARGIN as u64, (FLOOR_HEIGHT as i32 - STAIR_MARGIN) as u64);
    Position::new(x as i32, y as i32)
}

/// Whether a drawn down staircase is kept: when it lies far enough from
/// the up staircase, or when the redraws are used up.
pub fn accept_down_stair(up: Position, candidate: Position, attempts: u32) -> (r: bool)
    requires
        in_stair_area(up),
        in_stair_area(candidate),
    ensures
        r == (attempts >= STAIR_RETRIES || manhattan(candidate, up) >= MIN_STAIR_SEPARATION),
{
    attempts >= STAIR_RETRIES || candidate.manhattan_distance(up) >= MIN_STAIR_SEPARATION
}

impl RoomCorridorGenerator {
    /// Plans the staircases of every floor. Each floor's up staircase is the
    /// down staircase of the floor above; each down staircase is drawn at
    /// random, and drawn again, a bounded number of times, while it lies
    /// too close to the floor's up staircase.
    pub fn generate_stair_layout(&self, config: &GenerationConfig, rng: &mut StdRng) -> (r: Vec<
        StairPair,
    >)
        ensures
            stair_plan_ok(r@),
    {
        let mut layout: Vec<StairPair> = Vec::new();
        let mut prev_down: Option<Position> = None;
        let mut floor: u32 = 0;
        while floor < FLOOR_COUNT
            invariant
                floor <= FLOOR_COUNT,
                layout@.len() == floor,
                floor == 0 ==> prev_down is None,
                floor > 0 ==> prev_down == layout@[floor - 1].1,
                floor > 0 ==> layout@[0].0 is None,
                forall|k: int| 1 <= k < floor ==> (#[trigger] layout@[k]).0 is Some,
                forall|k: int| 0 <= k < floor && k < FLOOR_COUNT - 1 ==> (#[trigger] layout@[k]).1 is Some,
                forall|k: int| 0 <= k < floor && k >= FLOOR_COUNT - 1 ==> (#[trigger] layout@[k]).1 is None,
                forall|k: int| 0 <= k < floor - 1 ==> (#[trigger] layout@[k]).1 == layout@[k + 1].0,
                forall|k: int|
                    0 <= k < floor ==> ((#[trigger] layout@[k]).0 matches Some(p) ==> in_stair_area(p))
                        && (layout@[k].1 matches Some(p) ==> in_stair_area(p)),
            decreases FLOOR_COUNT - floor,
        {
            let up = if floor > 0 { prev_down } else { None };
            let down = if floor < FLOOR_COUNT - 1 {
                let mut candidate = random_stair_cell(rng);
                if let Some(up_pos) = up {
                    let mut attempts: u32 = 0;
                    while !accept_down_stair(up_pos, candidate, attempts)
                        invariant
                            in_stair_area(candidate),
                            in_stair_area(up_pos),
                            attempts <= STAIR_RETRIES,
                        decreases STAIR_RETRIES - attempts,
                    {
                        candidate = random_stair_cell(rng);
                        attempts = attempts + 1;
                    }
                }
                Some(candidate)
            } else {
                None
            };
            layout.push((up, down));
            prev_down = down;
            floor = floor + 1;
        }
        layout
    }
}

} // verus!
