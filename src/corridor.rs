//! Straight corridors between two cells, used to rejoin staircases.
use vstd::prelude::*;
use crate::geometry::{Position, abs_int, manhattan, cardinal_neighbours, is_cardinal_step};
use crate::generator::RoomCorridorGenerator;
use crate::level::{Level, Tile, cell_index, lemma_cell_index_bounds};
use crate::error::ThatchResult;
use crate::connectivity::{connected, lemma_connected_refl, lemma_connected_step};

verus! {

/// `p` lies in the bounding box of `a` and `b`.
pub open spec fn in_box(a: Position, b: Position, p: Position) -> bool {
    &&& (a.x <= p.x <= b.x || b.x <= p.x <= a.x)
    &&& (a.y <= p.y <= b.y || b.y <= p.y <= a.y)
}

/// `s` is a line of cells from `a` to `b`: it starts at `a`, ends at `b`,
/// stays in their bounding box and moves at most one cell along each axis
/// per step.
pub open spec fn is_line(s: Seq<Position>, a: Position, b: Position) -> bool {
    &&& s.len() >= 1
    &&& s[0] == a
    &&& s.last() == b
    &&& forall|i: int| 0 <= i < s.len() ==> in_box(a, b, #[trigger] s[i])
    &&& forall|i: int|
        0 <= i < s.len() - 1 ==> abs_int(s[i + 1].x - (#[trigger] s[i]).x) <= 1 && abs_int(
            s[i + 1].y - s[i].y,
        ) <= 1
}

/// Every tile of the level is a wall or can be walked on: there is no water
/// and no closed door.
pub open spec fn walls_or_passable(level: &Level) -> bool {
    forall|p: Position|
        level.in_bounds(p) ==> (#[trigger] level.kind_at(p)) is Wall || level.kind_at(p).passable()
}

/// `new` is `old` with some tiles turned into floor: never a staircase, and
/// never a tile of the outer border.
pub open spec fn carved_from(old: &Level, new: &Level) -> bool {
    &&& old.wf()
    &&& new.wf()
    &&& new.same_frame(old)
    &&& forall|i: int|
        0 <= i < new.tiles@.len() ==> (#[trigger] new.tiles@[i]) == old.tiles@[i] || (
        new.tiles@[i] == Tile::floor_spec() && !(old.tiles@[i].tile_type is StairsUp)
            && !(old.tiles@[i].tile_type is StairsDown))
    &&& forall|p: Position|
        old.in_bounds(p) && !old.in_interior(p) ==> #[trigger] new.tile_at(p) == old.tile_at(p)
}

/// Carving keeps passable cells passable and walls-or-passable levels so.
pub proof fn lemma_carved_keeps(a: &Level, b: &Level)
    requires
        carved_from(a, b),
    ensures
        forall|p: Position| a.passable_at(p) ==> #[trigger] b.passable_at(p),
        walls_or_passable(a) ==> walls_or_passable(b),
{
    assert forall|p: Position| a.passable_at(p) implies #[trigger] b.passable_at(p) by {
        lemma_cell_index_bounds(a.width as int, a.height as int, p.x as int, p.y as int);
        let i = cell_index(a.width as int, p);
        assert(b.tiles@[i] == a.tiles@[i] || b.tiles@[i] == Tile::floor_spec());
    }
    if walls_or_passable(a) {
        assert forall|p: Position| b.in_bounds(p) implies (#[trigger] b.kind_at(p)) is Wall
            || b.kind_at(p).passable() by {
            lemma_cell_index_bounds(a.width as int, a.height as int, p.x as int, p.y as int);
            let i = cell_index(a.width as int, p);
            assert(b.tiles@[i] == a.tiles@[i] || b.tiles@[i] == Tile::floor_spec());
            assert(a.kind_at(p) is Wall || a.kind_at(p).passable());
        }
    }
}

/// A level is carved from itself.
pub proof fn lemma_carved_refl(a: &Level)
    requires
        a.wf(),
    ensures
        carved_from(a, a),
{
}

/// Carving composes.
pub proof fn lemma_carved_trans(a: &Level, b: &Level, c: &Level)
    requires
        carved_from(a, b),
        carved_from(b, c),
    ensures
        carved_from(a, c),
{
    assert forall|i: int| 0 <= i < c.tiles@.len() implies (#[trigger] c.tiles@[i]) == a.tiles@[i]
        || (c.tiles@[i] == Tile::floor_spec() && !(a.tiles@[i].tile_type is StairsUp)
        && !(a.tiles@[i].tile_type is StairsDown)) by {
        assert(b.tiles@[i] == a.tiles@[i] || b.tiles@[i] == Tile::floor_spec());
    }
    assert forall|p: Position| a.in_bounds(p) && !a.in_interior(p) implies #[trigger] c.tile_at(p)
        == a.tile_at(p) by {
        assert(b.tile_at(p) == a.tile_at(p));
    }
}

/// Turning one interior, non-staircase tile into floor is a carving.
proof fn lemma_carve_one(a: &Level, b: &Level, p: Position)
    requires
        a.wf(),
        a.in_interior(p),
        !(a.kind_at(p) is StairsUp),
        !(a.kind_at(p) is StairsDown),
        b.same_frame(a),
        b.wf(),
        b.tiles@ == a.tiles@.update(cell_index(a.width as int, p), Tile::floor_spec()),
    ensures
        carved_from(a, b),
        b.kind_at(p) is Floor,
{
    lemma_cell_index_bounds(a.width as int, a.height as int, p.x as int, p.y as int);
    assert forall|q: Position| a.in_bounds(q) && !a.in_interior(q) implies #[trigger] b.tile_at(q)
        == a.tile_at(q) by {
        lemma_cell_index_bounds(a.width as int, a.height as int, q.x as int, q.y as int);
        if cell_index(a.width as int, q) == cell_index(a.width as int, p) {
            crate::level::lemma_cell_index_injective(a.width as int, q, p);
        }
    }
}

/// One step of a line, from `p` to a passable `q` at most one cell away
/// along each axis, extends a walk when the interior cell beside `p` towards
/// `q` is passable.
proof fn lemma_line_step(level: &Level, a: Position, p: Position, q: Position)
    requires
        connected(level, a, p),
        level.passable_at(q),
        abs_int(q.x - p.x) <= 1,
        abs_int(q.y - p.y) <= 1,
        level.passable_at(Position { x: q.x, y: p.y }),
    ensures
        connected(level, a, q),
{
    if p == q {
    } else if manhattan(p, q) == 1 {
        lemma_connected_step(level, a, p, q);
    } else {
        let m = Position { x: q.x, y: p.y };
        lemma_connected_step(level, a, p, m);
        lemma_connected_step(level, a, m, q);
    }
}

/// The cells of the line `s` from `a` to `b`, which lie inside the border,
/// are passable, and so are the interior cells beside them.
#[verifier::opaque]
pub open spec fn line_open(level: &Level, s: Seq<Position>, a: Position, b: Position) -> bool {
    &&& level.wf()
    &&& is_line(s, a, b)
    &&& level.in_interior(a)
    &&& level.in_interior(b)
    &&& forall|i: int| 0 <= i < s.len() ==> level.passable_at(#[trigger] s[i])
    &&& forall|i: int, j: int|
        0 <= i < s.len() && 0 <= j < 4 && level.in_interior(
            #[trigger] cardinal_neighbours(s[i])[j],
        ) ==> level.passable_at(cardinal_neighbours(s[i])[j])
}

/// What one step of an open line gives: the next cell is passable, at most
/// one cell away along each axis, and the cell beside the previous one
/// towards it is passable.
proof fn lemma_line_open_step(level: &Level, s: Seq<Position>, a: Position, b: Position, k: int)
    requires
        line_open(level, s, a, b),
        1 <= k < s.len(),
    ensures
        s.len() >= 1,
        s[0] == a,
        s.last() == b,
        level.passable_at(s[k]),
        abs_int(s[k].x - s[k - 1].x) <= 1,
        abs_int(s[k].y - s[k - 1].y) <= 1,
        level.passable_at(Position { x: s[k].x, y: s[k - 1].y }),
{
    reveal(line_open);
    let p = s[k - 1];
    let q = s[k];
    assert(in_box(a, b, p));
    assert(in_box(a, b, q));
    assert(level.passable_at(q));
    let m = Position { x: q.x, y: p.y };
    if m != p {
        let j = if q.x < p.x { 1int } else { 2int };
        assert(cardinal_neighbours(p)[j] == m);
        assert(level.in_interior(m));
    } else {
        assert(level.passable_at(p));
    }
}

/// An open line connects its ends.
proof fn lemma_line_connects(level: &Level, s: Seq<Position>, a: Position, b: Position, k: int)
    requires
        line_open(level, s, a, b),
        0 <= k < s.len(),
    ensures
        connected(level, a, s[k]),
    decreases k,
{
    if k == 0 {
        reveal(line_open);
        lemma_connected_refl(level, a);
    } else {
        lemma_line_connects(level, s, a, b, k - 1);
        lemma_line_open_step(level, s, a, b, k);
        lemma_line_step(level, a, s[k - 1], s[k]);
    }
}

/// `p` is the cell `a` or shares an edge with it.
pub open spec fn at_or_beside(a: Position, p: Position) -> bool {
    a == p || is_cardinal_step(a, p)
}

/// `p` is a cell of the line `s` or shares an edge with one.
pub open spec fn near_line(s: Seq<Position>, p: Position) -> bool {
    exists|k: int| 0 <= k < s.len() && #[trigger] at_or_beside(s[k], p)
}

impl RoomCorridorGenerator {
    /// The cells of Bresenham's line from `start` to `end`, both included.
    pub fn line_between_points(&self, start: Position, end: Position) -> (r: Vec<Position>)
        ensures
            is_line(r@, start, end),
            r@.len() == 1 + if abs_int(end.x - start.x) >= abs_int(end.y - start.y) {
                abs_int(end.x - start.x)
            } else {
                abs_int(end.y - start.y)
            },
            r@.no_duplicates(),
    {
        let mut points: Vec<Position> = Vec::new();
        let mut x0: i64 = start.x as i64;
        let mut y0: i64 = start.y as i64;
        let x1: i64 = end.x as i64;
        let y1: i64 = end.y as i64;
        let dx: i64 = if x1 >= x0 { x1 - x0 } else { x0 - x1 };
        let dy: i64 = if y1 >= y0 { y1 - y0 } else { y0 - y1 };
        let sx: i64 = if x0 < x1 { 1 } else { -1 };
        let sy: i64 = if y0 < y1 { 1 } else { -1 };
        let mut err: i64 = dx - dy;
        let ghost mut kx: int = 0;
        let ghost mut ky: int = 0;
        points.push(start);
        while !(x0 == x1 && y0 == y1)
            invariant
                0 <= dx <= u32::MAX,
                0 <= dy <= u32::MAX,
                dx == abs_int(end.x - start.x),
                dy == abs_int(end.y - start.y),
                x1 == end.x,
                y1 == end.y,
                sx == (if start.x < end.x { 1int } else { -1int }),
                sy == (if start.y < end.y { 1int } else { -1int }),
                0 <= kx <= dx,
                0 <= ky <= dy,
                x0 == (if start.x < end.x { start.x + kx } else { start.x - kx }),
                y0 == (if start.y < end.y { start.y + ky } else { start.y - ky }),
                err == dx - dy - kx * dy + ky * dx,
                -2 * dy <= err <= 2 * dx,
                points@.len() >= 1,
                points@[0] == start,
                points@.last() == (Position { x: x0 as i32, y: y0 as i32 }),
                dx >= dy && !(kx == dx && ky == dy) ==> 2 * err > -dy,
                dx == dy ==> kx == ky,
                dy > dx ==> 2 * err < dx,
                dx >= dy ==> points@.len() == kx + 1,
                dy > dx ==> points@.len() == ky + 1,
                forall|i: int|
                    0 <= i < points@.len() ==> (dx >= dy ==> abs_int((#[trigger] points@[i]).x
                        - start.x) == i) && (dy > dx ==> abs_int(points@[i].y - start.y) == i),
                forall|i: int| 0 <= i < points@.len() ==> in_box(start, end, #[trigger] points@[i]),
                forall|i: int|
                    0 <= i < points@.len() - 1 ==> abs_int(points@[i + 1].x - (
                    #[trigger] points@[i]).x) <= 1 && abs_int(points@[i + 1].y - points@[i].y)
                        <= 1,
            decreases (dx - kx) + (dy - ky),
        {
            let e2: i64 = 2 * err;
            proof {
                lemma_line_step_bounds(dx as int, dy as int, kx, ky, err as int);
                lemma_line_dominant(dx as int, dy as int, kx, ky, err as int);
            }
            if e2 > -dy {
                err = err - dy;
                x0 = x0 + sx;
                proof {
                    assert((kx + 1) * dy == kx * dy + dy) by (nonlinear_arith);
                    kx = kx + 1;
                }
            }
            if e2 < dx {
                err = err + dx;
                y0 = y0 + sy;
                proof {
                    assert((ky + 1) * dx == ky * dx + dx) by (nonlinear_arith);
                    ky = ky + 1;
                }
            }
            let p = Position::new(x0 as i32, y0 as i32);
            let ghost before = points@;
            points.push(p);
            proof {
                assert(in_box(start, end, p));
                assert forall|i: int| 0 <= i < points@.len() - 1 implies abs_int(
                    points@[i + 1].x - (#[trigger] points@[i]).x,
                ) <= 1 && abs_int(points@[i + 1].y - points@[i].y) <= 1 by {
                    if i < before.len() - 1 {
                        assert(points@[i] == before[i] && points@[i + 1] == before[i + 1]);
                    } else {
                        assert(points@[i] == before.last());
                    }
                }
                assert forall|i: int| 0 <= i < points@.len() implies in_box(
                    start,
                    end,
                    #[trigger] points@[i],
                ) by {
                    if i < before.len() {
                        assert(points@[i] == before[i]);
                    }
                }
                assert forall|i: int|
                    0 <= i < points@.len() implies (dx >= dy ==> abs_int((#[trigger] points@[i]).x
                    - start.x) == i) && (dy > dx ==> abs_int(points@[i].y - start.y) == i) by {
                    if i < before.len() {
                        assert(points@[i] == before[i]);
                    }
                }
            }
        }
        proof {
            assert forall|i: int, j: int|
                0 <= i < points@.len() && 0 <= j < points@.len() && i != j implies points@[i]
                != points@[j] by {
                if dx >= dy {
                    assert(abs_int(points@[i].x - start.x) == i);
                    assert(abs_int(points@[j].x - start.x) == j);
                } else {
                    assert(abs_int(points@[i].y - start.y) == i);
                    assert(abs_int(points@[j].y - start.y) == j);
                }
            }
        }
        points
    }

    /// Joins `start` and `end` by a corridor: every cell of the line between
    /// them, and every cell beside the line that is not on the outer border,
    /// becomes floor, staircases excepted.
    pub fn create_stair_connection(&self, level: &mut Level, start: Position, end: Position) -> (r:
        ThatchResult<()>)
        requires
            old(level).wf(),
            old(level).in_interior(start),
            old(level).in_interior(end),
        ensures
            r is Ok,
            carved_from(old(level), final(level)),
            walls_or_passable(old(level)) ==> walls_or_passable(final(level)),
            forall|p: Position|
                old(level).in_bounds(p) && #[trigger] final(level).tile_at(p) != old(level).tile_at(p)
                    ==> connected(final(level), start, p),
            exists|s: Seq<Position>|
                {
                    &&& is_line(s, start, end)
                    &&& s.len() == 1 + if abs_int(end.x - start.x) >= abs_int(end.y - start.y) {
                        abs_int(end.x - start.x)
                    } else {
                        abs_int(end.y - start.y)
                    }
                    &&& s.no_duplicates()
                    &&& forall|p: Position|
                        old(level).in_bounds(p) && #[trigger] final(level).tile_at(p) != old(
                            level,
                        ).tile_at(p) ==> near_line(s, p)
                },
            connected(final(level), start, end),
    {
        let ghost orig = *level;
        let points = self.line_between_points(start, end);
        let mut k: usize = 0;
        while k < points.len()
            invariant
                is_line(points@, start, end),
                k <= points@.len(),
                orig.in_interior(start),
                orig.in_interior(end),
                carved_from(&orig, &*level),
                walls_or_passable(&orig) ==> walls_or_passable(&*level),
                forall|q: Position|
                    orig.in_bounds(q) && #[trigger] level.tile_at(q) != orig.tile_at(q) ==> near_line(
                        points@,
                        q,
                    ),
                forall|i: int| 0 <= i < k ==> level.passable_at(#[trigger] points@[i]),
            decreases points@.len() - k,
        {
            let p = points[k];
            assert(in_box(start, end, p));
            let i = level.index(p);
            if !level.tiles[i].tile_type.is_stairs() {
                let ghost before = *level;
                level.put(p, Tile::floor());
                proof {
                    crate::carving::lemma_put_tile(&before, &*level, p, Tile::floor_spec());
                    assert(at_or_beside(points@[k as int], p));
                    assert(near_line(points@, p));
                    assert forall|q: Position|
                        orig.in_bounds(q) && #[trigger] level.tile_at(q) != orig.tile_at(q) implies near_line(
                        points@,
                        q,
                    ) by {
                        if q != p {
                            assert(level.tile_at(q) == before.tile_at(q));
                        }
                    }
                    lemma_carve_one(&before, &*level, p);
                    lemma_carved_keeps(&before, &*level);
                    lemma_carved_trans(&orig, &before, &*level);
                }
            }
            k = k + 1;
        }
        let mut k: usize = 0;
        while k < points.len()
            invariant
                is_line(points@, start, end),
                k <= points@.len(),
                orig.in_interior(start),
                orig.in_interior(end),
                carved_from(&orig, &*level),
                walls_or_passable(&orig) ==> walls_or_passable(&*level),
                forall|q: Position|
                    orig.in_bounds(q) && #[trigger] level.tile_at(q) != orig.tile_at(q) ==> near_line(
                        points@,
                        q,
                    ),
                forall|i: int| 0 <= i < points@.len() ==> level.passable_at(#[trigger] points@[i]),
                forall|i: int, j: int|
                    0 <= i < k && 0 <= j < 4 && level.in_interior(
                        #[trigger] cardinal_neighbours(points@[i])[j],
                    ) ==> level.passable_at(cardinal_neighbours(points@[i])[j]),
            decreases points@.len() - k,
        {
            let p = points[k];
            assert(in_box(start, end, p));
            let adj = p.cardinal_adjacent_positions();
            let mut j: usize = 0;
            while j < 4
                invariant
                    is_line(points@, start, end),
                    k < points@.len(),
                    p == points@[k as int],
                    adj@ == cardinal_neighbours(p),
                    j <= 4,
                    orig.in_interior(start),
                    orig.in_interior(end),
                    carved_from(&orig, &*level),
                    walls_or_passable(&orig) ==> walls_or_passable(&*level),
                    forall|q: Position|
                        orig.in_bounds(q) && #[trigger] level.tile_at(q) != orig.tile_at(q) ==> near_line(
                            points@,
                            q,
                        ),
                    forall|i: int| 0 <= i < points@.len() ==> level.passable_at(#[trigger] points@[i]),
                    forall|i: int, jj: int|
                        0 <= i < k && 0 <= jj < 4 && level.in_interior(
                            #[trigger] cardinal_neighbours(points@[i])[jj],
                        ) ==> level.passable_at(cardinal_neighbours(points@[i])[jj]),
                    forall|jj: int|
                        0 <= jj < j && level.in_interior(#[trigger] cardinal_neighbours(p)[jj])
                            ==> level.passable_at(cardinal_neighbours(p)[jj]),
                decreases 4 - j,
            {
                let q = adj[j];
                if q.x > 0 && q.y > 0 && (q.x as i64) < level.width as i64 - 1 && (q.y as i64)
                    < level.height as i64 - 1 {
                    let i = level.index(q);
                    if !level.tiles[i].tile_type.is_stairs() {
                        let ghost before = *level;
                        level.put(q, Tile::floor());
                        proof {
                            crate::carving::lemma_put_tile(&before, &*level, q, Tile::floor_spec());
                            assert(cardinal_neighbours(points@[k as int])[j as int] == q);
                            assert(at_or_beside(points@[k as int], q));
                            assert(near_line(points@, q));
                            assert forall|q2: Position|
                                orig.in_bounds(q2) && #[trigger] level.tile_at(q2) != orig.tile_at(q2)
                                    implies near_line(points@, q2) by {
                                if q2 != q {
                                    assert(level.tile_at(q2) == before.tile_at(q2));
                                }
                            }
                            lemma_carve_one(&before, &*level, q);
                            lemma_carved_keeps(&before, &*level);
                            lemma_carved_trans(&orig, &before, &*level);
                        }
                    }
                }
                j = j + 1;
            }
            proof {
                assert forall|i: int, jj: int|
                    0 <= i < k + 1 && 0 <= jj < 4 && level.in_interior(
                        #[trigger] cardinal_neighbours(points@[i])[jj],
                    ) implies level.passable_at(cardinal_neighbours(points@[i])[jj]) by {
                    if i == k {
                        assert(points@[i] == p);
                    }
                }
            }
            k = k + 1;
        }
        proof {
            reveal(line_open);
            assert(line_open(&*level, points@, start, end));
            lemma_line_connects(&*level, points@, start, end, points@.len() - 1);
            lemma_corridor_reached(&orig, &*level, points@, start, end);
        }
        Ok(())
    }
}

/// Along a line, the coordinate with the larger distance to cover moves at
/// every step, and the error term stays on its side; when both distances
/// are equal both coordinates move together.
proof fn lemma_line_dominant(dx: int, dy: int, kx: int, ky: int, err: int)
    requires
        0 <= kx <= dx,
        0 <= ky <= dy,
        err == dx - dy - kx * dy + ky * dx,
        !(kx == dx && ky == dy),
        dx >= dy ==> 2 * err > -dy,
        dx == dy ==> kx == ky,
        dy > dx ==> 2 * err < dx,
    ensures
        dx >= dy ==> 2 * err > -dy,
        dx == dy ==> 2 * err > -dy && 2 * err < dx && err == 0,
        dx > dy && 2 * err < dx ==> 2 * (err - dy + dx) > -dy,
        dx > dy && 2 * err >= dx ==> 2 * (err - dy) > -dy,
        dy > dx ==> 2 * err < dx,
        dy > dx && 2 * err > -dy ==> 2 * (err - dy + dx) < dx,
        dy > dx && 2 * err <= -dy ==> 2 * (err + dx) < dx,
{
    if dx == dy {
        assert(kx * dy == ky * dx) by (nonlinear_arith)
            requires
                kx == ky,
                dx == dy,
        ;
    }
}

/// Every cell a corridor changed is reached from its start: the line's
/// cells along the line, and the cells beside it by one more step.
proof fn lemma_corridor_reached(
    orig: &Level,
    level: &Level,
    points: Seq<Position>,
    start: Position,
    end: Position,
)
    requires
        line_open(level, points, start, end),
        carved_from(orig, level),
        forall|q: Position|
            orig.in_bounds(q) && #[trigger] level.tile_at(q) != orig.tile_at(q) ==> near_line(points, q),
    ensures
        forall|p: Position|
            orig.in_bounds(p) && #[trigger] level.tile_at(p) != orig.tile_at(p) ==> connected(
                level,
                start,
                p,
            ),
{
    assert forall|p: Position|
        orig.in_bounds(p) && #[trigger] level.tile_at(p) != orig.tile_at(p) implies connected(
        level,
        start,
        p,
    ) by {
        assert(near_line(points, p));
        let k = choose|k: int| 0 <= k < points.len() && #[trigger] at_or_beside(points[k], p);
        lemma_line_connects(level, points, start, end, k);
        if points[k] != p {
            lemma_cell_index_bounds(orig.width as int, orig.height as int, p.x as int, p.y as int);
            let i = cell_index(orig.width as int, p);
            assert(level.tiles@[i] == Tile::floor_spec());
            lemma_connected_step(level, start, points[k], p);
        }
    }
}

/// One step of the line moves each coordinate at most to its end, and
/// keeps the error term in range; a step that moves nothing only happens
/// once both ends are reached.
proof fn lemma_line_step_bounds(dx: int, dy: int, kx: int, ky: int, err: int)
    requires
        0 <= kx <= dx,
        0 <= ky <= dy,
        err == dx - dy - kx * dy + ky * dx,
        -2 * dy <= err <= 2 * dx,
        !(kx == dx && ky == dy),
    ensures
        2 * err > -dy ==> kx < dx,
        2 * err < dx ==> ky < dy,
        2 * err > -dy || 2 * err < dx,
        -2 * dy <= err + (if 2 * err > -dy { -dy } else { 0 }) + (if 2 * err < dx { dx } else { 0 })
            <= 2 * dx,
{
    if kx == dx {
        assert(ky <= dy - 1);
        assert(err == dx * (1 + ky - dy) - dy) by (nonlinear_arith)
            requires
                err == dx - dy - kx * dy + ky * dx,
                kx == dx,
        ;
        assert(dx * (1 + ky - dy) <= 0) by (nonlinear_arith)
            requires
                dx >= 0,
                1 + ky - dy <= 0,
        ;
    }
    if ky == dy {
        assert(kx <= dx - 1);
        assert(err == dy * (dx - kx - 1) + dx) by (nonlinear_arith)
            requires
                err == dx - dy - kx * dy + ky * dx,
                ky == dy,
        ;
        assert(dy * (dx - kx - 1) >= 0) by (nonlinear_arith)
            requires
                dy >= 0,
                dx - kx - 1 >= 0,
        ;
    }
}

/// Carving keeps every floor tile.
pub proof fn lemma_carved_keeps_floor(a: &Level, b: &Level)
    requires
        carved_from(a, b),
        a.has_floor(),
    ensures
        b.has_floor(),
{
    let i = choose|i: int| 0 <= i < a.tiles@.len() && a.tiles@[i].tile_type is Floor;
    assert(b.tiles@[i] == a.tiles@[i] || b.tiles@[i] == Tile::floor_spec());
}

/// Cell by cell, carving keeps a tile or puts fresh floor.
pub proof fn lemma_carved_cells(a: &Level, b: &Level)
    requires
        carved_from(a, b),
    ensures
        forall|p: Position|
            a.in_bounds(p) ==> #[trigger] b.tile_at(p) == a.tile_at(p) || b.tile_at(p) == Tile::floor_spec(),
{
    assert forall|p: Position|
        a.in_bounds(p) implies #[trigger] b.tile_at(p) == a.tile_at(p) || b.tile_at(p) == Tile::floor_spec() by {
        lemma_cell_index_bounds(a.width as int, a.height as int, p.x as int, p.y as int);
        let i = cell_index(a.width as int, p);
        assert(b.tiles@[i] == a.tiles@[i] || b.tiles@[i] == Tile::floor_spec());
    }
}

} // verus!
