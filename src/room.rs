//! Rectangular rooms and their geometry.
use vstd::prelude::*;
use crate::geometry::{Position, manhattan};

verus! {

/// What a room is for.
#[derive(Debug, Clone, PartialEq, Eq)]
pub enum RoomType {
    Normal,
    Treasure,
    Boss,
    Shop,
    Puzzle,
    Sanctuary,
    Library,
    Prison,
    Throne,
    Secret,
    LldmGenerated { subtype: String },
}

/// A rectangle of the grid, walls included, with its bookkeeping.
#[derive(Debug, Clone)]
pub struct Room {
    pub id: u32,
    pub top_left: Position,
    pub width: u32,
    pub height: u32,
    pub room_type: RoomType,
    pub discovered: bool,
    pub connections: Vec<u32>,
    pub name: Option<String>,
    pub description: Option<String>,
    /// Key and value pairs; a key names the first pair that holds it.
    pub metadata: Vec<(String, String)>,
}

/// `p` lies in the rectangle with corner `tl` and the given size.
pub open spec fn rect_contains(tl: Position, width: int, height: int, p: Position) -> bool {
    tl.x <= p.x < tl.x + width && tl.y <= p.y < tl.y + height
}

/// `s` with every occurrence of `id` taken out, order kept.
pub open spec fn without(s: Seq<u32>, id: u32) -> Seq<u32>
    decreases s.len(),
{
    if s.len() == 0 {
        s
    } else {
        let rest = without(s.drop_last(), id);
        if s.last() == id {
            rest
        } else {
            rest.push(s.last())
        }
    }
}

/// Membership after a push, and a push of a new element keeps the
/// elements distinct.
pub proof fn lemma_push_contains(s: Seq<Position>, a: Position)
    ensures
        forall|q: Position| s.push(a).contains(q) <==> (s.contains(q) || q == a),
        s.no_duplicates() && !s.contains(a) ==> s.push(a).no_duplicates(),
{
    let t = s.push(a);
    assert forall|q: Position| t.contains(q) <==> (s.contains(q) || q == a) by {
        if t.contains(q) {
            let k = choose|k: int| 0 <= k < t.len() && t[k] == q;
            if k < s.len() {
                assert(s[k] == q);
            }
        }
        if s.contains(q) {
            let k = choose|k: int| 0 <= k < s.len() && s[k] == q;
            assert(t[k] == q);
        }
        if q == a {
            assert(t[s.len() as int] == q);
        }
    }
    if s.no_duplicates() && !s.contains(a) {
        assert forall|i: int, j: int| 0 <= i < t.len() && 0 <= j < t.len() && i != j implies t[i]
            != t[j] by {
            if i < s.len() && j < s.len() {
                assert(t[i] == s[i] && t[j] == s[j]);
            } else if i < s.len() {
                assert(t[i] == s[i]);
            } else if j < s.len() {
                assert(t[j] == s[j]);
            }
        }
    }
}

/// Index of the first pair whose key is `key`, if any.
pub open spec fn key_index(md: Seq<(String, String)>, key: Seq<char>, i: int) -> bool {
    &&& 0 <= i < md.len()
    &&& md[i].0@ == key
    &&& forall|j: int| 0 <= j < i ==> (#[trigger] md[j]).0@ != key
}

impl Room {
    /// Every cell of the room and the cell before its corner have `i32`
    /// coordinates.
    pub open spec fn fits(&self) -> bool {
        &&& i32::MIN < self.top_left.x
        &&& i32::MIN < self.top_left.y
        &&& self.top_left.x + self.width <= i32::MAX
        &&& self.top_left.y + self.height <= i32::MAX
    }

    /// `p` lies in the room, walls included.
    pub open spec fn holds(&self, p: Position) -> bool {
        rect_contains(self.top_left, self.width as int, self.height as int, p)
    }

    /// The centre cell of the room.
    pub open spec fn center_spec(&self) -> Position {
        Position {
            x: (self.top_left.x + self.width / 2) as i32,
            y: (self.top_left.y + self.height / 2) as i32,
        }
    }

    /// A room of the given placement, size and kind, undiscovered, with no
    /// connections, name, description or metadata.
    pub fn new(id: u32, top_left: Position, width: u32, height: u32, room_type: RoomType) -> (r:
        Room)
        ensures
            r.id == id,
            r.top_left == top_left,
            r.width == width,
            r.height == height,
            r.room_type == room_type,
            !r.discovered,
            r.connections@.len() == 0,
            r.name is None,
            r.description is None,
            r.metadata@.len() == 0,
    {
        Room {
            id,
            top_left,
            width,
            height,
            room_type,
            discovered: false,
            connections: Vec::new(),
            name: None,
            description: None,
            metadata: Vec::new(),
        }
    }

    /// The last cell of the room, at its bottom right.
    pub fn bottom_right(&self) -> (r: Position)
        requires
            self.fits(),
        ensures
            r.x == self.top_left.x + self.width - 1,
            r.y == self.top_left.y + self.height - 1,
    {
        Position::new(
            (self.top_left.x as i64 + self.width as i64 - 1) as i32,
            (self.top_left.y as i64 + self.height as i64 - 1) as i32,
        )
    }

    /// The centre cell, halves rounded down.
    pub fn center(&self) -> (r: Position)
        requires
            self.fits(),
        ensures
            r == self.center_spec(),
    {
        Position::new(
            (self.top_left.x as i64 + (self.width / 2) as i64) as i32,
            (self.top_left.y as i64 + (self.height / 2) as i64) as i32,
        )
    }

    /// The number of cells, walls included.
    pub fn area(&self) -> (r: u32)
        requires
            self.width * self.height <= u32::MAX,
        ensures
            r == self.width * self.height,
    {
        self.width * self.height
    }

    /// The number of cells inside the walls.
    pub fn inner_area(&self) -> (r: u32)
        requires
            self.width * self.height <= u32::MAX,
        ensures
            r == if self.width >= 2 && self.height >= 2 {
                (self.width - 2) * (self.height - 2)
            } else {
                0
            },
    {
        if self.width >= 2 && self.height >= 2 {
            proof {
                assert((self.width - 2) * (self.height - 2) <= self.width * self.height)
                    by (nonlinear_arith)
                    requires
                        self.width >= 2,
                        self.height >= 2,
                ;
            }
            (self.width - 2) * (self.height - 2)
        } else {
            0
        }
    }

    /// Whether `pos` lies in the room, walls included.
    pub fn contains(&self, pos: Position) -> (r: bool)
        ensures
            r == self.holds(pos),
    {
        pos.x >= self.top_left.x && pos.y >= self.top_left.y && (pos.x as i64) < self.top_left.x
            as i64 + self.width as i64 && (pos.y as i64) < self.top_left.y as i64
            + self.height as i64
    }

    /// Whether `pos` lies on the room's outer ring of cells.
    pub fn is_border(&self, pos: Position) -> (r: bool)
        ensures
            r == (self.holds(pos) && (pos.x == self.top_left.x || pos.y == self.top_left.y
                || pos.x == self.top_left.x + self.width - 1 || pos.y == self.top_left.y
                + self.height - 1)),
    {
        if !self.contains(pos) {
            return false;
        }
        pos.x == self.top_left.x || pos.y == self.top_left.y || pos.x as i64 == self.top_left.x
            as i64 + self.width as i64 - 1 || pos.y as i64 == self.top_left.y as i64
            + self.height as i64 - 1
    }

    /// Whether the two rectangles share a cell.
    pub fn overlaps(&self, other: &Room) -> (r: bool)
        ensures
            r == !(self.top_left.x >= other.top_left.x + other.width || other.top_left.x
                >= self.top_left.x + self.width || self.top_left.y >= other.top_left.y
                + other.height || other.top_left.y >= self.top_left.y + self.height),
    {
        !(self.top_left.x as i64 >= other.top_left.x as i64 + other.width as i64
            || other.top_left.x as i64 >= self.top_left.x as i64 + self.width as i64
            || self.top_left.y as i64 >= other.top_left.y as i64 + other.height as i64
            || other.top_left.y as i64 >= self.top_left.y as i64 + self.height as i64)
    }

    /// The cells of the rectangle `[x0, x1) x [y0, y1)`, row by row.
    fn cells_between(x0: i32, x1: i32, y0: i32, y1: i32) -> (r: Vec<Position>)
        ensures
            forall|q: Position| r@.contains(q) <==> (x0 <= q.x < x1 && y0 <= q.y < y1),
            r@.len() == (if x1 > x0 && y1 > y0 { (x1 - x0) * (y1 - y0) } else { 0 }),
            r@.no_duplicates(),
    {
        let mut v: Vec<Position> = Vec::new();
        if x1 <= x0 || y1 <= y0 {
            return v;
        }
        let mut y: i32 = y0;
        while y < y1
            invariant
                x0 < x1,
                y0 <= y <= y1,
                forall|q: Position| v@.contains(q) <==> (x0 <= q.x < x1 && y0 <= q.y < y),
                v@.len() == (x1 - x0) * (y - y0),
                v@.no_duplicates(),
            decreases y1 - y,
        {
            let ghost before = v@;
            let mut x: i32 = x0;
            while x < x1
                invariant
                    x0 <= x <= x1,
                    y0 <= y < y1,
                    forall|q: Position|
                        v@.contains(q) <==> (before.contains(q) || (q.y == y && x0 <= q.x < x)),
                    forall|q: Position|
                        before.contains(q) <==> (x0 <= q.x < x1 && y0 <= q.y < y),
                    v@.len() == before.len() + (x - x0),
                    v@.no_duplicates(),
                decreases x1 - x,
            {
                let q = Position::new(x, y);
                let ghost prev = v@;
                assert(!before.contains(q));
                assert(v@.contains(q) <==> (before.contains(q) || (q.y == y && x0 <= q.x < x)));
                v.push(q);
                proof {
                    lemma_push_contains(prev, q);
                }
                x = x + 1;
            }
            proof {
                assert((x1 - x0) * (y - y0) + (x1 - x0) == (x1 - x0) * (y + 1 - y0))
                    by (nonlinear_arith);
                assert forall|q: Position|
                    v@.contains(q) <==> (x0 <= q.x < x1 && y0 <= q.y < y + 1) by {
                    assert(v@.contains(q) <==> (before.contains(q) || (q.y == y && x0 <= q.x < x)));
                    assert(before.contains(q) <==> (x0 <= q.x < x1 && y0 <= q.y < y));
                }
            }
            y = y + 1;
        }
        v
    }

    /// The cells inside the walls.
    pub fn floor_positions(&self) -> (r: Vec<Position>)
        requires
            self.fits(),
        ensures
            forall|q: Position|
                r@.contains(q) <==> (self.top_left.x < q.x < self.top_left.x + self.width - 1
                    && self.top_left.y < q.y < self.top_left.y + self.height - 1),
            r@.no_duplicates(),
    {
        if self.width < 2 || self.height < 2 {
            return Vec::new();
        }
        Room::cells_between(
            (self.top_left.x as i64 + 1) as i32,
            (self.top_left.x as i64 + self.width as i64 - 1) as i32,
            (self.top_left.y as i64 + 1) as i32,
            (self.top_left.y as i64 + self.height as i64 - 1) as i32,
        )
    }

    /// The cells of the walls: the top and bottom rows, then the left and
    /// right columns between them.
    pub fn wall_positions(&self) -> (r: Vec<Position>)
        requires
            self.fits(),
        ensures
            forall|q: Position|
                r@.contains(q) <==> (self.holds(q) && (q.x == self.top_left.x || q.y
                    == self.top_left.y || q.x == self.top_left.x + self.width - 1 || q.y
                    == self.top_left.y + self.height - 1)),
            self.width >= 2 && self.height >= 2 ==> r@.no_duplicates() && r@.len() == 2
                * self.width + 2 * self.height - 4,
    {
        let tx = self.top_left.x;
        let ty = self.top_left.y;
        let right = (tx as i64 + self.width as i64 - 1) as i32;
        let bottom = (ty as i64 + self.height as i64 - 1) as i32;
        let mut v: Vec<Position> = Vec::new();
        if self.width == 0 || self.height == 0 {
            return v;
        }
        let mut x: i32 = tx;
        while x <= right
            invariant
                tx <= x <= right + 1,
                tx == self.top_left.x,
                ty == self.top_left.y,
                right == tx + self.width - 1,
                bottom == ty + self.height - 1,
                self.width >= 1,
                self.height >= 1,
                self.fits(),
                forall|q: Position|
                    v@.contains(q) <==> (tx <= q.x < x && (q.y == ty || q.y == bottom)),
                v@.len() == 2 * (x - tx),
                self.height >= 2 ==> v@.no_duplicates(),
            decreases right + 1 - x,
        {
            let ghost s0 = v@;
            assert(!s0.contains(Position { x, y: ty }));
            v.push(Position::new(x, ty));
            let ghost s1 = v@;
            proof {
                lemma_push_contains(s0, Position { x, y: ty });
                if self.height >= 2 {
                    assert(!s0.contains(Position { x, y: bottom }));
                    assert(s1.contains(Position { x, y: bottom }) <==> (s0.contains(
                        Position { x, y: bottom },
                    ) || Position { x, y: bottom } == Position { x, y: ty }));
                    assert(!s1.contains(Position { x, y: bottom }));
                }
            }
            v.push(Position::new(x, bottom));
            proof {
                lemma_push_contains(s0, Position { x, y: ty });
                lemma_push_contains(s1, Position { x, y: bottom });
                assert forall|q: Position|
                    v@.contains(q) <==> (tx <= q.x < x + 1 && (q.y == ty || q.y == bottom)) by {
                    assert(v@.contains(q) <==> (s0.contains(q) || q == Position { x, y: ty } || q
                        == Position { x, y: bottom }));
                }
            }
            x = x + 1;
        }
        let mut y: i32 = ty + 1;
        while y < bottom
            invariant
                ty + 1 <= y,
                y <= bottom || y == ty + 1,
                tx == self.top_left.x,
                ty == self.top_left.y,
                self.fits(),
                right == tx + self.width - 1,
                bottom == ty + self.height - 1,
                self.width >= 1,
                self.height >= 1,
                forall|q: Position|
                    v@.contains(q) <==> ((tx <= q.x <= right && (q.y == ty || q.y == bottom)) || (
                    ty < q.y < y && (q.x == tx || q.x == right))),
                self.height >= 2 ==> v@.len() == 2 * self.width + 2 * (y - ty - 1),
                self.width >= 2 && self.height >= 2 ==> v@.no_duplicates(),
            decreases bottom - y,
        {
            let ghost s0 = v@;
            assert(!s0.contains(Position { x: tx, y }));
            v.push(Position::new(tx, y));
            let ghost s1 = v@;
            proof {
                lemma_push_contains(s0, Position { x: tx, y });
                if self.width >= 2 {
                    assert(!s0.contains(Position { x: right, y }));
                    assert(s1.contains(Position { x: right, y }) <==> (s0.contains(
                        Position { x: right, y },
                    ) || Position { x: right, y } == Position { x: tx, y }));
                    assert(!s1.contains(Position { x: right, y }));
                }
            }
            v.push(Position::new(right, y));
            proof {
                lemma_push_contains(s0, Position { x: tx, y });
                lemma_push_contains(s1, Position { x: right, y });
                assert forall|q: Position|
                    v@.contains(q) <==> ((tx <= q.x <= right && (q.y == ty || q.y == bottom)) || (
                    ty < q.y < y + 1 && (q.x == tx || q.x == right))) by {
                    assert(v@.contains(q) <==> (s0.contains(q) || q == Position { x: tx, y } || q
                        == Position { x: right, y }));
                }
            }
            y = y + 1;
        }
        v
    }

    /// Every cell of the room, walls included, row by row.
    pub fn all_positions(&self) -> (r: Vec<Position>)
        requires
            self.fits(),
        ensures
            forall|q: Position| r@.contains(q) <==> self.holds(q),
            r@.len() == self.width * self.height,
            r@.no_duplicates(),
    {
        let r = Room::cells_between(
            self.top_left.x,
            (self.top_left.x as i64 + self.width as i64) as i32,
            self.top_left.y,
            (self.top_left.y as i64 + self.height as i64) as i32,
        );
        proof {
            assert(self.width == 0 ==> self.width * self.height == 0) by (nonlinear_arith);
            assert(self.height == 0 ==> self.width * self.height == 0) by (nonlinear_arith);
        }
        r
    }

    /// Whether the room lists a connection to `room_id`.
    fn has_connection(&self, room_id: u32) -> (r: bool)
        ensures
            r == self.connections@.contains(room_id),
    {
        let mut i: usize = 0;
        while i < self.connections.len()
            invariant
                i <= self.connections@.len(),
                forall|k: int| 0 <= k < i ==> self.connections@[k] != room_id,
            decreases self.connections@.len() - i,
        {
            if self.connections[i] == room_id {
                return true;
            }
            i = i + 1;
        }
        false
    }

    /// Records a connection to `room_id`, once.
    pub fn add_connection(&mut self, room_id: u32)
        ensures
            final(self).connections@ == if old(self).connections@.contains(room_id) {
                old(self).connections@
            } else {
                old(self).connections@.push(room_id)
            },
            final(self).id == old(self).id,
            final(self).top_left == old(self).top_left,
            final(self).width == old(self).width,
            final(self).height == old(self).height,
            final(self).room_type == old(self).room_type,
            final(self).discovered == old(self).discovered,
            final(self).name == old(self).name,
            final(self).description == old(self).description,
            final(self).metadata@ == old(self).metadata@,
    {
        if !self.has_connection(room_id) {
            self.connections.push(room_id);
        }
    }

    /// Forgets every connection to `room_id`, keeping the others in order.
    pub fn remove_connection(&mut self, room_id: u32)
        ensures
            final(self).connections@ == without(old(self).connections@, room_id),
            final(self).id == old(self).id,
            final(self).top_left == old(self).top_left,
            final(self).width == old(self).width,
            final(self).height == old(self).height,
            final(self).room_type == old(self).room_type,
            final(self).discovered == old(self).discovered,
            final(self).name == old(self).name,
            final(self).description == old(self).description,
            final(self).metadata@ == old(self).metadata@,
    {
        let mut kept: Vec<u32> = Vec::new();
        let mut i: usize = 0;
        while i < self.connections.len()
            invariant
                i <= self.connections@.len(),
                kept@ == without(self.connections@.take(i as int), room_id),
            decreases self.connections@.len() - i,
        {
            let c = self.connections[i];
            proof {
                assert(self.connections@.take(i + 1).drop_last() == self.connections@.take(i as int));
            }
            if c != room_id {
                kept.push(c);
            }
            i = i + 1;
        }
        proof {
            assert(self.connections@.take(i as int) == self.connections@);
        }
        self.connections = kept;
    }

    /// Index of the first metadata pair keyed `key`.
    fn find_key(&self, key: &str) -> (r: Option<usize>)
        ensures
            match r {
                Some(i) => key_index(self.metadata@, key@, i as int),
                None => forall|j: int|
                    0 <= j < self.metadata@.len() ==> (#[trigger] self.metadata@[j]).0@ != key@,
            },
    {
        let wanted = key.to_owned();
        let mut i: usize = 0;
        while i < self.metadata.len()
            invariant
                i <= self.metadata@.len(),
                wanted@ == key@,
                forall|j: int| 0 <= j < i ==> (#[trigger] self.metadata@[j]).0@ != key@,
            decreases self.metadata@.len() - i,
        {
            if self.metadata[i].0 == wanted {
                return Some(i);
            }
            i = i + 1;
        }
        None
    }

    /// Sets the value stored under `key`, adding the key if it is new.
    pub fn set_metadata(&mut self, key: String, value: String)
        ensures
            (exists|i: int| key_index(old(self).metadata@, key@, i)) ==> exists|i: int|
                key_index(old(self).metadata@, key@, i) && final(self).metadata@ == old(
                    self,
                ).metadata@.update(i, (key, value)),
            !(exists|i: int| key_index(old(self).metadata@, key@, i)) ==> final(self).metadata@
                == old(self).metadata@.push((key, value)),
            final(self).id == old(self).id,
            final(self).connections@ == old(self).connections@,
    {
        match self.find_key(key.as_str()) {
            Some(i) => {
                self.metadata.set(i, (key, value));
            },
            None => {
                proof {
                    assert forall|i: int| !key_index(self.metadata@, key@, i) by {
                        if 0 <= i < self.metadata@.len() {
                            assert(self.metadata@[i].0@ != key@);
                        }
                    }
                }
                self.metadata.push((key, value));
            },
        }
    }

    /// The value stored under `key`.
    pub fn get_metadata(&self, key: &str) -> (r: Option<&String>)
        ensures
            match r {
                Some(v) => exists|i: int|
                    key_index(self.metadata@, key@, i) && *v == self.metadata@[i].1,
                None => forall|j: int|
                    0 <= j < self.metadata@.len() ==> (#[trigger] self.metadata@[j]).0@ != key@,
            },
    {
        match self.find_key(key) {
            Some(i) => Some(&self.metadata[i].1),
            None => None,
        }
    }
}

/// Whether the centres of two rooms lie within `max_distance` steps.
pub fn rooms_are_adjacent(room1: &Room, room2: &Room, max_distance: u32) -> (r: bool)
    requires
        room1.fits(),
        room2.fits(),
        manhattan(room1.center_spec(), room2.center_spec()) <= i32::MAX,
    ensures
        r == (manhattan(room1.center_spec(), room2.center_spec()) <= max_distance),
{
    let center1 = room1.center();
    let center2 = room2.center();
    center1.manhattan_distance(center2) <= max_distance
}

/// The cells through which two rooms are joined: their centres.
pub fn find_connection_point(room1: &Room, room2: &Room) -> (r: (Position, Position))
    requires
        room1.fits(),
        room2.fits(),
    ensures
        r == (room1.center_spec(), room2.center_spec()),
{
    (room1.center(), room2.center())
}

} // verus!
