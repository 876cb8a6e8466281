//! Tiles, the level grid and the stack of levels.
use vstd::prelude::*;
use crate::geometry::Position;
use crate::error::ThatchError;

verus! {

/// Largest width or height of a level: coordinates, their neighbours and
/// the number of cells all stay far inside the machine's integer ranges.
pub const MAX_SIDE: u32 = 65535;

/// What a cell of the grid holds.
#[derive(Debug, Clone, PartialEq, Eq)]
pub enum TileType {
    Wall,
    Floor,
    Door { is_open: bool },
    StairsUp,
    StairsDown,
    Water,
    Special { description: String },
}

impl TileType {
    /// A copy of this kind.
    pub fn duplicate(&self) -> (r: TileType)
        ensures
            r == *self,
    {
        match self {
            TileType::Wall => TileType::Wall,
            TileType::Floor => TileType::Floor,
            TileType::Door { is_open } => TileType::Door { is_open: *is_open },
            TileType::StairsUp => TileType::StairsUp,
            TileType::StairsDown => TileType::StairsDown,
            TileType::Water => TileType::Water,
            TileType::Special { description } => TileType::Special { description: description.clone() },
        }
    }

    /// Whether a walker can stand on a tile of this kind: floor, an open door,
    /// either staircase and special tiles are passable.
    pub open spec fn passable(&self) -> bool {
        match self {
            TileType::Floor => true,
            TileType::Door { is_open } => *is_open,
            TileType::StairsUp => true,
            TileType::StairsDown => true,
            TileType::Special { .. } => true,
            TileType::Wall => false,
            TileType::Water => false,
        }
    }

    /// Passability of this kind of tile.
    pub fn is_passable(&self) -> (r: bool)
        ensures
            r == self.passable(),
    {
        match self {
            TileType::Floor => true,
            TileType::Door { is_open } => *is_open,
            TileType::StairsUp => true,
            TileType::StairsDown => true,
            TileType::Special { .. } => true,
            TileType::Wall => false,
            TileType::Water => false,
        }
    }

    /// Whether this is plain floor.
    pub fn is_floor(&self) -> (r: bool)
        ensures
            r == (*self is Floor),
    {
        matches!(self, TileType::Floor)
    }

    /// Whether this is a wall.
    pub fn is_wall(&self) -> (r: bool)
        ensures
            r == (*self is Wall),
    {
        matches!(self, TileType::Wall)
    }

    /// Whether this is a staircase, up or down.
    pub fn is_stairs(&self) -> (r: bool)
        ensures
            r == (*self is StairsUp || *self is StairsDown),
    {
        matches!(self, TileType::StairsUp | TileType::StairsDown)
    }
}

/// One cell of a level: its kind and what the player has seen of it.
#[derive(Debug, Clone, PartialEq, Eq)]
pub struct Tile {
    pub tile_type: TileType,
    pub visible: bool,
    pub explored: bool,
}

impl Tile {
    /// A tile of the given kind, unseen.
    pub open spec fn new_spec(tile_type: TileType) -> Tile {
        Tile { tile_type, visible: false, explored: false }
    }

    /// A tile of the given kind, neither visible nor explored.
    pub fn new(tile_type: TileType) -> (r: Tile)
        ensures
            r == Tile::new_spec(tile_type),
    {
        Tile { tile_type, visible: false, explored: false }
    }

    /// A copy of this tile.
    pub fn duplicate(&self) -> (r: Tile)
        ensures
            r == *self,
    {
        Tile { tile_type: self.tile_type.duplicate(), visible: self.visible, explored: self.explored }
    }

    /// A fresh floor tile, unseen.
    pub open spec fn floor_spec() -> Tile {
        Tile { tile_type: TileType::Floor, visible: false, explored: false }
    }

    /// A fresh wall tile, unseen.
    pub open spec fn wall_spec() -> Tile {
        Tile { tile_type: TileType::Wall, visible: false, explored: false }
    }

    /// A fresh floor tile.
    pub fn floor() -> (r: Tile)
        ensures
            r == Tile::floor_spec(),
    {
        Tile::new(TileType::Floor)
    }

    /// A fresh wall tile.
    pub fn wall() -> (r: Tile)
        ensures
            r == Tile::wall_spec(),
    {
        Tile::new(TileType::Wall)
    }
}

/// One floor of the dungeon: a `width` x `height` grid stored row by row,
/// with its spawn point and staircases.
#[derive(Debug, Clone)]
pub struct Level {
    pub id: u32,
    pub name: Option<String>,
    pub width: u32,
    pub height: u32,
    pub tiles: Vec<Tile>,
    pub player_spawn: Position,
    pub stairs_up_position: Option<Position>,
    pub stairs_down_position: Option<Position>,
}

/// Row-major index of `p` in a grid of the given width.
pub open spec fn cell_index(width: int, p: Position) -> int {
    p.y * width + p.x
}

/// `0 <= y * w + x < w * h` for a cell inside a `w` x `h` grid.
pub proof fn lemma_cell_index_bounds(w: int, h: int, x: int, y: int)
    requires
        0 <= x < w,
        0 <= y < h,
    ensures
        0 <= y * w + x < w * h,
        y * w + x < (y + 1) * w,
{
    assert(0 <= y * w) by (nonlinear_arith)
        requires
            0 <= y,
            0 <= w,
    ;
    assert((y + 1) * w <= h * w) by (nonlinear_arith)
        requires
            y + 1 <= h,
            0 <= w,
    ;
    assert((y + 1) * w == y * w + w) by (nonlinear_arith);
    assert(h * w == w * h) by (nonlinear_arith);
}

/// The cell count of a level fits in a `usize`.
pub proof fn lemma_cells_fit(w: int, h: int)
    requires
        0 <= w <= MAX_SIDE,
        0 <= h <= MAX_SIDE,
    ensures
        w * h <= usize::MAX,
        w * h <= 4294836225,
{
    assert(w * h <= 65535 * 65535) by (nonlinear_arith)
        requires
            0 <= w <= 65535,
            0 <= h <= 65535,
    ;
}

/// Distinct cells of a grid have distinct indices.
pub proof fn lemma_cell_index_injective(w: int, p: Position, q: Position)
    requires
        0 <= p.x < w,
        0 <= q.x < w,
        cell_index(w, p) == cell_index(w, q),
    ensures
        p == q,
{
    if p.y < q.y {
        assert(p.y * w + w <= q.y * w) by (nonlinear_arith)
            requires
                p.y + 1 <= q.y,
                0 <= w,
        ;
    } else if q.y < p.y {
        assert(q.y * w + w <= p.y * w) by (nonlinear_arith)
            requires
                q.y + 1 <= p.y,
                0 <= w,
        ;
    }
}

impl Level {
    /// The grid has the shape its dimensions give.
    pub open spec fn wf(&self) -> bool {
        &&& 1 <= self.width <= MAX_SIDE
        &&& 1 <= self.height <= MAX_SIDE
        &&& self.tiles@.len() == self.width * self.height
    }

    /// `p` is a cell of the grid.
    pub open spec fn in_bounds(&self, p: Position) -> bool {
        0 <= p.x < self.width && 0 <= p.y < self.height
    }

    /// `p` lies inside the permanent one-cell border.
    pub open spec fn in_interior(&self, p: Position) -> bool {
        0 < p.x < self.width - 1 && 0 < p.y < self.height - 1
    }

    /// The tile at a cell of the grid.
    pub open spec fn tile_at(&self, p: Position) -> Tile {
        self.tiles@[cell_index(self.width as int, p)]
    }

    /// The kind of the tile at a cell of the grid.
    pub open spec fn kind_at(&self, p: Position) -> TileType {
        self.tile_at(p).tile_type
    }

    /// `p` is a cell of the grid that can be walked on.
    pub open spec fn passable_at(&self, p: Position) -> bool {
        self.in_bounds(p) && self.kind_at(p).passable()
    }

    /// Some cell of the grid is plain floor.
    pub open spec fn has_floor(&self) -> bool {
        exists|i: int| 0 <= i < self.tiles@.len() && self.tiles@[i].tile_type is Floor
    }

    /// Some cell of the grid is a wall.
    pub open spec fn has_wall(&self) -> bool {
        exists|i: int| 0 <= i < self.tiles@.len() && self.tiles@[i].tile_type is Wall
    }

    /// `other` holds the same grid and data as `self`, but for the tiles.
    pub open spec fn same_frame(&self, other: &Level) -> bool {
        &&& self.id == other.id
        &&& self.name == other.name
        &&& self.width == other.width
        &&& self.height == other.height
        &&& self.tiles@.len() == other.tiles@.len()
        &&& self.player_spawn == other.player_spawn
        &&& self.stairs_up_position == other.stairs_up_position
        &&& self.stairs_down_position == other.stairs_down_position
    }

    /// A level of the given size, walls everywhere, spawning at the origin
    /// and without staircases.
    pub fn new(id: u32, width: u32, height: u32) -> (r: Level)
        requires
            1 <= width <= MAX_SIDE,
            1 <= height <= MAX_SIDE,
        ensures
            r.wf(),
            r.id == id,
            r.width == width,
            r.height == height,
            r.name is None,
            r.player_spawn == (Position { x: 0, y: 0 }),
            r.stairs_up_position is None,
            r.stairs_down_position is None,
            forall|i: int| 0 <= i < r.tiles@.len() ==> (#[trigger] r.tiles@[i]).tile_type is Wall,
    {
        proof {
            lemma_cells_fit(width as int, height as int);
        }
        let n: usize = width as usize * height as usize;
        let mut tiles: Vec<Tile> = Vec::new();
        while tiles.len() < n
            invariant
                tiles@.len() <= n,
                forall|i: int| 0 <= i < tiles@.len() ==> (#[trigger] tiles@[i]).tile_type is Wall,
            decreases n - tiles@.len(),
        {
            tiles.push(Tile::wall());
        }
        Level {
            id,
            name: None,
            width,
            height,
            tiles,
            player_spawn: Position::new(0, 0),
            stairs_up_position: None,
            stairs_down_position: None,
        }
    }

    /// Whether `pos` is a cell of the grid.
    pub fn is_valid_position(&self, pos: Position) -> (r: bool)
        ensures
            r == self.in_bounds(pos),
    {
        pos.x >= 0 && pos.y >= 0 && (pos.x as i64) < self.width as i64 && (pos.y as i64)
            < self.height as i64
    }

    /// Row-major index of a cell of the grid.
    pub fn index(&self, pos: Position) -> (r: usize)
        requires
            self.wf(),
            self.in_bounds(pos),
        ensures
            r == cell_index(self.width as int, pos),
            r < self.tiles@.len(),
    {
        proof {
            lemma_cell_index_bounds(self.width as int, self.height as int, pos.x as int, pos.y as int);
            lemma_cells_fit(self.width as int, self.height as int);
        }
        pos.y as usize * self.width as usize + pos.x as usize
    }

    /// The tile at `pos`, or `None` outside the grid.
    pub fn get_tile(&self, pos: Position) -> (r: Option<&Tile>)
        requires
            self.wf(),
        ensures
            match r {
                Some(t) => self.in_bounds(pos) && *t == self.tile_at(pos),
                None => !self.in_bounds(pos),
            },
    {
        if self.is_valid_position(pos) {
            let i = self.index(pos);
            Some(&self.tiles[i])
        } else {
            None
        }
    }

    /// Whether `pos` is a passable cell of the grid.
    pub fn is_passable_at(&self, pos: Position) -> (r: bool)
        requires
            self.wf(),
        ensures
            r == self.passable_at(pos),
    {
        if self.is_valid_position(pos) {
            let i = self.index(pos);
            self.tiles[i].tile_type.is_passable()
        } else {
            false
        }
    }

    /// Replaces the tile at `pos`; fails, changing nothing, outside the grid.
    pub fn set_tile(&mut self, pos: Position, tile: Tile) -> (r: Result<(), ThatchError>)
        requires
            old(self).wf(),
        ensures
            final(self).same_frame(old(self)),
            final(self).wf(),
            r is Ok <==> old(self).in_bounds(pos),
            r is Ok ==> final(self).tiles@ == old(self).tiles@.update(
                cell_index(old(self).width as int, pos),
                tile,
            ),
            r is Err ==> final(self).tiles@ == old(self).tiles@,
            r matches Err(e) ==> e is InvalidAction,
    {
        if self.is_valid_position(pos) {
            let i = self.index(pos);
            self.tiles.set(i, tile);
            Ok(())
        } else {
            Err(ThatchError::InvalidAction("position outside the level".to_owned()))
        }
    }

    /// Replaces the tile at a cell known to lie in the grid.
    pub fn put(&mut self, pos: Position, tile: Tile)
        requires
            old(self).wf(),
            old(self).in_bounds(pos),
        ensures
            final(self).same_frame(old(self)),
            final(self).wf(),
            final(self).tiles@ == old(self).tiles@.update(
                cell_index(old(self).width as int, pos),
                tile,
            ),
    {
        let i = self.index(pos);
        self.tiles.set(i, tile);
    }
}

} // verus!
