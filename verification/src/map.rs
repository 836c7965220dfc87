//! The tile grid: walls and floors, what has been seen, what is blocked,
//! and who stands where.

use vstd::prelude::*;
use crate::components::Entity;
use crate::outside::roll_dice;

verus! {

#[derive(Clone, Copy, PartialEq, Eq, Structural, Debug)]
pub enum TileType {
    Wall,
    Floor,
}

/// An axis-aligned rectangle of tiles, from `(x1, y1)` to `(x2, y2)`.
#[derive(Clone, Copy, PartialEq, Eq, Structural, Debug)]
pub struct Rect {
    pub x1: i32,
    pub x2: i32,
    pub y1: i32,
    pub y2: i32,
}

impl Rect {
    /// The rectangle with corner `(x, y)`, `w` wide and `h` high.
    pub fn new(x: i32, y: i32, w: i32, h: i32) -> (r: Rect)
        requires
            i32::MIN <= x + w <= i32::MAX,
            i32::MIN <= y + h <= i32::MAX,
        ensures
            r == (Rect { x1: x, x2: (x + w) as i32, y1: y, y2: (y + h) as i32 }),
    {
        Rect { x1: x, x2: x + w, y1: y, y2: y + h }
    }

    /// Whether the two rectangles share a tile, borders included.
    pub open spec fn overlaps(self, other: Rect) -> bool {
        self.x1 <= other.x2 && self.x2 >= other.x1 && self.y1 <= other.y2 && self.y2 >= other.y1
    }

    pub fn intersect(&self, other: &Rect) -> (b: bool)
        ensures
            b == self.overlaps(*other),
    {
        self.x1 <= other.x2 && self.x2 >= other.x1 && self.y1 <= other.y2 && self.y2 >= other.y1
    }

    /// The middle of the rectangle, rounded towards zero.
    pub open spec fn middle(self) -> (int, int) {
        (
            half_toward_zero(self.x1 as int + self.x2 as int),
            half_toward_zero(self.y1 as int + self.y2 as int),
        )
    }

    pub fn center(&self) -> (c: (i32, i32))
        ensures
            (c.0 as int, c.1 as int) == self.middle(),
    {
        let x: i64 = (self.x1 as i64 + self.x2 as i64) / 2;
        let y: i64 = (self.y1 as i64 + self.y2 as i64) / 2;
        (x as i32, y as i32)
    }
}

/// Half of `n`, rounded towards zero.
pub open spec fn half_toward_zero(n: int) -> int {
    if n >= 0 {
        n / 2
    } else {
        -((-n) / 2)
    }
}

pub struct GameMap {
    pub tiles: Vec<TileType>,
    pub rooms: Vec<Rect>,
    pub width: i32,
    pub height: i32,
    pub revealed_tiles: Vec<bool>,
    pub visible_tiles: Vec<bool>,
    pub blocked_tiles: Vec<bool>,
    pub tile_content: Vec<Vec<Entity>>,
}

pub struct GameMapView {
    pub tiles: Seq<TileType>,
    pub rooms: Seq<Rect>,
    pub width: i32,
    pub height: i32,
    pub revealed_tiles: Seq<bool>,
    pub visible_tiles: Seq<bool>,
    pub blocked_tiles: Seq<bool>,
    pub tile_content: Seq<Seq<Entity>>,
}

impl GameMapView {
    /// The number of tiles.
    pub open spec fn area(self) -> int {
        self.width * self.height
    }

    /// The grid has a positive size and every per-tile list covers it.
    pub open spec fn wf(self) -> bool {
        &&& 0 < self.width
        &&& 0 < self.height
        &&& self.tiles.len() == self.area()
        &&& self.revealed_tiles.len() == self.area()
        &&& self.visible_tiles.len() == self.area()
        &&& self.blocked_tiles.len() == self.area()
        &&& self.tile_content.len() == self.area()
    }

    pub open spec fn in_bounds(self, x: int, y: int) -> bool {
        0 <= x < self.width && 0 <= y < self.height
    }

    /// The index of the tile at `(x, y)`, rows first.
    pub open spec fn xy_idx(self, x: int, y: int) -> int {
        y * self.width + x
    }
}

/// An index computed from coordinates inside the grid is inside the grid.
pub proof fn lemma_xy_idx_in_range(m: GameMapView, x: int, y: int)
    requires
        m.wf(),
        m.in_bounds(x, y),
    ensures
        0 <= m.xy_idx(x, y) < m.area(),
        m.xy_idx(x, y) % (m.width as int) == x,
        m.xy_idx(x, y) / (m.width as int) == y,
{
    let w = m.width as int;
    assert(y * w + x < m.height * w) by (nonlinear_arith)
        requires 0 <= x < w, 0 <= y < m.height;
    assert(0 <= y * w) by (nonlinear_arith)
        requires 0 <= y, 0 < w;
    assert(m.height * w == w * m.height) by (nonlinear_arith);
    vstd::arithmetic::div_mod::lemma_fundamental_div_mod_converse(y * w + x, w, y, x);
}

/// Coordinates computed from an index inside the grid are inside the grid,
/// and give the index back.
pub proof fn lemma_idx_to_xy(m: GameMapView, idx: int)
    requires
        m.wf(),
        0 <= idx < m.area(),
    ensures
        m.in_bounds(idx % (m.width as int), idx / (m.width as int)),
        m.xy_idx(idx % (m.width as int), idx / (m.width as int)) == idx,
{
    let w = m.width as int;
    vstd::arithmetic::div_mod::lemma_fundamental_div_mod(idx, w);
    vstd::arithmetic::div_mod::lemma_mod_bound(idx, w);
    assert(w * (idx / w) == (idx / w) * w) by (nonlinear_arith);
    assert(0 <= idx / w) by (nonlinear_arith)
        requires 0 <= idx, 0 < w;
    assert(idx / w < m.height) by (nonlinear_arith)
        requires idx < w * m.height, 0 < w, idx == w * (idx / w) + idx % w, 0 <= idx % w;
}

impl View for GameMap {
    type V = GameMapView;

    open spec fn view(&self) -> GameMapView {
        GameMapView {
            tiles: self.tiles@,
            rooms: self.rooms@,
            width: self.width,
            height: self.height,
            revealed_tiles: self.revealed_tiles@,
            visible_tiles: self.visible_tiles@,
            blocked_tiles: self.blocked_tiles@,
            tile_content: Seq::new(self.tile_content@.len(), |i: int| self.tile_content@[i]@),
        }
    }
}

impl GameMap {
    pub open spec fn wf(&self) -> bool {
        self@.wf()
    }

    /// A map of the given size that is all wall: nothing seen, every tile
    /// blocked, nobody anywhere.
    pub fn new(width: i32, height: i32) -> (map: GameMap)
        requires
            0 < width,
            0 < height,
            width * height <= usize::MAX,
        ensures
            map.wf(),
            map@.width == width,
            map@.height == height,
            map@.rooms.len() == 0,
            forall|i: int| 0 <= i < map@.area() ==> map@.tiles[i] == TileType::Wall,
            forall|i: int| 0 <= i < map@.area() ==> !map@.revealed_tiles[i],
            forall|i: int| 0 <= i < map@.area() ==> !map@.visible_tiles[i],
            forall|i: int| 0 <= i < map@.area() ==> map@.blocked_tiles[i],
            forall|i: int| 0 <= i < map@.area() ==> (#[trigger] map@.tile_content[i]).len() == 0,
    {
        assert(0 < width * height <= usize::MAX) by (nonlinear_arith)
            requires 0 < width, 0 < height, width * height <= usize::MAX;
        let area: usize = (width as usize) * (height as usize);
        let mut map = GameMap {
            tiles: Vec::new(),
            rooms: Vec::new(),
            width,
            height,
            revealed_tiles: Vec::new(),
            visible_tiles: Vec::new(),
            blocked_tiles: Vec::new(),
            tile_content: Vec::new(),
        };
        let mut i: usize = 0;
        while i < area
            invariant
                i <= area,
                area == width * height,
                map.width == width,
                map.height == height,
                map.rooms@.len() == 0,
                map.tiles@.len() == i,
                map.revealed_tiles@.len() == i,
                map.visible_tiles@.len() == i,
                map.blocked_tiles@.len() == i,
                map.tile_content@.len() == i,
                forall|j: int| 0 <= j < i ==> map.tiles@[j] == TileType::Wall,
                forall|j: int| 0 <= j < i ==> !map.revealed_tiles@[j],
                forall|j: int| 0 <= j < i ==> !map.visible_tiles@[j],
                forall|j: int| 0 <= j < i ==> map.blocked_tiles@[j],
                forall|j: int| 0 <= j < i ==> (#[trigger] map.tile_content@[j])@.len() == 0,
            decreases area - i,
        {
            map.tiles.push(TileType::Wall);
            map.revealed_tiles.push(false);
            map.visible_tiles.push(false);
            map.blocked_tiles.push(true);
            map.tile_content.push(Vec::new());
            i = i + 1;
        }
        map
    }

    pub fn in_bounds(&self, x: i32, y: i32) -> (b: bool)
        ensures
            b == self@.in_bounds(x as int, y as int),
    {
        0 <= x && x < self.width && 0 <= y && y < self.height
    }

    /// The index of the tile at `(x, y)`.
    pub fn xy_idx(&self, x: i32, y: i32) -> (idx: usize)
        requires
            self.wf(),
            self@.in_bounds(x as int, y as int),
        ensures
            idx == self@.xy_idx(x as int, y as int),
            idx < self@.area(),
    {
        proof {
            lemma_xy_idx_in_range(self@, x as int, y as int);
            assert(0 <= y * self.width) by (nonlinear_arith)
                requires 0 <= y, 0 < self.width;
            assert(self@.area() == self.tiles.len());
        }
        let row: usize = y as usize;
        let width: usize = self.width as usize;
        assert(row * width == y * self.width) by (nonlinear_arith)
            requires row == y, width == self.width;
        row * width + (x as usize)
    }

    /// The index of the tile at `(x, y)`, if there is such a tile.
    pub fn index_of(&self, x: i32, y: i32) -> (idx: Option<usize>)
        requires
            self.wf(),
        ensures
            idx is Some <==> self@.in_bounds(x as int, y as int),
            idx is Some ==> idx->0 == self@.xy_idx(x as int, y as int) && idx->0 < self@.area(),
    {
        if self.in_bounds(x, y) {
            Some(self.xy_idx(x, y))
        } else {
            None
        }
    }

    /// The coordinates of the tile with index `idx`.
    pub fn idx_xy(&self, idx: usize) -> (p: (i32, i32))
        requires
            self.wf(),
            idx < self@.area(),
        ensures
            p.0 == idx as int % (self@.width as int),
            p.1 == idx as int / (self@.width as int),
            self@.in_bounds(p.0 as int, p.1 as int),
            self@.xy_idx(p.0 as int, p.1 as int) == idx,
    {
        proof {
            lemma_idx_to_xy(self@, idx as int);
        }
        let w: usize = self.width as usize;
        ((idx % w) as i32, (idx / w) as i32)
    }

    /// Turns the tile at `(x, y)` into `tile`; a tile outside the grid is
    /// left alone.
    pub fn set_tile(&mut self, x: i32, y: i32, tile: TileType)
        requires
            old(self).wf(),
        ensures
            final(self).wf(),
            final(self)@ == (if old(self)@.in_bounds(x as int, y as int) {
                GameMapView {
                    tiles: old(self)@.tiles.update(old(self)@.xy_idx(x as int, y as int), tile),
                    ..old(self)@
                }
            } else {
                old(self)@
            }),
    {
        if self.in_bounds(x, y) {
            let idx = self.xy_idx(x, y);
            self.tiles[idx] = tile;
            assert(self@.tile_content =~= old(self)@.tile_content);
        }
    }

    /// Blocks exactly the walls.
    pub fn populate_blocked(&mut self)
        requires
            old(self).wf(),
        ensures
            final(self).wf(),
            final(self)@ == (GameMapView {
                blocked_tiles: Seq::new(
                    old(self)@.tiles.len(),
                    |i: int| old(self)@.tiles[i] == TileType::Wall,
                ),
                ..old(self)@
            }),
    {
        let n = self.tiles.len();
        let mut i: usize = 0;
        while i < n
            invariant
                i <= n,
                n == self.tiles@.len(),
                self.wf(),
                self@.tiles == old(self)@.tiles,
                self@.blocked_tiles.len() == n,
                forall|j: int| 0 <= j < i ==> self@.blocked_tiles[j] == (self@.tiles[j] == TileType::Wall),
                self@ == (GameMapView { blocked_tiles: self@.blocked_tiles, ..old(self)@ }),
            decreases n - i,
        {
            let wall = match self.tiles[i] {
                TileType::Wall => true,
                TileType::Floor => false,
            };
            self.blocked_tiles[i] = wall;
            assert(self@.tile_content =~= old(self)@.tile_content);
            i = i + 1;
        }
        assert(self@.blocked_tiles =~= Seq::new(
            old(self)@.tiles.len(),
            |i: int| old(self)@.tiles[i] == TileType::Wall,
        ));
    }

    /// Empties the list of occupants of every tile.
    pub fn clear_content_index(&mut self)
        requires
            old(self).wf(),
        ensures
            final(self).wf(),
            final(self)@ == (GameMapView {
                tile_content: Seq::new(
                    old(self)@.tile_content.len(),
                    |i: int| Seq::<Entity>::empty(),
                ),
                ..old(self)@
            }),
    {
        let n = self.tile_content.len();
        let mut i: usize = 0;
        while i < n
            invariant
                i <= n,
                n == self.tile_content@.len(),
                self.wf(),
                forall|j: int| 0 <= j < i ==> (#[trigger] self.tile_content@[j])@.len() == 0,
                self@ == (GameMapView { tile_content: self@.tile_content, ..old(self)@ }),
            decreases n - i,
        {
            self.tile_content[i].clear();
            assert(self.tile_content@[i as int]@.len() == 0);
            i = i + 1;
        }
        assert forall|j: int| 0 <= j < n implies #[trigger] self@.tile_content[j] == Seq::<Entity>::empty() by {
            assert(self.tile_content@[j]@.len() == 0);
            assert(self@.tile_content[j] =~= Seq::<Entity>::empty());
        }
        assert(self@.tile_content =~= Seq::new(
            old(self)@.tile_content.len(),
            |i: int| Seq::<Entity>::empty(),
        ));
    }
}

/// The step to the neighbour with the number `k` of a tile, and whether it
/// is a diagonal one: west, east, north, south, and then the four
/// diagonals.
pub open spec fn step_at(k: int) -> (int, int, bool) {
    if k == 0 {
        (-1, 0, false)
    } else if k == 1 {
        (1, 0, false)
    } else if k == 2 {
        (0, -1, false)
    } else if k == 3 {
        (0, 1, false)
    } else if k == 4 {
        (-1, -1, true)
    } else if k == 5 {
        (1, -1, true)
    } else if k == 6 {
        (-1, 1, true)
    } else {
        (1, 1, true)
    }
}

fn step(k: usize) -> (s: (i32, i32, bool))
    requires
        k < 8,
    ensures
        (s.0 as int, s.1 as int, s.2) == step_at(k as int),
{
    if k == 0 {
        (-1, 0, false)
    } else if k == 1 {
        (1, 0, false)
    } else if k == 2 {
        (0, -1, false)
    } else if k == 3 {
        (0, 1, false)
    } else if k == 4 {
        (-1, -1, true)
    } else if k == 5 {
        (1, -1, true)
    } else if k == 6 {
        (-1, 1, true)
    } else {
        (1, 1, true)
    }
}

impl GameMapView {
    /// Whether every wall is blocked.
    pub open spec fn walls_blocked(self) -> bool {
        forall|i: int| 0 <= i < self.tiles.len() && self.tiles[i] == TileType::Wall ==> #[trigger] self.blocked_tiles[i]
    }

    /// Whether the tile at `(x, y)` can be walked onto: it is a tile of
    /// the map outside its first row and column, and it is not blocked.
    pub open spec fn enterable(self, x: int, y: int) -> bool {
        1 <= x <= self.width - 1 && 1 <= y <= self.height - 1 && !self.blocked_tiles[self.xy_idx(x, y)]
    }

    /// The exits of the tile with index `idx` among its first `n`
    /// neighbours: the index of each neighbour that can be walked onto, and
    /// whether the step to it is a diagonal one.
    pub open spec fn exits_upto(self, idx: int, n: nat) -> Seq<(usize, bool)>
        decreases n,
    {
        if n == 0 {
            Seq::empty()
        } else {
            let before = self.exits_upto(idx, (n - 1) as nat);
            let x = idx % (self.width as int) + step_at(n - 1).0;
            let y = idx / (self.width as int) + step_at(n - 1).1;
            if self.enterable(x, y) {
                before.push((self.xy_idx(x, y) as usize, step_at(n - 1).2))
            } else {
                before
            }
        }
    }

    /// The exits of the tile with index `idx`; none, where there is no such
    /// tile.
    pub open spec fn exits(self, idx: int) -> Seq<(usize, bool)> {
        if 0 <= idx < self.area() {
            self.exits_upto(idx, 8)
        } else {
            Seq::empty()
        }
    }
}

/// A copy of a list of plain values.
pub fn copy_of<T: Copy>(list: &Vec<T>) -> (copy: Vec<T>)
    ensures
        copy@ == list@,
{
    let mut copy: Vec<T> = Vec::new();
    let mut i: usize = 0;
    while i < list.len()
        invariant
            i <= list.len(),
            copy@ == list@.take(i as int),
        decreases list.len() - i,
    {
        copy.push(list[i]);
        assert(copy@ =~= list@.take(i + 1));
        i = i + 1;
    }
    assert(list@.take(i as int) =~= list@);
    copy
}

/// The map of a game as it is handed to whoever saves the game.
pub struct SerializationHelper {
    pub map: GameMap,
}

impl GameMap {
    /// The tiles that can be walked onto from the tile with index `idx`,
    /// each with whether the step to it is a diagonal one.
    pub fn exits(&self, idx: usize) -> (found: Vec<(usize, bool)>)
        requires
            self.wf(),
        ensures
            found@ == self@.exits(idx as int),
    {
        let mut found: Vec<(usize, bool)> = Vec::new();
        if idx >= self.tiles.len() {
            return found;
        }
        let (x, y) = self.idx_xy(idx);
        let mut k: usize = 0;
        while k < 8
            invariant
                k <= 8,
                self.wf(),
                idx < self@.area(),
                x == idx as int % (self@.width as int),
                y == idx as int / (self@.width as int),
                self@.in_bounds(x as int, y as int),
                found@ == self@.exits_upto(idx as int, k as nat),
            decreases 8 - k,
        {
            let (dx, dy, diagonal) = step(k);
            let nx = x + dx;
            let ny = y + dy;
            if 1 <= nx && nx <= self.width - 1 && 1 <= ny && ny <= self.height - 1 {
                let to = self.xy_idx(nx, ny);
                if !self.blocked_tiles[to] {
                    found.push((to, diagonal));
                }
            }
            k = k + 1;
        }
        found
    }

    /// A copy of the map.
    pub fn duplicate(&self) -> (copy: GameMap)
        ensures
            copy@ == self@,
    {
        let mut content: Vec<Vec<Entity>> = Vec::new();
        let mut i: usize = 0;
        while i < self.tile_content.len()
            invariant
                i <= self.tile_content.len(),
                content@.len() == i,
                forall|j: int| 0 <= j < i ==> (#[trigger] content@[j])@ == self.tile_content@[j]@,
            decreases self.tile_content.len() - i,
        {
            content.push(copy_of(&self.tile_content[i]));
            i = i + 1;
        }
        let copy = GameMap {
            tiles: copy_of(&self.tiles),
            rooms: copy_of(&self.rooms),
            width: self.width,
            height: self.height,
            revealed_tiles: copy_of(&self.revealed_tiles),
            visible_tiles: copy_of(&self.visible_tiles),
            blocked_tiles: copy_of(&self.blocked_tiles),
            tile_content: content,
        };
        assert(copy@.tile_content =~= self@.tile_content);
        copy
    }
}

/// The width of the map of a game.
pub const MAP_WIDTH: i32 = 80;

/// The height of the map of a game.
pub const MAP_HEIGHT: i32 = 43;

/// The most rooms that a generated map has.
pub const MAX_ROOMS: i32 = 30;

/// The least width and height of a generated room.
pub const MIN_SIZE: i32 = 6;

/// What the width and height of a generated room stay below.
pub const MAX_SIZE: i32 = 10;

impl Rect {
    /// Whether `(x, y)` is a tile of the room that the rectangle stands
    /// for: the first column and the first row of the rectangle are wall.
    pub open spec fn holds(self, x: int, y: int) -> bool {
        self.x1 < x <= self.x2 && self.y1 < y <= self.y2
    }
}

impl GameMapView {
    /// Whether the tile with index `i` has its column between `x_lo` and
    /// `x_hi` and its row between `y_lo` and `y_hi`.
    pub open spec fn boxed(self, i: int, x_lo: int, x_hi: int, y_lo: int, y_hi: int) -> bool {
        x_lo <= i % (self.width as int) <= x_hi && y_lo <= i / (self.width as int) <= y_hi
    }

    /// The map with every tile of the given box turned into floor.
    pub open spec fn dug(self, x_lo: int, x_hi: int, y_lo: int, y_hi: int) -> GameMapView {
        GameMapView {
            tiles: Seq::new(
                self.tiles.len(),
                |i: int|
                    if self.boxed(i, x_lo, x_hi, y_lo, y_hi) {
                        TileType::Floor
                    } else {
                        self.tiles[i]
                    },
            ),
            ..self
        }
    }

    /// Whether every tile of `room` that lies on the map is floor.
    pub open spec fn floored(self, room: Rect) -> bool {
        forall|x: int, y: int|
            room.holds(x, y) && self.in_bounds(x, y) ==> self.tiles[#[trigger] self.xy_idx(x, y)]
                == TileType::Floor
    }

    /// Whether `room` lies on the map, away from its edges.
    pub open spec fn encloses(self, room: Rect) -> bool {
        0 <= room.x1 < room.x2 < self.width - 1 && 0 <= room.y1 < room.y2 < self.height - 1
    }
}

/// Digging leaves floor where floor was.
pub proof fn lemma_dug_keeps_floor(m: GameMapView, x_lo: int, x_hi: int, y_lo: int, y_hi: int, room: Rect)
    requires
        m.wf(),
        m.floored(room),
    ensures
        m.dug(x_lo, x_hi, y_lo, y_hi).floored(room),
{
    let d = m.dug(x_lo, x_hi, y_lo, y_hi);
    assert forall|x: int, y: int| room.holds(x, y) && d.in_bounds(x, y) implies d.tiles[#[trigger] d.xy_idx(
        x,
        y,
    )] == TileType::Floor by {
        lemma_xy_idx_in_range(m, x, y);
        assert(m.tiles[m.xy_idx(x, y)] == TileType::Floor);
    }
}

/// Digging out a room leaves all of it floor.
pub proof fn lemma_dug_floors(m: GameMapView, room: Rect)
    requires
        m.wf(),
    ensures
        m.dug(room.x1 + 1, room.x2 as int, room.y1 + 1, room.y2 as int).floored(room),
{
    let d = m.dug(room.x1 + 1, room.x2 as int, room.y1 + 1, room.y2 as int);
    assert forall|x: int, y: int| room.holds(x, y) && d.in_bounds(x, y) implies d.tiles[#[trigger] d.xy_idx(
        x,
        y,
    )] == TileType::Floor by {
        lemma_xy_idx_in_range(m, x, y);
    }
}

impl GameMap {
    /// Turns every tile in the columns from `x_lo` to `x_hi` and the rows
    /// from `y_lo` to `y_hi` into floor.
    pub fn dig(&mut self, x_lo: i32, x_hi: i32, y_lo: i32, y_hi: i32)
        requires
            old(self).wf(),
        ensures
            final(self).wf(),
            final(self)@ == old(self)@.dug(x_lo as int, x_hi as int, y_lo as int, y_hi as int),
    {
        let n = self.tiles.len();
        let ghost m = old(self)@;
        let mut i: usize = 0;
        while i < n
            invariant
                i <= n,
                n == m.area(),
                m == old(self)@,
                m.wf(),
                self.wf(),
                self@ == (GameMapView { tiles: self@.tiles, ..m }),
                forall|j: int| 0 <= j < i ==> self@.tiles[j] == (if m.boxed(
                    j,
                    x_lo as int,
                    x_hi as int,
                    y_lo as int,
                    y_hi as int,
                ) {
                    TileType::Floor
                } else {
                    m.tiles[j]
                }),
                forall|j: int| i <= j < n ==> self@.tiles[j] == m.tiles[j],
            decreases n - i,
        {
            let (x, y) = self.idx_xy(i);
            if x_lo <= x && x <= x_hi && y_lo <= y && y <= y_hi {
                self.tiles[i] = TileType::Floor;
                assert(self@.tile_content =~= m.tile_content);
            }
            i = i + 1;
        }
        assert(self@.tiles =~= m.dug(x_lo as int, x_hi as int, y_lo as int, y_hi as int).tiles);
    }

    /// Digs out the room that `room` stands for.
    pub fn apply_room_to_map(&mut self, room: &Rect)
        requires
            old(self).wf(),
            room.x1 < i32::MAX,
            room.y1 < i32::MAX,
        ensures
            final(self).wf(),
            final(self)@ == old(self)@.dug(room.x1 + 1, room.x2 as int, room.y1 + 1, room.y2 as int),
    {
        self.dig(room.x1 + 1, room.x2, room.y1 + 1, room.y2);
    }

    /// Digs a tunnel along the row `y`, between the columns `x1` and `x2`.
    pub fn apply_horizontal_tunnel(&mut self, x1: i32, x2: i32, y: i32)
        requires
            old(self).wf(),
        ensures
            final(self).wf(),
            final(self)@ == old(self)@.dug(
                if x1 <= x2 { x1 as int } else { x2 as int },
                if x1 <= x2 { x2 as int } else { x1 as int },
                y as int,
                y as int,
            ),
    {
        if x1 <= x2 {
            self.dig(x1, x2, y, y);
        } else {
            self.dig(x2, x1, y, y);
        }
    }

    /// Digs a tunnel along the column `x`, between the rows `y1` and `y2`.
    pub fn apply_vertical_tunnel(&mut self, y1: i32, y2: i32, x: i32)
        requires
            old(self).wf(),
        ensures
            final(self).wf(),
            final(self)@ == old(self)@.dug(
                x as int,
                x as int,
                if y1 <= y2 { y1 as int } else { y2 as int },
                if y1 <= y2 { y2 as int } else { y1 as int },
            ),
    {
        if y1 <= y2 {
            self.dig(x, x, y1, y2);
        } else {
            self.dig(x, x, y2, y1);
        }
    }

    /// Whether `room` shares a tile with one of `rooms`.
    fn crowded(rooms: &Vec<Rect>, room: &Rect) -> (taken: bool)
        ensures
            taken == exists|k: int| 0 <= k < rooms@.len() && room.overlaps(#[trigger] rooms@[k]),
    {
        let mut k: usize = 0;
        while k < rooms.len()
            invariant
                k <= rooms.len(),
                forall|j: int| 0 <= j < k ==> !room.overlaps(#[trigger] rooms@[j]),
            decreases rooms.len() - k,
        {
            if room.intersect(&rooms[k]) {
                return true;
            }
            k = k + 1;
        }
        false
    }

    /// Whether the map is one of rooms and corridors: it has a room; every
    /// room lies on the map away from its edges, is at least `MIN_SIZE`
    /// wide and high, and is all floor; no two rooms share a tile; exactly
    /// the walls are blocked; and nothing has been seen and nobody stands
    /// anywhere.
    pub open spec fn rooms_and_corridors(&self) -> bool {
        let m = self@;
        &&& m.wf()
        &&& 1 <= m.rooms.len() <= MAX_ROOMS
        &&& forall|k: int| 0 <= k < m.rooms.len() ==> m.encloses(#[trigger] m.rooms[k])
        &&& forall|k: int| 0 <= k < m.rooms.len() ==> MIN_SIZE <= (#[trigger] m.rooms[k]).x2 - m.rooms[k].x1
            < MAX_SIZE && MIN_SIZE <= m.rooms[k].y2 - m.rooms[k].y1 < MAX_SIZE
        &&& forall|k: int| 0 <= k < m.rooms.len() ==> m.floored(#[trigger] m.rooms[k])
        &&& forall|j: int, k: int| 0 <= j < k < m.rooms.len() ==> !(#[trigger] m.rooms[k]).overlaps(
            #[trigger] m.rooms[j],
        )
        &&& forall|i: int| 0 <= i < m.area() ==> #[trigger] m.blocked_tiles[i] == (m.tiles[i] == TileType::Wall)
        &&& forall|i: int| 0 <= i < m.area() ==> !#[trigger] m.revealed_tiles[i]
        &&& forall|i: int| 0 <= i < m.area() ==> !#[trigger] m.visible_tiles[i]
        &&& forall|i: int| 0 <= i < m.area() ==> (#[trigger] m.tile_content[i]).len() == 0
    }

    /// Makes a map of the given size with rooms, placed by dice where they
    /// share no tile, and a corridor from each room to the one before it.
    pub fn new_map_rooms_and_corridors(width: i32, height: i32, rng: &mut rltk::RandomNumberGenerator) -> (map: GameMap)
        requires
            MAX_SIZE + 2 <= width,
            MAX_SIZE + 2 <= height,
            width * height <= usize::MAX,
        ensures
            map.rooms_and_corridors(),
            map@.width == width,
            map@.height == height,
    {
        let mut map = GameMap::new(width, height);
        let mut i: i32 = 0;
        while i < MAX_ROOMS
            invariant
                0 <= i <= MAX_ROOMS,
                MAX_SIZE + 2 <= width,
                MAX_SIZE + 2 <= height,
                map.wf(),
                map@.width == width,
                map@.height == height,
                map.rooms@.len() <= i,
                i > 0 ==> map.rooms@.len() >= 1,
                forall|k: int| 0 <= k < map@.rooms.len() ==> map@.encloses(#[trigger] map@.rooms[k]),
                forall|k: int| 0 <= k < map@.rooms.len() ==> MIN_SIZE <= (#[trigger] map@.rooms[k]).x2
                    - map@.rooms[k].x1 < MAX_SIZE && MIN_SIZE <= map@.rooms[k].y2 - map@.rooms[k].y1 < MAX_SIZE,
                forall|k: int| 0 <= k < map@.rooms.len() ==> map@.floored(#[trigger] map@.rooms[k]),
                forall|j: int, k: int| 0 <= j < k < map@.rooms.len() ==> !(#[trigger] map@.rooms[k]).overlaps(
                    #[trigger] map@.rooms[j],
                ),
                forall|t: int| 0 <= t < map@.area() ==> !#[trigger] map@.revealed_tiles[t],
                forall|t: int| 0 <= t < map@.area() ==> !#[trigger] map@.visible_tiles[t],
                forall|t: int| 0 <= t < map@.area() ==> (#[trigger] map@.tile_content[t]).len() == 0,
            decreases MAX_ROOMS - i,
        {
            let w = roll_dice(rng, 1, MAX_SIZE - MIN_SIZE) + MIN_SIZE - 1;
            let h = roll_dice(rng, 1, MAX_SIZE - MIN_SIZE) + MIN_SIZE - 1;
            assert(1 * (width - w - 1) == width - w - 1) by (nonlinear_arith);
            assert(1 * (height - h - 1) == height - h - 1) by (nonlinear_arith);
            let x = roll_dice(rng, 1, width - w - 1) - 1;
            let y = roll_dice(rng, 1, height - h - 1) - 1;
            let new_room = Rect::new(x, y, w, h);
            if !Self::crowded(&map.rooms, &new_room) {
                let ghost before = map@;
                map.apply_room_to_map(&new_room);
                proof {
                    lemma_dug_floors(before, new_room);
                    assert forall|k: int| 0 <= k < before.rooms.len() implies map@.floored(#[trigger] before.rooms[k]) by {
                        lemma_dug_keeps_floor(before, new_room.x1 + 1, new_room.x2 as int, new_room.y1 + 1, new_room.y2 as int, before.rooms[k]);
                    }
                }
                if map.rooms.len() > 0 {
                    let (new_x, new_y) = new_room.center();
                    let (prev_x, prev_y) = map.rooms[map.rooms.len() - 1].center();
                    let ghost dug_room = map@;
                    if roll_dice(rng, 1, 2) == 1 {
                        map.apply_horizontal_tunnel(prev_x, new_x, prev_y);
                        let ghost mid = map@;
                        map.apply_vertical_tunnel(prev_y, new_y, new_x);
                        proof {
                            assert forall|r: Rect| dug_room.floored(r) implies map@.floored(r) by {
                                lemma_dug_keeps_floor(dug_room, if prev_x <= new_x { prev_x as int } else { new_x as int }, if prev_x <= new_x { new_x as int } else { prev_x as int }, prev_y as int, prev_y as int, r);
                                lemma_dug_keeps_floor(mid, new_x as int, new_x as int, if prev_y <= new_y { prev_y as int } else { new_y as int }, if prev_y <= new_y { new_y as int } else { prev_y as int }, r);
                            }
                        }
                    } else {
                        map.apply_vertical_tunnel(prev_y, new_y, prev_x);
                        let ghost mid = map@;
                        map.apply_horizontal_tunnel(prev_x, new_x, new_y);
                        proof {
                            assert forall|r: Rect| dug_room.floored(r) implies map@.floored(r) by {
                                lemma_dug_keeps_floor(dug_room, prev_x as int, prev_x as int, if prev_y <= new_y { prev_y as int } else { new_y as int }, if prev_y <= new_y { new_y as int } else { prev_y as int }, r);
                                lemma_dug_keeps_floor(mid, if prev_x <= new_x { prev_x as int } else { new_x as int }, if prev_x <= new_x { new_x as int } else { prev_x as int }, new_y as int, new_y as int, r);
                            }
                        }
                    }
                }
                let ghost dug_all = map@;
                map.rooms.push(new_room);
                proof {
                    assert(map@.tile_content =~= dug_all.tile_content);
                    assert forall|k: int| 0 <= k < map@.rooms.len() implies map@.floored(#[trigger] map@.rooms[k]) by {
                        let r = map@.rooms[k];
                        if k < before.rooms.len() {
                            assert(r == before.rooms[k]);
                        }
                        assert(dug_all.floored(r));
                        assert forall|x: int, y: int| r.holds(x, y) && map@.in_bounds(x, y) implies map@.tiles[#[trigger] map@.xy_idx(x, y)] == TileType::Floor by {
                            assert(dug_all.tiles[dug_all.xy_idx(x, y)] == TileType::Floor);
                        }
                    }
                    assert forall|j: int, k: int| 0 <= j < k < map@.rooms.len() implies !(#[trigger] map@.rooms[k]).overlaps(#[trigger] map@.rooms[j]) by {
                        if k == before.rooms.len() {
                            assert(map@.rooms[j] == before.rooms[j]);
                        } else {
                            assert(map@.rooms[j] == before.rooms[j]);
                            assert(map@.rooms[k] == before.rooms[k]);
                        }
                    }
                }
            } else {
                assert(map.rooms@.len() >= 1);
            }
            i = i + 1;
        }
        let ghost dug = map@;
        map.populate_blocked();
        proof {
            let m = map@;
            assert forall|k: int| 0 <= k < m.rooms.len() implies m.floored(#[trigger] m.rooms[k]) by {
                let r = m.rooms[k];
                assert(dug.floored(dug.rooms[k]));
                assert forall|x: int, y: int| r.holds(x, y) && m.in_bounds(x, y) implies m.tiles[#[trigger] m.xy_idx(
                    x,
                    y,
                )] == TileType::Floor by {
                    assert(dug.tiles[dug.xy_idx(x, y)] == TileType::Floor);
                }
            }
            assert forall|k: int| 0 <= k < m.rooms.len() implies m.encloses(#[trigger] m.rooms[k]) by {
                assert(dug.encloses(dug.rooms[k]));
            }
            assert forall|t: int| 0 <= t < m.area() implies !#[trigger] m.revealed_tiles[t] by {
                assert(!dug.revealed_tiles[t]);
            }
            assert forall|t: int| 0 <= t < m.area() implies !#[trigger] m.visible_tiles[t] by {
                assert(!dug.visible_tiles[t]);
            }
            assert forall|t: int| 0 <= t < m.area() implies (#[trigger] m.tile_content[t]).len() == 0 by {
                assert(dug.tile_content[t].len() == 0);
            }
        }
        map
    }
}

} // verus!
